//! Character-level text operations shared by the rest of the crate: ASCII case
//! mapping, capitalisation, substring replacement and single-quote shell escaping.
//! Every operation is stated over the `Seq<char>` view of the strings involved.
use vstd::prelude::*;
use vstd::string::*;

verus! {

// ---------------------------------------------------------------------------
// Specifications
// ---------------------------------------------------------------------------

/// ASCII upper-casing of one character: `a`..=`z` become `A`..=`Z`, all else is kept.
pub open spec fn upper_char(c: char) -> char {
    if 'a' <= c && c <= 'z' {
        ((c as u32) - 32) as char
    } else {
        c
    }
}

/// ASCII lower-casing of one character: `A`..=`Z` become `a`..=`z`, all else is kept.
pub open spec fn lower_char(c: char) -> char {
    if 'A' <= c && c <= 'Z' {
        ((c as u32) + 32) as char
    } else {
        c
    }
}

/// ASCII lower-casing of a whole text.
pub open spec fn lowered(s: Seq<char>) -> Seq<char> {
    s.map_values(|c: char| lower_char(c))
}

/// The text with its first character upper-cased (ASCII only); the empty text stays empty.
pub open spec fn capitalized(s: Seq<char>) -> Seq<char> {
    if s.len() == 0 {
        s
    } else {
        seq![upper_char(s[0])] + s.drop_first()
    }
}

/// `s` with every non-overlapping occurrence of `pat`, scanned from the left, replaced by
/// `rep`. An empty pattern leaves the text as it is (callers never pass one).
pub open spec fn replaced(s: Seq<char>, pat: Seq<char>, rep: Seq<char>) -> Seq<char>
    decreases s.len(),
{
    if pat.len() == 0 || s.len() < pat.len() {
        s
    } else if s.take(pat.len() as int) == pat {
        rep + replaced(s.skip(pat.len() as int), pat, rep)
    } else {
        seq![s[0]] + replaced(s.drop_first(), pat, rep)
    }
}

/// What a single quote inside a single-quoted shell word is turned into: close the
/// quote, an escaped quote, open the quote again.
pub open spec fn quote_escape() -> Seq<char> {
    seq!['\'', '\\', '\'', '\'']
}

/// A text wrapped as one single-quoted POSIX shell word.
pub open spec fn single_quoted(s: Seq<char>) -> Seq<char> {
    seq!['\''] + replaced(s, seq!['\''], quote_escape()) + seq!['\'']
}

/// The characters that a POSIX shell reads out of `s` when it parses it as a word made
/// of single-quoted parts, backslash escapes and plain characters. `quoted` says whether
/// the parse starts inside single quotes.
pub open spec fn shell_word(s: Seq<char>, quoted: bool) -> Seq<char>
    decreases s.len(),
{
    if s.len() == 0 {
        seq![]
    } else if quoted {
        if s[0] == '\'' {
            shell_word(s.drop_first(), false)
        } else {
            seq![s[0]] + shell_word(s.drop_first(), true)
        }
    } else if s[0] == '\'' {
        shell_word(s.drop_first(), true)
    } else if s[0] == '\\' && s.len() >= 2 {
        seq![s[1]] + shell_word(s.skip(2), false)
    } else {
        seq![s[0]] + shell_word(s.drop_first(), false)
    }
}

// ---------------------------------------------------------------------------
// Laws
// ---------------------------------------------------------------------------

proof fn lemma_shell_word_of_escaped(v: Seq<char>, t: Seq<char>)
    ensures
        shell_word(replaced(v, seq!['\''], quote_escape()) + t, true) == v + shell_word(t, true),
    decreases v.len(),
{
    let q = seq!['\''];
    let e = quote_escape();
    if v.len() == 0 {
        assert(replaced(v, q, e) == v);
        assert(v + t =~= t);
        assert(v + shell_word(t, true) =~= shell_word(t, true));
    } else {
        lemma_shell_word_of_escaped(v.drop_first(), t);
        let rest = replaced(v.drop_first(), q, e);
        assert(v.skip(1) =~= v.drop_first());
        if v[0] == '\'' {
            assert(v.take(1) =~= q);
            assert(replaced(v, q, e) == e + rest);
            let w = e + rest + t;
            assert(w[0] == '\'');
            assert(w.drop_first() =~= seq!['\\', '\'', '\''] + rest + t);
            let w1 = w.drop_first();
            assert(w1[0] == '\\' && w1.len() >= 2 && w1[1] == '\'');
            assert(w1.skip(2) =~= seq!['\''] + rest + t);
            let w2 = w1.skip(2);
            assert(w2[0] == '\'');
            assert(w2.drop_first() =~= rest + t);
            assert(replaced(v, q, e) + t =~= w);
            assert(shell_word(w, true) == shell_word(w1, false));
            assert(shell_word(w1, false) == seq!['\''] + shell_word(w2, false));
            assert(shell_word(w2, false) == shell_word(rest + t, true));
            assert(shell_word(w, true) == seq!['\''] + shell_word(rest + t, true));
            assert(v =~= seq!['\''] + v.drop_first());
            assert(seq!['\''] + (v.drop_first() + shell_word(t, true)) =~= v + shell_word(t, true));
        } else {
            assert(v.take(1) != q) by {
                assert(v.take(1)[0] == v[0]);
            }
            assert(replaced(v, q, e) == seq![v[0]] + rest);
            let w = seq![v[0]] + rest + t;
            assert(replaced(v, q, e) + t =~= w);
            assert(w[0] == v[0]);
            assert(w.drop_first() =~= rest + t);
            assert(v =~= seq![v[0]] + v.drop_first());
            assert(seq![v[0]] + (v.drop_first() + shell_word(t, true)) =~= v + shell_word(t, true));
        }
    }
}

/// A shell reads back exactly the original text from its single-quoted form: quoting
/// loses and adds nothing, whatever quotes or backslashes the text holds.
pub proof fn law_single_quoted_reads_back(v: Seq<char>)
    ensures
        shell_word(single_quoted(v), false) == v,
{
    let body = replaced(v, seq!['\''], quote_escape());
    let s = single_quoted(v);
    assert(s[0] == '\'');
    assert(s.drop_first() =~= body + seq!['\'']);
    lemma_shell_word_of_escaped(v, seq!['\'']);
    let tail = seq!['\''];
    assert(tail.drop_first() =~= Seq::<char>::empty());
    assert(shell_word(tail, true) == shell_word(Seq::<char>::empty(), false));
    assert(v + Seq::<char>::empty() =~= v);
}

/// ASCII lower-casing is idempotent.
pub proof fn law_lowered_idempotent(s: Seq<char>)
    ensures
        lowered(lowered(s)) == lowered(s),
{
    assert forall|i: int| 0 <= i < s.len() implies lower_char(lower_char(s[i])) == lower_char(
        s[i],
    ) by {
        let c = s[i];
        if 'A' <= c && c <= 'Z' {
            assert(((c as u32) + 32) as char == lower_char(c));
        }
    }
    assert(lowered(lowered(s)) =~= lowered(s));
}

/// Capitalising keeps the length and every character after the first.
pub proof fn law_capitalized_keeps_tail(s: Seq<char>)
    ensures
        capitalized(s).len() == s.len(),
        s.len() > 0 ==> capitalized(s).drop_first() == s.drop_first(),
        s.len() > 0 ==> capitalized(s)[0] == upper_char(s[0]),
{
    if s.len() > 0 {
        assert(capitalized(s).drop_first() =~= s.drop_first());
    }
}

/// A text without any occurrence of the pattern is left as it is by replacement.
pub proof fn law_replaced_without_match(s: Seq<char>, pat: Seq<char>, rep: Seq<char>)
    requires
        forall|i: int| 0 <= i && i + pat.len() <= s.len() ==> #[trigger] s.subrange(i, i + pat.len()) != pat,
    ensures
        replaced(s, pat, rep) == s,
    decreases s.len(),
{
    if pat.len() == 0 || s.len() < pat.len() {
    } else {
        assert(s.take(pat.len() as int) =~= s.subrange(0, pat.len() as int));
        assert(s.subrange(0int, 0int + pat.len()) != pat);
        let t = s.drop_first();
        assert forall|i: int| 0 <= i && i + pat.len() <= t.len() implies #[trigger] t.subrange(
            i,
            i + pat.len(),
        ) != pat by {
            assert(t.subrange(i, i + pat.len()) =~= s.subrange(i + 1, i + 1 + pat.len()));
        }
        law_replaced_without_match(t, pat, rep);
        assert(s =~= seq![s[0]] + t);
    }
}


/// Replacing a one-character pattern by a text without that character leaves none of it.
pub proof fn law_replaced_removes_char(s: Seq<char>, q: char, rep: Seq<char>)
    requires
        forall|j: int| 0 <= j < rep.len() ==> #[trigger] rep[j] != q,
    ensures
        forall|i: int| 0 <= i < replaced(s, seq![q], rep).len() ==> #[trigger] replaced(s, seq![q], rep)[i] != q,
    decreases s.len(),
{
    let p = seq![q];
    if s.len() >= 1 {
        law_replaced_removes_char(s.drop_first(), q, rep);
        assert(s.skip(1) =~= s.drop_first());
        let rest = replaced(s.drop_first(), p, rep);
        if s.take(1) == p {
            let r = rep + rest;
            assert forall|i: int| 0 <= i < r.len() implies #[trigger] r[i] != q by {
                if i >= rep.len() {
                    assert(r[i] == rest[i - rep.len()]);
                }
            }
        } else {
            assert(s.take(1)[0] == s[0]);
            assert(s[0] != q) by {
                if s[0] == q {
                    assert(s.take(1) =~= p);
                }
            }
            let r = seq![s[0]] + rest;
            assert forall|i: int| 0 <= i < r.len() implies #[trigger] r[i] != q by {
                if i >= 1 {
                    assert(r[i] == rest[i - 1]);
                }
            }
        }
    }
}


/// Replacement works on the leftmost occurrence first: where the first occurrence of the
/// pattern starts right after `a`, the result is `a`, the replacement, and then the rest
/// replaced in the same way. With `law_replaced_without_match` this fixes the result.
pub proof fn law_replaced_first_occurrence(
    a: Seq<char>,
    pat: Seq<char>,
    rep: Seq<char>,
    b: Seq<char>,
)
    requires
        pat.len() > 0,
        forall|i: int|
            0 <= i < a.len() && i + pat.len() <= a.len() + pat.len() + b.len() ==> #[trigger] (a
                + pat + b).subrange(i, i + pat.len()) != pat,
    ensures
        replaced(a + pat + b, pat, rep) == a + rep + replaced(b, pat, rep),
    decreases a.len(),
{
    let s = a + pat + b;
    let m = pat.len() as int;
    if a.len() == 0 {
        assert(s =~= pat + b);
        assert(s.take(m) =~= pat);
        assert(s.skip(m) =~= b);
        assert(a + rep + replaced(b, pat, rep) =~= rep + replaced(b, pat, rep));
    } else {
        assert(s.take(m) =~= s.subrange(0, 0 + m));
        assert(s.subrange(0, 0 + m) != pat);
        let a1 = a.drop_first();
        let s1 = a1 + pat + b;
        assert(s.drop_first() =~= s1);
        assert forall|i: int|
            0 <= i < a1.len() && i + pat.len() <= a1.len() + pat.len() + b.len() implies #[trigger] s1.subrange(
            i,
            i + pat.len(),
        ) != pat by {
            assert(s1.subrange(i, i + pat.len()) =~= s.subrange(i + 1, i + 1 + pat.len()));
        }
        law_replaced_first_occurrence(a1, pat, rep, b);
        assert(s[0] == a[0]);
        assert(a =~= seq![a[0]] + a1);
        assert(seq![a[0]] + (a1 + rep + replaced(b, pat, rep)) =~= a + rep + replaced(b, pat, rep));
    }
}

// ---------------------------------------------------------------------------
// Executable operations
// ---------------------------------------------------------------------------

/// `String::push` appends one character.
pub assume_specification[ String::push ](s: &mut String, ch: char)
    ensures
        final(s)@ == old(s)@.push(ch),
;

pub fn ascii_upper(c: char) -> (r: char)
    ensures
        r == upper_char(c),
{
    if 'a' <= c && c <= 'z' {
        let b: u8 = c as u8;
        (b - 32) as char
    } else {
        c
    }
}

pub fn ascii_lower(c: char) -> (r: char)
    ensures
        r == lower_char(c),
{
    if 'A' <= c && c <= 'Z' {
        let b: u8 = c as u8;
        (b + 32) as char
    } else {
        c
    }
}

/// The characters of a text, in order.
pub fn chars_of(s: &str) -> (v: Vec<char>)
    ensures
        v@ == s@,
{
    let n = s.unicode_len();
    let mut v: Vec<char> = Vec::new();
    let mut i: usize = 0;
    while i < n
        invariant
            n == s@.len(),
            i <= n,
            v@ == s@.take(i as int),
        decreases n - i,
    {
        v.push(s.get_char(i));
        i = i + 1;
        assert(v@ =~= s@.take(i as int));
    }
    assert(v@ =~= s@);
    v
}

/// Appends the characters `v[from..]` to `out`.
pub fn push_chars_from(out: &mut String, v: &Vec<char>, from: usize)
    requires
        from <= v@.len(),
    ensures
        final(out)@ == old(out)@ + v@.skip(from as int),
{
    let n = v.len();
    let mut i = from;
    while i < n
        invariant
            n == v@.len(),
            from <= i <= n,
            out@ == old(out)@ + v@.subrange(from as int, i as int),
        decreases n - i,
    {
        out.push(v[i]);
        i = i + 1;
        assert(out@ =~= old(out)@ + v@.subrange(from as int, i as int));
    }
    assert(v@.subrange(from as int, n as int) =~= v@.skip(from as int));
}

/// The text made of the given characters.
pub fn string_of(v: &Vec<char>) -> (s: String)
    ensures
        s@ == v@,
{
    let mut s = String::new();
    push_chars_from(&mut s, v, 0);
    assert(v@.skip(0) =~= v@);
    s
}

/// Whether two texts are equal.
pub fn text_eq(a: &str, b: &str) -> (r: bool)
    ensures
        r == (a@ == b@),
{
    let x = String::from_str(a);
    let y = String::from_str(b);
    x == y
}

/// ASCII lower-cased copy of a text (`str::to_ascii_lowercase`).
pub fn to_ascii_lowercase(s: &str) -> (r: String)
    ensures
        r@ == lowered(s@),
{
    let v = chars_of(s);
    let n = v.len();
    let mut out = String::new();
    let mut i: usize = 0;
    while i < n
        invariant
            n == v@.len(),
            v@ == s@,
            i <= n,
            out@ == lowered(s@.take(i as int)),
        decreases n - i,
    {
        out.push(ascii_lower(v[i]));
        i = i + 1;
        assert(out@ =~= lowered(s@.take(i as int)));
    }
    assert(s@.take(n as int) =~= s@);
    out
}

/// The text with its first character upper-cased (ASCII only).
pub fn capitalize_first(value: &str) -> (r: String)
    ensures
        r@ == capitalized(value@),
{
    let v = chars_of(value);
    if v.len() == 0 {
        return String::new();
    }
    let mut out = String::new();
    out.push(ascii_upper(v[0]));
    push_chars_from(&mut out, &v, 1);
    assert(v@.skip(1) =~= v@.drop_first());
    assert(out@ =~= capitalized(value@));
    out
}

/// Whether `pat` occurs in `s` at position `at`.
fn occurs_at(s: &Vec<char>, pat: &Vec<char>, at: usize) -> (r: bool)
    requires
        at + pat@.len() <= s@.len(),
    ensures
        r == (s@.subrange(at as int, at + pat@.len()) == pat@),
{
    let m = pat.len();
    let n = s.len();
    let mut j: usize = 0;
    while j < m
        invariant
            m == pat@.len(),
            n == s@.len(),
            at + m <= s@.len(),
            j <= m,
            forall|k: int| 0 <= k < j ==> s@[at + k] == pat@[k],
        decreases m - j,
    {
        if s[at + j] != pat[j] {
            assert(s@.subrange(at as int, at + m)[j as int] != pat@[j as int]);
            return false;
        }
        j = j + 1;
    }
    assert(s@.subrange(at as int, at + m) =~= pat@);
    true
}

/// `s` with every non-overlapping occurrence of `pat` replaced by `rep`, scanning from the
/// left (`str::replace`).
pub fn replace_all(s: &str, pat: &str, rep: &str) -> (r: String)
    requires
        pat@.len() > 0,
    ensures
        r@ == replaced(s@, pat@, rep@),
{
    let sv = chars_of(s);
    let pv = chars_of(pat);
    let n = sv.len();
    let m = pv.len();
    let mut out = String::new();
    let mut i: usize = 0;
    assert(sv@.skip(0) =~= sv@);
    while i < n
        invariant
            n == sv@.len(),
            m == pv@.len(),
            m > 0,
            sv@ == s@,
            pv@ == pat@,
            i <= n,
            out@ + replaced(sv@.skip(i as int), pv@, rep@) == replaced(s@, pat@, rep@),
        decreases n - i,
    {
        let ghost t = sv@.skip(i as int);
        if m <= n - i && occurs_at(&sv, &pv, i) {
            assert(t.take(m as int) =~= sv@.subrange(i as int, i + m));
            assert(t.skip(m as int) =~= sv@.skip(i + m));
            out.append(rep);
            i = i + m;
            assert(out@ + replaced(sv@.skip(i as int), pv@, rep@) =~= replaced(s@, pat@, rep@));
        } else {
            proof {
                if i + m <= n {
                    assert(t.take(m as int) =~= sv@.subrange(i as int, i + m));
                }
                assert(t.drop_first() =~= sv@.skip(i + 1));
                if t.len() < m {
                    assert(replaced(t, pv@, rep@) == t);
                    assert(replaced(t.drop_first(), pv@, rep@) == t.drop_first());
                    assert(t =~= seq![t[0]] + t.drop_first());
                }
            }
            assert(replaced(t, pv@, rep@) == seq![t[0]] + replaced(t.drop_first(), pv@, rep@));
            out.push(sv[i]);
            i = i + 1;
            assert(out@ + replaced(sv@.skip(i as int), pv@, rep@) =~= replaced(s@, pat@, rep@));
        }
    }
    assert(sv@.skip(n as int) =~= Seq::<char>::empty());
    assert(out@ + Seq::<char>::empty() =~= out@);
    out
}

/// The text as a single-quoted POSIX shell word: each `'` becomes `'\''` and the whole
/// is wrapped in single quotes.
pub fn shell_escape_single_quotes(value: &str) -> (r: String)
    ensures
        r@ == single_quoted(value@),
{
    let q = "'";
    let e = "'\\''";
    proof {
        reveal_strlit("'");
        reveal_strlit("'\\''");
    }
    assert(q@ =~= seq!['\'']);
    assert(e@ =~= quote_escape());
    let escaped = replace_all(value, q, e);
    let mut out = String::from_str(q);
    out.append(escaped.as_str());
    out.append(q);
    out
}

} // verus!
