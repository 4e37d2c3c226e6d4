//! The cameras the viewer offers: their display labels and the order of their buttons.
use vstd::prelude::*;
use vstd::string::*;
use vstd::seq_lib::*;

use crate::config::{AppConfig, CameraConfig};
use crate::text::{ascii_upper, capitalized, chars_of, push_chars_from, string_of};

verus! {

// ---------------------------------------------------------------------------
// Labels
// ---------------------------------------------------------------------------

/// The characters that separate the words of a camera key.
pub open spec fn is_separator(c: char) -> bool {
    c == '_' || c == '-'
}

pub open spec fn ends_with(s: Seq<char>, suffix: Seq<char>) -> bool {
    suffix.len() <= s.len() && s.skip(s.len() - suffix.len()) == suffix
}

/// A key without its trailing `_rtsp_url` or, failing that, `-rtsp-url`.
pub open spec fn without_stream_suffix(s: Seq<char>) -> Seq<char> {
    if ends_with(s, "_rtsp_url"@) {
        s.take(s.len() - "_rtsp_url"@.len())
    } else if ends_with(s, "-rtsp-url"@) {
        s.take(s.len() - "-rtsp-url"@.len())
    } else {
        s
    }
}

/// The words of a text: its maximal runs of characters that are not separators, in
/// order. A non-separator extends the word of the character before it, if that one is
/// no separator, and starts a new word otherwise.
pub open spec fn words(s: Seq<char>) -> Seq<Seq<char>>
    decreases s.len(),
{
    if s.len() == 0 {
        seq![]
    } else {
        let w = words(s.drop_last());
        let c = s.last();
        if is_separator(c) {
            w
        } else if s.len() >= 2 && !is_separator(s[s.len() - 2]) {
            w.update(w.len() - 1, w.last().push(c))
        } else {
            w.push(seq![c])
        }
    }
}

/// The texts of `ws` with `sep` between each two neighbours.
pub open spec fn joined(ws: Seq<Seq<char>>, sep: Seq<char>) -> Seq<char>
    decreases ws.len(),
{
    if ws.len() == 0 {
        seq![]
    } else if ws.len() == 1 {
        ws[0]
    } else {
        joined(ws.drop_last(), sep) + sep + ws.last()
    }
}

/// The words of a text, each capitalised.
pub open spec fn capitalized_words(ws: Seq<Seq<char>>) -> Seq<Seq<char>> {
    ws.map_values(|w: Seq<char>| capitalized(w))
}

/// The label shown for a camera that the configuration gives none: the key without its
/// stream suffix, split into words at `_` and `-`, each word capitalised, joined by single
/// spaces; a key without any word is shown as it is after the suffix is taken off.
pub open spec fn default_label_of(id: Seq<char>) -> Seq<char> {
    let t = without_stream_suffix(id);
    let ws = words(t);
    if ws.len() == 0 {
        t
    } else {
        joined(capitalized_words(ws), seq![' '])
    }
}

proof fn lemma_words_shape(s: Seq<char>)
    ensures
        forall|i: int| 0 <= i < words(s).len() ==> #[trigger] words(s)[i].len() > 0,
        forall|i: int, j: int|
            0 <= i < words(s).len() && 0 <= j < words(s)[i].len() ==> !is_separator(
                #[trigger] words(s)[i][j],
            ),
        (s.len() > 0 && !is_separator(s.last())) ==> words(s).len() > 0,
    decreases s.len(),
{
    if s.len() > 0 {
        lemma_words_shape(s.drop_last());
        let w = words(s.drop_last());
        let c = s.last();
        if is_separator(c) {
        } else if s.len() >= 2 && !is_separator(s[s.len() - 2]) {
            assert(s.drop_last().last() == s[s.len() - 2]);
            assert(w.len() > 0);
            let nw = w.update(w.len() - 1, w.last().push(c));
            assert forall|i: int, j: int|
                0 <= i < nw.len() && 0 <= j < nw[i].len() implies !is_separator(
                #[trigger] nw[i][j],
            ) by {
                if i == w.len() - 1 && j == w.last().len() {
                } else if i == w.len() - 1 {
                    assert(nw[i][j] == w[i][j]);
                }
            }
        } else {
        }
    }
}

/// A label made up from a key that has words holds neither `_` nor `-`: its words are
/// separated by single spaces.
pub proof fn law_default_label_has_no_separators(id: Seq<char>)
    requires
        words(without_stream_suffix(id)).len() > 0,
    ensures
        forall|i: int|
            0 <= i < default_label_of(id).len() ==> !is_separator(
                #[trigger] default_label_of(id)[i],
            ),
{
    let ws = words(without_stream_suffix(id));
    lemma_words_shape(without_stream_suffix(id));
    let cs = capitalized_words(ws);
    assert forall|k: int, j: int| 0 <= k < cs.len() && 0 <= j < cs[k].len() implies !is_separator(
        #[trigger] cs[k][j],
    ) by {
        if j == 0 {
            assert(cs[k][0] == crate::text::upper_char(ws[k][0]));
            assert(!is_separator(ws[k][0]));
        } else {
            assert(cs[k][j] == ws[k][j]);
        }
    }
    lemma_joined_free(cs);
}

proof fn lemma_joined_free(ws: Seq<Seq<char>>)
    requires
        forall|k: int, j: int| 0 <= k < ws.len() && 0 <= j < ws[k].len() ==> !is_separator(
            #[trigger] ws[k][j],
        ),
    ensures
        forall|i: int| 0 <= i < joined(ws, seq![' ']).len() ==> !is_separator(
            #[trigger] joined(ws, seq![' '])[i],
        ),
    decreases ws.len(),
{
    if ws.len() == 0 {
    } else if ws.len() == 1 {
        assert forall|i: int| 0 <= i < joined(ws, seq![' ']).len() implies !is_separator(
            #[trigger] joined(ws, seq![' '])[i],
        ) by {
            assert(ws[0][i] == joined(ws, seq![' '])[i]);
        }
    } else {
        let p = ws.drop_last();
        assert forall|k: int, j: int| 0 <= k < p.len() && 0 <= j < p[k].len() implies !is_separator(
            #[trigger] p[k][j],
        ) by {
            assert(p[k] == ws[k]);
        }
        lemma_joined_free(p);
        let a = joined(p, seq![' ']);
        let l = ws.last();
        assert forall|i: int| 0 <= i < joined(ws, seq![' ']).len() implies !is_separator(
            #[trigger] joined(ws, seq![' '])[i],
        ) by {
            let r = joined(ws, seq![' ']);
            assert(r == a + seq![' '] + l);
            if i < a.len() {
                assert(r[i] == a[i]);
            } else if i == a.len() {
                assert(r[i] == ' ');
            } else {
                assert(r[i] == l[i - a.len() - 1]);
                assert(l == ws[ws.len() - 1]);
            }
        }
    }
}

/// Whether `v` ends with `suffix`.
fn ends_with_chars(v: &Vec<char>, suffix: &Vec<char>) -> (r: bool)
    ensures
        r == ends_with(v@, suffix@),
{
    let n = v.len();
    let m = suffix.len();
    if m > n {
        return false;
    }
    let base = n - m;
    let mut j: usize = 0;
    while j < m
        invariant
            n == v@.len(),
            m == suffix@.len(),
            base == n - m,
            j <= m,
            forall|k: int| 0 <= k < j ==> v@[base + k] == suffix@[k],
        decreases m - j,
    {
        if v[base + j] != suffix[j] {
            assert(v@.skip(base as int)[j as int] != suffix@[j as int]);
            return false;
        }
        j = j + 1;
    }
    assert(v@.skip(base as int) =~= suffix@);
    true
}

/// The first `len` characters of `v`.
fn prefix_chars(v: &Vec<char>, len: usize) -> (r: Vec<char>)
    requires
        len <= v@.len(),
    ensures
        r@ == v@.take(len as int),
{
    let mut r: Vec<char> = Vec::new();
    let mut i: usize = 0;
    while i < len
        invariant
            len <= v@.len(),
            i <= len,
            r@ == v@.take(i as int),
        decreases len - i,
    {
        r.push(v[i]);
        i = i + 1;
        assert(r@ =~= v@.take(i as int));
    }
    r
}

/// The views of a list of character vectors.
pub open spec fn char_vecs_view(v: Seq<Vec<char>>) -> Seq<Seq<char>> {
    v.map_values(|w: Vec<char>| w@)
}

/// The words of a text (see `words`).
fn split_words(t: &Vec<char>) -> (r: Vec<Vec<char>>)
    ensures
        char_vecs_view(r@) == words(t@),
{
    let n = t.len();
    let mut done: Vec<Vec<char>> = Vec::new();
    let mut cur: Vec<char> = Vec::new();
    let mut i: usize = 0;
    while i < n
        invariant
            n == t@.len(),
            i <= n,
            cur@.len() > 0 ==> words(t@.take(i as int)) == char_vecs_view(done@).push(cur@),
            cur@.len() == 0 ==> words(t@.take(i as int)) == char_vecs_view(done@),
            (cur@.len() > 0) == (i > 0 && !is_separator(t@[i - 1])),
        decreases n - i,
    {
        let c = t[i];
        let ghost pre = t@.take(i as int);
        let ghost nxt = t@.take(i + 1);
        assert(nxt.drop_last() =~= pre);
        assert(nxt.last() == c);
        if i >= 1 {
            assert(nxt[nxt.len() - 2] == t@[i - 1]);
        }
        if c == '_' || c == '-' {
            if cur.len() > 0 {
                let ghost old_done = done@;
                let ghost old_cur = cur@;
                done.push(cur);
                cur = Vec::new();
                assert(char_vecs_view(done@) =~= char_vecs_view(old_done).push(old_cur));
            }
        } else {
            let ghost old_cur = cur@;
            let ghost dv = char_vecs_view(done@);
            cur.push(c);
            proof {
                if old_cur.len() > 0 {
                    assert(dv.push(old_cur).update(dv.len() as int, old_cur.push(c)) =~= dv.push(
                        cur@,
                    ));
                } else {
                    assert(cur@ =~= seq![c]);
                }
            }
        }
        i = i + 1;
    }
    assert(t@.take(n as int) =~= t@);
    if cur.len() > 0 {
        let ghost old_done = done@;
        let ghost old_cur = cur@;
        done.push(cur);
        assert(char_vecs_view(done@) =~= char_vecs_view(old_done).push(old_cur));
    }
    done
}

/// Appends the capitalised form of `w` to `out`.
fn push_capitalized(out: &mut String, w: &Vec<char>)
    ensures
        final(out)@ == old(out)@ + capitalized(w@),
{
    if w.len() == 0 {
        assert(old(out)@ + capitalized(w@) =~= old(out)@);
        return;
    }
    out.push(ascii_upper(w[0]));
    push_chars_from(out, w, 1);
    assert(w@.skip(1) =~= w@.drop_first());
    assert(final(out)@ =~= old(out)@ + capitalized(w@)) by {
        assert(capitalized(w@) =~= seq![crate::text::upper_char(w@[0])] + w@.drop_first());
    };
}

/// The label shown for a camera whose configuration gives none (see `default_label_of`).
pub fn default_label(id: &str) -> (r: String)
    ensures
        r@ == default_label_of(id@),
{
    let v = chars_of(id);
    let s1 = chars_of("_rtsp_url");
    let s2 = chars_of("-rtsp-url");
    let trimmed = if ends_with_chars(&v, &s1) {
        prefix_chars(&v, v.len() - s1.len())
    } else if ends_with_chars(&v, &s2) {
        prefix_chars(&v, v.len() - s2.len())
    } else {
        prefix_chars(&v, v.len())
    };
    assert(v@.take(v@.len() as int) =~= v@);
    assert(trimmed@ == without_stream_suffix(id@));
    let parts = split_words(&trimmed);
    if parts.len() == 0 {
        return string_of(&trimmed);
    }
    let ghost ws = words(trimmed@);
    let ghost cs = capitalized_words(ws);
    let n = parts.len();
    let mut out = String::new();
    push_capitalized(&mut out, &parts[0]);
    assert(cs.take(1) =~= seq![cs[0]]);
    assert(parts@[0]@ == ws[0]);
    let mut k: usize = 1;
    while k < n
        invariant
            n == parts@.len(),
            char_vecs_view(parts@) == ws,
            cs == capitalized_words(ws),
            1 <= k <= n,
            out@ == joined(cs.take(k as int), seq![' ']),
        decreases n - k,
    {
        out.push(' ');
        push_capitalized(&mut out, &parts[k]);
        assert(parts@[k as int]@ == ws[k as int]);
        assert(cs.take(k + 1).drop_last() =~= cs.take(k as int));
        assert(cs.take(k + 1).last() == cs[k as int]);
        k = k + 1;
    }
    assert(cs.take(n as int) =~= cs);
    out
}

// ---------------------------------------------------------------------------
// Camera order
// ---------------------------------------------------------------------------

/// Lexicographic order of texts by code point, which is the order of `String`'s `Ord`
/// (UTF-8 keeps the code point order byte by byte).
pub open spec fn text_le(a: Seq<char>, b: Seq<char>) -> bool
    decreases a.len(),
{
    if a.len() == 0 {
        true
    } else if b.len() == 0 {
        false
    } else if a[0] != b[0] {
        a[0] < b[0]
    } else {
        text_le(a.drop_first(), b.drop_first())
    }
}

/// Any two texts are ordered one way or the other.
pub proof fn law_text_le_total(a: Seq<char>, b: Seq<char>)
    ensures
        text_le(a, b) || text_le(b, a),
    decreases a.len(),
{
    if a.len() > 0 && b.len() > 0 && a[0] == b[0] {
        law_text_le_total(a.drop_first(), b.drop_first());
    }
}

/// The order is transitive.
pub proof fn law_text_le_transitive(a: Seq<char>, b: Seq<char>, c: Seq<char>)
    requires
        text_le(a, b),
        text_le(b, c),
    ensures
        text_le(a, c),
    decreases a.len(),
{
    if a.len() > 0 && b.len() > 0 && c.len() > 0 && a[0] == b[0] && b[0] == c[0] {
        law_text_le_transitive(a.drop_first(), b.drop_first(), c.drop_first());
    }
}

/// Whether `a` comes no later than `b` in the order of texts.
pub fn text_le_exec(a: &str, b: &str) -> (r: bool)
    ensures
        r == text_le(a@, b@),
{
    let x = chars_of(a);
    let y = chars_of(b);
    let n = x.len();
    let m = y.len();
    let mut i: usize = 0;
    assert(x@.skip(0) =~= x@);
    assert(y@.skip(0) =~= y@);
    while i < n && i < m
        invariant
            n == x@.len(),
            m == y@.len(),
            i <= n,
            i <= m,
            text_le(a@, b@) == text_le(x@.skip(i as int), y@.skip(i as int)),
        decreases n - i,
    {
        if x[i] != y[i] {
            return x[i] < y[i];
        }
        assert(x@.skip(i as int).drop_first() =~= x@.skip(i + 1));
        assert(y@.skip(i as int).drop_first() =~= y@.skip(i + 1));
        i = i + 1;
    }
    n <= m
}

/// A camera button of the viewer.
#[derive(Clone)]
pub struct Camera {
    pub id: String,
    pub label: String,
    pub url: String,
}

impl Camera {
    pub open spec fn view_triple(self) -> (Seq<char>, Seq<char>, Seq<char>) {
        (self.id@, self.label@, self.url@)
    }

    /// The label and the URL of the camera.
    pub fn into_label_url(self) -> (r: (String, String))
        ensures
            r.0 == self.label,
            r.1 == self.url,
    {
        (self.label, self.url)
    }
}

/// The camera that a configuration entry stands for, as (key, label, URL): the label is
/// the configured one or else the default label of the key.
pub open spec fn camera_of(entry: (String, CameraConfig)) -> (Seq<char>, Seq<char>, Seq<char>) {
    (
        entry.0@,
        match entry.1.label {
            Some(l) => l@,
            None => default_label_of(entry.0@),
        },
        entry.1.url@,
    )
}

pub open spec fn cameras_view(cams: Seq<Camera>) -> Seq<(Seq<char>, Seq<char>, Seq<char>)> {
    cams.map_values(|c: Camera| c.view_triple())
}

/// Cameras in order of their keys.
pub open spec fn sorted_by_id(cams: Seq<Camera>) -> bool {
    forall|i: int, j: int| 0 <= i < j < cams.len() ==> text_le(#[trigger] cams[i].id@, #[trigger] cams[j].id@)
}

fn camera_from_entry(entry: &(String, CameraConfig)) -> (c: Camera)
    ensures
        c.view_triple() == camera_of(*entry),
{
    let label = match &entry.1.label {
        Some(l) => l.clone(),
        None => default_label(entry.0.as_str()),
    };
    Camera { id: entry.0.clone(), label, url: entry.1.url.clone() }
}

/// The cameras of a configuration, one per entry, in the order of their keys, each with
/// its configured label or else the default label of its key.
pub fn camera_list(config: &AppConfig) -> (r: Vec<Camera>)
    ensures
        sorted_by_id(r@),
        cameras_view(r@).to_multiset() == config.cameras@.map_values(
            |e: (String, CameraConfig)| camera_of(e),
        ).to_multiset(),
{
    broadcast use group_to_multiset_ensures;

    let entries = &config.cameras;
    let n = entries.len();
    let mut r: Vec<Camera> = Vec::new();
    let mut k: usize = 0;
    let ghost f = |e: (String, CameraConfig)| camera_of(e);
    assert(cameras_view(r@) =~= Seq::empty());
    assert(entries@.take(0).map_values(f) =~= Seq::empty());
    while k < n
        invariant
            n == entries@.len(),
            k <= n,
            f == (|e: (String, CameraConfig)| camera_of(e)),
            sorted_by_id(r@),
            cameras_view(r@).to_multiset() == entries@.take(k as int).map_values(f).to_multiset(),
        decreases n - k,
    {
        let cam = camera_from_entry(&entries[k]);
        let mut pos: usize = 0;
        while pos < r.len() && text_le_exec(r[pos].id.as_str(), cam.id.as_str())
            invariant
                pos <= r@.len(),
                forall|q: int| 0 <= q < pos ==> text_le(#[trigger] r@[q].id@, cam.id@),
            decreases r@.len() - pos,
        {
            pos = pos + 1;
        }
        proof {
            if pos < r@.len() {
                law_text_le_total(r@[pos as int].id@, cam.id@);
                assert forall|q: int| pos <= q < r@.len() implies text_le(
                    cam.id@,
                    #[trigger] r@[q].id@,
                ) by {
                    if q > pos {
                        assert(text_le(r@[pos as int].id@, r@[q].id@));
                        law_text_le_transitive(cam.id@, r@[pos as int].id@, r@[q].id@);
                    }
                }
            }
        }
        let ghost old_r = r@;
        let ghost cv = cam.view_triple();
        r.insert(pos, cam);
        proof {
            assert(r@ == old_r.insert(pos as int, cam));
            assert forall|i: int, j: int| 0 <= i < j < r@.len() implies text_le(
                #[trigger] r@[i].id@,
                #[trigger] r@[j].id@,
            ) by {
                if i < pos && j < pos {
                    assert(r@[i] == old_r[i] && r@[j] == old_r[j]);
                } else if i < pos && j == pos {
                    assert(r@[i] == old_r[i]);
                } else if i < pos {
                    assert(r@[i] == old_r[i] && r@[j] == old_r[j - 1]);
                    assert(text_le(old_r[i].id@, old_r[j - 1].id@));
                } else if i == pos {
                    assert(r@[j] == old_r[j - 1]);
                } else {
                    assert(r@[i] == old_r[i - 1] && r@[j] == old_r[j - 1]);
                }
            }
            assert(cameras_view(r@) =~= cameras_view(old_r).insert(pos as int, cv));
            assert(entries@.take(k + 1).map_values(f) =~= entries@.take(k as int).map_values(
                f,
            ).push(cv));
            to_multiset_insert(cameras_view(old_r), pos as int, cv);
            to_multiset_build(entries@.take(k as int).map_values(f), cv);
        }
        k = k + 1;
    }
    assert(entries@.take(n as int) =~= entries@);
    r
}


// ---------------------------------------------------------------------------
// Laws that pin labels and key order down
// ---------------------------------------------------------------------------

/// The words of a text separated by spaces: its maximal runs of non-space characters.
pub open spec fn space_words(s: Seq<char>) -> Seq<Seq<char>>
    decreases s.len(),
{
    if s.len() == 0 {
        seq![]
    } else {
        let w = space_words(s.drop_last());
        let c = s.last();
        if c == ' ' {
            w
        } else if s.len() >= 2 && s[s.len() - 2] != ' ' {
            w.update(w.len() - 1, w.last().push(c))
        } else {
            w.push(seq![c])
        }
    }
}

/// The texts of a list, one after the other.
pub open spec fn concat_all(ws: Seq<Seq<char>>) -> Seq<char>
    decreases ws.len(),
{
    if ws.len() == 0 {
        seq![]
    } else {
        concat_all(ws.drop_last()) + ws.last()
    }
}

/// Non-empty text without spaces.
pub open spec fn is_space_free_word(w: Seq<char>) -> bool {
    w.len() > 0 && forall|j: int| 0 <= j < w.len() ==> #[trigger] w[j] != ' '
}

proof fn lemma_space_words_single(w: Seq<char>)
    requires
        is_space_free_word(w),
    ensures
        space_words(w) == seq![w],
    decreases w.len(),
{
    let p = w.drop_last();
    if p.len() == 0 {
        assert(space_words(p) =~= Seq::<Seq<char>>::empty());
        assert(seq![w.last()] =~= w);
    } else {
        assert(w[p.len() - 1] == p[p.len() - 1]);
        assert(is_space_free_word(p));
        lemma_space_words_single(p);
        assert(w[w.len() - 2] != ' ');
        assert(p.push(w.last()) =~= w);
        assert(seq![p].update(0, p.push(w.last())) =~= seq![w]);
    }
}

proof fn lemma_space_words_append(s: Seq<char>, w: Seq<char>)
    requires
        is_space_free_word(w),
    ensures
        space_words(s + seq![' '] + w) == space_words(s).push(w),
    decreases w.len(),
{
    let u = s + seq![' '] + w;
    let p = w.drop_last();
    let c = w.last();
    assert(u.last() == c);
    if p.len() == 0 {
        let v = s + seq![' '];
        assert(u.drop_last() =~= v);
        assert(v.drop_last() =~= s);
        assert(v.last() == ' ');
        assert(u[u.len() - 2] == ' ');
        assert(space_words(v) == space_words(s));
        assert(space_words(u) == space_words(v).push(seq![c]));
        assert(seq![c] =~= w);
    } else {
        assert(w[p.len() - 1] == p[p.len() - 1]);
        assert(is_space_free_word(p));
        lemma_space_words_append(s, p);
        assert(u.drop_last() =~= s + seq![' '] + p);
        assert(u[u.len() - 2] == p.last());
        assert(p.push(c) =~= w);
        let sw = space_words(s);
        assert(space_words(u) == sw.push(p).update(sw.len() as int, p.push(c)));
        assert(sw.push(p).update(sw.len() as int, p.push(c)) =~= sw.push(w));
    }
}

proof fn lemma_space_words_of_joined(ws: Seq<Seq<char>>)
    requires
        forall|k: int| 0 <= k < ws.len() ==> is_space_free_word(#[trigger] ws[k]),
    ensures
        space_words(joined(ws, seq![' '])) == ws,
    decreases ws.len(),
{
    if ws.len() == 0 {
    } else if ws.len() == 1 {
        assert(is_space_free_word(ws[0]));
        lemma_space_words_single(ws[0]);
        assert(seq![ws[0]] =~= ws);
    } else {
        let p = ws.drop_last();
        assert forall|k: int| 0 <= k < p.len() implies is_space_free_word(#[trigger] p[k]) by {
            assert(p[k] == ws[k]);
        }
        lemma_space_words_of_joined(p);
        assert(is_space_free_word(ws[ws.len() - 1]));
        lemma_space_words_append(joined(p, seq![' ']), ws.last());
        assert(p.push(ws.last()) =~= ws);
    }
}

proof fn lemma_words_space_free(s: Seq<char>)
    requires
        forall|i: int| 0 <= i < s.len() ==> #[trigger] s[i] != ' ',
    ensures
        forall|k: int| 0 <= k < words(s).len() ==> is_space_free_word(#[trigger] words(s)[k]),
    decreases s.len(),
{
    lemma_words_shape(s);
    if s.len() > 0 {
        let p = s.drop_last();
        assert forall|i: int| 0 <= i < p.len() implies #[trigger] p[i] != ' ' by {
            assert(p[i] == s[i]);
        }
        lemma_words_space_free(p);
        lemma_words_shape(p);
        let w = words(p);
        let c = s.last();
        assert(c == s[s.len() - 1]);
        if is_separator(c) {
        } else if s.len() >= 2 && !is_separator(s[s.len() - 2]) {
            assert(p.last() == s[s.len() - 2]);
            let nw = w.update(w.len() - 1, w.last().push(c));
            assert forall|k: int| 0 <= k < nw.len() implies is_space_free_word(#[trigger] nw[k]) by {
                if k == w.len() - 1 {
                    assert(is_space_free_word(w[k]));
                    assert forall|j: int| 0 <= j < nw[k].len() implies #[trigger] nw[k][j] != ' ' by {
                        if j < w[k].len() {
                            assert(nw[k][j] == w[k][j]);
                        }
                    }
                }
            }
        } else {
            let nw = w.push(seq![c]);
            assert forall|k: int| 0 <= k < nw.len() implies is_space_free_word(#[trigger] nw[k]) by {
                if k < w.len() {
                    assert(nw[k] == w[k]);
                }
            }
        }
    }
}

/// The words of a key hold every character of the key that is not a separator, in
/// order, and nothing else.
pub proof fn law_words_keep_every_letter(s: Seq<char>)
    ensures
        concat_all(words(s)) == s.filter(|c: char| !is_separator(c)),
    decreases s.len(),
{
    reveal_with_fuel(Seq::filter, 1);
    if s.len() > 0 {
        let p = s.drop_last();
        law_words_keep_every_letter(p);
        lemma_words_shape(p);
        let w = words(p);
        let c = s.last();
        if is_separator(c) {
        } else if s.len() >= 2 && !is_separator(s[s.len() - 2]) {
            assert(p.last() == s[s.len() - 2]);
            let nw = w.update(w.len() - 1, w.last().push(c));
            assert(nw.drop_last() =~= w.drop_last());
            assert(concat_all(nw) =~= concat_all(w).push(c));
        } else {
            let nw = w.push(seq![c]);
            assert(nw.drop_last() =~= w);
            assert(concat_all(nw) =~= concat_all(w).push(c));
        }
    }
}

/// A made-up label holds every word of the key (without its stream suffix), in order,
/// each capitalised, as its space-separated words, and no other; a key without words is
/// shown as it is after the suffix is taken off. (Spaces in the key would themselves split
/// the label's words, so the key is taken without spaces.)
pub proof fn law_default_label_words(id: Seq<char>)
    requires
        forall|i: int| 0 <= i < id.len() ==> #[trigger] id[i] != ' ',
    ensures
        words(without_stream_suffix(id)).len() > 0 ==> space_words(default_label_of(id))
            == capitalized_words(words(without_stream_suffix(id))),
        words(without_stream_suffix(id)).len() > 0 ==> space_words(default_label_of(id)).len()
            == words(without_stream_suffix(id)).len(),
        words(without_stream_suffix(id)).len() == 0 ==> default_label_of(id)
            == without_stream_suffix(id),
{
    let t = without_stream_suffix(id);
    assert forall|i: int| 0 <= i < t.len() implies #[trigger] t[i] != ' ' by {
        assert(t[i] == id[i]);
    }
    lemma_words_space_free(t);
    let ws = words(t);
    let cs = capitalized_words(ws);
    assert forall|k: int| 0 <= k < cs.len() implies is_space_free_word(#[trigger] cs[k]) by {
        assert(is_space_free_word(ws[k]));
        assert forall|j: int| 0 <= j < cs[k].len() implies #[trigger] cs[k][j] != ' ' by {
            if j == 0 {
                assert(cs[k][0] == crate::text::upper_char(ws[k][0]));
                assert(ws[k][0] != ' ');
            } else {
                assert(cs[k][j] == ws[k][j]);
            }
        }
    }
    if ws.len() > 0 {
        lemma_space_words_of_joined(cs);
    }
}

/// The order of keys is the order of code points at the first place where they differ.
pub proof fn law_text_le_first_difference(a: Seq<char>, b: Seq<char>, i: int)
    requires
        0 <= i < a.len(),
        i < b.len(),
        forall|j: int| 0 <= j < i ==> a[j] == b[j],
        a[i] != b[i],
    ensures
        text_le(a, b) == (a[i] < b[i]),
        text_le(b, a) == (b[i] < a[i]),
    decreases i,
{
    if i > 0 {
        let a1 = a.drop_first();
        let b1 = b.drop_first();
        assert(a[0] == b[0]);
        assert forall|j: int| 0 <= j < i - 1 implies a1[j] == b1[j] by {
            assert(a[j + 1] == b[j + 1]);
        }
        law_text_le_first_difference(a1, b1, i - 1);
    }
}

/// A key comes before every key it is a prefix of, and a longer key never comes before
/// its own prefix.
pub proof fn law_text_le_prefix(a: Seq<char>, b: Seq<char>)
    requires
        a.len() <= b.len(),
        forall|j: int| 0 <= j < a.len() ==> a[j] == b[j],
    ensures
        text_le(a, b),
        a.len() < b.len() ==> !text_le(b, a),
    decreases a.len(),
{
    if a.len() > 0 {
        let a1 = a.drop_first();
        let b1 = b.drop_first();
        assert(a[0] == b[0]);
        assert forall|j: int| 0 <= j < a1.len() implies a1[j] == b1[j] by {
            assert(a[j + 1] == b[j + 1]);
        }
        law_text_le_prefix(a1, b1);
    }
}


/// Exactly one stream suffix is taken off a key, `_rtsp_url` before `-rtsp-url`; a key
/// with neither is kept whole.
pub proof fn law_stream_suffix_taken_once(id: Seq<char>)
    ensures
        ends_with(id, "_rtsp_url"@) ==> without_stream_suffix(id) + "_rtsp_url"@ == id,
        !ends_with(id, "_rtsp_url"@) && ends_with(id, "-rtsp-url"@) ==> without_stream_suffix(id)
            + "-rtsp-url"@ == id,
        !ends_with(id, "_rtsp_url"@) && !ends_with(id, "-rtsp-url"@) ==> without_stream_suffix(id)
            == id,
{
    if ends_with(id, "_rtsp_url"@) {
        let n = id.len() - "_rtsp_url"@.len();
        assert(id.take(n) + id.skip(n) =~= id);
    } else if ends_with(id, "-rtsp-url"@) {
        let n = id.len() - "-rtsp-url"@.len();
        assert(id.take(n) + id.skip(n) =~= id);
    }
}

} // verus!
