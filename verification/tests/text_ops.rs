use gcamview::text::{
    capitalize_first, replace_all, shell_escape_single_quotes, to_ascii_lowercase,
};

/// Reads a word the way a POSIX shell does: single-quoted parts, backslash escapes
/// outside quotes, plain characters.
fn read_shell_word(s: &str) -> String {
    let chars: Vec<char> = s.chars().collect();
    let mut out = String::new();
    let mut quoted = false;
    let mut i = 0;
    while i < chars.len() {
        let c = chars[i];
        if quoted {
            if c == '\'' {
                quoted = false;
            } else {
                out.push(c);
            }
            i += 1;
        } else if c == '\'' {
            quoted = true;
            i += 1;
        } else if c == '\\' && i + 1 < chars.len() {
            out.push(chars[i + 1]);
            i += 2;
        } else {
            out.push(c);
            i += 1;
        }
    }
    out
}

#[test]
fn capitalize_first_upper_cases_only_the_first_letter() {
    assert_eq!(capitalize_first("hello world"), "Hello world");
    assert_eq!(capitalize_first("car"), "Car");
    assert_eq!(capitalize_first(""), "");
    assert_eq!(capitalize_first("1abc"), "1abc");
    assert_eq!(capitalize_first("Already"), "Already");
    assert_eq!(capitalize_first("élan"), "élan");
}

#[test]
fn lowercase_is_ascii_only() {
    assert_eq!(to_ascii_lowercase("PeRsOn"), "person");
    assert_eq!(to_ascii_lowercase("ÉCOLE Car"), "École car");
    assert_eq!(to_ascii_lowercase(""), "");
}

#[test]
fn lowercase_is_idempotent() {
    for s in ["PERSON", "Dog", "mixed CASE 42", "ÄÖü"] {
        let once = to_ascii_lowercase(s);
        assert_eq!(to_ascii_lowercase(&once), once);
    }
}

#[test]
fn replace_all_scans_left_to_right_without_overlap() {
    assert_eq!(replace_all("spd-say {text}", "{text}", "'hi'"), "spd-say 'hi'");
    assert_eq!(replace_all("aaa", "aa", "b"), "ba");
    assert_eq!(replace_all("{text} and {text}", "{text}", "x"), "x and x");
    assert_eq!(replace_all("abc", "x", "y"), "abc");
    assert_eq!(replace_all("", "x", "y"), "");
    assert_eq!(replace_all("say \"hi\"", "\"", "%22"), "say %22hi%22");
}

#[test]
fn replace_all_agrees_with_str_replace() {
    let cases = [
        ("abcabcab", "ab", "_"),
        ("{text}{text}", "{text}", "{text}{text}"),
        ("xxxx", "xx", "y"),
        ("héllo wörld", "ö", "oe"),
    ];
    for (s, p, r) in cases {
        assert_eq!(replace_all(s, p, r), s.replace(p, r));
    }
}

#[test]
fn replace_all_without_match_keeps_text() {
    let s = "spd-say hello";
    assert_eq!(replace_all(s, "{text}", "'x'"), s);
}

#[test]
fn shell_escape_wraps_and_escapes_quotes() {
    assert_eq!(shell_escape_single_quotes("hello"), "'hello'");
    assert_eq!(shell_escape_single_quotes(""), "''");
    assert_eq!(shell_escape_single_quotes("it's"), "'it'\\''s'");
    assert_eq!(shell_escape_single_quotes("'"), "''\\'''");
}

#[test]
fn shell_escape_reads_back() {
    for s in ["", "plain", "it's", "''", "a\\b", "$(rm -rf /)", "Person at Front Door", "x'y'z"] {
        assert_eq!(read_shell_word(&shell_escape_single_quotes(s)), s);
    }
}
