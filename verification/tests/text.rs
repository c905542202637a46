use wifi_creds::text::{
    chars_of, extend, find, has_prefix, is_space, matches_at, replace, same_text, split_line,
    string_of, trim,
};

fn chars(s: &str) -> Vec<char> {
    s.chars().collect()
}

fn text(v: &[char]) -> String {
    v.iter().collect()
}

const SAMPLES: [&str; 14] = [
    "",
    " ",
    "a",
    "  padded\t\n",
    "\u{a0}\u{3000}wide spaces\u{2003}\u{85}",
    "no-space",
    "aaa",
    "aaaa",
    "abcabcabc",
    "<Network><Network></Network>",
    "line one\nline two\r\nline three\r",
    "\n\n",
    "\r\n",
    "ends with feed\n",
];

#[test]
fn chars_and_strings_convert_both_ways() {
    for s in SAMPLES {
        assert_eq!(chars_of(s), chars(s));
        assert_eq!(string_of(&chars(s)), s);
    }
    let mut v = chars("ab");
    extend(&mut v, &chars("cd"));
    assert_eq!(text(&v), "abcd");
}

#[test]
fn white_space_is_what_std_calls_white_space() {
    let mut code: u32 = 0;
    while code <= 0x10FFFF {
        if let Some(c) = char::from_u32(code) {
            assert_eq!(is_space(c), c.is_whitespace(), "code point {:#x}", code);
        }
        code += 1;
    }
}

#[test]
fn trim_agrees_with_std() {
    for s in SAMPLES {
        assert_eq!(text(trim(&chars(s))), s.trim(), "text {:?}", s);
    }
}

#[test]
fn find_agrees_with_std() {
    let patterns = ["a", "aa", "abc", "<Network>", "\n", "zz", " "];
    for s in SAMPLES {
        for p in patterns {
            let expect = s.find(p).map(|byte| s[..byte].chars().count());
            assert_eq!(find(&chars(s), &chars(p)), expect, "{:?} in {:?}", p, s);
            assert_eq!(has_prefix(&chars(s), &chars(p)), s.starts_with(p));
        }
    }
    assert_eq!(find(&chars("héllo wörld"), &chars("wö")), Some(6));
    assert_eq!(find(&chars("abc"), &chars("")), Some(0));
    assert_eq!(find(&chars(""), &chars("")), Some(0));
}

#[test]
fn matches_at_checks_one_offset() {
    let hay = chars("abcabc");
    assert!(matches_at(&hay, &chars("bc"), 1));
    assert!(matches_at(&hay, &chars("bc"), 4));
    assert!(!matches_at(&hay, &chars("bc"), 0));
    assert!(!matches_at(&hay, &chars("bc"), 5));
    assert!(!matches_at(&hay, &chars("bc"), 600));
    assert!(matches_at(&hay, &chars(""), 6));
    assert!(!matches_at(&hay, &chars(""), 7));
    assert!(same_text(&hay, &chars("abcabc")));
    assert!(!same_text(&hay, &chars("abcab")));
    assert!(!same_text(&hay, &chars("abcabd")));
}

#[test]
fn replace_agrees_with_std() {
    let cases = [("a", "b"), ("aa", "x"), ("abc", ""), ("'", "'\\''"), ("&amp;", "&"), ("\n", "\\n")];
    for s in SAMPLES {
        for (from, to) in cases {
            assert_eq!(
                text(&replace(&chars(s), &chars(from), &chars(to))),
                s.replace(from, to),
                "{:?} -> {:?} in {:?}",
                from,
                to,
                s
            );
        }
    }
    assert_eq!(text(&replace(&chars("it's"), &chars("'"), &chars("'\\''"))), "it'\\''s");
    assert_eq!(text(&replace(&chars("abc"), &chars(""), &chars("x"))), "abc");
}

#[test]
fn lines_agree_with_std() {
    for s in SAMPLES {
        let all = chars(s);
        let mut rest: &[char] = &all;
        let mut got: Vec<String> = Vec::new();
        while let Some((line, next)) = split_line(rest) {
            got.push(text(line));
            rest = next;
        }
        assert!(rest.is_empty());
        let expect: Vec<String> = s.lines().map(String::from).collect();
        assert_eq!(got, expect, "text {:?}", s);
    }
}
