use fpm::text::{chars_of, less, replace, replace_chars, split, string_of, trim, trim_start};

#[test]
fn chars_and_back() {
    assert_eq!(chars_of("añb"), vec!['a', 'ñ', 'b']);
    assert_eq!(string_of(&vec!['x', 'é', 'z']), "xéz".to_string());
    assert_eq!(chars_of(""), Vec::<char>::new());
    assert_eq!(string_of(&Vec::new()), String::new());
}

#[test]
fn replace_takes_occurrences_from_the_left() {
    assert_eq!(replace("aaa", "aa", "b"), "ba".to_string());
    assert_eq!(replace("hello {x} and {x}", "{x}", "you"), "hello you and you".to_string());
    assert_eq!(replace("abc", "abcd", "z"), "abc".to_string());
    assert_eq!(replace("abc", "c", ""), "ab".to_string());
    assert_eq!(replace("", "a", "b"), "".to_string());
    assert_eq!(replace("xyz", "y", "yy"), "xyyz".to_string());
}

#[test]
fn replace_agrees_with_the_standard_library() {
    let cases = [
        ("aaaa", "aa", "a"),
        ("abcabc", "bc", "x"),
        ("{a}{b}", "{a}", "{b}"),
        ("abc", "", "-"),
        ("", "", "-"),
        ("mississippi", "ssi", "SSI"),
    ];
    for (text, pattern, with) in cases {
        assert_eq!(replace(text, pattern, with), text.replace(pattern, with));
    }
}

#[test]
fn replace_chars_on_vectors() {
    let text = vec!['a', 'b', 'a', 'b'];
    let out = replace_chars(&text, &vec!['a', 'b'], &vec!['c']);
    assert_eq!(out, vec!['c', 'c']);
}

#[test]
fn split_keeps_empty_pieces() {
    assert_eq!(split("git clone url", ' '), vec!["git", "clone", "url"]);
    assert_eq!(split("", ' '), vec![""]);
    assert_eq!(split("a  b", ' '), vec!["a", "", "b"]);
    assert_eq!(split(" a ", ' '), vec!["", "a", ""]);
    assert_eq!(split("abc", ' '), vec!["abc"]);
}

#[test]
fn split_agrees_with_the_standard_library() {
    for text in ["", " ", "a b c", "  x", "x  ", "cargo init --bin"] {
        let expected: Vec<String> = text.split(' ').map(|s| s.to_string()).collect();
        assert_eq!(split(text, ' '), expected);
    }
}

#[test]
fn less_is_dictionary_order() {
    assert!(less("a", "b"));
    assert!(!less("b", "a"));
    assert!(!less("a", "a"));
    assert!(less("", "a"));
    assert!(!less("a", ""));
    assert!(!less("", ""));
    assert!(less("ab", "abc"));
    assert!(less("Z", "a"));
    assert!(less("abc", "abd"));
    assert!(less("z", "é"));
}

#[test]
fn less_agrees_with_the_standard_library() {
    let words = ["", "a", "ab", "b", "B", "é", "zz", "日本"];
    for a in words {
        for b in words {
            assert_eq!(less(a, b), a < b);
        }
    }
}

#[test]
fn trim_removes_white_space_at_the_ends() {
    assert_eq!(trim("  y \n"), "y".to_string());
    assert_eq!(trim("y"), "y".to_string());
    assert_eq!(trim(" \t "), "".to_string());
    assert_eq!(trim(""), "".to_string());
    assert_eq!(trim(" a b "), "a b".to_string());
    assert_eq!(trim_start("  /home/me "), "/home/me ".to_string());
    assert_eq!(trim_start("x"), "x".to_string());
    assert_eq!(trim_start("   "), "".to_string());
}

#[test]
fn white_space_is_what_the_standard_library_takes_for_it() {
    let listed = |c: char| {
        let n = c as u32;
        (0x09..=0x0D).contains(&n)
            || n == 0x20
            || n == 0x85
            || n == 0xA0
            || n == 0x1680
            || (0x2000..=0x200A).contains(&n)
            || n == 0x2028
            || n == 0x2029
            || n == 0x202F
            || n == 0x205F
            || n == 0x3000
    };
    for n in 0..=0x10FFFFu32 {
        if let Some(c) = char::from_u32(n) {
            assert_eq!(c.is_whitespace(), listed(c), "U+{:04X}", n);
        }
    }
    for c in ['\t', '\n', ' ', '\u{A0}', '\u{2003}', '\u{3000}'] {
        assert_eq!(trim(&format!("{}y{}", c, c)), "y".to_string());
        assert_eq!(trim_start(&format!("{}y{}", c, c)), format!("y{}", c));
    }
    for c in ['\u{200B}', '\u{FEFF}', '_', '\u{1C}'] {
        assert_eq!(trim(&format!("{}y{}", c, c)), format!("{}y{}", c, c));
    }
}
