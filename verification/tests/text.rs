use botox::text::{
    chars_of, is_whitespace, same_text, split_on, split_whitespace, string_of, trimmed,
};

#[test]
fn chars_and_back() {
    let v = chars_of("héllo");
    assert_eq!(v, vec!['h', 'é', 'l', 'l', 'o']);
    assert_eq!(string_of(&v, 1, 4), "éll");
    assert_eq!(string_of(&v, 2, 2), "");
}

#[test]
fn white_space_is_what_the_standard_library_calls_so() {
    for code in 0..=0x10FFFFu32 {
        if let Some(c) = char::from_u32(code) {
            assert_eq!(is_whitespace(c), c.is_whitespace(), "U+{:04X}", code);
        }
    }
}

#[test]
fn words_are_split_as_the_standard_library_splits_them() {
    for text in ["", " ", "a", " a", "a ", "  ab\tcd \u{3000}ef\n", "x\u{a0}y", "one two  three"] {
        let expected: Vec<String> = text.split_whitespace().map(String::from).collect();
        assert_eq!(split_whitespace(text), expected, "{:?}", text);
    }
}

#[test]
fn trimming_is_what_the_standard_library_does() {
    for text in ["", " ", "a", " a", "a ", " \t a b \n ", "\u{2003}x\u{85}"] {
        assert_eq!(trimmed(text), text.trim(), "{:?}", text);
    }
}

#[test]
fn same_text_compares_texts() {
    assert!(same_text("abc", "abc"));
    assert!(!same_text("abc", "abd"));
    assert!(!same_text("abc", "ab"));
}

#[test]
fn a_text_is_cut_as_the_standard_library_cuts_it() {
    let texts = ["", "a", ":", "a:b", ":a:b:", "a::b", "a :b :c", " : :", "x\r\ny\r\n", "\r\r\n\n", "aaa"];
    for text in texts {
        for pat in [":", " :", "\r\n", "aa", "="] {
            let expected: Vec<String> = text.split(pat).map(String::from).collect();
            assert_eq!(split_on(text, pat, None), expected, "{:?} by {:?}", text, pat);
            for limit in 0..5 {
                let expected: Vec<String> = text.splitn(limit, pat).map(String::from).collect();
                assert_eq!(split_on(text, pat, Some(limit)), expected, "{:?} by {:?}", text, pat);
            }
            assert_eq!(split_on(text, pat, None).join(pat), text);
        }
    }
    assert_eq!(split_on("abc", "", None), vec![String::from("abc")]);
}
