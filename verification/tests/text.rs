use move_hover::text::{
    begins_with, chars_of, contains_text, decimal_text, find_char, find_text, join_first,
    join_strings, last_segment_of, lines_of, same_text, segments_of, str_contains, string_of,
    trimmed, utf8_len, whitespace, without_char, without_slashes, words_of,
};

fn strings(parts: &[&[char]]) -> Vec<String> {
    parts.iter().map(|part| string_of(part)).collect()
}

const SAMPLES: [&str; 14] = [
    "",
    "\n",
    "\r\n",
    "\r",
    "a",
    "a\n",
    "a\r\nb",
    "a\rb\n\nc",
    "a\r\r\nb\r",
    "  friend  0x1::coin ;\t",
    "use std::é::{Self, as x};\n\n",
    "::a::::b:::c::",
    "\u{2003}wide\u{3000}space\u{85}",
    "😀:😀::x",
];

#[test]
fn whitespace_is_that_of_the_standard_library() {
    for c in '\0'..=char::MAX {
        assert_eq!(whitespace(c), c.is_whitespace(), "{:?}", c);
    }
}

#[test]
fn characters_and_strings() {
    for s in SAMPLES {
        let chars = chars_of(s);
        assert_eq!(chars, s.chars().collect::<Vec<char>>());
        assert_eq!(string_of(&chars), s);
        assert_eq!(utf8_len(&chars), s.len() as u128);
    }
}

#[test]
fn lines_are_those_of_the_standard_library() {
    for s in SAMPLES {
        let chars = chars_of(s);
        assert_eq!(strings(&lines_of(&chars)), s.lines().collect::<Vec<&str>>(), "{:?}", s);
    }
}

#[test]
fn words_are_those_of_the_standard_library() {
    for s in SAMPLES {
        let chars = chars_of(s);
        let expected: Vec<&str> = s.split_whitespace().collect();
        assert_eq!(strings(&words_of(&chars)), expected, "{:?}", s);
    }
}

#[test]
fn pieces_of_paths_are_those_of_the_standard_library() {
    for s in SAMPLES {
        let chars = chars_of(s);
        let expected: Vec<&str> = s.split("::").collect();
        assert_eq!(strings(&segments_of(&chars)), expected, "{:?}", s);
        assert_eq!(string_of(last_segment_of(&chars)), *expected.last().unwrap());
        for n in 1..=expected.len() {
            let joined = join_first(&segments_of(&chars), n, "::");
            assert_eq!(joined, expected[..n].join("::"));
            assert!(s.starts_with(&joined));
        }
    }
}

#[test]
fn trimming_is_that_of_the_standard_library() {
    for s in SAMPLES {
        let chars = chars_of(s);
        assert_eq!(string_of(trimmed(&chars)), s.trim());
    }
    let slashes = chars_of("//// a / b");
    assert_eq!(string_of(without_slashes(&slashes)), " a / b");
    let none = chars_of("a//");
    assert_eq!(string_of(without_slashes(&none)), "a//");
}

#[test]
fn searching_is_that_of_the_standard_library() {
    for s in SAMPLES {
        let chars = chars_of(s);
        for pat in ["", "a", "::", "x", "é", "😀:", "friend", "\n"] {
            let found = find_text(&chars, &chars_of(pat));
            let expected = s.find(pat).map(|byte| s[..byte].chars().count());
            assert_eq!(found, expected, "{:?} in {:?}", pat, s);
            assert_eq!(str_contains(s, pat), s.contains(pat));
            assert_eq!(contains_text(&chars, &chars_of(pat)), s.contains(pat));
            assert_eq!(begins_with(&chars, pat), s.starts_with(pat));
            assert_eq!(same_text(&chars, &chars_of(pat)), s == pat);
        }
        assert_eq!(find_char(&chars, ':'), s.chars().position(|c| c == ':'));
    }
}

#[test]
fn removing_a_character() {
    assert_eq!(without_char(&chars_of(";a;;b;"), ';'), "ab");
    assert_eq!(without_char(&chars_of("ab"), ';'), "ab");
}

#[test]
fn joining_strings() {
    assert_eq!(join_strings(&vec![], ", "), "");
    assert_eq!(join_strings(&vec!["a".to_string()], ", "), "a");
    let three = vec!["a".to_string(), "".to_string(), "c".to_string()];
    assert_eq!(join_strings(&three, ", "), "a, , c");
}

#[test]
fn decimal_notation() {
    for n in [0, 1, 9, 10, 11, 99, 100, 4294967295, 9999999999, u64::MAX] {
        assert_eq!(decimal_text(n), n.to_string());
    }
}
