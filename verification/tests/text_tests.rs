use the_mule::order::{list_before, sort_texts};
use the_mule::text::{
    ascii_lowercase, chars_of, contains_text, decimal_of, join, pad_left, pad_right, parse_u64,
    same_text, split, split_once, starts_with, text_before, trim, two_digits, white_space,
};

#[test]
fn white_space_is_that_of_the_standard_library() {
    for n in 0..=0x10ffffu32 {
        if let Some(c) = char::from_u32(n) {
            assert_eq!(white_space(c), c.is_whitespace());
        }
    }
}

#[test]
fn trimming() {
    for s in ["", " ", " a b ", "\n\ta", "a\u{a0}", "\u{2028}x\u{3000}", "é "] {
        assert_eq!(trim(s), s.trim());
    }
}

#[test]
fn splitting() {
    assert_eq!(split("a/b//c", '/'), vec!["a", "b", "", "c"]);
    assert_eq!(split("", '/'), vec![""]);
    assert_eq!(split_once("a=b=c", '='), Some(("a".to_string(), "b=c".to_string())));
    assert_eq!(split_once("abc", '='), None);
    assert!(starts_with(&chars_of("the_mule::x"), "the_mule"));
    assert!(!starts_with(&chars_of("the"), "the_mule"));
}

#[test]
fn numbers() {
    for n in [0u64, 1, 9, 10, 99, 100, 12345, u64::MAX] {
        assert_eq!(decimal_of(n as u128), n.to_string());
        assert_eq!(parse_u64(&n.to_string()), Some(n));
    }
    assert_eq!(decimal_of(u128::MAX), u128::MAX.to_string());
    for s in ["", "+", "-1", " 1", "1 ", "0x1", "18446744073709551616", "+7", "007", "+-1", "١"] {
        assert_eq!(parse_u64(s), s.parse::<u64>().ok());
    }
    assert_eq!(two_digits(7), "07");
    assert_eq!(two_digits(123), "123");
}

#[test]
fn padding() {
    assert_eq!(pad_right("é", 3), format!("{:<3}", "é"));
    assert_eq!(pad_right("abcd", 3), "abcd");
    assert_eq!(pad_left("7", 3, ' '), "  7");
}

#[test]
fn comparing() {
    let texts = ["", "a", "ab", "b", "B", "é", "日", "\u{10000}", "\u{ffff}"];
    for a in texts {
        for b in texts {
            assert_eq!(same_text(a, b), a == b);
            assert_eq!(text_before(&chars_of(a), &chars_of(b)), a < b);
        }
    }
}

#[test]
fn sorting() {
    let list: Vec<String> = ["b", "", "a", "b", "B"].iter().map(|s| s.to_string()).collect();
    let mut wanted = list.clone();
    wanted.sort();
    let sorted: Vec<String> = sort_texts(&list).iter().map(|r| r.iter().collect()).collect();
    assert_eq!(sorted, wanted);
    let rows = |list: &[&str]| -> Vec<Vec<char>> { list.iter().map(|s| chars_of(s)).collect() };
    assert!(list_before(&rows(&["a"]), &rows(&["a", "b"])));
    assert!(!list_before(&rows(&["b"]), &rows(&["a", "b"])));
    assert!(!list_before(&rows(&[]), &rows(&[])));
}

#[test]
fn lists_of_texts() {
    let list = vec!["a".to_string(), "b".to_string()];
    assert_eq!(join(&list, ", "), "a, b");
    assert_eq!(join(&Vec::new(), ", "), "");
    assert!(contains_text(&list, "b"));
    assert!(!contains_text(&list, "c"));
    assert_eq!(ascii_lowercase("AbÉz["), "abÉz[");
}
