use pk_backend_moss::bitfield::{pk_bitfield_contain, pk_bitfield_value};
use pk_backend_moss::text::{
    all_c_texts, chars_of, contains, has_nul, joined, same_text, starts_with, text_before, CText,
};

#[test]
fn bitfield_values_are_powers_of_two() {
    assert_eq!(pk_bitfield_value(0), 1);
    assert_eq!(pk_bitfield_value(3), 8);
    assert_eq!(pk_bitfield_value(63), 0x8000_0000_0000_0000);
}

#[test]
fn bitfield_contains_its_members() {
    assert!(pk_bitfield_contain(0b1010, 1));
    assert!(pk_bitfield_contain(0b1010, 3));
    assert!(!pk_bitfield_contain(0b1010, 0));
    assert!(!pk_bitfield_contain(0b1010, 2));
    assert!(pk_bitfield_contain(1 << 63, 63));
    assert!(!pk_bitfield_contain(0, 63));
}

#[test]
fn bitfield_union_contains_both() {
    let both = pk_bitfield_value(5) | pk_bitfield_value(40);
    assert!(pk_bitfield_contain(both, 5));
    assert!(pk_bitfield_contain(both, 40));
    assert!(!pk_bitfield_contain(both, 6));
}

#[test]
fn substrings_are_found() {
    assert!(contains("firefox", "fox"));
    assert!(contains("firefox", "fire"));
    assert!(contains("firefox", "refo"));
    assert!(contains("firefox", ""));
    assert!(contains("", ""));
    assert!(contains("aab", "ab"));
    assert!(!contains("firefox", "foxy"));
    assert!(!contains("fox", "firefox"));
    assert!(!contains("", "x"));
    assert!(contains("größer", "öß"));
}

#[test]
fn prefixes_are_found() {
    assert!(starts_with("installed:volatile", "installed:"));
    assert!(starts_with("abc", ""));
    assert!(!starts_with("installed", "installed:"));
    assert!(!starts_with("xinstalled:", "installed:"));
}

#[test]
fn equal_texts_are_the_same() {
    assert!(same_text("", ""));
    assert!(same_text("abc", "abc"));
    assert!(!same_text("abc", "abd"));
    assert!(!same_text("abc", "ab"));
}

#[test]
fn text_order_agrees_with_std() {
    let texts = vec!["", "a", "aa", "ab", "b", "Z", "ä", "z\u{10ffff}", "\u{e000}", "\u{10000}"];
    for a in &texts {
        for b in &texts {
            assert_eq!(text_before(a, b), a < b);
        }
    }
}

#[test]
fn text_order_is_total_and_transitive() {
    assert!(text_before("bash", "coreutils"));
    assert!(text_before("coreutils", "zlib"));
    assert!(text_before("bash", "zlib"));
    assert!(!text_before("bash", "bash"));
    assert!(!text_before("zlib", "bash"));
}

#[test]
fn joined_texts_follow_each_other() {
    assert_eq!(joined("/usr/", "bin"), "/usr/bin");
    assert_eq!(chars_of("aß"), vec!['a', 'ß']);
}

#[test]
fn nul_is_refused() {
    assert!(has_nul("a\0b"));
    assert!(!has_nul("ab"));
    match CText::new("a\0b".to_string()) {
        Ok(_) => panic!("a NUL in the text"),
        Err(e) => assert_eq!(e.text, "a\0b"),
    }
    match CText::copy_of("ab") {
        Ok(text) => assert_eq!(text.copy().as_str(), "ab"),
        Err(_) => panic!("no NUL in the text"),
    }
    assert_eq!(CText::known("ab").as_str(), "ab");
}

#[test]
fn first_text_with_a_nul_is_reported() {
    match all_c_texts(&vec!["a", "b\0", "c\0"]) {
        Ok(_) => panic!("two texts with a NUL"),
        Err(e) => assert_eq!(e.text, "b\0"),
    }
    match all_c_texts(&vec!["a", "b"]) {
        Ok(list) => {
            assert_eq!(list.len(), 2);
            assert_eq!(list[1].as_str(), "b");
        }
        Err(_) => panic!("no text with a NUL"),
    }
}
