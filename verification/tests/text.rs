use tecindo::text::{char_is_whitespace, count_chars, count_words, derive_excerpt, is_blank};

#[test]
fn count_words_splits_on_whitespace() {
    assert_eq!(count_words(""), 0);
    assert_eq!(count_words("hello"), 1);
    assert_eq!(count_words("hello world"), 2);
    assert_eq!(count_words("  leading and trailing  "), 3);
    assert_eq!(count_words("tabs\tand\nnewlines\r\nmix"), 4);
    assert_eq!(count_words(" \t\n "), 0);
}

#[test]
fn count_words_knows_unicode_whitespace() {
    assert_eq!(count_words("a\u{3000}b"), 2);
    assert_eq!(count_words("a\u{a0}b\u{2003}c"), 3);
    assert_eq!(count_words("a\u{200b}b"), 1);
    assert_eq!(count_words("나의 첫 글"), 3);
}

#[test]
fn count_words_agrees_with_split_whitespace() {
    let samples = [
        "",
        "one",
        " two  words ",
        "x\u{85}y\u{1680}z",
        "línea uno\nlínea dos\n\n",
        "\u{2028}\u{2029}para\u{202f}graph\u{205f}s",
    ];
    for s in samples {
        assert_eq!(count_words(s), s.split_whitespace().count());
    }
}

#[test]
fn whitespace_is_the_white_space_property() {
    let mut c: u32 = 0;
    while c <= 0x10ffff {
        if let Some(ch) = char::from_u32(c) {
            assert_eq!(char_is_whitespace(ch), ch.is_whitespace());
        }
        c += 1;
    }
}

#[test]
fn count_chars_counts_scalar_values_not_bytes() {
    assert_eq!(count_chars(""), 0);
    assert_eq!(count_chars("abc"), 3);
    assert_eq!(count_chars("한글"), 2);
    assert_eq!("한글".len(), 6);
    assert_eq!(count_chars("a😀b"), 3);
}

#[test]
fn excerpt_of_empty_content_is_absent() {
    assert_eq!(derive_excerpt(""), None);
}

#[test]
fn excerpt_of_short_content_is_the_content() {
    assert_eq!(derive_excerpt("hello"), Some("hello".to_string()));
    let exact: String = "é".repeat(200);
    assert_eq!(derive_excerpt(&exact), Some(exact.clone()));
}

#[test]
fn excerpt_is_the_first_200_characters_not_bytes() {
    let mut content = String::new();
    for i in 0..500 {
        content.push(if i % 2 == 0 { '글' } else { 'a' });
    }
    assert_eq!(count_chars(&content), 500);
    let excerpt = derive_excerpt(&content).unwrap();
    let expected: String = content.chars().take(200).collect();
    assert_eq!(excerpt, expected);
    assert_eq!(excerpt.chars().count(), 200);
    assert_eq!(excerpt.len(), 400);
}

#[test]
fn excerpt_of_201_characters_drops_the_last() {
    let content: String = "😀".repeat(201);
    let excerpt = derive_excerpt(&content).unwrap();
    assert_eq!(excerpt, "😀".repeat(200));
}

#[test]
fn blank_texts() {
    assert!(is_blank(""));
    assert!(is_blank("   "));
    assert!(is_blank("\t\n\u{3000}"));
    assert!(!is_blank(" a "));
    assert!(!is_blank("\u{200b}"));
}
