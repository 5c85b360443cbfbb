use talklike::token::{chars_of, is_whitespace, join, tokenize};

fn words(items: &[&str]) -> Vec<String> {
    items.iter().map(|w| w.to_string()).collect()
}

#[test]
fn tokenize_splits_on_whitespace() {
    assert_eq!(tokenize("  hello,\tworld \n again  "), words(&["hello,", "world", "again"]));
    assert_eq!(tokenize("one"), words(&["one"]));
    assert_eq!(tokenize("a b"), words(&["a", "b"]));
}

#[test]
fn tokenize_of_empty_or_blank_text_is_empty() {
    assert!(tokenize("").is_empty());
    assert!(tokenize(" ").is_empty());
    assert!(tokenize(" \t\r\n \u{a0}\u{3000} ").is_empty());
}

#[test]
fn tokenize_keeps_punctuation_with_its_word() {
    assert_eq!(
        tokenize("Hello there! I like cheese."),
        words(&["Hello", "there!", "I", "like", "cheese."])
    );
}

#[test]
fn tokenize_takes_unicode_separators() {
    assert_eq!(
        tokenize("caf\u{e9}\u{2003}na\u{ef}ve\u{2028}x"),
        words(&["caf\u{e9}", "na\u{ef}ve", "x"])
    );
    assert_eq!(tokenize("a\u{200b}b"), words(&["a\u{200b}b"]));
}

#[test]
fn tokenize_agrees_with_split_whitespace() {
    let samples = [
        "",
        "x",
        " lead",
        "trail ",
        "a  b   c",
        "tabs\tand\nlines\r\nmixed \u{85} nel \u{1680} ogham",
        "\u{2000}\u{2001}\u{2002}\u{200a}z\u{202f}y\u{205f}w",
        "emoji \u{1f600} stays",
    ];
    for text in samples {
        let expected: Vec<String> = text.split_whitespace().map(|w| w.to_string()).collect();
        assert_eq!(tokenize(text), expected, "text {:?}", text);
    }
}

#[test]
fn is_whitespace_agrees_with_the_unicode_property() {
    let mut code: u32 = 0;
    while code <= 0x10ffff {
        if let Some(c) = char::from_u32(code) {
            assert_eq!(is_whitespace(c), c.is_whitespace(), "code point {:x}", code);
        }
        code += 1;
    }
}

#[test]
fn join_sets_one_space_between_tokens() {
    assert_eq!(join(&words(&[])), "");
    assert_eq!(join(&words(&["solo"])), "solo");
    assert_eq!(join(&words(&["the", "cat", "sat"])), "the cat sat");
}

#[test]
fn tokenize_gives_back_what_join_was_given() {
    let tokens = words(&["to", "be,", "or", "not", "to", "be"]);
    assert_eq!(tokenize(&join(&tokens)), tokens);
}

#[test]
fn chars_of_lists_the_characters() {
    assert_eq!(chars_of("h\u{e9}!"), vec!['h', '\u{e9}', '!']);
    assert!(chars_of("").is_empty());
}
