use bot_data::text::{is_space, join, strip_urls, tokenize};

fn strings(words: &[&str]) -> Vec<String> {
    words.iter().map(|word| word.to_string()).collect()
}

#[test]
fn tokenize_splits_at_single_spaces() {
    assert_eq!(tokenize("the cat sat"), strings(&["the", "cat", "sat"]));
}

#[test]
fn tokenize_of_the_empty_text_is_empty() {
    assert_eq!(tokenize(""), Vec::<String>::new());
    assert_eq!(tokenize("   "), Vec::<String>::new());
    assert_eq!(tokenize("\n\t "), Vec::<String>::new());
}

#[test]
fn tokenize_of_one_word() {
    assert_eq!(tokenize("word"), strings(&["word"]));
    assert_eq!(tokenize("x"), strings(&["x"]));
}

#[test]
fn tokenize_passes_over_runs_of_white_space() {
    assert_eq!(tokenize("  a  b\tc\nd\r\ne  "), strings(&["a", "b", "c", "d", "e"]));
}

#[test]
fn tokenize_knows_the_white_space_of_unicode() {
    assert_eq!(
        tokenize("a\u{a0}b\u{1680}c\u{2003}d\u{2028}e\u{2029}f\u{202f}g\u{205f}h\u{3000}i\u{85}j"),
        strings(&["a", "b", "c", "d", "e", "f", "g", "h", "i", "j"])
    );
}

#[test]
fn tokenize_keeps_what_is_no_white_space() {
    assert_eq!(tokenize("a\u{200b}b c\u{180e}d"), strings(&["a\u{200b}b", "c\u{180e}d"]));
    assert_eq!(tokenize("héllo 🦀🦀 мир"), strings(&["héllo", "🦀🦀", "мир"]));
}

#[test]
fn tokenize_agrees_with_split_whitespace() {
    for text in ["", " ", "a", " a", "a ", "a b", "a  b", "\ta\u{2000}b\u{200a} c\u{b}d\u{c}e", "one two  three   four"] {
        let expected: Vec<String> = text.split_whitespace().map(|word| word.to_string()).collect();
        assert_eq!(tokenize(text), expected);
    }
}

#[test]
fn is_space_agrees_with_char_is_whitespace() {
    for code in 0u32..0x11000 {
        if let Some(c) = char::from_u32(code) {
            assert_eq!(is_space(c), c.is_whitespace(), "U+{:04X}", code);
        }
    }
}

#[test]
fn strip_urls_leaves_out_the_words_that_are_urls() {
    assert_eq!(strip_urls("check http://example.com out"), strings(&["check", "out"]));
    assert_eq!(strip_urls("check http://example.com out now"), strings(&["check", "out", "now"]));
}

#[test]
fn strip_urls_keeps_words_that_are_no_urls() {
    assert_eq!(strip_urls("the cat sat"), strings(&["the", "cat", "sat"]));
    assert_eq!(strip_urls("example.com www.example.com /path"), strings(&["example.com", "www.example.com", "/path"]));
}

#[test]
fn strip_urls_knows_other_schemes() {
    assert_eq!(strip_urls("https://a.b/c?d=e#f mailto:x@y.z ftp://h/p data:text/plain,hi"), Vec::<String>::new());
}

#[test]
fn strip_urls_of_nothing_but_urls_is_empty() {
    assert_eq!(strip_urls("http://a.example https://b.example"), Vec::<String>::new());
    assert_eq!(strip_urls(""), Vec::<String>::new());
}

#[test]
fn join_puts_single_spaces_between_the_words() {
    let words = strings(&["a", "b", "c", "d"]);
    assert_eq!(join(&words, 0, 4), "a b c d");
    assert_eq!(join(&words, 1, 3), "b c");
    assert_eq!(join(&words, 2, 3), "c");
}

#[test]
fn join_of_no_words_is_empty() {
    let words = strings(&["a", "b"]);
    assert_eq!(join(&words, 0, 0), "");
    assert_eq!(join(&words, 2, 2), "");
    assert_eq!(join(&Vec::new(), 0, 0), "");
}

#[test]
fn join_undoes_tokenize_up_to_white_space() {
    let words = tokenize("  the\tcat \n sat ");
    assert_eq!(join(&words, 0, words.len()), "the cat sat");
}
