use pd_guard::service::tokens::token_stats;

#[test]
fn counts_words() {
    assert!(token_stats("hello world").tokens >= 2);
    assert!(token_stats("привет мир").tokens >= 2);
}

#[test]
fn counts_punctuation_and_cyrillic() {
    let s = token_stats("Привет, мир!");
    assert_eq!(s.tokens, 4);
    assert_eq!(s.cyrillic, 9);
    assert_eq!(s.chars, 12);
    let e = token_stats("");
    assert_eq!((e.tokens, e.cyrillic, e.chars), (0, 0, 0));
}
