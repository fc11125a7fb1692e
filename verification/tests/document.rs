use pd_guard::domain::document::{Document, Span};

#[test]
fn normalizes_case_and_yo() {
    let d = Document::new("Иванов Иван");
    assert_eq!(d.norm, "иванов иван");
}

#[test]
fn normalizes_dashes_and_quotes() {
    let d = Document::new("серия — 45–09 «тест»");
    assert_eq!(d.norm, "серия - 45-09 \"тест\"");
}

#[test]
fn to_original_maps_back() {
    let d = Document::new("Иванов");
    let span = d.to_original(0, d.norm.len());
    assert_eq!(d.original_slice(span), "Иванов");
}

#[test]
fn to_original_handles_length_change() {
    let d = Document::new("İ");
    let span = d.to_original(0, d.norm.len());
    assert_eq!(d.original_slice(span), "İ");
}

#[test]
fn sentinel_maps_to_end() {
    let d = Document::new("abc");
    let span = d.to_original(3, 3);
    assert_eq!(span, Span::new(3, 3));
}

#[test]
fn yo_folds_to_ye() {
    let d = Document::new("Ёлка");
    assert_eq!(d.norm, "елка");
}

#[test]
fn ascii_text_is_its_own_norm() {
    let d = Document::new("abc 123");
    assert_eq!(d.norm, "abc 123");
    assert!(d.norm_to_orig.is_empty());
}

#[test]
fn whole_normalized_text_maps_to_whole_original() {
    let original = "Ёж «Ж»";
    let d = Document::new(original);
    assert_eq!(d.to_original(0, d.norm.len()), Span::new(0, original.len()));
}

#[test]
fn later_offsets_never_map_earlier() {
    let d = Document::new("İ Ёж — x");
    let mut last = 0;
    for n in 0..=d.norm.len() {
        let s = d.to_original(n, n);
        assert!(s.start >= last);
        last = s.start;
    }
}
