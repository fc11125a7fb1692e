use pd_guard::domain::sensitive::Sensitive;

#[test]
fn debug_redacts() {
    let s = Sensitive::new(String::from("secret"));
    assert_eq!(s.redacted(), "<redacted>");
    assert_eq!(s.redacted(), "<redacted>");
    assert_eq!(s.expose(), "secret");
}
