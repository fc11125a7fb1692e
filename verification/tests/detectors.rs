use pd_guard::domain::document::{Document, Span};
use pd_guard::domain::entity::Candidate;
use pd_guard::service::detect::card::{CardNumberDetector, CvvDetector};
use pd_guard::service::detect::email::EmailDetector;
use pd_guard::service::detect::inn::InnDetector;
use pd_guard::service::detect::phone::PhoneDetector;
use pd_guard::service::detect::snils::SnilsDetector;

fn kinds(out: &[Candidate]) -> Vec<(String, usize, usize, u32)> {
    out.iter()
        .map(|c| (c.pd_type.0.clone(), c.span.start, c.span.end, c.score))
        .collect()
}

#[test]
fn card_with_known_prefix() {
    let doc = Document::new("card 4532015112830366 ok");
    let mut out = Vec::new();
    CardNumberDetector::new().unwrap().detect(&doc, &mut out);
    assert_eq!(kinds(&out), vec![("CARD_NUMBER".to_string(), 5, 21, 950)]);
}

#[test]
fn card_failing_luhn_is_dropped() {
    let doc = Document::new("card 4532015112830367 ok");
    let mut out = Vec::new();
    CardNumberDetector::new().unwrap().detect(&doc, &mut out);
    assert!(out.is_empty());
}

#[test]
fn person_inn_with_context() {
    let doc = Document::new("ИНН 500100732259");
    let mut out = Vec::new();
    InnDetector::new().unwrap().detect(&doc, &mut out);
    assert_eq!(kinds(&out), vec![("INN".to_string(), 7, 19, 980)]);
}

#[test]
fn ten_digit_inn_is_an_organisation() {
    let doc = Document::new("company 7707083893");
    let mut out = Vec::new();
    InnDetector::new().unwrap().detect(&doc, &mut out);
    assert_eq!(kinds(&out), vec![("ORG_INN".to_string(), 8, 18, 850)]);
}

#[test]
fn snils_with_context() {
    let doc = Document::new("снилс 112-233-445 95");
    let mut out = Vec::new();
    SnilsDetector::new().unwrap().detect(&doc, &mut out);
    assert_eq!(kinds(&out), vec![("SNILS".to_string(), 11, 25, 950)]);
}

#[test]
fn email_in_mixed_case() {
    let doc = Document::new("write to Ivan.Petrov@Example.com today");
    let mut out = Vec::new();
    EmailDetector::new().unwrap().detect(&doc, &mut out);
    assert_eq!(kinds(&out), vec![("EMAIL".to_string(), 9, 32, 950)]);
}

#[test]
fn phone_is_found() {
    let text = "звоните +7 999 123-45-67";
    let doc = Document::new(text);
    let mut out = Vec::new();
    PhoneDetector::new().unwrap().detect(&doc, &mut out);
    assert!(!out.is_empty());
    assert!(out.iter().all(|c| c.pd_type.0 == "PHONE"));
    let start = text.find('+').unwrap();
    assert!(out.iter().any(|c| c.span == Span::new(start, text.len())));
}

#[test]
fn cvv_after_keyword() {
    let doc = Document::new("cvv 123");
    let mut out = Vec::new();
    CvvDetector::new().unwrap().detect(&doc, &mut out);
    assert_eq!(out.len(), 1);
    assert_eq!(out[0].pd_type.0, "CVV");
    assert_eq!((out[0].span.start, out[0].span.end), (4, 7));
}

use pd_guard::service::detect::dates::DateDetector;
use pd_guard::service::detect::fio::FioDetector;
use pd_guard::service::detect::passport::{DivisionCodeDetector, PassportDetector};

#[test]
fn passport_with_context() {
    let doc = Document::new("паспорт 4509 123456");
    let mut out = Vec::new();
    PassportDetector::new().unwrap().detect(&doc, &mut out);
    assert_eq!(kinds(&out), vec![("PASSPORT".to_string(), 15, 26, 950)]);
}

#[test]
fn division_code_is_found() {
    let text = "код подразделения 770-001";
    let doc = Document::new(text);
    let mut out = Vec::new();
    DivisionCodeDetector::new().unwrap().detect(&doc, &mut out);
    assert!(!out.is_empty());
    assert_eq!(out[0].pd_type.0, "DIVISION_CODE");
    assert_eq!(&text[out[0].span.start..out[0].span.end], "770-001");
}

#[test]
fn numeric_date_is_found() {
    let text = "дата рождения 05.03.1985";
    let doc = Document::new(text);
    let mut out = Vec::new();
    DateDetector::new().unwrap().detect(&doc, &mut out);
    assert!(!out.is_empty());
    assert!(out.iter().any(|c| &text[c.span.start..c.span.end] == "05.03.1985"));
    assert!(out.iter().all(|c| c.pd_type.0.ends_with("DATE")));
}

#[test]
fn full_name_is_found() {
    let text = "Клиент Иванов Иван Иванович пришёл";
    let doc = Document::new(text);
    let mut out = Vec::new();
    FioDetector::new(vec!["иван".to_string()]).detect(&doc, &mut out);
    assert!(out.iter().any(|c| c.pd_type.0 == "FIO" && text[c.span.start..c.span.end].contains("Иван")));
}

use pd_guard::domain::pd_type::PdType;
use pd_guard::domain::traits::EffectivePolicy;
use pd_guard::service::detect::relevant;
use pd_guard::service::detect::structured::StructuredFieldDetector;

#[test]
fn detector_kinds_and_relevance() {
    let inn = InnDetector::new().unwrap().types();
    assert_eq!(inn.iter().map(|t| t.0.as_str()).collect::<Vec<_>>(), vec!["INN", "ORG_INN"]);
    assert_eq!(StructuredFieldDetector::new().unwrap().types().len(), 17);
    let mut policy = EffectivePolicy::empty();
    let card = CardNumberDetector::new().unwrap().types();
    assert!(relevant(&inn, &policy));
    assert!(!relevant(&card, &policy));
    policy.types.push(PdType::new("CARD_NUMBER"));
    assert!(relevant(&card, &policy));
}
