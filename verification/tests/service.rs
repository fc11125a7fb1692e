use pd_guard::service::demask::{Mapping, MappingEntry};
use pd_guard::service::detect::validators::{inn12_valid, luhn_valid};
use pd_guard::service::guard_service::{decide_tz, TzOutcome};
use pd_guard::service::normalize::DefaultNormalizer;
use pd_guard::service::pipeline::has_pd_signal;
use pd_guard::service::synthetic::{synthetic_card, synthetic_inn, synthetic_phone};

fn digits(s: &str) -> String {
    s.chars().filter(|c| c.is_ascii_digit()).collect()
}

#[test]
fn synthetic_cards_pass_luhn() {
    for seed in [0u64, 1, 42, 123_456_789, u64::MAX] {
        let c = synthetic_card(seed);
        assert_eq!(digits(&c).len(), 16);
        assert!(luhn_valid(&digits(&c)), "seed {seed}: {c}");
        assert_eq!(c.len(), 19);
    }
}

#[test]
fn synthetic_inns_pass_checksum() {
    for seed in [0u64, 7, 99, 987_654_321, u64::MAX] {
        let inn = synthetic_inn(seed);
        assert_eq!(inn.len(), 12);
        assert!(inn12_valid(&inn), "seed {seed}: {inn}");
    }
}

#[test]
fn synthetic_phone_shape() {
    let p = synthetic_phone(5);
    assert!(p.starts_with("+7 ("));
    assert_eq!(p.len(), 18);
    assert_eq!(digits(&p).len(), 11);
    assert_eq!(synthetic_phone(5), p);
}

#[test]
fn pd_signal() {
    assert!(!has_pd_signal("просто текст без данных"));
    assert!(has_pd_signal("Иван"));
    assert!(has_pd_signal("a@b"));
    assert!(has_pd_signal("тел 123"));
    assert!(!has_pd_signal(""));
    assert!(has_pd_signal("мой паспорт"));
    assert!(has_pd_signal("звоните на телефон"));
}

fn stored() -> Mapping {
    Mapping {
        entries: vec![MappingEntry {
            key: "ФИО_1".into(),
            pd_type: "FIO".into(),
            original: "Иванов".into(),
            masked: None,
        }],
        original: "Клиент Иванов".into(),
        masked: "Клиент [ФИО_1]".into(),
    }
}

#[test]
fn keyed_requests() {
    assert!(decide_tz(false, Some(stored()), "Клиент Иванов").is_none());
    assert!(decide_tz(true, None, "Клиент Иванов").is_none());
    match decide_tz(true, Some(stored()), "Клиент Иванов") {
        Some(TzOutcome::Repeated(t)) => assert_eq!(t, "Клиент [ФИО_1]"),
        _ => panic!("expected a retry"),
    }
    match decide_tz(true, Some(stored()), "Клиент [ФИО_1]") {
        Some(TzOutcome::Restored { text, restored }) => {
            assert_eq!(text, "Клиент Иванов");
            assert_eq!(restored, 1);
        }
        _ => panic!("expected the original"),
    }
    match decide_tz(true, Some(stored()), "Ответ про [ФИО_1]") {
        Some(o) => {
            assert_eq!(o.text(), "Ответ про Иванов");
            assert_eq!(o.step(), "demask");
        }
        None => panic!("expected a demasked answer"),
    }
}

#[test]
fn normalizer_lowercases() {
    let d = DefaultNormalizer.normalize("ПРИВЕТ Ёж");
    assert_eq!(d.norm, "привет еж");
}
