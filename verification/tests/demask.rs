use pd_guard::service::demask::{demask, Mapping, MappingEntry};

fn mapping(key: &str, pd_type: &str, original: &str, masked: Option<&str>) -> Mapping {
    Mapping {
        entries: vec![MappingEntry {
            key: key.into(),
            pd_type: pd_type.into(),
            original: original.into(),
            masked: masked.map(|m| m.to_string()),
        }],
        ..Default::default()
    }
}

#[test]
fn demask_restores() {
    let mapping = mapping("ФИО_1", "FIO", "Иванов Иван Иванович", None);
    let res = demask("Клиент [ФИО_1] живёт", &mapping);
    assert_eq!(res.text, "Клиент Иванов Иван Иванович живёт");
    assert_eq!(res.restored, 1);
    assert_eq!(res.unresolved, 0);
}

#[test]
fn demask_tolerant() {
    let mapping = mapping("ФИО_1", "FIO", "Иванов", None);
    let res = demask("Клиент ФИО_1", &mapping);
    assert_eq!(res.text, "Клиент Иванов");
}

#[test]
fn unknown_placeholder_is_unresolved() {
    let mapping = mapping("ФИО_1", "FIO", "Иванов", None);
    let res = demask("Клиент [ФИО_2]", &mapping);
    assert_eq!(res.restored, 0);
    assert_eq!(res.unresolved, 1);
    assert_eq!(res.text, "Клиент [ФИО_2]");
}

#[test]
fn text_without_placeholders_is_unchanged() {
    let mapping = mapping("ФИО_1", "FIO", "Иванов", None);
    let res = demask("Обычный текст", &mapping);
    assert_eq!(res.text, "Обычный текст");
    assert_eq!(res.restored, 0);
    assert_eq!(res.unresolved, 0);
}

#[test]
fn partial_mask_is_restored() {
    let mapping = mapping("CARD_1", "CARD", "4532015112830366", Some("4532 **** **** 0366"));
    let res = demask("Карта 4532 **** **** 0366 активна", &mapping);
    assert_eq!(res.text, "Карта 4532015112830366 активна");
}
