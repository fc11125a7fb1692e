use pd_guard::service::detect::validators::{
    get_validator, inn10_valid, inn12_valid, luhn_valid, parse_date, snils_valid, InnValidator,
    LuhnValidator, SnilsValidator, ValidationResult, Validator,
};

#[test]
fn luhn_known() {
    assert!(luhn_valid("4532015112830366"));
    assert!(!luhn_valid("4532015112830367"));
}

#[test]
fn inn_known() {
    assert!(inn10_valid("7707083893"));
    assert!(inn12_valid("500100732259"));
    assert!(!inn10_valid("7707083894"));
}

#[test]
fn snils_known() {
    assert!(snils_valid("11223344595"));
    assert!(!snils_valid("11223344596"));
}

#[test]
fn date_known() {
    assert!(parse_date("05.03.1985").is_some());
    assert!(parse_date("1985-03-05").is_some());
    assert!(parse_date("31.02.2020").is_none());
}

#[test]
fn date_interpretations() {
    assert_eq!(parse_date("05.03.1985"), Some((1985, 3, 5)));
    assert_eq!(parse_date("1985-03-05"), Some((1985, 3, 5)));
    assert_eq!(parse_date("29.02.2020"), Some((2020, 2, 29)));
    assert_eq!(parse_date("29.02.2021"), None);
    assert_eq!(parse_date("01.01.1850"), None);
}

#[test]
fn luhn_validator_applicability() {
    let v = LuhnValidator;
    assert_eq!(v.validate("4532 0151 1283 0366"), ValidationResult::Valid);
    assert_eq!(v.validate("4532 0151 1283 0367"), ValidationResult::Invalid);
    assert_eq!(v.validate("1234"), ValidationResult::NotApplicable);
}

#[test]
fn inn_and_snils_validators() {
    assert_eq!(InnValidator.validate("ИНН 7707083893"), ValidationResult::Valid);
    assert_eq!(InnValidator.validate("12345"), ValidationResult::NotApplicable);
    assert_eq!(SnilsValidator.validate("112-233-445 95"), ValidationResult::Valid);
    assert_eq!(SnilsValidator.validate("112-233-445 96"), ValidationResult::Invalid);
}

#[test]
fn validators_by_name() {
    assert!(get_validator("luhn").is_some());
    assert!(get_validator("inn").is_some());
    assert!(get_validator("unknown").is_none());
}
