use pd_guard::controller::admin::{authorize_reload, ReloadRefusal};
use pd_guard::domain::document::{Document, Span};
use pd_guard::domain::entity::{Candidate, DetectorSource, MaskState, SignalFlags};
use pd_guard::domain::pd_type::PdType;
use pd_guard::domain::traits::EffectivePolicy;
use pd_guard::domain::type_map::TypeMap;
use pd_guard::infra::crypto::sha256_hex;
use pd_guard::service::demask::Mapping;
use pd_guard::service::detect::card::CardNumberDetector;
use pd_guard::service::detect::context::is_boundary;
use pd_guard::service::detect::email::EmailDetector;
use pd_guard::service::detect::validators::{get_validator, ValidatorKind};
use pd_guard::service::detection::{detect_step, Detector};
use pd_guard::service::guard_service::demask_permitted;
use pd_guard::service::line::finish_line;
use pd_guard::service::mask::{
    HashMasker, Maskers, PartialMasker, PlaceholderMasker, RedactMasker, SyntheticMasker, TokenMasker,
};
use pd_guard::service::pipeline::{demask_line, line_without_masking};
use pd_guard::service::resolve::DefaultResolver;
use pd_guard::service::relevance::{
    BankAllowlistFilter, NegativeNumberContext, OrgContextFilter, PublicPersonFilter, RelevanceFilters,
};

fn maskers() -> Maskers {
    Maskers {
        placeholder: PlaceholderMasker { format: "[{label}_{n}]".to_string(), labels: TypeMap::new() },
        redact: RedactMasker,
        partial: PartialMasker { keep_last: 4 },
        token: TokenMasker { secret: vec![7; 32] },
        hash: HashMasker,
        synthetic: SyntheticMasker { secret: vec![7; 32], first_names: Vec::new(), surnames: Vec::new() },
    }
}

fn filters() -> RelevanceFilters {
    RelevanceFilters {
        public_persons: PublicPersonFilter { persons: Vec::new() },
        bank_allowlist: BankAllowlistFilter::new(Vec::new(), Vec::new()),
        org_context: OrgContextFilter,
        negative_number_context: NegativeNumberContext,
    }
}

fn policy_masking(types: &[&str]) -> EffectivePolicy {
    let mut p = EffectivePolicy::empty();
    p.types = types.iter().map(|t| PdType::new(t)).collect();
    p
}

fn candidate(t: &str, start: usize, end: usize, score: u32) -> Candidate {
    Candidate {
        pd_type: PdType::new(t),
        span: Span { start, end },
        score,
        source: DetectorSource::Regex { id: "test".to_string() },
        components: Vec::new(),
        signals: SignalFlags::empty(),
    }
}

#[test]
fn line_email_is_masked_with_a_placeholder() {
    let text = "пишите на ivan@mail.ru срочно";
    let doc = Document::new(text);
    let policy = policy_masking(&["EMAIL"]);
    let email = Detector::Email(EmailDetector::new().unwrap());
    let types = email.types();
    let mut cands = Vec::new();
    assert!(!detect_step(&email, &types, &doc, &policy, false, &mut cands));
    assert_eq!(cands.len(), 1);
    let mut state = MaskState::new();
    let r = finish_line(&doc, &policy, &filters(), &maskers(), cands, false, false, &mut state);
    assert_eq!(r.text, "пишите на [EMAIL_1] срочно");
    assert_eq!(r.entities.len(), 1);
    assert_eq!(r.records.len(), 1);
    assert!(!r.degraded);
    assert!(!r.ner_failed);
}

#[test]
fn line_deadline_stops_detection() {
    let doc = Document::new("пишите на ivan@mail.ru");
    let policy = policy_masking(&["EMAIL"]);
    let email = Detector::Email(EmailDetector::new().unwrap());
    let types = email.types();
    let mut cands = Vec::new();
    assert!(detect_step(&email, &types, &doc, &policy, true, &mut cands));
    assert!(cands.is_empty());
}

#[test]
fn line_irrelevant_detector_is_skipped() {
    let doc = Document::new("карта 4276 1600 1234 5678");
    let policy = policy_masking(&["EMAIL"]);
    let card = Detector::Card(CardNumberDetector::new().unwrap());
    let types = card.types();
    let mut cands = Vec::new();
    assert!(!detect_step(&card, &types, &doc, &policy, false, &mut cands));
    assert!(cands.is_empty());
}

#[test]
fn line_candidate_outside_the_text_is_dropped() {
    let text = "abc";
    let doc = Document::new(text);
    let policy = policy_masking(&["EMAIL"]);
    let mut state = MaskState::new();
    let r = finish_line(&doc, &policy, &filters(), &maskers(), vec![candidate("EMAIL", 1, 9, 950)], true, true, &mut state);
    assert_eq!(r.text, "abc");
    assert!(r.entities.is_empty());
    assert!(r.degraded);
    assert!(r.ner_failed);
}

#[test]
fn line_type_outside_policy_is_left() {
    let text = "x ivan@mail.ru";
    let doc = Document::new(text);
    let policy = policy_masking(&["PHONE"]);
    let mut state = MaskState::new();
    let r = finish_line(&doc, &policy, &filters(), &maskers(), vec![candidate("EMAIL", 2, 14, 950)], false, false, &mut state);
    assert_eq!(r.text, "x ivan@mail.ru");
    assert!(r.entities.is_empty());
}

#[test]
fn line_same_value_gets_same_number() {
    let text = "a@b.ru и a@b.ru и c@d.ru";
    let doc = Document::new(text);
    let policy = policy_masking(&["EMAIL"]);
    let email = Detector::Email(EmailDetector::new().unwrap());
    let types = email.types();
    let mut cands = Vec::new();
    detect_step(&email, &types, &doc, &policy, false, &mut cands);
    let mut state = MaskState::new();
    let r = finish_line(&doc, &policy, &filters(), &maskers(), cands, false, false, &mut state);
    assert_eq!(r.text, "[EMAIL_1] и [EMAIL_1] и [EMAIL_2]");
}

#[test]
fn boundary_after_cyrillic_letter_is_not_a_boundary() {
    let doc = Document::new("абв123");
    assert!(!is_boundary(&doc, 6, 9));
}

#[test]
fn boundary_after_space_is_a_boundary() {
    let doc = Document::new("x 123");
    assert!(is_boundary(&doc, 2, 5));
}

#[test]
fn demask_refused_when_disabled() {
    let mut p = EffectivePolicy::empty();
    p.demask = false;
    match demask_permitted(&p) {
        Err(e) => assert_eq!(e.message(), "vault unavailable: demask disabled for this system"),
        Ok(()) => panic!("demask must be refused"),
    }
    p.demask = true;
    assert!(demask_permitted(&p).is_ok());
}

#[test]
fn reload_needs_configured_token() {
    assert!(matches!(authorize_reload("", "secret"), Err(ReloadRefusal::NotConfigured)));
    let expected = sha256_hex(b"secret");
    assert!(authorize_reload(&expected, "secret").is_ok());
    assert!(matches!(authorize_reload(&expected, "wrong"), Err(ReloadRefusal::Unauthorized)));
    assert_eq!(ReloadRefusal::Unauthorized.message(), "unauthorized");
    assert_eq!(ReloadRefusal::NotConfigured.status(), 401);
}

#[test]
fn demask_line_without_entries_keeps_the_text() {
    let mapping = Mapping { entries: Vec::new(), original: String::new(), masked: String::new() };
    let r = demask_line("см. [EMAIL_1] и [PHONE_2]", &mapping);
    assert_eq!(r.text, "см. [EMAIL_1] и [PHONE_2]");
    assert_eq!(r.restored, 0);
    assert_eq!(r.unresolved, 2);
}

#[test]
fn validator_found_by_its_id() {
    for k in [ValidatorKind::Luhn, ValidatorKind::Inn, ValidatorKind::Snils, ValidatorKind::Date, ValidatorKind::PassportSeries] {
        assert_eq!(get_validator(k.id()), Some(k));
    }
    assert_eq!(ValidatorKind::PassportSeries.id(), "passport_series");
}

#[test]
fn pd_type_from_str() {
    let t: PdType = PdType::from("EMAIL");
    assert_eq!(t.0, "EMAIL");
}

#[test]
fn line_without_signal_is_left_alone() {
    let r = line_without_masking("просто текст без данных").unwrap();
    assert_eq!(r.text, "просто текст без данных");
    assert!(r.entities.is_empty() && r.records.is_empty() && !r.degraded && !r.ner_failed);
    assert!(line_without_masking("мой паспорт").is_none());
    assert!(line_without_masking("code 42").is_none());
}

#[test]
fn resolver_keeps_disjoint_spans_above_threshold() {
    let policy = policy_masking(&["EMAIL", "PHONE"]);
    let cands = vec![
        candidate("EMAIL", 0, 10, 950),
        candidate("PHONE", 5, 12, 700),
        candidate("PHONE", 20, 30, 100),
        candidate("EMAIL", 15, 18, 900),
    ];
    let es = DefaultResolver.resolve(cands, &policy);
    assert_eq!(es.iter().map(|e| (e.span.start, e.span.end)).collect::<Vec<_>>(), vec![(0, 10), (15, 18)]);
}

#[test]
fn masked_line_keeps_text_between_values() {
    let text = "a a@b.ru b c@d.ru c";
    let doc = Document::new(text);
    let policy = policy_masking(&["EMAIL"]);
    let email = Detector::Email(EmailDetector::new().unwrap());
    let types = email.types();
    let mut cands = Vec::new();
    detect_step(&email, &types, &doc, &policy, false, &mut cands);
    let mut state = MaskState::new();
    let r = finish_line(&doc, &policy, &filters(), &maskers(), cands, false, false, &mut state);
    assert_eq!(r.text, "a [EMAIL_1] b [EMAIL_2] c");
    assert_eq!(r.entities.len(), 2);
    assert!(r.entities[0].end <= r.entities[1].start);
    assert!(r.entities[0].masked_end <= r.entities[1].masked_start);
    assert_eq!(&r.text[r.entities[1].masked_start..r.entities[1].masked_end], "[EMAIL_2]");
}
