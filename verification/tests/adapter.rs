use pd_guard::adapter::circuit_breaker::{CircuitBreaker, CircuitState};
use pd_guard::adapter::ner_http::{ner_candidates, NerEntity};
use pd_guard::domain::entity::DetectorSource;

#[test]
fn breaker_opens_on_failures_and_half_opens_later() {
    let mut cb = CircuitBreaker::new(500, 4, 10);
    assert!(cb.allow(0));
    cb.record(false, 100);
    cb.record(true, 200);
    cb.record(false, 300);
    assert_eq!(cb.state(), CircuitState::Closed);
    cb.record(false, 400);
    assert_eq!(cb.state(), CircuitState::Open);
    assert!(!cb.allow(5_000));
    assert!(cb.allow(10_400));
    assert_eq!(cb.state(), CircuitState::HalfOpen);
}

#[test]
fn breaker_stays_closed_below_ratio() {
    let mut cb = CircuitBreaker::new(500, 4, 10);
    cb.record(true, 1);
    cb.record(true, 2);
    cb.record(true, 3);
    cb.record(false, 4);
    assert_eq!(cb.state(), CircuitState::Closed);
    assert!(cb.allow(5));
}

#[test]
fn ner_labels_become_candidates() {
    let ents = vec![
        NerEntity { label: "PER".to_string(), start: 0, end: 5, score: 1000 },
        NerEntity { label: "ORG".to_string(), start: 6, end: 9, score: 900 },
        NerEntity { label: "LOC".to_string(), start: 10, end: 16, score: 500 },
    ];
    let out = ner_candidates(&ents);
    assert_eq!(out.len(), 2);
    assert_eq!(out[0].pd_type.0, "FIO");
    assert_eq!((out[0].span.start, out[0].span.end, out[0].score), (0, 5, 900));
    assert_eq!(out[1].pd_type.0, "ADDR_CITY");
    assert_eq!((out[1].span.start, out[1].span.end, out[1].score), (10, 16, 450));
    assert!(matches!(&out[1].source, DetectorSource::Ner { model } if model == "http"));
}
