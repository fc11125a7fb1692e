//! What the answer of an HTTP recognition service means.
use vstd::prelude::*;

use crate::domain::document::Span;
use crate::domain::entity::{Candidate, DetectorSource};
use crate::domain::pd_type::PdType;
use crate::textops::str_eq;

verus! {

/// One entity of the service's answer; `score` is in thousandths.
pub struct NerEntity {
    pub label: String,
    pub start: usize,
    pub end: usize,
    pub score: u32,
}

/// The kind of data a label of the service stands for: persons are names, locations are
/// cities; other labels are not used.
pub open spec fn ner_kind(label: Seq<char>) -> Option<Seq<char>> {
    if label == "PER"@ {
        Some("FIO"@)
    } else if label == "LOC"@ {
        Some("ADDR_CITY"@)
    } else {
        None
    }
}

/// The candidates an answer gives, as kind, start, end and score, in the order of the answer.
/// The service's score is lowered by a tenth.
pub open spec fn ner_results(es: Seq<NerEntity>) -> Seq<(Seq<char>, usize, usize, int)>
    decreases es.len(),
{
    if es.len() == 0 {
        Seq::empty()
    } else {
        let e = es.last();
        let rest = ner_results(es.drop_last());
        match ner_kind(e.label@) {
            Some(k) => rest.push((k, e.start, e.end, e.score * 9 / 10)),
            None => rest,
        }
    }
}

/// The candidates of a recognition service's answer.
pub fn ner_candidates(entities: &Vec<NerEntity>) -> (r: Vec<Candidate>)
    ensures
        r@.len() == ner_results(entities@).len(),
        forall|i: int|
            0 <= i < r@.len() ==> {
                let c = #[trigger] r@[i];
                &&& (c.pd_type@, c.span.start, c.span.end, c.score as int) == ner_results(entities@)[i]
                &&& c.source matches DetectorSource::Ner { model } && model@ == "http"@
                &&& c.components@.len() == 0
            },
{
    let mut out: Vec<Candidate> = Vec::new();
    let mut i: usize = 0;
    while i < entities.len()
        invariant
            i <= entities@.len(),
            out@.len() == ner_results(entities@.take(i as int)).len(),
            forall|k: int|
                0 <= k < out@.len() ==> {
                    let c = #[trigger] out@[k];
                    &&& (c.pd_type@, c.span.start, c.span.end, c.score as int) == ner_results(entities@.take(i as int))[k]
                    &&& c.source matches DetectorSource::Ner { model } && model@ == "http"@
                    &&& c.components@.len() == 0
                },
        decreases entities@.len() - i,
    {
        let e = &entities[i];
        assert(entities@.take(i + 1).drop_last() =~= entities@.take(i as int));
        assert(entities@.take(i + 1).last() == entities@[i as int]);
        let kind: Option<&str> = if str_eq(e.label.as_str(), "PER") {
            Some("FIO")
        } else if str_eq(e.label.as_str(), "LOC") {
            Some("ADDR_CITY")
        } else {
            None
        };
        match kind {
            Some(k) => {
                let score = ((e.score as u64) * 9 / 10) as u32;
                let model = String::from_str("http");
                let c = Candidate::new(PdType::new(k), Span::new(e.start, e.end), score, DetectorSource::Ner { model });
                out.push(c);
            },
            None => {},
        }
        i += 1;
    }
    assert(entities@.take(i as int) =~= entities@);
    out
}

} // verus!
