//! Detection of taxpayer numbers (INN): checked by their control digits, and told apart
//! from organizations' numbers by their length and the words around them.
use vstd::prelude::*;

use crate::config::model::names_of;
use crate::service::detect::{kinds, literal_names};
use vstd::utf8::encode_utf8;

use crate::domain::document::Document;
use crate::domain::entity::Candidate;
use crate::domain::pd_type::PdType;
use crate::infra::pattern::{captures_view, captures_wf, group_ok, regex_captures, regex_valid, whole, Pattern};
use crate::service::detect::context::{boundary_spec, has_word, has_word_spec, is_boundary};
use crate::service::detect::validators::{inn_result, InnValidator, ValidationResult};
use crate::service::detect::{
    any_word_of, collect_hits, has_any_word_spec, hits_pushed, lists, make_signals, match_str, match_text, near_str,
    near_text, push_hit, signals_of, Hit,
};
use crate::textops::{seq_contains_seq, str_contains};

verus! {

pub open spec fn inn_source() -> Seq<char> {
    r"\d{12}|\d{10}"@
}

/// Words that mark a number as an organization's.
pub open spec fn org_words() -> Seq<Seq<char>> {
    seq!["ооо"@, "пао"@, "ао"@, "ип"@]
}

/// An organization's number: ten bytes long, or next to an organization word or the
/// phrases `инн организации` / `инн банка`.
pub open spec fn org_number(norm: Seq<char>, s: usize, e: usize) -> bool {
    let w = near_text(norm, s, e);
    e - s == 10 || has_any_word_spec(w, org_words()) || seq_contains_seq(w, "инн организации"@)
        || seq_contains_seq(w, "инн банка"@)
}

/// A number not glued to a word: with valid control digits 0.98 when the word `инн` is
/// near, else 0.85; with invalid ones 0.6 when the word is near, else nothing; and nothing
/// when the length is not one of a taxpayer number.
pub open spec fn inn_hit(doc: Document, m: Seq<Option<(usize, usize)>>) -> Option<Hit> {
    let (s, e) = whole(m);
    let t = if org_number(doc.norm@, s, e) {
        PdType::ORG_INN@
    } else {
        PdType::INN@
    };
    let ctx = has_word_spec(near_text(doc.norm@, s, e), "инн"@);
    if !boundary_spec(encode_utf8(doc.norm@), s as int, e as int) {
        None
    } else {
        match inn_result(match_text(doc.norm@, s, e)) {
            ValidationResult::Valid => Some(Hit {
                pd_type: t,
                start: s,
                end: e,
                score: if ctx {
                    980
                } else {
                    850
                },
                signals: signals_of(true, false, true),
            }),
            ValidationResult::Invalid => if ctx {
                Some(Hit { pd_type: t, start: s, end: e, score: 600, signals: signals_of(false, false, false) })
            } else {
                None
            },
            ValidationResult::NotApplicable => None,
        }
    }
}

/// Detector of taxpayer numbers.
pub struct InnDetector {
    pub re: Pattern,
    pub types: Vec<PdType>,
}

impl InnDetector {
    pub fn new() -> (r: Option<InnDetector>)
        ensures
            r is Some == regex_valid(inn_source()),
            r matches Some(d) ==> d.re@ == inn_source() && d.types@.len() == 2 && d.types@[0]@ == PdType::INN@
                && d.types@[1]@ == PdType::ORG_INN@,
    {
        match Pattern::compile(r"\d{12}|\d{10}") {
            Ok(re) => Some(InnDetector { re, types: vec![PdType::new(PdType::INN), PdType::new(PdType::ORG_INN)] }),
            Err(_) => None,
        }
    }

    pub fn detect(&self, doc: &Document<'_>, out: &mut Vec<Candidate>)
        requires
            doc.wf(),
        ensures
            hits_pushed(*doc, true, "inn"@, old(out)@, final(out)@, collect_hits(
                regex_captures(self.re@, doc.norm@),
                |m: Seq<Option<(usize, usize)>>| inn_hit(*doc, m),
            )),
    {
        let ms = self.re.captures(doc.norm.as_str());
        detect_inns(doc, &ms, out);
    }
}

/// What follows the search for taxpayer numbers, given its matches.
pub fn detect_inns(doc: &Document<'_>, ms: &Vec<Vec<Option<(usize, usize)>>>, out: &mut Vec<Candidate>)
    requires
        doc.wf(),
        captures_wf(captures_view(*ms), encode_utf8(doc.norm@)),
    ensures
        hits_pushed(*doc, true, "inn"@, old(out)@, final(out)@, collect_hits(
            captures_view(*ms),
            |m: Seq<Option<(usize, usize)>>| inn_hit(*doc, m),
        )),
{
    let ghost old_out = out@;
    let ghost f = |m: Seq<Option<(usize, usize)>>| inn_hit(*doc, m);
    let ghost b = encode_utf8(doc.norm@);
    let ghost cv = captures_view(*ms);
    let words: Vec<&str> = vec!["ооо", "пао", "ао", "ип"];
    assert(lists(words@, org_words()));
    let mut i: usize = 0;
    while i < ms.len()
        invariant
            doc.wf(),
            b == encode_utf8(doc.norm@),
            cv == captures_view(*ms),
            captures_wf(cv, b),
            lists(words@, org_words()),
            f == (|m: Seq<Option<(usize, usize)>>| inn_hit(*doc, m)),
            i <= cv.len(),
            hits_pushed(*doc, true, "inn"@, old_out, out@, collect_hits(cv.take(i as int), f)),
        decreases ms.len() - i,
    {
        assert(cv[i as int] == ms@[i as int]@);
        assert(cv.take(i + 1).drop_last() =~= cv.take(i as int));
        assert(cv.take(i + 1).last() == cv[i as int]);
        assert(group_ok(b, cv[i as int][0]));
        let ghost found = collect_hits(cv.take(i as int), f);
        let (s, e) = match ms[i][0] {
            Some(x) => x,
            None => (0, 0),
        };
        if is_boundary(doc, s, e) {
            let digits = match_str(doc, s, e);
            let w = near_str(doc, s, e);
            let org = e - s == 10 || any_word_of(w, &words, Ghost(org_words())) || str_contains(w, "инн организации")
                || str_contains(w, "инн банка");
            let pd = if org {
                PdType::ORG_INN
            } else {
                PdType::INN
            };
            let ctx = has_word(w, "инн");
            match InnValidator.validate_raw(digits) {
                ValidationResult::Valid => {
                    let score: u32 = if ctx {
                        980
                    } else {
                        850
                    };
                    push_hit(doc, out, pd, true, "inn", s, e, score, make_signals(true, false, true), Ghost(old_out), Ghost(found));
                },
                ValidationResult::Invalid => {
                    if ctx {
                        push_hit(doc, out, pd, true, "inn", s, e, 600, make_signals(false, false, false), Ghost(old_out), Ghost(found));
                    }
                },
                ValidationResult::NotApplicable => {},
            }
        }
        i += 1;
    }
    assert(cv.take(i as int) =~= cv);
}

impl InnDetector {
    /// The kinds of data this detector reports.
    pub fn types(&self) -> (r: Vec<PdType>)
        ensures
            names_of(r@) == seq!["INN"@, "ORG_INN"@],
    {
        let names: Vec<&str> = vec!["INN", "ORG_INN"];
        let r = kinds(names);
        assert(literal_names(names@) =~= seq!["INN"@, "ORG_INN"@]);
        r
    }
}

} // verus!
