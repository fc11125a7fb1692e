//! Detection of SNILS numbers (insurance numbers), checked by their control number.
use vstd::prelude::*;

use crate::config::model::names_of;
use crate::service::detect::{kinds, literal_names};
use vstd::utf8::encode_utf8;

use crate::domain::document::Document;
use crate::domain::entity::Candidate;
use crate::domain::pd_type::PdType;
use crate::infra::pattern::{captures_view, captures_wf, group_ok, regex_captures, regex_valid, whole, Pattern};
use crate::service::detect::context::{boundary_spec, has_word, has_word_spec, is_boundary};
use crate::service::detect::validators::{snils_result, SnilsValidator, ValidationResult};
use crate::service::detect::{collect_hits, hits_pushed, make_signals, match_str, match_text, near_str, near_text, push_hit, signals_of, Hit};
use crate::textops::{digits_of, filter_digits, string_from_chars};

verus! {

pub open spec fn snils_source() -> Seq<char> {
    r"\d{3}-\d{3}-\d{3}[ -]\d{2}|\d{11}"@
}

/// A number not glued to a word with eleven digits: with a valid control number 0.95 when
/// the word `снилс` is near, else 0.85; with an invalid one 0.6 when the word is near, else
/// nothing.
pub open spec fn snils_hit(doc: Document, m: Seq<Option<(usize, usize)>>) -> Option<Hit> {
    let (s, e) = whole(m);
    let d = filter_digits(match_text(doc.norm@, s, e));
    let ctx = has_word_spec(near_text(doc.norm@, s, e), "снилс"@);
    if !boundary_spec(encode_utf8(doc.norm@), s as int, e as int) || d.len() != 11 {
        None
    } else if snils_result(d) == ValidationResult::Valid {
        Some(Hit {
            pd_type: PdType::SNILS@,
            start: s,
            end: e,
            score: if ctx {
                950
            } else {
                850
            },
            signals: signals_of(true, false, true),
        })
    } else if ctx {
        Some(Hit { pd_type: PdType::SNILS@, start: s, end: e, score: 600, signals: signals_of(false, false, false) })
    } else {
        None
    }
}

/// Detector of SNILS numbers.
pub struct SnilsDetector {
    pub re: Pattern,
    pub types: Vec<PdType>,
}

impl SnilsDetector {
    pub fn new() -> (r: Option<SnilsDetector>)
        ensures
            r is Some == regex_valid(snils_source()),
            r matches Some(d) ==> d.re@ == snils_source() && d.types@.len() == 1 && d.types@[0]@ == PdType::SNILS@,
    {
        match Pattern::compile(r"\d{3}-\d{3}-\d{3}[ -]\d{2}|\d{11}") {
            Ok(re) => Some(SnilsDetector { re, types: vec![PdType::new(PdType::SNILS)] }),
            Err(_) => None,
        }
    }

    pub fn detect(&self, doc: &Document<'_>, out: &mut Vec<Candidate>)
        requires
            doc.wf(),
        ensures
            hits_pushed(*doc, true, "snils"@, old(out)@, final(out)@, collect_hits(
                regex_captures(self.re@, doc.norm@),
                |m: Seq<Option<(usize, usize)>>| snils_hit(*doc, m),
            )),
    {
        let ms = self.re.captures(doc.norm.as_str());
        detect_snils(doc, &ms, out);
    }
}

/// What follows the search for SNILS numbers, given its matches.
pub fn detect_snils(doc: &Document<'_>, ms: &Vec<Vec<Option<(usize, usize)>>>, out: &mut Vec<Candidate>)
    requires
        doc.wf(),
        captures_wf(captures_view(*ms), encode_utf8(doc.norm@)),
    ensures
        hits_pushed(*doc, true, "snils"@, old(out)@, final(out)@, collect_hits(
            captures_view(*ms),
            |m: Seq<Option<(usize, usize)>>| snils_hit(*doc, m),
        )),
{
    let ghost old_out = out@;
    let ghost f = |m: Seq<Option<(usize, usize)>>| snils_hit(*doc, m);
    let ghost b = encode_utf8(doc.norm@);
    let ghost cv = captures_view(*ms);
    let mut i: usize = 0;
    while i < ms.len()
        invariant
            doc.wf(),
            b == encode_utf8(doc.norm@),
            cv == captures_view(*ms),
            captures_wf(cv, b),
            f == (|m: Seq<Option<(usize, usize)>>| snils_hit(*doc, m)),
            i <= cv.len(),
            hits_pushed(*doc, true, "snils"@, old_out, out@, collect_hits(cv.take(i as int), f)),
        decreases ms.len() - i,
    {
        assert(cv[i as int] == ms@[i as int]@);
        assert(cv.take(i + 1).drop_last() =~= cv.take(i as int));
        assert(cv.take(i + 1).last() == cv[i as int]);
        assert(group_ok(b, cv[i as int][0]));
        let ghost found = collect_hits(cv.take(i as int), f);
        let (s, e) = match ms[i][0] {
            Some(x) => x,
            None => (0, 0),
        };
        if is_boundary(doc, s, e) {
            let d = digits_of(match_str(doc, s, e));
            if d.len() == 11 {
                let ctx = has_word(near_str(doc, s, e), "снилс");
                let ds = string_from_chars(d.as_slice());
                if SnilsValidator.validate_raw(ds.as_str()) == ValidationResult::Valid {
                    let score: u32 = if ctx {
                        950
                    } else {
                        850
                    };
                    push_hit(doc, out, PdType::SNILS, true, "snils", s, e, score, make_signals(true, false, true), Ghost(old_out), Ghost(found));
                } else if ctx {
                    push_hit(doc, out, PdType::SNILS, true, "snils", s, e, 600, make_signals(false, false, false), Ghost(old_out), Ghost(found));
                }
            }
        }
        i += 1;
    }
    assert(cv.take(i as int) =~= cv);
}

impl SnilsDetector {
    /// The kinds of data this detector reports.
    pub fn types(&self) -> (r: Vec<PdType>)
        ensures
            names_of(r@) == seq!["SNILS"@],
    {
        let names: Vec<&str> = vec!["SNILS"];
        let r = kinds(names);
        assert(literal_names(names@) =~= seq!["SNILS"@]);
        r
    }
}

} // verus!
