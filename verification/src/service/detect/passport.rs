//! Detection of passport numbers (series and number, the series checked against the
//! current year) and of the code of the issuing division.
use vstd::prelude::*;

use crate::config::model::names_of;
use crate::service::detect::{kinds, literal_names};
use vstd::utf8::encode_utf8;

use crate::domain::document::Document;
use crate::domain::entity::Candidate;
use crate::domain::pd_type::PdType;
use crate::infra::pattern::{captures_view, captures_wf, group_ok, named_group, regex_captures, regex_valid, whole, Pattern};
use crate::service::detect::context::{boundary_spec, is_boundary};
use crate::service::detect::validators::{current_utc_year, series_result, PassportSeriesValidator, ValidationResult};
use crate::service::detect::{
    collect_hits, contains_any, contains_any_of, hits_pushed, lists, make_signals, match_str, match_text, near_str,
    near_text, push_hit, signals_of, Hit,
};
use crate::textops::{digit_val, digit_value, digits_of, filter_digits, push_str};

verus! {

pub open spec fn passport_source() -> Seq<char> {
    r"(?:серия\s*)?(?P<s1>\d{2})\s?(?P<s2>\d{2})\s*(?:(?:№|n|no\.?|номер)\s*)?(?P<num>\d{6})"@
}

pub open spec fn division_source() -> Seq<char> {
    r"\d{3}-\d{3}"@
}

/// Words near a number that mark it as a passport's.
pub open spec fn passport_words() -> Seq<Seq<char>> {
    seq!["паспорт"@, "серия"@, "паспортные данные"@, "удостоверение личности"@, "документ"@]
}

/// Words near a code that mark it as a division's.
pub open spec fn division_words() -> Seq<Seq<char>> {
    seq!["код подразделения"@, "к/п"@, "код подр"@]
}

/// The text of the named group `gi` of a match, empty when it did not take part.
pub open spec fn group_text(norm: Seq<char>, m: Seq<Option<(usize, usize)>>, gi: Option<usize>) -> Seq<char> {
    match gi {
        Some(g) => if g < m.len() && m[g as int] is Some {
            match_text(norm, m[g as int]->Some_0.0, m[g as int]->Some_0.1)
        } else {
            Seq::empty()
        },
        None => Seq::empty(),
    }
}

/// A passport number not glued to a word whose two halves of the series and number are
/// all present: with a series valid in `year`, 0.95 when a passport word is near, else 0.5;
/// otherwise 0.6 when such a word is near, else nothing.
pub open spec fn passport_hit(doc: Document, year: int, g1: Option<usize>, g2: Option<usize>, gn: Option<usize>, m: Seq<Option<(usize, usize)>>) -> Option<Hit> {
    let (s, e) = whole(m);
    let t1 = group_text(doc.norm@, m, g1);
    let t2 = group_text(doc.norm@, m, g2);
    let tn = group_text(doc.norm@, m, gn);
    let ctx = contains_any(near_text(doc.norm@, s, e), passport_words());
    if !boundary_spec(encode_utf8(doc.norm@), s as int, e as int) || t1.len() == 0 || t2.len() == 0 || tn.len() == 0 {
        None
    } else if series_result(t1 + t2, year) == ValidationResult::Valid {
        Some(Hit {
            pd_type: PdType::PASSPORT@,
            start: s,
            end: e,
            score: if ctx {
                950
            } else {
                500
            },
            signals: signals_of(true, false, true),
        })
    } else if ctx {
        Some(Hit { pd_type: PdType::PASSPORT@, start: s, end: e, score: 600, signals: signals_of(false, false, false) })
    } else {
        None
    }
}

/// A division code not glued to a word: six digits, a region from 01 to 99 and a third
/// digit up to 3; 0.95 with the context words near (and the signal), else 0.3.
pub open spec fn division_hit(doc: Document, m: Seq<Option<(usize, usize)>>) -> Option<Hit> {
    let (s, e) = whole(m);
    let d = filter_digits(match_text(doc.norm@, s, e));
    let ctx = contains_any(near_text(doc.norm@, s, e), division_words());
    if boundary_spec(encode_utf8(doc.norm@), s as int, e as int) && d.len() == 6 && 1 <= digit_val(d[0]) * 10
        + digit_val(d[1]) <= 99 && digit_val(d[2]) <= 3 {
        Some(Hit {
            pd_type: PdType::DIVISION_CODE@,
            start: s,
            end: e,
            score: if ctx {
                950
            } else {
                300
            },
            signals: signals_of(false, ctx, false),
        })
    } else {
        None
    }
}

/// Detector of passport numbers.
pub struct PassportDetector {
    pub re: Pattern,
    pub types: Vec<PdType>,
}

impl PassportDetector {
    pub fn new() -> (r: Option<PassportDetector>)
        ensures
            r is Some == regex_valid(passport_source()),
            r matches Some(d) ==> d.re@ == passport_source() && d.types@.len() == 1 && d.types@[0]@ == PdType::PASSPORT@,
    {
        match Pattern::compile(r"(?:серия\s*)?(?P<s1>\d{2})\s?(?P<s2>\d{2})\s*(?:(?:№|n|no\.?|номер)\s*)?(?P<num>\d{6})") {
            Ok(re) => Some(PassportDetector { re, types: vec![PdType::new(PdType::PASSPORT)] }),
            Err(_) => None,
        }
    }

    /// `out` is `old` followed by the candidates of the passport numbers, the series checked
    /// against year `y`.
    pub open spec fn reported_at(&self, doc: Document, y: int, old: Seq<Candidate>, out: Seq<Candidate>) -> bool {
        hits_pushed(doc, false, "passport"@, old, out, collect_hits(
            regex_captures(self.re@, doc.norm@),
            |m: Seq<Option<(usize, usize)>>| passport_hit(
                doc,
                y,
                named_group(self.re@, "s1"@),
                named_group(self.re@, "s2"@),
                named_group(self.re@, "num"@),
                m,
            ),
        ))
    }

    /// Reports the passport numbers, the series checked against the current year (read
    /// from the clock).
    pub fn detect(&self, doc: &Document<'_>, out: &mut Vec<Candidate>)
        requires
            doc.wf(),
        ensures
            exists|y: i32| #[trigger] self.reported_at(*doc, y as int, old(out)@, final(out)@),
    {
        let ms = self.re.captures(doc.norm.as_str());
        let g1 = self.re.group_index("s1");
        let g2 = self.re.group_index("s2");
        let gn = self.re.group_index("num");
        let year = current_utc_year();
        detect_passports(doc, &ms, year, g1, g2, gn, out);
        assert(self.reported_at(*doc, year as int, old(out)@, out@));
    }
}

/// The text of a named group of a match, empty when it did not take part.
fn group_str<'a>(doc: &'a Document<'_>, m: &Vec<Option<(usize, usize)>>, gi: Option<usize>) -> (r: &'a str)
    requires
        forall|k: int| 0 <= k < m@.len() ==> group_ok(encode_utf8(doc.norm@), #[trigger] m@[k]),
    ensures
        r@ == group_text(doc.norm@, m@, gi),
{
    proof {
        reveal_strlit("");
    }
    match gi {
        Some(g) => if g < m.len() {
            match m[g] {
                Some((s, e)) => {
                    assert(group_ok(encode_utf8(doc.norm@), m@[g as int]));
                    match_str(doc, s, e)
                },
                None => "",
            }
        } else {
            ""
        },
        None => "",
    }
}

/// What follows the search for passport numbers, given its matches, the current year and
/// the indexes of the groups of the series halves and of the number.
pub fn detect_passports(
    doc: &Document<'_>,
    ms: &Vec<Vec<Option<(usize, usize)>>>,
    year: i32,
    g1: Option<usize>,
    g2: Option<usize>,
    gn: Option<usize>,
    out: &mut Vec<Candidate>,
)
    requires
        doc.wf(),
        captures_wf(captures_view(*ms), encode_utf8(doc.norm@)),
    ensures
        hits_pushed(*doc, false, "passport"@, old(out)@, final(out)@, collect_hits(
            captures_view(*ms),
            |m: Seq<Option<(usize, usize)>>| passport_hit(*doc, year as int, g1, g2, gn, m),
        )),
{
    let ghost old_out = out@;
    let ghost f = |m: Seq<Option<(usize, usize)>>| passport_hit(*doc, year as int, g1, g2, gn, m);
    let ghost b = encode_utf8(doc.norm@);
    let ghost cv = captures_view(*ms);
    let words: Vec<&str> = vec!["паспорт", "серия", "паспортные данные", "удостоверение личности", "документ"];
    assert(lists(words@, passport_words()));
    let mut i: usize = 0;
    while i < ms.len()
        invariant
            doc.wf(),
            b == encode_utf8(doc.norm@),
            cv == captures_view(*ms),
            captures_wf(cv, b),
            lists(words@, passport_words()),
            f == (|m: Seq<Option<(usize, usize)>>| passport_hit(*doc, year as int, g1, g2, gn, m)),
            i <= cv.len(),
            hits_pushed(*doc, false, "passport"@, old_out, out@, collect_hits(cv.take(i as int), f)),
        decreases ms.len() - i,
    {
        assert(cv[i as int] == ms@[i as int]@);
        assert(cv.take(i + 1).drop_last() =~= cv.take(i as int));
        assert(cv.take(i + 1).last() == cv[i as int]);
        assert(group_ok(b, cv[i as int][0]));
        let ghost found = collect_hits(cv.take(i as int), f);
        let m = &ms[i];
        assert forall|k: int| 0 <= k < m@.len() implies group_ok(b, #[trigger] m@[k]) by {
            assert(group_ok(b, cv[i as int][k]));
        }
        let (s, e) = match m[0] {
            Some(x) => x,
            None => (0, 0),
        };
        if is_boundary(doc, s, e) {
            let t1 = group_str(doc, m, g1);
            let t2 = group_str(doc, m, g2);
            let tn = group_str(doc, m, gn);
            if !t1.is_empty() && !t2.is_empty() && !tn.is_empty() {
                let mut series = String::new();
                push_str(&mut series, t1);
                push_str(&mut series, t2);
                let ctx = contains_any_of(near_str(doc, s, e), &words, Ghost(passport_words()));
                if PassportSeriesValidator.validate_at_year(series.as_str(), year) == ValidationResult::Valid {
                    let score: u32 = if ctx {
                        950
                    } else {
                        500
                    };
                    push_hit(doc, out, PdType::PASSPORT, false, "passport", s, e, score, make_signals(true, false, true), Ghost(old_out), Ghost(found));
                } else if ctx {
                    push_hit(doc, out, PdType::PASSPORT, false, "passport", s, e, 600, make_signals(false, false, false), Ghost(old_out), Ghost(found));
                }
            }
        }
        i += 1;
    }
    assert(cv.take(i as int) =~= cv);
}

/// Detector of division codes.
pub struct DivisionCodeDetector {
    pub re: Pattern,
    pub types: Vec<PdType>,
}

impl DivisionCodeDetector {
    pub fn new() -> (r: Option<DivisionCodeDetector>)
        ensures
            r is Some == regex_valid(division_source()),
            r matches Some(d) ==> d.re@ == division_source() && d.types@.len() == 1 && d.types@[0]@ == PdType::DIVISION_CODE@,
    {
        match Pattern::compile(r"\d{3}-\d{3}") {
            Ok(re) => Some(DivisionCodeDetector { re, types: vec![PdType::new(PdType::DIVISION_CODE)] }),
            Err(_) => None,
        }
    }

    pub fn detect(&self, doc: &Document<'_>, out: &mut Vec<Candidate>)
        requires
            doc.wf(),
        ensures
            hits_pushed(*doc, false, "division_code"@, old(out)@, final(out)@, collect_hits(
                regex_captures(self.re@, doc.norm@),
                |m: Seq<Option<(usize, usize)>>| division_hit(*doc, m),
            )),
    {
        let ms = self.re.captures(doc.norm.as_str());
        detect_divisions(doc, &ms, out);
    }
}

/// What follows the search for division codes, given its matches.
pub fn detect_divisions(doc: &Document<'_>, ms: &Vec<Vec<Option<(usize, usize)>>>, out: &mut Vec<Candidate>)
    requires
        doc.wf(),
        captures_wf(captures_view(*ms), encode_utf8(doc.norm@)),
    ensures
        hits_pushed(*doc, false, "division_code"@, old(out)@, final(out)@, collect_hits(
            captures_view(*ms),
            |m: Seq<Option<(usize, usize)>>| division_hit(*doc, m),
        )),
{
    let ghost old_out = out@;
    let ghost f = |m: Seq<Option<(usize, usize)>>| division_hit(*doc, m);
    let ghost b = encode_utf8(doc.norm@);
    let ghost cv = captures_view(*ms);
    let words: Vec<&str> = vec!["код подразделения", "к/п", "код подр"];
    assert(lists(words@, division_words()));
    let mut i: usize = 0;
    while i < ms.len()
        invariant
            doc.wf(),
            b == encode_utf8(doc.norm@),
            cv == captures_view(*ms),
            captures_wf(cv, b),
            lists(words@, division_words()),
            f == (|m: Seq<Option<(usize, usize)>>| division_hit(*doc, m)),
            i <= cv.len(),
            hits_pushed(*doc, false, "division_code"@, old_out, out@, collect_hits(cv.take(i as int), f)),
        decreases ms.len() - i,
    {
        assert(cv[i as int] == ms@[i as int]@);
        assert(cv.take(i + 1).drop_last() =~= cv.take(i as int));
        assert(cv.take(i + 1).last() == cv[i as int]);
        assert(group_ok(b, cv[i as int][0]));
        let ghost found = collect_hits(cv.take(i as int), f);
        let (s, e) = match ms[i][0] {
            Some(x) => x,
            None => (0, 0),
        };
        if is_boundary(doc, s, e) {
            let d = digits_of(match_str(doc, s, e));
            if d.len() == 6 {
                let region = digit_value(d[0]) * 10 + digit_value(d[1]);
                let kind = digit_value(d[2]);
                if 1 <= region && region <= 99 && kind <= 3 {
                    let ctx = contains_any_of(near_str(doc, s, e), &words, Ghost(division_words()));
                    let score: u32 = if ctx {
                        950
                    } else {
                        300
                    };
                    push_hit(doc, out, PdType::DIVISION_CODE, false, "division_code", s, e, score, make_signals(false, ctx, false), Ghost(old_out), Ghost(found));
                }
            }
        }
        i += 1;
    }
    assert(cv.take(i as int) =~= cv);
}

impl PassportDetector {
    /// The kinds of data this detector reports.
    pub fn types(&self) -> (r: Vec<PdType>)
        ensures
            names_of(r@) == seq!["PASSPORT"@],
    {
        let names: Vec<&str> = vec!["PASSPORT"];
        let r = kinds(names);
        assert(literal_names(names@) =~= seq!["PASSPORT"@]);
        r
    }
}

impl DivisionCodeDetector {
    /// The kinds of data this detector reports.
    pub fn types(&self) -> (r: Vec<PdType>)
        ensures
            names_of(r@) == seq!["DIVISION_CODE"@],
    {
        let names: Vec<&str> = vec!["DIVISION_CODE"];
        let r = kinds(names);
        assert(literal_names(names@) =~= seq!["DIVISION_CODE"@]);
        r
    }
}

} // verus!
