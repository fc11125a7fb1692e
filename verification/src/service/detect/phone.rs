//! Detection of phone numbers: Russian numbers checked by their length and leading digits,
//! and international numbers by their length.
use vstd::prelude::*;

use crate::config::model::names_of;
use crate::service::detect::{kinds, literal_names};
use vstd::utf8::encode_utf8;

use crate::domain::document::Document;
use crate::domain::entity::Candidate;
use crate::domain::pd_type::PdType;
use crate::infra::pattern::{captures_view, captures_wf, group_ok, regex_captures, regex_valid, whole, Pattern};
use crate::service::detect::context::{boundary_spec, is_boundary, raise_score};
use crate::service::detect::{
    any_word_of, collect_hits, has_any_word_spec, hits_pushed, lists, make_signals, match_str, match_text,
    near_str, near_text, push_hit, signals_of, Hit,
};
use crate::textops::{digits_of, filter_digits};

verus! {

pub open spec fn rf_source() -> Seq<char> {
    r"(?:\+7|8|7)?[ \-(]{0,2}\d{3}[ \-)]{0,2}\d{3}[ \-]?\d{2}[ \-]?\d{2}"@
}

pub open spec fn intl_source() -> Seq<char> {
    r"\+\d{1,3}[ \-(]{0,2}\d{1,4}[ \-)]{0,2}\d{2,4}[ \-]?\d{2,4}[ \-]?\d{0,4}"@
}

/// Words near a number that mark it as a phone.
pub open spec fn phone_words() -> Seq<Seq<char>> {
    seq!["тел"@, "телефон"@, "моб"@, "звоните"@, "whatsapp"@, "telegram"@, "phone"@]
}

/// Score (thousandths) of the digits of a Russian number, or none when they are not one:
/// ten digits starting with 3, 4, 8 or 9 (0.6 for a mobile 9, else 0.8), or eleven digits
/// starting with 7 or 8 and then 3, 4, 8 or 9 (0.9).
pub open spec fn rf_score(d: Seq<char>) -> Option<u32> {
    if d.len() == 10 {
        if d[0] == '3' || d[0] == '4' || d[0] == '8' || d[0] == '9' {
            Some(if d[0] == '9' {
                600u32
            } else {
                800u32
            })
        } else {
            None
        }
    } else if d.len() == 11 {
        if (d[0] == '7' || d[0] == '8') && (d[1] == '3' || d[1] == '4' || d[1] == '8' || d[1] == '9') {
            Some(900u32)
        } else {
            None
        }
    } else {
        None
    }
}

/// A Russian number: not glued to a word, with valid digits; a phone word nearby raises
/// the score by 0.35.
pub open spec fn rf_hit(doc: Document, m: Seq<Option<(usize, usize)>>) -> Option<Hit> {
    let (s, e) = whole(m);
    if !boundary_spec(encode_utf8(doc.norm@), s as int, e as int) {
        None
    } else {
        match rf_score(filter_digits(match_text(doc.norm@, s, e))) {
            None => None,
            Some(sc) => {
                let ctx = has_any_word_spec(near_text(doc.norm@, s, e), phone_words());
                Some(Hit {
                    pd_type: PdType::PHONE@,
                    start: s,
                    end: e,
                    score: if ctx {
                        raise_score(sc)
                    } else {
                        sc
                    },
                    signals: signals_of(false, ctx, false),
                })
            },
        }
    }
}

/// An international number: not glued to a word, with 8 to 15 digits.
pub open spec fn intl_hit(doc: Document, m: Seq<Option<(usize, usize)>>) -> Option<Hit> {
    let (s, e) = whole(m);
    let n = filter_digits(match_text(doc.norm@, s, e)).len();
    if boundary_spec(encode_utf8(doc.norm@), s as int, e as int) && 8 <= n <= 15 {
        Some(Hit { pd_type: PdType::PHONE@, start: s, end: e, score: 900, signals: signals_of(false, false, false) })
    } else {
        None
    }
}

/// All phone hits: Russian numbers first, then international ones.
pub open spec fn phone_hits(doc: Document, rf: Seq<Seq<Option<(usize, usize)>>>, intl: Seq<Seq<Option<(usize, usize)>>>) -> Seq<Hit> {
    collect_hits(rf, |m: Seq<Option<(usize, usize)>>| rf_hit(doc, m)) + collect_hits(intl, |m: Seq<Option<(usize, usize)>>| intl_hit(doc, m))
}

/// Detector of phone numbers.
pub struct PhoneDetector {
    pub re_rf: Pattern,
    pub re_intl: Pattern,
    pub types: Vec<PdType>,
}

impl PhoneDetector {
    /// Compiles the two patterns; `None` if the regex crate refuses one.
    pub fn new() -> (r: Option<PhoneDetector>)
        ensures
            r is Some == (regex_valid(rf_source()) && regex_valid(intl_source())),
            r matches Some(d) ==> d.re_rf@ == rf_source() && d.re_intl@ == intl_source() && d.types@.len() == 1
                && d.types@[0]@ == PdType::PHONE@,
    {
        let re_rf = match Pattern::compile(r"(?:\+7|8|7)?[ \-(]{0,2}\d{3}[ \-)]{0,2}\d{3}[ \-]?\d{2}[ \-]?\d{2}") {
            Ok(p) => p,
            Err(_) => return None,
        };
        let re_intl = match Pattern::compile(r"\+\d{1,3}[ \-(]{0,2}\d{1,4}[ \-)]{0,2}\d{2,4}[ \-]?\d{2,4}[ \-]?\d{0,4}") {
            Ok(p) => p,
            Err(_) => return None,
        };
        Some(PhoneDetector { re_rf, re_intl, types: vec![PdType::new(PdType::PHONE)] })
    }

    /// Reports the phone numbers of the normalized text.
    pub fn detect(&self, doc: &Document<'_>, out: &mut Vec<Candidate>)
        requires
            doc.wf(),
        ensures
            hits_pushed(*doc, false, "phone"@, old(out)@, final(out)@, phone_hits(
                *doc,
                regex_captures(self.re_rf@, doc.norm@),
                regex_captures(self.re_intl@, doc.norm@),
            )),
    {
        let rf = self.re_rf.captures(doc.norm.as_str());
        let intl = self.re_intl.captures(doc.norm.as_str());
        detect_phones(doc, &rf, &intl, out);
    }
}

/// What follows the searches, given the matches of the Russian and international patterns.
pub fn detect_phones(
    doc: &Document<'_>,
    rf: &Vec<Vec<Option<(usize, usize)>>>,
    intl: &Vec<Vec<Option<(usize, usize)>>>,
    out: &mut Vec<Candidate>,
)
    requires
        doc.wf(),
        captures_wf(captures_view(*rf), encode_utf8(doc.norm@)),
        captures_wf(captures_view(*intl), encode_utf8(doc.norm@)),
    ensures
        hits_pushed(*doc, false, "phone"@, old(out)@, final(out)@, phone_hits(*doc, captures_view(*rf), captures_view(*intl))),
{
    let ghost old_out = out@;
    let ghost fr = |m: Seq<Option<(usize, usize)>>| rf_hit(*doc, m);
    let ghost fi = |m: Seq<Option<(usize, usize)>>| intl_hit(*doc, m);
    let ghost b = encode_utf8(doc.norm@);
    let ghost cv = captures_view(*rf);
    let words: Vec<&str> = vec!["тел", "телефон", "моб", "звоните", "whatsapp", "telegram", "phone"];
    assert(lists(words@, phone_words()));
    let mut i: usize = 0;
    while i < rf.len()
        invariant
            doc.wf(),
            b == encode_utf8(doc.norm@),
            cv == captures_view(*rf),
            captures_wf(cv, b),
            lists(words@, phone_words()),
            fr == (|m: Seq<Option<(usize, usize)>>| rf_hit(*doc, m)),
            i <= cv.len(),
            hits_pushed(*doc, false, "phone"@, old_out, out@, collect_hits(cv.take(i as int), fr)),
        decreases rf.len() - i,
    {
        assert(cv[i as int] == rf@[i as int]@);
        assert(cv.take(i + 1).drop_last() =~= cv.take(i as int));
        assert(cv.take(i + 1).last() == cv[i as int]);
        assert(group_ok(b, cv[i as int][0]));
        let ghost found = collect_hits(cv.take(i as int), fr);
        let (s, e) = match rf[i][0] {
            Some(x) => x,
            None => (0, 0),
        };
        if is_boundary(doc, s, e) {
            let d = digits_of(match_str(doc, s, e));
            let sc = rf_score_of(&d);
            match sc {
                Some(sc) => {
                    let ctx = any_word_of(near_str(doc, s, e), &words, Ghost(phone_words()));
                    let score = if ctx {
                        if sc >= 650 {
                            1000
                        } else {
                            sc + 350
                        }
                    } else {
                        sc
                    };
                    push_hit(doc, out, PdType::PHONE, false, "phone", s, e, score, make_signals(false, ctx, false), Ghost(old_out), Ghost(found));
                },
                None => {},
            }
        }
        i += 1;
    }
    assert(cv.take(i as int) =~= cv);
    let ghost base = collect_hits(cv, fr);
    let ghost cw = captures_view(*intl);
    let mut j: usize = 0;
    while j < intl.len()
        invariant
            doc.wf(),
            b == encode_utf8(doc.norm@),
            cw == captures_view(*intl),
            captures_wf(cw, b),
            fi == (|m: Seq<Option<(usize, usize)>>| intl_hit(*doc, m)),
            j <= cw.len(),
            hits_pushed(*doc, false, "phone"@, old_out, out@, base + collect_hits(cw.take(j as int), fi)),
        decreases intl.len() - j,
    {
        assert(cw[j as int] == intl@[j as int]@);
        assert(cw.take(j + 1).drop_last() =~= cw.take(j as int));
        assert(cw.take(j + 1).last() == cw[j as int]);
        assert(group_ok(b, cw[j as int][0]));
        let ghost found = base + collect_hits(cw.take(j as int), fi);
        let (s, e) = match intl[j][0] {
            Some(x) => x,
            None => (0, 0),
        };
        if is_boundary(doc, s, e) {
            let d = digits_of(match_str(doc, s, e));
            if 8 <= d.len() && d.len() <= 15 {
                push_hit(doc, out, PdType::PHONE, false, "phone", s, e, 900, make_signals(false, false, false), Ghost(old_out), Ghost(found));
                assert(found.push(intl_hit(*doc, cw[j as int])->0) =~= base + collect_hits(cw.take(j + 1), fi));
            }
        }
        j += 1;
    }
    assert(cw.take(j as int) =~= cw);
}

fn rf_score_of(d: &Vec<char>) -> (r: Option<u32>)
    ensures
        r == rf_score(d@),
{
    if d.len() == 10 {
        let f = d[0];
        if f == '3' || f == '4' || f == '8' || f == '9' {
            Some(if f == '9' {
                600
            } else {
                800
            })
        } else {
            None
        }
    } else if d.len() == 11 {
        let f = d[0];
        let g = d[1];
        if (f == '7' || f == '8') && (g == '3' || g == '4' || g == '8' || g == '9') {
            Some(900)
        } else {
            None
        }
    } else {
        None
    }
}

impl PhoneDetector {
    /// The kinds of data this detector reports.
    pub fn types(&self) -> (r: Vec<PdType>)
        ensures
            names_of(r@) == seq!["PHONE"@],
    {
        let names: Vec<&str> = vec!["PHONE"];
        let r = kinds(names);
        assert(literal_names(names@) =~= seq!["PHONE"@]);
        r
    }
}

/// Russian numbers by their digits: eleven digits starting with 7 or with 8, then 3, 4, 8 or
/// 9, are a number scored 0.9 (the leading 8 counts as the leading 7 does); ten digits
/// starting with 9 are a mobile number scored 0.6, ten starting with 3, 4 or 8 score 0.8;
/// other lengths are no Russian number.
pub proof fn law_rf_digits(d: Seq<char>)
    ensures
        d.len() == 11 && (d[0] == '7' || d[0] == '8') && (d[1] == '3' || d[1] == '4' || d[1] == '8'
            || d[1] == '9') ==> rf_score(d) == Some(900u32),
        d.len() == 11 && d[0] != '7' && d[0] != '8' ==> rf_score(d) is None,
        d.len() == 11 && d[0] == '8' ==> rf_score(d) == rf_score(d.update(0, '7')),
        d.len() == 10 && d[0] == '9' ==> rf_score(d) == Some(600u32),
        d.len() == 10 && (d[0] == '3' || d[0] == '4' || d[0] == '8') ==> rf_score(d) == Some(800u32),
        d.len() != 10 && d.len() != 11 ==> rf_score(d) is None,
{
    if d.len() == 11 {
        assert(d.update(0, '7')[0] == '7');
        assert(d.update(0, '7')[1] == d[1]);
    }
}

/// A match of the Russian pattern that is not glued to a word and whose digits form a Russian
/// number is reported as a phone over the match, scored by its digits, raised by 0.35 (capped
/// at 1) when a phone word is near; a glued match, or one whose digits form no Russian
/// number, is not reported.
pub proof fn law_rf_hit(doc: Document, m: Seq<Option<(usize, usize)>>)
    ensures
        ({
            let (s, e) = whole(m);
            let d = filter_digits(match_text(doc.norm@, s, e));
            let near = has_any_word_spec(near_text(doc.norm@, s, e), phone_words());
            &&& boundary_spec(encode_utf8(doc.norm@), s as int, e as int) && rf_score(d) is Some ==> (rf_hit(doc, m) matches Some(h)
                && h.pd_type == PdType::PHONE@ && h.start == s && h.end == e
                && h.score == if near {
                    if rf_score(d)->0 + 350 >= 1000 { 1000 } else { rf_score(d)->0 + 350 }
                } else {
                    rf_score(d)->0 as int
                })
            &&& !boundary_spec(encode_utf8(doc.norm@), s as int, e as int) ==> rf_hit(doc, m) is None
            &&& rf_score(d) is None ==> rf_hit(doc, m) is None
        }),
{
}

} // verus!
