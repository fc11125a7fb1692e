//! Detection of dates, numeric (`15.03.1990`) or with the month in words (`15 марта 1990`),
//! classified as a birth date, a passport issue date or a plain date by the words around.
use vstd::prelude::*;

use crate::config::model::names_of;
use crate::service::detect::{kinds, literal_names};
use vstd::utf8::encode_utf8;

use crate::domain::document::Document;
use crate::domain::entity::Candidate;
use crate::domain::pd_type::PdType;
use crate::infra::pattern::{captures_view, captures_wf, group_ok, regex_captures, regex_valid, whole, Pattern};
use crate::service::detect::context::{boundary_spec, is_boundary};
use crate::service::detect::validators::{parse_date, parse_date_spec};
use crate::service::detect::{
    any_prefix_of, collect_hits, has_any_prefix_spec, hits_pushed, lists, make_signals, match_str, match_text,
    near_str, near_text, push_hit, signals_of, Hit,
};
use crate::textops::{all_digits, chars_eq, decimal_value, digit_val, is_ascii_digit, digit_value, str_chars};

verus! {

pub open spec fn numeric_source() -> Seq<char> {
    r"\d{1,4}[./-]\d{1,2}[./-]\d{1,4}"@
}

pub open spec fn text_source() -> Seq<char> {
    r"(\d{1,2})\s+([а-яa-z]+)\s+(\d{4})(\s*г(ода?)?\.?)?"@
}

/// Month names and abbreviations, Russian and English.
pub open spec fn month_words() -> Seq<Seq<char>> {
    seq![
        "января"@, "январь"@, "янв"@, "january"@, "jan"@,
        "февраля"@, "февраль"@, "фев"@, "february"@, "feb"@,
        "марта"@, "март"@, "мар"@, "march"@, "mar"@,
        "апреля"@, "апрель"@, "апр"@, "april"@, "apr"@,
        "мая"@, "май"@, "may"@,
        "июня"@, "июнь"@, "июн"@, "june"@, "jun"@,
        "июля"@, "июль"@, "июл"@, "july"@, "jul"@,
        "августа"@, "август"@, "авг"@, "august"@, "aug"@,
        "сентября"@, "сентябрь"@, "сен"@, "сент"@, "september"@, "sep"@,
        "октября"@, "октябрь"@, "окт"@, "october"@, "oct"@,
        "ноября"@, "ноябрь"@, "ноя"@, "november"@, "nov"@,
        "декабря"@, "декабрь"@, "дек"@, "december"@, "dec"@,
    ]
}

fn month_list() -> (r: Vec<&'static str>)
    ensures
        lists(r@, month_words()),
{
    vec![
        "января", "январь", "янв", "january", "jan",
        "февраля", "февраль", "фев", "february", "feb",
        "марта", "март", "мар", "march", "mar",
        "апреля", "апрель", "апр", "april", "apr",
        "мая", "май", "may",
        "июня", "июнь", "июн", "june", "jun",
        "июля", "июль", "июл", "july", "jul",
        "августа", "август", "авг", "august", "aug",
        "сентября", "сентябрь", "сен", "сент", "september", "sep",
        "октября", "октябрь", "окт", "october", "oct",
        "ноября", "ноябрь", "ноя", "november", "nov",
        "декабря", "декабрь", "дек", "december", "dec",
    ]
}

/// Stems of words about birth.
pub open spec fn birth_stems() -> Seq<Seq<char>> {
    seq!["рожден"@, "родил"@, "рождён"@, "dob"@, "birth"@]
}

/// Stems of words about issuing a document.
pub open spec fn issue_stems() -> Seq<Seq<char>> {
    seq!["выдач"@, "выдан"@, "issue"@]
}

/// A date at the normalized range, classified by the stems near it: a birth date, else an
/// issue date, else a plain date (with the context signal for the first two).
pub open spec fn dated(doc: Document, s: usize, e: usize, score: u32) -> Hit {
    let w = near_text(doc.norm@, s, e);
    let birth = has_any_prefix_spec(w, birth_stems());
    let issue = has_any_prefix_spec(w, issue_stems());
    Hit {
        pd_type: if birth {
            PdType::BIRTH_DATE@
        } else if issue {
            PdType::PASSPORT_ISSUE_DATE@
        } else {
            PdType::DATE@
        },
        start: s,
        end: e,
        score,
        signals: signals_of(false, birth || issue, false),
    }
}

/// A numeric date not glued to a word that parses as a date.
pub open spec fn numeric_hit(doc: Document, m: Seq<Option<(usize, usize)>>) -> Option<Hit> {
    let (s, e) = whole(m);
    if boundary_spec(encode_utf8(doc.norm@), s as int, e as int) && parse_date_spec(match_text(doc.norm@, s, e)) is Some {
        Some(dated(doc, s, e, 950))
    } else {
        None
    }
}

/// The value of a non-empty run of ASCII digits that fits in a `u32`.
pub open spec fn ascii_number(t: Seq<char>) -> Option<int> {
    if t.len() > 0 && all_digits(t) && decimal_value(t) <= u32::MAX {
        Some(decimal_value(t))
    } else {
        None
    }
}

/// The text of group `g` of a match (empty when it did not take part).
pub open spec fn group_of(norm: Seq<char>, m: Seq<Option<(usize, usize)>>, g: int) -> Seq<char> {
    if g < m.len() && m[g] is Some {
        match_text(norm, m[g]->Some_0.0, m[g]->Some_0.1)
    } else {
        Seq::empty()
    }
}

/// A date with the month in words, not glued to a word: a day from 1 to 31, a known month
/// word and a year from 1900 to 2100.
pub open spec fn text_hit(doc: Document, m: Seq<Option<(usize, usize)>>) -> Option<Hit> {
    let (s, e) = whole(m);
    let n = doc.norm@;
    if boundary_spec(encode_utf8(n), s as int, e as int) && (ascii_number(group_of(n, m, 1)) matches Some(d) && 1 <= d
        <= 31) && month_words().contains(group_of(n, m, 2)) && (ascii_number(group_of(n, m, 3)) matches Some(y) && 1900
        <= y <= 2100) {
        Some(dated(doc, s, e, 950))
    } else {
        None
    }
}

/// Detector of dates.
pub struct DateDetector {
    pub re_numeric: Pattern,
    pub re_text: Pattern,
    pub types: Vec<PdType>,
}

impl DateDetector {
    pub fn new() -> (r: Option<DateDetector>)
        ensures
            r is Some == (regex_valid(numeric_source()) && regex_valid(text_source())),
            r matches Some(d) ==> d.re_numeric@ == numeric_source() && d.re_text@ == text_source() && d.types@.len() == 3,
    {
        let re_numeric = match Pattern::compile(r"\d{1,4}[./-]\d{1,2}[./-]\d{1,4}") {
            Ok(p) => p,
            Err(_) => return None,
        };
        let re_text = match Pattern::compile(r"(\d{1,2})\s+([а-яa-z]+)\s+(\d{4})(\s*г(ода?)?\.?)?") {
            Ok(p) => p,
            Err(_) => return None,
        };
        Some(DateDetector {
            re_numeric,
            re_text,
            types: vec![
                PdType::new(PdType::DATE),
                PdType::new(PdType::BIRTH_DATE),
                PdType::new(PdType::PASSPORT_ISSUE_DATE),
            ],
        })
    }

    pub fn detect(&self, doc: &Document<'_>, out: &mut Vec<Candidate>)
        requires
            doc.wf(),
        ensures
            hits_pushed(*doc, false, "date"@, old(out)@, final(out)@, date_hits(
                *doc,
                regex_captures(self.re_numeric@, doc.norm@),
                regex_captures(self.re_text@, doc.norm@),
            )),
    {
        let nms = self.re_numeric.captures(doc.norm.as_str());
        let tms = self.re_text.captures(doc.norm.as_str());
        detect_dates(doc, &nms, &tms, out);
    }
}

/// All date hits: numeric dates first, then dates with the month in words.
pub open spec fn date_hits(doc: Document, nms: Seq<Seq<Option<(usize, usize)>>>, tms: Seq<Seq<Option<(usize, usize)>>>) -> Seq<Hit> {
    collect_hits(nms, |m: Seq<Option<(usize, usize)>>| numeric_hit(doc, m)) + collect_hits(
        tms,
        |m: Seq<Option<(usize, usize)>>| text_hit(doc, m),
    )
}

/// Pushes a classified date.
fn push_date(doc: &Document<'_>, out: &mut Vec<Candidate>, s: usize, e: usize, Ghost(old_out): Ghost<Seq<Candidate>>, Ghost(hs): Ghost<Seq<Hit>>)
    requires
        doc.wf(),
        s <= e,
        hits_pushed(*doc, false, "date"@, old_out, old(out)@, hs),
    ensures
        hits_pushed(*doc, false, "date"@, old_out, final(out)@, hs.push(dated(*doc, s, e, 950))),
{
    let w = near_str(doc, s, e);
    let bw: Vec<&str> = vec!["рожден", "родил", "рождён", "dob", "birth"];
    let iw: Vec<&str> = vec!["выдач", "выдан", "issue"];
    let birth = any_prefix_of(w, &bw, Ghost(birth_stems()));
    let issue = any_prefix_of(w, &iw, Ghost(issue_stems()));
    let pd = if birth {
        PdType::BIRTH_DATE
    } else if issue {
        PdType::PASSPORT_ISSUE_DATE
    } else {
        PdType::DATE
    };
    push_hit(doc, out, pd, false, "date", s, e, 950, make_signals(false, birth || issue, false), Ghost(old_out), Ghost(hs));
}

/// The value of a run of ASCII digits, when non-empty and within a `u32`.
fn ascii_number_of(t: &str) -> (r: Option<u32>)
    ensures
        r is Some == ascii_number(t@) is Some,
        r matches Some(x) ==> ascii_number(t@) == Some(x as int),
{
    let cs = str_chars(t);
    if cs.len() == 0 {
        return None;
    }
    let mut v: u64 = 0;
    let mut i: usize = 0;
    while i < cs.len()
        invariant
            cs@ == t@,
            i <= cs@.len(),
            all_digits(cs@.take(i as int)),
            v == decimal_value(cs@.take(i as int)),
            v <= u32::MAX,
        decreases cs.len() - i,
    {
        assert(cs@.take(i + 1).drop_last() =~= cs@.take(i as int));
        if !is_ascii_digit(cs[i]) {
            assert(!all_digits(cs@)) by {
                assert(!crate::textops::is_digit(cs@[i as int]));
            }
            return None;
        }
        let nv = v * 10 + digit_value(cs[i]) as u64;
        if nv > 0xFFFF_FFFF {
            proof {
                assert(cs@.take(i + 1).drop_last() =~= cs@.take(i as int));
                assert(all_digits(cs@.take(i + 1)));
                if all_digits(cs@) {
                    lemma_decimal_prefix(cs@, i + 1);
                }
            }
            return None;
        }
        v = nv;
        i += 1;
    }
    assert(cs@.take(i as int) =~= cs@);
    Some(v as u32)
}

/// The value of a digit string is at least that of any of its prefixes.
proof fn lemma_decimal_prefix(s: Seq<char>, k: int)
    requires
        0 <= k <= s.len(),
        all_digits(s),
    ensures
        decimal_value(s) >= decimal_value(s.take(k)),
    decreases s.len(),
{
    if k < s.len() {
        assert(s.drop_last().take(k) =~= s.take(k));
        lemma_decimal_prefix(s.drop_last(), k);
        assert(all_digits(s.drop_last()));
        lemma_decimal_nonneg(s.drop_last());
    } else {
        assert(s.take(k) =~= s);
    }
}

proof fn lemma_decimal_nonneg(s: Seq<char>)
    requires
        all_digits(s),
    ensures
        decimal_value(s) >= 0,
    decreases s.len(),
{
    if s.len() > 0 {
        assert(all_digits(s.drop_last()));
        lemma_decimal_nonneg(s.drop_last());
    }
}

/// What follows the searches, given the matches of the numeric and the worded patterns.
pub fn detect_dates(
    doc: &Document<'_>,
    nms: &Vec<Vec<Option<(usize, usize)>>>,
    tms: &Vec<Vec<Option<(usize, usize)>>>,
    out: &mut Vec<Candidate>,
)
    requires
        doc.wf(),
        captures_wf(captures_view(*nms), encode_utf8(doc.norm@)),
        captures_wf(captures_view(*tms), encode_utf8(doc.norm@)),
    ensures
        hits_pushed(*doc, false, "date"@, old(out)@, final(out)@, date_hits(*doc, captures_view(*nms), captures_view(*tms))),
{
    let ghost old_out = out@;
    let ghost fnum = |m: Seq<Option<(usize, usize)>>| numeric_hit(*doc, m);
    let ghost ftxt = |m: Seq<Option<(usize, usize)>>| text_hit(*doc, m);
    let ghost b = encode_utf8(doc.norm@);
    let ghost cv = captures_view(*nms);
    let mut i: usize = 0;
    while i < nms.len()
        invariant
            doc.wf(),
            b == encode_utf8(doc.norm@),
            cv == captures_view(*nms),
            captures_wf(cv, b),
            fnum == (|m: Seq<Option<(usize, usize)>>| numeric_hit(*doc, m)),
            i <= cv.len(),
            hits_pushed(*doc, false, "date"@, old_out, out@, collect_hits(cv.take(i as int), fnum)),
        decreases nms.len() - i,
    {
        assert(cv[i as int] == nms@[i as int]@);
        assert(cv.take(i + 1).drop_last() =~= cv.take(i as int));
        assert(cv.take(i + 1).last() == cv[i as int]);
        assert(group_ok(b, cv[i as int][0]));
        let ghost found = collect_hits(cv.take(i as int), fnum);
        let (s, e) = match nms[i][0] {
            Some(x) => x,
            None => (0, 0),
        };
        if is_boundary(doc, s, e) && parse_date(match_str(doc, s, e)).is_some() {
            push_date(doc, out, s, e, Ghost(old_out), Ghost(found));
        }
        i += 1;
    }
    assert(cv.take(i as int) =~= cv);
    let ghost base = collect_hits(cv, fnum);
    let ghost cw = captures_view(*tms);
    let months = month_list();
    let mut j: usize = 0;
    while j < tms.len()
        invariant
            doc.wf(),
            b == encode_utf8(doc.norm@),
            cw == captures_view(*tms),
            captures_wf(cw, b),
            lists(months@, month_words()),
            ftxt == (|m: Seq<Option<(usize, usize)>>| text_hit(*doc, m)),
            j <= cw.len(),
            hits_pushed(*doc, false, "date"@, old_out, out@, base + collect_hits(cw.take(j as int), ftxt)),
        decreases tms.len() - j,
    {
        assert(cw[j as int] == tms@[j as int]@);
        assert(cw.take(j + 1).drop_last() =~= cw.take(j as int));
        assert(cw.take(j + 1).last() == cw[j as int]);
        assert(group_ok(b, cw[j as int][0]));
        let ghost found = base + collect_hits(cw.take(j as int), ftxt);
        let m = &tms[j];
        assert forall|k: int| 0 <= k < m@.len() implies group_ok(b, #[trigger] m@[k]) by {
            assert(group_ok(b, cw[j as int][k]));
        }
        let (s, e) = match m[0] {
            Some(x) => x,
            None => (0, 0),
        };
        if is_boundary(doc, s, e) {
            let t1 = group_chars(doc, m, 1);
            let t2 = group_chars(doc, m, 2);
            let t3 = group_chars(doc, m, 3);
            let day = ascii_number_of(t1);
            let year = ascii_number_of(t3);
            let mut month_ok = false;
            let w2 = str_chars(t2);
            let mut k: usize = 0;
            while k < months.len()
                invariant
                    lists(months@, month_words()),
                    w2@ == t2@,
                    k <= months@.len(),
                    month_ok == exists|x: int| 0 <= x < k && month_words()[x] == t2@,
                decreases months.len() - k,
            {
                let mw = str_chars(months[k]);
                if chars_eq(mw.as_slice(), w2.as_slice()) {
                    month_ok = true;
                }
                k += 1;
            }
            match (day, year) {
                (Some(d), Some(y)) => {
                    if month_ok && 1 <= d && d <= 31 && 1900 <= y && y <= 2100 {
                        push_date(doc, out, s, e, Ghost(old_out), Ghost(found));
                        assert(m@ == cw[j as int]);
                        assert(whole(cw[j as int]) == (s, e));
                        assert(ascii_number(group_of(doc.norm@, m@, 1)) == Some(d as int));
                        assert(ascii_number(group_of(doc.norm@, m@, 3)) == Some(y as int));
                        assert(month_words().contains(group_of(doc.norm@, m@, 2)));
                        assert(boundary_spec(b, s as int, e as int));
                        assert(text_hit(*doc, cw[j as int]) == Some(dated(*doc, s, e, 950)));
                        assert(found.push(dated(*doc, s, e, 950)) =~= base + collect_hits(cw.take(j + 1), ftxt));
                    }
                },
                _ => {},
            }
        }
        j += 1;
    }
    assert(cw.take(j as int) =~= cw);
}

/// The text of group `g` of a match (empty when it did not take part).
fn group_chars<'a>(doc: &'a Document<'_>, m: &Vec<Option<(usize, usize)>>, g: usize) -> (r: &'a str)
    requires
        forall|k: int| 0 <= k < m@.len() ==> group_ok(encode_utf8(doc.norm@), #[trigger] m@[k]),
    ensures
        r@ == group_of(doc.norm@, m@, g as int),
{
    proof {
        reveal_strlit("");
    }
    if g < m.len() {
        match m[g] {
            Some((s, e)) => {
                assert(group_ok(encode_utf8(doc.norm@), m@[g as int]));
                match_str(doc, s, e)
            },
            None => "",
        }
    } else {
        ""
    }
}

impl DateDetector {
    /// The kinds of data this detector reports.
    pub fn types(&self) -> (r: Vec<PdType>)
        ensures
            names_of(r@) == seq!["DATE"@, "BIRTH_DATE"@, "PASSPORT_ISSUE_DATE"@],
    {
        let names: Vec<&str> = vec!["DATE", "BIRTH_DATE", "PASSPORT_ISSUE_DATE"];
        let r = kinds(names);
        assert(literal_names(names@) =~= seq!["DATE"@, "BIRTH_DATE"@, "PASSPORT_ISSUE_DATE"@]);
        r
    }
}

} // verus!
