//! Detection of payment card data: card numbers (checked by Luhn), security codes, PINs
//! and card holders (after their trigger words).
use vstd::prelude::*;

use crate::config::model::names_of;
use crate::service::detect::{kinds, literal_names};
use vstd::utf8::encode_utf8;

use crate::domain::document::Document;
use crate::domain::entity::Candidate;
use crate::domain::pd_type::PdType;
use crate::infra::pattern::{captures_view, captures_wf, group_ok, regex_captures, regex_valid, whole, Pattern};
use crate::service::detect::context::{boundary_spec, is_boundary};
use crate::service::detect::validators::{luhn_result, LuhnValidator, ValidationResult};
use crate::service::detect::{collect_hits, hits_pushed, make_signals, match_str, match_text, push_hit, signals_of, Hit};
use crate::textops::{digits_of, filter_digits, string_from_chars};

verus! {

pub open spec fn card_source() -> Seq<char> {
    r"\d(?:[ \-]?\d){12,18}"@
}

pub open spec fn cvv_source() -> Seq<char> {
    r"(cvv2?|cvc2?|cvv/cvc|код безопасности|код на обороте|трехзначный код)\D{0,15}(\d{3,4})"@
}

pub open spec fn pin_source() -> Seq<char> {
    r"(пин|pin)(-| )?(код)?\D{0,15}(\d{4,6})"@
}

pub open spec fn holder_source() -> Seq<char> {
    r"(держател[ьяем]{1,2}|имя\s+держателя|имя\s+на\s+карте|на\s+имя|cardholder(?:\s+name)?|card\s+holder|name\s+on\s+card)(?:\s+карт[ыеу])?\s*:?\s*([a-zа-яё]{2,}(?:\s+[a-zа-яё]{2,}){0,2})"@
}

/// The first two digits are those of a known card issuer: 22–27, 34, 35, 37, 40–49,
/// 51–55, 60 or 62.
pub open spec fn known_issuer(d: Seq<char>) -> bool {
    ||| d[0] == '2' && '2' <= d[1] <= '7'
    ||| d[0] == '3' && (d[1] == '4' || d[1] == '5' || d[1] == '7')
    ||| d[0] == '4'
    ||| d[0] == '5' && '1' <= d[1] <= '5'
    ||| d[0] == '6' && (d[1] == '0' || d[1] == '2')
}

/// A card number: not glued to a word, 13 to 19 digits passing the Luhn check; 0.95 for a
/// known issuer, else 0.7.
pub open spec fn card_hit(doc: Document, m: Seq<Option<(usize, usize)>>) -> Option<Hit> {
    let (s, e) = whole(m);
    let d = filter_digits(match_text(doc.norm@, s, e));
    if boundary_spec(encode_utf8(doc.norm@), s as int, e as int) && 13 <= d.len() <= 19
        && luhn_result(d) == ValidationResult::Valid {
        Some(Hit {
            pd_type: PdType::CARD_NUMBER@,
            start: s,
            end: e,
            score: if known_issuer(d) {
                950
            } else {
                700
            },
            signals: signals_of(true, false, true),
        })
    } else {
        None
    }
}

/// The range of group `g` of a match, else an empty range at the match's start.
pub open spec fn group_or_start(m: Seq<Option<(usize, usize)>>, g: int) -> (usize, usize) {
    if g < m.len() && m[g] is Some {
        m[g]->Some_0
    } else {
        (whole(m).0, whole(m).0)
    }
}

/// The value group `g` of every match, with the given type and score 0.9.
pub open spec fn group_hit(m: Seq<Option<(usize, usize)>>, g: int, t: Seq<char>) -> Option<Hit> {
    let (s, e) = group_or_start(m, g);
    Some(Hit { pd_type: t, start: s, end: e, score: 900, signals: signals_of(false, true, false) })
}

/// Detector of card numbers.
pub struct CardNumberDetector {
    pub re: Pattern,
    pub types: Vec<PdType>,
}

impl CardNumberDetector {
    pub fn new() -> (r: Option<CardNumberDetector>)
        ensures
            r is Some == regex_valid(card_source()),
            r matches Some(d) ==> d.re@ == card_source() && d.types@.len() == 1 && d.types@[0]@ == PdType::CARD_NUMBER@,
    {
        match Pattern::compile(r"\d(?:[ \-]?\d){12,18}") {
            Ok(re) => Some(CardNumberDetector { re, types: vec![PdType::new(PdType::CARD_NUMBER)] }),
            Err(_) => None,
        }
    }

    pub fn detect(&self, doc: &Document<'_>, out: &mut Vec<Candidate>)
        requires
            doc.wf(),
        ensures
            hits_pushed(*doc, false, "card_number"@, old(out)@, final(out)@, collect_hits(
                regex_captures(self.re@, doc.norm@),
                |m: Seq<Option<(usize, usize)>>| card_hit(*doc, m),
            )),
    {
        let ms = self.re.captures(doc.norm.as_str());
        detect_cards(doc, &ms, out);
    }
}

/// What follows the search for card numbers, given its matches.
pub fn detect_cards(doc: &Document<'_>, ms: &Vec<Vec<Option<(usize, usize)>>>, out: &mut Vec<Candidate>)
    requires
        doc.wf(),
        captures_wf(captures_view(*ms), encode_utf8(doc.norm@)),
    ensures
        hits_pushed(*doc, false, "card_number"@, old(out)@, final(out)@, collect_hits(
            captures_view(*ms),
            |m: Seq<Option<(usize, usize)>>| card_hit(*doc, m),
        )),
{
    let ghost old_out = out@;
    let ghost f = |m: Seq<Option<(usize, usize)>>| card_hit(*doc, m);
    let ghost b = encode_utf8(doc.norm@);
    let ghost cv = captures_view(*ms);
    let mut i: usize = 0;
    while i < ms.len()
        invariant
            doc.wf(),
            b == encode_utf8(doc.norm@),
            cv == captures_view(*ms),
            captures_wf(cv, b),
            f == (|m: Seq<Option<(usize, usize)>>| card_hit(*doc, m)),
            i <= cv.len(),
            hits_pushed(*doc, false, "card_number"@, old_out, out@, collect_hits(cv.take(i as int), f)),
        decreases ms.len() - i,
    {
        assert(cv[i as int] == ms@[i as int]@);
        assert(cv.take(i + 1).drop_last() =~= cv.take(i as int));
        assert(cv.take(i + 1).last() == cv[i as int]);
        assert(group_ok(b, cv[i as int][0]));
        let ghost found = collect_hits(cv.take(i as int), f);
        let (s, e) = match ms[i][0] {
            Some(x) => x,
            None => (0, 0),
        };
        if is_boundary(doc, s, e) {
            let d = digits_of(match_str(doc, s, e));
            if 13 <= d.len() && d.len() <= 19 {
                let ds = string_from_chars(d.as_slice());
                if LuhnValidator.validate_raw(ds.as_str()) == ValidationResult::Valid {
                    let known = (d[0] == '2' && '2' <= d[1] && d[1] <= '7') || (d[0] == '3' && (d[1] == '4'
                        || d[1] == '5' || d[1] == '7')) || d[0] == '4' || (d[0] == '5' && '1' <= d[1] && d[1]
                        <= '5') || (d[0] == '6' && (d[1] == '0' || d[1] == '2'));
                    let score: u32 = if known {
                        950
                    } else {
                        700
                    };
                    push_hit(doc, out, PdType::CARD_NUMBER, false, "card_number", s, e, score, make_signals(true, false, true), Ghost(old_out), Ghost(found));
                }
            }
        }
        i += 1;
    }
    assert(cv.take(i as int) =~= cv);
}

/// Reports group `g` of every match with the given type and pattern name.
fn detect_groups(
    doc: &Document<'_>,
    ms: &Vec<Vec<Option<(usize, usize)>>>,
    g: usize,
    pd: &str,
    id: &str,
    out: &mut Vec<Candidate>,
)
    requires
        doc.wf(),
        captures_wf(captures_view(*ms), encode_utf8(doc.norm@)),
    ensures
        hits_pushed(*doc, false, id@, old(out)@, final(out)@, collect_hits(
            captures_view(*ms),
            |m: Seq<Option<(usize, usize)>>| group_hit(m, g as int, pd@),
        )),
{
    let ghost old_out = out@;
    let ghost f = |m: Seq<Option<(usize, usize)>>| group_hit(m, g as int, pd@);
    let ghost cv = captures_view(*ms);
    let mut i: usize = 0;
    while i < ms.len()
        invariant
            doc.wf(),
            cv == captures_view(*ms),
            captures_wf(cv, encode_utf8(doc.norm@)),
            f == (|m: Seq<Option<(usize, usize)>>| group_hit(m, g as int, pd@)),
            i <= cv.len(),
            hits_pushed(*doc, false, id@, old_out, out@, collect_hits(cv.take(i as int), f)),
        decreases ms.len() - i,
    {
        assert(cv[i as int] == ms@[i as int]@);
        assert(cv.take(i + 1).drop_last() =~= cv.take(i as int));
        assert(cv.take(i + 1).last() == cv[i as int]);
        let ghost found = collect_hits(cv.take(i as int), f);
        let m = &ms[i];
        let (s0, _) = match m[0] {
            Some(x) => x,
            None => (0, 0),
        };
        let (s, e) = if g < m.len() {
            match m[g] {
                Some(x) => x,
                None => (s0, s0),
            }
        } else {
            (s0, s0)
        };
        push_hit(doc, out, pd, false, id, s, e, 900, make_signals(false, true, false), Ghost(old_out), Ghost(found));
        i += 1;
    }
    assert(cv.take(i as int) =~= cv);
}

/// Detector of card security codes (the digits after a trigger word).
pub struct CvvDetector {
    pub re: Pattern,
    pub types: Vec<PdType>,
}

impl CvvDetector {
    pub fn new() -> (r: Option<CvvDetector>)
        ensures
            r is Some == regex_valid(cvv_source()),
            r matches Some(d) ==> d.re@ == cvv_source() && d.types@.len() == 1 && d.types@[0]@ == PdType::CVV@,
    {
        match Pattern::compile(r"(cvv2?|cvc2?|cvv/cvc|код безопасности|код на обороте|трехзначный код)\D{0,15}(\d{3,4})") {
            Ok(re) => Some(CvvDetector { re, types: vec![PdType::new(PdType::CVV)] }),
            Err(_) => None,
        }
    }

    pub fn detect(&self, doc: &Document<'_>, out: &mut Vec<Candidate>)
        requires
            doc.wf(),
        ensures
            hits_pushed(*doc, false, "cvv"@, old(out)@, final(out)@, collect_hits(
                regex_captures(self.re@, doc.norm@),
                |m: Seq<Option<(usize, usize)>>| group_hit(m, 2, PdType::CVV@),
            )),
    {
        let ms = self.re.captures(doc.norm.as_str());
        detect_groups(doc, &ms, 2, PdType::CVV, "cvv", out);
    }
}

/// Detector of PIN codes (the digits after a trigger word).
pub struct PinDetector {
    pub re: Pattern,
    pub types: Vec<PdType>,
}

impl PinDetector {
    pub fn new() -> (r: Option<PinDetector>)
        ensures
            r is Some == regex_valid(pin_source()),
            r matches Some(d) ==> d.re@ == pin_source() && d.types@.len() == 1 && d.types@[0]@ == PdType::PIN@,
    {
        match Pattern::compile(r"(пин|pin)(-| )?(код)?\D{0,15}(\d{4,6})") {
            Ok(re) => Some(PinDetector { re, types: vec![PdType::new(PdType::PIN)] }),
            Err(_) => None,
        }
    }

    pub fn detect(&self, doc: &Document<'_>, out: &mut Vec<Candidate>)
        requires
            doc.wf(),
        ensures
            hits_pushed(*doc, false, "pin"@, old(out)@, final(out)@, collect_hits(
                regex_captures(self.re@, doc.norm@),
                |m: Seq<Option<(usize, usize)>>| group_hit(m, 4, PdType::PIN@),
            )),
    {
        let ms = self.re.captures(doc.norm.as_str());
        detect_groups(doc, &ms, 4, PdType::PIN, "pin", out);
    }
}

/// Detector of card holders' names (after a trigger phrase).
pub struct CardHolderDetector {
    pub re: Pattern,
    pub types: Vec<PdType>,
}

impl CardHolderDetector {
    pub fn new() -> (r: Option<CardHolderDetector>)
        ensures
            r is Some == regex_valid(holder_source()),
            r matches Some(d) ==> d.re@ == holder_source() && d.types@.len() == 1 && d.types@[0]@ == PdType::CARD_HOLDER@,
    {
        match Pattern::compile(
            r"(держател[ьяем]{1,2}|имя\s+держателя|имя\s+на\s+карте|на\s+имя|cardholder(?:\s+name)?|card\s+holder|name\s+on\s+card)(?:\s+карт[ыеу])?\s*:?\s*([a-zа-яё]{2,}(?:\s+[a-zа-яё]{2,}){0,2})",
        ) {
            Ok(re) => Some(CardHolderDetector { re, types: vec![PdType::new(PdType::CARD_HOLDER)] }),
            Err(_) => None,
        }
    }

    pub fn detect(&self, doc: &Document<'_>, out: &mut Vec<Candidate>)
        requires
            doc.wf(),
        ensures
            hits_pushed(*doc, false, "card_holder"@, old(out)@, final(out)@, collect_hits(
                regex_captures(self.re@, doc.norm@),
                |m: Seq<Option<(usize, usize)>>| group_hit(m, 2, PdType::CARD_HOLDER@),
            )),
    {
        let ms = self.re.captures(doc.norm.as_str());
        detect_groups(doc, &ms, 2, PdType::CARD_HOLDER, "card_holder", out);
    }
}

impl CardNumberDetector {
    /// The kinds of data this detector reports.
    pub fn types(&self) -> (r: Vec<PdType>)
        ensures
            names_of(r@) == seq!["CARD_NUMBER"@],
    {
        let names: Vec<&str> = vec!["CARD_NUMBER"];
        let r = kinds(names);
        assert(literal_names(names@) =~= seq!["CARD_NUMBER"@]);
        r
    }
}

impl CvvDetector {
    /// The kinds of data this detector reports.
    pub fn types(&self) -> (r: Vec<PdType>)
        ensures
            names_of(r@) == seq!["CVV"@],
    {
        let names: Vec<&str> = vec!["CVV"];
        let r = kinds(names);
        assert(literal_names(names@) =~= seq!["CVV"@]);
        r
    }
}

impl PinDetector {
    /// The kinds of data this detector reports.
    pub fn types(&self) -> (r: Vec<PdType>)
        ensures
            names_of(r@) == seq!["PIN"@],
    {
        let names: Vec<&str> = vec!["PIN"];
        let r = kinds(names);
        assert(literal_names(names@) =~= seq!["PIN"@]);
        r
    }
}

impl CardHolderDetector {
    /// The kinds of data this detector reports.
    pub fn types(&self) -> (r: Vec<PdType>)
        ensures
            names_of(r@) == seq!["CARD_HOLDER"@],
    {
        let names: Vec<&str> = vec!["CARD_HOLDER"];
        let r = kinds(names);
        assert(literal_names(names@) =~= seq!["CARD_HOLDER"@]);
        r
    }
}

} // verus!
