//! Detection of postal addresses: components (index, region, city, street, house, flat)
//! are found by patterns, sorted by position, glued into chains when only commas,
//! semicolons and spaces separate them, and chains with a street and a house (or a city)
//! are reported as addresses.
use vstd::prelude::*;

use crate::config::model::names_of;
use crate::service::detect::{kinds, literal_names};
use vstd::utf8::{
    decode_utf8, encode_utf8, encode_utf8_decode_utf8, encode_utf8_valid_utf8, is_char_boundary,
    is_char_boundary_iff_not_is_continuation_byte, is_char_boundary_start_end_of_seq,
};

use crate::domain::document::{Document, Span};
use crate::domain::entity::{Candidate, DetectorSource, Signal, SignalFlags};
use crate::domain::pd_type::PdType;
use crate::infra::pattern::{captures_view, captures_wf, group_ok, regex_captures, regex_valid, whole, Pattern};
use crate::service::detect::context::{boundary_spec, is_boundary, window, window_bounds};
use crate::service::pipeline::{orig_span, span_ok, span_text};
use crate::textops::{
    byte_len, is_whitespace, seq_contains_seq, str_byte_len, str_chars, str_contains, str_contains_any,
    whitespace,
};

verus! {

/// The component an address part stands for.
#[derive(Clone, Copy, Debug, PartialEq, Eq, Structural)]
pub enum AddressPart {
    Index,
    Region,
    City,
    Street,
    House,
    Flat,
}

/// The type name of a part.
pub open spec fn part_name(p: AddressPart) -> Seq<char> {
    match p {
        AddressPart::Index => PdType::ADDR_INDEX@,
        AddressPart::Region => PdType::ADDR_REGION@,
        AddressPart::City => PdType::ADDR_CITY@,
        AddressPart::Street => PdType::ADDR_STREET@,
        AddressPart::House => PdType::ADDR_HOUSE@,
        AddressPart::Flat => PdType::ADDR_FLAT@,
    }
}

fn part_type(p: AddressPart) -> (r: PdType)
    ensures
        r@ == part_name(p),
{
    match p {
        AddressPart::Index => PdType::new(PdType::ADDR_INDEX),
        AddressPart::Region => PdType::new(PdType::ADDR_REGION),
        AddressPart::City => PdType::new(PdType::ADDR_CITY),
        AddressPart::Street => PdType::new(PdType::ADDR_STREET),
        AddressPart::House => PdType::new(PdType::ADDR_HOUSE),
        AddressPart::Flat => PdType::new(PdType::ADDR_FLAT),
    }
}

/// A found component: its part, its span in the original, its score (thousandths) and
/// whether a context word was seen.
#[derive(Clone, Copy)]
pub struct Comp {
    pub part: AddressPart,
    pub span: Span,
    pub score: u32,
    pub context: bool,
}

pub open spec fn index_source() -> Seq<char> {
    r"\d{6}"@
}

pub open spec fn region_source() -> Seq<char> {
    r"(\w+\s+)?(обл(асть|\.)?|край|респ(ублика|\.)?|ао|автономный округ)|республика \w+"@
}

pub open spec fn city_source() -> Seq<char> {
    r"(г\.|город|пгт|пос\.|поселок|с\.|село|дер\.|деревня)\s*[\w-]+(\s[\w-]+)?"@
}

pub open spec fn street_source() -> Seq<char> {
    r"(ул\.?|улица|пр-т|проспект|пр\.|пер\.?|переулок|ш\.|шоссе|б-р|бульвар|наб\.|набережная|пл\.|площадь|проезд|тупик|мкр\.?|микрорайон)\s*[\w\-. ]{1,40}"@
}

pub open spec fn house_source() -> Seq<char> {
    r"(д\.|дом)\s*\d+[а-я]?(\/\d+)?|(корп\.?|корпус|к\.)\s*\d+|(стр\.?|строение)\s*\d+"@
}

pub open spec fn flat_source() -> Seq<char> {
    r"(кв\.?|квартира|оф\.?|офис|комн\.?)\s*\d+"@
}

/// Words anywhere in the text that mark a chain as a residence address.
pub open spec fn residence_words() -> Seq<Seq<char>> {
    seq!["проживает"@, "зарегистрирован"@, "адрес регистрации"@, "адрес проживания"@, "прописан"@]
}

/// An index: six digits, the first one from 1 to 6, with the word `индекс` within 60 bytes
/// before or 20 after.
pub open spec fn index_ok(norm: Seq<char>, s: usize, e: usize) -> bool {
    let b = encode_utf8(norm);
    let lo = if s >= 60 {
        s - 60
    } else {
        0
    };
    let wb = window_bounds(norm, lo, e + 20);
    &&& boundary_spec(b, s as int, e as int)
    &&& s < b.len()
    &&& 0x31 <= b[s as int] <= 0x36
    &&& seq_contains_seq(decode_utf8(b.subrange(wb.0, wb.1)), "индекс"@)
}

/// Index components from the matches of the index pattern.
pub open spec fn index_parts(doc: Document, ms: Seq<Seq<Option<(usize, usize)>>>) -> Seq<Comp>
    decreases ms.len(),
{
    if ms.len() == 0 {
        Seq::empty()
    } else {
        let m = whole(ms.last());
        let rest = index_parts(doc, ms.drop_last());
        if index_ok(doc.norm@, m.0, m.1) {
            rest.push(Comp { part: AddressPart::Index, span: orig_span(doc, m.0, m.1), score: 800, context: true })
        } else {
            rest
        }
    }
}

/// Components of one part from the matches of its pattern: those not glued to a word.
pub open spec fn plain_parts(doc: Document, ms: Seq<Seq<Option<(usize, usize)>>>, p: AddressPart) -> Seq<Comp>
    decreases ms.len(),
{
    if ms.len() == 0 {
        Seq::empty()
    } else {
        let m = whole(ms.last());
        let rest = plain_parts(doc, ms.drop_last(), p);
        if boundary_spec(encode_utf8(doc.norm@), m.0 as int, m.1 as int) {
            rest.push(Comp { part: p, span: orig_span(doc, m.0, m.1), score: 700, context: false })
        } else {
            rest
        }
    }
}

/// First position from `from` on of a comma or semicolon.
pub open spec fn find_sep(b: Seq<u8>, from: int) -> Option<int>
    decreases b.len() - from,
{
    if from < 0 || from >= b.len() {
        None
    } else if b[from] == 0x2C || b[from] == 0x3B {
        Some(from)
    } else {
        find_sep(b, from + 1)
    }
}

/// First position from `from` on where `needle` occurs.
pub open spec fn find_bytes(b: Seq<u8>, from: int, needle: Seq<u8>) -> Option<int>
    decreases b.len() - from,
{
    if from < 0 || from + needle.len() > b.len() {
        None
    } else if needle.len() == 0 || b.subrange(from, from + needle.len()) == needle {
        Some(from)
    } else {
        find_bytes(b, from + 1, needle)
    }
}

pub proof fn lemma_find_bytes(b: Seq<u8>, from: int, needle: Seq<u8>)
    ensures
        find_bytes(b, from, needle) matches Some(p) ==> from <= p && p + needle.len() <= b.len(),
    decreases b.len() - from,
{
    if from < 0 || from + needle.len() > b.len() {
    } else if needle.len() == 0 || b.subrange(from, from + needle.len()) == needle {
    } else {
        lemma_find_bytes(b, from + 1, needle);
    }
}

/// Where a street name stops: at the first comma or semicolon after the match, else before
/// ` д.`, else before ` дом` (both written as their UTF-8 bytes), else at the end of the
/// match.
pub open spec fn street_stop(b: Seq<u8>, e: int) -> int {
    match find_sep(b, e) {
        Some(p) => p,
        None => match find_bytes(b, e, seq![0x20u8, 0xD0, 0xB4, 0x2E]) {
            Some(p) => p,
            None => match find_bytes(b, e, seq![0x20u8, 0xD0, 0xB4, 0xD0, 0xBE, 0xD0, 0xBC]) {
                Some(p) => p,
                None => e,
            },
        },
    }
}

/// `end` moved back over spaces, not past `s`.
pub open spec fn trim_spaces(b: Seq<u8>, s: int, end: int) -> int
    decreases end - s,
{
    if end > s && 0 < end <= b.len() && b[end - 1] == 0x20 {
        trim_spaces(b, s, end - 1)
    } else {
        end
    }
}

/// Street components from the matches of the street pattern.
pub open spec fn street_parts(doc: Document, ms: Seq<Seq<Option<(usize, usize)>>>) -> Seq<Comp>
    decreases ms.len(),
{
    if ms.len() == 0 {
        Seq::empty()
    } else {
        let b = encode_utf8(doc.norm@);
        let m = whole(ms.last());
        let rest = street_parts(doc, ms.drop_last());
        let end = trim_spaces(b, m.0 as int, street_stop(b, m.1 as int));
        if boundary_spec(b, m.0 as int, m.1 as int) && end > m.0 {
            rest.push(Comp { part: AddressPart::Street, span: orig_span(doc, m.0, end as usize), score: 700, context: false })
        } else {
            rest
        }
    }
}

/// All components, in the order the patterns are tried.
pub open spec fn address_comps(
    doc: Document,
    ims: Seq<Seq<Option<(usize, usize)>>>,
    rms: Seq<Seq<Option<(usize, usize)>>>,
    cms: Seq<Seq<Option<(usize, usize)>>>,
    sms: Seq<Seq<Option<(usize, usize)>>>,
    hms: Seq<Seq<Option<(usize, usize)>>>,
    fms: Seq<Seq<Option<(usize, usize)>>>,
) -> Seq<Comp> {
    index_parts(doc, ims) + plain_parts(doc, rms, AddressPart::Region) + plain_parts(doc, cms, AddressPart::City)
        + street_parts(doc, sms) + plain_parts(doc, hms, AddressPart::House) + plain_parts(doc, fms, AddressPart::Flat)
}

/// Stable insertion by start: after every element that starts no later.
pub open spec fn ins(s: Seq<Comp>, x: Comp) -> Seq<Comp>
    decreases s.len(),
{
    if s.len() == 0 || s.last().span.start <= x.span.start {
        s.push(x)
    } else {
        ins(s.drop_last(), x).push(s.last())
    }
}

/// Stable sort by start.
pub open spec fn sort_by_start(s: Seq<Comp>) -> Seq<Comp>
    decreases s.len(),
{
    if s.len() == 0 {
        s
    } else {
        ins(sort_by_start(s.drop_last()), s.last())
    }
}

/// Only commas, semicolons and whitespace lie in the original between the two spans, at
/// most three bytes, and `b` does not start before `a` ends.
pub open spec fn joins(doc: Document, a: Comp, b: Comp) -> bool {
    let g = span_text(encode_utf8(doc.original@), Span { start: a.span.end, end: b.span.start });
    &&& b.span.start >= a.span.end
    &&& b.span.start - a.span.end <= 3
    &&& forall|k: int| 0 <= k < g.len() ==> #[trigger] g[k] == ',' || g[k] == ';' || whitespace(g[k])
}

/// End of the chain that starts at `i`.
pub open spec fn chain_end(doc: Document, s: Seq<Comp>, i: int) -> int
    decreases s.len() - i,
{
    if 0 <= i && i + 1 < s.len() && joins(doc, s[i], s[i + 1]) {
        chain_end(doc, s, i + 1)
    } else {
        i + 1
    }
}

pub proof fn lemma_chain_end(doc: Document, s: Seq<Comp>, i: int)
    requires
        0 <= i < s.len(),
    ensures
        i < chain_end(doc, s, i) <= s.len(),
    decreases s.len() - i,
{
    if i + 1 < s.len() && joins(doc, s[i], s[i + 1]) {
        lemma_chain_end(doc, s, i + 1);
    }
}

pub open spec fn has_part(c: Seq<Comp>, p: AddressPart) -> bool {
    exists|k: int| 0 <= k < c.len() && (#[trigger] c[k]).part == p
}

/// Score of a chain as an address (thousandths), or none: three or more components with a
/// street and a house give 0.95; two with a street and a city or house give 0.8.
pub open spec fn chain_score(c: Seq<Comp>) -> Option<u32> {
    if c.len() >= 3 && has_part(c, AddressPart::Street) && has_part(c, AddressPart::House) {
        Some(950)
    } else if c.len() == 2 && has_part(c, AddressPart::Street) && (has_part(c, AddressPart::City)
        || has_part(c, AddressPart::House)) {
        Some(800)
    } else {
        None
    }
}

/// Score raised by 0.2 (capped at 1) when the text speaks of residence.
pub open spec fn with_residence(s: u32, residence: bool) -> u32 {
    if residence {
        if s + 200 >= 1000 {
            1000
        } else {
            (s + 200) as u32
        }
    } else {
        s
    }
}

/// The addresses of the chains from position `i` of the sorted components: first and last
/// index of the chain and score.
pub open spec fn addresses_from(doc: Document, s: Seq<Comp>, i: int, residence: bool) -> Seq<(int, int, u32)>
    decreases s.len() - i,
{
    if i < 0 || i >= s.len() {
        Seq::empty()
    } else {
        let e = chain_end(doc, s, i);
        proof {
            lemma_chain_end(doc, s, i);
        }
        let rest = if e > i {
            addresses_from(doc, s, e, residence)
        } else {
            Seq::empty()
        };
        match chain_score(s.subrange(i, e)) {
            Some(sc) => seq![(i, e, with_residence(sc, residence))] + rest,
            None => rest,
        }
    }
}

/// The candidate reported for a component.
pub open spec fn comp_candidate(c: Candidate, p: Comp) -> bool {
    &&& c.pd_type@ == part_name(p.part)
    &&& c.span == p.span
    &&& c.score == p.score
    &&& c.source matches DetectorSource::Regex { id } && id@ == "address"@
    &&& c.components@.len() == 0
    &&& c.signals == SignalFlags { context_pos: p.context, ..SignalFlags::empty_spec() }
}

/// The candidate reported for the chain `s[i..e)` with score `sc`.
pub open spec fn address_candidate(c: Candidate, s: Seq<Comp>, h: (int, int, u32)) -> bool {
    &&& c.pd_type@ == PdType::ADDRESS@
    &&& c.span == Span { start: s[h.0].span.start, end: s[h.1 - 1].span.end }
    &&& c.score == h.2
    &&& c.source matches DetectorSource::Regex { id } && id@ == "address"@
    &&& c.components@.len() == h.1 - h.0
    &&& forall|k: int| 0 <= k < h.1 - h.0 ==> comp_candidate(#[trigger] c.components@[k], s[h.0 + k])
    &&& c.signals == SignalFlags::empty_spec()
}

/// `out` is `old`, then one candidate per sorted component, then one per address.
pub open spec fn address_output(old: Seq<Candidate>, out: Seq<Candidate>, s: Seq<Comp>, hs: Seq<(int, int, u32)>) -> bool {
    &&& out.len() == old.len() + s.len() + hs.len()
    &&& forall|k: int| 0 <= k < old.len() ==> #[trigger] out[k] == old[k]
    &&& forall|k: int| 0 <= k < s.len() ==> comp_candidate(#[trigger] out[old.len() + k], s[k])
    &&& forall|k: int| 0 <= k < hs.len() ==> address_candidate(#[trigger] out[old.len() + s.len() + k], s, hs[k])
}

/// The text speaks of residence.
pub open spec fn residence_text(norm: Seq<char>) -> bool {
    exists|k: int| 0 <= k < residence_words().len() && seq_contains_seq(norm, #[trigger] residence_words()[k])
}

/// Detector of addresses, with its six compiled patterns.
pub struct AddressDetector {
    pub re_index: Pattern,
    pub re_region: Pattern,
    pub re_city: Pattern,
    pub re_street: Pattern,
    pub re_house: Pattern,
    pub re_flat: Pattern,
    pub types: Vec<PdType>,
}

impl AddressDetector {
    /// The patterns have the sources above.
    pub open spec fn wf(&self) -> bool {
        &&& self.re_index@ == index_source()
        &&& self.re_region@ == region_source()
        &&& self.re_city@ == city_source()
        &&& self.re_street@ == street_source()
        &&& self.re_house@ == house_source()
        &&& self.re_flat@ == flat_source()
    }

    /// Compiles the six patterns; `None` if the regex crate refuses one.
    pub fn new() -> (r: Option<AddressDetector>)
        ensures
            r is Some == (regex_valid(index_source()) && regex_valid(region_source()) && regex_valid(city_source())
                && regex_valid(street_source()) && regex_valid(house_source()) && regex_valid(flat_source())),
            r matches Some(d) ==> d.wf() && d.types@.len() == 7,
    {
        let re_index = match Pattern::compile(r"\d{6}") {
            Ok(p) => p,
            Err(_) => return None,
        };
        let re_region = match Pattern::compile(r"(\w+\s+)?(обл(асть|\.)?|край|респ(ублика|\.)?|ао|автономный округ)|республика \w+") {
            Ok(p) => p,
            Err(_) => return None,
        };
        let re_city = match Pattern::compile(r"(г\.|город|пгт|пос\.|поселок|с\.|село|дер\.|деревня)\s*[\w-]+(\s[\w-]+)?") {
            Ok(p) => p,
            Err(_) => return None,
        };
        let re_street = match Pattern::compile(r"(ул\.?|улица|пр-т|проспект|пр\.|пер\.?|переулок|ш\.|шоссе|б-р|бульвар|наб\.|набережная|пл\.|площадь|проезд|тупик|мкр\.?|микрорайон)\s*[\w\-. ]{1,40}") {
            Ok(p) => p,
            Err(_) => return None,
        };
        let re_house = match Pattern::compile(r"(д\.|дом)\s*\d+[а-я]?(\/\d+)?|(корп\.?|корпус|к\.)\s*\d+|(стр\.?|строение)\s*\d+") {
            Ok(p) => p,
            Err(_) => return None,
        };
        let re_flat = match Pattern::compile(r"(кв\.?|квартира|оф\.?|офис|комн\.?)\s*\d+") {
            Ok(p) => p,
            Err(_) => return None,
        };
        let types = vec![
            PdType::new(PdType::ADDRESS),
            PdType::new(PdType::ADDR_INDEX),
            PdType::new(PdType::ADDR_REGION),
            PdType::new(PdType::ADDR_CITY),
            PdType::new(PdType::ADDR_STREET),
            PdType::new(PdType::ADDR_HOUSE),
            PdType::new(PdType::ADDR_FLAT),
        ];
        Some(AddressDetector { re_index, re_region, re_city, re_street, re_house, re_flat, types })
    }

    /// Reports the components and addresses found in the normalized text.
    pub fn detect(&self, doc: &Document<'_>, out: &mut Vec<Candidate>)
        requires
            doc.wf(),
        ensures
            ({
                let s = sort_by_start(address_comps(
                    *doc,
                    regex_captures(self.re_index@, doc.norm@),
                    regex_captures(self.re_region@, doc.norm@),
                    regex_captures(self.re_city@, doc.norm@),
                    regex_captures(self.re_street@, doc.norm@),
                    regex_captures(self.re_house@, doc.norm@),
                    regex_captures(self.re_flat@, doc.norm@),
                ));
                address_output(old(out)@, final(out)@, s, addresses_from(*doc, s, 0, residence_text(doc.norm@)))
            }),
    {
        let t = doc.norm.as_str();
        let ims = self.re_index.captures(t);
        let rms = self.re_region.captures(t);
        let cms = self.re_city.captures(t);
        let sms = self.re_street.captures(t);
        let hms = self.re_house.captures(t);
        let fms = self.re_flat.captures(t);
        detect_in(doc, &ims, &rms, &cms, &sms, &hms, &fms, out);
    }
}

/// The detection that follows the pattern searches, given the matches of the index,
/// region, city, street, house and flat patterns on the normalized text.
pub fn detect_in(
    doc: &Document<'_>,
    ims: &Vec<Vec<Option<(usize, usize)>>>,
    rms: &Vec<Vec<Option<(usize, usize)>>>,
    cms: &Vec<Vec<Option<(usize, usize)>>>,
    sms: &Vec<Vec<Option<(usize, usize)>>>,
    hms: &Vec<Vec<Option<(usize, usize)>>>,
    fms: &Vec<Vec<Option<(usize, usize)>>>,
    out: &mut Vec<Candidate>,
)
    requires
        doc.wf(),
        captures_wf(captures_view(*ims), encode_utf8(doc.norm@)),
        captures_wf(captures_view(*rms), encode_utf8(doc.norm@)),
        captures_wf(captures_view(*cms), encode_utf8(doc.norm@)),
        captures_wf(captures_view(*sms), encode_utf8(doc.norm@)),
        captures_wf(captures_view(*hms), encode_utf8(doc.norm@)),
        captures_wf(captures_view(*fms), encode_utf8(doc.norm@)),
    ensures
        ({
            let s = sort_by_start(address_comps(
                *doc,
                captures_view(*ims),
                captures_view(*rms),
                captures_view(*cms),
                captures_view(*sms),
                captures_view(*hms),
                captures_view(*fms),
            ));
            address_output(old(out)@, final(out)@, s, addresses_from(*doc, s, 0, residence_text(doc.norm@)))
        }),
{
    let _l = str_byte_len(doc.norm.as_str());
    let mut comps: Vec<Comp> = Vec::new();
    collect_index(doc, ims, &mut comps);
    collect_plain(doc, rms, AddressPart::Region, &mut comps);
    collect_plain(doc, cms, AddressPart::City, &mut comps);
    collect_street(doc, sms, &mut comps);
    collect_plain(doc, hms, AddressPart::House, &mut comps);
    collect_plain(doc, fms, AddressPart::Flat, &mut comps);
    assert(comps@ =~= address_comps(
        *doc,
        captures_view(*ims),
        captures_view(*rms),
        captures_view(*cms),
        captures_view(*sms),
        captures_view(*hms),
        captures_view(*fms),
    ));
    let sorted = sort_comps(&comps);
    proof {
        lemma_sort_ok(*doc, comps@);
    }
    let residence = {
        let words: Vec<&str> = vec!["проживает", "зарегистрирован", "адрес регистрации", "адрес проживания", "прописан"];
        let r = str_contains_any(doc.norm.as_str(), words.as_slice());
        proof {
            if r {
                let k = choose|k: int| 0 <= k < words@.len() && seq_contains_seq(doc.norm@, #[trigger] words@[k]@);
                assert(seq_contains_seq(doc.norm@, residence_words()[k]));
            } else {
                assert forall|k: int| 0 <= k < residence_words().len() implies !seq_contains_seq(doc.norm@, #[trigger] residence_words()[k]) by {
                    assert(words@[k]@ == residence_words()[k]);
                }
            }
        }
        r
    };
    emit(doc, &sorted, residence, out);
}

/// Every component's span lies in the original on character boundaries.
pub open spec fn comps_ok(doc: Document, s: Seq<Comp>) -> bool {
    forall|k: int| 0 <= k < s.len() ==> span_ok((#[trigger] s[k]).span, encode_utf8(doc.original@))
}

/// The original span of a normalized range that lies on character boundaries.
fn to_span(doc: &Document<'_>, s: usize, e: usize) -> (r: Span)
    requires
        doc.wf(),
        s <= e <= byte_len(doc.norm@),
        is_char_boundary(encode_utf8(doc.norm@), s as int),
        is_char_boundary(encode_utf8(doc.norm@), e as int),
    ensures
        r == orig_span(*doc, s, e),
        span_ok(r, encode_utf8(doc.original@)),
{
    doc.to_original(s, e)
}

fn collect_index(doc: &Document<'_>, ms: &Vec<Vec<Option<(usize, usize)>>>, comps: &mut Vec<Comp>)
    requires
        doc.wf(),
        captures_wf(captures_view(*ms), encode_utf8(doc.norm@)),
        old(comps)@.len() == 0,
    ensures
        final(comps)@ == index_parts(*doc, captures_view(*ms)),
        comps_ok(*doc, final(comps)@),
{
    let _l = str_byte_len(doc.norm.as_str());
    let bytes = doc.norm.as_str().as_bytes();
    let ghost cv = captures_view(*ms);
    let mut i: usize = 0;
    while i < ms.len()
        invariant
            doc.wf(),
            cv == captures_view(*ms),
            captures_wf(cv, encode_utf8(doc.norm@)),
            bytes@ == encode_utf8(doc.norm@),
            byte_len(doc.norm@) <= usize::MAX,
            i <= ms@.len(),
            comps@ == index_parts(*doc, cv.take(i as int)),
            comps_ok(*doc, comps@),
        decreases ms.len() - i,
    {
        assert(cv[i as int] == ms@[i as int]@);
        assert(cv.take(i + 1).drop_last() =~= cv.take(i as int));
        let m = &ms[i];
        let (s, e) = match m[0] {
            Some(x) => x,
            None => (0, 0),
        };
        assert(group_ok(encode_utf8(doc.norm@), cv[i as int][0]));
        if is_boundary(doc, s, e) && s < bytes.len() && 0x31 <= bytes[s] && bytes[s] <= 0x36 {
            let hi = e.saturating_add(20);
            let w = window(doc, s.saturating_sub(60), hi);
            proof {
                encode_utf8_decode_utf8(w@);
                let lo = if s >= 60 { s - 60 } else { 0 };
                assert(window_bounds(doc.norm@, lo as int, hi as int) == window_bounds(doc.norm@, lo as int, e + 20));
            }
            if str_contains(w, "индекс") {
                let span = to_span(doc, s, e);
                comps.push(Comp { part: AddressPart::Index, span, score: 800, context: true });
            }
        }
        i += 1;
    }
    assert(cv.take(i as int) =~= cv);
}

fn collect_plain(doc: &Document<'_>, ms: &Vec<Vec<Option<(usize, usize)>>>, p: AddressPart, comps: &mut Vec<Comp>)
    requires
        doc.wf(),
        captures_wf(captures_view(*ms), encode_utf8(doc.norm@)),
        comps_ok(*doc, old(comps)@),
    ensures
        final(comps)@ == old(comps)@ + plain_parts(*doc, captures_view(*ms), p),
        comps_ok(*doc, final(comps)@),
{
    let _l = str_byte_len(doc.norm.as_str());
    let ghost cv = captures_view(*ms);
    let ghost start = comps@;
    let mut i: usize = 0;
    while i < ms.len()
        invariant
            doc.wf(),
            cv == captures_view(*ms),
            captures_wf(cv, encode_utf8(doc.norm@)),
            byte_len(doc.norm@) <= usize::MAX,
            i <= ms@.len(),
            comps@ == start + plain_parts(*doc, cv.take(i as int), p),
            comps_ok(*doc, comps@),
        decreases ms.len() - i,
    {
        assert(cv[i as int] == ms@[i as int]@);
        assert(cv.take(i + 1).drop_last() =~= cv.take(i as int));
        let m = &ms[i];
        let (s, e) = match m[0] {
            Some(x) => x,
            None => (0, 0),
        };
        assert(group_ok(encode_utf8(doc.norm@), cv[i as int][0]));
        if is_boundary(doc, s, e) {
            let span = to_span(doc, s, e);
            let ghost before = comps@;
            comps.push(Comp { part: p, span, score: 700, context: false });
            assert(comps@ =~= start + plain_parts(*doc, cv.take(i + 1), p));
        } else {
            assert(comps@ =~= start + plain_parts(*doc, cv.take(i + 1), p));
        }
        i += 1;
    }
    assert(cv.take(i as int) =~= cv);
}

fn collect_street(doc: &Document<'_>, ms: &Vec<Vec<Option<(usize, usize)>>>, comps: &mut Vec<Comp>)
    requires
        doc.wf(),
        captures_wf(captures_view(*ms), encode_utf8(doc.norm@)),
        comps_ok(*doc, old(comps)@),
    ensures
        final(comps)@ == old(comps)@ + street_parts(*doc, captures_view(*ms)),
        comps_ok(*doc, final(comps)@),
{
    let _l = str_byte_len(doc.norm.as_str());
    let bytes = doc.norm.as_str().as_bytes();
    let ghost b = encode_utf8(doc.norm@);
    let ghost cv = captures_view(*ms);
    let ghost start = comps@;
    let mut i: usize = 0;
    while i < ms.len()
        invariant
            doc.wf(),
            cv == captures_view(*ms),
            captures_wf(cv, b),
            b == encode_utf8(doc.norm@),
            bytes@ == b,
            byte_len(doc.norm@) <= usize::MAX,
            i <= ms@.len(),
            comps@ == start + street_parts(*doc, cv.take(i as int)),
            comps_ok(*doc, comps@),
        decreases ms.len() - i,
    {
        assert(cv[i as int] == ms@[i as int]@);
        assert(cv.take(i + 1).drop_last() =~= cv.take(i as int));
        let m = &ms[i];
        let (s, e) = match m[0] {
            Some(x) => x,
            None => (0, 0),
        };
        assert(group_ok(encode_utf8(doc.norm@), cv[i as int][0]));
        if is_boundary(doc, s, e) {
            let stop = street_stop_exec(bytes, e);
            let end = trim_spaces_exec(bytes, s, stop);
            if end > s {
                proof {
                    encode_utf8_valid_utf8(doc.norm@);
                    is_char_boundary_start_end_of_seq(b);
                    if end < b.len() {
                        is_char_boundary_iff_not_is_continuation_byte(b, end as int);
                    }
                }
                let span = to_span(doc, s, end);
                comps.push(Comp { part: AddressPart::Street, span, score: 700, context: false });
            }
        }
        assert(comps@ =~= start + street_parts(*doc, cv.take(i + 1)));
        i += 1;
    }
    assert(cv.take(i as int) =~= cv);
}

/// Where a street name stops (see `street_stop`); the result is the end of the text or a
/// position holding a comma, a semicolon or a space, or `e` itself.
fn street_stop_exec(b: &[u8], e: usize) -> (r: usize)
    requires
        e <= b@.len(),
    ensures
        r == street_stop(b@, e as int),
        e <= r <= b@.len(),
        r == e || r == b@.len() || b@[r as int] == 0x2C || b@[r as int] == 0x3B || b@[r as int] == 0x20,
{
    let mut p = e;
    while p < b.len()
        invariant
            e <= p <= b@.len(),
            find_sep(b@, e as int) == find_sep(b@, p as int),
        decreases b.len() - p,
    {
        if b[p] == 0x2C || b[p] == 0x3B {
            return p;
        }
        p += 1;
    }
    let short: Vec<u8> = vec![0x20u8, 0xD0, 0xB4, 0x2E];
    let long: Vec<u8> = vec![0x20u8, 0xD0, 0xB4, 0xD0, 0xBE, 0xD0, 0xBC];
    assert(short@ =~= seq![0x20u8, 0xD0, 0xB4, 0x2E]);
    assert(long@ =~= seq![0x20u8, 0xD0, 0xB4, 0xD0, 0xBE, 0xD0, 0xBC]);
    assert(find_sep(b@, p as int) == None::<int>);
    let ss = short.as_slice();
    let ls = long.as_slice();
    assert(ss@ == short@);
    assert(ls@ == long@);
    proof {
        lemma_find_bytes(b@, e as int, ss@);
        lemma_find_bytes(b@, e as int, ls@);
    }
    let r1 = find_from(b, e, ss);
    match r1 {
        Some(q) => {
            assert(street_stop(b@, e as int) == q);
            q
        },
        None => {
            let r2 = find_from(b, e, ls);
            match r2 {
                Some(q) => {
                    assert(street_stop(b@, e as int) == q);
                    q
                },
                None => e,
            }
        },
    }
}

/// First occurrence of `needle` at or after `from`.
fn find_from(b: &[u8], from: usize, needle: &[u8]) -> (r: Option<usize>)
    requires
        from <= b@.len(),
    ensures
        r == match find_bytes(b@, from as int, needle@) {
            Some(p) => Some(p as usize),
            None => None,
        },
        r matches Some(p) ==> from <= p && p + needle@.len() <= b@.len() && (needle@.len() > 0 ==> b@[p as int] == needle@[0]),
{
    let bl = b.len();
    proof {
        lemma_find_bytes(b@, from as int, needle@);
    }
    let mut p = from;
    while p <= b.len() && needle.len() <= b.len() - p
        invariant
            bl == b@.len(),
            from <= p,
            find_bytes(b@, from as int, needle@) == find_bytes(b@, p as int, needle@),
        decreases b.len() + 1 - p,
    {
        let mut k: usize = 0;
        let mut same = true;
        while k < needle.len()
            invariant
                bl == b@.len(),
                p + needle@.len() <= b@.len(),
                k <= needle@.len(),
                same == forall|x: int| 0 <= x < k ==> b@[p + x] == needle@[x],
            decreases needle.len() - k,
        {
            if b[p + k] != needle[k] {
                same = false;
            }
            k += 1;
        }
        if same {
            assert(b@.subrange(p as int, p + needle@.len()) =~= needle@);
            if needle.len() > 0 {
                assert(b@[p as int] == b@.subrange(p as int, p + needle@.len())[0]);
            }
            return Some(p);
        }
        assert(!(b@.subrange(p as int, p + needle@.len()) =~= needle@));
        assert(needle@.len() > 0);
        p += 1;
    }
    None
}

fn trim_spaces_exec(b: &[u8], s: usize, end: usize) -> (r: usize)
    requires
        end <= b@.len(),
    ensures
        r == trim_spaces(b@, s as int, end as int),
        r <= end,
        r == end || b@[r as int] == 0x20,
{
    let mut e = end;
    while e > s && e > 0 && b[e - 1] == 0x20
        invariant
            e <= end <= b@.len(),
            trim_spaces(b@, s as int, e as int) == trim_spaces(b@, s as int, end as int),
            e == end || b@[e as int] == 0x20,
        decreases e,
    {
        e -= 1;
    }
    e
}

/// Stable sort of the components by their start.
fn sort_comps(v: &Vec<Comp>) -> (r: Vec<Comp>)
    ensures
        r@ == sort_by_start(v@),
{
    let mut r: Vec<Comp> = Vec::new();
    let mut i: usize = 0;
    while i < v.len()
        invariant
            i <= v@.len(),
            r@ == sort_by_start(v@.take(i as int)),
        decreases v.len() - i,
    {
        assert(v@.take(i + 1).drop_last() =~= v@.take(i as int));
        let x = v[i];
        let mut p = r.len();
        while p > 0 && r[p - 1].span.start > x.span.start
            invariant
                p <= r@.len(),
                forall|k: int| p <= k < r@.len() ==> (#[trigger] r@[k]).span.start > x.span.start,
            decreases p,
        {
            p -= 1;
        }
        proof {
            lemma_ins_at(r@, x, p as int);
        }
        r.insert(p, x);
        i += 1;
    }
    assert(v@.take(i as int) =~= v@);
    r
}

proof fn lemma_ins_at(s: Seq<Comp>, x: Comp, p: int)
    requires
        0 <= p <= s.len(),
        p == 0 || s[p - 1].span.start <= x.span.start,
        forall|k: int| p <= k < s.len() ==> (#[trigger] s[k]).span.start > x.span.start,
    ensures
        ins(s, x) == s.insert(p, x),
    decreases s.len(),
{
    if s.len() == p {
        assert(s.insert(p, x) =~= s.push(x));
    } else {
        lemma_ins_at(s.drop_last(), x, p);
        assert(s.insert(p, x) =~= s.drop_last().insert(p, x).push(s.last()));
    }
}

proof fn lemma_ins_ok(doc: Document, s: Seq<Comp>, x: Comp)
    requires
        comps_ok(doc, s),
        span_ok(x.span, encode_utf8(doc.original@)),
    ensures
        comps_ok(doc, ins(s, x)),
        ins(s, x).len() == s.len() + 1,
    decreases s.len(),
{
    if s.len() == 0 || s.last().span.start <= x.span.start {
    } else {
        lemma_ins_ok(doc, s.drop_last(), x);
    }
}

proof fn lemma_sort_ok(doc: Document, s: Seq<Comp>)
    requires
        comps_ok(doc, s),
    ensures
        comps_ok(doc, sort_by_start(s)),
        sort_by_start(s).len() == s.len(),
    decreases s.len(),
{
    if s.len() > 0 {
        lemma_sort_ok(doc, s.drop_last());
        lemma_ins_ok(doc, sort_by_start(s.drop_last()), s.last());
    }
}

/// The candidate of a component.
fn comp_cand(c: &Comp) -> (r: Candidate)
    ensures
        comp_candidate(r, *c),
{
    let mut cand = Candidate::new(part_type(c.part), c.span, c.score, DetectorSource::Regex { id: "address".to_string() });
    if c.context {
        cand.signals.insert(Signal::ContextPos);
    }
    assert(cand.signals.has(Signal::ContextPos) == c.context && !cand.signals.has(Signal::ChecksumOk)
        && !cand.signals.has(Signal::DictHit) && !cand.signals.has(Signal::ContextNeg)
        && !cand.signals.has(Signal::CapitalizedOriginal) && !cand.signals.has(Signal::Validated));
    cand
}

/// Only commas, semicolons and whitespace, at most three bytes, between the two spans.
fn joins_exec(doc: &Document<'_>, a: &Comp, b: &Comp) -> (r: bool)
    requires
        span_ok(a.span, encode_utf8(doc.original@)),
        span_ok(b.span, encode_utf8(doc.original@)),
    ensures
        r == joins(*doc, *a, *b),
{
    if b.span.start < a.span.end || b.span.start - a.span.end > 3 {
        return false;
    }
    let gap = doc.original_slice(Span { start: a.span.end, end: b.span.start });
    proof {
        encode_utf8_decode_utf8(gap@);
    }
    let g = str_chars(gap);
    let mut k: usize = 0;
    while k < g.len()
        invariant
            g@ == span_text(encode_utf8(doc.original@), Span { start: a.span.end, end: b.span.start }),
            k <= g@.len(),
            forall|x: int| 0 <= x < k ==> #[trigger] g@[x] == ',' || g@[x] == ';' || whitespace(g@[x]),
        decreases g.len() - k,
    {
        if !(g[k] == ',' || g[k] == ';' || is_whitespace(g[k])) {
            return false;
        }
        k += 1;
    }
    true
}

/// Pushes the candidates of the sorted components, then those of the addresses.
fn emit(doc: &Document<'_>, s: &Vec<Comp>, residence: bool, out: &mut Vec<Candidate>)
    requires
        comps_ok(*doc, s@),
    ensures
        address_output(old(out)@, final(out)@, s@, addresses_from(*doc, s@, 0, residence)),
{
    let ghost old_out = out@;
    let mut k: usize = 0;
    while k < s.len()
        invariant
            k <= s@.len(),
            out@.len() == old_out.len() + k,
            forall|x: int| 0 <= x < old_out.len() ==> #[trigger] out@[x] == old_out[x],
            forall|x: int| 0 <= x < k ==> comp_candidate(#[trigger] out@[old_out.len() + x], s@[x]),
        decreases s.len() - k,
    {
        let c = comp_cand(&s[k]);
        out.push(c);
        k += 1;
    }
    let ghost all = addresses_from(*doc, s@, 0, residence);
    let ghost mut found: Seq<(int, int, u32)> = Seq::empty();
    let n = s.len();
    let mut i: usize = 0;
    while i < n
        invariant
            n == s@.len(),
            i <= n,
            comps_ok(*doc, s@),
            all == addresses_from(*doc, s@, 0, residence),
            found + addresses_from(*doc, s@, i as int, residence) == all,
            out@.len() == old_out.len() + n + found.len(),
            forall|x: int| 0 <= x < old_out.len() ==> #[trigger] out@[x] == old_out[x],
            forall|x: int| 0 <= x < n ==> comp_candidate(#[trigger] out@[old_out.len() + x], s@[x]),
            forall|x: int| 0 <= x < found.len() ==> address_candidate(#[trigger] out@[old_out.len() + n + x], s@, found[x]),
        decreases n - i,
    {
        let mut e = i + 1;
        while e < n && joins_exec(doc, &s[e - 1], &s[e])
            invariant
                n == s@.len(),
                i < e <= n,
                comps_ok(*doc, s@),
                chain_end(*doc, s@, i as int) == chain_end(*doc, s@, e - 1),
            decreases n - e,
        {
            e += 1;
        }
        assert(chain_end(*doc, s@, i as int) == e);
        let ghost seg = s@.subrange(i as int, e as int);
        let mut street = false;
        let mut house = false;
        let mut city = false;
        let mut j = i;
        while j < e
            invariant
                n == s@.len(),
                i <= j <= e <= n,
                seg == s@.subrange(i as int, e as int),
                street == exists|x: int| 0 <= x < j - i && (#[trigger] seg[x]).part == AddressPart::Street,
                house == exists|x: int| 0 <= x < j - i && (#[trigger] seg[x]).part == AddressPart::House,
                city == exists|x: int| 0 <= x < j - i && (#[trigger] seg[x]).part == AddressPart::City,
            decreases e - j,
        {
            let part = s[j].part;
            assert(seg[j - i] == s@[j as int]);
            if part == AddressPart::Street {
                street = true;
            }
            if part == AddressPart::House {
                house = true;
            }
            if part == AddressPart::City {
                city = true;
            }
            j += 1;
        }
        assert(street == has_part(seg, AddressPart::Street));
        assert(house == has_part(seg, AddressPart::House));
        assert(city == has_part(seg, AddressPart::City));
        let len = e - i;
        let base: Option<u32> = if len >= 3 && street && house {
            Some(950)
        } else if len == 2 && street && (city || house) {
            Some(800)
        } else {
            None
        };
        assert(base == chain_score(seg));
        let ghost rest = addresses_from(*doc, s@, e as int, residence);
        match base {
            Some(sc) => {
                let score = if residence {
                    if sc + 200 >= 1000 {
                        1000
                    } else {
                        sc + 200
                    }
                } else {
                    sc
                };
                let mut parts: Vec<Candidate> = Vec::new();
                let mut j = i;
                while j < e
                    invariant
                        n == s@.len(),
                        i <= j <= e <= n,
                        parts@.len() == j - i,
                        forall|x: int| 0 <= x < j - i ==> comp_candidate(#[trigger] parts@[x], s@[i + x]),
                    decreases e - j,
                {
                    parts.push(comp_cand(&s[j]));
                    j += 1;
                }
                let span = Span { start: s[i].span.start, end: s[e - 1].span.end };
                let mut cand = Candidate::new(PdType::new(PdType::ADDRESS), span, score, DetectorSource::Regex { id: "address".to_string() });
                cand.components = parts;
                assert(address_candidate(cand, s@, (i as int, e as int, score)));
                out.push(cand);
                proof {
                    let before = found;
                    found = found.push((i as int, e as int, score));
                    assert(addresses_from(*doc, s@, i as int, residence) == seq![(i as int, e as int, score)] + rest);
                    assert(found + rest =~= before + (seq![(i as int, e as int, score)] + rest));
                    assert forall|x: int| 0 <= x < found.len() implies address_candidate(#[trigger] out@[old_out.len() + n + x], s@, found[x]) by {
                        if x < before.len() {
                        }
                    }
                }
            },
            None => {
                assert(addresses_from(*doc, s@, i as int, residence) == rest);
            },
        }
        i = e;
    }
    assert(addresses_from(*doc, s@, i as int, residence) =~= Seq::<(int, int, u32)>::empty());
    assert(found =~= all);
}

impl AddressDetector {
    /// The kinds of data this detector reports.
    pub fn types(&self) -> (r: Vec<PdType>)
        ensures
            names_of(r@) == seq!["ADDRESS"@, "ADDR_INDEX"@, "ADDR_REGION"@, "ADDR_CITY"@, "ADDR_STREET"@, "ADDR_HOUSE"@, "ADDR_FLAT"@],
    {
        let names: Vec<&str> = vec!["ADDRESS", "ADDR_INDEX", "ADDR_REGION", "ADDR_CITY", "ADDR_STREET", "ADDR_HOUSE", "ADDR_FLAT"];
        let r = kinds(names);
        assert(literal_names(names@) =~= seq!["ADDRESS"@, "ADDR_INDEX"@, "ADDR_REGION"@, "ADDR_CITY"@, "ADDR_STREET"@, "ADDR_HOUSE"@, "ADDR_FLAT"@]);
        r
    }
}

} // verus!
