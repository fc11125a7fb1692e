//! Detection of other documents: driver's licences (with their context), places of birth
//! and passport issuers (the value after a trigger phrase).
use vstd::prelude::*;

use crate::config::model::names_of;
use crate::service::detect::{kinds, literal_names};
use vstd::utf8::{encode_utf8, is_char_boundary_start_end_of_seq, encode_utf8_valid_utf8};

use crate::domain::document::Document;
use crate::domain::entity::Candidate;
use crate::domain::pd_type::PdType;
use crate::infra::pattern::{captures_view, captures_wf, group_ok, regex_captures, regex_valid, whole, Pattern};
use crate::service::detect::context::{boundary_spec, is_boundary};
use crate::service::detect::validators::{parse_date, parse_date_spec};
use crate::service::detect::{
    any_prefix_of, collect_hits, contains_any, contains_any_of, has_any_prefix_spec, hits_pushed, lists, make_signals,
    match_str, match_text, near_str, near_text, push_hit, signals_of, Hit,
};
use crate::textops::{
    alphabetic, byte_len, char_len_utf8, chars_contains, is_alphabetic, is_ascii_digit, is_digit, is_whitespace,
    lemma_byte_len_push, lemma_encode_concat, seq_contains_seq, seq_starts_with, str_byte_len, str_chars,
    string_from_chars, trim_end_spec, whitespace,
};

verus! {

pub open spec fn license_source() -> Seq<char> {
    r"\d{2}\s?\d{2}\s?\d{6}|\d{2}\s?[авекмнорстух]{2}\s?\d{6}"@
}

pub open spec fn birth_source() -> Seq<char> {
    r"место рождения|уроженец|уроженка|родил(ся|ась) в|place of birth"@
}

pub open spec fn issuer_source() -> Seq<char> {
    r"(выдан|кем выдан|выдавший орган)\s*:?\s*"@
}

/// Stems of words about driving licences.
pub open spec fn license_stems() -> Seq<Seq<char>> {
    seq!["водительск"@, "удостоверен"@, "прав"@, "driver"@, "license"@]
}

/// A licence number not glued to a word, with a licence word near (or `в/у`).
pub open spec fn license_hit(doc: Document, m: Seq<Option<(usize, usize)>>) -> Option<Hit> {
    let (s, e) = whole(m);
    let w = near_text(doc.norm@, s, e);
    if boundary_spec(encode_utf8(doc.norm@), s as int, e as int) && (has_any_prefix_spec(w, license_stems())
        || seq_contains_seq(w, "в/у"@) || seq_contains_seq(w, "в\\у"@)) {
        Some(Hit { pd_type: PdType::DRIVER_LICENSE@, start: s, end: e, score: 900, signals: signals_of(false, true, false) })
    } else {
        None
    }
}

/// Number of leading whitespace characters.
pub open spec fn ws_prefix(s: Seq<char>) -> nat
    decreases s.len(),
{
    if s.len() > 0 && whitespace(s[0]) {
        1 + ws_prefix(s.skip(1))
    } else {
        0
    }
}

/// Number of trailing alphabetic characters.
pub open spec fn trail_alpha(s: Seq<char>) -> nat
    decreases s.len(),
{
    if s.len() > 0 && alphabetic(s.last()) {
        1 + trail_alpha(s.drop_last())
    } else {
        0
    }
}

/// Where a captured value stops, scanning from character `j`: at `max_bytes` bytes, at `;`,
/// a newline or `,`, or (when asked) at a dot that does not end a word of one to three
/// letters.
pub open spec fn value_stop(s: Seq<char>, max_bytes: int, dot: bool, j: int) -> int
    decreases s.len() - j,
{
    if j < 0 || j >= s.len() {
        s.len() as int
    } else if byte_len(s.take(j)) >= max_bytes || s[j] == ';' || s[j] == '\n' || s[j] == ',' || (dot && s[j] == '.'
        && !(1 <= trail_alpha(s.take(j)) <= 3)) {
        j
    } else {
        value_stop(s, max_bytes, dot, j + 1)
    }
}

/// The value captured from the text `s` (what follows a trigger): leading whitespace is
/// skipped (its byte length is returned), the value stops as `value_stop` says, and
/// trailing whitespace is dropped.
pub open spec fn captured(s: Seq<char>, max_bytes: int, dot: bool) -> (int, Seq<char>) {
    let k = ws_prefix(s) as int;
    let r = s.skip(k);
    (byte_len(s.take(k)) as int, trim_end_spec(r.take(value_stop(r, max_bytes, dot, 0))))
}

/// Words that mark a place.
pub open spec fn toponym_words() -> Seq<Seq<char>> {
    seq!["г."@, "город"@, "пос."@, "с."@, "дер."@, "обл."@, "край"@, "республика"@]
}

/// The value names a place: a toponym word, a city or a country.
pub open spec fn names_place(v: Seq<char>, cities: Seq<String>, countries: Seq<String>) -> bool {
    ||| contains_any(v, toponym_words())
    ||| exists|k: int| 0 <= k < cities.len() && seq_contains_seq(v, #[trigger] cities[k]@)
    ||| exists|k: int| 0 <= k < countries.len() && seq_contains_seq(v, #[trigger] countries[k]@)
}

/// The text after the end `e` of a match.
pub open spec fn after(norm: Seq<char>, e: usize) -> Seq<char> {
    match_text(norm, e, encode_utf8(norm).len() as usize)
}

/// A place of birth: the value captured (at most 100 bytes) after a trigger, non-empty and
/// naming a place.
pub open spec fn birth_hit(doc: Document, cities: Seq<String>, countries: Seq<String>, m: Seq<Option<(usize, usize)>>) -> Option<Hit> {
    let e = whole(m).1;
    let (lead, v) = captured(after(doc.norm@, e), 100, false);
    let start = e + lead;
    if v.len() > 0 && names_place(v, cities, countries) {
        Some(Hit {
            pd_type: PdType::BIRTH_PLACE@,
            start: start as usize,
            end: (start + byte_len(v)) as usize,
            score: 900,
            signals: signals_of(false, true, false),
        })
    } else {
        None
    }
}

/// A character of a leading date.
pub open spec fn date_char(c: char) -> bool {
    is_digit(c) || c == '.' || c == '-' || c == '/'
}

/// Number of leading date characters.
pub open spec fn date_prefix(s: Seq<char>) -> nat
    decreases s.len(),
{
    if s.len() > 0 && date_char(s[0]) {
        1 + date_prefix(s.skip(1))
    } else {
        0
    }
}

/// Characters of a leading date and the whitespace after it, none when the leading run of
/// date characters does not parse as a date.
pub open spec fn leading_date(s: Seq<char>) -> int {
    let k = date_prefix(s) as int;
    if k == 0 || parse_date_spec(s.take(k)) is None {
        0
    } else {
        k + ws_prefix(s.skip(k))
    }
}

/// Abbreviations that open the name of an issuing authority.
pub open spec fn authority_words() -> Seq<Seq<char>> {
    seq!["уфмс"@, "оуфмс"@, "гу мвд"@, "умвд"@, "омвд"@, "овд"@, "мвд"@, "отделом"@, "отделением"@, "мц"@]
}

/// The value starts with one of the authorities, or one of the usual abbreviations.
pub open spec fn names_authority(v: Seq<char>, authorities: Seq<String>) -> bool {
    ||| exists|k: int| 0 <= k < authorities.len() && seq_starts_with(v, #[trigger] authorities[k]@)
    ||| exists|k: int| 0 <= k < authority_words().len() && seq_starts_with(v, #[trigger] authority_words()[k])
}

/// A passport issuer: after a trigger and an optional date, the value captured (at most
/// 150 bytes, stopping at a sentence dot), non-empty and naming an authority.
pub open spec fn issuer_hit(doc: Document, authorities: Seq<String>, m: Seq<Option<(usize, usize)>>) -> Option<Hit> {
    let e = whole(m).1;
    let s0 = after(doc.norm@, e);
    let d = leading_date(s0);
    let (lead, v) = captured(s0.skip(d), 150, true);
    let start = e + byte_len(s0.take(d)) + lead;
    if v.len() > 0 && names_authority(v, authorities) {
        Some(Hit {
            pd_type: PdType::PASSPORT_ISSUER@,
            start: start as usize,
            end: (start + byte_len(v)) as usize,
            score: 900,
            signals: signals_of(false, true, false),
        })
    } else {
        None
    }
}

/// Detector of driver's licences.
pub struct DriverLicenseDetector {
    pub re: Pattern,
    pub types: Vec<PdType>,
}

impl DriverLicenseDetector {
    pub fn new() -> (r: Option<DriverLicenseDetector>)
        ensures
            r is Some == regex_valid(license_source()),
            r matches Some(d) ==> d.re@ == license_source() && d.types@.len() == 1 && d.types@[0]@ == PdType::DRIVER_LICENSE@,
    {
        match Pattern::compile(r"\d{2}\s?\d{2}\s?\d{6}|\d{2}\s?[авекмнорстух]{2}\s?\d{6}") {
            Ok(re) => Some(DriverLicenseDetector { re, types: vec![PdType::new(PdType::DRIVER_LICENSE)] }),
            Err(_) => None,
        }
    }

    pub fn detect(&self, doc: &Document<'_>, out: &mut Vec<Candidate>)
        requires
            doc.wf(),
        ensures
            hits_pushed(*doc, false, "driver_license"@, old(out)@, final(out)@, collect_hits(
                regex_captures(self.re@, doc.norm@),
                |m: Seq<Option<(usize, usize)>>| license_hit(*doc, m),
            )),
    {
        let ms = self.re.captures(doc.norm.as_str());
        detect_licenses(doc, &ms, out);
    }
}

/// What follows the search for licence numbers, given its matches.
pub fn detect_licenses(doc: &Document<'_>, ms: &Vec<Vec<Option<(usize, usize)>>>, out: &mut Vec<Candidate>)
    requires
        doc.wf(),
        captures_wf(captures_view(*ms), encode_utf8(doc.norm@)),
    ensures
        hits_pushed(*doc, false, "driver_license"@, old(out)@, final(out)@, collect_hits(
            captures_view(*ms),
            |m: Seq<Option<(usize, usize)>>| license_hit(*doc, m),
        )),
{
    let ghost old_out = out@;
    let ghost f = |m: Seq<Option<(usize, usize)>>| license_hit(*doc, m);
    let ghost b = encode_utf8(doc.norm@);
    let ghost cv = captures_view(*ms);
    let stems: Vec<&str> = vec!["водительск", "удостоверен", "прав", "driver", "license"];
    assert(lists(stems@, license_stems()));
    let mut i: usize = 0;
    while i < ms.len()
        invariant
            doc.wf(),
            b == encode_utf8(doc.norm@),
            cv == captures_view(*ms),
            captures_wf(cv, b),
            lists(stems@, license_stems()),
            f == (|m: Seq<Option<(usize, usize)>>| license_hit(*doc, m)),
            i <= cv.len(),
            hits_pushed(*doc, false, "driver_license"@, old_out, out@, collect_hits(cv.take(i as int), f)),
        decreases ms.len() - i,
    {
        assert(cv[i as int] == ms@[i as int]@);
        assert(cv.take(i + 1).drop_last() =~= cv.take(i as int));
        assert(cv.take(i + 1).last() == cv[i as int]);
        assert(group_ok(b, cv[i as int][0]));
        let ghost found = collect_hits(cv.take(i as int), f);
        let (s, e) = match ms[i][0] {
            Some(x) => x,
            None => (0, 0),
        };
        if is_boundary(doc, s, e) {
            let w = near_str(doc, s, e);
            let wc = str_chars(w);
            let a = str_chars("в/у");
            let c = str_chars("в\\у");
            if any_prefix_of(w, &stems, Ghost(license_stems())) || chars_contains(wc.as_slice(), a.as_slice())
                || chars_contains(wc.as_slice(), c.as_slice()) {
                push_hit(doc, out, PdType::DRIVER_LICENSE, false, "driver_license", s, e, 900, make_signals(false, true, false), Ghost(old_out), Ghost(found));
            }
        }
        i += 1;
    }
    assert(cv.take(i as int) =~= cv);
}

// ---------------------------------------------------------------- captured values

proof fn lemma_take_skip_bytes(s: Seq<char>, k: int)
    requires
        0 <= k <= s.len(),
    ensures
        byte_len(s) == byte_len(s.take(k)) + byte_len(s.skip(k)),
{
    assert(s =~= s.take(k) + s.skip(k));
    lemma_encode_concat(s.take(k), s.skip(k));
}

proof fn lemma_trim_end_bytes(s: Seq<char>)
    ensures
        byte_len(trim_end_spec(s)) <= byte_len(s),
        trim_end_spec(s).len() <= s.len(),
    decreases s.len(),
{
    if s.len() > 0 && whitespace(s.last()) {
        lemma_trim_end_bytes(s.drop_last());
        lemma_take_skip_bytes(s, s.len() - 1);
        assert(s.take(s.len() - 1) =~= s.drop_last());
    }
}

proof fn lemma_ws_prefix(s: Seq<char>)
    ensures
        ws_prefix(s) <= s.len(),
        forall|i: int| 0 <= i < ws_prefix(s) ==> whitespace(#[trigger] s[i]),
        ws_prefix(s) < s.len() ==> !whitespace(s[ws_prefix(s) as int]),
    decreases s.len(),
{
    if s.len() > 0 && whitespace(s[0]) {
        lemma_ws_prefix(s.skip(1));
        assert forall|i: int| 0 <= i < ws_prefix(s) implies whitespace(#[trigger] s[i]) by {
            if i > 0 {
                assert(s[i] == s.skip(1)[i - 1]);
            }
        }
        if ws_prefix(s) < s.len() {
            assert(s[ws_prefix(s) as int] == s.skip(1)[ws_prefix(s) - 1]);
        }
    }
}

proof fn lemma_ws_prefix_exact(s: Seq<char>, k: int)
    requires
        0 <= k <= s.len(),
        forall|i: int| 0 <= i < k ==> whitespace(#[trigger] s[i]),
        k == s.len() || !whitespace(s[k]),
    ensures
        ws_prefix(s) == k,
    decreases s.len(),
{
    if k > 0 {
        assert forall|i: int| 0 <= i < k - 1 implies whitespace(#[trigger] s.skip(1)[i]) by {
            assert(s.skip(1)[i] == s[i + 1]);
        }
        if k < s.len() {
            assert(s.skip(1)[k - 1] == s[k]);
        }
        lemma_ws_prefix_exact(s.skip(1), k - 1);
    }
}

proof fn lemma_date_prefix_exact(s: Seq<char>, k: int)
    requires
        0 <= k <= s.len(),
        forall|i: int| 0 <= i < k ==> date_char(#[trigger] s[i]),
        k == s.len() || !date_char(s[k]),
    ensures
        date_prefix(s) == k,
    decreases s.len(),
{
    if k > 0 {
        assert forall|i: int| 0 <= i < k - 1 implies date_char(#[trigger] s.skip(1)[i]) by {
            assert(s.skip(1)[i] == s[i + 1]);
        }
        if k < s.len() {
            assert(s.skip(1)[k - 1] == s[k]);
        }
        lemma_date_prefix_exact(s.skip(1), k - 1);
    }
}

/// Number of leading whitespace characters.
fn ws_count(s: &Vec<char>, from: usize) -> (k: usize)
    requires
        from <= s@.len(),
    ensures
        from + k <= s@.len(),
        k == ws_prefix(s@.skip(from as int)),
{
    let n = s.len();
    let mut k: usize = 0;
    while k < n - from && is_whitespace(s[from + k])
        invariant
            n == s@.len(),
            from + k <= s@.len(),
            forall|i: int| 0 <= i < k ==> whitespace(#[trigger] s@.skip(from as int)[i]),
        decreases s.len() - from - k,
    {
        k += 1;
    }
    proof {
        lemma_ws_prefix_exact(s@.skip(from as int), k as int);
    }
    k
}

fn skip_chars(s: &Vec<char>, k: usize) -> (r: Vec<char>)
    requires
        k <= s@.len(),
    ensures
        r@ == s@.skip(k as int),
{
    let mut r: Vec<char> = Vec::new();
    let mut i = k;
    while i < s.len()
        invariant
            k <= i <= s@.len(),
            r@ == s@.subrange(k as int, i as int),
        decreases s.len() - i,
    {
        r.push(s[i]);
        i += 1;
        assert(r@ =~= s@.subrange(k as int, i as int));
    }
    assert(r@ =~= s@.skip(k as int));
    r
}

fn take_chars(s: &Vec<char>, k: usize) -> (r: Vec<char>)
    requires
        k <= s@.len(),
    ensures
        r@ == s@.take(k as int),
{
    let mut r: Vec<char> = Vec::new();
    let mut i: usize = 0;
    while i < k
        invariant
            i <= k <= s@.len(),
            r@ == s@.take(i as int),
        decreases k - i,
    {
        r.push(s[i]);
        i += 1;
        assert(r@ =~= s@.take(i as int));
    }
    r
}

fn trim_end_chars(s: &Vec<char>) -> (r: Vec<char>)
    ensures
        r@ == trim_end_spec(s@),
{
    let mut n = s.len();
    assert(s@.take(n as int) =~= s@);
    while n > 0 && is_whitespace(s[n - 1])
        invariant
            n <= s@.len(),
            trim_end_spec(s@) == trim_end_spec(s@.take(n as int)),
        decreases n,
    {
        assert(s@.take(n as int).drop_last() =~= s@.take(n - 1));
        n -= 1;
    }
    take_chars(s, n)
}

fn chars_bytes(v: &Vec<char>) -> (n: usize)
    ensures
        n == byte_len(v@),
{
    str_byte_len(string_from_chars(v.as_slice()).as_str())
}

/// Trailing alphabetic characters of the first `j`.
fn trail_alpha_at(s: &Vec<char>, j: usize) -> (n: usize)
    requires
        j <= s@.len(),
    ensures
        n == trail_alpha(s@.take(j as int)),
{
    let mut p = j;
    while p > 0 && is_alphabetic(s[p - 1])
        invariant
            p <= j <= s@.len(),
            trail_alpha(s@.take(j as int)) == (j - p) + trail_alpha(s@.take(p as int)),
        decreases p,
    {
        assert(s@.take(p as int).drop_last() =~= s@.take(p - 1));
        p -= 1;
    }
    j - p
}

/// The value captured from `s` (see `captured`), with the byte length of the skipped
/// leading whitespace.
fn capture(s: &Vec<char>, max_bytes: usize, dot: bool) -> (r: (usize, Vec<char>))
    ensures
        r.0 == captured(s@, max_bytes as int, dot).0,
        r.1@ == captured(s@, max_bytes as int, dot).1,
        r.0 + byte_len(r.1@) <= byte_len(s@),
{
    let k = ws_count(s, 0);
    assert(s@.skip(0) =~= s@);
    let r = skip_chars(s, k);
    let mut j: usize = 0;
    let mut bytes: usize = 0;
    let mut done = false;
    let total = chars_bytes(&r);
    assert(r@.take(0) =~= Seq::<char>::empty());
    while j < r.len() && !done
        invariant
            j <= r@.len(),
            total == byte_len(r@),
            bytes == byte_len(r@.take(j as int)),
            value_stop(r@, max_bytes as int, dot, 0) == value_stop(r@, max_bytes as int, dot, j as int),
            done ==> value_stop(r@, max_bytes as int, dot, j as int) == j,
        decreases r.len() - j + (if done { 0int } else { 1int }),
    {
        let c = r[j];
        let mut stop = bytes >= max_bytes || c == ';' || c == '\n' || c == ',';
        if !stop && dot && c == '.' {
            let n = trail_alpha_at(&r, j);
            stop = !(1 <= n && n <= 3);
        }
        if stop {
            done = true;
        } else {
            proof {
            assert(r@.take(j + 1) =~= r@.take(j as int).push(c));
            lemma_byte_len_push(r@.take(j as int), c);
            lemma_take_skip_bytes(r@, j + 1);
        }
        bytes = bytes + char_len_utf8(c);
        j += 1;
        }
    }
    assert(j as int == value_stop(r@, max_bytes as int, dot, 0));
    let head = take_chars(&r, j);
    let v = trim_end_chars(&head);
    let lead = chars_bytes(&take_chars(s, k));
    proof {
        lemma_take_skip_bytes(s@, k as int);
        lemma_take_skip_bytes(r@, j as int);
        lemma_trim_end_bytes(head@);
    }
    (lead, v)
}

/// The characters of a leading date and the whitespace after it (see `leading_date`).
fn leading_date_count(s: &Vec<char>) -> (n: usize)
    ensures
        n == leading_date(s@),
        n <= s@.len(),
{
    let mut k: usize = 0;
    while k < s.len() && (is_ascii_digit(s[k]) || s[k] == '.' || s[k] == '-' || s[k] == '/')
        invariant
            k <= s@.len(),
            forall|i: int| 0 <= i < k ==> date_char(#[trigger] s@[i]),
        decreases s.len() - k,
    {
        k += 1;
    }
    proof {
        lemma_date_prefix_exact(s@, k as int);
    }
    if k == 0 {
        return 0;
    }
    let head = string_from_chars(take_chars(s, k).as_slice());
    if parse_date(head.as_str()).is_none() {
        return 0;
    }
    let w = ws_count(s, k);
    k + w
}

/// The text after byte `e` of the normalized text, as characters.
fn after_chars(doc: &Document<'_>, e: usize) -> (r: Vec<char>)
    requires
        group_ok(encode_utf8(doc.norm@), Some((e, e))),
    ensures
        r@ == after(doc.norm@, e),
        e + byte_len(r@) == encode_utf8(doc.norm@).len(),
        encode_utf8(doc.norm@).len() <= usize::MAX,
{
    let total = str_byte_len(doc.norm.as_str());
    proof {
        encode_utf8_valid_utf8(doc.norm@);
        is_char_boundary_start_end_of_seq(encode_utf8(doc.norm@));
    }
    let t = match_str(doc, e, total);
    let r = str_chars(t);
    r
}

/// Detector of places of birth, with the dictionaries of cities and countries.
pub struct BirthPlaceDetector {
    pub re_trigger: Pattern,
    pub cities: Vec<String>,
    pub countries: Vec<String>,
    pub types: Vec<PdType>,
}

fn contains_any_string(v: &Vec<char>, words: &Vec<String>) -> (r: bool)
    ensures
        r == exists|k: int| 0 <= k < words@.len() && seq_contains_seq(v@, #[trigger] words@[k]@),
{
    let mut k: usize = 0;
    while k < words.len()
        invariant
            k <= words@.len(),
            forall|j: int| 0 <= j < k ==> !seq_contains_seq(v@, #[trigger] words@[j]@),
        decreases words.len() - k,
    {
        let c = str_chars(words[k].as_str());
        if chars_contains(v.as_slice(), c.as_slice()) {
            return true;
        }
        k += 1;
    }
    false
}

fn starts_with_chars(v: &Vec<char>, p: &Vec<char>) -> (r: bool)
    ensures
        r == seq_starts_with(v@, p@),
{
    if p.len() > v.len() {
        return false;
    }
    let mut i: usize = 0;
    while i < p.len()
        invariant
            p@.len() <= v@.len(),
            i <= p@.len(),
            forall|x: int| 0 <= x < i ==> v@[x] == p@[x],
        decreases p.len() - i,
    {
        if v[i] != p[i] {
            assert(v@.subrange(0, p@.len() as int)[i as int] != p@[i as int]);
            return false;
        }
        i += 1;
    }
    assert(v@.subrange(0, p@.len() as int) =~= p@);
    true
}

impl BirthPlaceDetector {
    pub fn new(cities: Vec<String>, countries: Vec<String>) -> (r: Option<BirthPlaceDetector>)
        ensures
            r is Some == regex_valid(birth_source()),
            r matches Some(d) ==> d.re_trigger@ == birth_source() && d.cities@ == cities@ && d.countries@ == countries@
                && d.types@.len() == 1 && d.types@[0]@ == PdType::BIRTH_PLACE@,
    {
        match Pattern::compile(r"место рождения|уроженец|уроженка|родил(ся|ась) в|place of birth") {
            Ok(re_trigger) => Some(BirthPlaceDetector { re_trigger, cities, countries, types: vec![PdType::new(PdType::BIRTH_PLACE)] }),
            Err(_) => None,
        }
    }

    pub fn detect(&self, doc: &Document<'_>, out: &mut Vec<Candidate>)
        requires
            doc.wf(),
        ensures
            hits_pushed(*doc, false, "birth_place"@, old(out)@, final(out)@, collect_hits(
                regex_captures(self.re_trigger@, doc.norm@),
                |m: Seq<Option<(usize, usize)>>| birth_hit(*doc, self.cities@, self.countries@, m),
            )),
    {
        let ms = self.re_trigger.captures(doc.norm.as_str());
        self.detect_in(doc, &ms, out);
    }

    /// What follows the search for triggers, given its matches.
    pub fn detect_in(&self, doc: &Document<'_>, ms: &Vec<Vec<Option<(usize, usize)>>>, out: &mut Vec<Candidate>)
        requires
            doc.wf(),
            captures_wf(captures_view(*ms), encode_utf8(doc.norm@)),
        ensures
            hits_pushed(*doc, false, "birth_place"@, old(out)@, final(out)@, collect_hits(
                captures_view(*ms),
                |m: Seq<Option<(usize, usize)>>| birth_hit(*doc, self.cities@, self.countries@, m),
            )),
    {
        let ghost old_out = out@;
        let ghost f = |m: Seq<Option<(usize, usize)>>| birth_hit(*doc, self.cities@, self.countries@, m);
        let ghost b = encode_utf8(doc.norm@);
        let ghost cv = captures_view(*ms);
        let words: Vec<&str> = vec!["г.", "город", "пос.", "с.", "дер.", "обл.", "край", "республика"];
        assert(lists(words@, toponym_words()));
        let mut i: usize = 0;
        while i < ms.len()
            invariant
                doc.wf(),
                b == encode_utf8(doc.norm@),
                cv == captures_view(*ms),
                captures_wf(cv, b),
                lists(words@, toponym_words()),
                f == (|m: Seq<Option<(usize, usize)>>| birth_hit(*doc, self.cities@, self.countries@, m)),
                i <= cv.len(),
                hits_pushed(*doc, false, "birth_place"@, old_out, out@, collect_hits(cv.take(i as int), f)),
            decreases ms.len() - i,
        {
            assert(cv[i as int] == ms@[i as int]@);
            assert(cv.take(i + 1).drop_last() =~= cv.take(i as int));
            assert(cv.take(i + 1).last() == cv[i as int]);
            assert(group_ok(b, cv[i as int][0]));
            let ghost found = collect_hits(cv.take(i as int), f);
            let e = match ms[i][0] {
                Some(x) => x.1,
                None => 0,
            };
            let s0 = after_chars(doc, e);
            let (lead, v) = capture(&s0, 100, false);
            if v.len() > 0 {
                let vs = string_from_chars(v.as_slice());
                let place = contains_any_of(vs.as_str(), &words, Ghost(toponym_words())) || contains_any_string(&v, &self.cities)
                    || contains_any_string(&v, &self.countries);
                if place {
                    let vb = chars_bytes(&v);
                    let start = e + lead;
                    push_hit(doc, out, PdType::BIRTH_PLACE, false, "birth_place", start, start + vb, 900, make_signals(false, true, false), Ghost(old_out), Ghost(found));
                }
            }
            i += 1;
        }
        assert(cv.take(i as int) =~= cv);
    }
}

/// Detector of passport issuers, with the dictionary of authorities.
pub struct PassportIssuerDetector {
    pub re_trigger: Pattern,
    pub authorities: Vec<String>,
    pub types: Vec<PdType>,
}

impl PassportIssuerDetector {
    pub fn new(authorities: Vec<String>) -> (r: Option<PassportIssuerDetector>)
        ensures
            r is Some == regex_valid(issuer_source()),
            r matches Some(d) ==> d.re_trigger@ == issuer_source() && d.authorities@ == authorities@ && d.types@.len() == 1
                && d.types@[0]@ == PdType::PASSPORT_ISSUER@,
    {
        match Pattern::compile(r"(выдан|кем выдан|выдавший орган)\s*:?\s*") {
            Ok(re_trigger) => Some(PassportIssuerDetector { re_trigger, authorities, types: vec![PdType::new(PdType::PASSPORT_ISSUER)] }),
            Err(_) => None,
        }
    }

    pub fn detect(&self, doc: &Document<'_>, out: &mut Vec<Candidate>)
        requires
            doc.wf(),
        ensures
            hits_pushed(*doc, false, "passport_issuer"@, old(out)@, final(out)@, collect_hits(
                regex_captures(self.re_trigger@, doc.norm@),
                |m: Seq<Option<(usize, usize)>>| issuer_hit(*doc, self.authorities@, m),
            )),
    {
        let ms = self.re_trigger.captures(doc.norm.as_str());
        self.detect_in(doc, &ms, out);
    }

    fn names_authority_exec(&self, v: &Vec<char>, abbr: &Vec<&str>) -> (r: bool)
        requires
            lists(abbr@, authority_words()),
        ensures
            r == names_authority(v@, self.authorities@),
    {
        let mut k: usize = 0;
        while k < self.authorities.len()
            invariant
                k <= self.authorities@.len(),
                forall|j: int| 0 <= j < k ==> !seq_starts_with(v@, #[trigger] self.authorities@[j]@),
            decreases self.authorities.len() - k,
        {
            let a = str_chars(self.authorities[k].as_str());
            if starts_with_chars(v, &a) {
                return true;
            }
            k += 1;
        }
        let mut k: usize = 0;
        while k < abbr.len()
            invariant
                lists(abbr@, authority_words()),
                k <= abbr@.len(),
                forall|j: int| 0 <= j < self.authorities@.len() ==> !seq_starts_with(v@, #[trigger] self.authorities@[j]@),
                forall|j: int| 0 <= j < k ==> !seq_starts_with(v@, #[trigger] authority_words()[j]),
            decreases abbr.len() - k,
        {
            let a = str_chars(abbr[k]);
            if starts_with_chars(v, &a) {
                assert(seq_starts_with(v@, authority_words()[k as int]));
                return true;
            }
            k += 1;
        }
        false
    }

    /// What follows the search for triggers, given its matches.
    pub fn detect_in(&self, doc: &Document<'_>, ms: &Vec<Vec<Option<(usize, usize)>>>, out: &mut Vec<Candidate>)
        requires
            doc.wf(),
            captures_wf(captures_view(*ms), encode_utf8(doc.norm@)),
        ensures
            hits_pushed(*doc, false, "passport_issuer"@, old(out)@, final(out)@, collect_hits(
                captures_view(*ms),
                |m: Seq<Option<(usize, usize)>>| issuer_hit(*doc, self.authorities@, m),
            )),
    {
        let ghost old_out = out@;
        let ghost f = |m: Seq<Option<(usize, usize)>>| issuer_hit(*doc, self.authorities@, m);
        let ghost b = encode_utf8(doc.norm@);
        let ghost cv = captures_view(*ms);
        let abbr: Vec<&str> = vec!["уфмс", "оуфмс", "гу мвд", "умвд", "омвд", "овд", "мвд", "отделом", "отделением", "мц"];
        assert(lists(abbr@, authority_words()));
        let mut i: usize = 0;
        while i < ms.len()
            invariant
                doc.wf(),
                b == encode_utf8(doc.norm@),
                cv == captures_view(*ms),
                captures_wf(cv, b),
                lists(abbr@, authority_words()),
                f == (|m: Seq<Option<(usize, usize)>>| issuer_hit(*doc, self.authorities@, m)),
                i <= cv.len(),
                hits_pushed(*doc, false, "passport_issuer"@, old_out, out@, collect_hits(cv.take(i as int), f)),
            decreases ms.len() - i,
        {
            assert(cv[i as int] == ms@[i as int]@);
            assert(cv.take(i + 1).drop_last() =~= cv.take(i as int));
            assert(cv.take(i + 1).last() == cv[i as int]);
            assert(group_ok(b, cv[i as int][0]));
            let ghost found = collect_hits(cv.take(i as int), f);
            let e = match ms[i][0] {
                Some(x) => x.1,
                None => 0,
            };
            let s0 = after_chars(doc, e);
            let d = leading_date_count(&s0);
            let s1 = skip_chars(&s0, d);
            proof {
                lemma_take_skip_bytes(s0@, d as int);
            }
            let (lead, v) = capture(&s1, 150, true);
            if v.len() > 0 && self.names_authority_exec(&v, &abbr) {
                let db = chars_bytes(&take_chars(&s0, d));
                let vb = chars_bytes(&v);
                proof {
                    lemma_take_skip_bytes(s0@, d as int);
                }
                let start = e + db + lead;
                push_hit(doc, out, PdType::PASSPORT_ISSUER, false, "passport_issuer", start, start + vb, 900, make_signals(false, true, false), Ghost(old_out), Ghost(found));
            }
            i += 1;
        }
        assert(cv.take(i as int) =~= cv);
    }
}

impl DriverLicenseDetector {
    /// The kinds of data this detector reports.
    pub fn types(&self) -> (r: Vec<PdType>)
        ensures
            names_of(r@) == seq!["DRIVER_LICENSE"@],
    {
        let names: Vec<&str> = vec!["DRIVER_LICENSE"];
        let r = kinds(names);
        assert(literal_names(names@) =~= seq!["DRIVER_LICENSE"@]);
        r
    }
}

impl BirthPlaceDetector {
    /// The kinds of data this detector reports.
    pub fn types(&self) -> (r: Vec<PdType>)
        ensures
            names_of(r@) == seq!["BIRTH_PLACE"@],
    {
        let names: Vec<&str> = vec!["BIRTH_PLACE"];
        let r = kinds(names);
        assert(literal_names(names@) =~= seq!["BIRTH_PLACE"@]);
        r
    }
}

impl PassportIssuerDetector {
    /// The kinds of data this detector reports.
    pub fn types(&self) -> (r: Vec<PdType>)
        ensures
            names_of(r@) == seq!["PASSPORT_ISSUER"@],
    {
        let names: Vec<&str> = vec!["PASSPORT_ISSUER"];
        let r = kinds(names);
        assert(literal_names(names@) =~= seq!["PASSPORT_ISSUER"@]);
        r
    }
}

} // verus!
