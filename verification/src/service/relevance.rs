//! Relevance filters: whether a candidate is personal data of a client or something else
//! (a public person, a bank's own office or phone, an order number, a company name).
use vstd::prelude::*;
use vstd::utf8::{decode_utf8, encode_utf8, encode_utf8_decode_utf8};

use crate::domain::document::{Document, Span};
use crate::domain::entity::{Candidate, Signal};
use crate::domain::pd_type::PdType;
use crate::service::detect::context::{text_window, window, window_bounds};
use crate::service::detect::{contains_any, contains_any_of, lists};
use crate::service::pipeline::{span_ok, span_text};
use crate::textops::{
    alphanumeric, byte_len, chars_contains, collapse_whitespace, collapse_ws, digits_of, filter_digits,
    is_alphanumeric, is_whitespace, seq_contains_seq, str_byte_len, str_chars, str_lowercase_of, str_to_lowercase,
    string_from_chars, string_push, whitespace,
};

verus! {

/// A window of the normalized text: the numbers are taken as they come, clamped and widened
/// to character boundaries.
pub open spec fn norm_window(norm: Seq<char>, lo: int, hi: int) -> Seq<char> {
    let wb = window_bounds(norm, lo, hi);
    decode_utf8(encode_utf8(norm).subrange(wb.0, wb.1))
}

fn norm_window_str<'a>(doc: &'a Document<'_>, lo: usize, hi: usize) -> (r: &'a str)
    requires
        lo <= hi,
    ensures
        r@ == norm_window(doc.norm@, lo as int, hi as int),
{
    let w = window(doc, lo, hi);
    proof {
        encode_utf8_decode_utf8(w@);
    }
    w
}

/// Words near a public person's name that show a client is meant.
pub open spec fn personal_markers() -> Seq<Seq<char>> {
    seq!["клиент"@, "паспорт"@, "телефон"@, "проживает"@, "счет"@, "карта"@]
}

/// Words near a public person's name that show the person is meant.
pub open spec fn public_markers() -> Seq<Seq<char>> {
    seq![
        "поэт"@, "писатель"@, "композитор"@, "президент"@, "министр"@, "художник"@, "ученый"@, "улица"@,
        "проспект"@, "памятник"@, "музей"@, "имени"@, "им."@,
    ]
}

/// Some form of a public person (lowercased) occurs in the lowercased text.
pub open spec fn is_public_person(text: Seq<char>, persons: Seq<Vec<String>>) -> bool {
    exists|i: int, j: int|
        0 <= i < persons.len() && 0 <= j < persons[i]@.len() && seq_contains_seq(
            str_lowercase_of(text),
            str_lowercase_of(#[trigger] persons[i]@[j]@),
        )
}

/// Another candidate (elsewhere) of another type than a name, scored at least 0.8.
pub open spec fn other_pd(cand: Candidate, all: Seq<Candidate>) -> bool {
    exists|k: int|
        0 <= k < all.len() && (#[trigger] all[k]).span != cand.span && all[k].score >= 800 && all[k].pd_type@
            != PdType::FIO@
}

/// Filter of public persons: a name is dropped when it is a known public person's and the
/// text around speaks of the person (poet, street, museum...) rather than of a client.
pub struct PublicPersonFilter {
    pub persons: Vec<Vec<String>>,
}

impl PublicPersonFilter {
    /// Whether the candidate is kept.
    pub open spec fn keeps(&self, doc: Document, cand: Candidate, all: Seq<Candidate>) -> bool {
        let w = norm_window(doc.norm@, if cand.span.start >= 80 {
            cand.span.start - 80
        } else {
            0
        }, cand.span.end + 80);
        ||| cand.pd_type@ != PdType::FIO@
        ||| !is_public_person(span_text(encode_utf8(doc.original@), cand.span), self.persons@)
        ||| contains_any(w, personal_markers())
        ||| other_pd(cand, all)
        ||| !contains_any(w, public_markers())
    }

    pub fn keep(&self, doc: &Document<'_>, cand: &Candidate, all: &[Candidate]) -> (r: bool)
        requires
            span_ok(cand.span, encode_utf8(doc.original@)),
        ensures
            r == self.keeps(*doc, *cand, all@),
    {
        if !cand.pd_type.is(PdType::FIO) {
            return true;
        }
        let orig = doc.original_slice(cand.span);
        proof {
            encode_utf8_decode_utf8(orig@);
        }
        if !self.is_person(orig) {
            return true;
        }
        let _l = str_byte_len(doc.norm.as_str());
        let hi = cand.span.end.saturating_add(80);
        let w = norm_window_str(doc, cand.span.start.saturating_sub(80), hi);
        proof {
            let lo = if cand.span.start >= 80 {
                cand.span.start - 80
            } else {
                0
            };
            assert(window_bounds(doc.norm@, lo as int, hi as int) == window_bounds(doc.norm@, lo as int, cand.span.end + 80));
        }
        let pm: Vec<&str> = vec!["клиент", "паспорт", "телефон", "проживает", "счет", "карта"];
        assert(lists(pm@, personal_markers()));
        if contains_any_of(w, &pm, Ghost(personal_markers())) {
            return true;
        }
        if has_other_pd(cand, all) {
            return true;
        }
        let nm: Vec<&str> = vec![
            "поэт", "писатель", "композитор", "президент", "министр", "художник", "ученый", "улица", "проспект",
            "памятник", "музей", "имени", "им.",
        ];
        assert(lists(nm@, public_markers()));
        !contains_any_of(w, &nm, Ghost(public_markers()))
    }

    fn is_person(&self, orig: &str) -> (r: bool)
        ensures
            r == is_public_person(orig@, self.persons@),
    {
        let low = str_to_lowercase(orig);
        let lc = str_chars(low.as_str());
        let mut i: usize = 0;
        while i < self.persons.len()
            invariant
                lc@ == str_lowercase_of(orig@),
                i <= self.persons@.len(),
                forall|a: int, b: int|
                    0 <= a < i && 0 <= b < self.persons@[a]@.len() ==> !seq_contains_seq(
                        str_lowercase_of(orig@),
                        str_lowercase_of(#[trigger] self.persons@[a]@[b]@),
                    ),
            decreases self.persons.len() - i,
        {
            let forms = &self.persons[i];
            let mut j: usize = 0;
            while j < forms.len()
                invariant
                    lc@ == str_lowercase_of(orig@),
                    i < self.persons@.len(),
                    forms@ == self.persons@[i as int]@,
                    j <= forms@.len(),
                    forall|a: int, b: int|
                        0 <= a < i && 0 <= b < self.persons@[a]@.len() ==> !seq_contains_seq(
                            str_lowercase_of(orig@),
                            str_lowercase_of(#[trigger] self.persons@[a]@[b]@),
                        ),
                    forall|b: int| 0 <= b < j ==> !seq_contains_seq(str_lowercase_of(orig@), str_lowercase_of(#[trigger] forms@[b]@)),
                decreases forms.len() - j,
            {
                let f = str_to_lowercase(forms[j].as_str());
                let fc = str_chars(f.as_str());
                if chars_contains(lc.as_slice(), fc.as_slice()) {
                    assert(seq_contains_seq(str_lowercase_of(orig@), str_lowercase_of(self.persons@[i as int]@[j as int]@)));
                    return true;
                }
                j += 1;
            }
            i += 1;
        }
        false
    }
}

fn has_other_pd(cand: &Candidate, all: &[Candidate]) -> (r: bool)
    ensures
        r == other_pd(*cand, all@),
{
    let mut k: usize = 0;
    while k < all.len()
        invariant
            k <= all@.len(),
            forall|x: int| 0 <= x < k ==> !((#[trigger] all@[x]).span != cand.span && all@[x].score >= 800 && all@[x].pd_type@ != PdType::FIO@),
        decreases all.len() - k,
    {
        let c = &all[k];
        if (c.span.start != cand.span.start || c.span.end != cand.span.end) && c.score >= 800 && !c.pd_type.is(PdType::FIO) {
            return true;
        }
        k += 1;
    }
    false
}

// ---------------------------------------------------------------- bank offices and phones

/// The whitespace-separated words of a text (what `split_whitespace` gives).
pub open spec fn ws_words(s: Seq<char>) -> Seq<Seq<char>>
    decreases s.len(),
{
    if s.len() == 0 {
        Seq::empty()
    } else {
        let r = ws_words(s.drop_last());
        let c = s.last();
        if whitespace(c) {
            r
        } else if r.len() > 0 && s.drop_last().len() > 0 && !whitespace(s.drop_last().last()) {
            r.update(r.len() - 1, r.last().push(c))
        } else {
            r.push(seq![c])
        }
    }
}

/// Every character that is not alphanumeric becomes a space.
pub open spec fn blank_non_alnum(s: Seq<char>) -> Seq<char> {
    s.map_values(|c: char| if alphanumeric(c) {
        c
    } else {
        ' '
    })
}

/// A text put in the form of the dictionary of offices: lowercase, punctuation blanked,
/// single spaces.
pub open spec fn compare_form(s: Seq<char>) -> Seq<char> {
    collapse_ws(blank_non_alnum(str_lowercase_of(s)))
}

/// The words of `needle` occur in a row in `hay`.
pub open spec fn has_run(hay: Seq<Seq<char>>, needle: Seq<Seq<char>>) -> bool {
    needle.len() > 0 && needle.len() <= hay.len() && exists|i: int|
        0 <= i <= hay.len() - needle.len() && #[trigger] hay.subrange(i, i + needle.len()) == needle
}

/// Types an office phrase nearby can clear: address parts and phones.
pub open spec fn office_types() -> Seq<Seq<char>> {
    seq![
        PdType::ADDRESS@, PdType::ADDR_CITY@, PdType::ADDR_STREET@, PdType::ADDR_HOUSE@, PdType::ADDR_FLAT@,
        PdType::ADDR_REGION@, PdType::ADDR_INDEX@, PdType::PHONE@,
    ]
}

/// Phrases that say a bank's own office or line is meant.
pub open spec fn office_phrases() -> Seq<Seq<char>> {
    seq!["отделение банка"@, "офис банка"@, "филиал банка"@, "горячей линии"@, "горячая линия"@]
}

/// The original text around a span: `left` bytes before and `right` after, clamped and
/// widened to character boundaries.
pub open spec fn around_span(original: Seq<char>, span: Span, left: int, right: int) -> Seq<char> {
    let lo = if span.start >= left {
        span.start - left
    } else {
        0
    };
    let wb = window_bounds(original, lo, span.end + right);
    decode_utf8(encode_utf8(original).subrange(wb.0, wb.1))
}

/// Filter of the bank's own offices and phones.
pub struct BankAllowlistFilter {
    pub offices: Vec<String>,
    pub phones: Vec<String>,
    /// The words of each office address (non-empty ones only).
    pub office_tokens: Vec<Vec<String>>,
    /// The digits of each bank phone.
    pub phone_digits: Vec<String>,
}

/// The word lists of the offices, empty ones left out.
pub open spec fn office_words(offices: Seq<String>) -> Seq<Seq<Seq<char>>>
    decreases offices.len(),
{
    if offices.len() == 0 {
        Seq::empty()
    } else {
        let r = office_words(offices.drop_last());
        let w = ws_words(compare_form(offices.last()@));
        if w.len() > 0 {
            r.push(w)
        } else {
            r
        }
    }
}

pub open spec fn strings_view(v: Seq<String>) -> Seq<Seq<char>> {
    v.map_values(|s: String| s@)
}

impl BankAllowlistFilter {
    /// The office words and phone digits were derived from the dictionaries.
    pub open spec fn wf(&self) -> bool {
        &&& self.office_tokens@.map_values(|v: Vec<String>| strings_view(v@)) == office_words(self.offices@)
        &&& self.phone_digits@.len() == self.phones@.len()
        &&& forall|k: int| 0 <= k < self.phones@.len() ==> (#[trigger] self.phone_digits@[k])@ == filter_digits(self.phones@[k]@)
    }

    pub open spec fn office_words_view(&self) -> Seq<Seq<Seq<char>>> {
        self.office_tokens@.map_values(|v: Vec<String>| strings_view(v@))
    }

    pub fn new(offices: Vec<String>, phones: Vec<String>) -> (r: BankAllowlistFilter)
        ensures
            r.wf(),
            r.offices@ == offices@,
            r.phones@ == phones@,
    {
        let mut office_tokens: Vec<Vec<String>> = Vec::new();
        let mut i: usize = 0;
        while i < offices.len()
            invariant
                i <= offices@.len(),
                office_tokens@.map_values(|v: Vec<String>| strings_view(v@)) == office_words(offices@.take(i as int)),
            decreases offices.len() - i,
        {
            assert(offices@.take(i + 1).drop_last() =~= offices@.take(i as int));
            let w = words_of(compare_text(offices[i].as_str()).as_str());
            if w.len() > 0 {
                let ghost before = office_tokens@;
                office_tokens.push(w);
                assert(office_tokens@.map_values(|v: Vec<String>| strings_view(v@)) =~= before.map_values(
                    |v: Vec<String>| strings_view(v@),
                ).push(strings_view(w@)));
            }
            i += 1;
        }
        assert(offices@.take(i as int) =~= offices@);
        let mut phone_digits: Vec<String> = Vec::new();
        let mut j: usize = 0;
        while j < phones.len()
            invariant
                j <= phones@.len(),
                phone_digits@.len() == j,
                forall|k: int| 0 <= k < j ==> (#[trigger] phone_digits@[k])@ == filter_digits(phones@[k]@),
            decreases phones.len() - j,
        {
            let d = digits_of(phones[j].as_str());
            phone_digits.push(string_from_chars(d.as_slice()));
            j += 1;
        }
        BankAllowlistFilter { offices, phones, office_tokens, phone_digits }
    }

    /// Whether the candidate is kept.
    pub open spec fn keeps(&self, doc: Document, cand: Candidate) -> bool {
        let around = compare_form(around_span(doc.original@, cand.span, 60, 60));
        let tokens = ws_words(around);
        let digits = filter_digits(span_text(encode_utf8(doc.original@), cand.span));
        &&& !exists|k: int| 0 <= k < self.office_words_view().len() && has_run(tokens, #[trigger] self.office_words_view()[k])
        &&& !(office_types().contains(cand.pd_type@) && contains_any(around, office_phrases()))
        &&& !(cand.pd_type@ == PdType::PHONE@ && exists|k: int|
            0 <= k < self.phone_digits@.len() && (#[trigger] self.phone_digits@[k])@.len() > 0 && seq_contains_seq(
                digits,
                self.phone_digits@[k]@,
            ))
    }

    pub fn keep(&self, doc: &Document<'_>, cand: &Candidate) -> (r: bool)
        requires
            span_ok(cand.span, encode_utf8(doc.original@)),
        ensures
            r == self.keeps(*doc, *cand),
    {
        let orig = doc.original_slice(cand.span);
        proof {
            encode_utf8_decode_utf8(orig@);
        }
        let _l = str_byte_len(doc.original);
        let hi = cand.span.end.saturating_add(60);
        let raw = text_window(doc.original, cand.span.start.saturating_sub(60), hi);
        proof {
            encode_utf8_decode_utf8(raw@);
            let lo = if cand.span.start >= 60 {
                cand.span.start - 60
            } else {
                0
            };
            assert(window_bounds(doc.original@, lo as int, hi as int) == window_bounds(doc.original@, lo as int, cand.span.end + 60));
        }
        let around = compare_text(raw);
        let tokens = words_of(around.as_str());
        assert(around@ == compare_form(around_span(doc.original@, cand.span, 60, 60)));
        let mut k: usize = 0;
        while k < self.office_tokens.len()
            invariant
                around@ == compare_form(around_span(doc.original@, cand.span, 60, 60)),
                k <= self.office_tokens@.len(),
                strings_view(tokens@) == ws_words(around@),
                forall|x: int| 0 <= x < k ==> !has_run(ws_words(around@), #[trigger] self.office_words_view()[x]),
            decreases self.office_tokens.len() - k,
        {
            assert(self.office_words_view()[k as int] == strings_view(self.office_tokens@[k as int]@));
            if contains_run(&tokens, &self.office_tokens[k]) {
                assert(has_run(ws_words(around@), self.office_words_view()[k as int]));
                return false;
            }
            k += 1;
        }
        let t = &cand.pd_type;
        let typed = t.is(PdType::ADDRESS) || t.is(PdType::ADDR_CITY) || t.is(PdType::ADDR_STREET) || t.is(PdType::ADDR_HOUSE)
            || t.is(PdType::ADDR_FLAT) || t.is(PdType::ADDR_REGION) || t.is(PdType::ADDR_INDEX) || t.is(PdType::PHONE);
        proof {
            let ot = office_types();
            if office_types().contains(cand.pd_type@) {
                let i = choose|i: int| 0 <= i < ot.len() && ot[i] == cand.pd_type@;
                assert(typed);
            }
            if typed {
                assert(ot[0] == PdType::ADDRESS@ && ot[1] == PdType::ADDR_CITY@ && ot[2] == PdType::ADDR_STREET@);
                assert(ot[3] == PdType::ADDR_HOUSE@ && ot[4] == PdType::ADDR_FLAT@ && ot[5] == PdType::ADDR_REGION@);
                assert(ot[6] == PdType::ADDR_INDEX@ && ot[7] == PdType::PHONE@);
            }
        }
        if typed {
            let ph: Vec<&str> = vec!["отделение банка", "офис банка", "филиал банка", "горячей линии", "горячая линия"];
            assert(lists(ph@, office_phrases()));
            if contains_any_of(around.as_str(), &ph, Ghost(office_phrases())) {
                return false;
            }
        }
        if t.is(PdType::PHONE) {
            let digits = digits_of(orig);
            assert(orig@ == span_text(encode_utf8(doc.original@), cand.span));
            let mut k: usize = 0;
            while k < self.phone_digits.len()
                invariant
                    orig@ == span_text(encode_utf8(doc.original@), cand.span),
                    cand.pd_type@ == PdType::PHONE@,
                    k <= self.phone_digits@.len(),
                    digits@ == filter_digits(orig@),
                    forall|x: int| 0 <= x < k ==> !((#[trigger] self.phone_digits@[x])@.len() > 0 && seq_contains_seq(digits@, self.phone_digits@[x]@)),
                decreases self.phone_digits.len() - k,
            {
                let pd = str_chars(self.phone_digits[k].as_str());
                if pd.len() > 0 && chars_contains(digits.as_slice(), pd.as_slice()) {
                    assert(self.phone_digits@[k as int]@.len() > 0 && seq_contains_seq(digits@, self.phone_digits@[k as int]@));
                    return false;
                }
                k += 1;
            }
        }
        true
    }
}

/// The text in the form of the dictionary of offices.
fn compare_text(s: &str) -> (r: String)
    ensures
        r@ == compare_form(s@),
{
    let low = str_to_lowercase(s);
    let cs = str_chars(low.as_str());
    let mut m = String::new();
    let mut i: usize = 0;
    while i < cs.len()
        invariant
            i <= cs@.len(),
            m@ == blank_non_alnum(cs@.take(i as int)),
        decreases cs.len() - i,
    {
        let c = cs[i];
        let d = if is_alphanumeric(c) {
            c
        } else {
            ' '
        };
        string_push(&mut m, d);
        i += 1;
        assert(m@ =~= blank_non_alnum(cs@.take(i as int)));
    }
    assert(cs@.take(i as int) =~= cs@);
    collapse_whitespace(m.as_str())
}

/// The whitespace-separated words of a text.
fn words_of(s: &str) -> (r: Vec<String>)
    ensures
        strings_view(r@) == ws_words(s@),
{
    let cs = str_chars(s);
    let mut out: Vec<String> = Vec::new();
    let mut cur = String::new();
    let mut i: usize = 0;
    while i < cs.len()
        invariant
            i <= cs@.len(),
            ws_words(cs@.take(i as int)) == if cur@.len() > 0 {
                strings_view(out@).push(cur@)
            } else {
                strings_view(out@)
            },
            cur@.len() > 0 ==> i > 0 && !whitespace(cs@[i - 1]),
            cur@.len() == 0 ==> (i == 0 || whitespace(cs@[i - 1])),
        decreases cs.len() - i,
    {
        let c = cs[i];
        let ghost pre = cs@.take(i as int);
        assert(cs@.take(i + 1).drop_last() =~= pre);
        assert(cs@.take(i + 1).last() == c);
        if is_whitespace(c) {
            if !cur.as_str().is_empty() {
                let ghost before = strings_view(out@);
                out.push(cur);
                cur = String::new();
                assert(strings_view(out@) =~= before.push(out@.last()@));
            }
        } else {
            let ghost old_cur = cur@;
            string_push(&mut cur, c);
            proof {
                if old_cur.len() > 0 {
                    assert(pre.last() == cs@[i - 1]);
                    let r = ws_words(pre);
                    assert(r.update(r.len() - 1, r.last().push(c)) =~= strings_view(out@).push(cur@));
                } else {
                    assert(cur@ =~= seq![c]);
                }
            }
        }
        i += 1;
    }
    assert(cs@.take(i as int) =~= cs@);
    if !cur.as_str().is_empty() {
        let ghost before = strings_view(out@);
        out.push(cur);
        assert(strings_view(out@) =~= before.push(out@.last()@));
    }
    out
}

/// The words of `needle` occur in a row in `hay`.
fn contains_run(hay: &Vec<String>, needle: &Vec<String>) -> (r: bool)
    ensures
        r == has_run(strings_view(hay@), strings_view(needle@)),
{
    let ghost h = strings_view(hay@);
    let ghost n = strings_view(needle@);
    if needle.len() == 0 || needle.len() > hay.len() {
        return false;
    }
    let hl = hay.len();
    let last = hay.len() - needle.len();
    let mut i: usize = 0;
    while i <= last
        invariant
            hl == hay@.len(),
            h == strings_view(hay@),
            n == strings_view(needle@),
            h.len() == hay@.len(),
            n.len() == needle@.len(),
            0 < needle@.len() <= hay@.len(),
            last == hay@.len() - needle@.len(),
            i <= last + 1,
            forall|x: int| 0 <= x < i ==> #[trigger] h.subrange(x, x + n.len()) != n,
        decreases last + 1 - i,
    {
        let mut k: usize = 0;
        let mut same = true;
        while k < needle.len()
            invariant
                hl == hay@.len(),
                h == strings_view(hay@),
                n == strings_view(needle@),
                h.len() == hay@.len(),
                n.len() == needle@.len(),
                i <= last,
                last == hay@.len() - needle@.len(),
                k <= needle@.len(),
                same == forall|y: int| 0 <= y < k ==> h[i + y] == n[y],
            decreases needle.len() - k,
        {
            assert(h[i + k] == hay@[i + k]@);
            assert(n[k as int] == needle@[k as int]@);
            if !crate::textops::str_eq(hay[i + k].as_str(), needle[k].as_str()) {
                same = false;
            }
            k += 1;
        }
        if same {
            assert(h.subrange(i as int, i + n.len()) =~= n);
            return true;
        }
        assert(h.subrange(i as int, i + n.len()) != n) by {
            let y = choose|y: int| 0 <= y < n.len() && h[i + y] != n[y];
            assert(h.subrange(i as int, i + n.len())[y] == h[i + y]);
        }
        i += 1;
    }
    false
}

// ---------------------------------------------------------------- numbers and companies

/// Words before a number that show it is an order, a contract or an amount.
pub open spec fn number_markers() -> Seq<Seq<char>> {
    seq!["заказ"@, "договор"@, "счет-фактура"@, "артикул"@, "инвойс"@, "номер заявки"@, "тикет"@, "сумма"@, "руб"@]
}

/// Numeric types without a checked control sum.
pub open spec fn unchecked_number(c: Candidate) -> bool {
    (c.pd_type@ == PdType::PASSPORT@ || c.pd_type@ == PdType::PHONE@ || c.pd_type@ == PdType::INN@ || c.pd_type@
        == PdType::ORG_INN@) && !c.signals.checksum_ok
}

/// Filter of numbers named as orders, contracts or amounts in the 60 bytes before them.
pub struct NegativeNumberContext;

impl NegativeNumberContext {
    pub open spec fn keeps(&self, doc: Document, cand: Candidate) -> bool {
        let w = norm_window(doc.norm@, if cand.span.start >= 60 {
            cand.span.start - 60
        } else {
            0
        }, cand.span.start as int);
        !unchecked_number(cand) || !contains_any(w, number_markers())
    }

    pub fn keep(&self, doc: &Document<'_>, cand: &Candidate) -> (r: bool)
        ensures
            r == self.keeps(*doc, *cand),
    {
        let t = &cand.pd_type;
        let numeric = t.is(PdType::PASSPORT) || t.is(PdType::PHONE) || t.is(PdType::INN) || t.is(PdType::ORG_INN);
        if !numeric {
            return true;
        }
        if cand.signals.contains(Signal::ChecksumOk) {
            return true;
        }
        let w = norm_window_str(doc, cand.span.start.saturating_sub(60), cand.span.start);
        let words: Vec<&str> = vec!["заказ", "договор", "счет-фактура", "артикул", "инвойс", "номер заявки", "тикет", "сумма", "руб"];
        assert(lists(words@, number_markers()));
        !contains_any_of(w, &words, Ghost(number_markers()))
    }
}

/// Words that show a company name.
pub open spec fn company_markers() -> Seq<Seq<char>> {
    seq!["ооо"@, "зао"@, "ао"@, "пао"@, "ип"@, "оао"@]
}

/// Filter of names within 40 bytes of a company form (a name inside a company's name).
pub struct OrgContextFilter;

impl OrgContextFilter {
    pub open spec fn keeps(&self, doc: Document, cand: Candidate) -> bool {
        let w = norm_window(doc.norm@, if cand.span.start >= 40 {
            cand.span.start - 40
        } else {
            0
        }, cand.span.end + 40);
        cand.pd_type@ != PdType::FIO@ || !contains_any(w, company_markers())
    }

    pub fn keep(&self, doc: &Document<'_>, cand: &Candidate) -> (r: bool)
        requires
            cand.span.start <= cand.span.end,
        ensures
            r == self.keeps(*doc, *cand),
    {
        if !cand.pd_type.is(PdType::FIO) {
            return true;
        }
        let _l = str_byte_len(doc.norm.as_str());
        let lo = cand.span.start.saturating_sub(40);
        let hi = cand.span.end.saturating_add(40);
        let w = norm_window_str(doc, lo, hi);
        proof {
            assert(window_bounds(doc.norm@, lo as int, hi as int) == window_bounds(doc.norm@, lo as int, cand.span.end + 40));
        }
        let words: Vec<&str> = vec!["ооо", "зао", "ао", "пао", "ип", "оао"];
        assert(lists(words@, company_markers()));
        !contains_any_of(w, &words, Ghost(company_markers()))
    }
}


// ---------------------------------------------------------------- applying the filters

/// The filter is in force: the policy names it, or names none.
pub open spec fn active(filters: Seq<String>, id: Seq<char>) -> bool {
    filters.len() == 0 || exists|k: int| 0 <= k < filters.len() && #[trigger] filters[k]@ == id
}

/// The relevance filters, in the order they are consulted.
pub struct RelevanceFilters {
    pub public_persons: PublicPersonFilter,
    pub bank_allowlist: BankAllowlistFilter,
    pub org_context: OrgContextFilter,
    pub negative_number_context: NegativeNumberContext,
}

impl RelevanceFilters {
    /// Every filter in force keeps the candidate.
    pub open spec fn keeps(&self, doc: Document, filters: Seq<String>, c: Candidate, all: Seq<Candidate>) -> bool {
        &&& active(filters, "public_persons"@) ==> self.public_persons.keeps(doc, c, all)
        &&& active(filters, "bank_allowlist"@) ==> self.bank_allowlist.keeps(doc, c)
        &&& active(filters, "org_context"@) ==> self.org_context.keeps(doc, c)
        &&& active(filters, "negative_number_context"@) ==> self.negative_number_context.keeps(doc, c)
    }

    /// The candidates of `cs` that every filter in force keeps, in order.
    pub open spec fn kept(&self, doc: Document, filters: Seq<String>, cs: Seq<Candidate>, all: Seq<Candidate>) -> Seq<Candidate>
        decreases cs.len(),
    {
        if cs.len() == 0 {
            cs
        } else {
            let r = self.kept(doc, filters, cs.drop_last(), all);
            if self.keeps(doc, filters, cs.last(), all) {
                r.push(cs.last())
            } else {
                r
            }
        }
    }

    /// Keeps the candidates that every filter in force (those the policy names, or all of
    /// them when it names none) keeps; each filter sees all the candidates.
    pub fn apply(&self, doc: &Document<'_>, filters: &Vec<String>, cands: Vec<Candidate>) -> (r: Vec<Candidate>)
        requires
            forall|k: int| 0 <= k < cands@.len() ==> span_ok((#[trigger] cands@[k]).span, encode_utf8(doc.original@)),
        ensures
            r@ == self.kept(*doc, filters@, cands@, cands@),
    {
        let p = self.is_active(filters, "public_persons");
        let b = self.is_active(filters, "bank_allowlist");
        let o = self.is_active(filters, "org_context");
        let n = self.is_active(filters, "negative_number_context");
        let ghost all = cands@;
        let mut flags: Vec<bool> = Vec::new();
        let mut i: usize = 0;
        while i < cands.len()
            invariant
                forall|k: int| 0 <= k < cands@.len() ==> span_ok((#[trigger] cands@[k]).span, encode_utf8(doc.original@)),
                all == cands@,
                p == active(filters@, "public_persons"@),
                b == active(filters@, "bank_allowlist"@),
                o == active(filters@, "org_context"@),
                n == active(filters@, "negative_number_context"@),
                i <= cands@.len(),
                flags@.len() == i,
                forall|k: int| 0 <= k < i ==> #[trigger] flags@[k] == self.keeps(*doc, filters@, all[k], all),
            decreases cands.len() - i,
        {
            let c = &cands[i];
            assert(span_ok(c.span, encode_utf8(doc.original@)));
            let keep = (!p || self.public_persons.keep(doc, c, cands.as_slice())) && (!b || self.bank_allowlist.keep(doc, c))
                && (!o || self.org_context.keep(doc, c)) && (!n || self.negative_number_context.keep(doc, c));
            flags.push(keep);
            i += 1;
        }
        let total = flags.len();
        let mut src = cands;
        let mut out: Vec<Candidate> = Vec::new();
        let mut j: usize = 0;
        while src.len() > 0
            invariant
                flags@.len() == all.len(),
                total == all.len(),
                forall|k: int| 0 <= k < all.len() ==> #[trigger] flags@[k] == self.keeps(*doc, filters@, all[k], all),
                j <= all.len(),
                src@ == all.skip(j as int),
                out@ == self.kept(*doc, filters@, all.take(j as int), all),
            decreases src@.len(),
        {
            assert(all.take(j + 1).drop_last() =~= all.take(j as int));
            assert(src@[0] == all[j as int]);
            let c = src.remove(0);
            assert(src@ =~= all.skip(j + 1));
            if flags[j] {
                out.push(c);
            }
            j += 1;
        }
        assert(all.take(j as int) =~= all);
        out
    }

    fn is_active(&self, filters: &Vec<String>, id: &str) -> (r: bool)
        ensures
            r == active(filters@, id@),
    {
        if filters.len() == 0 {
            return true;
        }
        let mut k: usize = 0;
        while k < filters.len()
            invariant
                k <= filters@.len(),
                filters@.len() > 0,
                forall|j: int| 0 <= j < k ==> (#[trigger] filters@[j])@ != id@,
            decreases filters.len() - k,
        {
            if crate::textops::str_eq(filters[k].as_str(), id) {
                return true;
            }
            k += 1;
        }
        false
    }
}

} // verus!
