//! Detection of structured fields: in `"key": "value"` or `key: value`, a known field name
//! marks the value as a given type of personal data.
use vstd::prelude::*;

use crate::config::model::names_of;
use crate::service::detect::{kinds, literal_names};
use vstd::utf8::encode_utf8;

use crate::domain::document::Document;
use crate::domain::entity::Candidate;
use crate::domain::pd_type::PdType;
use crate::infra::pattern::{captures_view, captures_wf, group_ok, regex_captures, regex_valid, Pattern};
use crate::service::detect::dates::group_of;
use crate::service::detect::{collect_hits, hits_pushed, make_signals, match_str, push_hit, signals_of, Hit};
use crate::textops::{byte_len, chars_eq, str_byte_len, str_chars, string_from_chars, trim_chars, trim_spec};

verus! {

pub open spec fn field_source() -> Seq<char> {
    r#"(?i)"?([a-zа-яё_\- ]+)"?\s*[:=]\s*"?([^",\n}]+)"?"#@
}

/// Field names and the type of personal data each one announces.
pub open spec fn field_types() -> Seq<(Seq<char>, Seq<char>)> {
    seq![
        ("passport"@, PdType::PASSPORT@), ("паспорт"@, PdType::PASSPORT@), ("passport_series"@, PdType::PASSPORT@),
        ("birth_date"@, PdType::BIRTH_DATE@), ("дата_рождения"@, PdType::BIRTH_DATE@), ("дата рождения"@, PdType::BIRTH_DATE@),
        ("birth_place"@, PdType::BIRTH_PLACE@), ("место_рождения"@, PdType::BIRTH_PLACE@), ("место рождения"@, PdType::BIRTH_PLACE@),
        ("phone"@, PdType::PHONE@), ("телефон"@, PdType::PHONE@), ("phone_number"@, PdType::PHONE@),
        ("email"@, PdType::EMAIL@), ("inn"@, PdType::INN@), ("инн"@, PdType::INN@),
        ("snils"@, PdType::SNILS@), ("снилс"@, PdType::SNILS@),
        ("card_number"@, PdType::CARD_NUMBER@), ("card"@, PdType::CARD_NUMBER@), ("номер_карты"@, PdType::CARD_NUMBER@),
        ("cvv"@, PdType::CVV@), ("pin"@, PdType::PIN@),
        ("card_holder"@, PdType::CARD_HOLDER@), ("держатель"@, PdType::CARD_HOLDER@),
        ("citizenship"@, PdType::CITIZENSHIP@), ("гражданство"@, PdType::CITIZENSHIP@),
        ("address"@, PdType::ADDRESS@), ("адрес"@, PdType::ADDRESS@),
        ("driver_license"@, PdType::DRIVER_LICENSE@), ("division_code"@, PdType::DIVISION_CODE@),
        ("passport_issuer"@, PdType::PASSPORT_ISSUER@), ("выдан"@, PdType::PASSPORT_ISSUER@),
        ("fio"@, PdType::FIO@), ("фио"@, PdType::FIO@), ("full_name"@, PdType::FIO@), ("name"@, PdType::FIO@),
    ]
}

fn field_list() -> (r: Vec<(&'static str, &'static str)>)
    ensures
        r@.len() == field_types().len(),
        forall|k: int| 0 <= k < r@.len() ==> (#[trigger] r@[k]).0@ == field_types()[k].0 && r@[k].1@ == field_types()[k].1,
{
    vec![
        ("passport", PdType::PASSPORT), ("паспорт", PdType::PASSPORT), ("passport_series", PdType::PASSPORT),
        ("birth_date", PdType::BIRTH_DATE), ("дата_рождения", PdType::BIRTH_DATE), ("дата рождения", PdType::BIRTH_DATE),
        ("birth_place", PdType::BIRTH_PLACE), ("место_рождения", PdType::BIRTH_PLACE), ("место рождения", PdType::BIRTH_PLACE),
        ("phone", PdType::PHONE), ("телефон", PdType::PHONE), ("phone_number", PdType::PHONE),
        ("email", PdType::EMAIL), ("inn", PdType::INN), ("инн", PdType::INN),
        ("snils", PdType::SNILS), ("снилс", PdType::SNILS),
        ("card_number", PdType::CARD_NUMBER), ("card", PdType::CARD_NUMBER), ("номер_карты", PdType::CARD_NUMBER),
        ("cvv", PdType::CVV), ("pin", PdType::PIN),
        ("card_holder", PdType::CARD_HOLDER), ("держатель", PdType::CARD_HOLDER),
        ("citizenship", PdType::CITIZENSHIP), ("гражданство", PdType::CITIZENSHIP),
        ("address", PdType::ADDRESS), ("адрес", PdType::ADDRESS),
        ("driver_license", PdType::DRIVER_LICENSE), ("division_code", PdType::DIVISION_CODE),
        ("passport_issuer", PdType::PASSPORT_ISSUER), ("выдан", PdType::PASSPORT_ISSUER),
        ("fio", PdType::FIO), ("фио", PdType::FIO), ("full_name", PdType::FIO), ("name", PdType::FIO),
    ]
}

/// The type of the first field name equal to the key.
pub open spec fn field_lookup(fs: Seq<(Seq<char>, Seq<char>)>, key: Seq<char>) -> Option<Seq<char>>
    decreases fs.len(),
{
    if fs.len() == 0 {
        None
    } else if fs[0].0 == key {
        Some(fs[0].1)
    } else {
        field_lookup(fs.drop_first(), key)
    }
}

/// A field whose trimmed name is known and whose trimmed value is non-empty and at most
/// 200 bytes: the value's range (untrimmed) is reported with score 0.85.
pub open spec fn field_hit(doc: Document, m: Seq<Option<(usize, usize)>>) -> Option<Hit> {
    let key = trim_spec(group_of(doc.norm@, m, 1));
    let value = trim_spec(group_of(doc.norm@, m, 2));
    if key.len() > 0 && value.len() > 0 && 2 < m.len() && m[2] is Some && byte_len(value) <= 200 && field_lookup(
        field_types(),
        key,
    ) is Some {
        Some(Hit {
            pd_type: field_lookup(field_types(), key)->0,
            start: m[2]->Some_0.0,
            end: m[2]->Some_0.1,
            score: 850,
            signals: signals_of(false, true, false),
        })
    } else {
        None
    }
}

/// Detector of structured fields.
pub struct StructuredFieldDetector {
    pub re: Pattern,
    pub types: Vec<PdType>,
}

impl StructuredFieldDetector {
    pub fn new() -> (r: Option<StructuredFieldDetector>)
        ensures
            r is Some == regex_valid(field_source()),
            r matches Some(d) ==> d.re@ == field_source() && d.types@.len() == 17,
    {
        match Pattern::compile(r#"(?i)"?([a-zа-яё_\- ]+)"?\s*[:=]\s*"?([^",\n}]+)"?"#) {
            Ok(re) => Some(StructuredFieldDetector {
                re,
                types: vec![
                    PdType::new(PdType::PASSPORT),
                    PdType::new(PdType::BIRTH_DATE),
                    PdType::new(PdType::BIRTH_PLACE),
                    PdType::new(PdType::PHONE),
                    PdType::new(PdType::EMAIL),
                    PdType::new(PdType::INN),
                    PdType::new(PdType::SNILS),
                    PdType::new(PdType::CARD_NUMBER),
                    PdType::new(PdType::CVV),
                    PdType::new(PdType::PIN),
                    PdType::new(PdType::CARD_HOLDER),
                    PdType::new(PdType::CITIZENSHIP),
                    PdType::new(PdType::ADDRESS),
                    PdType::new(PdType::DRIVER_LICENSE),
                    PdType::new(PdType::DIVISION_CODE),
                    PdType::new(PdType::PASSPORT_ISSUER),
                    PdType::new(PdType::FIO),
                ],
            }),
            Err(_) => None,
        }
    }

    pub fn detect(&self, doc: &Document<'_>, out: &mut Vec<Candidate>)
        requires
            doc.wf(),
        ensures
            hits_pushed(*doc, false, "structured_field"@, old(out)@, final(out)@, collect_hits(
                regex_captures(self.re@, doc.norm@),
                |m: Seq<Option<(usize, usize)>>| field_hit(*doc, m),
            )),
    {
        let ms = self.re.captures(doc.norm.as_str());
        detect_fields(doc, &ms, out);
    }
}

/// The type announced by a field name.
fn lookup_field(fields: &Vec<(&'static str, &'static str)>, key: &Vec<char>) -> (r: Option<&'static str>)
    requires
        fields@.len() == field_types().len(),
        forall|k: int| 0 <= k < fields@.len() ==> (#[trigger] fields@[k]).0@ == field_types()[k].0 && fields@[k].1@ == field_types()[k].1,
    ensures
        match field_lookup(field_types(), key@) {
            Some(t) => r matches Some(x) && x@ == t,
            None => r is None,
        },
{
    let ghost fs = field_types();
    assert(fs.skip(0) =~= fs);
    let mut k: usize = 0;
    while k < fields.len()
        invariant
            fs == field_types(),
            fields@.len() == fs.len(),
            forall|x: int| 0 <= x < fields@.len() ==> (#[trigger] fields@[x]).0@ == fs[x].0 && fields@[x].1@ == fs[x].1,
            k <= fs.len(),
            field_lookup(fs, key@) == field_lookup(fs.skip(k as int), key@),
        decreases fields.len() - k,
    {
        assert(fs.skip(k as int).drop_first() =~= fs.skip(k + 1));
        assert(fs.skip(k as int)[0] == fs[k as int]);
        let name = str_chars(fields[k].0);
        if chars_eq(name.as_slice(), key.as_slice()) {
            return Some(fields[k].1);
        }
        k += 1;
    }
    assert(fs.skip(k as int).len() == 0);
    None
}

/// What follows the search for fields, given its matches.
pub fn detect_fields(doc: &Document<'_>, ms: &Vec<Vec<Option<(usize, usize)>>>, out: &mut Vec<Candidate>)
    requires
        doc.wf(),
        captures_wf(captures_view(*ms), encode_utf8(doc.norm@)),
    ensures
        hits_pushed(*doc, false, "structured_field"@, old(out)@, final(out)@, collect_hits(
            captures_view(*ms),
            |m: Seq<Option<(usize, usize)>>| field_hit(*doc, m),
        )),
{
    let ghost old_out = out@;
    let ghost f = |m: Seq<Option<(usize, usize)>>| field_hit(*doc, m);
    let ghost b = encode_utf8(doc.norm@);
    let ghost cv = captures_view(*ms);
    let fields = field_list();
    let mut i: usize = 0;
    while i < ms.len()
        invariant
            doc.wf(),
            b == encode_utf8(doc.norm@),
            cv == captures_view(*ms),
            captures_wf(cv, b),
            fields@.len() == field_types().len(),
            forall|k: int| 0 <= k < fields@.len() ==> (#[trigger] fields@[k]).0@ == field_types()[k].0 && fields@[k].1@ == field_types()[k].1,
            f == (|m: Seq<Option<(usize, usize)>>| field_hit(*doc, m)),
            i <= cv.len(),
            hits_pushed(*doc, false, "structured_field"@, old_out, out@, collect_hits(cv.take(i as int), f)),
        decreases ms.len() - i,
    {
        assert(cv[i as int] == ms@[i as int]@);
        assert(cv.take(i + 1).drop_last() =~= cv.take(i as int));
        assert(cv.take(i + 1).last() == cv[i as int]);
        let ghost found = collect_hits(cv.take(i as int), f);
        let m = &ms[i];
        assert(m@ == cv[i as int]);
        if 2 < m.len() {
            match (m[1], m[2]) {
                (Some((ks, ke)), Some((vs, ve))) => {
                    assert(group_ok(b, cv[i as int][1]));
                    assert(group_ok(b, cv[i as int][2]));
                    let key = trim_chars(str_chars(match_str(doc, ks, ke)).as_slice());
                    let value = trim_chars(str_chars(match_str(doc, vs, ve)).as_slice());
                    if key.len() > 0 && value.len() > 0 {
                        let vlen = str_byte_len(string_from_chars(value.as_slice()).as_str());
                        if vlen <= 200 {
                            match lookup_field(&fields, &key) {
                                Some(t) => {
                                    push_hit(doc, out, t, false, "structured_field", vs, ve, 850, make_signals(false, true, false), Ghost(old_out), Ghost(found));
                                },
                                None => {},
                            }
                        }
                    }
                },
                _ => {},
            }
        }
        i += 1;
    }
    assert(cv.take(i as int) =~= cv);
}

impl StructuredFieldDetector {
    /// The kinds of data this detector reports.
    pub fn types(&self) -> (r: Vec<PdType>)
        ensures
            names_of(r@) == seq!["PASSPORT"@, "BIRTH_DATE"@, "BIRTH_PLACE"@, "PHONE"@, "EMAIL"@, "INN"@, "SNILS"@, "CARD_NUMBER"@, "CVV"@, "PIN"@, "CARD_HOLDER"@, "CITIZENSHIP"@, "ADDRESS"@, "DRIVER_LICENSE"@, "DIVISION_CODE"@, "PASSPORT_ISSUER"@, "FIO"@],
    {
        let names: Vec<&str> = vec!["PASSPORT", "BIRTH_DATE", "BIRTH_PLACE", "PHONE", "EMAIL", "INN", "SNILS", "CARD_NUMBER", "CVV", "PIN", "CARD_HOLDER", "CITIZENSHIP", "ADDRESS", "DRIVER_LICENSE", "DIVISION_CODE", "PASSPORT_ISSUER", "FIO"];
        let r = kinds(names);
        assert(literal_names(names@) =~= seq!["PASSPORT"@, "BIRTH_DATE"@, "BIRTH_PLACE"@, "PHONE"@, "EMAIL"@, "INN"@, "SNILS"@, "CARD_NUMBER"@, "CVV"@, "PIN"@, "CARD_HOLDER"@, "CITIZENSHIP"@, "ADDRESS"@, "DRIVER_LICENSE"@, "DIVISION_CODE"@, "PASSPORT_ISSUER"@, "FIO"@]);
        r
    }
}

} // verus!
