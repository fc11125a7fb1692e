//! The detectors of the pipeline, called the same way, and the step of the detection stage
//! that runs one of them.
use vstd::prelude::*;

use crate::config::model::names_of;
use crate::domain::document::Document;
use crate::domain::entity::Candidate;
use crate::domain::pd_type::PdType;
use crate::domain::traits::EffectivePolicy;
use crate::infra::pattern::{named_group, regex_captures};
use crate::service::detect::address::{
    address_comps, address_output, addresses_from, residence_text, sort_by_start, AddressDetector,
};
use crate::service::detect::card::{
    card_hit, group_hit, CardHolderDetector, CardNumberDetector, CvvDetector, PinDetector,
};
use crate::service::detect::citizenship::CitizenshipDetector;
use crate::service::detect::dates::{date_hits, DateDetector};
use crate::service::detect::documents::{
    birth_hit, issuer_hit, license_hit, BirthPlaceDetector, DriverLicenseDetector, PassportIssuerDetector,
};
use crate::service::detect::email::{email_hit, EmailDetector};
use crate::service::detect::fio::{appended, fio_from, toks_from, FioDetector};
use crate::service::detect::inn::{inn_hit, InnDetector};
use crate::service::detect::passport::{division_hit, DivisionCodeDetector, PassportDetector};
use crate::service::detect::phone::{phone_hits, PhoneDetector};
use crate::service::detect::snils::{snils_hit, SnilsDetector};
use crate::service::detect::structured::{field_hit, StructuredFieldDetector};
use crate::service::detect::{collect_hits, hits_pushed, relevant, relevant_spec, ConfigRegexDetector};

verus! {

/// One of the detectors.
pub enum Detector {
    Card(CardNumberDetector),
    Cvv(CvvDetector),
    Pin(PinDetector),
    Holder(CardHolderDetector),
    Inn(InnDetector),
    Passport(PassportDetector),
    Division(DivisionCodeDetector),
    Phone(PhoneDetector),
    Email(EmailDetector),
    Snils(SnilsDetector),
    Date(DateDetector),
    Address(AddressDetector),
    Citizenship(CitizenshipDetector),
    Fio(FioDetector),
    License(DriverLicenseDetector),
    BirthPlace(BirthPlaceDetector),
    Issuer(PassportIssuerDetector),
    Structured(StructuredFieldDetector),
    Config(ConfigRegexDetector),
}

impl Detector {
    /// What a run of the detector on `doc` appends to the candidates `before`, giving `after`.
    pub open spec fn detected(&self, doc: Document, before: Seq<Candidate>, after: Seq<Candidate>) -> bool {
        match self {
            Detector::Card(d) => hits_pushed(doc, false, "card_number"@, before, after, collect_hits(
                regex_captures(d.re@, doc.norm@),
                |m: Seq<Option<(usize, usize)>>| card_hit(doc, m),
            )),
            Detector::Cvv(d) => hits_pushed(doc, false, "cvv"@, before, after, collect_hits(
                regex_captures(d.re@, doc.norm@),
                |m: Seq<Option<(usize, usize)>>| group_hit(m, 2, PdType::CVV@),
            )),
            Detector::Pin(d) => hits_pushed(doc, false, "pin"@, before, after, collect_hits(
                regex_captures(d.re@, doc.norm@),
                |m: Seq<Option<(usize, usize)>>| group_hit(m, 4, PdType::PIN@),
            )),
            Detector::Holder(d) => hits_pushed(doc, false, "card_holder"@, before, after, collect_hits(
                regex_captures(d.re@, doc.norm@),
                |m: Seq<Option<(usize, usize)>>| group_hit(m, 2, PdType::CARD_HOLDER@),
            )),
            Detector::Inn(d) => hits_pushed(doc, true, "inn"@, before, after, collect_hits(
                regex_captures(d.re@, doc.norm@),
                |m: Seq<Option<(usize, usize)>>| inn_hit(doc, m),
            )),
            Detector::Passport(d) => exists|y: i32| #[trigger] d.reported_at(doc, y as int, before, after),
            Detector::Division(d) => hits_pushed(doc, false, "division_code"@, before, after, collect_hits(
                regex_captures(d.re@, doc.norm@),
                |m: Seq<Option<(usize, usize)>>| division_hit(doc, m),
            )),
            Detector::Phone(d) => hits_pushed(doc, false, "phone"@, before, after, phone_hits(
                doc,
                regex_captures(d.re_rf@, doc.norm@),
                regex_captures(d.re_intl@, doc.norm@),
            )),
            Detector::Email(d) => hits_pushed(doc, false, "email"@, before, after, collect_hits(
                regex_captures(d.re@, doc.norm@),
                |m: Seq<Option<(usize, usize)>>| email_hit(doc, m),
            )),
            Detector::Snils(d) => hits_pushed(doc, true, "snils"@, before, after, collect_hits(
                regex_captures(d.re@, doc.norm@),
                |m: Seq<Option<(usize, usize)>>| snils_hit(doc, m),
            )),
            Detector::Date(d) => hits_pushed(doc, false, "date"@, before, after, date_hits(
                doc,
                regex_captures(d.re_numeric@, doc.norm@),
                regex_captures(d.re_text@, doc.norm@),
            )),
            Detector::Address(d) => ({
                let s = sort_by_start(address_comps(
                    doc,
                    regex_captures(d.re_index@, doc.norm@),
                    regex_captures(d.re_region@, doc.norm@),
                    regex_captures(d.re_city@, doc.norm@),
                    regex_captures(d.re_street@, doc.norm@),
                    regex_captures(d.re_house@, doc.norm@),
                    regex_captures(d.re_flat@, doc.norm@),
                ));
                address_output(before, after, s, addresses_from(doc, s, 0, residence_text(doc.norm@)))
            }),
            Detector::Citizenship(d) => hits_pushed(doc, false, "citizenship"@, before, after, d.hits(
                doc,
                regex_captures(d.re_value@, doc.norm@),
                regex_captures(d.re_phrase@, doc.norm@),
            )),
            Detector::Fio(d) => appended(doc, before, after, fio_from(doc, toks_from(d.names(), doc, 0), 0)),
            Detector::License(d) => hits_pushed(doc, false, "driver_license"@, before, after, collect_hits(
                regex_captures(d.re@, doc.norm@),
                |m: Seq<Option<(usize, usize)>>| license_hit(doc, m),
            )),
            Detector::BirthPlace(d) => hits_pushed(doc, false, "birth_place"@, before, after, collect_hits(
                regex_captures(d.re_trigger@, doc.norm@),
                |m: Seq<Option<(usize, usize)>>| birth_hit(doc, d.cities@, d.countries@, m),
            )),
            Detector::Issuer(d) => hits_pushed(doc, false, "passport_issuer"@, before, after, collect_hits(
                regex_captures(d.re_trigger@, doc.norm@),
                |m: Seq<Option<(usize, usize)>>| issuer_hit(doc, d.authorities@, m),
            )),
            Detector::Structured(d) => hits_pushed(doc, false, "structured_field"@, before, after, collect_hits(
                regex_captures(d.re@, doc.norm@),
                |m: Seq<Option<(usize, usize)>>| field_hit(doc, m),
            )),
            Detector::Config(d) => d.reported(doc, named_group(d.re@, d.value_group@), regex_captures(d.re@, doc.norm@), before, after),
        }
    }

    /// The types the detector reports.
    pub open spec fn type_names(&self) -> Seq<Seq<char>> {
        match self {
            Detector::Card(d) => seq!["CARD_NUMBER"@],
            Detector::Cvv(d) => seq!["CVV"@],
            Detector::Pin(d) => seq!["PIN"@],
            Detector::Holder(d) => seq!["CARD_HOLDER"@],
            Detector::Inn(d) => seq!["INN"@, "ORG_INN"@],
            Detector::Passport(d) => seq!["PASSPORT"@],
            Detector::Division(d) => seq!["DIVISION_CODE"@],
            Detector::Phone(d) => seq!["PHONE"@],
            Detector::Email(d) => seq!["EMAIL"@],
            Detector::Snils(d) => seq!["SNILS"@],
            Detector::Date(d) => seq!["DATE"@, "BIRTH_DATE"@, "PASSPORT_ISSUE_DATE"@],
            Detector::Address(d) => seq!["ADDRESS"@, "ADDR_INDEX"@, "ADDR_REGION"@, "ADDR_CITY"@, "ADDR_STREET"@, "ADDR_HOUSE"@, "ADDR_FLAT"@],
            Detector::Citizenship(d) => seq!["CITIZENSHIP"@],
            Detector::Fio(d) => seq!["FIO"@],
            Detector::License(d) => seq!["DRIVER_LICENSE"@],
            Detector::BirthPlace(d) => seq!["BIRTH_PLACE"@],
            Detector::Issuer(d) => seq!["PASSPORT_ISSUER"@],
            Detector::Structured(d) => seq!["PASSPORT"@, "BIRTH_DATE"@, "BIRTH_PLACE"@, "PHONE"@, "EMAIL"@, "INN"@, "SNILS"@, "CARD_NUMBER"@, "CVV"@, "PIN"@, "CARD_HOLDER"@, "CITIZENSHIP"@, "ADDRESS"@, "DRIVER_LICENSE"@, "DIVISION_CODE"@, "PASSPORT_ISSUER"@, "FIO"@],
            Detector::Config(d) => seq![d.pd_type@],
        }
    }

    /// Runs the detector on the document, appending what it finds.
    pub fn detect(&self, doc: &Document<'_>, out: &mut Vec<Candidate>)
        requires
            doc.wf(),
        ensures
            self.detected(*doc, old(out)@, final(out)@),
    {
        match self {
            Detector::Card(d) => d.detect(doc, out),
            Detector::Cvv(d) => d.detect(doc, out),
            Detector::Pin(d) => d.detect(doc, out),
            Detector::Holder(d) => d.detect(doc, out),
            Detector::Inn(d) => d.detect(doc, out),
            Detector::Passport(d) => d.detect(doc, out),
            Detector::Division(d) => d.detect(doc, out),
            Detector::Phone(d) => d.detect(doc, out),
            Detector::Email(d) => d.detect(doc, out),
            Detector::Snils(d) => d.detect(doc, out),
            Detector::Date(d) => d.detect(doc, out),
            Detector::Address(d) => d.detect(doc, out),
            Detector::Citizenship(d) => d.detect(doc, out),
            Detector::Fio(d) => d.detect(doc, out),
            Detector::License(d) => d.detect(doc, out),
            Detector::BirthPlace(d) => d.detect(doc, out),
            Detector::Issuer(d) => d.detect(doc, out),
            Detector::Structured(d) => d.detect(doc, out),
            Detector::Config(d) => d.detect(doc, out),
        }
    }

    /// The types the detector reports.
    pub fn types(&self) -> (r: Vec<PdType>)
        ensures
            names_of(r@) == self.type_names(),
    {
        match self {
            Detector::Card(d) => d.types(),
            Detector::Cvv(d) => d.types(),
            Detector::Pin(d) => d.types(),
            Detector::Holder(d) => d.types(),
            Detector::Inn(d) => d.types(),
            Detector::Passport(d) => d.types(),
            Detector::Division(d) => d.types(),
            Detector::Phone(d) => d.types(),
            Detector::Email(d) => d.types(),
            Detector::Snils(d) => d.types(),
            Detector::Date(d) => d.types(),
            Detector::Address(d) => d.types(),
            Detector::Citizenship(d) => d.types(),
            Detector::Fio(d) => d.types(),
            Detector::License(d) => d.types(),
            Detector::BirthPlace(d) => d.types(),
            Detector::Issuer(d) => d.types(),
            Detector::Structured(d) => d.types(),
            Detector::Config(d) => d.types(),
        }
    }
}

/// One step of the detection stage: once the deadline has passed the stage stops (`true`)
/// and nothing is added; otherwise a detector with types worth running is run, and one
/// without is skipped.
pub fn detect_step(
    detector: &Detector,
    types: &Vec<PdType>,
    doc: &Document<'_>,
    policy: &EffectivePolicy,
    deadline_passed: bool,
    out: &mut Vec<Candidate>,
) -> (stop: bool)
    requires
        doc.wf(),
    ensures
        stop == deadline_passed,
        deadline_passed || !relevant_spec(types@, *policy) ==> final(out)@ == old(out)@,
        !deadline_passed && relevant_spec(types@, *policy) ==> detector.detected(*doc, old(out)@, final(out)@),
{
    if deadline_passed {
        return true;
    }
    if relevant(types, policy) {
        detector.detect(doc, out);
    }
    false
}

} // verus!
