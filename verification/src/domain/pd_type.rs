use vstd::prelude::*;

verus! {

/// Identifier of a kind of personal data. An open string identifier: new kinds
/// come from configuration without touching the code.
#[derive(Debug, PartialEq, Eq, Hash, PartialOrd, Ord)]
pub struct PdType(pub String);

impl View for PdType {
    type V = Seq<char>;

    open spec fn view(&self) -> Seq<char> {
        self.0@
    }
}

impl Clone for PdType {
    fn clone(&self) -> (r: Self)
        ensures
            r == *self,
    {
        PdType(self.0.clone())
    }
}

impl<'a> From<&'a str> for PdType {
    fn from(s: &'a str) -> (r: PdType)
        ensures
            r@ == s@,
    {
        PdType::new(s)
    }
}

impl<'a> vstd::std_specs::convert::FromSpecImpl<&'a str> for PdType {
    open spec fn obeys_from_spec() -> bool {
        false
    }

    open spec fn from_spec(s: &'a str) -> PdType {
        choose|p: PdType| p@ == s@
    }
}

impl PdType {
    pub const FIO: &'static str = "FIO";
    pub const BIRTH_DATE: &'static str = "BIRTH_DATE";
    pub const BIRTH_PLACE: &'static str = "BIRTH_PLACE";
    pub const PASSPORT: &'static str = "PASSPORT";
    pub const CITIZENSHIP: &'static str = "CITIZENSHIP";
    pub const PASSPORT_ISSUER: &'static str = "PASSPORT_ISSUER";
    pub const DIVISION_CODE: &'static str = "DIVISION_CODE";
    pub const PASSPORT_ISSUE_DATE: &'static str = "PASSPORT_ISSUE_DATE";
    pub const DRIVER_LICENSE: &'static str = "DRIVER_LICENSE";
    pub const ADDRESS: &'static str = "ADDRESS";
    pub const ADDR_COUNTRY: &'static str = "ADDR_COUNTRY";
    pub const ADDR_INDEX: &'static str = "ADDR_INDEX";
    pub const ADDR_REGION: &'static str = "ADDR_REGION";
    pub const ADDR_CITY: &'static str = "ADDR_CITY";
    pub const ADDR_STREET: &'static str = "ADDR_STREET";
    pub const ADDR_HOUSE: &'static str = "ADDR_HOUSE";
    pub const ADDR_FLAT: &'static str = "ADDR_FLAT";
    pub const EMAIL: &'static str = "EMAIL";
    pub const PHONE: &'static str = "PHONE";
    pub const INN: &'static str = "INN";
    pub const CARD_NUMBER: &'static str = "CARD_NUMBER";
    pub const CVV: &'static str = "CVV";
    pub const PIN: &'static str = "PIN";
    pub const CARD_HOLDER: &'static str = "CARD_HOLDER";
    pub const SNILS: &'static str = "SNILS";
    pub const FOREIGN_PASSPORT: &'static str = "FOREIGN_PASSPORT";
    pub const OMS_POLICY: &'static str = "OMS_POLICY";
    pub const BIRTH_CERT: &'static str = "BIRTH_CERT";
    pub const MILITARY_ID: &'static str = "MILITARY_ID";
    pub const DATE: &'static str = "DATE";
    pub const ORG_INN: &'static str = "ORG_INN";
    pub const UNCLASSIFIED_ID: &'static str = "UNCLASSIFIED_ID";

    pub fn new(s: &str) -> (r: PdType)
        ensures
            r@ == s@,
    {
        PdType(s.to_string())
    }

    pub fn as_str(&self) -> (r: &str)
        ensures
            r@ == self@,
    {
        self.0.as_str()
    }

    /// Same identifier.
    pub fn same(&self, other: &PdType) -> (r: bool)
        ensures
            r == (self@ == other@),
    {
        self.0 == other.0
    }

    /// The identifier equals `s`.
    pub fn is(&self, s: &str) -> (r: bool)
        ensures
            r == (self@ == s@),
    {
        crate::textops::str_eq(self.0.as_str(), s)
    }
}

} // verus!
