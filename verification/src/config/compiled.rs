//! The compiled configuration: what the loader derives once from the configuration file.
use vstd::prelude::*;

use crate::config::model::{Config, SystemConfig};
use crate::domain::pd_type::PdType;
use crate::infra::pattern::Pattern;
use crate::domain::traits::EffectivePolicy;
use crate::domain::type_map::{StrMap, TypeMap};

verus! {

/// The maps of a system's settings have no key twice.
pub open spec fn system_wf(s: SystemConfig) -> bool {
    &&& s.route_overrides.wf()
    &&& (s.overrides matches Some(o) ==> o.types.wf() && o.combination.rules.wf())
    &&& forall|i: int| 0 <= i < s.route_overrides.entries@.len() ==> (#[trigger] s.route_overrides.entries@[i]).1.types.wf()
        && (s.route_overrides.entries@[i].1.combination matches Some(c) ==> c.rules.wf())
}

/// The maps of a configuration have no key twice.
pub open spec fn config_wf(c: Config) -> bool {
    &&& c.profiles.wf()
    &&& c.systems.wf()
    &&& c.pd_types.wf()
    &&& c.upstreams.wf()
    &&& forall|i: int| 0 <= i < c.profiles.entries@.len() ==> (#[trigger] c.profiles.entries@[i]).1.types.wf()
        && c.profiles.entries@[i].1.combination.rules.wf()
    &&& forall|i: int| 0 <= i < c.systems.entries@.len() ==> system_wf(#[trigger] c.systems.entries@[i].1)
    &&& forall|i: int| 0 <= i < c.routes@.len() ==> (#[trigger] c.routes@[i]).request.types_override.wf()
        && c.routes@[i].route_match.header.wf()
}

/// The configuration with everything derived from it: detector settings, dictionaries,
/// per-type labels, priorities and thresholds (thousandths), resolved secrets, and the
/// policies of every system and route.
pub struct CompiledConfig {
    pub version: u64,
    pub raw: Config,
    /// Compiled pattern of each configured detector.
    pub detector_regexes: TypeMap<Pattern>,
    pub detector_value_groups: TypeMap<String>,
    pub detector_base_scores: TypeMap<u32>,
    /// Positive and negative context words of each configured detector.
    pub detector_context: TypeMap<(Vec<String>, Vec<String>)>,
    pub first_names: Vec<String>,
    pub public_persons: Vec<Vec<String>>,
    pub bank_offices: Vec<String>,
    pub bank_phones: Vec<String>,
    pub countries: Vec<String>,
    pub cities: Vec<String>,
    pub issuing_authorities: Vec<String>,
    /// Policies by system and optional route.
    pub policies: Vec<(String, Option<String>, EffectivePolicy)>,
    pub labels: TypeMap<String>,
    pub priorities: TypeMap<i32>,
    pub thresholds: TypeMap<u32>,
    pub master_key_b64: String,
    pub admin_token_sha256: String,
    pub system_keys: StrMap<String>,
    /// System key digests as 32 raw bytes, where the hex was well formed.
    pub system_key_bytes: StrMap<Vec<u8>>,
    pub placeholder_format: String,
    pub default_action: String,
}

impl CompiledConfig {
    /// The maps have no key twice.
    pub open spec fn wf(&self) -> bool {
        &&& self.labels.wf()
        &&& self.priorities.wf()
        &&& self.thresholds.wf()
        &&& config_wf(self.raw)
    }

    /// The label of a type: the configured one, else the type's name.
    pub fn label(&self, t: &PdType) -> (r: String)
        ensures
            r@ == match self.labels.get_spec(t@) {
                Some(l) => l@,
                None => t@,
            },
    {
        match self.labels.get(t) {
            Some(l) => l.clone(),
            None => t.as_str().to_string(),
        }
    }

    /// The priority of a type (50 when none is configured).
    pub fn priority(&self, t: &PdType) -> (r: i32)
        ensures
            r == match self.priorities.get_spec(t@) {
                Some(p) => p,
                None => 50,
            },
    {
        match self.priorities.get(t) {
            Some(p) => *p,
            None => 50,
        }
    }

    /// The threshold of a type in thousandths (600 when none is configured).
    pub fn threshold(&self, t: &PdType) -> (r: u32)
        ensures
            r == match self.thresholds.get_spec(t@) {
                Some(v) => v,
                None => 600,
            },
    {
        match self.thresholds.get(t) {
            Some(v) => *v,
            None => 600,
        }
    }
}

} // verus!
