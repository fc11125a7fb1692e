//! Policy types shared by the pipeline stages.
use vstd::prelude::*;

use crate::domain::pd_type::PdType;
use crate::domain::type_map::TypeMap;
pub use crate::service::detect::validators::{ValidationResult, Validator};

verus! {

/// Kind of masking.
#[derive(Clone, Copy, Debug, PartialEq, Eq, Hash, Structural)]
pub enum MaskKind {
    Placeholder,
    Redact,
    Partial,
    Token,
    Synthetic,
    Hash,
}

impl crate::domain::type_map::ExactClone for MaskKind {
    fn exact_clone(&self) -> (r: Self) {
        *self
    }
}

/// Result of masking one value.
pub struct MaskOutput {
    pub replacement: String,
    pub key: Option<String>,
}

/// Encrypted mapping "mask → original".
pub struct EncryptedMapping {
    pub nonce: Vec<u8>,
    pub ciphertext: Vec<u8>,
}

impl Clone for EncryptedMapping {
    fn clone(&self) -> (r: Self)
        ensures
            r.nonce@ == self.nonce@,
            r.ciphertext@ == self.ciphertext@,
    {
        EncryptedMapping { nonce: self.nonce.clone(), ciphertext: self.ciphertext.clone() }
    }
}

/// What to do with a request.
#[derive(Clone, Copy, Debug, PartialEq, Eq, Structural)]
pub enum PolicyAction {
    Mask,
    Bypass,
    Block,
}

/// Whether identifiers of unclear type are masked.
#[derive(Clone, Copy, Debug, PartialEq, Eq, Structural)]
pub enum AmbiguousIdsMode {
    Skip,
    Mask,
}

/// Whether an address is masked whole or by components.
#[derive(Clone, Copy, Debug, PartialEq, Eq, Structural)]
pub enum AddressMode {
    Whole,
    Components,
}

/// What happens when named-entity recognition fails.
#[derive(Clone, Copy, Debug, PartialEq, Eq, Structural)]
pub enum NerOnFailure {
    Degrade,
    Fail,
}

/// Scope of a co-occurrence rule.
#[derive(Clone, Copy, Debug, PartialEq, Eq, Structural)]
pub enum CombinationScope {
    Document,
    Window,
}

/// A co-occurrence rule for one type.
pub struct CombinationRuleConfig {
    pub requires_any: Vec<PdType>,
    pub requires_all: Vec<PdType>,
    pub scope: CombinationScope,
    pub window_chars: usize,
}

/// Co-occurrence rules of a policy.
pub struct CombinationConfig {
    pub rules: TypeMap<CombinationRuleConfig>,
    pub min_distinct_types: usize,
    pub always_mask: Vec<PdType>,
}

impl CombinationConfig {
    pub fn empty() -> (r: CombinationConfig)
        ensures
            r.rules.wf(),
            r.rules.entries@.len() == 0,
            r.min_distinct_types == 0,
            r.always_mask@.len() == 0,
    {
        CombinationConfig { rules: TypeMap::new(), min_distinct_types: 0, always_mask: Vec::new() }
    }
}

/// The policy in force for one request. Thresholds are in thousandths.
pub struct EffectivePolicy {
    pub action: PolicyAction,
    pub types: Vec<PdType>,
    pub demask: bool,
    pub ambiguous_ids: AmbiguousIdsMode,
    pub placeholder_format: String,
    pub labels: TypeMap<String>,
    pub thresholds: TypeMap<u32>,
    pub priorities: TypeMap<i32>,
    pub mask_kinds: TypeMap<MaskKind>,
    pub address_mode: AddressMode,
    pub ner_enabled: bool,
    pub ner_types: Vec<PdType>,
    pub ner_on_failure: NerOnFailure,
    /// Limit of named-entity windows per request.
    pub max_windows_per_request: usize,
    /// Words that open a named-entity window.
    pub trigger_words: Vec<String>,
    pub filters: Vec<String>,
    pub combination: CombinationConfig,
    pub json_paths: Vec<String>,
    pub response_json_paths: Vec<String>,
}

impl EffectivePolicy {
    /// The maps of the policy are well formed.
    pub open spec fn wf(&self) -> bool {
        &&& self.labels.wf()
        &&& self.thresholds.wf()
        &&& self.priorities.wf()
        &&& self.mask_kinds.wf()
        &&& self.combination.rules.wf()
    }

    /// The type is one the policy masks.
    pub open spec fn masks(&self, t: Seq<char>) -> bool {
        exists|i: int| 0 <= i < self.types@.len() && #[trigger] self.types@[i]@ == t
    }

    /// An empty policy: mask nothing, no demasking, default enums.
    pub fn empty() -> (r: EffectivePolicy)
        ensures
            r.wf(),
            r.action == PolicyAction::Mask,
            r.types@.len() == 0,
            !r.demask,
            r.address_mode == AddressMode::Whole,
            !r.ner_enabled,
            r.max_windows_per_request == 0,
            r.labels.entries@.len() == 0,
            r.thresholds.entries@.len() == 0,
            r.priorities.entries@.len() == 0,
            r.mask_kinds.entries@.len() == 0,
            r.combination.rules.entries@.len() == 0,
            r.combination.min_distinct_types == 0,
    {
        EffectivePolicy {
            action: PolicyAction::Mask,
            types: Vec::new(),
            demask: false,
            ambiguous_ids: AmbiguousIdsMode::Skip,
            placeholder_format: String::new(),
            labels: TypeMap::new(),
            thresholds: TypeMap::new(),
            priorities: TypeMap::new(),
            mask_kinds: TypeMap::new(),
            address_mode: AddressMode::Whole,
            ner_enabled: false,
            ner_types: Vec::new(),
            ner_on_failure: NerOnFailure::Degrade,
            max_windows_per_request: 0,
            trigger_words: Vec::new(),
            filters: Vec::new(),
            combination: CombinationConfig::empty(),
            json_paths: Vec::new(),
            response_json_paths: Vec::new(),
        }
    }

    /// Does the policy mask this type?
    pub fn has_type(&self, t: &PdType) -> (r: bool)
        ensures
            r == self.masks(t@),
    {
        let mut i: usize = 0;
        while i < self.types.len()
            invariant
                i <= self.types@.len(),
                forall|j: int| 0 <= j < i ==> (#[trigger] self.types@[j])@ != t@,
            decreases self.types.len() - i,
        {
            if self.types[i].same(t) {
                return true;
            }
            i += 1;
        }
        false
    }
}

} // verus!
