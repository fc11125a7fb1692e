//! Validation of the configuration and resolution of the policy in force for a system and
//! route.
use vstd::prelude::*;

use crate::config::model::{
    clone_combination, clone_profile, profile_equiv, clone_rule, clone_strings, clone_types, names_of, opt_str, rule_entry, rule_view,
    strings_of, CombinationConfig as ModelCombination, CombinationRuleConfig as ModelRule,
    Config, ProfileConfig, RouteConfig, RouteOverrideConfig, RuleView, SystemConfig,
    TypeMaskConfig,
};
use crate::domain::type_map::lookup_in;
use crate::domain::pd_type::PdType;
use crate::config::compiled::{system_wf, CompiledConfig};
use crate::domain::traits::{
    AddressMode, AmbiguousIdsMode, CombinationConfig as DomainCombination,
    CombinationRuleConfig as DomainRule, CombinationScope, EffectivePolicy, MaskKind,
    NerOnFailure, PolicyAction,
};
use crate::domain::type_map::{lemma_lookup_absent, lemma_lookup_found, unique_keys, StrMap, TypeMap};
use crate::config::model::{DetectorConfig, PdTypeConfig};
use crate::infra::pattern::{regex_valid, Pattern};
use vstd::utf8::encode_utf8;
use crate::textops::{
    decimal_spec, occurs_at_exec, push_decimal, push_str, seq_starts_with, split_on, str_chars,
    str_eq, string_from_chars, trim_chars, trim_spec,
};
use vstd::string::StringSliceAdditionalSpecFns;

verus! {

/// Why a configuration was refused.
#[derive(Debug)]
pub enum ConfigError {
    Parse(String),
    Validation { path: String, msg: String },
    Resource(String),
    Io(String),
}

impl ConfigError {
    /// The text of the error.
    pub fn message(&self) -> (r: String)
        ensures
            r@ == match self {
                ConfigError::Parse(d) => "config parse error: "@ + d@,
                ConfigError::Validation { path, msg } => "config validation error at "@ + path@ + ": "@ + msg@,
                ConfigError::Resource(d) => "resource load error: "@ + d@,
                ConfigError::Io(d) => "io error: "@ + d@,
            },
    {
        let mut s = String::new();
        match self {
            ConfigError::Parse(d) => {
                push_str(&mut s, "config parse error: ");
                push_str(&mut s, d.as_str());
            },
            ConfigError::Validation { path, msg } => {
                push_str(&mut s, "config validation error at ");
                push_str(&mut s, path.as_str());
                push_str(&mut s, ": ");
                push_str(&mut s, msg.as_str());
            },
            ConfigError::Resource(d) => {
                push_str(&mut s, "resource load error: ");
                push_str(&mut s, d.as_str());
            },
            ConfigError::Io(d) => {
                push_str(&mut s, "io error: ");
                push_str(&mut s, d.as_str());
            },
        }
        s
    }
}

/// Why no policy applies to a request.
#[derive(Debug, Clone, Copy, PartialEq, Eq, Structural)]
pub enum PolicyError {
    UnknownSystem,
    SystemDisabled,
    RouteForbidden,
}

impl PolicyError {
    /// The text of the error.
    pub fn message(&self) -> (r: &'static str)
        ensures
            r@ == match self {
                PolicyError::UnknownSystem => "unknown system"@,
                PolicyError::SystemDisabled => "system disabled"@,
                PolicyError::RouteForbidden => "route forbidden for system"@,
            },
    {
        match self {
            PolicyError::UnknownSystem => "unknown system",
            PolicyError::SystemDisabled => "system disabled",
            PolicyError::RouteForbidden => "route forbidden for system",
        }
    }
}

// ---------------------------------------------------------------- mask kinds and address components

/// The mask kind a word names (placeholder for any other word, or none).
pub open spec fn mask_kind_spec(m: Option<Seq<char>>) -> MaskKind {
    match m {
        Some(s) => if s == "redact"@ {
            MaskKind::Redact
        } else if s == "partial"@ {
            MaskKind::Partial
        } else if s == "token"@ {
            MaskKind::Token
        } else if s == "synthetic"@ {
            MaskKind::Synthetic
        } else if s == "hash"@ {
            MaskKind::Hash
        } else {
            MaskKind::Placeholder
        },
        None => MaskKind::Placeholder,
    }
}

/// The value of an optional string.
pub open spec fn opt_chars(o: Option<String>) -> Option<Seq<char>> {
    match o {
        Some(s) => Some(s@),
        None => None,
    }
}

/// The mask kind a word names.
pub fn mask_kind_from(m: &Option<String>) -> (k: MaskKind)
    ensures
        k == mask_kind_spec(opt_chars(*m)),
{
    match m {
        Some(s) => {
            let w = s.as_str();
            if str_eq(w, "redact") {
                MaskKind::Redact
            } else if str_eq(w, "partial") {
                MaskKind::Partial
            } else if str_eq(w, "token") {
                MaskKind::Token
            } else if str_eq(w, "synthetic") {
                MaskKind::Synthetic
            } else if str_eq(w, "hash") {
                MaskKind::Hash
            } else {
                MaskKind::Placeholder
            }
        },
        None => MaskKind::Placeholder,
    }
}

/// The address components, in order.
pub open spec fn address_components() -> Seq<Seq<char>> {
    seq![
        PdType::ADDR_COUNTRY@,
        PdType::ADDR_INDEX@,
        PdType::ADDR_REGION@,
        PdType::ADDR_CITY@,
        PdType::ADDR_STREET@,
        PdType::ADDR_HOUSE@,
        PdType::ADDR_FLAT@,
    ]
}

/// The names of a list of types.
pub open spec fn type_names(v: Seq<PdType>) -> Seq<Seq<char>> {
    Seq::new(v.len(), |i: int| v[i]@)
}

/// `names` followed by each of `add` that it does not hold yet, in order.
pub open spec fn add_missing(names: Seq<Seq<char>>, add: Seq<Seq<char>>) -> Seq<Seq<char>>
    decreases add.len(),
{
    if add.len() == 0 {
        names
    } else {
        let prev = add_missing(names, add.drop_last());
        if prev.contains(add.last()) {
            prev
        } else {
            prev.push(add.last())
        }
    }
}

/// All fields but the types, mask kinds and address mode are the same.
pub open spec fn same_but_types(a: EffectivePolicy, b: EffectivePolicy) -> bool {
    &&& a.action == b.action
    &&& a.demask == b.demask
    &&& a.ambiguous_ids == b.ambiguous_ids
    &&& a.placeholder_format == b.placeholder_format
    &&& a.labels == b.labels
    &&& a.thresholds == b.thresholds
    &&& a.priorities == b.priorities
    &&& a.ner_enabled == b.ner_enabled
    &&& a.ner_types == b.ner_types
    &&& a.ner_on_failure == b.ner_on_failure
    &&& a.max_windows_per_request == b.max_windows_per_request
    &&& a.trigger_words == b.trigger_words
    &&& a.filters == b.filters
    &&& a.combination == b.combination
    &&& a.json_paths == b.json_paths
    &&& a.response_json_paths == b.response_json_paths
}

fn add_type(types: &mut Vec<PdType>, t: &PdType)
    ensures
        type_names(final(types)@) == if type_names(old(types)@).contains(t@) {
            type_names(old(types)@)
        } else {
            type_names(old(types)@).push(t@)
        },
{
    let mut i: usize = 0;
    while i < types.len()
        invariant
            i <= types@.len(),
            forall|j: int| 0 <= j < i ==> (#[trigger] types@[j])@ != t@,
        decreases types.len() - i,
    {
        if types[i].same(t) {
            assert(type_names(types@)[i as int] == t@);
            return;
        }
        i += 1;
    }
    proof {
        assert forall|j: int| 0 <= j < type_names(types@).len() implies #[trigger] type_names(types@)[j] != t@ by {
            assert(type_names(types@)[j] == types@[j]@);
        }
    }
    let ghost before = types@;
    types.push(t.clone());
    assert(type_names(types@) =~= type_names(before).push(t@));
}

/// With component mode and the address among the types, adds the address components to
/// the types (those missing), each masked as the address when it has no kind of its own.
pub fn enable_address_components(ep: &mut EffectivePolicy)
    requires
        old(ep).mask_kinds.wf(),
    ensures
        same_but_types(*final(ep), *old(ep)),
        final(ep).address_mode == old(ep).address_mode,
        final(ep).mask_kinds.wf(),
        !(old(ep).address_mode == AddressMode::Components && type_names(old(ep).types@).contains(
            PdType::ADDRESS@,
        )) ==> final(ep).types == old(ep).types && final(ep).mask_kinds == old(ep).mask_kinds,
        old(ep).address_mode == AddressMode::Components && type_names(old(ep).types@).contains(
            PdType::ADDRESS@,
        ) ==> ({
            let kind = match old(ep).mask_kinds.get_spec(PdType::ADDRESS@) {
                Some(k) => k,
                None => MaskKind::Placeholder,
            };
            &&& type_names(final(ep).types@) == add_missing(type_names(old(ep).types@), address_components())
            &&& forall|t: Seq<char>| #[trigger] final(ep).mask_kinds.get_spec(t) == if address_components().contains(t)
                && old(ep).mask_kinds.get_spec(t) is None {
                Some(kind)
            } else {
                old(ep).mask_kinds.get_spec(t)
            }
        }),
{
    let components = match ep.address_mode {
        AddressMode::Components => true,
        AddressMode::Whole => false,
    };
    if !components {
        return;
    }
    let address = PdType::new(PdType::ADDRESS);
    if !ep.has_type(&address) {
        proof {
            if type_names(ep.types@).contains(PdType::ADDRESS@) {
                let j = choose|j: int| 0 <= j < type_names(ep.types@).len() && #[trigger] type_names(ep.types@)[j] == PdType::ADDRESS@;
                assert(ep.types@[j]@ == PdType::ADDRESS@);
            }
        }
        return;
    }
    proof {
        let j = choose|j: int| 0 <= j < ep.types@.len() && #[trigger] ep.types@[j]@ == address@;
        assert(type_names(ep.types@)[j] == PdType::ADDRESS@);
    }
    let kind = match ep.mask_kinds.get(&address) {
        Some(k) => *k,
        None => MaskKind::Placeholder,
    };
    let names: Vec<&str> = vec![
        PdType::ADDR_COUNTRY,
        PdType::ADDR_INDEX,
        PdType::ADDR_REGION,
        PdType::ADDR_CITY,
        PdType::ADDR_STREET,
        PdType::ADDR_HOUSE,
        PdType::ADDR_FLAT,
    ];
    assert(names@.len() == 7);
    let ghost start_types = type_names(ep.types@);
    let ghost start_kinds = ep.mask_kinds;
    let ghost comps = address_components();
    let mut i: usize = 0;
    while i < names.len()
        invariant
            names@.len() == 7,
            comps == address_components(),
            forall|j: int| 0 <= j < 7 ==> (#[trigger] names@[j])@ == comps[j],
            i <= 7,
            ep.mask_kinds.wf(),
            type_names(ep.types@) == add_missing(start_types, comps.take(i as int)),
            forall|t: Seq<char>| #[trigger] ep.mask_kinds.get_spec(t) == if comps.take(i as int).contains(t)
                && start_kinds.get_spec(t) is None {
                Some(kind)
            } else {
                start_kinds.get_spec(t)
            },
            same_but_types(*ep, *old(ep)),
            ep.address_mode == old(ep).address_mode,
        decreases 7 - i,
    {
        let t = PdType::new(names[i]);
        assert(comps.take(i + 1).drop_last() =~= comps.take(i as int));
        assert(comps.take(i + 1).last() == comps[i as int]);
        add_type(&mut ep.types, &t);
        if !ep.mask_kinds.contains_key(&t) {
            ep.mask_kinds.insert(t, kind);
        }
        proof {
            assert forall|x: Seq<char>| #[trigger] comps.take(i + 1).contains(x) == (comps.take(i as int).contains(x) || x == comps[i as int]) by {
                if comps.take(i + 1).contains(x) {
                    let j = choose|j: int| 0 <= j < i + 1 && #[trigger] comps.take(i + 1)[j] == x;
                    if j < i {
                        assert(comps.take(i as int)[j] == x);
                    }
                }
                if comps.take(i as int).contains(x) {
                    let j = choose|j: int| 0 <= j < i && #[trigger] comps.take(i as int)[j] == x;
                    assert(comps.take(i + 1)[j] == x);
                }
                if x == comps[i as int] {
                    assert(comps.take(i + 1)[i as int] == x);
                }
            }
        }
        i += 1;
    }
    assert(comps.take(7) =~= comps);
}

// ---------------------------------------------------------------- merging profiles

/// The type entry after merging: an override entry wins (a disabled one removes the type).
pub open spec fn merged_type(base: Option<TypeMaskConfig>, ov: Option<TypeMaskConfig>) -> Option<TypeMaskConfig> {
    match ov {
        Some(tm) => if tm.disabled == Some(true) {
            None
        } else {
            Some(tm)
        },
        None => base,
    }
}

/// The rule entry after merging: an override entry wins (one set to nothing removes the rule).
pub open spec fn merged_rule(base: Option<Option<RuleView>>, ov: Option<Option<ModelRule>>) -> Option<Option<RuleView>> {
    match ov {
        Some(None) => None,
        Some(Some(r)) => Some(Some(rule_view(r))),
        None => base,
    }
}

/// Merges a profile override into a profile: per type and per rule the override wins,
/// lists replace when not empty, flags and options apply when set.
pub fn deep_merge_profile(base: &mut ProfileConfig, ov: &ProfileConfig)
    requires
        old(base).types.wf(),
        old(base).combination.rules.wf(),
        ov.types.wf(),
        ov.combination.rules.wf(),
    ensures
        final(base).types.wf(),
        forall|t: Seq<char>| #[trigger] final(base).types.get_spec(t) == merged_type(old(base).types.get_spec(t), ov.types.get_spec(t)),
        final(base).ner.enabled == (old(base).ner.enabled || ov.ner.enabled),
        names_of(final(base).ner.types@) == if ov.ner.types@.len() > 0 {
            names_of(ov.ner.types@)
        } else {
            names_of(old(base).ner.types@)
        },
        opt_str(final(base).ner.on_failure) == if ov.ner.on_failure is Some {
            opt_str(ov.ner.on_failure)
        } else {
            opt_str(old(base).ner.on_failure)
        },
        strings_of(final(base).filters@) == if ov.filters@.len() > 0 {
            strings_of(ov.filters@)
        } else {
            strings_of(old(base).filters@)
        },
        final(base).combination.min_distinct_types == if ov.combination.min_distinct_types != 0 {
            ov.combination.min_distinct_types
        } else {
            old(base).combination.min_distinct_types
        },
        names_of(final(base).combination.always_mask@) == if ov.combination.always_mask@.len() > 0 {
            names_of(ov.combination.always_mask@)
        } else {
            names_of(old(base).combination.always_mask@)
        },
        final(base).combination.rules.wf(),
        forall|t: Seq<char>| #[trigger] rule_entry(final(base).combination.rules, t) == merged_rule(
            rule_entry(old(base).combination.rules, t),
            ov.combination.rules.get_spec(t),
        ),
        opt_str(final(base).ambiguous_ids) == if ov.ambiguous_ids is Some {
            opt_str(ov.ambiguous_ids)
        } else {
            opt_str(old(base).ambiguous_ids)
        },
        final(base).demask == if ov.demask is Some {
            ov.demask
        } else {
            old(base).demask
        },
{
    let ghost old_types = base.types;
    let mut i: usize = 0;
    while i < ov.types.entries.len()
        invariant
            ov.types.wf(),
            base.types.wf(),
            i <= ov.types.entries@.len(),
            base.combination == old(base).combination,
            base.ner == old(base).ner,
            base.filters == old(base).filters,
            base.ambiguous_ids == old(base).ambiguous_ids,
            base.demask == old(base).demask,
            forall|t: Seq<char>| #[trigger] base.types.get_spec(t) == merged_type(
                old_types.get_spec(t),
                lookup_in(ov.types.entries@.take(i as int), t),
            ),
        decreases ov.types.entries.len() - i,
    {
        let t = ov.types.entries[i].0.clone();
        let tm = &ov.types.entries[i].1;
        assert(ov.types.entries@.take(i + 1).drop_last() =~= ov.types.entries@.take(i as int));
        if tm.disabled == Some(true) {
            base.types.remove(&t);
        } else {
            base.types.insert(t, tm.clone());
        }
        i += 1;
    }
    assert(ov.types.entries@.take(ov.types.entries@.len() as int) =~= ov.types.entries@);
    if ov.ner.enabled {
        base.ner.enabled = true;
    }
    if ov.ner.types.len() > 0 {
        base.ner.types = clone_types(&ov.ner.types);
    }
    match &ov.ner.on_failure {
        Some(of) => {
            base.ner.on_failure = Some(of.clone());
        },
        None => {},
    }
    if ov.filters.len() > 0 {
        base.filters = clone_strings(&ov.filters);
    }
    if ov.combination.min_distinct_types != 0 {
        base.combination.min_distinct_types = ov.combination.min_distinct_types;
    }
    if ov.combination.always_mask.len() > 0 {
        base.combination.always_mask = clone_types(&ov.combination.always_mask);
    }
    let ghost old_rules = base.combination.rules;
    let ghost mid = *base;
    let mut j: usize = 0;
    while j < ov.combination.rules.entries.len()
        invariant
            ov.combination.rules.wf(),
            base.combination.rules.wf(),
            j <= ov.combination.rules.entries@.len(),
            base.types == mid.types,
            base.ner == mid.ner,
            base.filters == mid.filters,
            base.ambiguous_ids == mid.ambiguous_ids,
            base.demask == mid.demask,
            base.combination.min_distinct_types == mid.combination.min_distinct_types,
            base.combination.always_mask == mid.combination.always_mask,
            forall|t: Seq<char>| #[trigger] rule_entry(base.combination.rules, t) == merged_rule(
                rule_entry(old_rules, t),
                lookup_in(ov.combination.rules.entries@.take(j as int), t),
            ),
        decreases ov.combination.rules.entries.len() - j,
    {
        let t = ov.combination.rules.entries[j].0.clone();
        assert(ov.combination.rules.entries@.take(j + 1).drop_last() =~= ov.combination.rules.entries@.take(j as int));
        let ghost pre = base.combination.rules;
        let ghost entries = ov.combination.rules.entries@;
        assert(forall|x: Seq<char>| #[trigger] rule_entry(pre, x) == merged_rule(
            rule_entry(old_rules, x),
            lookup_in(entries.take(j as int), x),
        ));
        proof {
            let tk = entries.take(j + 1);
            assert(tk.last() == entries[j as int]);
            assert(tk.drop_last() =~= entries.take(j as int));
        }
        match &ov.combination.rules.entries[j].1 {
            None => {
                base.combination.rules.remove(&t);
                proof {
                    assert forall|x: Seq<char>| #[trigger] rule_entry(base.combination.rules, x) == merged_rule(
                        rule_entry(old_rules, x),
                        lookup_in(entries.take(j + 1), x),
                    ) by {
                        assert(lookup_in(entries.take(j + 1), x) == if entries[j as int].0@ == x {
                            Some(entries[j as int].1)
                        } else {
                            lookup_in(entries.take(j as int), x)
                        });
                        assert(rule_entry(pre, x) == merged_rule(
                            rule_entry(old_rules, x),
                            lookup_in(entries.take(j as int), x),
                        ));
                        if x != entries[j as int].0@ {
                            assert(base.combination.rules.get_spec(x) == pre.get_spec(x));
                        }
                    }
                }
            },
            Some(r) => {
                let c = clone_rule(r);
                assert(rule_view(c) == rule_view(*r));
                base.combination.rules.insert(t, Some(c));
                proof {
                    assert forall|x: Seq<char>| #[trigger] rule_entry(base.combination.rules, x) == merged_rule(
                        rule_entry(old_rules, x),
                        lookup_in(entries.take(j + 1), x),
                    ) by {
                        assert(lookup_in(entries.take(j + 1), x) == if entries[j as int].0@ == x {
                            Some(entries[j as int].1)
                        } else {
                            lookup_in(entries.take(j as int), x)
                        });
                        assert(rule_entry(pre, x) == merged_rule(
                            rule_entry(old_rules, x),
                            lookup_in(entries.take(j as int), x),
                        ));
                        if x != entries[j as int].0@ {
                            assert(base.combination.rules.get_spec(x) == pre.get_spec(x));
                        }
                    }
                }
            },
        }
        j += 1;
    }
    assert(ov.combination.rules.entries@.take(ov.combination.rules.entries@.len() as int) =~= ov.combination.rules.entries@);
    match &ov.ambiguous_ids {
        Some(a) => {
            base.ambiguous_ids = Some(a.clone());
        },
        None => {},
    }
    match ov.demask {
        Some(d) => {
            base.demask = Some(d);
        },
        None => {},
    }
}

// ---------------------------------------------------------------- the effective policy

/// The action a word names (mask for any other word).
pub open spec fn action_spec(a: Seq<char>) -> PolicyAction {
    if a == "bypass"@ {
        PolicyAction::Bypass
    } else if a == "block"@ {
        PolicyAction::Block
    } else {
        PolicyAction::Mask
    }
}

/// A type entry that is present and not disabled.
pub open spec fn enabled_entry(o: Option<TypeMaskConfig>) -> bool {
    o matches Some(tm) && tm.disabled != Some(true)
}

/// The names of the enabled types of a profile, in order.
pub open spec fn enabled_names(e: Seq<(PdType, TypeMaskConfig)>) -> Seq<Seq<char>>
    decreases e.len(),
{
    if e.len() == 0 {
        Seq::empty()
    } else if e.last().1.disabled != Some(true) {
        enabled_names(e.drop_last()).push(e.last().0@)
    } else {
        enabled_names(e.drop_last())
    }
}

/// The mask kind of an entry, when enabled.
pub open spec fn entry_kind(o: Option<TypeMaskConfig>) -> Option<MaskKind> {
    match o {
        Some(tm) => if tm.disabled != Some(true) {
            Some(mask_kind_spec(opt_str(tm.mask)))
        } else {
            None
        },
        None => None,
    }
}

/// Some enabled entry asks for addresses by components.
pub open spec fn wants_components(e: Seq<(PdType, TypeMaskConfig)>) -> bool {
    exists|j: int|
        0 <= j < e.len() && (#[trigger] e[j]).1.disabled != Some(true) && opt_str(e[j].1.mode) == Some(
            "components"@,
        )
}

/// The value of a rule of the effective policy.
pub open spec fn domain_rule_view(r: DomainRule) -> RuleView {
    RuleView {
        requires_any: names_of(r.requires_any@),
        requires_all: names_of(r.requires_all@),
        scope: match r.scope {
            CombinationScope::Window => Some("window"@),
            CombinationScope::Document => None,
        },
        window_chars: r.window_chars,
    }
}

/// The rule a written rule becomes: `window` scope or document scope.
pub open spec fn converted_rule(r: RuleView) -> RuleView {
    RuleView { scope: if r.scope == Some("window"@) { Some("window"@) } else { None }, ..r }
}

/// The effective rule of a type, as a value.
pub open spec fn effective_rule(m: TypeMap<DomainRule>, t: Seq<char>) -> Option<RuleView> {
    match m.get_spec(t) {
        Some(r) => Some(domain_rule_view(r)),
        None => None,
    }
}

fn convert_rule(r: &ModelRule) -> (d: DomainRule)
    ensures
        domain_rule_view(d) == converted_rule(rule_view(*r)),
{
    let scope = match &r.scope {
        Some(s) => if str_eq(s.as_str(), "window") {
            CombinationScope::Window
        } else {
            CombinationScope::Document
        },
        None => CombinationScope::Document,
    };
    proof {
        reveal_strlit("window");
    }
    DomainRule {
        requires_any: clone_types(&r.requires_any),
        requires_all: clone_types(&r.requires_all),
        scope,
        window_chars: r.window_chars,
    }
}

proof fn lemma_absent_before(e: Seq<(PdType, TypeMaskConfig)>, i: int)
    requires
        unique_keys(e),
        0 <= i < e.len(),
    ensures
        lookup_in(e.take(i), e[i].0@) is None,
{
    let d = e.take(i);
    assert forall|j: int| 0 <= j < d.len() implies (#[trigger] d[j]).0@ != e[i].0@ by {
        assert(d[j] == e[j]);
    }
    lemma_lookup_absent(d, e[i].0@);
}

/// The policy made of a merged profile: the enabled types with their mask kinds (address
/// components added in component mode), the profile's recognition settings, filters and
/// rules, and the configuration's labels, thresholds, priorities and format.
pub fn build_effective(cfg: &CompiledConfig, p: ProfileConfig, demask: bool, action: &str) -> (ep: EffectivePolicy)
    requires
        cfg.wf(),
        p.types.wf(),
        p.combination.rules.wf(),
    ensures
        ep.wf(),
        ep.action == action_spec(action@),
        ep.demask == demask,
        ep.placeholder_format@ == cfg.placeholder_format@,
        ep.labels.entries@ == cfg.labels.entries@,
        ep.thresholds.entries@ == cfg.thresholds.entries@,
        ep.priorities.entries@ == cfg.priorities.entries@,
        ep.ner_enabled == p.ner.enabled,
        names_of(ep.ner_types@) == names_of(p.ner.types@),
        ep.ner_on_failure == if opt_str(p.ner.on_failure) == Some("fail"@) {
            NerOnFailure::Fail
        } else {
            NerOnFailure::Degrade
        },
        ep.max_windows_per_request == cfg.raw.ner.max_windows_per_request,
        strings_of(ep.trigger_words@) == strings_of(cfg.raw.ner.trigger_words@),
        strings_of(ep.filters@) == strings_of(p.filters@),
        ep.ambiguous_ids == if opt_str(p.ambiguous_ids) == Some("mask"@) {
            AmbiguousIdsMode::Mask
        } else {
            AmbiguousIdsMode::Skip
        },
        forall|t: Seq<char>| #[trigger] effective_rule(ep.combination.rules, t) == match rule_entry(p.combination.rules, t) {
            Some(Some(r)) => Some(converted_rule(r)),
            _ => None,
        },
        ep.combination.min_distinct_types == p.combination.min_distinct_types,
        names_of(ep.combination.always_mask@) == names_of(p.combination.always_mask@),
        ep.json_paths@.len() == 0,
        ep.response_json_paths@.len() == 0,
        ep.address_mode == if wants_components(p.types.entries@) {
            AddressMode::Components
        } else {
            AddressMode::Whole
        },
        ({
            let names = enabled_names(p.types.entries@);
            let comp = wants_components(p.types.entries@) && names.contains(PdType::ADDRESS@);
            let akind = entry_kind(p.types.get_spec(PdType::ADDRESS@));
            &&& type_names(ep.types@) == if comp {
                add_missing(names, address_components())
            } else {
                names
            }
            &&& forall|t: Seq<char>| #[trigger] ep.mask_kinds.get_spec(t) == if comp && address_components().contains(t)
                && entry_kind(p.types.get_spec(t)) is None {
                akind
            } else {
                entry_kind(p.types.get_spec(t))
            }
        }),
{
    let act = if str_eq(action, "bypass") {
        PolicyAction::Bypass
    } else if str_eq(action, "block") {
        PolicyAction::Block
    } else {
        PolicyAction::Mask
    };
    let on_failure = match &p.ner.on_failure {
        Some(f) => if str_eq(f.as_str(), "fail") {
            NerOnFailure::Fail
        } else {
            NerOnFailure::Degrade
        },
        None => NerOnFailure::Degrade,
    };
    let ambiguous = match &p.ambiguous_ids {
        Some(a) => if str_eq(a.as_str(), "mask") {
            AmbiguousIdsMode::Mask
        } else {
            AmbiguousIdsMode::Skip
        },
        None => AmbiguousIdsMode::Skip,
    };
    // rules
    let mut rules: TypeMap<DomainRule> = TypeMap::new();
    let mut k: usize = 0;
    while k < p.combination.rules.entries.len()
        invariant
            p.combination.rules.wf(),
            rules.wf(),
            k <= p.combination.rules.entries@.len(),
            forall|t: Seq<char>| #[trigger] effective_rule(rules, t) == match lookup_in(p.combination.rules.entries@.take(k as int), t) {
                Some(Some(r)) => Some(converted_rule(rule_view(r))),
                _ => None,
            },
        decreases p.combination.rules.entries.len() - k,
    {
        let ghost e = p.combination.rules.entries@;
        let ghost pre = rules;
        assert(e.take(k + 1).drop_last() =~= e.take(k as int));
        assert(e.take(k + 1).last() == e[k as int]);
        proof {
            let d = e.take(k as int);
            assert forall|j: int| 0 <= j < d.len() implies (#[trigger] d[j]).0@ != e[k as int].0@ by {
                assert(d[j] == e[j]);
            }
            lemma_lookup_absent(d, e[k as int].0@);
        }
        match &p.combination.rules.entries[k].1 {
            Some(r) => {
                let d = convert_rule(r);
                rules.insert(p.combination.rules.entries[k].0.clone(), d);
            },
            None => {},
        }
        proof {
            assert forall|t: Seq<char>| #[trigger] effective_rule(rules, t) == match lookup_in(e.take(k + 1), t) {
                Some(Some(r)) => Some(converted_rule(rule_view(r))),
                _ => None,
            } by {
                assert(effective_rule(pre, t) == match lookup_in(e.take(k as int), t) {
                    Some(Some(r)) => Some(converted_rule(rule_view(r))),
                    _ => None,
                });
                if t != e[k as int].0@ {
                    assert(rules.get_spec(t) == pre.get_spec(t));
                }
            }
        }
        k += 1;
    }
    assert(p.combination.rules.entries@.take(p.combination.rules.entries@.len() as int) =~= p.combination.rules.entries@);
    let mut ep = EffectivePolicy {
        action: act,
        types: Vec::new(),
        demask,
        ambiguous_ids: ambiguous,
        placeholder_format: cfg.placeholder_format.clone(),
        labels: cfg.labels.clone_map(),
        thresholds: cfg.thresholds.clone_map(),
        priorities: cfg.priorities.clone_map(),
        mask_kinds: TypeMap::new(),
        address_mode: AddressMode::Whole,
        ner_enabled: p.ner.enabled,
        ner_types: clone_types(&p.ner.types),
        ner_on_failure: on_failure,
        max_windows_per_request: cfg.raw.ner.max_windows_per_request,
        trigger_words: clone_strings(&cfg.raw.ner.trigger_words),
        filters: clone_strings(&p.filters),
        combination: DomainCombination {
            rules,
            min_distinct_types: p.combination.min_distinct_types,
            always_mask: clone_types(&p.combination.always_mask),
        },
        json_paths: Vec::new(),
        response_json_paths: Vec::new(),
    };
    proof {
        reveal_strlit("fail");
        reveal_strlit("mask");
        reveal_strlit("bypass");
        reveal_strlit("block");
        assert(unique_keys(cfg.labels.entries@) == unique_keys(ep.labels.entries@));
    }
    // types
    let ghost e = p.types.entries@;
    let ghost ep0 = ep;
    let mut i: usize = 0;
    while i < p.types.entries.len()
        invariant
            e == p.types.entries@,
            p.types.wf(),
            ep.mask_kinds.wf(),
            i <= e.len(),
            type_names(ep.types@) == enabled_names(e.take(i as int)),
            forall|t: Seq<char>| #[trigger] ep.mask_kinds.get_spec(t) == entry_kind(lookup_in(e.take(i as int), t)),
            (ep.address_mode == AddressMode::Components) == wants_components(e.take(i as int)),
            same_but_types(ep, ep0),
            ep.action == act,
            ep.demask == demask,
            ep.ambiguous_ids == ambiguous,
            ep.ner_on_failure == on_failure,
            ep.combination.rules.wf(),
            forall|t: Seq<char>| #[trigger] effective_rule(ep.combination.rules, t) == match rule_entry(p.combination.rules, t) {
                Some(Some(r)) => Some(converted_rule(r)),
                _ => None,
            },
        decreases e.len() - i,
    {
        let ghost pre = ep.mask_kinds;
        let ghost pre_mode = ep.address_mode;
        assert(e.take(i + 1).drop_last() =~= e.take(i as int));
        assert(e.take(i + 1).last() == e[i as int]);
        proof {
            lemma_absent_before(e, i as int);
        }
        let t = &p.types.entries[i].0;
        let tm = &p.types.entries[i].1;
        if tm.disabled != Some(true) {
            add_type_at_end(&mut ep.types, t, Ghost(enabled_names(e.take(i as int))));
            let kind = mask_kind_from(&tm.mask);
            ep.mask_kinds.insert(t.clone(), kind);
            match &tm.mode {
                Some(m) => {
                    if str_eq(m.as_str(), "components") {
                        ep.address_mode = AddressMode::Components;
                    }
                },
                None => {},
            }
        }
        proof {
            reveal_strlit("components");
            assert forall|x: Seq<char>| #[trigger] ep.mask_kinds.get_spec(x) == entry_kind(lookup_in(e.take(i + 1), x)) by {
                assert(pre.get_spec(x) == entry_kind(lookup_in(e.take(i as int), x)));
                if x != e[i as int].0@ {
                    assert(ep.mask_kinds.get_spec(x) == pre.get_spec(x));
                }
            }
            assert(wants_components(e.take(i + 1)) == (wants_components(e.take(i as int)) || (
            e[i as int].1.disabled != Some(true) && opt_str(e[i as int].1.mode) == Some("components"@)))) by {
                if wants_components(e.take(i + 1)) {
                    let j = choose|j: int| 0 <= j < i + 1 && (#[trigger] e.take(i + 1)[j]).1.disabled != Some(true) && opt_str(e.take(i + 1)[j].1.mode) == Some("components"@);
                    if j < i {
                        assert(e.take(i as int)[j] == e.take(i + 1)[j]);
                    }
                }
                if wants_components(e.take(i as int)) {
                    let j = choose|j: int| 0 <= j < i && (#[trigger] e.take(i as int)[j]).1.disabled != Some(true) && opt_str(e.take(i as int)[j].1.mode) == Some("components"@);
                    assert(e.take(i as int)[j] == e.take(i + 1)[j]);
                }
                if e[i as int].1.disabled != Some(true) && opt_str(e[i as int].1.mode) == Some("components"@) {
                    assert(e.take(i + 1)[i as int] == e[i as int]);
                }
            }
        }
        i += 1;
    }
    assert(e.take(e.len() as int) =~= e);
    proof {
        lemma_enabled_names_contains(e, PdType::ADDRESS@);
    }
    enable_address_components(&mut ep);
    ep
}

proof fn lemma_enabled_names_contains(e: Seq<(PdType, TypeMaskConfig)>, t: Seq<char>)
    requires
        unique_keys(e),
    ensures
        enabled_names(e).contains(t) == enabled_entry(lookup_in(e, t)),
    decreases e.len(),
{
    if e.len() > 0 {
        let d = e.drop_last();
        assert(unique_keys(d)) by {
            assert forall|a: int, b: int| 0 <= a < b < d.len() implies (#[trigger] d[a]).0@ != (#[trigger] d[b]).0@ by {
                assert(d[a] == e[a] && d[b] == e[b]);
            }
        }
        lemma_enabled_names_contains(d, t);
        if e.last().0@ == t {
            assert forall|j: int| 0 <= j < d.len() implies (#[trigger] d[j]).0@ != t by {
                assert(d[j] == e[j]);
            }
            lemma_lookup_absent(d, t);
            if enabled_names(d).contains(t) {
                assert(enabled_entry(lookup_in(d, t)));
            }
        }
        let r = enabled_names(d);
        if e.last().1.disabled != Some(true) {
            if r.push(e.last().0@).contains(t) {
                let j = choose|j: int| 0 <= j < r.len() + 1 && #[trigger] r.push(e.last().0@)[j] == t;
                if j < r.len() {
                    assert(r[j] == t);
                }
            }
            if r.contains(t) {
                let j = choose|j: int| 0 <= j < r.len() && #[trigger] r[j] == t;
                assert(r.push(e.last().0@)[j] == t);
            }
            if e.last().0@ == t {
                assert(r.push(e.last().0@)[r.len() as int] == t);
            }
        }
    }
}

/// Appends a type known to be absent.
fn add_type_at_end(types: &mut Vec<PdType>, t: &PdType, Ghost(names): Ghost<Seq<Seq<char>>>)
    requires
        type_names(old(types)@) == names,
    ensures
        type_names(final(types)@) == names.push(t@),
{
    let ghost before = types@;
    types.push(t.clone());
    assert(type_names(types@) =~= type_names(before).push(t@));
}

// ---------------------------------------------------------------- resolving the policy

/// The first route with the given id.
pub open spec fn route_find(rs: Seq<RouteConfig>, rid: Seq<char>) -> Option<RouteConfig>
    decreases rs.len(),
{
    if rs.len() == 0 {
        None
    } else if rs[0].id@ == rid {
        Some(rs[0])
    } else {
        route_find(rs.skip(1), rid)
    }
}

/// The route of a request, when it names one that exists.
pub open spec fn route_of(cfg: CompiledConfig, route_id: Option<Seq<char>>) -> Option<RouteConfig> {
    match route_id {
        Some(rid) => route_find(cfg.raw.routes@, rid),
        None => None,
    }
}

/// The profile a request starts from: the route's override, else the system's profile,
/// else the default one (empty names count as absent, but an override counts as given).
pub open spec fn base_profile_name(cfg: CompiledConfig, sys: SystemConfig, route: Option<RouteConfig>) -> Seq<char> {
    match route {
        Some(r) if r.request.profile_override is Some => r.request.profile_override->0@,
        _ => if sys.profile@.len() > 0 {
            sys.profile@
        } else {
            cfg.raw.defaults.profile@
        },
    }
}

/// The system's override for a route, when it has one.
pub open spec fn route_override_of(sys: SystemConfig, route_id: Option<Seq<char>>) -> Option<RouteOverrideConfig> {
    match route_id {
        Some(rid) => sys.route_overrides.get_spec(rid),
        None => None,
    }
}

/// The type entry in force: the base profile's, merged with the system's overrides, then
/// replaced by the route's and by the system's route override.
pub open spec fn type_entry_in_force(
    cfg: CompiledConfig,
    sys: SystemConfig,
    route_id: Option<Seq<char>>,
    t: Seq<char>,
) -> Option<TypeMaskConfig> {
    let route = route_of(cfg, route_id);
    let t0 = match cfg.raw.profiles.get_spec(base_profile_name(cfg, sys, route)) {
        Some(p) => p.types.get_spec(t),
        None => None,
    };
    let t1 = match sys.overrides {
        Some(o) => merged_type(t0, o.types.get_spec(t)),
        None => t0,
    };
    let t2 = match route {
        Some(r) => match r.request.types_override.get_spec(t) {
            Some(tm) => Some(tm),
            None => t1,
        },
        None => t1,
    };
    match route_override_of(sys, route_id) {
        Some(ro) => match ro.types.get_spec(t) {
            Some(tm) => Some(tm),
            None => t2,
        },
        None => t2,
    }
}

/// The base profile of a system on a route, when the configuration has it.
pub open spec fn base_profile(cfg: CompiledConfig, sys: SystemConfig, route_id: Option<Seq<char>>) -> Option<ProfileConfig> {
    cfg.raw.profiles.get_spec(base_profile_name(cfg, sys, route_of(cfg, route_id)))
}

/// Recognition is on when the base profile or the system's overrides turn it on.
pub open spec fn ner_enabled_in_force(cfg: CompiledConfig, sys: SystemConfig, route_id: Option<Seq<char>>) -> bool {
    (match base_profile(cfg, sys, route_id) {
        Some(p) => p.ner.enabled,
        None => false,
    }) || (match sys.overrides {
        Some(o) => o.ner.enabled,
        None => false,
    })
}

/// The recognized types: the overrides' list when not empty, else the base profile's.
pub open spec fn ner_types_in_force(cfg: CompiledConfig, sys: SystemConfig, route_id: Option<Seq<char>>) -> Seq<Seq<char>> {
    match sys.overrides {
        Some(o) if o.ner.types@.len() > 0 => names_of(o.ner.types@),
        _ => match base_profile(cfg, sys, route_id) {
            Some(p) => names_of(p.ner.types@),
            None => Seq::empty(),
        },
    }
}

/// What to do when recognition fails: the overrides' choice when set, else the base profile's.
pub open spec fn on_failure_in_force(cfg: CompiledConfig, sys: SystemConfig, route_id: Option<Seq<char>>) -> Option<Seq<char>> {
    match sys.overrides {
        Some(o) if o.ner.on_failure is Some => opt_str(o.ner.on_failure),
        _ => match base_profile(cfg, sys, route_id) {
            Some(p) => opt_str(p.ner.on_failure),
            None => None,
        },
    }
}

/// The relevance filters: the overrides' list when not empty, else the base profile's.
pub open spec fn filters_in_force(cfg: CompiledConfig, sys: SystemConfig, route_id: Option<Seq<char>>) -> Seq<Seq<char>> {
    match sys.overrides {
        Some(o) if o.filters@.len() > 0 => strings_of(o.filters@),
        _ => match base_profile(cfg, sys, route_id) {
            Some(p) => strings_of(p.filters@),
            None => Seq::empty(),
        },
    }
}

/// The treatment of identifiers of unclear type: the overrides' when set, else the base
/// profile's.
pub open spec fn ambiguous_in_force(cfg: CompiledConfig, sys: SystemConfig, route_id: Option<Seq<char>>) -> Option<Seq<char>> {
    match sys.overrides {
        Some(o) if o.ambiguous_ids is Some => opt_str(o.ambiguous_ids),
        _ => match base_profile(cfg, sys, route_id) {
            Some(p) => opt_str(p.ambiguous_ids),
            None => None,
        },
    }
}

/// The co-occurrence settings that the system's route override replaces wholesale.
pub open spec fn route_combination(sys: SystemConfig, route_id: Option<Seq<char>>) -> Option<ModelCombination> {
    match route_override_of(sys, route_id) {
        Some(ro) => ro.combination,
        None => None,
    }
}

/// The least number of distinct types of the merged profile: the overrides' when not zero,
/// else the base profile's.
pub open spec fn merged_min_distinct(cfg: CompiledConfig, sys: SystemConfig, route_id: Option<Seq<char>>) -> usize {
    let b = match base_profile(cfg, sys, route_id) {
        Some(p) => p.combination.min_distinct_types,
        None => 0,
    };
    match sys.overrides {
        Some(o) if o.combination.min_distinct_types != 0 => o.combination.min_distinct_types,
        _ => b,
    }
}

/// The least number of distinct types: the route override's, else the merged profile's.
pub open spec fn min_distinct_in_force(cfg: CompiledConfig, sys: SystemConfig, route_id: Option<Seq<char>>) -> usize {
    match route_combination(sys, route_id) {
        Some(c) => c.min_distinct_types,
        None => merged_min_distinct(cfg, sys, route_id),
    }
}

/// The types always masked by the merged profile: the overrides' list when not empty, else
/// the base profile's.
pub open spec fn merged_always_mask(cfg: CompiledConfig, sys: SystemConfig, route_id: Option<Seq<char>>) -> Seq<Seq<char>> {
    match sys.overrides {
        Some(o) if o.combination.always_mask@.len() > 0 => names_of(o.combination.always_mask@),
        _ => match base_profile(cfg, sys, route_id) {
            Some(p) => names_of(p.combination.always_mask@),
            None => Seq::empty(),
        },
    }
}

/// The types always masked: the route override's, else the merged profile's.
pub open spec fn always_mask_in_force(cfg: CompiledConfig, sys: SystemConfig, route_id: Option<Seq<char>>) -> Seq<Seq<char>> {
    match route_combination(sys, route_id) {
        Some(c) => names_of(c.always_mask@),
        None => merged_always_mask(cfg, sys, route_id),
    }
}

/// The rule entry of a type in the merged profile: the base profile's merged with the
/// overrides'.
pub open spec fn merged_rule_entry(cfg: CompiledConfig, sys: SystemConfig, route_id: Option<Seq<char>>, t: Seq<char>) -> Option<Option<RuleView>> {
    let b = match base_profile(cfg, sys, route_id) {
        Some(p) => rule_entry(p.combination.rules, t),
        None => None,
    };
    match sys.overrides {
        Some(o) => merged_rule(b, o.combination.rules.get_spec(t)),
        None => b,
    }
}

/// The co-occurrence rule entry of a type: the route override's, else the merged profile's.
pub open spec fn rule_in_force(cfg: CompiledConfig, sys: SystemConfig, route_id: Option<Seq<char>>, t: Seq<char>) -> Option<Option<RuleView>> {
    match route_combination(sys, route_id) {
        Some(c) => rule_entry(c.rules, t),
        None => merged_rule_entry(cfg, sys, route_id, t),
    }
}

/// Whether the merged profile allows demasking: the system's route override, else its
/// overrides, else the base profile decide; unset means allowed.
pub open spec fn profile_demask(cfg: CompiledConfig, sys: SystemConfig, route_id: Option<Seq<char>>) -> bool {
    let route = route_of(cfg, route_id);
    let d0 = match cfg.raw.profiles.get_spec(base_profile_name(cfg, sys, route)) {
        Some(p) => p.demask,
        None => None,
    };
    let d1 = match sys.overrides {
        Some(o) => if o.demask is Some { o.demask } else { d0 },
        None => d0,
    };
    let d2 = match route_override_of(sys, route_id) {
        Some(ro) => if ro.demask is Some { ro.demask } else { d1 },
        None => d1,
    };
    match d2 {
        Some(d) => d,
        None => true,
    }
}

/// The error, if any, a request for a system and route meets.
pub open spec fn policy_error(cfg: CompiledConfig, system_id: Seq<char>, route_id: Option<Seq<char>>) -> Option<PolicyError> {
    match cfg.raw.systems.get_spec(system_id) {
        None => Some(PolicyError::UnknownSystem),
        Some(sys) => if !sys.enabled {
            Some(PolicyError::SystemDisabled)
        } else {
            match route_of(cfg, route_id) {
                Some(r) => if r.systems@.len() > 0 && !strings_of(r.systems@).contains(system_id) {
                    Some(PolicyError::RouteForbidden)
                } else {
                    None
                },
                None => None,
            }
        },
    }
}

fn find_route<'a>(cfg: &'a CompiledConfig, rid: &str) -> (r: Option<&'a RouteConfig>)
    ensures
        match r {
            Some(x) => route_find(cfg.raw.routes@, rid@) == Some(*x),
            None => route_find(cfg.raw.routes@, rid@) is None,
        },
{
    let mut i: usize = 0;
    assert(cfg.raw.routes@.skip(0) =~= cfg.raw.routes@);
    while i < cfg.raw.routes.len()
        invariant
            i <= cfg.raw.routes@.len(),
            route_find(cfg.raw.routes@, rid@) == route_find(cfg.raw.routes@.skip(i as int), rid@),
        decreases cfg.raw.routes.len() - i,
    {
        let ghost rest = cfg.raw.routes@.skip(i as int);
        assert(rest[0] == cfg.raw.routes@[i as int]);
        assert(rest.skip(1) =~= cfg.raw.routes@.skip(i + 1));
        if str_eq(cfg.raw.routes[i].id.as_str(), rid) {
            return Some(&cfg.raw.routes[i]);
        }
        i += 1;
    }
    None
}

fn contains_string(v: &Vec<String>, s: &str) -> (r: bool)
    ensures
        r == strings_of(v@).contains(s@),
{
    let mut i: usize = 0;
    while i < v.len()
        invariant
            i <= v@.len(),
            forall|j: int| 0 <= j < i ==> (#[trigger] v@[j])@ != s@,
        decreases v.len() - i,
    {
        if str_eq(v[i].as_str(), s) {
            assert(strings_of(v@)[i as int] == s@);
            return true;
        }
        i += 1;
    }
    assert forall|j: int| 0 <= j < strings_of(v@).len() implies #[trigger] strings_of(v@)[j] != s@ by {
        assert(strings_of(v@)[j] == v@[j]@);
    }
    false
}

fn opt_chars_of(o: Option<&str>) -> (r: Ghost<Option<Seq<char>>>)
    ensures
        r@ == match o {
            Some(s) => Some(s@),
            None => None,
        },
{
    Ghost(match o {
        Some(s) => Some(s@),
        None => None,
    })
}

/// The fields of a merged profile other than its types and demasking, as the base profile
/// and the system's overrides make them.
pub open spec fn merged_facts(cfg: CompiledConfig, sys: SystemConfig, rid: Option<Seq<char>>, p: ProfileConfig) -> bool {
    &&& p.ner.enabled == ner_enabled_in_force(cfg, sys, rid)
    &&& names_of(p.ner.types@) == ner_types_in_force(cfg, sys, rid)
    &&& opt_str(p.ner.on_failure) == on_failure_in_force(cfg, sys, rid)
    &&& strings_of(p.filters@) == filters_in_force(cfg, sys, rid)
    &&& opt_str(p.ambiguous_ids) == ambiguous_in_force(cfg, sys, rid)
    &&& p.combination.min_distinct_types == merged_min_distinct(cfg, sys, rid)
    &&& names_of(p.combination.always_mask@) == merged_always_mask(cfg, sys, rid)
    &&& forall|t: Seq<char>| #[trigger] rule_entry(p.combination.rules, t) == merged_rule_entry(cfg, sys, rid, t)
}

/// The entry asks for addresses by components.
pub open spec fn components_entry(o: Option<TypeMaskConfig>) -> bool {
    enabled_entry(o) && opt_str(o->0.mode) == Some("components"@)
}

/// Some type entry in force asks for addresses by components.
pub open spec fn components_in_force(cfg: CompiledConfig, sys: SystemConfig, rid: Option<Seq<char>>) -> bool {
    exists|t: Seq<char>| components_entry(#[trigger] type_entry_in_force(cfg, sys, rid, t))
}

/// The address is masked by its components: component mode, with the address enabled.
pub open spec fn address_split(cfg: CompiledConfig, sys: SystemConfig, rid: Option<Seq<char>>) -> bool {
    components_in_force(cfg, sys, rid) && enabled_entry(type_entry_in_force(cfg, sys, rid, PdType::ADDRESS@))
}

/// A type is masked when its entry in force is enabled, or when it is an address component
/// and the address is masked by its components.
pub open spec fn masked_in_force(cfg: CompiledConfig, sys: SystemConfig, rid: Option<Seq<char>>, t: Seq<char>) -> bool {
    enabled_entry(type_entry_in_force(cfg, sys, rid, t)) || (address_split(cfg, sys, rid)
        && address_components().contains(t))
}

/// The mask kind of a type: its own entry's, or the address's for an address component
/// without an enabled entry of its own while the address is masked by its components.
pub open spec fn kind_in_force(cfg: CompiledConfig, sys: SystemConfig, rid: Option<Seq<char>>, t: Seq<char>) -> Option<MaskKind> {
    if address_split(cfg, sys, rid) && address_components().contains(t) && entry_kind(
        type_entry_in_force(cfg, sys, rid, t),
    ) is None {
        entry_kind(type_entry_in_force(cfg, sys, rid, PdType::ADDRESS@))
    } else {
        entry_kind(type_entry_in_force(cfg, sys, rid, t))
    }
}

/// A policy as a value: the types it masks as a set, its kinds and rules as maps.
#[verifier::ext_equal]
pub struct PolicyView {
    pub action: PolicyAction,
    pub types: Set<Seq<char>>,
    pub mask_kinds: Map<Seq<char>, MaskKind>,
    pub address_mode: AddressMode,
    pub demask: bool,
    pub ambiguous_ids: AmbiguousIdsMode,
    pub placeholder_format: Seq<char>,
    pub labels: Seq<(PdType, String)>,
    pub thresholds: Seq<(PdType, u32)>,
    pub priorities: Seq<(PdType, i32)>,
    pub ner_enabled: bool,
    pub ner_types: Seq<Seq<char>>,
    pub ner_on_failure: NerOnFailure,
    pub max_windows_per_request: usize,
    pub trigger_words: Seq<Seq<char>>,
    pub filters: Seq<Seq<char>>,
    pub rules: Map<Seq<char>, RuleView>,
    pub min_distinct_types: usize,
    pub always_mask: Seq<Seq<char>>,
    pub json_paths: Seq<Seq<char>>,
    pub response_json_paths: Seq<Seq<char>>,
}

/// The value of a policy.
pub open spec fn policy_view(ep: EffectivePolicy) -> PolicyView {
    PolicyView {
        action: ep.action,
        types: Set::new(|t: Seq<char>| ep.masks(t)),
        mask_kinds: Map::new(
            |t: Seq<char>| ep.mask_kinds.get_spec(t) is Some,
            |t: Seq<char>| ep.mask_kinds.get_spec(t)->0,
        ),
        address_mode: ep.address_mode,
        demask: ep.demask,
        ambiguous_ids: ep.ambiguous_ids,
        placeholder_format: ep.placeholder_format@,
        labels: ep.labels.entries@,
        thresholds: ep.thresholds.entries@,
        priorities: ep.priorities.entries@,
        ner_enabled: ep.ner_enabled,
        ner_types: names_of(ep.ner_types@),
        ner_on_failure: ep.ner_on_failure,
        max_windows_per_request: ep.max_windows_per_request,
        trigger_words: strings_of(ep.trigger_words@),
        filters: strings_of(ep.filters@),
        rules: Map::new(
            |t: Seq<char>| effective_rule(ep.combination.rules, t) is Some,
            |t: Seq<char>| effective_rule(ep.combination.rules, t)->0,
        ),
        min_distinct_types: ep.combination.min_distinct_types,
        always_mask: names_of(ep.combination.always_mask@),
        json_paths: strings_of(ep.json_paths@),
        response_json_paths: strings_of(ep.response_json_paths@),
    }
}

/// The rule in force for a type, converted, when the type has one.
pub open spec fn converted_in_force(cfg: CompiledConfig, sys: SystemConfig, rid: Option<Seq<char>>, t: Seq<char>) -> Option<RuleView> {
    match rule_in_force(cfg, sys, rid, t) {
        Some(Some(r)) => Some(converted_rule(r)),
        _ => None,
    }
}

/// The policy in force for a system on an optional route: the merged profile's enabled
/// types (address components added when the address is masked by its components), with
/// their kinds; demasking only when the route, the system and the profile allow it; the
/// route's action or the default one; the merged recognition settings, filters and rules;
/// the configuration's labels, thresholds, priorities and format.
pub open spec fn policy_in_force(cfg: CompiledConfig, system_id: Seq<char>, rid: Option<Seq<char>>) -> PolicyView {
    let sys = cfg.raw.systems.get_spec(system_id)->0;
    let route = route_of(cfg, rid);
    PolicyView {
        action: action_spec(match route {
            Some(rt) if rt.action is Some => rt.action->0@,
            _ => cfg.default_action@,
        }),
        types: Set::new(|t: Seq<char>| masked_in_force(cfg, sys, rid, t)),
        mask_kinds: Map::new(
            |t: Seq<char>| kind_in_force(cfg, sys, rid, t) is Some,
            |t: Seq<char>| kind_in_force(cfg, sys, rid, t)->0,
        ),
        address_mode: if components_in_force(cfg, sys, rid) {
            AddressMode::Components
        } else {
            AddressMode::Whole
        },
        demask: (match route {
            Some(rt) => rt.response.demask,
            None => true,
        }) && sys.demask && profile_demask(cfg, sys, rid),
        ambiguous_ids: if ambiguous_in_force(cfg, sys, rid) == Some("mask"@) {
            AmbiguousIdsMode::Mask
        } else {
            AmbiguousIdsMode::Skip
        },
        placeholder_format: cfg.placeholder_format@,
        labels: cfg.labels.entries@,
        thresholds: cfg.thresholds.entries@,
        priorities: cfg.priorities.entries@,
        ner_enabled: ner_enabled_in_force(cfg, sys, rid),
        ner_types: ner_types_in_force(cfg, sys, rid),
        ner_on_failure: if on_failure_in_force(cfg, sys, rid) == Some("fail"@) {
            NerOnFailure::Fail
        } else {
            NerOnFailure::Degrade
        },
        max_windows_per_request: cfg.raw.ner.max_windows_per_request,
        trigger_words: strings_of(cfg.raw.ner.trigger_words@),
        filters: filters_in_force(cfg, sys, rid),
        rules: Map::new(
            |t: Seq<char>| converted_in_force(cfg, sys, rid, t) is Some,
            |t: Seq<char>| converted_in_force(cfg, sys, rid, t)->0,
        ),
        min_distinct_types: min_distinct_in_force(cfg, sys, rid),
        always_mask: always_mask_in_force(cfg, sys, rid),
        json_paths: Seq::empty(),
        response_json_paths: Seq::empty(),
    }
}

/// A policy is the one in force for a system and route: its maps are well formed and its
/// value is the value in force.
pub open spec fn policy_facts(cfg: CompiledConfig, system_id: Seq<char>, rid: Option<Seq<char>>, ep: EffectivePolicy) -> bool {
    ep.wf() && policy_view(ep) == policy_in_force(cfg, system_id, rid)
}

/// The policy field by field, as resolving proves it.
spec fn policy_fields(cfg: CompiledConfig, system_id: Seq<char>, rid: Option<Seq<char>>, ep: EffectivePolicy) -> bool {
    let sys = cfg.raw.systems.get_spec(system_id)->0;
    let v = policy_in_force(cfg, system_id, rid);
    &&& ep.wf()
    &&& ep.action == v.action
    &&& forall|t: Seq<char>| #[trigger] ep.masks(t) == masked_in_force(cfg, sys, rid, t)
    &&& forall|t: Seq<char>| #[trigger] ep.mask_kinds.get_spec(t) == kind_in_force(cfg, sys, rid, t)
    &&& ep.address_mode == v.address_mode
    &&& ep.demask == v.demask
    &&& ep.ambiguous_ids == v.ambiguous_ids
    &&& ep.placeholder_format@ == v.placeholder_format
    &&& ep.labels.entries@ == v.labels
    &&& ep.thresholds.entries@ == v.thresholds
    &&& ep.priorities.entries@ == v.priorities
    &&& ep.ner_enabled == v.ner_enabled
    &&& names_of(ep.ner_types@) == v.ner_types
    &&& ep.ner_on_failure == v.ner_on_failure
    &&& ep.max_windows_per_request == v.max_windows_per_request
    &&& strings_of(ep.trigger_words@) == v.trigger_words
    &&& strings_of(ep.filters@) == v.filters
    &&& forall|t: Seq<char>| #[trigger] effective_rule(ep.combination.rules, t) == converted_in_force(cfg, sys, rid, t)
    &&& ep.combination.min_distinct_types == v.min_distinct_types
    &&& names_of(ep.combination.always_mask@) == v.always_mask
    &&& ep.json_paths@.len() == 0
    &&& ep.response_json_paths@.len() == 0
}

proof fn lemma_fields_give_view(cfg: CompiledConfig, system_id: Seq<char>, rid: Option<Seq<char>>, ep: EffectivePolicy)
    requires
        policy_fields(cfg, system_id, rid, ep),
    ensures
        policy_facts(cfg, system_id, rid, ep),
{
    let sys = cfg.raw.systems.get_spec(system_id)->0;
    let v = policy_in_force(cfg, system_id, rid);
    let w = policy_view(ep);
    assert(w.types =~= v.types);
    assert(w.mask_kinds =~= v.mask_kinds) by {
        assert forall|t: Seq<char>| #[trigger] w.mask_kinds.dom().contains(t) == v.mask_kinds.dom().contains(t) by {
            assert(ep.mask_kinds.get_spec(t) == kind_in_force(cfg, sys, rid, t));
        }
        assert forall|t: Seq<char>| w.mask_kinds.dom().contains(t) implies #[trigger] w.mask_kinds[t] == v.mask_kinds[t] by {
            assert(ep.mask_kinds.get_spec(t) == kind_in_force(cfg, sys, rid, t));
        }
    }
    assert(w.rules =~= v.rules) by {
        assert forall|t: Seq<char>| #[trigger] w.rules.dom().contains(t) == v.rules.dom().contains(t) by {
            assert(effective_rule(ep.combination.rules, t) == converted_in_force(cfg, sys, rid, t));
        }
        assert forall|t: Seq<char>| w.rules.dom().contains(t) implies #[trigger] w.rules[t] == v.rules[t] by {
            assert(effective_rule(ep.combination.rules, t) == converted_in_force(cfg, sys, rid, t));
        }
    }
    assert(w.json_paths =~= v.json_paths);
    assert(w.response_json_paths =~= v.response_json_paths);
    assert(w =~= v);
}

/// The policy for a system on an optional route: an unknown system, a disabled one, or a
/// route that lists other systems is refused; otherwise the policy in force.
pub fn resolve_policy(cfg: &CompiledConfig, system_id: &str, route_id: Option<&str>) -> (r: Result<EffectivePolicy, PolicyError>)
    requires
        cfg.wf(),
    ensures
        ({
            let rid = match route_id {
                Some(s) => Some(s@),
                None => None::<Seq<char>>,
            };
            match policy_error(*cfg, system_id@, rid) {
                Some(e) => r == Err::<EffectivePolicy, PolicyError>(e),
                None => r matches Ok(ep) && policy_facts(*cfg, system_id@, rid, ep),
            }
        }),
{
    let ghost rid = match route_id {
        Some(s) => Some(s@),
        None => None::<Seq<char>>,
    };
    let sys = match cfg.raw.systems.get(&system_id.to_string()) {
        None => return Err(PolicyError::UnknownSystem),
        Some(s) => s,
    };
    if !sys.enabled {
        return Err(PolicyError::SystemDisabled);
    }
    proof {
        lemma_lookup_some_in(cfg.raw.systems.entries@, system_id@);
        let i = choose|i: int| 0 <= i < cfg.raw.systems.entries@.len() && #[trigger] cfg.raw.systems.entries@[i].1 == cfg.raw.systems.get_spec(system_id@)->0;
        assert(system_wf(cfg.raw.systems.entries@[i].1));
    }
    let route: Option<&RouteConfig> = match route_id {
        Some(r) => find_route(cfg, r),
        None => None,
    };
    match route {
        Some(rt) => {
            if rt.systems.len() > 0 && !contains_string(&rt.systems, system_id) {
                return Err(PolicyError::RouteForbidden);
            }
        },
        None => {},
    }
    assert(policy_error(*cfg, system_id@, rid) is None);
    let ghost route_v = route_of(*cfg, rid);
    assert(route_v == match route {
        Some(x) => Some(*x),
        None => None::<RouteConfig>,
    });
    // base profile
    let sys_profile: &str = if !sys.profile.as_str().is_empty() {
        sys.profile.as_str()
    } else {
        cfg.raw.defaults.profile.as_str()
    };
    let base_name: &str = match route {
        Some(rt) => match &rt.request.profile_override {
            Some(o) => o.as_str(),
            None => sys_profile,
        },
        None => sys_profile,
    };
    assert(base_name@ == base_profile_name(*cfg, *sys, route_v));
    let mut p: ProfileConfig = match cfg.raw.profiles.get(&base_name.to_string()) {
        Some(bp) => {
            proof {
                lemma_profile_wf(*cfg, base_name@);
            }
            clone_profile(bp)
        },
        None => ProfileConfig::default(),
    };
    assert(forall|t: Seq<char>| #[trigger] p.types.get_spec(t) == match cfg.raw.profiles.get_spec(base_profile_name(*cfg, *sys, route_v)) {
        Some(bp) => bp.types.get_spec(t),
        None => None,
    });
    let ghost bp = cfg.raw.profiles.get_spec(base_profile_name(*cfg, *sys, route_v));
    assert(bp == base_profile(*cfg, *sys, rid));
    proof {
        match bp {
            Some(b) => {
                assert(profile_equiv(p, b));
            },
            None => {
                assert(names_of(p.ner.types@) =~= Seq::<Seq<char>>::empty());
                assert(strings_of(p.filters@) =~= Seq::<Seq<char>>::empty());
                assert(names_of(p.combination.always_mask@) =~= Seq::<Seq<char>>::empty());
                assert forall|t: Seq<char>| #[trigger] rule_entry(p.combination.rules, t) is None by {
                    assert(p.combination.rules.entries@.len() == 0);
                }
            },
        }
    }
    // system overrides
    match &sys.overrides {
        Some(ov) => {
            deep_merge_profile(&mut p, ov);
        },
        None => {},
    }
    assert(merged_facts(*cfg, *sys, rid, p));
    // route's type overrides
    match route {
        Some(rt) => {
            let ghost before = p.types;
            let ghost pm = p;
            let ghost e = rt.request.types_override.entries@;
            let mut i: usize = 0;
            while i < rt.request.types_override.entries.len()
                invariant
                    e == rt.request.types_override.entries@,
                    p.types.wf(),
                    p.combination.rules.wf(),
                    i <= e.len(),
                    forall|t: Seq<char>| #[trigger] p.types.get_spec(t) == match lookup_in(e.take(i as int), t) {
                        Some(tm) => Some(tm),
                        None => before.get_spec(t),
                    },
                    p.demask == pm.demask,
                    merged_facts(*cfg, *sys, rid, p),
                decreases e.len() - i,
            {
                let ghost pre = p.types;
                assert(e.take(i + 1).drop_last() =~= e.take(i as int));
                assert(e.take(i + 1).last() == e[i as int]);
                p.types.insert(rt.request.types_override.entries[i].0.clone(), rt.request.types_override.entries[i].1.clone());
                proof {
                    assert forall|t: Seq<char>| #[trigger] p.types.get_spec(t) == match lookup_in(e.take(i + 1), t) {
                        Some(tm) => Some(tm),
                        None => before.get_spec(t),
                    } by {
                        assert(pre.get_spec(t) == match lookup_in(e.take(i as int), t) {
                            Some(tm) => Some(tm),
                            None => before.get_spec(t),
                        });
                        if t != e[i as int].0@ {
                            assert(p.types.get_spec(t) == pre.get_spec(t));
                        }
                    }
                }
                i += 1;
            }
            assert(e.take(e.len() as int) =~= e);
        },
        None => {},
    }
    // the system's override for the route
    let ro = match route_id {
        Some(r) => sys.route_overrides.get(&r.to_string()),
        None => None,
    };
    assert(match ro {
        Some(x) => route_override_of(*sys, rid) == Some(*x),
        None => route_override_of(*sys, rid) is None,
    });
    match ro {
        Some(ro) => {
            proof {
                lemma_route_override_wf(*sys, rid->0);
            }
            let ghost before = p.types;
            let ghost pm = p;
            let ghost e = ro.types.entries@;
            let mut i: usize = 0;
            while i < ro.types.entries.len()
                invariant
                    e == ro.types.entries@,
                    p.types.wf(),
                    p.combination.rules.wf(),
                    i <= e.len(),
                    forall|t: Seq<char>| #[trigger] p.types.get_spec(t) == match lookup_in(e.take(i as int), t) {
                        Some(tm) => Some(tm),
                        None => before.get_spec(t),
                    },
                    p.demask == pm.demask,
                    merged_facts(*cfg, *sys, rid, p),
                decreases e.len() - i,
            {
                let ghost pre = p.types;
                assert(e.take(i + 1).drop_last() =~= e.take(i as int));
                assert(e.take(i + 1).last() == e[i as int]);
                p.types.insert(ro.types.entries[i].0.clone(), ro.types.entries[i].1.clone());
                proof {
                    assert forall|t: Seq<char>| #[trigger] p.types.get_spec(t) == match lookup_in(e.take(i + 1), t) {
                        Some(tm) => Some(tm),
                        None => before.get_spec(t),
                    } by {
                        assert(pre.get_spec(t) == match lookup_in(e.take(i as int), t) {
                            Some(tm) => Some(tm),
                            None => before.get_spec(t),
                        });
                        if t != e[i as int].0@ {
                            assert(p.types.get_spec(t) == pre.get_spec(t));
                        }
                    }
                }
                i += 1;
            }
            assert(e.take(e.len() as int) =~= e);
            match &ro.combination {
                Some(c) => {
                    p.combination = clone_combination(c);
                },
                None => {},
            }
            match ro.demask {
                Some(d) => {
                    p.demask = Some(d);
                },
                None => {},
            }
        },
        None => {},
    }
    let route_demask = match route {
        Some(rt) => rt.response.demask,
        None => true,
    };
    let p_demask = match p.demask {
        Some(d) => d,
        None => true,
    };
    let demask = route_demask && sys.demask && p_demask;
    let action: &str = match route {
        Some(rt) => match &rt.action {
            Some(a) => a.as_str(),
            None => cfg.default_action.as_str(),
        },
        None => cfg.default_action.as_str(),
    };
    let ghost final_types = p.types;
    let ghost final_entries = p.types.entries@;
    let ep = build_effective(cfg, p, demask, action);
    proof {
        assert forall|t: Seq<char>| #[trigger] lookup_in(final_entries, t) == type_entry_in_force(*cfg, *sys, rid, t) by {
            assert(final_types.get_spec(t) == type_entry_in_force(*cfg, *sys, rid, t));
        }
        lemma_types_in_force(*cfg, *sys, rid, final_entries, ep);
        lemma_fields_give_view(*cfg, system_id@, rid, ep);
    }
    Ok(ep)
}

proof fn lemma_types_in_force(cfg: CompiledConfig, sys: SystemConfig, rid: Option<Seq<char>>, e: Seq<(PdType, TypeMaskConfig)>, ep: EffectivePolicy)
    requires
        unique_keys(e),
        forall|t: Seq<char>| #[trigger] lookup_in(e, t) == type_entry_in_force(cfg, sys, rid, t),
        ep.address_mode == if wants_components(e) {
            AddressMode::Components
        } else {
            AddressMode::Whole
        },
        ({
            let names = enabled_names(e);
            let comp = wants_components(e) && names.contains(PdType::ADDRESS@);
            let akind = entry_kind(lookup_in(e, PdType::ADDRESS@));
            &&& type_names(ep.types@) == if comp {
                add_missing(names, address_components())
            } else {
                names
            }
            &&& forall|t: Seq<char>| #[trigger] ep.mask_kinds.get_spec(t) == if comp && address_components().contains(t)
                && entry_kind(lookup_in(e, t)) is None {
                akind
            } else {
                entry_kind(lookup_in(e, t))
            }
        }),
    ensures
        forall|t: Seq<char>| #[trigger] ep.masks(t) == masked_in_force(cfg, sys, rid, t),
        forall|t: Seq<char>| #[trigger] ep.mask_kinds.get_spec(t) == kind_in_force(cfg, sys, rid, t),
        ep.address_mode == if components_in_force(cfg, sys, rid) {
            AddressMode::Components
        } else {
            AddressMode::Whole
        },
{
    assert(wants_components(e) == components_in_force(cfg, sys, rid)) by {
        if wants_components(e) {
            let j = choose|j: int| 0 <= j < e.len() && (#[trigger] e[j]).1.disabled != Some(true) && opt_str(e[j].1.mode) == Some("components"@);
            lemma_lookup_found(e, j);
            assert(lookup_in(e, e[j].0@) == type_entry_in_force(cfg, sys, rid, e[j].0@));
            assert(components_entry(type_entry_in_force(cfg, sys, rid, e[j].0@)));
        }
        if components_in_force(cfg, sys, rid) {
            let t = choose|t: Seq<char>| components_entry(#[trigger] type_entry_in_force(cfg, sys, rid, t));
            assert(lookup_in(e, t) == type_entry_in_force(cfg, sys, rid, t));
            lemma_lookup_some_in(e, t);
            let i = choose|i: int| 0 <= i < e.len() && #[trigger] e[i].1 == lookup_in(e, t)->0;
            assert(e[i].1.disabled != Some(true) && opt_str(e[i].1.mode) == Some("components"@));
        }
    }
    let names = enabled_names(e);
    lemma_enabled_names_contains(e, PdType::ADDRESS@);
    assert(lookup_in(e, PdType::ADDRESS@) == type_entry_in_force(cfg, sys, rid, PdType::ADDRESS@));
    assert forall|t: Seq<char>| #[trigger] ep.masks(t) == masked_in_force(cfg, sys, rid, t) by {
        lemma_enabled_names_contains(e, t);
        assert(lookup_in(e, t) == type_entry_in_force(cfg, sys, rid, t));
        lemma_add_missing_contains(names, address_components(), t);
        let tn = type_names(ep.types@);
        if ep.masks(t) {
            let i = choose|i: int| 0 <= i < ep.types@.len() && #[trigger] ep.types@[i]@ == t;
            assert(tn[i] == t);
        }
        if tn.contains(t) {
            let i = choose|i: int| 0 <= i < tn.len() && #[trigger] tn[i] == t;
            assert(ep.types@[i]@ == t);
        }
    }
    assert forall|t: Seq<char>| #[trigger] ep.mask_kinds.get_spec(t) == kind_in_force(cfg, sys, rid, t) by {
        assert(lookup_in(e, t) == type_entry_in_force(cfg, sys, rid, t));
    }
}

proof fn lemma_add_missing_contains(names: Seq<Seq<char>>, add: Seq<Seq<char>>, t: Seq<char>)
    ensures
        add_missing(names, add).contains(t) == (names.contains(t) || add.contains(t)),
    decreases add.len(),
{
    if add.len() > 0 {
        lemma_add_missing_contains(names, add.drop_last(), t);
        let prev = add_missing(names, add.drop_last());
        let d = add.drop_last();
        if d.contains(t) {
            let j = choose|j: int| 0 <= j < d.len() && d[j] == t;
            assert(add[j] == t);
        }
        if add.contains(t) {
            let j = choose|j: int| 0 <= j < add.len() && add[j] == t;
            if j < d.len() {
                assert(d[j] == t);
            }
        }
        if !prev.contains(add.last()) {
            if prev.push(add.last()).contains(t) {
                let j = choose|j: int| 0 <= j < prev.len() + 1 && prev.push(add.last())[j] == t;
                if j < prev.len() {
                    assert(prev[j] == t);
                }
            }
            if prev.contains(t) {
                let j = choose|j: int| 0 <= j < prev.len() && prev[j] == t;
                assert(prev.push(add.last())[j] == t);
            }
            assert(prev.push(add.last())[prev.len() as int] == add.last());
        }
    }
}

proof fn lemma_add_missing_keeps(names: Seq<Seq<char>>, add: Seq<Seq<char>>, t: Seq<char>)
    requires
        names.contains(t),
    ensures
        add_missing(names, add).contains(t),
    decreases add.len(),
{
    if add.len() > 0 {
        lemma_add_missing_keeps(names, add.drop_last(), t);
        let prev = add_missing(names, add.drop_last());
        if !prev.contains(add.last()) {
            let j = choose|j: int| 0 <= j < prev.len() && prev[j] == t;
            assert(prev.push(add.last())[j] == t);
        }
    }
}

proof fn lemma_profile_wf(cfg: CompiledConfig, name: Seq<char>)
    requires
        cfg.wf(),
        cfg.raw.profiles.get_spec(name) is Some,
    ensures
        cfg.raw.profiles.get_spec(name)->0.types.wf(),
        cfg.raw.profiles.get_spec(name)->0.combination.rules.wf(),
{
    lemma_lookup_some_in(cfg.raw.profiles.entries@, name);
}

proof fn lemma_lookup_some_in<K: View<V = Seq<char>>, V>(e: Seq<(K, V)>, t: Seq<char>)
    requires
        lookup_in(e, t) is Some,
    ensures
        exists|i: int| 0 <= i < e.len() && #[trigger] e[i].1 == lookup_in(e, t)->0,
    decreases e.len(),
{
    if e.last().0@ == t {
        assert(e[e.len() - 1].1 == lookup_in(e, t)->0);
    } else {
        lemma_lookup_some_in(e.drop_last(), t);
        let i = choose|i: int| 0 <= i < e.drop_last().len() && #[trigger] e.drop_last()[i].1 == lookup_in(e.drop_last(), t)->0;
        assert(e[i] == e.drop_last()[i]);
    }
}

proof fn lemma_route_override_wf(sys: SystemConfig, rid: Seq<char>)
    requires
        system_wf(sys),
        sys.route_overrides.get_spec(rid) is Some,
    ensures
        sys.route_overrides.get_spec(rid)->0.types.wf(),
        sys.route_overrides.get_spec(rid)->0.combination matches Some(c) ==> c.rules.wf(),
{
    lemma_lookup_some_in(sys.route_overrides.entries@, rid);
}

/// The names without `t`, in order.
pub open spec fn without_name(names: Seq<Seq<char>>, t: Seq<char>) -> Seq<Seq<char>>
    decreases names.len(),
{
    if names.len() == 0 {
        Seq::empty()
    } else if names.last() == t {
        without_name(names.drop_last(), t)
    } else {
        without_name(names.drop_last(), t).push(names.last())
    }
}

/// Applies one type entry to a policy: a disabled entry removes the type; otherwise the type
/// is added when missing, its mask kind set when the entry names one, and component mode
/// turned on (with the address components) when the entry asks for it.
pub fn merge_type_mask(ep: &mut EffectivePolicy, t: &PdType, tm: &TypeMaskConfig)
    requires
        old(ep).mask_kinds.wf(),
    ensures
        final(ep).mask_kinds.wf(),
        same_but_types(*final(ep), *old(ep)),
        tm.disabled == Some(true) ==> {
            &&& type_names(final(ep).types@) == without_name(type_names(old(ep).types@), t@)
            &&& final(ep).mask_kinds.get_spec(t@) is None
            &&& forall|x: Seq<char>| x != t@ ==> #[trigger] final(ep).mask_kinds.get_spec(x) == old(ep).mask_kinds.get_spec(x)
            &&& final(ep).address_mode == old(ep).address_mode
        },
        tm.disabled != Some(true) && !(opt_str(tm.mode) == Some("components"@)) ==> {
            &&& type_names(final(ep).types@) == if type_names(old(ep).types@).contains(t@) {
                type_names(old(ep).types@)
            } else {
                type_names(old(ep).types@).push(t@)
            }
            &&& final(ep).mask_kinds.get_spec(t@) == if tm.mask is Some {
                Some(mask_kind_spec(opt_str(tm.mask)))
            } else {
                old(ep).mask_kinds.get_spec(t@)
            }
            &&& forall|x: Seq<char>| x != t@ ==> #[trigger] final(ep).mask_kinds.get_spec(x) == old(ep).mask_kinds.get_spec(x)
            &&& final(ep).address_mode == old(ep).address_mode
        },
        tm.disabled != Some(true) && opt_str(tm.mode) == Some("components"@) ==> {
            &&& final(ep).address_mode == AddressMode::Components
            &&& type_names(final(ep).types@).contains(t@)
        },
{
    if tm.disabled == Some(true) {
        let mut kept: Vec<PdType> = Vec::new();
        let mut i: usize = 0;
        while i < ep.types.len()
            invariant
                i <= ep.types@.len(),
                type_names(kept@) == without_name(type_names(ep.types@).take(i as int), t@),
            decreases ep.types.len() - i,
        {
            let ghost before = kept@;
            assert(type_names(ep.types@).take(i + 1).drop_last() =~= type_names(ep.types@).take(i as int));
            assert(type_names(ep.types@).take(i + 1).last() == ep.types@[i as int]@);
            if !ep.types[i].same(t) {
                kept.push(ep.types[i].clone());
                assert(type_names(kept@) =~= type_names(before).push(ep.types@[i as int]@));
            }
            i += 1;
        }
        assert(type_names(ep.types@).take(ep.types@.len() as int) =~= type_names(ep.types@));
        ep.types = kept;
        ep.mask_kinds.remove(t);
        return;
    }
    add_type(&mut ep.types, t);
    match &tm.mask {
        Some(_) => {
            let kind = mask_kind_from(&tm.mask);
            ep.mask_kinds.insert(t.clone(), kind);
        },
        None => {},
    }
    proof {
        reveal_strlit("components");
    }
    match &tm.mode {
        Some(mode) => {
            if str_eq(mode.as_str(), "components") {
                ep.address_mode = AddressMode::Components;
                let ghost names = type_names(ep.types@);
                assert(names.contains(t@)) by {
                    if !type_names(old(ep).types@).contains(t@) {
                        assert(names[names.len() - 1] == t@);
                    }
                }
                enable_address_components(ep);
                proof {
                    if !(type_names(ep.types@) == names) {
                        lemma_add_missing_keeps(names, address_components(), t@);
                    }
                }
            }
        },
        None => {},
    }
}

// ---------------------------------------------------------------- validation

/// Two header conditions are the same map.
pub open spec fn headers_equal(a: StrMap<String>, b: StrMap<String>) -> bool {
    &&& a.entries@.len() == b.entries@.len()
    &&& forall|i: int| 0 <= i < a.entries@.len() ==> (b.get_spec((#[trigger] a.entries@[i]).0@) matches Some(v) && v@ == a.entries@[i].1@)
}

/// Two routes match the same requests.
pub open spec fn same_match(a: RouteConfig, b: RouteConfig) -> bool {
    &&& a.route_match.method@ == b.route_match.method@
    &&& a.route_match.path@ == b.route_match.path@
    &&& a.route_match.path_prefix@ == b.route_match.path_prefix@
    &&& headers_equal(a.route_match.header, b.route_match.header)
}

/// Type `j` of profile `i` is not declared.
pub open spec fn undeclared_at(c: Config, i: int, j: int) -> bool {
    let p = c.profiles.entries@[i].1;
    0 <= i < c.profiles.entries@.len() && 0 <= j < p.types.entries@.len() && c.pd_types.get_spec(p.types.entries@[j].0@) is None
}

/// System `i` names a profile that does not exist.
pub open spec fn unknown_profile_at(c: Config, i: int) -> bool {
    let sc = c.systems.entries@[i].1;
    0 <= i < c.systems.entries@.len() && sc.profile@.len() > 0 && c.profiles.get_spec(sc.profile@) is None
}

/// The default profile does not exist.
pub open spec fn unknown_default_profile(c: Config) -> bool {
    c.defaults.profile@.len() > 0 && c.profiles.get_spec(c.defaults.profile@) is None
}

/// Route `i` names an upstream that does not exist.
pub open spec fn unknown_upstream_at(c: Config, i: int) -> bool {
    let r = c.routes@[i];
    0 <= i < c.routes@.len() && r.upstream@.len() > 0 && c.upstreams.get_spec(r.upstream@) is None
}

/// Routes `i < j` match the same requests.
pub open spec fn duplicate_at(c: Config, i: int, j: int) -> bool {
    0 <= i < j < c.routes@.len() && same_match(c.routes@[i], c.routes@[j])
}

/// The first refusal of a configuration, in the order the checks run: (path, message).
pub open spec fn validation_error(c: Config) -> Option<(Seq<char>, Seq<char>)> {
    if exists|i: int, j: int| undeclared_at(c, i, j) {
        let (i, j) = choose|i: int, j: int| undeclared_at(c, i, j) && forall|i2: int, j2: int|
            undeclared_at(c, i2, j2) ==> (i < i2 || (i == i2 && j <= j2));
        Some((
            "profiles."@ + c.profiles.entries@[i].0@ + ".types."@ + c.profiles.entries@[i].1.types.entries@[j].0@,
            "type not declared in pd_types"@,
        ))
    } else if exists|i: int| unknown_profile_at(c, i) {
        let i = choose|i: int| unknown_profile_at(c, i) && forall|i2: int| unknown_profile_at(c, i2) ==> i <= i2;
        Some((
            "systems."@ + c.systems.entries@[i].0@ + ".profile"@,
            "unknown profile '"@ + c.systems.entries@[i].1.profile@ + "'"@,
        ))
    } else if unknown_default_profile(c) {
        Some(("defaults.profile"@, "unknown profile '"@ + c.defaults.profile@ + "'"@))
    } else if exists|i: int| unknown_upstream_at(c, i) {
        let i = choose|i: int| unknown_upstream_at(c, i) && forall|i2: int| unknown_upstream_at(c, i2) ==> i <= i2;
        Some((
            "routes."@ + c.routes@[i].id@ + ".upstream"@,
            "unknown upstream '"@ + c.routes@[i].upstream@ + "'"@,
        ))
    } else if exists|i: int, j: int| duplicate_at(c, i, j) {
        let (i, j) = choose|i: int, j: int| duplicate_at(c, i, j) && forall|i2: int, j2: int|
            duplicate_at(c, i2, j2) ==> (i < i2 || (i == i2 && j <= j2));
        Some((
            "routes["@ + decimal_spec(i as nat) + "] vs routes["@ + decimal_spec((i + 1) as nat) + "]"@,
            "duplicate route match without distinguishing condition"@,
        ))
    } else {
        None
    }
}

fn headers_equal_exec(a: &StrMap<String>, b: &StrMap<String>) -> (r: bool)
    ensures
        r == headers_equal(*a, *b),
{
    if a.entries.len() != b.entries.len() {
        return false;
    }
    let mut i: usize = 0;
    while i < a.entries.len()
        invariant
            a.entries@.len() == b.entries@.len(),
            i <= a.entries@.len(),
            forall|j: int| 0 <= j < i ==> (b.get_spec((#[trigger] a.entries@[j]).0@) matches Some(v) && v@ == a.entries@[j].1@),
        decreases a.entries.len() - i,
    {
        match b.get(&a.entries[i].0) {
            Some(v) => {
                if !str_eq(v.as_str(), a.entries[i].1.as_str()) {
                    return false;
                }
            },
            None => {
                return false;
            },
        }
        i += 1;
    }
    true
}

fn validation(path: String, msg: String) -> (e: ConfigError)
    ensures
        e == (ConfigError::Validation { path, msg }),
{
    ConfigError::Validation { path, msg }
}

fn cat3(a: &str, b: &str, c: &str) -> (r: String)
    ensures
        r@ == a@ + b@ + c@,
{
    let mut s = String::new();
    push_str(&mut s, a);
    push_str(&mut s, b);
    push_str(&mut s, c);
    s
}

/// Checks the references of a configuration: profile types are declared, systems and the
/// defaults name existing profiles, routes name existing upstreams, and no two routes match
/// the same requests. The first refusal, in that order, is returned.
pub fn validate(cfg: &Config) -> (r: Result<(), ConfigError>)
    requires
        crate::config::compiled::config_wf(*cfg),
    ensures
        match validation_error(*cfg) {
            None => r is Ok,
            Some((path, msg)) => r matches Err(ConfigError::Validation { path: p, msg: m }) && p@ == path && m@ == msg,
        },
{
    // profile types
    let mut i: usize = 0;
    while i < cfg.profiles.entries.len()
        invariant
            crate::config::compiled::config_wf(*cfg),
            i <= cfg.profiles.entries@.len(),
            forall|i2: int, j2: int| i2 < i ==> !undeclared_at(*cfg, i2, j2),
        decreases cfg.profiles.entries.len() - i,
    {
        let p = &cfg.profiles.entries[i].1;
        let mut j: usize = 0;
        while j < p.types.entries.len()
            invariant
                crate::config::compiled::config_wf(*cfg),
                i < cfg.profiles.entries@.len(),
                *p == cfg.profiles.entries@[i as int].1,
                j <= p.types.entries@.len(),
                forall|i2: int, j2: int| i2 < i ==> !undeclared_at(*cfg, i2, j2),
                forall|j2: int| j2 < j ==> !undeclared_at(*cfg, i as int, j2),
            decreases p.types.entries.len() - j,
        {
            let t = &p.types.entries[j].0;
            if !cfg.pd_types.contains_key(t) {
                assert(undeclared_at(*cfg, i as int, j as int));
                assert(forall|i2: int, j2: int| undeclared_at(*cfg, i2, j2) ==> (i < i2 || (i == i2 && j <= j2)));
                let mut path = cat3("profiles.", cfg.profiles.entries[i].0.as_str(), ".types.");
                push_str(&mut path, t.as_str());
                proof {
                    let (a, b) = choose|a: int, b: int| undeclared_at(*cfg, a, b) && forall|i2: int, j2: int|
                        undeclared_at(*cfg, i2, j2) ==> (a < i2 || (a == i2 && b <= j2));
                    assert(a == i && b == j);
                }
                return Err(validation(path, "type not declared in pd_types".to_string()));
            }
            j += 1;
        }
        i += 1;
    }
    assert(!exists|a: int, b: int| undeclared_at(*cfg, a, b));
    // system profiles
    let mut k: usize = 0;
    while k < cfg.systems.entries.len()
        invariant
            crate::config::compiled::config_wf(*cfg),
            !exists|a: int, b: int| undeclared_at(*cfg, a, b),
            k <= cfg.systems.entries@.len(),
            forall|i2: int| i2 < k ==> !unknown_profile_at(*cfg, i2),
        decreases cfg.systems.entries.len() - k,
    {
        let sc = &cfg.systems.entries[k].1;
        if !sc.profile.as_str().is_empty() && !cfg.profiles.contains_key(&sc.profile) {
            assert(unknown_profile_at(*cfg, k as int));
            assert(forall|i2: int| unknown_profile_at(*cfg, i2) ==> k <= i2);
            let path = cat3("systems.", cfg.systems.entries[k].0.as_str(), ".profile");
            let msg = cat3("unknown profile '", sc.profile.as_str(), "'");
            return Err(validation(path, msg));
        }
        k += 1;
    }
    assert(!exists|a: int| unknown_profile_at(*cfg, a));
    // default profile
    if !cfg.defaults.profile.as_str().is_empty() && !cfg.profiles.contains_key(&cfg.defaults.profile) {
        let msg = cat3("unknown profile '", cfg.defaults.profile.as_str(), "'");
        return Err(validation("defaults.profile".to_string(), msg));
    }
    // upstreams
    let mut u: usize = 0;
    while u < cfg.routes.len()
        invariant
            crate::config::compiled::config_wf(*cfg),
            !exists|a: int, b: int| undeclared_at(*cfg, a, b),
            !exists|a: int| unknown_profile_at(*cfg, a),
            !unknown_default_profile(*cfg),
            u <= cfg.routes@.len(),
            forall|i2: int| i2 < u ==> !unknown_upstream_at(*cfg, i2),
        decreases cfg.routes.len() - u,
    {
        let r = &cfg.routes[u];
        if !r.upstream.as_str().is_empty() && !cfg.upstreams.contains_key(&r.upstream) {
            assert(unknown_upstream_at(*cfg, u as int));
            assert(forall|i2: int| unknown_upstream_at(*cfg, i2) ==> u <= i2);
            let path = cat3("routes.", r.id.as_str(), ".upstream");
            let msg = cat3("unknown upstream '", r.upstream.as_str(), "'");
            return Err(validation(path, msg));
        }
        u += 1;
    }
    assert(!exists|a: int| unknown_upstream_at(*cfg, a));
    // duplicate matches
    let mut a: usize = 0;
    while a < cfg.routes.len()
        invariant
            crate::config::compiled::config_wf(*cfg),
            !exists|x: int, y: int| undeclared_at(*cfg, x, y),
            !exists|x: int| unknown_profile_at(*cfg, x),
            !unknown_default_profile(*cfg),
            !exists|x: int| unknown_upstream_at(*cfg, x),
            a <= cfg.routes@.len(),
            forall|i2: int, j2: int| i2 < a ==> !duplicate_at(*cfg, i2, j2),
        decreases cfg.routes.len() - a,
    {
        let mut b: usize = a + 1;
        while b < cfg.routes.len()
            invariant
                crate::config::compiled::config_wf(*cfg),
                !exists|x: int, y: int| undeclared_at(*cfg, x, y),
                !exists|x: int| unknown_profile_at(*cfg, x),
                !unknown_default_profile(*cfg),
                !exists|x: int| unknown_upstream_at(*cfg, x),
                a < cfg.routes@.len(),
                a + 1 <= b <= cfg.routes@.len(),
                forall|i2: int, j2: int| i2 < a ==> !duplicate_at(*cfg, i2, j2),
                forall|j2: int| j2 < b ==> !duplicate_at(*cfg, a as int, j2),
            decreases cfg.routes.len() - b,
        {
            let ra = &cfg.routes[a];
            let rb = &cfg.routes[b];
            if str_eq(ra.route_match.method.as_str(), rb.route_match.method.as_str())
                && str_eq(ra.route_match.path.as_str(), rb.route_match.path.as_str())
                && str_eq(ra.route_match.path_prefix.as_str(), rb.route_match.path_prefix.as_str())
                && headers_equal_exec(&ra.route_match.header, &rb.route_match.header) {
                assert(duplicate_at(*cfg, a as int, b as int));
                assert(forall|i2: int, j2: int| duplicate_at(*cfg, i2, j2) ==> (a < i2 || (a == i2 && b <= j2)));
                proof {
                    let (x, y) = choose|x: int, y: int| duplicate_at(*cfg, x, y) && forall|i2: int, j2: int|
                        duplicate_at(*cfg, i2, j2) ==> (x < i2 || (x == i2 && y <= j2));
                    assert(x == a);
                }
                let mut path = String::new();
                push_str(&mut path, "routes[");
                push_decimal(&mut path, a as u64);
                push_str(&mut path, "] vs routes[");
                push_decimal(&mut path, (a + 1) as u64);
                push_str(&mut path, "]");
                return Err(validation(path, "duplicate route match without distinguishing condition".to_string()));
            }
            b += 1;
        }
        assert forall|j2: int| !duplicate_at(*cfg, a as int, j2) by {
            if j2 <= a as int {
            }
        }
        a += 1;
    }
    assert(!exists|x: int, y: int| duplicate_at(*cfg, x, y));
    Ok(())
}

// ---------------------------------------------------------------- secrets and key digests

/// Value of a hex digit byte (either case), or -1.
pub open spec fn hex_byte_val(b: u8) -> int {
    if 0x30 <= b <= 0x39 {
        b - 0x30
    } else if 0x61 <= b <= 0x66 {
        b - 0x61 + 10
    } else if 0x41 <= b <= 0x46 {
        b - 0x41 + 10
    } else {
        -1
    }
}

/// The 32 bytes a 64-digit hex string denotes, or nothing when it is not one.
pub open spec fn hex32_spec(b: Seq<u8>) -> Option<Seq<u8>> {
    if b.len() == 64 && forall|i: int| 0 <= i < 64 ==> hex_byte_val(#[trigger] b[i]) >= 0 {
        Some(Seq::new(32, |i: int| (hex_byte_val(b[2 * i]) * 16 + hex_byte_val(b[2 * i + 1])) as u8))
    } else {
        None
    }
}

fn hex_byte_value(b: u8) -> (r: i32)
    ensures
        r == hex_byte_val(b),
{
    if 0x30 <= b && b <= 0x39 {
        (b - 0x30) as i32
    } else if 0x61 <= b && b <= 0x66 {
        (b - 0x61 + 10) as i32
    } else if 0x41 <= b && b <= 0x46 {
        (b - 0x41 + 10) as i32
    } else {
        -1
    }
}

/// Decodes a 64-digit hex digest into 32 bytes.
pub fn decode_hex32(s: &str) -> (r: Option<[u8; 32]>)
    ensures
        match hex32_spec(s.spec_bytes()) {
            Some(v) => r matches Some(a) && a@ == v,
            None => r is None,
        },
{
    let b = s.as_bytes();
    if b.len() != 64 {
        return None;
    }
    let mut out: [u8; 32] = [0u8; 32];
    let mut i: usize = 0;
    while i < 32
        invariant
            b@ == s.spec_bytes(),
            b@.len() == 64,
            i <= 32,
            out@.len() == 32,
            forall|j: int| 0 <= j < 2 * i ==> hex_byte_val(#[trigger] b@[j]) >= 0,
            forall|j: int| 0 <= j < i ==> #[trigger] out@[j] == (hex_byte_val(b@[2 * j]) * 16 + hex_byte_val(b@[2 * j + 1])) as u8,
        decreases 32 - i,
    {
        let hi = hex_byte_value(b[2 * i]);
        let lo = hex_byte_value(b[2 * i + 1]);
        if hi < 0 || lo < 0 {
            return None;
        }
        let v = (hi * 16 + lo) as u8;
        out[i] = v;
        proof {
            assert forall|j: int| 0 <= j < 2 * (i + 1) implies hex_byte_val(#[trigger] b@[j]) >= 0 by {
                if j == 2 * i || j == 2 * i + 1 {
                } else {
                    assert(j < 2 * i);
                }
            }
        }
        i += 1;
    }
    assert(out@ =~= hex32_spec(s.spec_bytes())->0);
    Some(out)
}

/// Where a secret comes from: an environment variable, a file, or the text itself.
pub enum SecretSource {
    Env(String),
    File(String),
    Literal(String),
}

/// Reads a secret reference: `env:VAR`, `file:/path`, or the value itself.
pub fn secret_source(s: &str) -> (r: SecretSource)
    ensures
        seq_starts_with(s@, "env:"@) ==> (r matches SecretSource::Env(v) && v@ == s@.skip(4)),
        !seq_starts_with(s@, "env:"@) && seq_starts_with(s@, "file:"@) ==> (r matches SecretSource::File(v) && v@ == s@.skip(5)),
        !seq_starts_with(s@, "env:"@) && !seq_starts_with(s@, "file:"@) ==> (r matches SecretSource::Literal(v) && v@ == s@),
{
    let cs = str_chars(s);
    let env = str_chars("env:");
    let file = str_chars("file:");
    proof {
        reveal_strlit("env:");
        reveal_strlit("file:");
    }
    if occurs_at_exec(cs.as_slice(), env.as_slice(), 0) {
        let rest = vstd::slice::slice_subrange(cs.as_slice(), 4, cs.len());
        assert(rest@ =~= s@.skip(4));
        return SecretSource::Env(string_from_chars(rest));
    }
    if occurs_at_exec(cs.as_slice(), file.as_slice(), 0) {
        let rest = vstd::slice::slice_subrange(cs.as_slice(), 5, cs.len());
        assert(rest@ =~= s@.skip(5));
        return SecretSource::File(string_from_chars(rest));
    }
    SecretSource::Literal(s.to_string())
}

// ---------------------------------------------------------------- dictionary files

/// A dictionary line is kept when, trimmed, it is neither empty nor a comment.
pub open spec fn keep_line(l: Seq<char>) -> bool {
    l.len() > 0 && l[0] != '#'
}

/// The trimmed pieces that are kept, in order.
pub open spec fn kept_lines(pieces: Seq<Seq<char>>) -> Seq<Seq<char>>
    decreases pieces.len(),
{
    if pieces.len() == 0 {
        Seq::empty()
    } else {
        let prev = kept_lines(pieces.drop_last());
        let t = trim_spec(pieces.last());
        if keep_line(t) {
            prev.push(t)
        } else {
            prev
        }
    }
}

/// The entries of a dictionary file: its lines trimmed, without empty lines and comments.
pub open spec fn resource_lines(content: Seq<char>) -> Seq<Seq<char>> {
    kept_lines(split_on(content, '\n'))
}

/// The entries of a dictionary file.
pub fn parse_lines(content: &str) -> (r: Vec<String>)
    ensures
        strings_of(r@) == resource_lines(content@),
{
    let cs = str_chars(content);
    let mut out: Vec<String> = Vec::new();
    let mut cur: Vec<char> = Vec::new();
    let mut i: usize = 0;
    assert(cs@.take(0) =~= Seq::<char>::empty());
    assert(split_on(Seq::<char>::empty(), '\n').drop_last() =~= Seq::<Seq<char>>::empty());
    while i < cs.len()
        invariant
            cs@ == content@,
            i <= cs@.len(),
            split_on(cs@.take(i as int), '\n').len() >= 1,
            strings_of(out@) == kept_lines(split_on(cs@.take(i as int), '\n').drop_last()),
            cur@ == split_on(cs@.take(i as int), '\n').last(),
        decreases cs.len() - i,
    {
        let c = cs[i];
        let ghost sp = split_on(cs@.take(i as int), '\n');
        assert(cs@.take(i + 1).drop_last() =~= cs@.take(i as int));
        assert(cs@.take(i + 1).last() == c);
        if c == '\n' {
            let t = trim_chars(cur.as_slice());
            let ghost before = out@;
            if t.len() > 0 && t[0] != '#' {
                out.push(string_from_chars(t.as_slice()));
                assert(strings_of(out@) =~= strings_of(before).push(t@));
            }
            cur = Vec::new();
            assert(split_on(cs@.take(i + 1), '\n').drop_last() =~= sp);
            assert(sp.drop_last().push(sp.last()) =~= sp);
        } else {
            cur.push(c);
            assert(split_on(cs@.take(i + 1), '\n').drop_last() =~= sp.drop_last());
        }
        i += 1;
    }
    assert(cs@.take(cs@.len() as int) =~= cs@);
    let ghost sp = split_on(cs@, '\n');
    let t = trim_chars(cur.as_slice());
    let ghost before = out@;
    if t.len() > 0 && t[0] != '#' {
        out.push(string_from_chars(t.as_slice()));
        assert(strings_of(out@) =~= strings_of(before).push(t@));
    }
    assert(sp.drop_last().push(sp.last()) =~= sp);
    out
}

/// The pieces of a dictionary line between `|`, each trimmed.
pub open spec fn pipe_pieces(l: Seq<char>) -> Seq<Seq<char>> {
    let p = split_on(l, '|');
    Seq::new(p.len(), |i: int| trim_spec(p[i]))
}

/// The entries of a dictionary file of `|`-separated forms.
pub fn parse_pipe_lines(content: &str) -> (r: Vec<Vec<String>>)
    ensures
        r@.len() == resource_lines(content@).len(),
        forall|i: int| 0 <= i < r@.len() ==> strings_of(#[trigger] r@[i]@) == pipe_pieces(resource_lines(content@)[i]),
{
    let lines = parse_lines(content);
    let mut out: Vec<Vec<String>> = Vec::new();
    let mut i: usize = 0;
    while i < lines.len()
        invariant
            strings_of(lines@) == resource_lines(content@),
            i <= lines@.len(),
            out@.len() == i,
            forall|j: int| 0 <= j < i ==> strings_of(#[trigger] out@[j]@) == pipe_pieces(resource_lines(content@)[j]),
        decreases lines.len() - i,
    {
        assert(strings_of(lines@)[i as int] == lines@[i as int]@);
        let cs = str_chars(lines[i].as_str());
        let mut pieces: Vec<String> = Vec::new();
        let mut cur: Vec<char> = Vec::new();
        let mut k: usize = 0;
        let ghost l = cs@;
        assert(l.take(0) =~= Seq::<char>::empty());
        while k < cs.len()
            invariant
                cs@ == l,
                k <= l.len(),
                split_on(l.take(k as int), '|').len() >= 1,
                strings_of(pieces@) == Seq::new((split_on(l.take(k as int), '|').len() - 1) as nat, |j: int| trim_spec(split_on(l.take(k as int), '|')[j])),
                cur@ == split_on(l.take(k as int), '|').last(),
            decreases cs.len() - k,
        {
            let c = cs[k];
            let ghost sp = split_on(l.take(k as int), '|');
            assert(l.take(k + 1).drop_last() =~= l.take(k as int));
            assert(l.take(k + 1).last() == c);
            if c == '|' {
                let t = trim_chars(cur.as_slice());
                let ghost before = pieces@;
                pieces.push(string_from_chars(t.as_slice()));
                cur = Vec::new();
                let ghost sp2 = split_on(l.take(k + 1), '|');
                assert(sp2 == sp.push(Seq::empty()));
                assert(strings_of(pieces@) =~= strings_of(before).push(t@));
                assert forall|j: int| 0 <= j < sp.len() implies #[trigger] sp2[j] == sp[j] by {}
                assert(t@ == trim_spec(sp[sp.len() - 1]));
                assert(strings_of(pieces@) =~= Seq::new((sp2.len() - 1) as nat, |j: int| trim_spec(sp2[j])));
            } else {
                cur.push(c);
                let ghost sp2 = split_on(l.take(k + 1), '|');
                assert(strings_of(pieces@) =~= Seq::new((sp2.len() - 1) as nat, |j: int| trim_spec(sp2[j])));
            }
            k += 1;
        }
        assert(l.take(l.len() as int) =~= l);
        let t = trim_chars(cur.as_slice());
        let ghost before = pieces@;
        pieces.push(string_from_chars(t.as_slice()));
        let ghost sp = split_on(l, '|');
        assert(strings_of(pieces@) =~= strings_of(before).push(t@));
        assert(t@ == trim_spec(sp[sp.len() - 1]));
        assert(strings_of(pieces@) =~= pipe_pieces(l));
        out.push(pieces);
        i += 1;
    }
    out
}


// ---------------------------------------------------------------- compilation

/// The dictionaries read from the resource files that the configuration names.
pub struct Resources {
    pub first_names: Vec<String>,
    pub public_persons: Vec<Vec<String>>,
    pub bank_offices: Vec<String>,
    pub bank_phones: Vec<String>,
    pub countries: Vec<String>,
    pub cities: Vec<String>,
    pub issuing_authorities: Vec<String>,
}

/// The secrets of the configuration once read: the master key, the digest of the admin
/// token, and the key digest (hex) of each system.
pub struct Secrets {
    pub master_key_b64: String,
    pub admin_token_sha256: String,
    pub system_keys: StrMap<String>,
}

/// The first declared type whose detector is refused, in declaration order: its path, and
/// whether the pattern (rather than a missing value group) is at fault.
pub open spec fn detector_error(e: Seq<(PdType, PdTypeConfig)>) -> Option<(Seq<char>, bool)>
    decreases e.len(),
{
    if e.len() == 0 {
        None
    } else {
        match e[0].1.detector {
            Some(d) => if !regex_valid(d.regex@) {
                Some(("pd_types."@ + e[0].0@ + ".detector.regex"@, true))
            } else if d.value_group@.len() == 0 {
                Some(("pd_types."@ + e[0].0@ + ".detector"@, false))
            } else {
                detector_error(e.drop_first())
            },
            None => detector_error(e.drop_first()),
        }
    }
}

/// The detector declared for a type.
pub open spec fn detector_in(e: Seq<(PdType, PdTypeConfig)>, t: Seq<char>) -> Option<DetectorConfig> {
    match lookup_in(e, t) {
        Some(tc) => tc.detector,
        None => None,
    }
}

/// The detector maps hold, for each type with a detector, its compiled pattern, value
/// group, base score and context words, and nothing for the others.
pub open spec fn detector_maps(
    e: Seq<(PdType, PdTypeConfig)>,
    dr: TypeMap<Pattern>,
    vg: TypeMap<String>,
    bs: TypeMap<u32>,
    dc: TypeMap<(Vec<String>, Vec<String>)>,
) -> bool {
    forall|t: Seq<char>| match #[trigger] detector_in(e, t) {
        Some(d) => {
            &&& dr.get_spec(t) matches Some(p) && p@ == d.regex@
            &&& vg.get_spec(t) matches Some(v) && v@ == d.value_group@
            &&& bs.get_spec(t) == Some(d.base_score_permille)
            &&& dc.get_spec(t) matches Some(c) && c.0@ == d.context_pos@ && c.1@ == d.context_neg@
        },
        None => dr.get_spec(t) is None && vg.get_spec(t) is None && bs.get_spec(t) is None && dc.get_spec(t) is None,
    }
}

/// The label, priority and threshold maps hold each declared type's values.
pub open spec fn type_maps(e: Seq<(PdType, PdTypeConfig)>, labels: TypeMap<String>, priorities: TypeMap<i32>, thresholds: TypeMap<u32>) -> bool {
    forall|t: Seq<char>| match #[trigger] lookup_in(e, t) {
        Some(tc) => {
            &&& labels.get_spec(t) matches Some(l) && l@ == tc.label@
            &&& priorities.get_spec(t) == Some(tc.priority)
            &&& thresholds.get_spec(t) == Some(tc.threshold_permille)
        },
        None => labels.get_spec(t) is None && priorities.get_spec(t) is None && thresholds.get_spec(t) is None,
    }
}

/// The raw key digests: for each system whose hex digest is well formed, its 32 bytes.
pub open spec fn key_bytes_map(keys: StrMap<String>, kb: StrMap<Vec<u8>>) -> bool {
    forall|id: Seq<char>| match #[trigger] keys.get_spec(id) {
        Some(h) => match hex32_spec(encode_utf8(h@)) {
            Some(v) => kb.get_spec(id) matches Some(b) && b@ == v,
            None => kb.get_spec(id) is None,
        },
        None => kb.get_spec(id) is None,
    }
}

/// The system and route of a precomputed policy.
pub open spec fn policy_key(p: (String, Option<String>, EffectivePolicy)) -> (Seq<char>, Option<Seq<char>>) {
    (p.0@, match p.1 {
        Some(r) => Some(r@),
        None => None,
    })
}

/// The routes of `routes` on which the system has a policy, in order.
pub open spec fn route_keys(c: CompiledConfig, id: Seq<char>, routes: Seq<RouteConfig>) -> Seq<(Seq<char>, Option<Seq<char>>)>
    decreases routes.len(),
{
    if routes.len() == 0 {
        Seq::empty()
    } else {
        let prev = route_keys(c, id, routes.drop_last());
        let rid = Some(routes.last().id@);
        if policy_error(c, id, rid) is None {
            prev.push((id, rid))
        } else {
            prev
        }
    }
}

/// The system's own entry (without route) when it has a policy, then its routes.
pub open spec fn system_keys_of(c: CompiledConfig, id: Seq<char>) -> Seq<(Seq<char>, Option<Seq<char>>)> {
    let own = if policy_error(c, id, None) is None {
        seq![(id, None::<Seq<char>>)]
    } else {
        Seq::empty()
    };
    own + route_keys(c, id, c.raw.routes@)
}

/// Every system (in order) with its policy entries.
pub open spec fn policy_keys(c: CompiledConfig, systems: Seq<(String, SystemConfig)>) -> Seq<(Seq<char>, Option<Seq<char>>)>
    decreases systems.len(),
{
    if systems.len() == 0 {
        Seq::empty()
    } else {
        policy_keys(c, systems.drop_last()) + system_keys_of(c, systems.last().0@)
    }
}

/// Compiles a configuration: checks it, compiles the detectors' patterns, gathers the
/// dictionaries, the per-type labels, priorities and thresholds, the secrets and the raw
/// key digests, and precomputes the policy of every system, alone and on every route.
pub fn compile(cfg: Config, resources: Resources, secrets: Secrets) -> (r: Result<CompiledConfig, ConfigError>)
    requires
        crate::config::compiled::config_wf(cfg),
        secrets.system_keys.wf(),
    ensures
        match validation_error(cfg) {
            Some((path, msg)) => r matches Err(ConfigError::Validation { path: p, msg: m }) && p@ == path && m@ == msg,
            None => match detector_error(cfg.pd_types.entries@) {
                Some((path, true)) => r matches Err(ConfigError::Validation { path: p, msg: m }) && p@ == path
                    && seq_starts_with(m@, "invalid regex: "@),
                Some((path, false)) => r matches Err(ConfigError::Validation { path: p, msg: m }) && p@ == path
                    && m@ == "value_group is required"@,
                None => r matches Ok(c) && {
                    &&& c.wf()
                    &&& c.version == 1
                    &&& c.raw == cfg
                    &&& detector_maps(cfg.pd_types.entries@, c.detector_regexes, c.detector_value_groups, c.detector_base_scores, c.detector_context)
                    &&& type_maps(cfg.pd_types.entries@, c.labels, c.priorities, c.thresholds)
                    &&& c.first_names@ == resources.first_names@
                    &&& c.public_persons@ == resources.public_persons@
                    &&& c.bank_offices@ == resources.bank_offices@
                    &&& c.bank_phones@ == resources.bank_phones@
                    &&& c.countries@ == resources.countries@
                    &&& c.cities@ == resources.cities@
                    &&& c.issuing_authorities@ == resources.issuing_authorities@
                    &&& c.master_key_b64 == secrets.master_key_b64
                    &&& c.admin_token_sha256 == secrets.admin_token_sha256
                    &&& c.system_keys == secrets.system_keys
                    &&& key_bytes_map(c.system_keys, c.system_key_bytes)
                    &&& c.placeholder_format@ == cfg.defaults.placeholder.format@
                    &&& c.default_action@ == cfg.defaults.action@
                    &&& c.policies@.map_values(|p: (String, Option<String>, EffectivePolicy)| policy_key(p)) == policy_keys(c, cfg.systems.entries@)
                    &&& forall|k: int| 0 <= k < c.policies@.len() ==> policy_facts(c, (#[trigger] c.policies@[k]).0@, policy_key(c.policies@[k]).1, c.policies@[k].2)
                },
            },
        },
{
    match validate(&cfg) {
        Err(e) => return Err(e),
        Ok(()) => {},
    }
    let ghost e = cfg.pd_types.entries@;
    let mut dr: TypeMap<Pattern> = TypeMap::new();
    let mut vg: TypeMap<String> = TypeMap::new();
    let mut bs: TypeMap<u32> = TypeMap::new();
    let mut dc: TypeMap<(Vec<String>, Vec<String>)> = TypeMap::new();
    let mut labels: TypeMap<String> = TypeMap::new();
    let mut priorities: TypeMap<i32> = TypeMap::new();
    let mut thresholds: TypeMap<u32> = TypeMap::new();
    let mut i: usize = 0;
    assert(e.skip(0) =~= e);
    assert(e.take(0) =~= Seq::<(PdType, PdTypeConfig)>::empty());
    while i < cfg.pd_types.entries.len()
        invariant
            e == cfg.pd_types.entries@,
            unique_keys(e),
            validation_error(cfg) is None,
            i <= e.len(),
            detector_error(e) == detector_error(e.skip(i as int)),
            dr.wf() && vg.wf() && bs.wf() && dc.wf() && labels.wf() && priorities.wf() && thresholds.wf(),
            detector_maps(e.take(i as int), dr, vg, bs, dc),
            type_maps(e.take(i as int), labels, priorities, thresholds),
        decreases e.len() - i,
    {
        let (t, tc) = &cfg.pd_types.entries[i];
        let ghost prev = e.take(i as int);
        let ghost next = e.take(i + 1);
        assert(next.drop_last() =~= prev);
        assert(next.last() == e[i as int]);
        assert(e.skip(i as int).drop_first() =~= e.skip(i + 1));
        assert(e.skip(i as int)[0] == e[i as int]);
        let ghost dr_old = dr;
        let ghost vg_old = vg;
        let ghost bs_old = bs;
        let ghost dc_old = dc;
        let ghost labels_old = labels;
        let ghost priorities_old = priorities;
        let ghost thresholds_old = thresholds;
        proof {
            assert forall|j: int| 0 <= j < prev.len() implies (#[trigger] prev[j]).0@ != t@ by {
                assert(prev[j] == e[j]);
            }
            lemma_lookup_absent(prev, t@);
            assert(detector_in(prev, t@) is None);
            assert(match detector_in(prev, t@) {
                Some(d) => true,
                None => dr.get_spec(t@) is None && vg.get_spec(t@) is None && bs.get_spec(t@) is None && dc.get_spec(t@) is None,
            });
            assert(match lookup_in(prev, t@) {
                Some(tc) => true,
                None => labels.get_spec(t@) is None && priorities.get_spec(t@) is None && thresholds.get_spec(t@) is None,
            });
        }
        match &tc.detector {
            Some(d) => {
                let re = match Pattern::compile(d.regex.as_str()) {
                    Ok(p) => p,
                    Err(msg) => {
                        let mut path = String::new();
                        push_str(&mut path, "pd_types.");
                        push_str(&mut path, t.as_str());
                        push_str(&mut path, ".detector.regex");
                        let mut m = String::new();
                        push_str(&mut m, "invalid regex: ");
                        push_str(&mut m, msg.as_str());
                        assert(m@.subrange(0, "invalid regex: "@.len() as int) =~= "invalid regex: "@);
                        return Err(ConfigError::Validation { path, msg: m });
                    },
                };
                if d.value_group.as_str().is_empty() {
                    let mut path = String::new();
                    push_str(&mut path, "pd_types.");
                    push_str(&mut path, t.as_str());
                    push_str(&mut path, ".detector");
                    return Err(ConfigError::Validation { path, msg: "value_group is required".to_string() });
                }
                dr.insert(t.clone(), re);
                vg.insert(t.clone(), d.value_group.clone());
                bs.insert(t.clone(), d.base_score_permille);
                dc.insert(t.clone(), (clone_strings(&d.context_pos), clone_strings(&d.context_neg)));
            },
            None => {},
        }
        labels.insert(t.clone(), tc.label.clone());
        priorities.insert(t.clone(), tc.priority);
        thresholds.insert(t.clone(), tc.threshold_permille);
        proof {
            assert forall|x: Seq<char>| #[trigger] lookup_in(next, x) == if x == t@ {
                Some(*tc)
            } else {
                lookup_in(prev, x)
            } by {}
            assert forall|x: Seq<char>| x != t@ implies #[trigger] detector_in(next, x) == detector_in(prev, x) by {
                assert(lookup_in(next, x) == lookup_in(prev, x));
            }
            assert(detector_in(next, t@) == tc.detector) by {
                assert(lookup_in(next, t@) == Some(*tc));
            }
            assert(detector_maps(next, dr, vg, bs, dc)) by {
                assert forall|x: Seq<char>| match #[trigger] detector_in(next, x) {
                    Some(d) => {
                        &&& dr.get_spec(x) matches Some(p) && p@ == d.regex@
                        &&& vg.get_spec(x) matches Some(v) && v@ == d.value_group@
                        &&& bs.get_spec(x) == Some(d.base_score_permille)
                        &&& dc.get_spec(x) matches Some(c) && c.0@ == d.context_pos@ && c.1@ == d.context_neg@
                    },
                    None => dr.get_spec(x) is None && vg.get_spec(x) is None && bs.get_spec(x) is None && dc.get_spec(x) is None,
                } by {
                    if x != t@ {
                        assert(detector_in(next, x) == detector_in(prev, x));
                        assert(match detector_in(prev, x) {
                            Some(d) => {
                                &&& dr_old.get_spec(x) matches Some(p) && p@ == d.regex@
                                &&& vg_old.get_spec(x) matches Some(v) && v@ == d.value_group@
                                &&& bs_old.get_spec(x) == Some(d.base_score_permille)
                                &&& dc_old.get_spec(x) matches Some(c) && c.0@ == d.context_pos@ && c.1@ == d.context_neg@
                            },
                            None => dr_old.get_spec(x) is None && vg_old.get_spec(x) is None && bs_old.get_spec(x) is None && dc_old.get_spec(x) is None,
                        });
                    }
                }
            }
            assert(type_maps(next, labels, priorities, thresholds)) by {
                assert forall|x: Seq<char>| match #[trigger] lookup_in(next, x) {
                    Some(tc) => {
                        &&& labels.get_spec(x) matches Some(l) && l@ == tc.label@
                        &&& priorities.get_spec(x) == Some(tc.priority)
                        &&& thresholds.get_spec(x) == Some(tc.threshold_permille)
                    },
                    None => labels.get_spec(x) is None && priorities.get_spec(x) is None && thresholds.get_spec(x) is None,
                } by {
                    if x != t@ {
                        assert(match lookup_in(prev, x) {
                            Some(tc) => {
                                &&& labels_old.get_spec(x) matches Some(l) && l@ == tc.label@
                                &&& priorities_old.get_spec(x) == Some(tc.priority)
                                &&& thresholds_old.get_spec(x) == Some(tc.threshold_permille)
                            },
                            None => labels_old.get_spec(x) is None && priorities_old.get_spec(x) is None && thresholds_old.get_spec(x) is None,
                        });
                    }
                }
            }
        }
        i += 1;
    }
    assert(e.take(i as int) =~= e);
    assert(e.skip(i as int) =~= Seq::<(PdType, PdTypeConfig)>::empty());
    let system_key_bytes = key_bytes_of(&secrets.system_keys);
    let placeholder_format = cfg.defaults.placeholder.format.clone();
    let default_action = cfg.defaults.action.clone();
    let mut compiled = CompiledConfig {
        version: 1,
        raw: cfg,
        detector_regexes: dr,
        detector_value_groups: vg,
        detector_base_scores: bs,
        detector_context: dc,
        first_names: resources.first_names,
        public_persons: resources.public_persons,
        bank_offices: resources.bank_offices,
        bank_phones: resources.bank_phones,
        countries: resources.countries,
        cities: resources.cities,
        issuing_authorities: resources.issuing_authorities,
        policies: Vec::new(),
        labels,
        priorities,
        thresholds,
        master_key_b64: secrets.master_key_b64,
        admin_token_sha256: secrets.admin_token_sha256,
        system_keys: secrets.system_keys,
        system_key_bytes,
        placeholder_format,
        default_action,
    };
    let policies = all_policies(&compiled);
    let ghost before = compiled;
    compiled.policies = policies;
    proof {
        lemma_policies_irrelevant(before, compiled);
    }
    Ok(compiled)
}

/// The raw 32 bytes of each well-formed hex key digest.
fn key_bytes_of(keys: &StrMap<String>) -> (r: StrMap<Vec<u8>>)
    requires
        keys.wf(),
    ensures
        r.wf(),
        key_bytes_map(*keys, r),
{
    let ghost e = keys.entries@;
    let mut r: StrMap<Vec<u8>> = StrMap::new();
    let mut i: usize = 0;
    while i < keys.entries.len()
        invariant
            e == keys.entries@,
            unique_keys(e),
            i <= e.len(),
            r.wf(),
            forall|id: Seq<char>| match #[trigger] lookup_in(e.take(i as int), id) {
                Some(h) => match hex32_spec(encode_utf8(h@)) {
                    Some(v) => r.get_spec(id) matches Some(b) && b@ == v,
                    None => r.get_spec(id) is None,
                },
                None => r.get_spec(id) is None,
            },
        decreases e.len() - i,
    {
        let (id, hex) = &keys.entries[i];
        assert(e.take(i + 1).drop_last() =~= e.take(i as int));
        assert(e.take(i + 1).last() == e[i as int]);
        proof {
            assert forall|j: int| 0 <= j < e.take(i as int).len() implies (#[trigger] e.take(i as int)[j]).0@ != id@ by {
                assert(e.take(i as int)[j] == e[j]);
            }
            lemma_lookup_absent(e.take(i as int), id@);
        }
        match decode_hex32(hex.as_str()) {
            Some(bytes) => {
                let mut v: Vec<u8> = Vec::new();
                let mut k: usize = 0;
                while k < 32
                    invariant
                        k <= 32,
                        bytes@.len() == 32,
                        v@ == bytes@.take(k as int),
                    decreases 32 - k,
                {
                    v.push(bytes[k]);
                    k += 1;
                    assert(v@ =~= bytes@.take(k as int));
                }
                assert(v@ =~= bytes@);
                r.insert(id.clone(), v);
            },
            None => {},
        }
        proof {
            let prev = e.take(i as int);
            let next = e.take(i + 1);
            assert forall|x: Seq<char>| #[trigger] lookup_in(next, x) == if x == id@ {
                Some(*hex)
            } else {
                lookup_in(prev, x)
            } by {}
        }
        i += 1;
    }
    assert(e.take(i as int) =~= e);
    r
}

/// The policy of every system, alone and then on each route, where one applies.
fn all_policies(c: &CompiledConfig) -> (r: Vec<(String, Option<String>, EffectivePolicy)>)
    requires
        c.wf(),
    ensures
        r@.map_values(|p: (String, Option<String>, EffectivePolicy)| policy_key(p)) == policy_keys(*c, c.raw.systems.entries@),
        forall|k: int| 0 <= k < r@.len() ==> policy_facts(*c, (#[trigger] r@[k]).0@, policy_key(r@[k]).1, r@[k].2),
{
    let ghost sys = c.raw.systems.entries@;
    let ghost routes = c.raw.routes@;
    let mut out: Vec<(String, Option<String>, EffectivePolicy)> = Vec::new();
    let mut i: usize = 0;
    while i < c.raw.systems.entries.len()
        invariant
            c.wf(),
            sys == c.raw.systems.entries@,
            routes == c.raw.routes@,
            i <= sys.len(),
            out@.map_values(|p: (String, Option<String>, EffectivePolicy)| policy_key(p)) == policy_keys(*c, sys.take(i as int)),
            forall|k: int| 0 <= k < out@.len() ==> policy_facts(*c, (#[trigger] out@[k]).0@, policy_key(out@[k]).1, out@[k].2),
        decreases sys.len() - i,
    {
        let id = &c.raw.systems.entries[i].0;
        let ghost base = out@.map_values(|p: (String, Option<String>, EffectivePolicy)| policy_key(p));
        assert(sys.take(i + 1).drop_last() =~= sys.take(i as int));
        assert(sys.take(i + 1).last().0@ == id@);
        match resolve_policy(c, id.as_str(), None) {
            Ok(p) => {
                out.push((id.clone(), None, p));
                assert(out@.map_values(|p: (String, Option<String>, EffectivePolicy)| policy_key(p)) =~= base.push((id@, None::<Seq<char>>)));
            },
            Err(_) => {},
        }
        let ghost own = out@.map_values(|p: (String, Option<String>, EffectivePolicy)| policy_key(p));
        assert(own =~= base + (if policy_error(*c, id@, None) is None {
            seq![(id@, None::<Seq<char>>)]
        } else {
            Seq::empty()
        }));
        let mut j: usize = 0;
        while j < c.raw.routes.len()
            invariant
                c.wf(),
                sys == c.raw.systems.entries@,
                routes == c.raw.routes@,
                i < sys.len(),
                sys[i as int].0@ == id@,
                j <= routes.len(),
                out@.map_values(|p: (String, Option<String>, EffectivePolicy)| policy_key(p)) == own + route_keys(*c, id@, routes.take(j as int)),
                forall|k: int| 0 <= k < out@.len() ==> policy_facts(*c, (#[trigger] out@[k]).0@, policy_key(out@[k]).1, out@[k].2),
            decreases routes.len() - j,
        {
            let rid = &c.raw.routes[j].id;
            let ghost cur = out@.map_values(|p: (String, Option<String>, EffectivePolicy)| policy_key(p));
            assert(routes.take(j + 1).drop_last() =~= routes.take(j as int));
            assert(routes.take(j + 1).last().id@ == rid@);
            match resolve_policy(c, id.as_str(), Some(rid.as_str())) {
                Ok(p) => {
                    out.push((id.clone(), Some(rid.clone()), p));
                    assert(out@.map_values(|p: (String, Option<String>, EffectivePolicy)| policy_key(p)) =~= cur.push((id@, Some(rid@))));
                    assert(own + route_keys(*c, id@, routes.take(j + 1)) =~= (own + route_keys(*c, id@, routes.take(j as int))).push((id@, Some(rid@))));
                },
                Err(_) => {},
            }
            j += 1;
        }
        assert(routes.take(j as int) =~= routes);
        assert(policy_keys(*c, sys.take(i + 1)) =~= policy_keys(*c, sys.take(i as int)) + system_keys_of(*c, id@));
        i += 1;
    }
    assert(sys.take(i as int) =~= sys);
    out
}

/// A policy precomputed for a system and route has the value that resolving the policy for
/// them gives: both are the policy in force (`policy_in_force`).
pub proof fn law_precomputed_policy_is_resolved(c: CompiledConfig, k: int, resolved: EffectivePolicy)
    requires
        0 <= k < c.policies@.len(),
        policy_facts(c, c.policies@[k].0@, policy_key(c.policies@[k]).1, c.policies@[k].2),
        policy_facts(c, c.policies@[k].0@, policy_key(c.policies@[k]).1, resolved),
    ensures
        policy_view(c.policies@[k].2) == policy_view(resolved),
{
}

/// The policies do not depend on the precomputed policies themselves.
proof fn lemma_policies_irrelevant(a: CompiledConfig, b: CompiledConfig)
    requires
        b == (CompiledConfig { policies: b.policies, ..a }),
    ensures
        forall|id: Seq<char>, rid: Option<Seq<char>>| #[trigger] policy_error(a, id, rid) == policy_error(b, id, rid),
        forall|id: Seq<char>, rid: Option<Seq<char>>, ep: EffectivePolicy| #[trigger] policy_facts(a, id, rid, ep) == policy_facts(b, id, rid, ep),
        forall|s: Seq<(String, SystemConfig)>| #[trigger] policy_keys(a, s) == policy_keys(b, s),
{
    assert forall|id: Seq<char>, rid: Option<Seq<char>>| #[trigger] policy_error(a, id, rid) == policy_error(b, id, rid) by {
        assert(a.raw == b.raw);
    }
    assert forall|id: Seq<char>, rid: Option<Seq<char>>, ep: EffectivePolicy| #[trigger] policy_facts(a, id, rid, ep) == policy_facts(b, id, rid, ep) by {
        assert(a.raw == b.raw);
        assert(a.default_action == b.default_action);
        assert(route_of(a, rid) == route_of(b, rid));
        let sys = a.raw.systems.get_spec(id)->0;
        assert(base_profile_name(a, sys, route_of(a, rid)) == base_profile_name(b, sys, route_of(b, rid)));
        assert(profile_demask(a, sys, rid) == profile_demask(b, sys, rid));
        assert forall|t: Seq<char>| #[trigger] type_entry_in_force(a, sys, rid, t) == type_entry_in_force(b, sys, rid, t) by {}
        assert(components_in_force(a, sys, rid) == components_in_force(b, sys, rid)) by {
            if components_in_force(a, sys, rid) {
                let t = choose|t: Seq<char>| components_entry(#[trigger] type_entry_in_force(a, sys, rid, t));
                assert(components_entry(type_entry_in_force(b, sys, rid, t)));
            }
            if components_in_force(b, sys, rid) {
                let t = choose|t: Seq<char>| components_entry(#[trigger] type_entry_in_force(b, sys, rid, t));
                assert(components_entry(type_entry_in_force(a, sys, rid, t)));
            }
        }
        let va = policy_in_force(a, id, rid);
        let vb = policy_in_force(b, id, rid);
        assert(va.types =~= vb.types);
        assert(va.mask_kinds =~= vb.mask_kinds);
        assert(va.rules =~= vb.rules) by {
            assert forall|t: Seq<char>| #[trigger] converted_in_force(a, sys, rid, t) == converted_in_force(b, sys, rid, t) by {}
        }
        assert(va =~= vb);
    }
    assert forall|s: Seq<(String, SystemConfig)>| #[trigger] policy_keys(a, s) == policy_keys(b, s) by {
        lemma_policy_keys_same(a, b, s);
    }
}

proof fn lemma_policy_keys_same(a: CompiledConfig, b: CompiledConfig, s: Seq<(String, SystemConfig)>)
    requires
        forall|id: Seq<char>, rid: Option<Seq<char>>| #[trigger] policy_error(a, id, rid) == policy_error(b, id, rid),
        a.raw == b.raw,
    ensures
        policy_keys(a, s) == policy_keys(b, s),
    decreases s.len(),
{
    if s.len() > 0 {
        lemma_policy_keys_same(a, b, s.drop_last());
        lemma_route_keys_same(a, b, s.last().0@, a.raw.routes@);
    }
}

proof fn lemma_route_keys_same(a: CompiledConfig, b: CompiledConfig, id: Seq<char>, rs: Seq<RouteConfig>)
    requires
        forall|id: Seq<char>, rid: Option<Seq<char>>| #[trigger] policy_error(a, id, rid) == policy_error(b, id, rid),
    ensures
        route_keys(a, id, rs) == route_keys(b, id, rs),
    decreases rs.len(),
{
    if rs.len() > 0 {
        lemma_route_keys_same(a, b, id, rs.drop_last());
    }
}

} // verus!
