//! The configuration model: what the configuration file holds, as plain values.
//! Scores and ratios are in thousandths.
use vstd::prelude::*;

use crate::domain::pd_type::PdType;
use crate::domain::type_map::{StrMap, TypeMap};

verus! {

pub fn default_listen() -> (r: String)
    ensures
        r@ == "0.0.0.0:8080"@,
{
    "0.0.0.0:8080".to_string()
}

pub fn default_admin_listen() -> (r: String)
    ensures
        r@ == "127.0.0.1:9090"@,
{
    "127.0.0.1:9090".to_string()
}

pub fn default_max_body() -> (r: usize)
    ensures
        r == 2_000_000,
{
    2_000_000
}

pub fn default_timeout_ms() -> (r: u64)
    ensures
        r == 950,
{
    950
}

pub fn default_max_inflight() -> (r: usize)
    ensures
        r == 4096,
{
    4096
}

pub fn default_heavy_threshold() -> (r: usize)
    ensures
        r == 65536,
{
    65536
}

pub fn default_auth_header() -> (r: String)
    ensures
        r@ == "X-System-Key"@,
{
    "X-System-Key".to_string()
}

pub fn default_system_id_header() -> (r: String)
    ensures
        r@ == "X-System-Id"@,
{
    "X-System-Id".to_string()
}

pub fn default_level() -> (r: String)
    ensures
        r@ == "info"@,
{
    "info".to_string()
}

pub fn default_format() -> (r: String)
    ensures
        r@ == "json"@,
{
    "json".to_string()
}

pub fn default_true() -> (r: bool)
    ensures
        r == true,
{
    true
}

pub fn default_vault_mode() -> (r: String)
    ensures
        r@ == "memory"@,
{
    "memory".to_string()
}

pub fn default_ttl() -> (r: u64)
    ensures
        r == 900,
{
    900
}

pub fn default_max_entries() -> (r: u64)
    ensures
        r == 1_000_000,
{
    1_000_000
}

pub fn default_ner_engine() -> (r: String)
    ensures
        r@ == "disabled"@,
{
    "disabled".to_string()
}

pub fn default_ner_timeout() -> (r: u64)
    ensures
        r == 400,
{
    400
}

pub fn default_max_windows() -> (r: usize)
    ensures
        r == 64,
{
    64
}

pub fn default_workers() -> (r: usize)
    ensures
        r == 4,
{
    4
}

pub fn default_max_batch() -> (r: usize)
    ensures
        r == 16,
{
    16
}

pub fn default_batch_wait() -> (r: u64)
    ensures
        r == 5,
{
    5
}

pub fn default_ner_http_timeout() -> (r: u64)
    ensures
        r == 300,
{
    300
}

pub fn default_failure_ratio() -> (r: u32)
    ensures
        r == 500,
{
    500
}

pub fn default_window() -> (r: usize)
    ensures
        r == 20,
{
    20
}

pub fn default_open_seconds() -> (r: u64)
    ensures
        r == 10,
{
    10
}

pub fn default_priority() -> (r: i32)
    ensures
        r == 50,
{
    50
}

pub fn default_threshold() -> (r: u32)
    ensures
        r == 600,
{
    600
}

pub fn default_validator() -> (r: String)
    ensures
        r@ == "none"@,
{
    "none".to_string()
}

pub fn default_base_score() -> (r: u32)
    ensures
        r == 800,
{
    800
}

pub fn default_window_left() -> (r: usize)
    ensures
        r == 60,
{
    60
}

pub fn default_window_right() -> (r: usize)
    ensures
        r == 20,
{
    20
}

pub fn default_placeholder_format() -> (r: String)
    ensures
        r@ == "[{label}_{n}]"@,
{
    "[{label}_{n}]".to_string()
}

pub fn default_upstream_timeout() -> (r: u64)
    ensures
        r == 60000,
{
    60000
}

/// The whole configuration.
pub struct Config {
    pub version: u32,
    pub server: ServerConfig,
    pub security: SecurityConfig,
    pub logging: LoggingConfig,
    pub vault: VaultConfig,
    pub ner: NerConfig,
    pub resources: ResourcesConfig,
    pub pd_types: TypeMap<PdTypeConfig>,
    pub profiles: StrMap<ProfileConfig>,
    pub defaults: DefaultsConfig,
    pub systems: StrMap<SystemConfig>,
    pub upstreams: StrMap<UpstreamConfig>,
    pub routes: Vec<RouteConfig>,
}

/// Listening addresses and request limits.
pub struct ServerConfig {
    pub listen: String,
    pub admin_listen: String,
    pub max_body_bytes: usize,
    pub request_timeout_ms: u64,
    pub max_inflight: usize,
    pub heavy_text_threshold_bytes: usize,
}

impl Default for ServerConfig {
    fn default() -> (r: Self)
        ensures
            r.listen@ == "0.0.0.0:8080"@,
            r.admin_listen@ == "127.0.0.1:9090"@,
            r.max_body_bytes == 2_000_000,
            r.request_timeout_ms == 950,
            r.max_inflight == 4096,
            r.heavy_text_threshold_bytes == 65536,
    {
        ServerConfig {
            listen: default_listen(),
            admin_listen: default_admin_listen(),
            max_body_bytes: default_max_body(),
            request_timeout_ms: default_timeout_ms(),
            max_inflight: default_max_inflight(),
            heavy_text_threshold_bytes: default_heavy_threshold(),
        }
    }
}

/// Secrets and authentication headers.
pub struct SecurityConfig {
    pub master_key: String,
    pub admin_token_sha256: String,
    pub auth_header: String,
    pub system_id_header: String,
    /// The system that serves requests without authentication headers; empty closes
    /// anonymous access.
    pub default_system_id: String,
}

impl Default for SecurityConfig {
    fn default() -> (r: Self)
        ensures
            r.master_key@.len() == 0,
            r.admin_token_sha256@.len() == 0,
            r.auth_header@ == "X-System-Key"@,
            r.system_id_header@ == "X-System-Id"@,
            r.default_system_id@.len() == 0,
    {
        SecurityConfig {
            master_key: String::new(),
            admin_token_sha256: String::new(),
            auth_header: default_auth_header(),
            system_id_header: default_system_id_header(),
            default_system_id: String::new(),
        }
    }
}

/// Logging level and format.
pub struct LoggingConfig {
    pub level: String,
    pub format: String,
    pub log_entity_offsets: bool,
}

impl Default for LoggingConfig {
    fn default() -> (r: Self)
        ensures
            r.level@ == "info"@,
            r.format@ == "json"@,
            r.log_entity_offsets,
    {
        LoggingConfig { level: default_level(), format: default_format(), log_entity_offsets: true }
    }
}

/// Where mappings are kept and for how long.
pub struct VaultConfig {
    pub mode: String,
    pub ttl_seconds: u64,
    pub max_entries: u64,
    pub redis_url: String,
    pub delete_after_demask: bool,
}

impl Default for VaultConfig {
    fn default() -> (r: Self)
        ensures
            r.mode@ == "memory"@,
            r.ttl_seconds == 900,
            r.max_entries == 1_000_000,
            r.redis_url@.len() == 0,
            !r.delete_after_demask,
    {
        VaultConfig {
            mode: default_vault_mode(),
            ttl_seconds: default_ttl(),
            max_entries: default_max_entries(),
            redis_url: String::new(),
            delete_after_demask: false,
        }
    }
}

/// Named-entity recognition.
pub struct NerConfig {
    pub engine: String,
    pub onnx: NerOnnxConfig,
    pub http: NerHttpConfig,
    pub timeout_ms: u64,
    pub max_windows_per_request: usize,
    pub trigger_words: Vec<String>,
    pub circuit_breaker: CircuitBreakerConfig,
}

impl Default for NerConfig {
    fn default() -> (r: Self)
        ensures
            r.engine@ == "disabled"@,
            r.timeout_ms == 400,
            r.max_windows_per_request == 64,
            r.trigger_words@.len() == 0,
    {
        NerConfig {
            engine: default_ner_engine(),
            onnx: NerOnnxConfig::default(),
            http: NerHttpConfig::default(),
            timeout_ms: default_ner_timeout(),
            max_windows_per_request: default_max_windows(),
            trigger_words: Vec::new(),
            circuit_breaker: CircuitBreakerConfig::default(),
        }
    }
}

/// A local recognition model.
pub struct NerOnnxConfig {
    pub model_path: String,
    pub tokenizer_path: String,
    pub workers: usize,
    pub max_batch: usize,
    pub batch_wait_ms: u64,
}

impl Default for NerOnnxConfig {
    fn default() -> (r: Self)
        ensures
            r.model_path@.len() == 0,
            r.tokenizer_path@.len() == 0,
            r.workers == 4,
            r.max_batch == 16,
            r.batch_wait_ms == 5,
    {
        NerOnnxConfig {
            model_path: String::new(),
            tokenizer_path: String::new(),
            workers: default_workers(),
            max_batch: default_max_batch(),
            batch_wait_ms: default_batch_wait(),
        }
    }
}

/// A recognition service over HTTP.
pub struct NerHttpConfig {
    pub url: String,
    pub timeout_ms: u64,
}

impl Default for NerHttpConfig {
    fn default() -> (r: Self)
        ensures
            r.url@.len() == 0,
            r.timeout_ms == 300,
    {
        NerHttpConfig { url: String::new(), timeout_ms: default_ner_http_timeout() }
    }
}

/// When the breaker in front of the recognition service opens; the ratio in thousandths.
pub struct CircuitBreakerConfig {
    pub failure_ratio_permille: u32,
    pub window: usize,
    pub open_seconds: u64,
}

impl Default for CircuitBreakerConfig {
    fn default() -> (r: Self)
        ensures
            r.failure_ratio_permille == 500,
            r.window == 20,
            r.open_seconds == 10,
    {
        CircuitBreakerConfig {
            failure_ratio_permille: default_failure_ratio(),
            window: default_window(),
            open_seconds: default_open_seconds(),
        }
    }
}

/// Paths of the dictionaries.
pub struct ResourcesConfig {
    pub first_names: String,
    pub public_persons: String,
    pub bank_offices: String,
    pub bank_phones: String,
    pub countries: String,
    pub cities: String,
    pub issuing_authorities: String,
}

impl Default for ResourcesConfig {
    fn default() -> (r: Self)
        ensures
            r.first_names@.len() == 0,
            r.public_persons@.len() == 0,
            r.bank_offices@.len() == 0,
            r.bank_phones@.len() == 0,
            r.countries@.len() == 0,
            r.cities@.len() == 0,
            r.issuing_authorities@.len() == 0,
    {
        ResourcesConfig {
            first_names: String::new(),
            public_persons: String::new(),
            bank_offices: String::new(),
            bank_phones: String::new(),
            countries: String::new(),
            cities: String::new(),
            issuing_authorities: String::new(),
        }
    }
}

/// A type of personal data: its label, priority, threshold and optional detector.
pub struct PdTypeConfig {
    pub label: String,
    pub priority: i32,
    pub threshold_permille: u32,
    pub detector: Option<DetectorConfig>,
}

/// A detector written in the configuration.
pub struct DetectorConfig {
    pub regex: String,
    pub value_group: String,
    pub validator: String,
    pub base_score_permille: u32,
    pub context_pos: Vec<String>,
    pub context_neg: Vec<String>,
    pub window: WindowConfig,
}

/// Context window around a match, in bytes.
pub struct WindowConfig {
    pub left: usize,
    pub right: usize,
}

impl Default for WindowConfig {
    fn default() -> (r: Self)
        ensures
            r.left == 60,
            r.right == 20,
    {
        WindowConfig { left: default_window_left(), right: default_window_right() }
    }
}

/// A masking profile.
pub struct ProfileConfig {
    pub types: TypeMap<TypeMaskConfig>,
    pub ner: ProfileNerConfig,
    pub filters: Vec<String>,
    pub combination: CombinationConfig,
    pub ambiguous_ids: Option<String>,
    pub demask: Option<bool>,
}

impl Default for ProfileConfig {
    fn default() -> (r: Self)
        ensures
            r.types.wf(),
            r.types.entries@.len() == 0,
            !r.ner.enabled,
            r.ner.types@.len() == 0,
            r.ner.on_failure is None,
            r.filters@.len() == 0,
            r.combination.rules.wf(),
            r.combination.rules.entries@.len() == 0,
            r.combination.min_distinct_types == 0,
            r.combination.always_mask@.len() == 0,
            r.ambiguous_ids is None,
            r.demask is None,
    {
        ProfileConfig {
            types: TypeMap::new(),
            ner: ProfileNerConfig::default(),
            filters: Vec::new(),
            combination: CombinationConfig::default(),
            ambiguous_ids: None,
            demask: None,
        }
    }
}

/// How one type is masked in a profile.
pub struct TypeMaskConfig {
    pub mask: Option<String>,
    pub mode: Option<String>,
    pub keep_last: Option<usize>,
    pub disabled: Option<bool>,
}

fn clone_opt_string(o: &Option<String>) -> (r: Option<String>)
    ensures
        r == *o,
{
    match o {
        Some(s) => Some(s.clone()),
        None => None,
    }
}

impl Clone for TypeMaskConfig {
    fn clone(&self) -> (r: Self)
        ensures
            r == *self,
    {
        TypeMaskConfig {
            mask: clone_opt_string(&self.mask),
            mode: clone_opt_string(&self.mode),
            keep_last: self.keep_last,
            disabled: self.disabled,
        }
    }
}

impl crate::domain::type_map::ExactClone for TypeMaskConfig {
    fn exact_clone(&self) -> (r: Self) {
        self.clone()
    }
}

/// Named-entity recognition in a profile.
pub struct ProfileNerConfig {
    pub enabled: bool,
    pub types: Vec<PdType>,
    pub on_failure: Option<String>,
}

impl Default for ProfileNerConfig {
    fn default() -> (r: Self)
        ensures
            !r.enabled,
            r.types@.len() == 0,
            r.on_failure is None,
    {
        ProfileNerConfig { enabled: false, types: Vec::new(), on_failure: None }
    }
}

/// A co-occurrence rule as written: the scope is a word.
pub struct CombinationRuleConfig {
    pub requires_any: Vec<PdType>,
    pub requires_all: Vec<PdType>,
    pub scope: Option<String>,
    pub window_chars: usize,
}

/// The co-occurrence rules of a profile; a rule set to nothing removes the type's rule.
pub struct CombinationConfig {
    pub rules: TypeMap<Option<CombinationRuleConfig>>,
    pub min_distinct_types: usize,
    pub always_mask: Vec<PdType>,
}

impl Default for CombinationConfig {
    fn default() -> (r: Self)
        ensures
            r.rules.wf(),
            r.rules.entries@.len() == 0,
            r.min_distinct_types == 0,
            r.always_mask@.len() == 0,
    {
        CombinationConfig { rules: TypeMap::new(), min_distinct_types: 0, always_mask: Vec::new() }
    }
}

/// Defaults: profile, placeholder format, action.
pub struct DefaultsConfig {
    pub profile: String,
    pub placeholder: PlaceholderConfig,
    pub action: String,
}

impl Default for DefaultsConfig {
    fn default() -> (r: Self)
        ensures
            r.profile@.len() == 0,
            r.placeholder.format@ == "[{label}_{n}]"@,
            r.action@ == "mask"@,
    {
        DefaultsConfig {
            profile: String::new(),
            placeholder: PlaceholderConfig::default(),
            action: "mask".to_string(),
        }
    }
}

/// The format of placeholders.
pub struct PlaceholderConfig {
    pub format: String,
}

impl Default for PlaceholderConfig {
    fn default() -> (r: Self)
        ensures
            r.format@ == "[{label}_{n}]"@,
    {
        PlaceholderConfig { format: default_placeholder_format() }
    }
}

/// A calling system.
pub struct SystemConfig {
    pub enabled: bool,
    pub key_sha256: String,
    pub profile: String,
    pub demask: bool,
    pub rate_limit_rps: Option<u64>,
    pub overrides: Option<ProfileConfig>,
    pub route_overrides: StrMap<RouteOverrideConfig>,
}

/// What a system changes on one route.
pub struct RouteOverrideConfig {
    pub types: TypeMap<TypeMaskConfig>,
    pub combination: Option<CombinationConfig>,
    pub demask: Option<bool>,
}

/// An upstream model service.
pub struct UpstreamConfig {
    pub url: String,
    pub auth_header: String,
    pub auth_value: String,
    pub timeout_ms: u64,
    pub pass_headers: Vec<String>,
}

/// A proxied route.
pub struct RouteConfig {
    pub id: String,
    pub route_match: RouteMatch,
    pub upstream: String,
    pub request: RouteRequestConfig,
    pub response: RouteResponseConfig,
    pub stream: String,
    pub action: Option<String>,
    pub systems: Vec<String>,
}

/// How requests are matched to a route.
pub struct RouteMatch {
    pub method: String,
    pub path: String,
    pub path_prefix: String,
    pub header: StrMap<String>,
}

/// What a route masks in requests.
pub struct RouteRequestConfig {
    pub json_paths: Vec<String>,
    pub profile_override: Option<String>,
    pub types_override: TypeMap<TypeMaskConfig>,
}

impl Default for RouteRequestConfig {
    fn default() -> (r: Self)
        ensures
            r.json_paths@.len() == 0,
            r.profile_override is None,
            r.types_override.entries@.len() == 0,
    {
        RouteRequestConfig { json_paths: Vec::new(), profile_override: None, types_override: TypeMap::new() }
    }
}

/// What a route demasks in responses.
pub struct RouteResponseConfig {
    pub demask: bool,
    pub json_paths: Vec<String>,
}

impl Default for RouteResponseConfig {
    fn default() -> (r: Self)
        ensures
            !r.demask,
            r.json_paths@.len() == 0,
    {
        RouteResponseConfig { demask: false, json_paths: Vec::new() }
    }
}

// ---------------------------------------------------------------- values of profiles

/// The names of a list of types.
pub open spec fn names_of(v: Seq<PdType>) -> Seq<Seq<char>> {
    Seq::new(v.len(), |i: int| v[i]@)
}

/// The characters of a list of strings.
pub open spec fn strings_of(v: Seq<String>) -> Seq<Seq<char>> {
    Seq::new(v.len(), |i: int| v[i]@)
}

/// The value of an optional string.
pub open spec fn opt_str(o: Option<String>) -> Option<Seq<char>> {
    match o {
        Some(s) => Some(s@),
        None => None,
    }
}

/// The value of a co-occurrence rule.
pub struct RuleView {
    pub requires_any: Seq<Seq<char>>,
    pub requires_all: Seq<Seq<char>>,
    pub scope: Option<Seq<char>>,
    pub window_chars: usize,
}

pub open spec fn rule_view(r: CombinationRuleConfig) -> RuleView {
    RuleView {
        requires_any: names_of(r.requires_any@),
        requires_all: names_of(r.requires_all@),
        scope: opt_str(r.scope),
        window_chars: r.window_chars,
    }
}

/// The value of an optional rule.
pub open spec fn opt_rule_view(o: Option<CombinationRuleConfig>) -> Option<RuleView> {
    match o {
        Some(r) => Some(rule_view(r)),
        None => None,
    }
}

/// The rule entry of a type: absent, set to nothing, or a rule.
pub open spec fn rule_entry(m: TypeMap<Option<CombinationRuleConfig>>, t: Seq<char>) -> Option<Option<RuleView>> {
    match m.get_spec(t) {
        Some(o) => Some(opt_rule_view(o)),
        None => None,
    }
}

/// Two co-occurrence configurations hold the same values.
pub open spec fn combination_equiv(a: CombinationConfig, b: CombinationConfig) -> bool {
    &&& a.rules.wf() && b.rules.wf()
    &&& forall|t: Seq<char>| #[trigger] rule_entry(a.rules, t) == rule_entry(b.rules, t)
    &&& a.min_distinct_types == b.min_distinct_types
    &&& names_of(a.always_mask@) == names_of(b.always_mask@)
}

/// Two profiles hold the same values.
pub open spec fn profile_equiv(a: ProfileConfig, b: ProfileConfig) -> bool {
    &&& a.types.wf() && b.types.wf()
    &&& forall|t: Seq<char>| #[trigger] a.types.get_spec(t) == b.types.get_spec(t)
    &&& a.ner.enabled == b.ner.enabled
    &&& names_of(a.ner.types@) == names_of(b.ner.types@)
    &&& opt_str(a.ner.on_failure) == opt_str(b.ner.on_failure)
    &&& strings_of(a.filters@) == strings_of(b.filters@)
    &&& combination_equiv(a.combination, b.combination)
    &&& opt_str(a.ambiguous_ids) == opt_str(b.ambiguous_ids)
    &&& a.demask == b.demask
}

/// A copy of a list of types.
pub fn clone_types(v: &Vec<PdType>) -> (r: Vec<PdType>)
    ensures
        r@ == v@,
{
    let mut out: Vec<PdType> = Vec::new();
    let mut i: usize = 0;
    while i < v.len()
        invariant
            i <= v@.len(),
            out@ == v@.take(i as int),
        decreases v.len() - i,
    {
        out.push(v[i].clone());
        assert(out@ =~= v@.take(i + 1));
        i += 1;
    }
    assert(v@.take(v@.len() as int) =~= v@);
    out
}

/// A copy of a list of strings.
pub fn clone_strings(v: &Vec<String>) -> (r: Vec<String>)
    ensures
        r@ == v@,
{
    let mut out: Vec<String> = Vec::new();
    let mut i: usize = 0;
    while i < v.len()
        invariant
            i <= v@.len(),
            out@ == v@.take(i as int),
        decreases v.len() - i,
    {
        out.push(v[i].clone());
        assert(out@ =~= v@.take(i + 1));
        i += 1;
    }
    assert(v@.take(v@.len() as int) =~= v@);
    out
}

/// A copy of a rule.
pub fn clone_rule(r: &CombinationRuleConfig) -> (c: CombinationRuleConfig)
    ensures
        c.requires_any@ == r.requires_any@,
        c.requires_all@ == r.requires_all@,
        c.scope == r.scope,
        c.window_chars == r.window_chars,
{
    CombinationRuleConfig {
        requires_any: clone_types(&r.requires_any),
        requires_all: clone_types(&r.requires_all),
        scope: clone_opt_string(&r.scope),
        window_chars: r.window_chars,
    }
}

proof fn lemma_rule_lookup(a: Seq<(PdType, Option<CombinationRuleConfig>)>, b: Seq<(PdType, Option<CombinationRuleConfig>)>, t: Seq<char>)
    requires
        a.len() == b.len(),
        forall|i: int| 0 <= i < a.len() ==> (#[trigger] a[i]).0 == b[i].0 && opt_rule_view(a[i].1) == opt_rule_view(b[i].1),
    ensures
        match (crate::domain::type_map::lookup_in(a, t), crate::domain::type_map::lookup_in(b, t)) {
            (Some(x), Some(y)) => opt_rule_view(x) == opt_rule_view(y),
            (None, None) => true,
            _ => false,
        },
    decreases a.len(),
{
    if a.len() > 0 {
        lemma_rule_lookup(a.drop_last(), b.drop_last(), t);
        assert(a[a.len() - 1].0 == b[b.len() - 1].0);
    }
}

/// A copy of a co-occurrence configuration.
pub fn clone_combination(c: &CombinationConfig) -> (r: CombinationConfig)
    requires
        c.rules.wf(),
    ensures
        combination_equiv(r, *c),
{
    let mut entries: Vec<(PdType, Option<CombinationRuleConfig>)> = Vec::new();
    let mut i: usize = 0;
    while i < c.rules.entries.len()
        invariant
            i <= c.rules.entries@.len(),
            entries@.len() == i,
            forall|j: int| 0 <= j < i ==> (#[trigger] entries@[j]).0 == c.rules.entries@[j].0
                && opt_rule_view(entries@[j].1) == opt_rule_view(c.rules.entries@[j].1),
        decreases c.rules.entries.len() - i,
    {
        let k = c.rules.entries[i].0.clone();
        let v = match &c.rules.entries[i].1 {
            Some(r) => Some(clone_rule(r)),
            None => None,
        };
        entries.push((k, v));
        i += 1;
    }
    let r = CombinationConfig {
        rules: crate::domain::type_map::KeyMap { entries },
        min_distinct_types: c.min_distinct_types,
        always_mask: clone_types(&c.always_mask),
    };
    proof {
        assert forall|a: int, b: int| 0 <= a < b < r.rules.entries@.len() implies (#[trigger] r.rules.entries@[a]).0@ != (#[trigger] r.rules.entries@[b]).0@ by {
            assert(r.rules.entries@[a].0 == c.rules.entries@[a].0);
            assert(r.rules.entries@[b].0 == c.rules.entries@[b].0);
        }
        assert forall|t: Seq<char>| #[trigger] rule_entry(r.rules, t) == rule_entry(c.rules, t) by {
            lemma_rule_lookup(r.rules.entries@, c.rules.entries@, t);
        }
    }
    r
}

/// A copy of a profile.
pub fn clone_profile(p: &ProfileConfig) -> (r: ProfileConfig)
    requires
        p.types.wf(),
        p.combination.rules.wf(),
    ensures
        profile_equiv(r, *p),
{
    ProfileConfig {
        types: p.types.clone_map(),
        ner: ProfileNerConfig {
            enabled: p.ner.enabled,
            types: clone_types(&p.ner.types),
            on_failure: clone_opt_string(&p.ner.on_failure),
        },
        filters: clone_strings(&p.filters),
        combination: clone_combination(&p.combination),
        ambiguous_ids: clone_opt_string(&p.ambiguous_ids),
        demask: p.demask,
    }
}

} // verus!
