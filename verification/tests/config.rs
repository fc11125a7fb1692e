use pd_guard::config::loader::{compile, resolve_policy, validate, ConfigError, PolicyError, Resources, Secrets};
use pd_guard::config::model::{
    Config, DefaultsConfig, DetectorConfig, LoggingConfig, NerConfig, PdTypeConfig, ProfileConfig, ResourcesConfig,
    SecurityConfig, ServerConfig, SystemConfig, TypeMaskConfig, VaultConfig, WindowConfig,
};
use pd_guard::domain::pd_type::PdType;
use pd_guard::domain::type_map::{StrMap, TypeMap};

fn pd_type(label: &str, detector: Option<DetectorConfig>) -> PdTypeConfig {
    PdTypeConfig { label: label.to_string(), priority: 50, threshold_permille: 600, detector }
}

fn system(profile: &str, enabled: bool) -> SystemConfig {
    SystemConfig {
        enabled,
        key_sha256: String::new(),
        profile: profile.to_string(),
        demask: true,
        rate_limit_rps: None,
        overrides: None,
        route_overrides: StrMap::new(),
    }
}

fn base() -> Config {
    let mut pd_types = TypeMap::new();
    pd_types.insert(PdType::new("FIO"), pd_type("ФИО", None));
    let mut types = TypeMap::new();
    types.insert(
        PdType::new("FIO"),
        TypeMaskConfig { mask: Some("placeholder".to_string()), mode: None, keep_last: None, disabled: None },
    );
    let mut profiles = StrMap::new();
    profiles.insert("default".to_string(), ProfileConfig { types, ..ProfileConfig::default() });
    let mut systems = StrMap::new();
    systems.insert("sys".to_string(), system("default", true));
    systems.insert("off".to_string(), system("default", false));
    Config {
        version: 1,
        server: ServerConfig::default(),
        security: SecurityConfig::default(),
        logging: LoggingConfig::default(),
        vault: VaultConfig::default(),
        ner: NerConfig::default(),
        resources: ResourcesConfig::default(),
        pd_types,
        profiles,
        defaults: DefaultsConfig::default(),
        systems,
        upstreams: StrMap::new(),
        routes: Vec::new(),
    }
}

fn resources() -> Resources {
    Resources {
        first_names: Vec::new(),
        public_persons: Vec::new(),
        bank_offices: Vec::new(),
        bank_phones: Vec::new(),
        countries: Vec::new(),
        cities: Vec::new(),
        issuing_authorities: Vec::new(),
    }
}

fn secrets() -> Secrets {
    Secrets { master_key_b64: String::new(), admin_token_sha256: String::new(), system_keys: StrMap::new() }
}

fn validation(r: Result<(), ConfigError>) -> (String, String) {
    match r {
        Err(ConfigError::Validation { path, msg }) => (path, msg),
        _ => panic!("expected a validation error"),
    }
}

#[test]
fn valid_config_passes() {
    assert!(validate(&base()).is_ok());
}

#[test]
fn undeclared_type_in_profile() {
    let mut cfg = base();
    cfg.pd_types = TypeMap::new();
    let (path, msg) = validation(validate(&cfg));
    assert_eq!(path, "profiles.default.types.FIO");
    assert_eq!(msg, "type not declared in pd_types");
}

#[test]
fn unknown_profile_of_system() {
    let mut cfg = base();
    cfg.systems.insert("x".to_string(), system("missing", true));
    let (path, msg) = validation(validate(&cfg));
    assert_eq!(path, "systems.x.profile");
    assert_eq!(msg, "unknown profile 'missing'");
}

#[test]
fn unknown_default_profile() {
    let mut cfg = base();
    cfg.defaults.profile = "nope".to_string();
    let (path, msg) = validation(validate(&cfg));
    assert_eq!(path, "defaults.profile");
    assert_eq!(msg, "unknown profile 'nope'");
}

#[test]
fn compiles_and_resolves_policies() {
    let c = compile(base(), resources(), secrets()).ok().unwrap();
    let p = resolve_policy(&c, "sys", None).ok().unwrap();
    assert!(p.types.iter().any(|t| t.0 == "FIO"));
    assert!(p.demask);
    assert!(matches!(resolve_policy(&c, "nobody", None), Err(PolicyError::UnknownSystem)));
    assert!(matches!(resolve_policy(&c, "off", None), Err(PolicyError::SystemDisabled)));
}

#[test]
fn bad_detector_pattern_is_refused() {
    let mut cfg = base();
    let det = DetectorConfig {
        regex: "(unclosed".to_string(),
        value_group: "v".to_string(),
        validator: "none".to_string(),
        base_score_permille: 800,
        context_pos: Vec::new(),
        context_neg: Vec::new(),
        window: WindowConfig::default(),
    };
    cfg.pd_types.insert(PdType::new("CUSTOM"), pd_type("Свой", Some(det)));
    match compile(cfg, resources(), secrets()) {
        Err(ConfigError::Validation { path, msg }) => {
            assert_eq!(path, "pd_types.CUSTOM.detector.regex");
            assert!(msg.starts_with("invalid regex: "));
        }
        _ => panic!("expected the pattern to be refused"),
    }
}

#[test]
fn missing_value_group_is_refused() {
    let mut cfg = base();
    let det = DetectorConfig {
        regex: "(?P<v>\\d+)".to_string(),
        value_group: String::new(),
        validator: "none".to_string(),
        base_score_permille: 800,
        context_pos: Vec::new(),
        context_neg: Vec::new(),
        window: WindowConfig::default(),
    };
    cfg.pd_types.insert(PdType::new("CUSTOM"), pd_type("Свой", Some(det)));
    match compile(cfg, resources(), secrets()) {
        Err(ConfigError::Validation { path, msg }) => {
            assert_eq!(path, "pd_types.CUSTOM.detector");
            assert_eq!(msg, "value_group is required");
        }
        _ => panic!("expected the detector to be refused"),
    }
}

use pd_guard::controller::middleware::{authenticate, AuthFailure};

#[test]
fn systems_authenticate_by_key_digest() {
    let mut keys = StrMap::new();
    keys.insert(
        "sys".to_string(),
        "0d9acc4910ea35d3c9aa2d0b1150c904ad82d35251f9a4fd30f075c8b7178977".to_string(),
    );
    let s = Secrets { master_key_b64: String::new(), admin_token_sha256: String::new(), system_keys: keys };
    let c = compile(base(), resources(), s).ok().unwrap();
    let ok = authenticate(&c, Some("sys"), Some("crm-secret"), None, "rid".to_string()).ok().unwrap();
    assert_eq!((ok.system_id.as_str(), ok.request_id.as_str()), ("sys", "rid"));
    let kept = authenticate(&c, Some("sys"), Some("crm-secret"), Some("given"), "rid".to_string()).ok().unwrap();
    assert_eq!(kept.request_id, "given");
    assert!(matches!(authenticate(&c, Some("sys"), Some("wrong"), None, "r".to_string()), Err(AuthFailure::Invalid)));
    assert!(matches!(authenticate(&c, Some("other"), Some("crm-secret"), None, "r".to_string()), Err(AuthFailure::Invalid)));
    assert!(matches!(authenticate(&c, None, None, None, "r".to_string()), Err(AuthFailure::Missing)));
    assert!(matches!(authenticate(&c, Some("sys"), None, None, "r".to_string()), Err(AuthFailure::Invalid)));
}
