use stoopid_logging::builder;
use stoopid_logging::config::{
    resolve_level, resolve_service_name, resolve_service_version, version_from_attributes,
};
use stoopid_logging::{try_init, Environment, InitError, LevelFilter};

fn s(v: &str) -> Option<String> {
    Some(v.to_string())
}

fn empty_env() -> Environment {
    Environment {
        log_level: None,
        otel_service_name: None,
        service_name: None,
        service_version: None,
        otel_resource_attributes: None,
    }
}

#[test]
fn resolve_level_explicit_takes_precedence_over_env() {
    assert_eq!(resolve_level(Some("debug"), Some("warn")).unwrap(), LevelFilter::Debug);
}

#[test]
fn resolve_level_reads_log_level_env_when_no_explicit() {
    assert_eq!(resolve_level(None, Some("warn")).unwrap(), LevelFilter::Warn);
}

#[test]
fn resolve_level_defaults_to_info() {
    assert_eq!(resolve_level(None, None).unwrap(), LevelFilter::Info);
}

#[test]
fn resolve_level_accepts_aliases_and_is_case_insensitive() {
    assert_eq!(resolve_level(Some("WARNING"), None).unwrap(), LevelFilter::Warn);
    assert_eq!(resolve_level(Some("FATAL"), None).unwrap(), LevelFilter::Error);
    assert_eq!(resolve_level(Some("critical"), None).unwrap(), LevelFilter::Error);
    assert_eq!(resolve_level(Some("  debug  "), None).unwrap(), LevelFilter::Debug);
}

#[test]
fn resolve_level_unknown_returns_error() {
    let err = resolve_level(Some("loud"), None).unwrap_err();
    match err {
        InitError::UnknownLevel(s) => assert_eq!(s, "loud"),
        other => panic!("expected UnknownLevel, got {other:?}"),
    }
}

#[test]
fn resolve_level_every_name_and_alias() {
    assert_eq!(resolve_level(Some("info"), None).unwrap(), LevelFilter::Info);
    assert_eq!(resolve_level(Some("Warn"), None).unwrap(), LevelFilter::Warn);
    assert_eq!(resolve_level(Some("error"), None).unwrap(), LevelFilter::Error);
    assert_eq!(resolve_level(Some("\tError\n"), None).unwrap(), LevelFilter::Error);
    assert_eq!(resolve_level(Some("\u{3000}info\u{a0}"), None).unwrap(), LevelFilter::Info);
}

#[test]
fn resolve_level_error_carries_normalized_text() {
    match resolve_level(None, Some("  LOUD ")) {
        Err(InitError::UnknownLevel(s)) => assert_eq!(s, "loud"),
        other => panic!("expected UnknownLevel, got {other:?}"),
    }
    match resolve_level(Some("DÉBUG"), None) {
        Err(InitError::UnknownLevel(s)) => assert_eq!(s, "débug"),
        other => panic!("expected UnknownLevel, got {other:?}"),
    }
    match resolve_level(Some(""), Some("debug")) {
        Err(InitError::UnknownLevel(s)) => assert_eq!(s, ""),
        other => panic!("expected UnknownLevel, got {other:?}"),
    }
}

#[test]
fn resolve_service_name_prefers_otel_service_name() {
    assert_eq!(resolve_service_name(s("billing"), s("ignored")), "billing");
}

#[test]
fn resolve_service_name_falls_back_to_service_name() {
    assert_eq!(resolve_service_name(None, s("checkout")), "checkout");
}

#[test]
fn resolve_service_name_default_when_unset() {
    assert_eq!(resolve_service_name(None, None), "unknown_service");
}

#[test]
fn resolve_service_version_prefers_explicit() {
    assert_eq!(
        resolve_service_version(s("1.2.3"), Some("service.version=ignored")),
        "1.2.3"
    );
}

#[test]
fn resolve_service_version_parses_otel_resource_attributes() {
    assert_eq!(
        resolve_service_version(
            None,
            Some("deployment.environment=prod,service.version=4.5.6,team=platform")
        ),
        "4.5.6"
    );
}

#[test]
fn resolve_service_version_ignores_malformed_pairs() {
    assert_eq!(
        resolve_service_version(None, Some("no_equals_sign,still_no=,service.version=7.8.9")),
        "7.8.9"
    );
}

#[test]
fn resolve_service_version_defaults_when_unset() {
    assert_eq!(resolve_service_version(None, None), "0.0.0");
}

#[test]
fn version_attributes_edge_cases() {
    assert_eq!(
        version_from_attributes(" service.version = 1.0 ,x=y"),
        Some("1.0".to_string())
    );
    assert_eq!(
        version_from_attributes("service.version=a=b"),
        Some("a=b".to_string())
    );
    assert_eq!(
        version_from_attributes("service.version=1,service.version=2"),
        Some("1".to_string())
    );
    assert_eq!(version_from_attributes("service.version=,x=1"), Some(String::new()));
    assert_eq!(version_from_attributes(""), None);
    assert_eq!(version_from_attributes(",,"), None);
    assert_eq!(version_from_attributes("service.versionX=1"), None);
    assert_eq!(version_from_attributes("service.version"), None);
    assert_eq!(resolve_service_version(None, Some("team=platform")), "0.0.0");
}

#[test]
fn init_error_display() {
    let already = InitError::AlreadyInitialized;
    assert!(already.message().contains("already installed"));
    let unknown = InitError::UnknownLevel("nope".to_string());
    assert!(unknown.message().contains("nope"));
}

#[test]
fn init_error_messages_exact() {
    assert_eq!(
        InitError::AlreadyInitialized.message(),
        "a global tracing subscriber is already installed"
    );
    assert_eq!(
        InitError::UnknownLevel("nope".to_string()).message(),
        "unknown LOG_LEVEL value: nope"
    );
}

#[test]
fn unknown_level_returns_error_without_installing() {
    let result = builder().level("loud").settings(empty_env());
    match result {
        Err(InitError::UnknownLevel(s)) => assert_eq!(s, "loud"),
        Err(other) => panic!("expected UnknownLevel, got {other:?}"),
        Ok(_) => panic!("expected UnknownLevel, got settings"),
    }
}

#[test]
fn builder_settings_resolve_environment() {
    let env = Environment {
        log_level: s("error"),
        otel_service_name: s("builder-test"),
        service_name: s("ignored"),
        service_version: s("9.9.9"),
        otel_resource_attributes: s("service.version=1.0.0"),
    };
    let settings = builder().level("warn").settings(env).ok().unwrap();
    assert_eq!(settings.level, LevelFilter::Warn);
    assert_eq!(settings.service, "builder-test");
    assert_eq!(settings.version, "9.9.9");

    let env = Environment {
        log_level: s("error"),
        otel_service_name: None,
        service_name: None,
        service_version: None,
        otel_resource_attributes: s("a=b,service.version=1.0.0"),
    };
    let settings = builder().settings(env).ok().unwrap();
    assert_eq!(settings.level, LevelFilter::Error);
    assert_eq!(settings.service, "unknown_service");
    assert_eq!(settings.version, "1.0.0");

    let settings = builder().settings(empty_env()).ok().unwrap();
    assert_eq!(settings.level, LevelFilter::Info);
    assert_eq!(settings.version, "0.0.0");
}

#[test]
fn try_init_swallows_already_initialized() {
    assert!(try_init(Ok(())).is_ok());
    assert!(try_init(Err(InitError::AlreadyInitialized)).is_ok());
    match try_init(Err(InitError::UnknownLevel("loud".to_string()))) {
        Err(InitError::UnknownLevel(s)) => assert_eq!(s, "loud"),
        other => panic!("expected UnknownLevel, got {other:?}"),
    }
}

#[test]
fn builder_try_init_assembles_the_subscriber() {
    let env = Environment {
        log_level: None,
        otel_service_name: s("builder-test"),
        service_name: None,
        service_version: s("9.9.9"),
        otel_resource_attributes: None,
    };
    let pipeline = builder().level("warn").try_init(env, ()).ok().unwrap();
    assert!(!pipeline.enabled(stoopid_logging::Level::Info));
    assert!(pipeline.enabled(stoopid_logging::Level::Warn));
    assert_eq!(pipeline.layer().service(), "builder-test");
    assert_eq!(pipeline.layer().version(), "9.9.9");
    match builder().level("loud").try_init(empty_env(), ()) {
        Err(InitError::UnknownLevel(s)) => assert_eq!(s, "loud"),
        Err(other) => panic!("expected UnknownLevel, got {other:?}"),
        Ok(_) => panic!("expected UnknownLevel, got a subscriber"),
    }
}
