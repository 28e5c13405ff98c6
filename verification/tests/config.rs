use solstone_tmux::config::{
    default_stream, is_configured_source, short_hostname, stream_for, ConfigError, ConfigFile, ConfigTarget,
    OptionalJson, RuntimeConfig,
};
use solstone_tmux::migration::{
    conclude_migration, open_migration, project_fields, project_legacy, validate_legacy, MigrationError,
    MigrationFailure, MigrationOutcome, IMPORTED_LEGACY_FIELDS,
};
use solstone_tmux::paths::{PlatformKind, TargetState};

#[test]
fn hosts_have_a_default_stream() {
    assert_eq!(default_stream("MyHost.example.org").expect("stream"), "myhost.tmux");
    assert_eq!(default_stream(" box ").expect("stream"), "box.tmux");
    assert_eq!(default_stream("192.168.0.1").expect("stream"), "192-168-0-1.tmux");
    assert_eq!(default_stream("My  Host/x\\y").expect("stream"), "my-host-x-y.tmux");
    assert_eq!(short_hostname("a.b.c"), "a");
    assert_eq!(short_hostname("1..2."), "1-2");
    assert_eq!(stream_for("a"), Some("a.tmux".to_owned()));
    assert_eq!(stream_for(""), None);
    assert_eq!(stream_for("é"), None);
    match default_stream("..x") {
        Err(ConfigError::InvalidHostname(detail)) => {
            assert_eq!(detail, "hostname \"..x\" cannot form a native stream name");
        }
        other => panic!("{other:?}"),
    }
    assert!(default_stream("").is_err());
}

#[test]
fn settings_are_checked_in_order() {
    let config = RuntimeConfig::from_config_file(&ConfigFile::default(), "box").expect("config");
    assert_eq!(config.stream.as_str(), "box.tmux");
    assert_eq!(config.capture_interval, 5);
    assert_eq!(config.segment_interval, 300);
    assert_eq!(config.cache_retention_days, 7);
    assert!(config.status_indicator);
    assert_eq!(config.source, "tmux");

    let mut file = ConfigFile::default();
    file.stream = Some(String::new());
    file.source = OptionalJson::Other;
    assert_eq!(
        RuntimeConfig::from_config_file(&file, "box").expect_err("stream").message(),
        "native stream name \"\" is invalid: identity must not be empty; update stream in config.json"
    );
    file.stream = Some("s".to_owned());
    assert!(matches!(
        RuntimeConfig::from_config_file(&file, "box"),
        Err(ConfigError::InvalidSource)
    ));
    file.source = OptionalJson::Text("Bad".to_owned());
    assert!(matches!(
        RuntimeConfig::from_config_file(&file, "box"),
        Err(ConfigError::InvalidSource)
    ));
    file.source = OptionalJson::Text("my_src-1".to_owned());
    assert_eq!(
        RuntimeConfig::from_config_file(&file, "box").expect("config").source,
        "my_src-1"
    );
    file.segment_interval = 0;
    assert_eq!(
        RuntimeConfig::from_config_file(&file, "box").expect_err("interval").message(),
        "native config segment_interval must be greater than zero seconds"
    );
    file.capture_interval = 0;
    assert_eq!(
        RuntimeConfig::from_config_file(&file, "box").expect_err("interval").message(),
        "native config capture_interval must be greater than zero seconds"
    );
    assert!(ConfigFile::default().source.is_absent());
}

#[test]
fn sources_have_a_form() {
    for source in ["a", "0", "tmux", "a-b_c", &"a".repeat(64)] {
        assert!(is_configured_source(source), "{source}");
    }
    for source in ["", "-a", "_a", "A", "a.b", "é", &"a".repeat(65)] {
        assert!(!is_configured_source(source), "{source}");
    }
}

#[test]
fn the_settings_file_is_found_in_many_ways() {
    let load = |target: ConfigTarget| RuntimeConfig::load(b"/c/config.json".to_vec(), target, "box");
    assert_eq!(load(ConfigTarget::NotFound).expect("defaults").source, "tmux");
    let message = |target: ConfigTarget| load(target).expect_err("error").message();
    assert_eq!(
        message(ConfigTarget::NotRegular),
        "native config /c/config.json must be a regular file, not a symlink or special target"
    );
    assert_eq!(
        message(ConfigTarget::InspectFailed("x".to_owned())),
        "inspect native config failed for /c/config.json: x"
    );
    assert_eq!(
        message(ConfigTarget::PermissionsFailed("x".to_owned())),
        "set native config permissions failed for /c/config.json: x"
    );
    assert_eq!(
        message(ConfigTarget::ReadFailed("x".to_owned())),
        "read native config failed for /c/config.json: x"
    );
    assert_eq!(
        message(ConfigTarget::Malformed("x".to_owned())),
        "native config /c/config.json is invalid: x"
    );
    assert_eq!(
        ConfigError::InvalidHostname("x".to_owned()).message(),
        "could not derive the default native stream from this hostname: x; set stream in config.json"
    );
}

#[test]
fn older_settings_are_taken_over_once() {
    use_migration(TargetState::Regular, TargetState::Regular, Ok(Some(MigrationOutcome::NativePresent)));
    use_migration(TargetState::NotRegular, TargetState::Regular, Err(MigrationFailure::NativeTargetNotRegular));
    use_migration(TargetState::Unreadable, TargetState::Regular, Err(MigrationFailure::NativeTargetNotRegular));
    use_migration(TargetState::NotFound, TargetState::NotFound, Ok(Some(MigrationOutcome::LegacyAbsent)));
    use_migration(TargetState::NotFound, TargetState::NotRegular, Err(MigrationFailure::LegacyInvalid));
    use_migration(TargetState::NotFound, TargetState::Unreadable, Err(MigrationFailure::LegacyInspect));
    use_migration(TargetState::NotFound, TargetState::Regular, Ok(None));
    assert_eq!(
        open_migration(PlatformKind::Macos, TargetState::NotFound, TargetState::Regular),
        Ok(Some(MigrationOutcome::NotApplicable))
    );
}

fn use_migration(
    native: TargetState,
    legacy: TargetState,
    expected: Result<Option<MigrationOutcome>, MigrationFailure>,
) {
    assert_eq!(open_migration(PlatformKind::Linux, native, legacy), expected);
}

#[test]
fn only_listed_fields_are_taken_over() {
    let fields = project_legacy(
        br#"{"extra":1,"stream":"s","status_indicator":false,"capture_interval":9,"source":"x"}"#,
    )
    .expect("fields");
    assert_eq!(
        fields,
        vec![
            ("stream".to_owned(), "\"s\"".to_owned()),
            ("capture_interval".to_owned(), "9".to_owned()),
            ("status_indicator".to_owned(), "false".to_owned()),
        ]
    );
    assert_eq!(project_legacy(br#"{"stream":""}"#).expect("fields"), Vec::new());
    assert_eq!(project_legacy(b"[]"), Err(MigrationFailure::LegacyInvalid));
    assert_eq!(project_legacy(b"{"), Err(MigrationFailure::LegacyInvalid));
    assert_eq!(IMPORTED_LEGACY_FIELDS.len(), 5);
    let kept = project_fields(&vec![("cache_retention_days".to_owned(), "-1".to_owned())]);
    assert_eq!(kept[0].1, "-1");
}

#[test]
fn migrated_settings_are_validated_and_private() {
    assert_eq!(validate_legacy(&None, "box"), Err(MigrationFailure::LegacyInvalid));
    assert_eq!(validate_legacy(&Some(ConfigFile::default()), "box"), Ok(()));
    let mut file = ConfigFile::default();
    file.capture_interval = 0;
    assert_eq!(validate_legacy(&Some(file), "box"), Err(MigrationFailure::LegacyValidation));
    assert_eq!(conclude_migration(true, true, Some(0o100600)), Ok(MigrationOutcome::Migrated));
    assert_eq!(conclude_migration(true, true, Some(0o100644)), Err(MigrationFailure::Write));
    assert_eq!(conclude_migration(true, true, None), Err(MigrationFailure::Write));
    assert_eq!(conclude_migration(true, false, Some(0o600)), Err(MigrationFailure::Write));
    assert_eq!(conclude_migration(false, true, Some(0o600)), Err(MigrationFailure::LegacyValidation));
}

#[test]
fn migration_errors_name_the_file() {
    let text = |failure: MigrationFailure| MigrationError::new(failure, b"/c".to_vec()).message();
    assert_eq!(
        text(MigrationFailure::NativeTargetNotRegular),
        "native settings target is not a regular file: /c"
    );
    assert_eq!(
        text(MigrationFailure::LegacyInspect),
        "legacy settings could not be inspected while preparing /c"
    );
    assert_eq!(
        text(MigrationFailure::LegacyRead),
        "legacy settings could not be read while preparing /c"
    );
    assert_eq!(text(MigrationFailure::LegacyInvalid), "legacy settings are invalid for /c");
    assert_eq!(
        text(MigrationFailure::LegacyValidation),
        "legacy settings could not be validated for /c"
    );
    assert_eq!(text(MigrationFailure::Write), "migrated settings could not be written to /c");
}
