use openbiz::config::{
    Config, ConfigError, FileConfig, FileRead, Setting, Source, DEFAULT_CONFIG_FILE, ENV_BIND,
    ENV_CONFIG, ENV_DATA_DIR,
};

fn parsed(bind: Option<&str>, data_dir: Option<&str>) -> FileRead {
    FileRead::Parsed(FileConfig {
        bind: bind.map(str::to_owned),
        data_dir: data_dir.map(str::to_owned),
    })
}

fn toml_error(text: &str) -> toml::de::Error {
    toml::from_str::<toml::Table>(text).expect_err("not valid TOML")
}

#[test]
fn config_defaults_to_loopback() {
    assert!(Config::default().bind.starts_with("127.0.0.1"));
}

#[test]
fn no_file_and_no_environment_yields_the_defaults() {
    let config = Config::resolve(DEFAULT_CONFIG_FILE, false, FileRead::NotFound, None, None)
        .expect("zero configuration must work");

    assert_eq!(config.bind.value(), "127.0.0.1:8080");
    assert_eq!(config.data_dir.value(), "./data");
    assert_eq!(config.bind.source(), &Source::Default);
    assert_eq!(config.data_dir.source(), &Source::Default);
}

#[test]
fn a_file_overrides_the_defaults_and_records_its_path() {
    let path = "/etc/openbiz/openbiz.toml";
    let config = Config::resolve(
        path,
        false,
        parsed(Some("0.0.0.0:9000"), Some("/srv/openbiz")),
        None,
        None,
    )
    .expect("valid file");

    assert_eq!(config.bind.value(), "0.0.0.0:9000");
    assert_eq!(config.data_dir.value(), "/srv/openbiz");
    assert_eq!(config.bind.source(), &Source::File(path.to_owned()));
    assert_eq!(config.data_dir.source(), &Source::File(path.to_owned()));
}

#[test]
fn a_partial_file_leaves_the_rest_at_their_defaults() {
    let config = Config::resolve(
        "openbiz.toml",
        false,
        parsed(Some("0.0.0.0:9000"), None),
        None,
        None,
    )
    .expect("valid file");

    assert_eq!(config.bind.value(), "0.0.0.0:9000");
    assert_eq!(config.data_dir.value(), "./data");
    assert_eq!(config.data_dir.source(), &Source::Default);
}

#[test]
fn the_environment_beats_the_file() {
    let path = "/tmp/openbiz/openbiz.toml";
    let (chosen, explicit) =
        Config::file_to_read(Some(path), DEFAULT_CONFIG_FILE).expect("a file to read");
    assert_eq!(chosen, path);
    assert!(explicit);

    let config = Config::resolve(
        &chosen,
        explicit,
        parsed(Some("0.0.0.0:9000"), Some("/srv/openbiz")),
        Some("127.0.0.1:1234".to_owned()),
        None,
    )
    .expect("valid file");

    assert_eq!(config.bind.value(), "127.0.0.1:1234");
    assert_eq!(config.bind.source(), &Source::Env(ENV_BIND));
    assert_eq!(config.data_dir.value(), "/srv/openbiz");
    assert_eq!(config.data_dir.source(), &Source::File(path.to_owned()));
}

#[test]
fn openbiz_config_selects_the_file_to_read() {
    let (chosen, explicit) =
        Config::file_to_read(Some("/srv/openbiz/site.toml"), "/decoy/openbiz.toml")
            .expect("a file to read");
    assert_eq!(chosen, "/srv/openbiz/site.toml");
    assert!(explicit);

    let config = Config::resolve(
        &chosen,
        explicit,
        parsed(None, Some("/var/lib/openbiz")),
        None,
        None,
    )
    .expect("valid file");
    assert_eq!(config.data_dir.value(), "/var/lib/openbiz");
}

#[test]
fn without_openbiz_config_the_default_path_is_read_and_may_be_absent() {
    let (chosen, explicit) =
        Config::file_to_read(None, DEFAULT_CONFIG_FILE).expect("a file to read");
    assert_eq!(chosen, "openbiz.toml");
    assert!(!explicit);
}

#[test]
fn a_missing_default_file_is_not_an_error() {
    let config = Config::resolve(DEFAULT_CONFIG_FILE, false, FileRead::NotFound, None, None);
    assert!(config.is_ok(), "zero configuration must remain valid");
}

#[test]
fn a_missing_explicitly_named_file_is_an_error() {
    let error = Config::resolve("/nowhere/openbiz.toml", true, FileRead::NotFound, None, None)
        .expect_err("must not fall back");

    assert!(
        matches!(&error, ConfigError::NoSuchFile { path } if path == "/nowhere/openbiz.toml"),
        "an explicitly named file that is absent must not silently degrade to the defaults, \
         got {error:?}"
    );
}

#[test]
fn an_unreadable_file_is_an_error_naming_it() {
    let denied = std::io::Error::new(std::io::ErrorKind::PermissionDenied, "denied");
    let error = Config::resolve("/etc/openbiz.toml", false, FileRead::Unreadable(denied), None, None)
        .expect_err("an unreadable file must fail");
    assert!(
        matches!(&error, ConfigError::Unreadable { path, .. } if path == "/etc/openbiz.toml"),
        "got {error:?}"
    );
}

#[test]
fn malformed_toml_is_rejected_with_its_position() {
    let error = Config::resolve(
        "openbiz.toml",
        false,
        FileRead::Invalid(toml_error("bind = \n")),
        None,
        None,
    )
    .expect_err("malformed file must fail");

    let ConfigError::Invalid { source, path } = &error else {
        panic!("expected an Invalid error, got {error:?}");
    };
    assert_eq!(path, "openbiz.toml");
    assert!(
        source.to_string().contains("line 1"),
        "must locate the problem: {source}"
    );
}

#[test]
fn a_blank_environment_value_is_an_error_naming_the_variable() {
    let error = Config::resolve(
        DEFAULT_CONFIG_FILE,
        false,
        FileRead::NotFound,
        Some("   ".to_owned()),
        None,
    )
    .expect_err("blank must not be accepted");

    let ConfigError::Blank { key, origin } = &error else {
        panic!("expected a Blank error, got {error:?}");
    };
    assert_eq!(*key, ENV_BIND);
    assert_eq!(origin, &Source::Env(ENV_BIND));
    assert_eq!(origin.to_string(), "$OPENBIZ_BIND");
    assert!(
        error.to_string().contains("$OPENBIZ_BIND"),
        "must point at the variable: {}",
        error.to_string()
    );
}

#[test]
fn a_blank_file_value_is_an_error_naming_the_file() {
    let path = "/etc/openbiz/openbiz.toml";
    let error = Config::resolve(path, false, parsed(None, Some("")), None, None)
        .expect_err("blank must not be accepted");

    let ConfigError::Blank { key, origin } = &error else {
        panic!("expected a Blank error, got {error:?}");
    };
    assert_eq!(*key, "data_dir");
    assert_eq!(origin, &Source::File(path.to_owned()));
    assert_eq!(origin.to_string(), path);
    assert_eq!(
        error.to_string(),
        "data_dir is set to a blank value, from /etc/openbiz/openbiz.toml; remove it to use the \
         default instead"
    );
}

#[test]
fn each_configuration_error_names_what_to_edit() {
    let missing = Config::resolve("/nowhere/site.toml", true, FileRead::NotFound, None, None)
        .expect_err("an explicitly named file must exist");
    assert_eq!(
        missing.to_string(),
        "OPENBIZ_CONFIG names /nowhere/site.toml, but no file exists there"
    );
    let invalid = Config::resolve(
        "site.toml",
        false,
        FileRead::Invalid(toml_error("= 1")),
        None,
        None,
    )
    .expect_err("not a configuration file");
    assert_eq!(
        invalid.to_string(),
        "site.toml is not a valid OpenBiz configuration file"
    );
    let denied = std::io::Error::new(std::io::ErrorKind::PermissionDenied, "denied");
    let unreadable = Config::resolve("site.toml", false, FileRead::Unreadable(denied), None, None)
        .expect_err("an unreadable file must fail");
    assert_eq!(
        unreadable.to_string(),
        "the configuration file site.toml could not be read"
    );
}

#[test]
fn a_blank_openbiz_config_is_an_error_rather_than_a_missing_file() {
    let error = Config::file_to_read(Some(""), DEFAULT_CONFIG_FILE)
        .expect_err("blank must not be accepted");

    assert!(
        matches!(error, ConfigError::Blank { key, .. } if key == ENV_CONFIG),
        "got {error:?}"
    );
}

#[test]
fn a_blank_data_dir_from_the_environment_names_that_variable() {
    let error = Config::resolve(
        DEFAULT_CONFIG_FILE,
        false,
        FileRead::NotFound,
        None,
        Some("\t".to_owned()),
    )
    .expect_err("blank must not be accepted");
    assert!(
        matches!(&error, ConfigError::Blank { key, origin } if *key == ENV_DATA_DIR && *origin == Source::Env(ENV_DATA_DIR)),
        "got {error:?}"
    );
}

#[test]
fn a_blank_bind_is_reported_before_a_blank_data_dir() {
    let error = Config::resolve("openbiz.toml", false, parsed(Some(" "), Some("")), None, None)
        .expect_err("blank must not be accepted");
    assert!(
        matches!(&error, ConfigError::Blank { key, .. } if *key == "bind"),
        "got {error:?}"
    );
}

#[test]
fn settings_are_reported_with_their_sources() {
    let path = "/etc/openbiz/openbiz.toml";
    let config = Config::resolve(path, false, parsed(Some("0.0.0.0:9000"), None), None, None)
        .expect("valid file");
    let reported: Vec<_> = config
        .settings()
        .into_iter()
        .map(|(key, setting)| (key, setting.value().clone(), setting.source().clone()))
        .collect();

    assert_eq!(
        reported,
        vec![
            (
                "bind",
                "0.0.0.0:9000".to_owned(),
                Source::File(path.to_owned())
            ),
            ("data_dir", "./data".to_owned(), Source::Default),
        ],
        "the startup log must be able to show every setting and where it came from"
    );
}

#[test]
fn a_source_reads_as_the_place_to_go_and_edit() {
    assert_eq!(Source::Default.to_string(), "the built-in default");
    assert_eq!(Source::Env(ENV_BIND).to_string(), "$OPENBIZ_BIND");
    assert_eq!(
        Source::File("/etc/openbiz.toml".to_owned()).to_string(),
        "/etc/openbiz.toml"
    );
}

#[test]
fn a_setting_reads_as_its_value() {
    let setting = Setting::new("127.0.0.1:8080".to_owned(), Source::Default);

    assert_eq!(setting.to_string(), "127.0.0.1:8080");
    assert!(setting.starts_with("127."));
}
