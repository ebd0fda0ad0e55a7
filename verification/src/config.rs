//! Configuration: built-in defaults, a TOML file, the environment, and the **provenance** of
//! every effective value.
//!
//! Precedence, lowest to highest: default, then file, then environment. A [`Setting`] carries its
//! [`Source`], so a failure can name the file or the variable the operator must edit. Reading the
//! environment and the file is done by the caller; what is decided from what was read is here.

use vstd::prelude::*;

use crate::accept::{chars_of, trim, trimmed};
use crate::text::{push_str, string_of};

verus! {

/// Environment variable naming the configuration file to read.
pub const ENV_CONFIG: &'static str = "OPENBIZ_CONFIG";

/// Environment variable overriding [`Config::bind`].
pub const ENV_BIND: &'static str = "OPENBIZ_BIND";

/// Environment variable overriding [`Config::data_dir`].
pub const ENV_DATA_DIR: &'static str = "OPENBIZ_DATA_DIR";

/// The file consulted when [`ENV_CONFIG`] is unset. Its absence is not an error.
pub const DEFAULT_CONFIG_FILE: &'static str = "openbiz.toml";

/// The address bound when nothing says otherwise: loopback, never a public interface.
pub const DEFAULT_BIND: &'static str = "127.0.0.1:8080";

/// The data directory used when nothing says otherwise.
pub const DEFAULT_DATA_DIR: &'static str = "./data";

/// The standard library's `std::io::Error`, declared so that an unreadable configuration file
/// can carry its cause. Nothing is claimed of it: the library only passes it on.
#[verifier::external_type_specification]
#[verifier::external_body]
pub struct ExIoError(std::io::Error);

/// The `toml` crate's `toml::de::Error`: a document that did not parse, or did not fit the
/// configuration's shape. Declared so that an invalid file can carry the parser's account of
/// where it went wrong; nothing is claimed of it, and the library only passes it on.
#[verifier::external_type_specification]
#[verifier::external_body]
pub struct ExTomlError(toml::de::Error);

/// Where an effective configuration value came from.
#[derive(Debug, Clone, PartialEq, Eq)]
pub enum Source {
    /// Nothing set it; it is the built-in default.
    Default,
    /// A configuration file, at this path.
    File(String),
    /// An environment variable, with this name.
    Env(&'static str),
}

/// A source as its kind (default, file, environment) and the path or name it carries.
pub open spec fn source_view(s: Source) -> (int, Seq<char>) {
    match s {
        Source::Default => (0, Seq::empty()),
        Source::File(path) => (1, path@),
        Source::Env(name) => (2, name@),
    }
}

/// How a source completes the sentence "..., from {source}".
pub open spec fn source_phrase(s: Source) -> Seq<char> {
    match s {
        Source::Default => "the built-in default"@,
        Source::File(path) => path@,
        Source::Env(name) => "$"@ + name@,
    }
}

impl Source {
    /// Phrased to complete the sentence "..., from {source}", because that is how it is read in a
    /// log line or an error message.
    pub fn to_string(&self) -> (text: String)
        ensures
            text@ == source_phrase(*self),
    {
        match self {
            Source::Default => string_of("the built-in default"),
            Source::File(path) => path.clone(),
            Source::Env(name) => {
                let mut out = string_of("$");
                push_str(&mut out, name);
                out
            },
        }
    }
}

/// A copy of `source`.
fn copy_source(source: &Source) -> (copy: Source)
    ensures
        copy == *source,
{
    match source {
        Source::Default => Source::Default,
        Source::File(path) => Source::File(path.clone()),
        Source::Env(name) => Source::Env(name),
    }
}

/// A configuration value together with the reason it has that value.
#[derive(Debug, Clone, PartialEq, Eq)]
pub struct Setting<T> {
    value: T,
    source: Source,
}

impl<T> Setting<T> {
    /// The effective value.
    pub closed spec fn spec_value(self) -> T {
        self.value
    }

    /// Which layer supplied the value.
    pub closed spec fn spec_source(self) -> Source {
        self.source
    }

    /// A value from a source.
    pub fn new(value: T, source: Source) -> (setting: Setting<T>)
        ensures
            setting.spec_value() == value,
            setting.spec_source() == source,
    {
        Setting { value, source }
    }

    /// The effective value.
    pub fn value(&self) -> (value: &T)
        ensures
            *value == self.spec_value(),
    {
        &self.value
    }

    /// Which layer supplied [`Setting::value`].
    pub fn source(&self) -> (source: &Source)
        ensures
            *source == self.spec_source(),
    {
        &self.source
    }
}

impl Setting<String> {
    /// The value, as it reads in a log line: the value and nothing else.
    pub fn to_string(&self) -> (text: String)
        ensures
            text@ == self.spec_value()@,
    {
        self.value.clone()
    }
}

impl<T> std::ops::Deref for Setting<T> {
    type Target = T;

    fn deref(&self) -> (value: &T)
        ensures
            *value == self.spec_value(),
    {
        &self.value
    }
}

/// Server configuration.
#[derive(Debug, Clone)]
pub struct Config {
    /// Address to bind, e.g. `127.0.0.1:8080`.
    pub bind: Setting<String>,
    /// Directory holding the RDF store and backups.
    pub data_dir: Setting<String>,
}

impl Default for Config {
    /// Loopback on port 8080, and `./data`, both from the built-in defaults.
    fn default() -> (config: Config)
        ensures
            config.bind.spec_value()@ == DEFAULT_BIND@,
            config.bind.spec_source() == Source::Default,
            config.data_dir.spec_value()@ == DEFAULT_DATA_DIR@,
            config.data_dir.spec_source() == Source::Default,
    {
        Config {
            bind: Setting::new(DEFAULT_BIND.to_owned(), Source::Default),
            data_dir: Setting::new(DEFAULT_DATA_DIR.to_owned(), Source::Default),
        }
    }
}

/// Everything that can go wrong turning the three layers into a [`Config`]. Each variant names
/// the thing an operator must go and edit.
#[derive(Debug)]
pub enum ConfigError {
    /// `OPENBIZ_CONFIG` named a file that is not there. Never falls back to the defaults.
    NoSuchFile {
        /// The file that was named.
        path: String,
    },
    /// The file exists but could not be read.
    Unreadable {
        /// The file.
        path: String,
        /// Why it could not be read.
        source: std::io::Error,
    },
    /// Malformed TOML, or a key we do not recognise.
    Invalid {
        /// The file.
        path: String,
        /// What the parser said, with the line and column.
        source: toml::de::Error,
    },
    /// A value was supplied but is blank.
    Blank {
        /// The key or variable to edit.
        key: &'static str,
        /// Where the blank value came from.
        origin: Source,
    },
}

/// What a configuration error says: the thing the operator must go and edit.
pub open spec fn config_message(error: ConfigError) -> Seq<char> {
    match error {
        ConfigError::NoSuchFile { path } => "OPENBIZ_CONFIG names "@ + path@
            + ", but no file exists there"@,
        ConfigError::Unreadable { path, .. } => "the configuration file "@ + path@
            + " could not be read"@,
        ConfigError::Invalid { path, .. } => path@ + " is not a valid OpenBiz configuration file"@,
        ConfigError::Blank { key, origin } => key@ + " is set to a blank value, from "@
            + source_phrase(origin) + "; remove it to use the default instead"@,
    }
}

impl ConfigError {
    /// What the error says. The cause of an unreadable or invalid file is carried beside it.
    pub fn to_string(&self) -> (message: String)
        ensures
            message@ == config_message(*self),
    {
        match self {
            ConfigError::NoSuchFile { path } => {
                let mut out = string_of("OPENBIZ_CONFIG names ");
                push_str(&mut out, path.as_str());
                push_str(&mut out, ", but no file exists there");
                out
            },
            ConfigError::Unreadable { path, .. } => {
                let mut out = string_of("the configuration file ");
                push_str(&mut out, path.as_str());
                push_str(&mut out, " could not be read");
                out
            },
            ConfigError::Invalid { path, .. } => {
                let mut out = path.clone();
                push_str(&mut out, " is not a valid OpenBiz configuration file");
                out
            },
            ConfigError::Blank { key, origin } => {
                let mut out = string_of(key);
                push_str(&mut out, " is set to a blank value, from ");
                let phrase = origin.to_string();
                push_str(&mut out, phrase.as_str());
                push_str(&mut out, "; remove it to use the default instead");
                out
            },
        }
    }
}

/// The file layer, before merging: a file may set one key and leave the rest to the defaults.
#[derive(Debug, Clone, Default, PartialEq, Eq)]
pub struct FileConfig {
    /// `bind`, if the file sets it.
    pub bind: Option<String>,
    /// `data_dir`, if the file sets it.
    pub data_dir: Option<String>,
}

/// What reading the configuration file came to.
#[derive(Debug)]
pub enum FileRead {
    /// There is no file at the path.
    NotFound,
    /// There is something at the path, but it could not be read.
    Unreadable(std::io::Error),
    /// The file was read and parsed.
    Parsed(FileConfig),
    /// The file was read but is not a valid configuration file.
    Invalid(toml::de::Error),
}

/// The value and source view a setting ends up with, given its default, what the file said, and
/// what the environment said.
pub open spec fn layered(
    default: Seq<char>,
    file: Option<String>,
    path: Seq<char>,
    env: Option<String>,
    variable: Seq<char>,
) -> (Seq<char>, (int, Seq<char>)) {
    match env {
        Some(v) => (v@, (2, variable)),
        None => match file {
            Some(f) => (f@, (1, path)),
            None => (default, (0, Seq::empty())),
        },
    }
}

/// Precedence, lowest to highest: default, file, environment. When the environment supplies a
/// value, that value and its variable are what the setting holds, whatever the file and the
/// default say; with no value from the environment, the file's and its path; with neither, the
/// default, from no source but itself.
pub proof fn lemma_environment_beats_file(
    default: Seq<char>,
    file: Option<String>,
    path: Seq<char>,
    env: Option<String>,
    variable: Seq<char>,
)
    ensures
        env matches Some(v) ==> layered(default, file, path, env, variable) == (v@, (2int, variable)),
        file matches Some(f) ==> (env is None ==> layered(default, file, path, env, variable) == (
        f@,
        (1int, path),
        )),
        env is None && file is None ==> layered(default, file, path, env, variable) == (
        default,
        (0int, Seq::<char>::empty()),
        ),
{
}

/// A setting layered from a value the environment supplied holds that value, recorded as coming
/// from that variable, whatever the file said.
pub proof fn lemma_environment_value_is_held(
    setting: Setting<String>,
    default: Seq<char>,
    file: Option<String>,
    path: Seq<char>,
    value: String,
    variable: Seq<char>,
)
    requires
        setting_is(setting, layered(default, file, path, Some(value), variable)),
    ensures
        setting.spec_value()@ == value@,
        setting.spec_source() matches Source::Env(name) && name@ == variable,
{
}

/// `setting` holds the value and source `expected` describes.
pub open spec fn setting_is(setting: Setting<String>, expected: (Seq<char>, (int, Seq<char>))) -> bool {
    setting.spec_value()@ == expected.0 && source_view(setting.spec_source()) == expected.1
}

/// A value is blank when nothing but white space is in it.
pub open spec fn is_blank(value: Seq<char>) -> bool {
    trim(value).len() == 0
}

/// Whether `value` is blank.
pub(crate) fn blank(value: &str) -> (b: bool)
    ensures
        b == is_blank(value@),
{
    let chars = chars_of(value);
    trimmed(&chars).len() == 0
}

/// `error` is the refusal of a blank setting held under `key`, whose source is viewed as
/// `source`: it names the variable when the environment supplied it, and the file key otherwise.
pub open spec fn blank_error_for(error: ConfigError, key: Seq<char>, source: (int, Seq<char>)) -> bool {
    &&& error matches ConfigError::Blank { key: k, origin }
    &&& source_view(origin) == source
    &&& k@ == if source.0 == 2 { source.1 } else { key }
}

/// A value that starts and ends with something other than white space is not blank.
proof fn lemma_not_blank(value: Seq<char>)
    requires
        value.len() > 0,
        !crate::accept::is_white(value[0]),
        !crate::accept::is_white(value.last()),
    ensures
        !is_blank(value),
{
}

/// Neither built-in default is blank.
proof fn lemma_defaults_are_not_blank()
    ensures
        !is_blank(DEFAULT_BIND@),
        !is_blank(DEFAULT_DATA_DIR@),
{
    reveal_strlit("127.0.0.1:8080");
    reveal_strlit("./data");
    lemma_not_blank(DEFAULT_BIND@);
    lemma_not_blank(DEFAULT_DATA_DIR@);
}

impl Config {
    /// The settings in a stable order, for logging and for display, each with the key it is
    /// written under in a configuration file.
    pub fn settings(&self) -> (settings: [(&'static str, &Setting<String>); 2])
        ensures
            settings[0].0@ == "bind"@,
            *settings[0].1 == self.bind,
            settings[1].0@ == "data_dir"@,
            *settings[1].1 == self.data_dir,
    {
        [("bind", &self.bind), ("data_dir", &self.data_dir)]
    }

    /// Refuse a blank setting, naming what the operator has to go and edit: the variable if the
    /// environment supplied it, otherwise the file key. `bind` is checked first.
    pub fn validate(&self) -> (result: Result<(), ConfigError>)
        ensures
            result is Ok <==> !is_blank(self.bind.spec_value()@) && !is_blank(
                self.data_dir.spec_value()@,
            ),
            is_blank(self.bind.spec_value()@) ==> (result matches Err(e) && blank_error_for(
                e,
                "bind"@,
                source_view(self.bind.spec_source()),
            )),
            !is_blank(self.bind.spec_value()@) && is_blank(self.data_dir.spec_value()@) ==> (
            result matches Err(e) && blank_error_for(
                e,
                "data_dir"@,
                source_view(self.data_dir.spec_source()),
            )),
    {
        if blank(self.bind.value.as_str()) {
            let key: &'static str = match self.bind.source {
                Source::Env(variable) => variable,
                _ => "bind",
            };
            return Err(ConfigError::Blank { key, origin: copy_source(&self.bind.source) });
        }
        if blank(self.data_dir.value.as_str()) {
            let key: &'static str = match self.data_dir.source {
                Source::Env(variable) => variable,
                _ => "data_dir",
            };
            return Err(ConfigError::Blank { key, origin: copy_source(&self.data_dir.source) });
        }
        Ok(())
    }

    /// Which configuration file to read, and whether it was named explicitly.
    ///
    /// `OPENBIZ_CONFIG` names it when set; a blank value is refused rather than read as a missing
    /// file. Otherwise the default path is read, and its absence is not an error.
    pub fn file_to_read(named: Option<&str>, default_path: &str) -> (chosen: Result<
        (String, bool),
        ConfigError,
    >)
        ensures
            named is None ==> (chosen matches Ok((path, explicit)) && path@ == default_path@
                && !explicit),
            named matches Some(n) ==> (!is_blank(n@) ==> (chosen matches Ok((path, explicit))
                && path@ == n@ && explicit)),
            named matches Some(n) ==> (is_blank(n@) ==> (chosen matches Err(e) && blank_error_for(
                e,
                ENV_CONFIG@,
                (2, ENV_CONFIG@),
            ))),
    {
        match named {
            Some(n) => {
                if blank(n) {
                    Err(ConfigError::Blank { key: ENV_CONFIG, origin: Source::Env(ENV_CONFIG) })
                } else {
                    Ok((n.to_owned(), true))
                }
            },
            None => Ok((default_path.to_owned(), false)),
        }
    }

    /// Merge the defaults, the file and the environment, and refuse a blank value.
    ///
    /// A missing file is an error only when it was named explicitly. A file that could not be
    /// read, or is not a valid configuration file, is an error naming its path. Otherwise each
    /// setting takes the environment's value if there is one, then the file's, then the default,
    /// and records which.
    pub fn resolve(
        path: &str,
        explicit: bool,
        file: FileRead,
        env_bind: Option<String>,
        env_data_dir: Option<String>,
    ) -> (config: Result<Config, ConfigError>)
        ensures
            file is NotFound && explicit ==> (config matches Err(
                ConfigError::NoSuchFile { path: p },
            ) && p@ == path@),
            file matches FileRead::Unreadable(cause) ==> (config matches Err(
                ConfigError::Unreadable { path: p, source },
            ) && p@ == path@ && source == cause),
            file matches FileRead::Invalid(cause) ==> (config matches Err(
                ConfigError::Invalid { path: p, source },
            ) && p@ == path@ && source == cause),
            (file is Parsed || (file is NotFound && !explicit)) ==> {
                let layer = match file {
                    FileRead::Parsed(f) => f,
                    _ => FileConfig { bind: None, data_dir: None },
                };
                let bind = layered(DEFAULT_BIND@, layer.bind, path@, env_bind, ENV_BIND@);
                let data_dir = layered(
                    DEFAULT_DATA_DIR@,
                    layer.data_dir,
                    path@,
                    env_data_dir,
                    ENV_DATA_DIR@,
                );
                &&& (config is Ok <==> !is_blank(bind.0) && !is_blank(data_dir.0))
                &&& config matches Ok(c) ==> (setting_is(c.bind, bind) && setting_is(
                    c.data_dir,
                    data_dir,
                ))
                &&& is_blank(bind.0) ==> (config matches Err(e) && blank_error_for(
                    e,
                    "bind"@,
                    bind.1,
                ))
                &&& !is_blank(bind.0) && is_blank(data_dir.0) ==> (config matches Err(e)
                    && blank_error_for(e, "data_dir"@, data_dir.1))
            },
            file is NotFound && !explicit && env_bind is None && env_data_dir is None ==> (
            config matches Ok(c) && c.bind.spec_value()@ == DEFAULT_BIND@
                && c.bind.spec_source() == Source::Default && c.data_dir.spec_value()@
                == DEFAULT_DATA_DIR@ && c.data_dir.spec_source() == Source::Default),
    {
        let layer = match file {
            FileRead::NotFound => {
                if explicit {
                    return Err(ConfigError::NoSuchFile { path: path.to_owned() });
                }
                FileConfig { bind: None, data_dir: None }
            },
            FileRead::Unreadable(source) => {
                return Err(ConfigError::Unreadable { path: path.to_owned(), source });
            },
            FileRead::Invalid(source) => {
                return Err(ConfigError::Invalid { path: path.to_owned(), source });
            },
            FileRead::Parsed(layer) => layer,
        };
        let mut config = Config::default();
        match layer.bind {
            Some(bind) => config.bind = Setting::new(bind, Source::File(path.to_owned())),
            None => {},
        }
        match layer.data_dir {
            Some(data_dir) => config.data_dir = Setting::new(
                data_dir,
                Source::File(path.to_owned()),
            ),
            None => {},
        }
        match env_bind {
            Some(bind) => config.bind = Setting::new(bind, Source::Env(ENV_BIND)),
            None => {},
        }
        match env_data_dir {
            Some(data_dir) => config.data_dir = Setting::new(data_dir, Source::Env(ENV_DATA_DIR)),
            None => {},
        }
        proof {
            lemma_defaults_are_not_blank();
        }
        match config.validate() {
            Ok(()) => Ok(config),
            Err(error) => Err(error),
        }
    }
}

} // verus!
