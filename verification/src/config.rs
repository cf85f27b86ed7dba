//! Settings of the gateway, read from a list of named values.
//!
//! The caller hands over the environment as pairs of a name and a value;
//! of two pairs with one name the first counts.

use crate::error::ErrorKind;
use crate::tags::pairs;
use crate::text::str_eq;
use vstd::prelude::*;

verus! {

/// The value that the list gives to `name`: that of the first pair with
/// this name.
pub open spec fn lookup(vars: Seq<(Seq<char>, Seq<char>)>, name: Seq<char>) -> Option<Seq<char>>
    decreases vars.len(),
{
    if vars.len() == 0 {
        None
    } else if vars.first().0 == name {
        Some(vars.first().1)
    } else {
        lookup(vars.drop_first(), name)
    }
}

/// The view of an optional string.
pub open spec fn value_of(s: Option<String>) -> Option<Seq<char>> {
    match s {
        Some(s) => Some(s@),
        None => None,
    }
}

/// Looks a name up in a list of named values.
pub fn find_var(vars: &Vec<(String, String)>, name: &str) -> (value: Option<String>)
    ensures
        value_of(value) == lookup(pairs(vars@), name@),
{
    let mut i: usize = 0;
    proof {
        assert(pairs(vars@).skip(0) == pairs(vars@));
    }
    while i < vars.len()
        invariant
            i <= vars.len(),
            lookup(pairs(vars@), name@) == lookup(pairs(vars@).skip(i as int), name@),
        decreases vars.len() - i,
    {
        proof {
            let rest = pairs(vars@).skip(i as int);
            assert(rest.first() == (vars@[i as int].0@, vars@[i as int].1@));
            assert(rest.drop_first() == pairs(vars@).skip(i + 1));
        }
        if str_eq(vars[i].0.as_str(), name) {
            return Some(vars[i].1.clone());
        }
        i = i + 1;
    }
    None
}

/// A setting of the blob store.
#[derive(Debug, Clone, Copy, PartialEq, Eq, Structural)]
pub enum Setting {
    EndpointUrl,
    Region,
    AccessKeyId,
    SecretAccessKey,
    BucketName,
    DirName,
    RawDirName,
    IndexUrl,
    IndexDatabase,
}

/// The name under which a setting stands in the environment.
pub open spec fn setting_name(setting: Setting) -> Seq<char> {
    match setting {
        Setting::EndpointUrl => "AWS_ENDPOINT_URL"@,
        Setting::Region => "AWS_REGION"@,
        Setting::AccessKeyId => "AWS_ACCESS_KEY_ID"@,
        Setting::SecretAccessKey => "AWS_SECRET_ACCESS_KEY"@,
        Setting::BucketName => "S3_BUCKET_NAME"@,
        Setting::DirName => "S3_DIR_NAME"@,
        Setting::RawDirName => "S3_RAW_DIR_NAME"@,
        Setting::IndexUrl => "CLICKHOUSE_URL"@,
        Setting::IndexDatabase => "CLICKHOUSE_DATABASE"@,
    }
}

impl Setting {
    /// The name under which the setting stands in the environment.
    pub fn name(&self) -> (name: &'static str)
        ensures
            name@ == setting_name(*self),
    {
        match self {
            Setting::EndpointUrl => "AWS_ENDPOINT_URL",
            Setting::Region => "AWS_REGION",
            Setting::AccessKeyId => "AWS_ACCESS_KEY_ID",
            Setting::SecretAccessKey => "AWS_SECRET_ACCESS_KEY",
            Setting::BucketName => "S3_BUCKET_NAME",
            Setting::DirName => "S3_DIR_NAME",
            Setting::RawDirName => "S3_RAW_DIR_NAME",
            Setting::IndexUrl => "CLICKHOUSE_URL",
            Setting::IndexDatabase => "CLICKHOUSE_DATABASE",
        }
    }
}

/// A required setting is absent.
#[derive(Debug, Clone, Copy, PartialEq, Eq, Structural)]
pub struct ConfigError {
    pub missing: Setting,
}

impl ConfigError {
    /// The kind of the failure.
    pub fn kind(&self) -> (kind: ErrorKind)
        ensures
            kind == ErrorKind::ConfigurationError,
    {
        ErrorKind::ConfigurationError
    }
}

/// Where the blob store is reached and under which names items are kept.
#[derive(Debug, Clone, PartialEq, Eq)]
pub struct AgentConfig {
    pub endpoint_url: String,
    pub region: String,
    pub access_key_id: String,
    pub secret_access_key: String,
    pub s3_bucket_name: String,
    pub s3_dir_name: String,
    pub s3_raw_dir_name: String,
}

/// An `AgentConfig` as plain values.
pub struct AgentConfigView {
    pub endpoint_url: Seq<char>,
    pub region: Seq<char>,
    pub access_key_id: Seq<char>,
    pub secret_access_key: Seq<char>,
    pub s3_bucket_name: Seq<char>,
    pub s3_dir_name: Seq<char>,
    pub s3_raw_dir_name: Seq<char>,
}

impl View for AgentConfig {
    type V = AgentConfigView;

    open spec fn view(&self) -> AgentConfigView {
        AgentConfigView {
            endpoint_url: self.endpoint_url@,
            region: self.region@,
            access_key_id: self.access_key_id@,
            secret_access_key: self.secret_access_key@,
            s3_bucket_name: self.s3_bucket_name@,
            s3_dir_name: self.s3_dir_name@,
            s3_raw_dir_name: self.s3_raw_dir_name@,
        }
    }
}

/// The value of a required setting, or the setting as the one that is missing.
pub open spec fn required(vars: Seq<(Seq<char>, Seq<char>)>, setting: Setting) -> Result<
    Seq<char>,
    ConfigError,
> {
    match lookup(vars, setting_name(setting)) {
        Some(value) => Ok(value),
        None => Err(ConfigError { missing: setting }),
    }
}

/// The view of a value that was looked up, or the fault.
pub open spec fn required_view(r: Result<String, ConfigError>) -> Result<Seq<char>, ConfigError> {
    match r {
        Ok(s) => Ok(s@),
        Err(e) => Err(e),
    }
}

/// Looks a required setting up.
pub fn require_var(vars: &Vec<(String, String)>, setting: Setting) -> (r: Result<
    String,
    ConfigError,
>)
    ensures
        required_view(r) == required(pairs(vars@), setting),
{
    match find_var(vars, setting.name()) {
        Some(value) => Ok(value),
        None => Err(ConfigError { missing: setting }),
    }
}

/// The first of the seven settings of the blob store that the list lacks.
pub open spec fn first_missing(vars: Seq<(Seq<char>, Seq<char>)>) -> Option<Setting> {
    if lookup(vars, setting_name(Setting::EndpointUrl)) is None {
        Some(Setting::EndpointUrl)
    } else if lookup(vars, setting_name(Setting::Region)) is None {
        Some(Setting::Region)
    } else if lookup(vars, setting_name(Setting::AccessKeyId)) is None {
        Some(Setting::AccessKeyId)
    } else if lookup(vars, setting_name(Setting::SecretAccessKey)) is None {
        Some(Setting::SecretAccessKey)
    } else if lookup(vars, setting_name(Setting::BucketName)) is None {
        Some(Setting::BucketName)
    } else if lookup(vars, setting_name(Setting::DirName)) is None {
        Some(Setting::DirName)
    } else if lookup(vars, setting_name(Setting::RawDirName)) is None {
        Some(Setting::RawDirName)
    } else {
        None
    }
}

/// The settings of the blob store that the list holds.
pub open spec fn agent_config(vars: Seq<(Seq<char>, Seq<char>)>) -> AgentConfigView {
    AgentConfigView {
        endpoint_url: lookup(vars, setting_name(Setting::EndpointUrl)).unwrap(),
        region: lookup(vars, setting_name(Setting::Region)).unwrap(),
        access_key_id: lookup(vars, setting_name(Setting::AccessKeyId)).unwrap(),
        secret_access_key: lookup(vars, setting_name(Setting::SecretAccessKey)).unwrap(),
        s3_bucket_name: lookup(vars, setting_name(Setting::BucketName)).unwrap(),
        s3_dir_name: lookup(vars, setting_name(Setting::DirName)).unwrap(),
        s3_raw_dir_name: lookup(vars, setting_name(Setting::RawDirName)).unwrap(),
    }
}

impl AgentConfig {
    /// Reads the settings of the blob store from a list of named values.
    /// All seven are required: the error names the first that is absent.
    pub fn load(vars: &Vec<(String, String)>) -> (r: Result<AgentConfig, ConfigError>)
        ensures
            match r {
                Ok(config) => first_missing(pairs(vars@)) is None && config@ == agent_config(
                    pairs(vars@),
                ),
                Err(e) => first_missing(pairs(vars@)) == Some(e.missing),
            },
    {
        let endpoint_url = match require_var(vars, Setting::EndpointUrl) {
            Ok(v) => v,
            Err(e) => {
                return Err(e);
            },
        };
        let region = match require_var(vars, Setting::Region) {
            Ok(v) => v,
            Err(e) => {
                return Err(e);
            },
        };
        let access_key_id = match require_var(vars, Setting::AccessKeyId) {
            Ok(v) => v,
            Err(e) => {
                return Err(e);
            },
        };
        let secret_access_key = match require_var(vars, Setting::SecretAccessKey) {
            Ok(v) => v,
            Err(e) => {
                return Err(e);
            },
        };
        let s3_bucket_name = match require_var(vars, Setting::BucketName) {
            Ok(v) => v,
            Err(e) => {
                return Err(e);
            },
        };
        let s3_dir_name = match require_var(vars, Setting::DirName) {
            Ok(v) => v,
            Err(e) => {
                return Err(e);
            },
        };
        let s3_raw_dir_name = match require_var(vars, Setting::RawDirName) {
            Ok(v) => v,
            Err(e) => {
                return Err(e);
            },
        };
        Ok(
            AgentConfig {
                endpoint_url,
                region,
                access_key_id,
                secret_access_key,
                s3_bucket_name,
                s3_dir_name,
                s3_raw_dir_name,
            },
        )
    }
}

/// Where the index backend is reached, and with which credentials.
#[derive(Debug, Clone, PartialEq, Eq)]
pub struct ClickhouseConfig {
    pub url: String,
    pub database: String,
    pub user: Option<String>,
    pub password: Option<String>,
}

/// A `ClickhouseConfig` as plain values.
pub struct ClickhouseConfigView {
    pub url: Seq<char>,
    pub database: Seq<char>,
    pub user: Option<Seq<char>>,
    pub password: Option<Seq<char>>,
}

impl View for ClickhouseConfig {
    type V = ClickhouseConfigView;

    open spec fn view(&self) -> ClickhouseConfigView {
        ClickhouseConfigView {
            url: self.url@,
            database: self.database@,
            user: value_of(self.user),
            password: value_of(self.password),
        }
    }
}

/// An optional setting: a value that is absent or empty counts as none.
pub open spec fn optional(vars: Seq<(Seq<char>, Seq<char>)>, name: Seq<char>) -> Option<Seq<char>> {
    match lookup(vars, name) {
        Some(value) => if value.len() == 0 {
            None
        } else {
            Some(value)
        },
        None => None,
    }
}

/// Looks an optional setting up.
pub fn optional_var(vars: &Vec<(String, String)>, name: &str) -> (value: Option<String>)
    ensures
        value_of(value) == optional(pairs(vars@), name@),
{
    match find_var(vars, name) {
        Some(value) => if value.as_str().is_empty() {
            None
        } else {
            Some(value)
        },
        None => None,
    }
}

impl ClickhouseConfig {
    /// Reads the settings of the index backend from a list of named values.
    /// The address and the database are required; user and password are
    /// optional, and an empty one counts as absent.
    pub fn load(vars: &Vec<(String, String)>) -> (r: Result<ClickhouseConfig, ConfigError>)
        ensures
            match r {
                Ok(config) => {
                    &&& required(pairs(vars@), Setting::IndexUrl) == Ok::<Seq<char>, ConfigError>(
                        config.url@,
                    )
                    &&& required(pairs(vars@), Setting::IndexDatabase) == Ok::<
                        Seq<char>,
                        ConfigError,
                    >(config.database@)
                    &&& value_of(config.user) == optional(pairs(vars@), "CLICKHOUSE_USER"@)
                    &&& value_of(config.password) == optional(pairs(vars@), "CLICKHOUSE_PASSWORD"@)
                },
                Err(e) => {
                    ||| e.missing == Setting::IndexUrl && required(pairs(vars@), Setting::IndexUrl)
                        is Err
                    ||| e.missing == Setting::IndexDatabase && required(
                        pairs(vars@),
                        Setting::IndexUrl,
                    ) is Ok && required(pairs(vars@), Setting::IndexDatabase) is Err
                },
            },
    {
        let url = match require_var(vars, Setting::IndexUrl) {
            Ok(v) => v,
            Err(e) => {
                return Err(e);
            },
        };
        let database = match require_var(vars, Setting::IndexDatabase) {
            Ok(v) => v,
            Err(e) => {
                return Err(e);
            },
        };
        let user = optional_var(vars, "CLICKHOUSE_USER");
        let password = optional_var(vars, "CLICKHOUSE_PASSWORD");
        Ok(ClickhouseConfig { url, database, user, password })
    }
}

} // verus!
