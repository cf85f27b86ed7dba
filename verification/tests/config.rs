use load_s3_agent::config::{
    find_var, optional_var, require_var, AgentConfig, ClickhouseConfig, ConfigError, Setting,
};
use load_s3_agent::error::ErrorKind;

fn vars(list: &[(&str, &str)]) -> Vec<(String, String)> {
    list.iter().map(|(k, v)| (k.to_string(), v.to_string())).collect()
}

fn full() -> Vec<(String, String)> {
    vars(&[
        ("AWS_ENDPOINT_URL", "https://s3.example"),
        ("AWS_REGION", "eu-west-2"),
        ("AWS_ACCESS_KEY_ID", "key-id"),
        ("AWS_SECRET_ACCESS_KEY", "shh"),
        ("S3_BUCKET_NAME", "bucket"),
        ("S3_DIR_NAME", "dataitems"),
        ("S3_RAW_DIR_NAME", "raw"),
    ])
}

#[test]
fn agent_config_takes_the_seven_settings() {
    let config = AgentConfig::load(&full()).unwrap();
    assert_eq!(
        config,
        AgentConfig {
            endpoint_url: "https://s3.example".to_string(),
            region: "eu-west-2".to_string(),
            access_key_id: "key-id".to_string(),
            secret_access_key: "shh".to_string(),
            s3_bucket_name: "bucket".to_string(),
            s3_dir_name: "dataitems".to_string(),
            s3_raw_dir_name: "raw".to_string(),
        }
    );
}

#[test]
fn agent_config_names_the_first_missing_setting() {
    assert_eq!(AgentConfig::load(&Vec::new()), Err(ConfigError { missing: Setting::EndpointUrl }));
    let settings = [
        Setting::EndpointUrl,
        Setting::Region,
        Setting::AccessKeyId,
        Setting::SecretAccessKey,
        Setting::BucketName,
        Setting::DirName,
        Setting::RawDirName,
    ];
    for (i, setting) in settings.iter().enumerate() {
        let mut some = full();
        some.remove(i);
        assert_eq!(AgentConfig::load(&some), Err(ConfigError { missing: *setting }));
    }
    let mut two = full();
    two.remove(5);
    two.remove(1);
    assert_eq!(AgentConfig::load(&two), Err(ConfigError { missing: Setting::Region }));
    assert_eq!(ConfigError { missing: Setting::Region }.kind(), ErrorKind::ConfigurationError);
}

#[test]
fn of_two_values_for_one_name_the_first_counts() {
    let mut list = full();
    list.push(("AWS_REGION".to_string(), "us-east-1".to_string()));
    assert_eq!(AgentConfig::load(&list).unwrap().region, "eu-west-2");
    assert_eq!(find_var(&list, "AWS_REGION"), Some("eu-west-2".to_string()));
    assert_eq!(find_var(&list, "aws_region"), None);
    assert_eq!(find_var(&Vec::new(), "AWS_REGION"), None);
}

#[test]
fn settings_have_their_environment_names() {
    assert_eq!(Setting::EndpointUrl.name(), "AWS_ENDPOINT_URL");
    assert_eq!(Setting::Region.name(), "AWS_REGION");
    assert_eq!(Setting::AccessKeyId.name(), "AWS_ACCESS_KEY_ID");
    assert_eq!(Setting::SecretAccessKey.name(), "AWS_SECRET_ACCESS_KEY");
    assert_eq!(Setting::BucketName.name(), "S3_BUCKET_NAME");
    assert_eq!(Setting::DirName.name(), "S3_DIR_NAME");
    assert_eq!(Setting::RawDirName.name(), "S3_RAW_DIR_NAME");
    assert_eq!(Setting::IndexUrl.name(), "CLICKHOUSE_URL");
    assert_eq!(Setting::IndexDatabase.name(), "CLICKHOUSE_DATABASE");
}

#[test]
fn index_config_takes_optional_credentials() {
    let list = vars(&[
        ("CLICKHOUSE_URL", "http://ch:8123"),
        ("CLICKHOUSE_DATABASE", "tags"),
        ("CLICKHOUSE_USER", "reader"),
        ("CLICKHOUSE_PASSWORD", ""),
    ]);
    assert_eq!(
        ClickhouseConfig::load(&list),
        Ok(ClickhouseConfig {
            url: "http://ch:8123".to_string(),
            database: "tags".to_string(),
            user: Some("reader".to_string()),
            password: None,
        })
    );
    assert_eq!(optional_var(&list, "CLICKHOUSE_PASSWORD"), None);
    assert_eq!(optional_var(&list, "CLICKHOUSE_USER"), Some("reader".to_string()));
    assert_eq!(optional_var(&list, "NOT_SET"), None);
}

#[test]
fn index_config_requires_address_and_database() {
    let list = vars(&[("CLICKHOUSE_DATABASE", "tags")]);
    assert_eq!(ClickhouseConfig::load(&list), Err(ConfigError { missing: Setting::IndexUrl }));
    let list = vars(&[("CLICKHOUSE_URL", "http://ch:8123")]);
    assert_eq!(ClickhouseConfig::load(&list), Err(ConfigError { missing: Setting::IndexDatabase }));
    assert_eq!(
        require_var(&list, Setting::IndexUrl),
        Ok("http://ch:8123".to_string())
    );
    assert_eq!(
        require_var(&list, Setting::Region),
        Err(ConfigError { missing: Setting::Region })
    );
}
