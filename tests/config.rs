use p2boards::config::{parse_i32, Config, ConfigError};

fn env(pairs: &[(&str, &str)]) -> Vec<(String, String)> {
    pairs.iter().map(|(k, v)| (k.to_string(), v.to_string())).collect()
}

fn full() -> Vec<(String, String)> {
    env(&[
        ("PATH", "/usr/bin"),
        ("DATABASE_URL", "postgres://localhost/boards"),
        ("SERVER_HOST", "0.0.0.0"),
        ("SERVER_PORT", "8080"),
        ("PROOF_RESULTS", "500"),
        ("PROOF_DEMO", "200"),
        ("PROOF_VIDEO", "100"),
        ("BACKBLAZE_KEYID", "kid"),
        ("BACKBLAZE_KEY", "SECRET-REDACTED"),
        ("BACKBLAZE_BUCKET", "demos"),
    ])
}

#[test]
fn full_environment_gives_config() {
    let c = Config::from_env(&full()).unwrap();
    assert_eq!(c.database_url, "postgres://localhost/boards");
    assert_eq!(c.server.host, "0.0.0.0");
    assert_eq!(c.server.port, 8080);
    assert_eq!(c.proof.results, 500);
    assert_eq!(c.proof.demo, 200);
    assert_eq!(c.proof.video, 100);
    assert_eq!(c.backblaze.keyid, "kid");
    assert_eq!(c.backblaze.key, "SECRET-REDACTED");
    assert_eq!(c.backblaze.bucket, "demos");
}

#[test]
fn names_match_without_case() {
    let mut vars = full();
    vars[3] = ("server_port".to_string(), "9000".to_string());
    let c = Config::from_env(&vars).unwrap();
    assert_eq!(c.server.port, 9000);
}

#[test]
fn first_matching_variable_wins() {
    let mut vars = full();
    vars.insert(0, ("Server_Host".to_string(), "example.org".to_string()));
    let c = Config::from_env(&vars).unwrap();
    assert_eq!(c.server.host, "example.org");
}

#[test]
fn missing_variable_is_named() {
    let mut vars = full();
    vars.retain(|(k, _)| k != "PROOF_DEMO");
    match Config::from_env(&vars) {
        Err(ConfigError::Missing(k)) => assert_eq!(k, "PROOF_DEMO"),
        _ => panic!("expected a missing variable"),
    }
}

#[test]
fn first_failing_setting_is_reported() {
    let vars = env(&[("SERVER_PORT", "x")]);
    match Config::from_env(&vars) {
        Err(ConfigError::Missing(k)) => assert_eq!(k, "DATABASE_URL"),
        _ => panic!("expected a missing variable"),
    }
}

#[test]
fn non_integer_is_invalid() {
    let mut vars = full();
    vars[3].1 = "80a".to_string();
    match Config::from_env(&vars) {
        Err(ConfigError::Invalid(k)) => assert_eq!(k, "SERVER_PORT"),
        _ => panic!("expected an invalid variable"),
    }
}

#[test]
fn integers_parse_at_the_edges_of_range() {
    assert_eq!(parse_i32("2147483647"), Some(i32::MAX));
    assert_eq!(parse_i32("-2147483648"), Some(i32::MIN));
    assert_eq!(parse_i32("2147483648"), None);
    assert_eq!(parse_i32("-2147483649"), None);
    assert_eq!(parse_i32("99999999999999999999999"), None);
    assert_eq!(parse_i32("+17"), Some(17));
    assert_eq!(parse_i32("007"), Some(7));
    assert_eq!(parse_i32("-0"), Some(0));
}

#[test]
fn malformed_integers_are_rejected() {
    assert_eq!(parse_i32(""), None);
    assert_eq!(parse_i32("-"), None);
    assert_eq!(parse_i32("+"), None);
    assert_eq!(parse_i32("1 2"), None);
    assert_eq!(parse_i32("--1"), None);
    assert_eq!(parse_i32("١٢"), None);
}
