use slipmesh_routeros::credentials::{
    parse_from_yaml, RawCredentials, RouterCredentials, DEFAULT_PORT,
};
use slipmesh_routeros::error::Error;

fn field(document: &serde_yaml::Value, name: &str) -> Option<String> {
    document.get(name).and_then(|v| v.as_str()).map(|s| s.to_string())
}

fn parse(content: &str) -> Result<RouterCredentials, Error> {
    let document = match serde_yaml::from_str::<serde_yaml::Value>(content) {
        Ok(v) => Ok(RawCredentials {
            host: field(&v, "host"),
            port: v.get("port").and_then(|p| p.as_u64()).map(|p| p as u16),
            username: field(&v, "username"),
            password: field(&v, "password"),
        }),
        Err(e) => Err(e.to_string()),
    };
    parse_from_yaml(document)
}

#[test]
fn parses_all_fields() {
    let yaml = "host: 192.168.88.1\nport: 8729\nusername: ansible\npassword: hunter2\n";
    let creds = parse(yaml).unwrap();
    assert_eq!(creds.host, "192.168.88.1");
    assert_eq!(creds.port, 8729);
    assert_eq!(creds.username, "ansible");
    assert_eq!(creds.password, Some("hunter2".to_string()));
}

#[test]
fn missing_host_is_an_error() {
    assert!(parse("username: ansible\n").is_err());
}

#[test]
fn missing_username_is_an_error() {
    assert!(parse("host: 192.168.88.1\n").is_err());
}

#[test]
fn missing_port_defaults_to_api_ssl_port() {
    let creds = parse("host: 192.168.88.1\nusername: ansible\n").unwrap();
    assert_eq!(creds.port, DEFAULT_PORT);
}

#[test]
fn missing_password_is_none() {
    let creds = parse("host: 192.168.88.1\nusername: ansible\n").unwrap();
    assert_eq!(creds.password, None);
}

#[test]
fn empty_password_is_some_empty_string() {
    let creds = parse("host: 192.168.88.1\nusername: ansible\npassword: \"\"\n").unwrap();
    assert_eq!(creds.password, Some(String::new()));
}

#[test]
fn malformed_yaml_is_an_error() {
    assert!(parse("host: [unterminated\n").is_err());
}

#[test]
fn empty_document_is_an_error() {
    assert!(parse("").is_err());
}

#[test]
fn what_is_missing_is_told_the_host_first() {
    assert_eq!(parse("{}"), Err(Error::MissingHost));
    assert_eq!(parse("host: \"\"\nusername: ansible\n"), Err(Error::MissingHost));
    assert_eq!(parse("host: h\nusername: \"\"\n"), Err(Error::MissingUsername));
    assert_eq!(
        parse_from_yaml(Err("broken".to_string())),
        Err(Error::CredentialsYaml { reason: "broken".to_string() })
    );
    assert_eq!(
        Error::CredentialsYaml { reason: "broken".to_string() }.message(),
        "mikrotik credentials document is not valid YAML: broken"
    );
}

#[test]
fn a_given_port_is_kept() {
    let creds = parse("host: h\nport: 9000\nusername: u\n").unwrap();
    assert_eq!(creds.port, 9000);
}
