use slipmesh_routeros::error::Error;
use slipmesh_routeros::sanitize::validate_endpoint;

#[test]
fn accepts_hostnames_and_addresses() {
    assert!(validate_endpoint("hq.int.example.com").is_ok());
    assert!(validate_endpoint("192.168.88.1").is_ok());
    assert!(validate_endpoint("2001:db8::1").is_ok());
}

#[test]
fn rejects_empty() {
    assert!(validate_endpoint("").is_err());
}

#[test]
fn rejects_embedded_semicolon_and_whitespace() {
    assert!(validate_endpoint("hq.example.com;evil").is_err());
    assert!(validate_endpoint("hq.example.com evil").is_err());
}

#[test]
fn rejects_quotes_and_control_characters() {
    assert!(validate_endpoint("hq.example.com\"").is_err());
    assert!(validate_endpoint("hq.example.com\n").is_err());
    assert!(validate_endpoint("hq.example.com\0").is_err());
}

#[test]
fn an_empty_host_and_a_bad_one_are_told_apart() {
    assert_eq!(validate_endpoint(""), Err(Error::EndpointEmpty));
    assert_eq!(
        validate_endpoint("h\u{e4}ll.example"),
        Err(Error::EndpointCharacters { endpoint: "h\u{e4}ll.example".to_string() })
    );
}
