use regex::Regex;
use web_server::address::{parse_ip, validate_address, AddressError, IP_REGEX};

fn captures_of(text: &str) -> Vec<String> {
    let regex = Regex::new(IP_REGEX).unwrap();
    let caps = regex.captures(text).unwrap();
    caps.iter().map(|g| g.map_or(String::new(), |m| m.as_str().to_string())).collect()
}

#[test]
fn test_parse_ip() {
    let test_data = "127.0.0.1:5000";
    let response = parse_ip(&captures_of(test_data));
    assert_eq!(response, Ok(test_data.to_string()));
}

#[test]
fn address_found_inside_text() {
    assert_eq!(validate_address("listen on 10.0.0.1:8080 now"), Ok("10.0.0.1:8080".to_string()));
}

#[test]
fn port_above_limit_is_refused() {
    assert_eq!(validate_address("127.0.0.1:65535"), Ok("127.0.0.1:65535".to_string()));
    assert_eq!(validate_address("127.0.0.1:65536"), Err(AddressError::InvalidPort));
    assert_eq!(validate_address("127.0.0.1:99999999999999999999"), Err(AddressError::InvalidPort));
}

#[test]
fn leading_zero_segment_is_refused() {
    assert_eq!(validate_address("127.00.0.1:80"), Err(AddressError::InvalidSegment));
    assert_eq!(validate_address("0.0.0.0:80"), Ok("0.0.0.0:80".to_string()));
}

#[test]
fn port_is_checked_before_segments() {
    assert_eq!(validate_address("01.0.0.1:70000"), Err(AddressError::InvalidPort));
}

#[test]
fn large_segment_is_not_refused() {
    assert_eq!(validate_address("300.0.0.1:80"), Ok("300.0.0.1:80".to_string()));
}

#[test]
fn text_without_address_is_refused() {
    assert_eq!(validate_address("localhost"), Err(AddressError::NotAnAddress));
    assert_eq!(AddressError::NotAnAddress.message(), "ValueParse Error: Not a valid IP address.");
    assert_eq!(AddressError::InvalidPort.message(), "Value Error: Not a valid TCP Port.");
}

#[test]
fn wrong_number_of_captures_is_refused() {
    assert_eq!(parse_ip(&vec!["1.2.3.4:5".to_string()]), Err(AddressError::NotAnAddress));
}
