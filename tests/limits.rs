use razberry::response::{DataResponse, GatewayState, ResponseError};
use razberry::scan::check_parser_limits;
use razberry::JsonValue;

fn with_key(key: &str) -> String {
    format!("{{\"{}\": 1, \"updateTime\": 1}}", key)
}

#[test]
fn key_chain_at_the_limit_parses() {
    let key = "a".repeat(65535);
    let text = with_key(&key);
    assert!(check_parser_limits(&text));
    let state = GatewayState::build(&text).unwrap();
    assert_eq!(state.get_end_timestamp(), 1);
    assert!(state.get_json().get(&key).is_some());
}

#[test]
fn key_chain_past_the_limit_is_a_parse_error() {
    let text = with_key(&"a".repeat(65536));
    assert!(!check_parser_limits(&text));
    assert_eq!(GatewayState::build(&text).err(), Some(ResponseError::ParseError));
    assert_eq!(DataResponse::from_str(&text).err(), Some(ResponseError::ParseError));

    let outer = "b".repeat(40000);
    let inner = "c".repeat(30000);
    let nested = format!("{{\"{}\": {{\"{}\": 1}}, \"updateTime\": 1}}", outer, inner);
    assert!(JsonValue::parse(&nested).is_none());
    let siblings = format!("{{\"{}\": 1, \"{}\": 2, \"updateTime\": 1}}", outer, inner);
    assert!(JsonValue::parse(&siblings).is_some());

    let chain = format!("{{\"{}\": {{\"x\": 1}}, \"updateTime\": 1}}", "a".repeat(65535));
    assert!(JsonValue::parse(&chain).is_none());
}

#[test]
fn key_chain_counts_decoded_bytes() {
    // Each escape decodes to two bytes.
    let at_limit = format!("{}a", "\\u00e9".repeat(32767));
    assert!(JsonValue::parse(&with_key(&at_limit)).is_some());
    let past = "\\u00e9".repeat(32768);
    assert!(JsonValue::parse(&with_key(&past)).is_none());
    // Each character takes three bytes.
    let wide = "\u{20ac}".repeat(21845);
    assert!(JsonValue::parse(&with_key(&wide)).is_some());
    let wider = "\u{20ac}".repeat(21846);
    assert!(JsonValue::parse(&with_key(&wider)).is_none());
}

#[test]
fn nesting_at_the_limit_parses() {
    let text = format!("{{\"a\": {}1{}, \"updateTime\": 1}}", "[".repeat(127), "]".repeat(127));
    assert!(GatewayState::build(&text).is_ok());
    let deeper = format!("{{\"a\": {}1{}, \"updateTime\": 1}}", "[".repeat(128), "]".repeat(128));
    assert_eq!(GatewayState::build(&deeper).err(), Some(ResponseError::ParseError));
}

#[test]
fn update_time_of_i64_max_is_accepted() {
    let state = GatewayState::build("{\"updateTime\": 9223372036854775807}").unwrap();
    assert_eq!(state.get_end_timestamp(), i64::MAX);
    assert_eq!(
        GatewayState::build("{\"updateTime\": 9223372036854775808}").err(),
        Some(ResponseError::MissingTimestamp)
    );
}

#[test]
fn long_exponent_is_a_parse_error() {
    assert!(!check_parser_limits("1e100000000000000000000"));
    assert!(JsonValue::parse("1e100000000000000000000").is_none());
    let text = "{\"updateTime\": 1, \"x\": 1e99999999999999999999}";
    assert_eq!(GatewayState::build(text).err(), Some(ResponseError::ParseError));
    assert_eq!(DataResponse::from_str(text).err(), Some(ResponseError::ParseError));
    assert!(JsonValue::parse("[1E-1234567890]").is_none());
}

#[test]
fn exponent_at_the_limit_parses() {
    let state = GatewayState::build("{\"updateTime\": 1, \"x\": 1e999999999, \"y\": 2.5E-123456789}").unwrap();
    assert_eq!(state.get_end_timestamp(), 1);
    assert!(JsonValue::parse("[true, false, 1e+5, \"e1234567890\"]").is_some());
}
