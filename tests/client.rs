use razberry::client::{load_devices, parse_cookie_value, parse_update_time, poll_devices};
use razberry::{CommandClass, CommandClasses, JsonValue, RazberryError};

#[test]
fn test_good_cookie_parsing() {
    let cookie = "ZWAYSession=foo-bar-baz; Path=/; HttpOnly";
    let parsed = parse_cookie_value(cookie);
    assert!(parsed.is_some());

    let pair = parsed.unwrap();
    assert_eq!("ZWAYSession", pair.0);
    assert_eq!("foo-bar-baz", pair.1);
}

#[test]
fn test_bad_cookie_parsing() {
    let cookie = "";
    let parsed = parse_cookie_value(cookie);
    assert!(parsed.is_none());

    let cookie = "invalid; invalid";
    let parsed = parse_cookie_value(cookie);
    assert!(parsed.is_none());
}

#[test]
fn cookie_keeps_only_first_two_pieces() {
    let parsed = parse_cookie_value("a=b=c;x; Path=/").unwrap();
    assert_eq!("a", parsed.0);
    assert_eq!("b", parsed.1);
}

#[test]
fn test_parse_timestamp() {
    let json = JsonValue::parse("{\"updateTime\": 0}").unwrap();
    let update_time = parse_update_time(&json).unwrap();
    let expected = 0i64;

    assert_eq!(update_time, expected);

    let json = JsonValue::parse("{\"updateTime\": 1492409124}").unwrap();
    let update_time = parse_update_time(&json).unwrap();
    let expected = 1492409124i64;

    assert_eq!(update_time, expected);
}

#[test]
fn parse_timestamp_missing_is_bad_response() {
    let json = JsonValue::parse("{\"updateTime\": \"x\"}").unwrap();
    assert_eq!(parse_update_time(&json), Err(RazberryError::BadResponse));
}

const SNAPSHOT: &str = r#"{
  "devices": {
    "2": {
      "data": {
        "givenName": { "value": "Hall" },
        "lastReceived": { "value": 0, "updateTime": 1465265700 }
      },
      "instances": { "0": { "commandClasses": {
        "48": { "data": { "1": { "level": { "value": false, "updateTime": 1465265727 } } } },
        "32": { "data": { "level": { "value": 0 } } },
        "255": { "data": {} }
      } } }
    }
  },
  "updateTime": 1465265800
}"#;

#[test]
fn load_and_poll_devices() {
    let (mut devices, time) = load_devices(SNAPSHOT).unwrap();
    assert_eq!(time, 1465265800);
    assert_eq!(devices.len(), 1);
    assert_eq!(devices[0].id, "2");
    assert_eq!(devices[0].name, "Hall");
    assert_eq!(devices[0].last_contacted, 1465265700);
    assert_eq!(devices[0].command_classes.len(), 1);

    let delta = r#"{
      "devices.2.instances.0.commandClasses.48.data.1": { "level": { "value": true, "updateTime": 1491289442 } },
      "devices.2.data.lastReceived": { "updateTime": 1491289443 },
      "devices.3.data.lastReceived": { "updateTime": 5 },
      "updateTime": 1491289450
    }"#;
    assert_eq!(poll_devices(&mut devices, delta), Ok(1491289450));
    assert_eq!(devices[0].last_contacted, 1491289443);
    match devices[0].get_command_class(CommandClasses::SensorBinary) {
        Some(CommandClass::SensorBinary { inner }) => {
            assert!(inner.get_level());
            assert_eq!(inner.get_level_updated(), 1491289442);
        }
        _ => panic!("the binary sensor is missing"),
    }
}

#[test]
fn poll_errors() {
    let (mut devices, _) = load_devices(SNAPSHOT).unwrap();
    assert_eq!(poll_devices(&mut devices, "{"), Err(RazberryError::ParseError));
    assert_eq!(poll_devices(&mut devices, "[]"), Err(RazberryError::BadResponse));
    assert_eq!(poll_devices(&mut devices, "{}"), Err(RazberryError::BadResponse));
    let bad = r#"{"devices.2.data.lastReceived": {"value": 1}, "updateTime": 9}"#;
    assert_eq!(poll_devices(&mut devices, bad), Err(RazberryError::BadResponse));
    assert_eq!(devices[0].last_contacted, 1465265700);
}

#[test]
fn load_errors() {
    assert_eq!(load_devices("nope").err(), Some(RazberryError::ParseError));
    assert_eq!(load_devices("{\"updateTime\": 1}").err(), Some(RazberryError::BadResponse));
    assert_eq!(load_devices("{\"devices\": {}}").err(), Some(RazberryError::BadResponse));
    let nameless = r#"{"devices": {"1": {"data": {}}}, "updateTime": 1}"#;
    assert_eq!(load_devices(nameless).err(), Some(RazberryError::BadResponse));
    assert_eq!(load_devices("{\"devices\": {}, \"updateTime\": 3}").unwrap().1, 3);
}
