use razberry::command_class::sensor_binary::SensorBinary;
use razberry::{CommandClass, CommandClasses, Device, DeviceUpdate, JsonValue, RazberryError};

fn update(path: &[&str], data: &str) -> DeviceUpdate {
    DeviceUpdate {
        path: path.iter().map(|s| s.to_string()).collect(),
        data: JsonValue::parse(data).unwrap(),
    }
}

const DEVICE: &str = r#"{
  "data": {
    "givenName": { "value": "Porch" },
    "lastReceived": { "updateTime": 1465265000 }
  },
  "instances": { "0": { "commandClasses": {
    "48": { "data": { "1": { "level": { "value": false, "updateTime": 1465265727 } } } },
    "113": { "data": {} },
    "255": { "data": {} },
    "abc": {}
  } } }
}"#;

#[test]
fn sensor_binary_round_trip() {
    let json = JsonValue::parse(r#"{"data":{"1":{"level":{"value":false,"updateTime":1465265727}}}}"#).unwrap();
    let mut sensor = SensorBinary::initialize_from_json(&json).unwrap();
    assert!(!sensor.get_level());
    assert_eq!(sensor.get_level_updated(), 1465265727);

    let u = update(
        &["instances", "0", "commandClasses", "48", "data", "1"],
        r#"{"level":{"value":true,"updateTime":1491289442}}"#,
    );
    assert_eq!(sensor.process_update(&u), Ok(()));
    assert!(sensor.get_level());
    assert_eq!(sensor.get_level_updated(), 1491289442);
}

#[test]
fn sensor_binary_errors_and_irrelevant_updates() {
    let json = JsonValue::parse(r#"{"data":{"1":{"level":{"value":1,"updateTime":5}}}}"#).unwrap();
    assert_eq!(SensorBinary::initialize_from_json(&json), Err(RazberryError::BadResponse));
    let json = JsonValue::parse(r#"{"data":{"1":{"level":{"value":true,"updateTime":5}}}}"#).unwrap();
    let mut sensor = SensorBinary::initialize_from_json(&json).unwrap();
    let irrelevant = update(&["instances", "0", "commandClasses", "48", "name"], "{}");
    assert_eq!(sensor.process_update(&irrelevant), Ok(()));
    assert_eq!(sensor, SensorBinary { level: true, level_updated: 5 });
    let bad = update(&["instances", "0", "commandClasses", "48", "data", "1"], r#"{"level":{"value":false}}"#);
    assert_eq!(sensor.process_update(&bad), Err(RazberryError::BadResponse));
    assert_eq!(sensor, SensorBinary { level: true, level_updated: 5 });
}

#[test]
fn device_skips_unrecognized_and_unsupported_classes() {
    let json = JsonValue::parse(DEVICE).unwrap();
    let device = Device::initialize_from_json("3", &json).unwrap();
    assert_eq!(device.id, "3");
    assert_eq!(device.name, "Porch");
    assert_eq!(device.last_contacted, 1465265000);
    assert_eq!(device.command_classes.len(), 1);
    assert_eq!(device.command_classes[0].0, CommandClasses::SensorBinary);
    assert!(device.get_command_class(CommandClasses::Alarm).is_none());
}

#[test]
fn device_missing_fields_are_bad_responses() {
    let no_name = DEVICE.replace("givenName", "nickname");
    let json = JsonValue::parse(&no_name).unwrap();
    assert_eq!(Device::initialize_from_json("3", &json).err(), Some(RazberryError::BadResponse));
    let no_time = DEVICE.replace("lastReceived", "lastSent");
    let json = JsonValue::parse(&no_time).unwrap();
    assert_eq!(Device::initialize_from_json("3", &json).err(), Some(RazberryError::BadResponse));
    let json = JsonValue::parse(r#"{"data": {"givenName": {"value": "x"}, "lastReceived": {"updateTime": 1}}}"#).unwrap();
    assert_eq!(Device::initialize_from_json("3", &json).err(), Some(RazberryError::BadResponse));
    let bad_sensor = DEVICE.replace("\"value\": false", "\"value\": 0");
    let json = JsonValue::parse(&bad_sensor).unwrap();
    assert_eq!(Device::initialize_from_json("3", &json).err(), Some(RazberryError::BadResponse));
}

#[test]
fn device_updates_apply_in_order_and_stop_at_error() {
    let json = JsonValue::parse(DEVICE).unwrap();
    let mut device = Device::initialize_from_json("3", &json).unwrap();
    let updates = vec![
        update(&["data", "lastReceived"], r#"{"updateTime": 1465266000}"#),
        update(&["instances", "0", "commandClasses", "48", "data", "1"], r#"{"level":{"value":true,"updateTime":1465266001}}"#),
        update(&["instances", "0", "commandClasses", "113", "data", "7"], "{}"),
        update(&["instances", "0", "commandClasses", "255", "data"], "{}"),
        update(&["instances", "0", "other"], "{}"),
        update(&["name"], "{}"),
        update(&["data", "lastReceived"], r#"{"value": 1}"#),
        update(&["data", "lastReceived"], r#"{"updateTime": 99}"#),
    ];
    assert_eq!(device.process_updates(updates), Err(RazberryError::BadResponse));
    assert_eq!(device.last_contacted, 1465266000);
    assert_eq!(
        device.get_command_class(CommandClasses::SensorBinary),
        Some(&CommandClass::SensorBinary { inner: SensorBinary { level: true, level_updated: 1465266001 } })
    );
    let short = vec![update(&["instances", "0", "commandClasses"], "{}")];
    assert_eq!(device.process_updates(short), Err(RazberryError::BadResponse));
}

#[test]
fn command_class_initialize_dispatches() {
    let json = JsonValue::parse("{}").unwrap();
    assert_eq!(CommandClass::initialize_from_json(CommandClasses::Battery, &json), Ok(CommandClass::Unsupported));
    assert_eq!(
        CommandClass::initialize_from_json(CommandClasses::SensorBinary, &json),
        Err(RazberryError::BadResponse)
    );
}

#[test]
fn later_member_for_the_same_class_wins() {
    let json = JsonValue::parse(
        r#"{
      "data": { "givenName": { "value": "Twice" }, "lastReceived": { "updateTime": 1 } },
      "instances": { "0": { "commandClasses": {
        "048": { "data": { "1": { "level": { "value": false, "updateTime": 10 } } } },
        "48": { "data": { "1": { "level": { "value": true, "updateTime": 20 } } } }
      } } }
    }"#,
    )
    .unwrap();
    let device = Device::initialize_from_json("8", &json).unwrap();
    assert_eq!(device.command_classes.len(), 1);
    assert_eq!(
        device.get_command_class(CommandClasses::SensorBinary),
        Some(&CommandClass::SensorBinary { inner: SensorBinary { level: true, level_updated: 20 } })
    );
}

#[test]
fn plain_key_wins_over_other_numerals() {
    let sensor = |value: bool, time: i64| {
        JsonValue::parse(&format!(
            "{{\"data\": {{\"1\": {{\"level\": {{\"value\": {}, \"updateTime\": {}}}}}}}}}",
            value, time
        ))
        .unwrap()
    };
    let classes = JsonValue::Object(vec![
        ("48".to_string(), sensor(true, 20)),
        ("048".to_string(), sensor(false, 30)),
        ("+48".to_string(), sensor(false, 40)),
    ]);
    let json = JsonValue::Object(vec![
        (
            "data".to_string(),
            JsonValue::parse(r#"{"givenName": {"value": "X"}, "lastReceived": {"updateTime": 1}}"#).unwrap(),
        ),
        (
            "instances".to_string(),
            JsonValue::Object(vec![(
                "0".to_string(),
                JsonValue::Object(vec![("commandClasses".to_string(), classes)]),
            )]),
        ),
    ]);
    let device = Device::initialize_from_json("9", &json).unwrap();
    assert_eq!(device.command_classes.len(), 1);
    assert_eq!(
        device.get_command_class(CommandClasses::SensorBinary),
        Some(&CommandClass::SensorBinary { inner: SensorBinary { level: true, level_updated: 20 } })
    );
}

#[test]
fn without_plain_key_later_numeral_wins() {
    let json = JsonValue::parse(
        r#"{
      "data": { "givenName": { "value": "Y" }, "lastReceived": { "updateTime": 1 } },
      "instances": { "0": { "commandClasses": {
        "+48": { "data": { "1": { "level": { "value": false, "updateTime": 10 } } } },
        "048": { "data": { "1": { "level": { "value": true, "updateTime": 20 } } } }
      } } }
    }"#,
    )
    .unwrap();
    let device = Device::initialize_from_json("9", &json).unwrap();
    assert_eq!(
        device.get_command_class(CommandClasses::SensorBinary),
        Some(&CommandClass::SensorBinary { inner: SensorBinary { level: true, level_updated: 20 } })
    );
}
