use razberry::sensors::{BurglarAlarmData, GeneralPurposeBinaryData};
use razberry::JsonValue;

// Builds a burglar alarm view over the JSON text, or over `{}` where the
// text does not parse.
fn burglar_alarm(json_string: &str) -> BurglarAlarmData {
    match JsonValue::parse(json_string) {
        None => BurglarAlarmData::new(&JsonValue::parse("{}").unwrap()),
        Some(json) => BurglarAlarmData::new(&json),
    }
}

#[test]
fn get_activated() {
    let mut json = "{}";

    // Basic fail cases
    assert_eq!(burglar_alarm(json).get_activated(), None);
    assert_eq!(burglar_alarm("{\"foo\": 0}").get_activated(), None);
    assert_eq!(burglar_alarm("{\"eventMask\": 0}").get_activated(), None);

    // Aeotec Multisensor Gen 5
    json = "{\"eventMask\": {\"value\": 128}, \"status\": {\"value\": 0}}";
    assert_eq!(burglar_alarm(json).get_activated(), Some(false));
    json = "{\"eventMask\": {\"value\": 128}, \"status\": {\"value\": 255}}";
    assert_eq!(burglar_alarm(json).get_activated(), Some(true));

    // Aeotec Multisensor Gen 6
    json = "{\"eventMask\": {\"value\": 264}, \"event\": {\"value\": 0}}";
    assert_eq!(burglar_alarm(json).get_activated(), Some(false));
    json = "{\"eventMask\": {\"value\": 264}, \"event\": {\"value\": 254}}";
    assert_eq!(burglar_alarm(json).get_activated(), Some(false));
    json = "{\"eventMask\": {\"value\": 264}, \"event\": {\"value\": 8}}";
    assert_eq!(burglar_alarm(json).get_activated(), Some(true));
}

#[test]
fn get_status_true() {
    let json = JsonValue::parse("{\"status\": {\"value\": 255}}").unwrap();
    let alarm = BurglarAlarmData::new(&json);
    assert!(alarm.get_status().unwrap());
}

#[test]
fn get_status_false() {
    let json = JsonValue::parse("{\"status\": {\"value\": 0}}").unwrap();
    let alarm = BurglarAlarmData::new(&json);
    assert!(!alarm.get_status().unwrap());
}

#[test]
fn get_status_invalid() {
    let json = JsonValue::parse("{\"status\": {\"value\": true}}").unwrap();
    let alarm = BurglarAlarmData::new(&json);
    assert!(alarm.get_status().is_none());
}

#[test]
fn get_status_not_present() {
    let json = JsonValue::parse("{}").unwrap();
    let alarm = BurglarAlarmData::new(&json);
    assert!(alarm.get_status().is_none());
}

#[test]
fn get_event() {
    // Fail cases
    assert_eq!(burglar_alarm("{}").get_event(), None);
    assert_eq!(burglar_alarm("{\"event\": {\"foo\": 0}}").get_event(), None);
    assert_eq!(burglar_alarm("{\"event\": {\"value\": true}}").get_event(), None);

    // Success cases
    assert_eq!(burglar_alarm("{\"event\": {\"value\": 0}}").get_event(), Some(0i64));
    assert_eq!(burglar_alarm("{\"event\": {\"value\": 255}}").get_event(), Some(255i64));
}

#[test]
fn get_event_updated() {
    // Fail cases
    assert_eq!(burglar_alarm("{}").get_event_updated(), None);
    assert_eq!(burglar_alarm("{\"event\": {\"foo\": 0}}").get_event_updated(), None);
    assert_eq!(burglar_alarm("{\"event\": {\"value\": true}}").get_event_updated(), None);

    // Success cases
    assert_eq!(burglar_alarm("{\"event\": {\"updateTime\": 0}}").get_event_updated(), Some(0i64));
    assert_eq!(
        burglar_alarm("{\"event\": {\"updateTime\": 1457816333}}").get_event_updated(),
        Some(1457816333i64)
    );
}

#[test]
fn get_event_mask() {
    // Fail cases
    assert_eq!(burglar_alarm("{}").get_event_mask(), None);
    assert_eq!(burglar_alarm("{\"eventMask\": {\"foo\": 0}}").get_event_mask(), None);
    assert_eq!(burglar_alarm("{\"eventMask\": {\"value\": true}}").get_event_mask(), None);

    // Success cases
    assert_eq!(burglar_alarm("{\"eventMask\": {\"value\": 0}}").get_event_mask(), Some(0i64));
    assert_eq!(burglar_alarm("{\"eventMask\": {\"value\": 255}}").get_event_mask(), Some(255i64));
}

#[test]
fn get_event_string() {
    // Fail cases
    assert_eq!(burglar_alarm("{}").get_event_string(), None);
    assert_eq!(burglar_alarm("{\"eventString\": {\"foo\": 0}}").get_event_string(), None);
    assert_eq!(burglar_alarm("{\"eventString\": {\"value\": true}}").get_event_string(), None);

    // Success cases
    assert_eq!(
        burglar_alarm("{\"eventString\": {\"value\": \"\"}}").get_event_string(),
        Some("".to_string())
    );
    assert_eq!(
        burglar_alarm("{\"eventString\": {\"value\": \"test\"}}").get_event_string(),
        Some("test".to_string())
    );
}

#[test]
fn alarm_with_unknown_mask_is_not_known_to_be_activated() {
    let json = "{\"eventMask\": {\"value\": 7}, \"status\": {\"value\": 255}, \"event\": {\"value\": 8}}";
    assert_eq!(burglar_alarm(json).get_activated(), None);
    let json = "{\"eventMask\": {\"value\": 264}}";
    assert_eq!(burglar_alarm(json).get_activated(), None);
}

#[test]
fn alarm_status_and_event_times() {
    let json = "{\"status\": {\"value\": -3, \"updateTime\": 1456014517}}";
    let alarm = burglar_alarm(json);
    assert_eq!(alarm.get_status(), Some(true));
    assert_eq!(alarm.get_status_updated(), Some(1456014517i64));
}

#[test]
fn large_unsigned_values_and_i64() {
    assert_eq!(
        burglar_alarm("{\"event\": {\"value\": 9223372036854775808}}").get_event(),
        None
    );
    assert_eq!(
        burglar_alarm("{\"event\": {\"value\": 9223372036854775807}}").get_event(),
        Some(i64::MAX)
    );
    assert_eq!(
        burglar_alarm("{\"event\": {\"value\": 9223372036854775806}}").get_event(),
        Some(9223372036854775806i64)
    );
    assert_eq!(
        burglar_alarm("{\"event\": {\"value\": -9223372036854775808}}").get_event(),
        Some(i64::MIN)
    );
}

#[test]
fn general_purpose_binary_reads_level() {
    let json = JsonValue::parse("{\"level\": {\"value\": true, \"updateTime\": 1456569899}}").unwrap();
    let sensor = GeneralPurposeBinaryData::new(&json);
    assert_eq!(sensor.get_status(), Some(true));
    assert_eq!(sensor.get_status_updated(), Some(1456569899i64));

    let json = JsonValue::parse("{\"level\": {\"value\": 1}}").unwrap();
    let sensor = GeneralPurposeBinaryData::new(&json);
    assert_eq!(sensor.get_status(), None);
    assert_eq!(sensor.get_status_updated(), None);
}
