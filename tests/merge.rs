use razberry::response::{GatewayState, PartialGatewayState, ResponseError};

const FULL: &str = r#"{
  "devices": {
    "4": { "instances": { "0": { "commandClasses": { "113": { "data": { "7": {
      "status": { "value": 0, "updateTime": 1456014517 },
      "eventMask": { "value": 128 },
      "event": { "value": 7 }
    } } } } } } },
    "5": { "instances": { "0": { "commandClasses": { "48": { "data": { "1": {
      "level": { "value": true, "updateTime": 1456569899 }
    } } } } } } }
  },
  "updateTime": 1456036584
}"#;

const DELTA: &str = r#"{
  "devices.5.instances.0.commandClasses.48.data.1.level": { "value": false, "updateTime": 1456036600 },
  "devices.9.instances.0.commandClasses.48.data.1": { "level": { "value": true } },
  "updateTime": 1456036700
}"#;

fn alarm_state(status: i64) -> GatewayState {
    let text = FULL.replace("\"value\": 0, \"updateTime\": 1456014517", &format!("\"value\": {}, \"updateTime\": 1456014517", status));
    GatewayState::build(&text).unwrap()
}

#[test]
fn build_reads_end_timestamp() {
    let state = GatewayState::build(FULL).unwrap();
    assert_eq!(state.get_end_timestamp(), 1456036584);
    let partial = PartialGatewayState::build(DELTA, 1456036584).unwrap();
    assert_eq!(partial.get_start_timestamp(), 1456036584);
    assert_eq!(partial.get_end_timestamp(), 1456036700);
}

#[test]
fn build_errors() {
    assert_eq!(GatewayState::build("{").err(), Some(ResponseError::ParseError));
    assert_eq!(GatewayState::build("{\"devices\": {}}").err(), Some(ResponseError::MissingTimestamp));
    assert_eq!(GatewayState::build("{\"updateTime\": true}").err(), Some(ResponseError::MissingTimestamp));
    assert_eq!(GatewayState::build("[1]").err(), Some(ResponseError::MissingTimestamp));
    assert_eq!(PartialGatewayState::build("x", 0).err(), Some(ResponseError::ParseError));
    assert_eq!(PartialGatewayState::build("{}", 0).err(), Some(ResponseError::MissingTimestamp));
}

#[test]
fn merge_applies_delta_and_advances() {
    let mut state = GatewayState::build(FULL).unwrap();
    let partial = PartialGatewayState::build(DELTA, 1456036584).unwrap();
    assert_eq!(state.merge(&partial), Ok(()));
    assert_eq!(state.get_end_timestamp(), 1456036700);
    let binary = state.get_general_purpose_binary(5, 0).unwrap();
    assert_eq!(binary.get_status(), Some(false));
    assert_eq!(binary.get_status_updated(), Some(1456036600));
    // The delta for a device the snapshot lacks is dropped.
    assert!(state.get_general_purpose_binary(9, 0).is_none());
}

#[test]
fn merge_keeps_sibling_fields() {
    let mut state = GatewayState::build(FULL).unwrap();
    let delta = r#"{"devices.4.instances.0.commandClasses.113.data.7.status": {"value": 255}, "updateTime": 1456036700}"#;
    let partial = PartialGatewayState::build(delta, 1456036584).unwrap();
    assert_eq!(state.merge(&partial), Ok(()));
    let alarm = state.get_burglar_alarm(4, 0).unwrap();
    assert_eq!(alarm.get_status(), Some(true));
    assert_eq!(alarm.get_status_updated(), Some(1456014517));
}

#[test]
fn merge_stale_delta_is_noop() {
    let mut state = GatewayState::build(FULL).unwrap();
    let stale = r#"{"devices.5.instances.0.commandClasses.48.data.1.level": {"value": false}, "updateTime": 1456036584}"#;
    let partial = PartialGatewayState::build(stale, 1456036500).unwrap();
    assert_eq!(state.merge(&partial), Ok(()));
    assert_eq!(state.get_end_timestamp(), 1456036584);
    assert_eq!(state.get_general_purpose_binary(5, 0).unwrap().get_status(), Some(true));
}

#[test]
fn merge_gap_is_refused() {
    let mut state = GatewayState::build(FULL).unwrap();
    let partial = PartialGatewayState::build(DELTA, 1456036585).unwrap();
    assert_eq!(state.merge(&partial), Err(ResponseError::PossibleMissingEvents));
    assert_eq!(state.get_end_timestamp(), 1456036584);
    assert_eq!(state.get_general_purpose_binary(5, 0).unwrap().get_status(), Some(true));
}

#[test]
fn merge_twice_equals_once() {
    let mut once = GatewayState::build(FULL).unwrap();
    let mut twice = GatewayState::build(FULL).unwrap();
    let partial = PartialGatewayState::build(DELTA, 1456036584).unwrap();
    assert_eq!(once.merge(&partial), Ok(()));
    assert_eq!(twice.merge(&partial), Ok(()));
    assert_eq!(twice.merge(&partial), Ok(()));
    assert_eq!(once.get_end_timestamp(), twice.get_end_timestamp());
    let a = once.get_general_purpose_binary(5, 0).unwrap();
    let b = twice.get_general_purpose_binary(5, 0).unwrap();
    assert_eq!(a.get_status(), b.get_status());
    assert_eq!(a.get_status_updated(), b.get_status_updated());
}

#[test]
fn burglar_alarm_activation_from_snapshot() {
    assert_eq!(alarm_state(0).get_burglar_alarm(4, 0).unwrap().get_activated(), Some(false));
    assert_eq!(alarm_state(255).get_burglar_alarm(4, 0).unwrap().get_activated(), Some(true));
    assert!(alarm_state(0).get_burglar_alarm(4, 1).is_none());
}
