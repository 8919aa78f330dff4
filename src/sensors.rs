//! Read-only typed views over one sensor's node of the gateway's tree.

use crate::json::{
    and_then_bool, and_then_i64, and_then_str, keys_view, model_find_path, JsonModel, JsonValue,
};
use crate::response::Timestamp;
use vstd::prelude::*;

verus! {

/// The integer at `m.a.value`-style `path`, if there is one.
pub open spec fn int_at(m: JsonModel, path: Seq<&str>) -> Option<i64> {
    and_then_i64(model_find_path(m, keys_view(path)))
}

/// Whether the alarm's `status` is set: its integer value is not zero.
pub open spec fn alarm_status(m: JsonModel) -> Option<bool> {
    match int_at(m, seq!["status", "value"]) {
        Some(n) => Some(n != 0),
        None => None,
    }
}

pub open spec fn alarm_status_updated(m: JsonModel) -> Option<i64> {
    int_at(m, seq!["status", "updateTime"])
}

pub open spec fn alarm_event(m: JsonModel) -> Option<i64> {
    int_at(m, seq!["event", "value"])
}

pub open spec fn alarm_event_updated(m: JsonModel) -> Option<i64> {
    int_at(m, seq!["event", "updateTime"])
}

pub open spec fn alarm_event_mask(m: JsonModel) -> Option<i64> {
    int_at(m, seq!["eventMask", "value"])
}

pub open spec fn alarm_event_string(m: JsonModel) -> Option<Seq<char>> {
    and_then_str(model_find_path(m, keys_view(seq!["eventString", "value"])))
}

/// Whether the alarm has gone off, by the event mask that the sensor's
/// hardware generation reports: with mask 128 the status says it; with
/// mask 264 an event other than 0 and 254 (unknown) does; with any other
/// mask nothing is known.
pub open spec fn alarm_activated(m: JsonModel) -> Option<bool> {
    match alarm_event_mask(m) {
        Some(mask) => if mask == 128 {
            alarm_status(m)
        } else if mask == 264 {
            match alarm_event(m) {
                Some(ev) => Some(ev != 0 && ev != 254),
                None => None,
            }
        } else {
            None
        },
        None => None,
    }
}

pub open spec fn binary_status(m: JsonModel) -> Option<bool> {
    and_then_bool(model_find_path(m, keys_view(seq!["level", "value"])))
}

pub open spec fn binary_status_updated(m: JsonModel) -> Option<i64> {
    int_at(m, seq!["level", "updateTime"])
}

/// The integer at `path` under `json`.
fn int_under(json: &JsonValue, path: Vec<&str>) -> (r: Option<i64>)
    ensures
        r == int_at(json@, path@),
{
    match json.find_path(path.as_slice()) {
        Some(v) => v.as_i64(),
        None => None,
    }
}

/// Data of the alarm command class (0x71), payload 7.
pub struct BurglarAlarmData {
    json: JsonValue,
}

/// Data of the binary sensor command class (0x30), payload 1 ("general
/// purpose").
pub struct GeneralPurposeBinaryData {
    json: JsonValue,
}

impl View for BurglarAlarmData {
    type V = JsonModel;

    closed spec fn view(&self) -> JsonModel {
        self.json@
    }
}

impl View for GeneralPurposeBinaryData {
    type V = JsonModel;

    closed spec fn view(&self) -> JsonModel {
        self.json@
    }
}

impl BurglarAlarmData {
    pub fn new(json: &JsonValue) -> (r: BurglarAlarmData)
        ensures
            r@ == json@,
    {
        BurglarAlarmData { json: json.copy() }
    }

    /// Whether the alarm has gone off, as [`alarm_activated`] says.
    pub fn get_activated(&self) -> (r: Option<bool>)
        ensures
            r == alarm_activated(self@),
    {
        let mask = match self.get_event_mask() {
            None => {
                return None;
            },
            Some(m) => m,
        };
        if mask == 128 {
            self.get_status()
        } else if mask == 264 {
            match self.get_event() {
                Some(ev) => Some(ev != 0 && ev != 254),
                None => None,
            }
        } else {
            None
        }
    }

    pub fn get_status(&self) -> (r: Option<bool>)
        ensures
            r == alarm_status(self@),
    {
        match int_under(&self.json, vec!["status", "value"]) {
            Some(n) => Some(n != 0),
            None => None,
        }
    }

    pub fn get_status_updated(&self) -> (r: Option<Timestamp>)
        ensures
            r == alarm_status_updated(self@),
    {
        int_under(&self.json, vec!["status", "updateTime"])
    }

    pub fn get_event(&self) -> (r: Option<i64>)
        ensures
            r == alarm_event(self@),
    {
        int_under(&self.json, vec!["event", "value"])
    }

    pub fn get_event_updated(&self) -> (r: Option<Timestamp>)
        ensures
            r == alarm_event_updated(self@),
    {
        int_under(&self.json, vec!["event", "updateTime"])
    }

    pub fn get_event_mask(&self) -> (r: Option<i64>)
        ensures
            r == alarm_event_mask(self@),
    {
        int_under(&self.json, vec!["eventMask", "value"])
    }

    pub fn get_event_string(&self) -> (r: Option<String>)
        ensures
            match r {
                Some(s) => alarm_event_string(self@) == Some(s@),
                None => alarm_event_string(self@) is None,
            },
    {
        let path = vec!["eventString", "value"];
        match self.json.find_path(path.as_slice()) {
            Some(v) => match v.as_str() {
                Some(s) => Some(s.to_owned()),
                None => None,
            },
            None => None,
        }
    }

    pub fn get_json(&self) -> (r: &JsonValue)
        ensures
            r@ == self@,
    {
        &self.json
    }
}

impl GeneralPurposeBinaryData {
    pub fn new(json: &JsonValue) -> (r: GeneralPurposeBinaryData)
        ensures
            r@ == json@,
    {
        GeneralPurposeBinaryData { json: json.copy() }
    }

    /// Whether the sensor is triggered: the boolean at `level.value`.
    pub fn get_status(&self) -> (r: Option<bool>)
        ensures
            r == binary_status(self@),
    {
        let path = vec!["level", "value"];
        match self.json.find_path(path.as_slice()) {
            Some(v) => v.as_bool(),
            None => None,
        }
    }

    pub fn get_status_updated(&self) -> (r: Option<Timestamp>)
        ensures
            r == binary_status_updated(self@),
    {
        int_under(&self.json, vec!["level", "updateTime"])
    }

    pub fn get_json(&self) -> (r: &JsonValue)
        ensures
            r@ == self@,
    {
        &self.json
    }
}

} // verus!
