//! The binary sensor command class (0x30).

use crate::device_update::{DeviceUpdate, UpdateModel};
use crate::error::RazberryError;
use crate::json::{and_then_bool, keys_view, model_find_path, JsonModel, JsonValue};
use crate::response::Timestamp;
use crate::sensors::int_at;
use vstd::prelude::*;

verus! {

/// A sensor with a binary state, and when that state last changed.
#[derive(Debug, Clone, Copy, PartialEq, Eq, Structural)]
pub struct SensorBinary {
    pub level: bool,
    pub level_updated: Timestamp,
}

/// The sensor that a command class node describes: `data.1.level.value`
/// and `data.1.level.updateTime`, both required.
pub open spec fn sensor_binary_of(m: JsonModel) -> Result<SensorBinary, RazberryError> {
    let level = and_then_bool(model_find_path(m, keys_view(seq!["data", "1", "level", "value"])));
    let time = int_at(m, seq!["data", "1", "level", "updateTime"]);
    match (level, time) {
        (Some(l), Some(t)) => Ok(SensorBinary { level: l, level_updated: t }),
        _ => Err(RazberryError::BadResponse),
    }
}

/// The sensor after an update: one whose path has `data` at index 4 sets
/// `level.value` and `level.updateTime` from its value (both required);
/// any other update leaves the sensor as it is.
pub open spec fn sensor_binary_after(s: SensorBinary, u: UpdateModel) -> Result<
    SensorBinary,
    RazberryError,
> {
    if u.path.len() > 4 && u.path[4] == "data"@ {
        let level = and_then_bool(model_find_path(u.data, keys_view(seq!["level", "value"])));
        let time = int_at(u.data, seq!["level", "updateTime"]);
        match (level, time) {
            (Some(l), Some(t)) => Ok(SensorBinary { level: l, level_updated: t }),
            _ => Err(RazberryError::BadResponse),
        }
    } else {
        Ok(s)
    }
}

/// Reads a boolean and a timestamp from `json` at `level_path` and
/// `time_path`.
fn read_level(json: &JsonValue, level_path: Vec<&str>, time_path: Vec<&str>) -> (r: Result<
    SensorBinary,
    RazberryError,
>)
    ensures
        match (
            and_then_bool(model_find_path(json@, keys_view(level_path@))),
            int_at(json@, time_path@),
        ) {
            (Some(l), Some(t)) => r == Ok::<SensorBinary, RazberryError>(
                SensorBinary { level: l, level_updated: t },
            ),
            _ => r == Err::<SensorBinary, RazberryError>(RazberryError::BadResponse),
        },
{
    let level = match json.find_path(level_path.as_slice()) {
        Some(v) => v.as_bool(),
        None => None,
    };
    let time = match json.find_path(time_path.as_slice()) {
        Some(v) => v.as_i64(),
        None => None,
    };
    match (level, time) {
        (Some(l), Some(t)) => Ok(SensorBinary { level: l, level_updated: t }),
        _ => Err(RazberryError::BadResponse),
    }
}

impl SensorBinary {
    /// Decodes the sensor from its command class node, as
    /// [`sensor_binary_of`] says.
    pub fn initialize_from_json(json: &JsonValue) -> (r: Result<SensorBinary, RazberryError>)
        ensures
            r == sensor_binary_of(json@),
    {
        read_level(
            json,
            vec!["data", "1", "level", "value"],
            vec!["data", "1", "level", "updateTime"],
        )
    }

    /// The sensor's state.
    pub fn get_level(&self) -> (r: bool)
        ensures
            r == self.level,
    {
        self.level
    }

    /// When the sensor's state last changed.
    pub fn get_level_updated(&self) -> (r: Timestamp)
        ensures
            r == self.level_updated,
    {
        self.level_updated
    }

    /// Applies an update, as [`sensor_binary_after`] says; on an error the
    /// sensor is left as it was.
    pub fn process_update(&mut self, update: &DeviceUpdate) -> (r: Result<(), RazberryError>)
        ensures
            match sensor_binary_after(*old(self), update@) {
                Ok(s) => r == Ok::<(), RazberryError>(()) && *final(self) == s,
                Err(e) => r == Err::<(), RazberryError>(e) && *final(self) == *old(self),
            },
    {
        let data = "data".to_owned();
        if !(update.path.len() > 4 && update.path[4].eq(&data)) {
            return Ok(());
        }
        match read_level(&update.data, vec!["level", "value"], vec!["level", "updateTime"]) {
            Ok(s) => {
                *self = s;
                Ok(())
            },
            Err(e) => Err(e),
        }
    }
}

} // verus!
