//! Decoded command class instances of a device.

pub mod sensor_binary;

use crate::command_classes::CommandClasses;
use crate::device_update::{DeviceUpdate, UpdateModel};
use crate::error::RazberryError;
use crate::json::JsonValue;
use sensor_binary::{sensor_binary_after, sensor_binary_of, SensorBinary};
use vstd::prelude::*;

verus! {

/// A command class instance: one variant per command class that has a
/// decoder, and `Unsupported` for a known class without one.
#[derive(Debug, Clone, Copy, PartialEq, Eq, Structural)]
pub enum CommandClass {
    SensorBinary { inner: SensorBinary },
    Unsupported,
}

/// The instance decoded from a command class node of class `c`.
pub open spec fn class_instance_of(c: CommandClasses, m: crate::json::JsonModel) -> Result<
    CommandClass,
    RazberryError,
> {
    if c == CommandClasses::SensorBinary {
        match sensor_binary_of(m) {
            Ok(s) => Ok(CommandClass::SensorBinary { inner: s }),
            Err(e) => Err(e),
        }
    } else {
        Ok(CommandClass::Unsupported)
    }
}

/// The instance after an update.
pub open spec fn class_after(c: CommandClass, u: UpdateModel) -> Result<CommandClass, RazberryError> {
    match c {
        CommandClass::SensorBinary { inner } => match sensor_binary_after(inner, u) {
            Ok(s) => Ok(CommandClass::SensorBinary { inner: s }),
            Err(e) => Err(e),
        },
        CommandClass::Unsupported => Ok(c),
    }
}

impl CommandClass {
    /// Decodes an instance of class `command_class` from its node, as
    /// [`class_instance_of`] says.
    pub fn initialize_from_json(command_class: CommandClasses, json: &JsonValue) -> (r: Result<
        CommandClass,
        RazberryError,
    >)
        ensures
            r == class_instance_of(command_class, json@),
    {
        match command_class {
            CommandClasses::SensorBinary => match SensorBinary::initialize_from_json(json) {
                Ok(sensor) => Ok(CommandClass::SensorBinary { inner: sensor }),
                Err(e) => Err(e),
            },
            _ => Ok(CommandClass::Unsupported),
        }
    }

    /// Applies an update, as [`class_after`] says; on an error the instance
    /// is left as it was.
    pub fn process_update(&mut self, update: &DeviceUpdate) -> (r: Result<(), RazberryError>)
        ensures
            match class_after(*old(self), update@) {
                Ok(c) => r == Ok::<(), RazberryError>(()) && *final(self) == c,
                Err(e) => r == Err::<(), RazberryError>(e) && *final(self) == *old(self),
            },
    {
        match self {
            CommandClass::SensorBinary { inner } => inner.process_update(update),
            CommandClass::Unsupported => Ok(()),
        }
    }
}

} // verus!
