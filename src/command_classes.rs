//! The Z-Wave command classes, by their one-byte identifiers.

use crate::path::{decimal, digits};
use vstd::prelude::*;

verus! {

/// A kind of device capability, identified by a fixed one-byte id.
#[derive(Debug, Clone, Copy, PartialEq, Eq, Structural, Hash)]
pub enum CommandClasses {
    Alarm,
    AlarmSensor,
    AlarmSilence,
    Association,
    Basic,
    Battery,
    Clock,
    Configuration,
    FirmwareUpdate,
    MultiChannel,
    MultiChannelAssociation,
    NoOperation,
    NodeNaming,
    PowerLevel,
    SensorBinary,
    SensorConfiguration,
    SensorMultilevel,
    SwitchBinary,
    SwitchMultilevel,
    Version,
    Wakeup,
}

/// The command class with id `id`, if the table has one.
pub open spec fn class_of_byte(id: u8) -> Option<CommandClasses> {
    match id {
        0x00 => Some(CommandClasses::NoOperation),
        0x20 => Some(CommandClasses::Basic),
        0x25 => Some(CommandClasses::SwitchBinary),
        0x26 => Some(CommandClasses::SwitchMultilevel),
        0x30 => Some(CommandClasses::SensorBinary),
        0x31 => Some(CommandClasses::SensorMultilevel),
        0x60 => Some(CommandClasses::MultiChannel),
        0x70 => Some(CommandClasses::Configuration),
        0x71 => Some(CommandClasses::Alarm),
        0x73 => Some(CommandClasses::PowerLevel),
        0x77 => Some(CommandClasses::NodeNaming),
        0x7A => Some(CommandClasses::FirmwareUpdate),
        0x80 => Some(CommandClasses::Battery),
        0x81 => Some(CommandClasses::Clock),
        0x84 => Some(CommandClasses::Wakeup),
        0x85 => Some(CommandClasses::Association),
        0x86 => Some(CommandClasses::Version),
        0x8E => Some(CommandClasses::MultiChannelAssociation),
        0x9C => Some(CommandClasses::AlarmSensor),
        0x9D => Some(CommandClasses::AlarmSilence),
        0x9E => Some(CommandClasses::SensorConfiguration),
        _ => None,
    }
}

/// The id of command class `c`.
pub open spec fn class_byte(c: CommandClasses) -> u8 {
    match c {
        CommandClasses::NoOperation => 0x00,
        CommandClasses::Basic => 0x20,
        CommandClasses::SwitchBinary => 0x25,
        CommandClasses::SwitchMultilevel => 0x26,
        CommandClasses::SensorBinary => 0x30,
        CommandClasses::SensorMultilevel => 0x31,
        CommandClasses::MultiChannel => 0x60,
        CommandClasses::Configuration => 0x70,
        CommandClasses::Alarm => 0x71,
        CommandClasses::PowerLevel => 0x73,
        CommandClasses::NodeNaming => 0x77,
        CommandClasses::FirmwareUpdate => 0x7A,
        CommandClasses::Battery => 0x80,
        CommandClasses::Clock => 0x81,
        CommandClasses::Wakeup => 0x84,
        CommandClasses::Association => 0x85,
        CommandClasses::Version => 0x86,
        CommandClasses::MultiChannelAssociation => 0x8E,
        CommandClasses::AlarmSensor => 0x9C,
        CommandClasses::AlarmSilence => 0x9D,
        CommandClasses::SensorConfiguration => 0x9E,
    }
}

/// Every command class is the one its id names.
pub proof fn lemma_class_byte_round_trip(c: CommandClasses)
    ensures
        class_of_byte(class_byte(c)) == Some(c),
{
}

/// Whether `c` is an ASCII decimal digit.
pub open spec fn is_digit(c: char) -> bool {
    '0' <= c <= '9'
}

/// The value of a string of decimal digits.
pub open spec fn digits_value(s: Seq<char>) -> int
    decreases s.len(),
{
    if s.len() == 0 {
        0
    } else {
        digits_value(s.drop_last()) * 10 + (s.last() as int - '0' as int)
    }
}

/// The digits of a numeral: all of `s` but a leading `+`.
pub open spec fn numeral_digits(s: Seq<char>) -> Seq<char> {
    if s.len() > 0 && s[0] == '+' {
        s.drop_first()
    } else {
        s
    }
}

/// A `u8` written in decimal: an optional `+`, then one or more digits
/// (leading zeros allowed) whose value is at most 255.
pub open spec fn parse_u8(s: Seq<char>) -> Option<u8> {
    let d = numeral_digits(s);
    if d.len() > 0 && (forall|i: int| 0 <= i < d.len() ==> is_digit(#[trigger] d[i])) && digits_value(d)
        <= 255 {
        Some(digits_value(d) as u8)
    } else {
        None
    }
}

/// The command class whose id is written in decimal in `s`.
pub open spec fn class_of_str(s: Seq<char>) -> Option<CommandClasses> {
    match parse_u8(s) {
        Some(id) => class_of_byte(id),
        None => None,
    }
}

/// The name of a command class.
pub open spec fn class_name(c: CommandClasses) -> &'static str {
    match c {
        CommandClasses::Alarm => "Alarm",
        CommandClasses::AlarmSensor => "AlarmSensor",
        CommandClasses::AlarmSilence => "AlarmSilence",
        CommandClasses::Association => "Association",
        CommandClasses::Basic => "Basic",
        CommandClasses::Battery => "Battery",
        CommandClasses::Clock => "Clock",
        CommandClasses::Configuration => "Configuration",
        CommandClasses::FirmwareUpdate => "FirmwareUpdate",
        CommandClasses::MultiChannel => "MultiChannel",
        CommandClasses::MultiChannelAssociation => "MultiChannelAssociation",
        CommandClasses::NoOperation => "NoOperation",
        CommandClasses::NodeNaming => "NodeNaming",
        CommandClasses::PowerLevel => "PowerLevel",
        CommandClasses::SensorBinary => "SensorBinary",
        CommandClasses::SensorConfiguration => "SensorConfiguration",
        CommandClasses::SensorMultilevel => "SensorMultilevel",
        CommandClasses::SwitchBinary => "SwitchBinary",
        CommandClasses::SwitchMultilevel => "SwitchMultilevel",
        CommandClasses::Version => "Version",
        CommandClasses::Wakeup => "Wakeup",
    }
}

/// Reads a `u8` written in decimal, as [`parse_u8`] says.
pub fn parse_u8_decimal(s: &str) -> (r: Option<u8>)
    ensures
        r == parse_u8(s@),
{
    let n = s.unicode_len();
    let mut start: usize = 0;
    if n > 0 && s.get_char(0) == '+' {
        start = 1;
    }
    let ghost d = numeral_digits(s@);
    assert(d =~= s@.subrange(start as int, n as int));
    if start == n {
        return None;
    }
    let mut value: u32 = 0;
    let mut i: usize = start;
    while i < n
        invariant
            n == s@.len(),
            start <= i <= n,
            start < n,
            d == s@.subrange(start as int, n as int),
            d == numeral_digits(s@),
            forall|j: int| start <= j < i ==> is_digit(#[trigger] s@[j]),
            value == if digits_value(s@.subrange(start as int, i as int)) < 256 {
                digits_value(s@.subrange(start as int, i as int))
            } else {
                256
            },
            digits_value(s@.subrange(start as int, i as int)) >= 0,
        decreases n - i,
    {
        let c = s.get_char(i);
        if !('0' <= c && c <= '9') {
            assert(!is_digit(d[i - start]));
            assert(!(forall|j: int| 0 <= j < d.len() ==> is_digit(#[trigger] d[j])));
            return None;
        }
        let ghost before = digits_value(s@.subrange(start as int, i as int));
        assert(s@.subrange(start as int, i as int + 1).drop_last() =~= s@.subrange(
            start as int,
            i as int,
        ));
        let digit: u32 = (c as u32) - ('0' as u32);
        let next: u32 = value * 10 + digit;
        value = if next < 256 {
            next
        } else {
            256
        };
        assert(before >= 256 ==> before * 10 + digit >= 256) by (nonlinear_arith)
            requires
                before >= 0,
                digit >= 0,
        ;
        i = i + 1;
    }
    assert(s@.subrange(start as int, n as int) =~= d);
    if value < 256 {
        Some(value as u8)
    } else {
        None
    }
}

/// Each decimal digit is a digit, of its own value.
proof fn lemma_digit_values(k: int)
    requires
        0 <= k < 10,
    ensures
        is_digit(digits()[k]),
        digits()[k] as int - '0' as int == k,
{
    assert(digits()[0] == '0');
    assert(digits()[1] == '1');
    assert(digits()[2] == '2');
    assert(digits()[3] == '3');
    assert(digits()[4] == '4');
    assert(digits()[5] == '5');
    assert(digits()[6] == '6');
    assert(digits()[7] == '7');
    assert(digits()[8] == '8');
    assert(digits()[9] == '9');
}

/// The numeral of `n` is digits only, and its value is `n`.
proof fn lemma_decimal_value(n: nat)
    ensures
        decimal(n).len() >= 1,
        forall|i: int| 0 <= i < decimal(n).len() ==> is_digit(#[trigger] decimal(n)[i]),
        digits_value(decimal(n)) == n,
    decreases n,
{
    if n < 10 {
        lemma_digit_values(n as int);
        assert(decimal(n).drop_last() =~= Seq::<char>::empty());
        assert(decimal(n).last() == digits()[n as int]);
        assert(digits_value(decimal(n).drop_last()) == 0);
        assert(digits_value(decimal(n)) == digits_value(decimal(n).drop_last()) * 10 + (
        decimal(n).last() as int - '0' as int));
    } else {
        lemma_decimal_value(n / 10);
        lemma_digit_values((n % 10) as int);
        assert(decimal(n).drop_last() =~= decimal(n / 10));
        assert(decimal(n).last() == digits()[(n % 10) as int]);
        assert(digits_value(decimal(n)) == digits_value(decimal(n / 10)) * 10 + (n % 10) as int);
        assert((n / 10) * 10 + n % 10 == n) by (nonlinear_arith);
    }
}

/// The plain decimal numeral of a class's id names that class.
pub proof fn lemma_plain_key_names_class(c: CommandClasses)
    ensures
        class_of_str(decimal(class_byte(c) as nat)) == Some(c),
{
    let d = decimal(class_byte(c) as nat);
    lemma_decimal_value(class_byte(c) as nat);
    assert(is_digit(d[0]));
    assert(numeral_digits(d) == d);
}

impl CommandClasses {
    /// The command class with id `command_class_id`, if the table has one.
    pub fn from_byte(command_class_id: u8) -> (r: Option<CommandClasses>)
        ensures
            r == class_of_byte(command_class_id),
    {
        let command_class = match command_class_id {
            0x00 => CommandClasses::NoOperation,
            0x20 => CommandClasses::Basic,
            0x25 => CommandClasses::SwitchBinary,
            0x26 => CommandClasses::SwitchMultilevel,
            0x30 => CommandClasses::SensorBinary,
            0x31 => CommandClasses::SensorMultilevel,
            0x60 => CommandClasses::MultiChannel,
            0x70 => CommandClasses::Configuration,
            0x71 => CommandClasses::Alarm,
            0x73 => CommandClasses::PowerLevel,
            0x77 => CommandClasses::NodeNaming,
            0x7A => CommandClasses::FirmwareUpdate,
            0x80 => CommandClasses::Battery,
            0x81 => CommandClasses::Clock,
            0x84 => CommandClasses::Wakeup,
            0x85 => CommandClasses::Association,
            0x86 => CommandClasses::Version,
            0x8E => CommandClasses::MultiChannelAssociation,
            0x9C => CommandClasses::AlarmSensor,
            0x9D => CommandClasses::AlarmSilence,
            0x9E => CommandClasses::SensorConfiguration,
            _ => {
                return None;
            },
        };
        Some(command_class)
    }

    /// The id of this command class.
    pub fn id(&self) -> (r: u8)
        ensures
            r == class_byte(*self),
    {
        match self {
            CommandClasses::NoOperation => 0x00,
            CommandClasses::Basic => 0x20,
            CommandClasses::SwitchBinary => 0x25,
            CommandClasses::SwitchMultilevel => 0x26,
            CommandClasses::SensorBinary => 0x30,
            CommandClasses::SensorMultilevel => 0x31,
            CommandClasses::MultiChannel => 0x60,
            CommandClasses::Configuration => 0x70,
            CommandClasses::Alarm => 0x71,
            CommandClasses::PowerLevel => 0x73,
            CommandClasses::NodeNaming => 0x77,
            CommandClasses::FirmwareUpdate => 0x7A,
            CommandClasses::Battery => 0x80,
            CommandClasses::Clock => 0x81,
            CommandClasses::Wakeup => 0x84,
            CommandClasses::Association => 0x85,
            CommandClasses::Version => 0x86,
            CommandClasses::MultiChannelAssociation => 0x8E,
            CommandClasses::AlarmSensor => 0x9C,
            CommandClasses::AlarmSilence => 0x9D,
            CommandClasses::SensorConfiguration => 0x9E,
        }
    }

    /// The command class whose id is written in decimal in `command_class_id`.
    pub fn from_str(command_class_id: &str) -> (r: Option<CommandClasses>)
        ensures
            r == class_of_str(command_class_id@),
    {
        match parse_u8_decimal(command_class_id) {
            Some(id) => Self::from_byte(id),
            None => None,
        }
    }

    /// The name of this command class.
    pub fn name(&self) -> (r: &'static str)
        ensures
            r == class_name(*self),
    {
        match self {
            CommandClasses::Alarm => "Alarm",
            CommandClasses::AlarmSensor => "AlarmSensor",
            CommandClasses::AlarmSilence => "AlarmSilence",
            CommandClasses::Association => "Association",
            CommandClasses::Basic => "Basic",
            CommandClasses::Battery => "Battery",
            CommandClasses::Clock => "Clock",
            CommandClasses::Configuration => "Configuration",
            CommandClasses::FirmwareUpdate => "FirmwareUpdate",
            CommandClasses::MultiChannel => "MultiChannel",
            CommandClasses::MultiChannelAssociation => "MultiChannelAssociation",
            CommandClasses::NoOperation => "NoOperation",
            CommandClasses::NodeNaming => "NodeNaming",
            CommandClasses::PowerLevel => "PowerLevel",
            CommandClasses::SensorBinary => "SensorBinary",
            CommandClasses::SensorConfiguration => "SensorConfiguration",
            CommandClasses::SensorMultilevel => "SensorMultilevel",
            CommandClasses::SwitchBinary => "SwitchBinary",
            CommandClasses::SwitchMultilevel => "SwitchMultilevel",
            CommandClasses::Version => "Version",
            CommandClasses::Wakeup => "Wakeup",
        }
    }

    /// The text `<CommandClasses::Name>`.
    pub fn to_string(&self) -> (r: String)
        ensures
            r@ == "<CommandClasses::"@ + class_name(*self)@ + ">"@,
    {
        let s = "<CommandClasses::".to_owned();
        let s = s.concat(self.name());
        s.concat(">")
    }
}

} // verus!
