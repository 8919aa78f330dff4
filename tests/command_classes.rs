use razberry::CommandClasses;

#[test]
fn from_byte_table() {
    assert_eq!(CommandClasses::from_byte(0x00), Some(CommandClasses::NoOperation));
    assert_eq!(CommandClasses::from_byte(0x30), Some(CommandClasses::SensorBinary));
    assert_eq!(CommandClasses::from_byte(0x7A), Some(CommandClasses::FirmwareUpdate));
    assert_eq!(CommandClasses::from_byte(0x8E), Some(CommandClasses::MultiChannelAssociation));
    assert_eq!(CommandClasses::from_byte(0x9E), Some(CommandClasses::SensorConfiguration));
    assert_eq!(CommandClasses::from_byte(0x01), None);
    assert_eq!(CommandClasses::from_byte(0xFF), None);
}

#[test]
fn from_str_parses_decimal() {
    assert_eq!(CommandClasses::from_str("48"), Some(CommandClasses::SensorBinary));
    assert_eq!(CommandClasses::from_str("+113"), Some(CommandClasses::Alarm));
    assert_eq!(CommandClasses::from_str("0"), Some(CommandClasses::NoOperation));
    assert_eq!(CommandClasses::from_str("048"), Some(CommandClasses::SensorBinary));
    assert_eq!(CommandClasses::from_str("255"), None);
    assert_eq!(CommandClasses::from_str("256"), None);
    assert_eq!(CommandClasses::from_str("4800"), None);
    assert_eq!(CommandClasses::from_str("-48"), None);
    assert_eq!(CommandClasses::from_str("+"), None);
    assert_eq!(CommandClasses::from_str(""), None);
    assert_eq!(CommandClasses::from_str("4a"), None);
}

#[test]
fn display_text() {
    assert_eq!(CommandClasses::Alarm.to_string(), "<CommandClasses::Alarm>");
    assert_eq!(CommandClasses::SwitchMultilevel.name(), "SwitchMultilevel");
}
