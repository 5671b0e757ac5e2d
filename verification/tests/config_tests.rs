use walk_assistant::config::{
    check_open, parse_baud, port_listed, resolve_baud, same_chars, ConfigError, DataBits, Parity,
    StopBits, BAUD_PRESETS, CUSTOM_BAUD, DEFAULT_BAUD,
};

fn names(list: &[&str]) -> Vec<String> {
    list.iter().map(|s| s.to_string()).collect()
}

#[test]
fn presets_and_defaults() {
    assert_eq!(BAUD_PRESETS, [9600, 19200, 38400, 57600, 115200]);
    assert_eq!(DEFAULT_BAUD, 115200);
    assert_eq!(CUSTOM_BAUD, 0);
}

#[test]
fn parse_baud_reads_decimal_numbers() {
    assert_eq!(parse_baud("256000"), Some(256000));
    assert_eq!(parse_baud("+9600"), Some(9600));
    assert_eq!(parse_baud("0"), Some(0));
    assert_eq!(parse_baud("00009600"), Some(9600));
    assert_eq!(parse_baud("4294967295"), Some(u32::MAX));
}

#[test]
fn parse_baud_rejects_everything_else() {
    assert_eq!(parse_baud(""), None);
    assert_eq!(parse_baud("+"), None);
    assert_eq!(parse_baud("-1"), None);
    assert_eq!(parse_baud("96 00"), None);
    assert_eq!(parse_baud(" 9600"), None);
    assert_eq!(parse_baud("9600 "), None);
    assert_eq!(parse_baud("9600a"), None);
    assert_eq!(parse_baud("1e5"), None);
    assert_eq!(parse_baud("4294967296"), None);
    assert_eq!(parse_baud("99999999999999999999999999"), None);
    assert_eq!(parse_baud("\u{FF11}\u{FF12}"), None);
}

#[test]
fn parse_baud_agrees_with_the_standard_parser() {
    for text in ["115200", "+1", "++1", "0x10", "042", "4294967295", "4294967296", "", "12.5"] {
        assert_eq!(parse_baud(text), text.parse::<u32>().ok());
    }
}

#[test]
fn resolve_baud_takes_presets_as_they_are() {
    assert_eq!(resolve_baud(115200, "junk"), Ok(115200));
    assert_eq!(resolve_baud(9600, ""), Ok(9600));
    assert_eq!(resolve_baud(1, "0"), Ok(1));
}

#[test]
fn resolve_baud_reads_the_custom_text() {
    assert_eq!(resolve_baud(CUSTOM_BAUD, "256000"), Ok(256000));
    assert_eq!(resolve_baud(CUSTOM_BAUD, "0"), Err(ConfigError::BaudZero));
    assert_eq!(resolve_baud(CUSTOM_BAUD, "000"), Err(ConfigError::BaudZero));
    assert_eq!(resolve_baud(CUSTOM_BAUD, "abc"), Err(ConfigError::BaudNotANumber));
    assert_eq!(resolve_baud(CUSTOM_BAUD, ""), Err(ConfigError::BaudNotANumber));
}

#[test]
fn port_listed_compares_whole_names() {
    let listed = names(&["COM1", "COM3", "/dev/ttyUSB0"]);
    assert!(port_listed(&listed, "COM3"));
    assert!(port_listed(&listed, "/dev/ttyUSB0"));
    assert!(!port_listed(&listed, "COM"));
    assert!(!port_listed(&listed, "COM30"));
    assert!(!port_listed(&listed, "com3"));
    assert!(!port_listed(&[], "COM3"));
    assert!(same_chars(&['a', 'b'], &['a', 'b']));
    assert!(!same_chars(&['a', 'b'], &['a', 'c']));
    assert!(!same_chars(&['a'], &['a', 'b']));
    assert!(same_chars(&[], &[]));
}

#[test]
fn check_open_reports_the_first_failed_check() {
    let listed = names(&["COM1", "COM3"]);
    assert_eq!(check_open("", 0, "junk", &[]), Err(ConfigError::NoPortSelected));
    assert_eq!(check_open("", 9600, "", &listed), Err(ConfigError::NoPortSelected));
    assert_eq!(check_open("COM9", 0, "junk", &listed), Err(ConfigError::BaudNotANumber));
    assert_eq!(check_open("COM3", 0, "0", &listed), Err(ConfigError::BaudZero));
    assert_eq!(check_open("COM9", 9600, "", &listed), Err(ConfigError::PortNotListed));
    assert_eq!(check_open("COM3", 9600, "", &[]), Err(ConfigError::PortNotListed));
}

#[test]
fn check_open_settles_the_baud_rate() {
    let listed = names(&["COM1", "COM3"]);
    assert_eq!(check_open("COM3", 115200, "256000", &listed), Ok(115200));
    assert_eq!(check_open("COM1", 0, "256000", &listed), Ok(256000));
}

#[test]
fn data_and_stop_bits_convert_both_ways() {
    assert_eq!(DataBits::from_count(5), Some(DataBits::Five));
    assert_eq!(DataBits::from_count(6), Some(DataBits::Six));
    assert_eq!(DataBits::from_count(7), Some(DataBits::Seven));
    assert_eq!(DataBits::from_count(8), Some(DataBits::Eight));
    assert_eq!(DataBits::from_count(4), None);
    assert_eq!(DataBits::from_count(9), None);
    assert_eq!(DataBits::Five.count(), 5);
    assert_eq!(DataBits::Eight.count(), 8);
    assert_eq!(StopBits::from_count(1), Some(StopBits::One));
    assert_eq!(StopBits::from_count(2), Some(StopBits::Two));
    assert_eq!(StopBits::from_count(0), None);
    assert_eq!(StopBits::from_count(3), None);
    assert_eq!(StopBits::Two.count(), 2);
    assert_ne!(Parity::Off, Parity::Even);
    assert_ne!(Parity::Even, Parity::Odd);
}
