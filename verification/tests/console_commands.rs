use dc34_badge::commands::{parse_u8_or, Led, LedCommand, Port, Screen, ScreenCommand};

#[test]
fn parse_u8_reads_like_from_str() {
    assert_eq!(parse_u8_or("0", 9), 0);
    assert_eq!(parse_u8_or("255", 9), 255);
    assert_eq!(parse_u8_or("+7", 0), 7);
    assert_eq!(parse_u8_or("007", 0), 7);
    assert_eq!(parse_u8_or("256", 9), 9);
    assert_eq!(parse_u8_or("", 9), 9);
    assert_eq!(parse_u8_or("+", 9), 9);
    assert_eq!(parse_u8_or("-1", 9), 9);
    assert_eq!(parse_u8_or("1a", 9), 9);
    assert_eq!(parse_u8_or("99999999999", 9), 9);
}

#[test]
fn led_drive_with_colour() {
    assert_eq!(
        LedCommand::parse("pb 3 1 2 3"),
        LedCommand::Drive { port: Port::PB, pin: 3, r: 1, g: 2, b: 3 }
    );
    assert_eq!(
        LedCommand::parse("  PC\t12   255 0 9 "),
        LedCommand::Drive { port: Port::PC, pin: 12, r: 255, g: 0, b: 9 }
    );
}

#[test]
fn led_missing_or_bad_numbers_are_zero() {
    assert_eq!(
        LedCommand::parse("PC 300"),
        LedCommand::Drive { port: Port::PC, pin: 0, r: 0, g: 0, b: 0 }
    );
    assert_eq!(
        LedCommand::parse("pb"),
        LedCommand::Drive { port: Port::PB, pin: 0, r: 0, g: 0, b: 0 }
    );
}

#[test]
fn led_scan_and_help() {
    assert_eq!(LedCommand::parse("scan"), LedCommand::Scan);
    assert_eq!(LedCommand::parse("scan 1 2"), LedCommand::Scan);
    assert_eq!(LedCommand::parse("x"), LedCommand::Help);
    assert_eq!(LedCommand::parse("Pb 1"), LedCommand::Help);
    assert_eq!(LedCommand::parse(""), LedCommand::Help);
    assert_eq!(LedCommand::parse("   "), LedCommand::Help);
}

#[test]
fn led_from_words_matches_parse() {
    let ws = vec!["pc", "4", "10", "20", "30"];
    assert_eq!(
        LedCommand::from_words(&ws),
        LedCommand::Drive { port: Port::PC, pin: 4, r: 10, g: 20, b: 30 }
    );
    let empty: Vec<&str> = Vec::new();
    assert_eq!(LedCommand::from_words(&empty), LedCommand::Help);
}

#[test]
fn screen_commands() {
    assert_eq!(ScreenCommand::parse("invaders"), ScreenCommand::Invaders);
    assert_eq!(ScreenCommand::parse("clear"), ScreenCommand::Clear);
    assert_eq!(ScreenCommand::parse("box"), ScreenCommand::Box);
    assert_eq!(ScreenCommand::parse("on"), ScreenCommand::On);
    assert_eq!(ScreenCommand::parse(" off "), ScreenCommand::Off);
    assert_eq!(ScreenCommand::parse(""), ScreenCommand::Help);
    assert_eq!(ScreenCommand::parse("dance"), ScreenCommand::Help);
    assert_eq!(ScreenCommand::parse("CLEAR"), ScreenCommand::Help);
}

#[test]
fn screen_bright_levels() {
    assert_eq!(ScreenCommand::parse("bright"), ScreenCommand::Bright(200));
    assert_eq!(ScreenCommand::parse("bright 50"), ScreenCommand::Bright(50));
    assert_eq!(ScreenCommand::parse("bright 999"), ScreenCommand::Bright(200));
    assert_eq!(ScreenCommand::from_words(&vec!["bright", "0"]), ScreenCommand::Bright(0));
}

#[test]
fn command_markers_exist() {
    let _l = Led {};
    let _s = Screen {};
}
