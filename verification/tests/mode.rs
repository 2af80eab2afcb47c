use moi::model::mode::Mode;

#[test]
fn test_parse_success() {
    let valid_modes = [
        ("111", 0o111),
        ("155", 0o155),
        ("777", 0o777),
        ("0146", 0o146),
        ("7777", 0o7777),
        ("1755", 0o1755),
        ("0000", 0o0000),
        ("000", 0o000),
    ];

    for (mode, expected) in valid_modes {
        assert_eq!(Mode::new(mode).unwrap().value(), expected);
    }
}

#[test]
fn test_parse_failure() {
    let invalid_modes = ["", "11", "11111", "811", "999", "7a7", "-777"];

    for mode in invalid_modes {
        assert!(Mode::new(mode).is_err());
    }
}

#[test]
fn test_display_uses_four_octal_digits() {
    assert_eq!(Mode::new("7").unwrap_err(), "invalid mode: 7");
    assert_eq!(Mode::new("007").unwrap().to_string(), "0007");
    assert_eq!(Mode::new("644").unwrap().to_string(), "0644");
    assert_eq!(Mode::new("1755").unwrap().to_string(), "1755");
}

#[test]
fn test_display_then_parse_gives_the_mode_back() {
    for text in ["000", "644", "0755", "7777", "1700"] {
        let mode = Mode::new(text).unwrap();
        assert_eq!(Mode::new(&mode.to_string()).unwrap(), mode);
    }
}
