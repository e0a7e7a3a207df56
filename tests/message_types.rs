use lss_driver::{
    CodeKind, LedBlinking, LedColor, LssDriverError, Model, MotorStatus, SafeModeStatus,
};

#[test]
fn model_parses_other() {
    let model = Model::from_str("something");
    assert_eq!(model, Model::Other("something".to_owned()));
}

#[test]
fn color_parse_fails() {
    let color = LedColor::from_i32(42);
    assert!(color.is_err());
}

#[test]
fn colors_parse() {
    let params = vec![
        (LedColor::Off, 0),
        (LedColor::Red, 1),
        (LedColor::Green, 2),
        (LedColor::Blue, 3),
        (LedColor::Yellow, 4),
        (LedColor::Cyan, 5),
        (LedColor::Magenta, 6),
        (LedColor::White, 7),
    ];
    for (expected_color, int) in params {
        let color = LedColor::from_i32(int).unwrap();
        assert_eq!(expected_color, color);
    }
}

#[test]
fn motor_status_parse_fails() {
    let status = MotorStatus::from_i32(42);
    assert!(status.is_err());
}

#[test]
fn motor_status_parse() {
    let params = vec![
        (MotorStatus::Unknown, 0),
        (MotorStatus::Limp, 1),
        (MotorStatus::FreeMoving, 2),
        (MotorStatus::Accelerating, 3),
        (MotorStatus::Traveling, 4),
        (MotorStatus::Decelerating, 5),
        (MotorStatus::Holding, 6),
        (MotorStatus::OutsideLimits, 7),
        (MotorStatus::Stuck, 8),
        (MotorStatus::Blocked, 9),
        (MotorStatus::SafeMode, 10),
    ];
    for (expected_status, int) in params {
        let status = MotorStatus::from_i32(int).unwrap();
        assert_eq!(expected_status, status);
    }
}

#[test]
fn motor_status_ten_is_safe_mode_and_forty_two_is_refused() {
    assert_eq!(MotorStatus::from_i32(10), Ok(MotorStatus::SafeMode));
    assert_eq!(
        MotorStatus::from_i32(42),
        Err(LssDriverError::UnrecognizedEnumValue { kind: CodeKind::MotorStatus, value: 42 })
    );
    assert_eq!(
        MotorStatus::from_i32(-1),
        Err(LssDriverError::UnrecognizedEnumValue { kind: CodeKind::MotorStatus, value: -1 })
    );
}

#[test]
fn color_out_of_range_names_the_value() {
    assert_eq!(
        LedColor::from_i32(8),
        Err(LssDriverError::UnrecognizedEnumValue { kind: CodeKind::LedColor, value: 8 })
    );
}

#[test]
fn safety_status_parse() {
    assert_eq!(SafeModeStatus::from_i32(0), Ok(SafeModeStatus::NoLimits));
    assert_eq!(SafeModeStatus::from_i32(1), Ok(SafeModeStatus::CurrentLimit));
    assert_eq!(SafeModeStatus::from_i32(2), Ok(SafeModeStatus::InputVoltageOutOfRange));
    assert_eq!(SafeModeStatus::from_i32(3), Ok(SafeModeStatus::TemperatureLimit));
    assert_eq!(
        SafeModeStatus::from_i32(4),
        Err(LssDriverError::UnrecognizedEnumValue { kind: CodeKind::SafeModeStatus, value: 4 })
    );
}

#[test]
fn color_codes_round_trip() {
    for code in 0..8 {
        assert_eq!(LedColor::from_i32(code).unwrap().to_i32(), code);
    }
    assert_eq!(LedColor::Cyan.to_i32(), 5);
}

#[test]
fn model_parses_known_names() {
    assert_eq!(Model::from_str("LSS-ST1"), Model::ST1);
    assert_eq!(Model::from_str("LSS-HS1"), Model::HS1);
    assert_eq!(Model::from_str("LSS-HT1"), Model::HT1);
    assert_eq!(Model::from_str("LSS-HT2"), Model::Other("LSS-HT2".to_owned()));
    assert_eq!(Model::from_str(""), Model::Other(String::new()));
}

#[test]
fn blinking_flags_are_summed() {
    let modes = [LedBlinking::Accelerating, LedBlinking::Decelerating];
    assert_eq!(LedBlinking::combined(&modes), 12);
    assert_eq!(LedBlinking::combined(&[LedBlinking::Free, LedBlinking::Travelling]), 48);
    assert_eq!(LedBlinking::combined(&[LedBlinking::NoBlinking]), 0);
    assert_eq!(LedBlinking::combined(&[LedBlinking::Limp]), 1);
    assert_eq!(LedBlinking::combined(&[LedBlinking::Holding]), 2);
    assert_eq!(LedBlinking::combined(&[]), 0);
}

#[test]
fn blinking_flags_are_clamped() {
    assert_eq!(LedBlinking::combined(&[LedBlinking::AlwaysBlink]), 63);
    let overlapping = [LedBlinking::AlwaysBlink, LedBlinking::Travelling, LedBlinking::Limp];
    assert_eq!(LedBlinking::combined(&overlapping), 63);
    let repeated = [LedBlinking::Travelling, LedBlinking::Travelling];
    assert_eq!(LedBlinking::combined(&repeated), 63);
    let many = vec![LedBlinking::AlwaysBlink; 1000];
    assert_eq!(LedBlinking::combined(&many), 63);
}
