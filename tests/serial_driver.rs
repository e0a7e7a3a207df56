use bytes::BytesMut;
use lss_driver::{
    receive_result, CommandModifier, Delivery, LssCodec, LssCommand, LssDriverError,
    LssResponse, ParseFailure,
};

#[test]
fn framing_returns_none() {
    let mut payload = BytesMut::from("*5QV11200");
    let mut codec = LssCodec {};
    let res = codec.decode(&mut payload).unwrap();
    assert_eq!(res, None);
}

#[test]
fn framing_returns_twice() {
    let mut payload = BytesMut::from("*1QV1\r*2QV2\r");
    let mut codec = LssCodec {};
    let res = codec.decode(&mut payload).unwrap().unwrap();
    let (id, val) = res.separate("QV").unwrap();
    assert_eq!(id, 1);
    assert_eq!(val, 1);
    let res = codec.decode(&mut payload).unwrap().unwrap();
    let (id, val) = res.separate("QV").unwrap();
    assert_eq!(id, 2);
    assert_eq!(val, 2);
    let res = codec.decode(&mut payload).unwrap();
    assert_eq!(res, None);
}

#[test]
fn query_voltage_gets_extracted_from_frame() {
    let mut payload = BytesMut::from("*5QV11200\r");
    let mut codec = LssCodec {};
    let res = codec.decode(&mut payload).unwrap().unwrap();
    let (id, val) = res.separate("QV").unwrap();
    assert_eq!(id, 5);
    assert_eq!(val, 11200);
}

#[test]
fn framing_encodes_single_command() {
    let mut payload = BytesMut::default();
    let mut codec = LssCodec {};
    let command = LssCommand::simple(5, "QV");
    codec.encode(command, &mut payload).unwrap();
    assert_eq!(&payload[..], b"#5QV\r");
}

#[test]
fn framing_encodes_multiple_commands() {
    let mut payload = BytesMut::default();
    let mut codec = LssCodec {};
    let command_1 = LssCommand::simple(5, "QV");
    let command_2 = LssCommand::simple(5, "QT");
    codec.encode(command_1, &mut payload).unwrap();
    codec.encode(command_2, &mut payload).unwrap();
    assert_eq!(&payload[..], b"#5QV\r#5QT\r");
}

#[test]
fn simple_command_serializes() {
    let command = LssCommand::simple(1, "QV");
    assert_eq!(command.as_bytes(), b"#1QV\r")
}

#[test]
fn param_command_serializes() {
    let command = LssCommand::with_param(1, "D", 10);
    assert_eq!(command.as_bytes(), b"#1D10\r")
}

#[test]
fn response_splits() {
    let res = LssResponse::new("*5QF42\r".to_owned());
    let (id, val) = res.separate("QF").unwrap();
    assert_eq!(id, 5);
    assert_eq!(val, 42);
}

#[test]
fn response_splits_string() {
    let res = LssResponse::new("*5QFHEH\r".to_owned());
    let (id, val) = res.separate_string("QF").unwrap();
    assert_eq!(id, 5);
    assert_eq!(val, "HEH");
}

#[test]
fn response_fail_missing_val() {
    let res = LssResponse::new("*5QF\r".to_owned());
    let err = res.separate("QF");
    assert!(err.is_err());
}

#[test]
fn response_fail_missing_id() {
    let res = LssResponse::new("*QF1\r".to_owned());
    let err = res.separate("QF");
    assert!(err.is_err());
}

#[test]
fn response_fail_wrong_key_split() {
    let res = LssResponse::new("*1QF2\r".to_owned());
    let err = res.separate("ZA");
    assert!(err.is_err());
}

#[test]
fn response_val_only() {
    let res = LssResponse::new("*QID5\r".to_owned());
    let val = res.get_val("QID").unwrap();
    assert_eq!(val, 5);
}

fn reason_of<T: std::fmt::Debug>(r: Result<T, LssDriverError>) -> ParseFailure {
    match r {
        Err(LssDriverError::PayloadParseError(e)) => e.reason,
        other => panic!("expected a parse failure, got {:?}", other),
    }
}

#[test]
fn command_renders_parameter() {
    assert_eq!(LssCommand::with_param(1, "D", 20 * 10).as_str(), "#1D200\r");
    assert_eq!(LssCommand::with_param(5, "CO", -13).as_str(), "#5CO-13\r");
    assert_eq!(LssCommand::with_param(5, "EM", 0).as_str(), "#5EM0\r");
    assert_eq!(LssCommand::with_param(254, "D", i32::MIN).as_str(), "#254D-2147483648\r");
    assert_eq!(LssCommand::with_param(0, "D", i32::MAX).as_str(), "#0D2147483647\r");
    assert_eq!(LssCommand::simple(254, "RESET").as_str(), "#254RESET\r");
}

#[test]
fn command_renders_modifiers_in_order() {
    let one = LssCommand::with_param_modifier(5, "P", 2334, CommandModifier::Speed(750));
    assert_eq!(one.as_str(), "#5P2334S750\r");
    let two = LssCommand::with_param_modifiers(
        1,
        "D",
        200,
        &[CommandModifier::Timed(15000), CommandModifier::CurrentLimp(400)],
    );
    assert_eq!(two.as_str(), "#1D200T15000CL400\r");
    let swapped = LssCommand::with_param_modifiers(
        5,
        "P",
        2334,
        &[CommandModifier::Speed(750), CommandModifier::Timed(2500)],
    );
    assert_eq!(swapped.as_str(), "#5P2334S750T2500\r");
    let rest = LssCommand::with_param_modifiers(
        2,
        "D",
        -5,
        &[CommandModifier::SpeedDegrees(90), CommandModifier::CurrentHold(0)],
    );
    assert_eq!(rest.as_str(), "#2D-5SD90CH0\r");
    let none = LssCommand::with_param_modifiers(2, "D", 7, &[]);
    assert_eq!(none.as_str(), "#2D7\r");
}

#[test]
fn response_separates_position() {
    let res = LssResponse::new("*5QD132\r".to_owned());
    assert_eq!(res.separate("QD").unwrap(), (5, 132));
    let res = LssResponse::new("*5QO-13\r".to_owned());
    assert_eq!(res.separate("QO").unwrap(), (5, -13));
    let res = LssResponse::new("*254QD+7\r".to_owned());
    assert_eq!(res.separate("QD").unwrap(), (254, 7));
}

#[test]
fn response_value_only_ignores_address() {
    let res = LssResponse::new("*QID5\r".to_owned());
    assert_eq!(res.get_val("QID").unwrap(), 5);
    let res = LssResponse::new("*3QID17\r".to_owned());
    assert_eq!(res.get_val("QID").unwrap(), 17);
    let res = LssResponse::new("*QQQ\r".to_owned());
    assert_eq!(reason_of(res.get_val("QQ")), ParseFailure::InvalidValue);
    let res = LssResponse::new("*1Q2Q3\r".to_owned());
    assert_eq!(res.get_val("Q").unwrap(), 3);
}

#[test]
fn response_failures_name_the_reason() {
    let missing = LssResponse::new("*5QF\r".to_owned());
    assert_eq!(reason_of(missing.separate("QF")), ParseFailure::InvalidValue);
    let no_address = LssResponse::new("*QF1\r".to_owned());
    assert_eq!(reason_of(no_address.separate("QF")), ParseFailure::InvalidAddress);
    let wrong_key = LssResponse::new("*1QF2\r".to_owned());
    assert_eq!(reason_of(wrong_key.separate("ZA")), ParseFailure::InvalidAddress);
    let address_only = LssResponse::new("*12\r".to_owned());
    assert_eq!(reason_of(address_only.separate("ZA")), ParseFailure::MissingValue);
    let big_address = LssResponse::new("*256QD1\r".to_owned());
    assert_eq!(reason_of(big_address.separate("QD")), ParseFailure::InvalidAddress);
    let top_address = LssResponse::new("*255QD1\r".to_owned());
    assert_eq!(top_address.separate("QD").unwrap(), (255, 1));
    let big_value = LssResponse::new("*1QD2147483648\r".to_owned());
    assert_eq!(reason_of(big_value.separate("QD")), ParseFailure::InvalidValue);
    let low_value = LssResponse::new("*1QD-2147483648\r".to_owned());
    assert_eq!(low_value.separate("QD").unwrap(), (1, i32::MIN));
    let empty_opcode = LssResponse::new("*1QD2\r".to_owned());
    assert_eq!(reason_of(empty_opcode.separate("")), ParseFailure::InvalidAddress);
    assert_eq!(reason_of(empty_opcode.get_val("")), ParseFailure::InvalidValue);
    let short = LssResponse::new("\r".to_owned());
    assert_eq!(reason_of(short.separate("QD")), ParseFailure::InvalidAddress);
}

#[test]
fn response_failure_keeps_opcode_and_text() {
    let res = LssResponse::new("*1QF2\r".to_owned());
    match res.separate("ZA") {
        Err(LssDriverError::PayloadParseError(e)) => {
            assert_eq!(e.opcode, "ZA");
            assert_eq!(e.raw, "*1QF2\r");
        }
        other => panic!("unexpected {:?}", other),
    }
}

#[test]
fn response_string_value_is_verbatim() {
    let res = LssResponse::new("*5QMSLSS-HS1\r".to_owned());
    assert_eq!(res.separate_string("QMS").unwrap(), (5, "LSS-HS1".to_owned()));
    let res = LssResponse::new("*5QN\u{e9}1\r".to_owned());
    assert_eq!(res.separate_string("QN").unwrap(), (5, "\u{e9}1".to_owned()));
    let res = LssResponse::new("*5QF1QF2\r".to_owned());
    assert_eq!(res.separate_string("QF").unwrap(), (5, "1".to_owned()));
    let res = LssResponse::new("*5QN\r".to_owned());
    assert_eq!(res.separate_string("QN").unwrap(), (5, String::new()));
    let res = LssResponse::new("*5\r".to_owned());
    assert_eq!(reason_of(res.separate_string("QN")), ParseFailure::MissingValue);
}

#[test]
fn codec_round_trip() {
    let mut codec = LssCodec {};
    let mut buffer = BytesMut::new();
    let command = LssCommand::with_param_modifiers(
        12,
        "D",
        -450,
        &[CommandModifier::Timed(900), CommandModifier::Speed(30)],
    );
    let text = command.as_str().to_owned();
    codec.encode(command, &mut buffer).unwrap();
    let res = codec.decode(&mut buffer).unwrap().unwrap();
    assert_eq!(res, LssResponse::new(text));
    assert!(buffer.is_empty());
}

#[test]
fn partial_frame_waits_for_delimiter() {
    let frame = b"*5QV11200\r";
    let mut codec = LssCodec {};
    for n in 0..frame.len() {
        let mut buffer = BytesMut::from(&frame[..n]);
        assert_eq!(codec.decode(&mut buffer).unwrap(), None);
        assert_eq!(&buffer[..], &frame[..n]);
        buffer.extend_from_slice(&frame[n..]);
        let res = codec.decode(&mut buffer).unwrap().unwrap();
        assert_eq!(res, LssResponse::new("*5QV11200\r".to_owned()));
        assert!(buffer.is_empty());
        assert_eq!(codec.decode(&mut buffer).unwrap(), None);
    }
}

#[test]
fn decode_keeps_the_next_frame_start() {
    let mut codec = LssCodec {};
    let mut buffer = BytesMut::from("*1QV1\r*2Q");
    let res = codec.decode(&mut buffer).unwrap().unwrap();
    assert_eq!(res.separate("QV").unwrap(), (1, 1));
    assert_eq!(&buffer[..], b"*2Q");
    let mut empty = BytesMut::new();
    assert_eq!(codec.decode(&mut empty).unwrap(), None);
}

#[test]
fn decode_rejects_bytes_that_are_not_text() {
    let mut codec = LssCodec {};
    let mut buffer = BytesMut::from(&b"*1\xffQV\r*2QV2\r"[..]);
    assert_eq!(reason_of(codec.decode(&mut buffer)), ParseFailure::InvalidText);
    let res = codec.decode(&mut buffer).unwrap().unwrap();
    assert_eq!(res.separate("QV").unwrap(), (2, 2));
}

#[test]
fn timeout_leaves_session_usable() {
    let mut codec = LssCodec {};
    let mut buffer = BytesMut::from("*5QV112");
    assert_eq!(codec.decode(&mut buffer).unwrap(), None);
    assert_eq!(receive_result(Delivery::TimedOut), Err(LssDriverError::ReceiveTimeout));
    assert_eq!(&buffer[..], b"*5QV112");
    buffer.extend_from_slice(b"00\r");
    let frame = codec.decode(&mut buffer).unwrap().unwrap();
    let res = receive_result(Delivery::Frame(Ok(frame))).unwrap();
    assert_eq!(res.separate("QV").unwrap(), (5, 11200));
}

#[test]
fn interrupted_receive_is_a_parse_failure() {
    assert_eq!(reason_of(receive_result(Delivery::Interrupted)), ParseFailure::NoFrame);
    let failed = receive_result(Delivery::Frame(Err(LssDriverError::SendFailed)));
    assert_eq!(failed, Err(LssDriverError::SendFailed));
}

#[test]
fn rendered_values_read_back() {
    for value in [0, 7, -1, 200, -450, 11200, i32::MAX, i32::MIN] {
        let command = LssCommand::with_param(9, "QV", value);
        let reply = command.as_str().replacen('#', "*", 1);
        let (id, read) = LssResponse::new(reply).separate("QV").unwrap();
        assert_eq!(id, 9);
        assert_eq!(read, value);
    }
}

#[test]
fn encode_appends_after_buffered_bytes() {
    let mut codec = LssCodec {};
    let mut buffer = BytesMut::from("#1H\r");
    let result = codec.encode(LssCommand::with_param(2, "LED", 1), &mut buffer);
    assert_eq!(result, Ok(()));
    assert_eq!(&buffer[..], b"#1H\r#2LED1\r");
}
