use insen_client::codec::{decode_reply, decode_telemetry, frame_command, get_request_command};
use insen_client::number::{parse_hex_u16, parse_i16, parse_u8};
use insen_client::{ControllerState, InsenError};

fn chars(s: &str) -> Vec<char> {
    s.chars().collect()
}

#[test]
fn decodes_the_documented_example() {
    let st = decode_telemetry(">>> INPUT|2|100,-200|0,0|255,0|0x41|3|87", 5).unwrap();
    assert_eq!(st.id, 2);
    assert_eq!((st.left_stick_x, st.left_stick_y), (100, -200));
    assert_eq!((st.right_stick_x, st.right_stick_y), (0, 0));
    assert_eq!((st.left_trigger, st.right_trigger), (255, 0));
    assert_eq!(st.buttons, 0x41);
    assert_eq!(st.dpad, 3);
    assert_eq!(st.battery, 87);
    assert_eq!(st.timestamp, 5);
}

#[test]
fn round_trip_keeps_extreme_values() {
    let st = ControllerState {
        id: 255,
        left_stick_x: -32768,
        left_stick_y: 32767,
        right_stick_x: -1,
        right_stick_y: 0,
        left_trigger: 0,
        right_trigger: 255,
        buttons: 0xFFFF,
        dpad: 0,
        battery: 100,
        timestamp: 9,
    };
    let text = format!(
        ">>> INPUT|{}|{},{}|{},{}|{},{}|0x{:X}|{}|{}",
        st.id,
        st.left_stick_x,
        st.left_stick_y,
        st.right_stick_x,
        st.right_stick_y,
        st.left_trigger,
        st.right_trigger,
        st.buttons,
        st.dpad,
        st.battery
    );
    assert_eq!(decode_telemetry(&text, 9), Ok(st));
}

#[test]
fn missing_prompt_is_a_parse_error() {
    assert_eq!(
        decode_telemetry("INPUT|2|100,-200|0,0|255,0|0x41|3|87", 0),
        Err(InsenError::ParseError)
    );
    assert_eq!(
        decode_telemetry(">>INPUT|2|100,-200|0,0|255,0|0x41|3|87", 0),
        Err(InsenError::ParseError)
    );
    assert_eq!(decode_telemetry("", 0), Err(InsenError::ParseError));
}

#[test]
fn too_few_fields_is_a_parse_error() {
    assert_eq!(
        decode_telemetry(">>> INPUT|2|100,-200|0,0|255,0|0x41|3", 0),
        Err(InsenError::ParseError)
    );
    assert_eq!(decode_telemetry(">>> INPUT", 0), Err(InsenError::ParseError));
}

#[test]
fn extra_fields_are_ignored() {
    let st = decode_telemetry(">>> INPUT|1|1,2|3,4|5,6|0x0|7|8|extra", 0).unwrap();
    assert_eq!(st.battery, 8);
}

#[test]
fn wrong_tag_is_a_parse_error() {
    assert_eq!(
        decode_telemetry(">>> OUTPUT|2|100,-200|0,0|255,0|0x41|3|87", 0),
        Err(InsenError::ParseError)
    );
}

#[test]
fn malformed_pairs_are_parse_errors() {
    assert_eq!(
        decode_telemetry(">>> INPUT|2|100|0,0|255,0|0x41|3|87", 0),
        Err(InsenError::ParseError)
    );
    assert_eq!(
        decode_telemetry(">>> INPUT|2|100,-200,5|0,0|255,0|0x41|3|87", 0),
        Err(InsenError::ParseError)
    );
    assert_eq!(
        decode_telemetry(">>> INPUT|2|100,-200|0,0|255|0x41|3|87", 0),
        Err(InsenError::ParseError)
    );
}

#[test]
fn out_of_range_numbers_are_parse_errors() {
    assert_eq!(
        decode_telemetry(">>> INPUT|256|100,-200|0,0|255,0|0x41|3|87", 0),
        Err(InsenError::ParseError)
    );
    assert_eq!(
        decode_telemetry(">>> INPUT|2|100,-32769|0,0|255,0|0x41|3|87", 0),
        Err(InsenError::ParseError)
    );
    assert_eq!(
        decode_telemetry(">>> INPUT|2|100,-200|0,0|255,0|0x10000|3|87", 0),
        Err(InsenError::ParseError)
    );
    assert_eq!(
        decode_telemetry(">>> INPUT|2|100,-200|0,0|255,0|0x41|3|x", 0),
        Err(InsenError::ParseError)
    );
}

#[test]
fn battery_above_hundred_passes_through() {
    let st = decode_telemetry(">>> INPUT|0|0,0|0,0|0,0|0|0|200", 0).unwrap();
    assert_eq!(st.battery, 200);
}

#[test]
fn hex_buttons_with_and_without_prefix() {
    assert_eq!(parse_hex_u16(&chars("0x1F")), Some(0x1F));
    assert_eq!(parse_hex_u16(&chars("1F")), Some(0x1F));
    assert_eq!(parse_hex_u16(&chars("1f")), Some(0x1F));
    assert_eq!(parse_hex_u16(&chars("0x")), None);
    assert_eq!(parse_hex_u16(&chars("")), None);
    assert_eq!(parse_hex_u16(&chars("ffff")), Some(0xFFFF));
    assert_eq!(parse_hex_u16(&chars("10000")), None);
    let a = decode_telemetry(">>> INPUT|0|0,0|0,0|0,0|0x1F|0|0", 0).unwrap();
    let b = decode_telemetry(">>> INPUT|0|0,0|0,0|0,0|1F|0|0", 0).unwrap();
    assert_eq!(a.buttons, b.buttons);
}

#[test]
fn decimal_parsers_follow_std() {
    assert_eq!(parse_u8(&chars("255")), Some(255));
    assert_eq!(parse_u8(&chars("+7")), Some(7));
    assert_eq!(parse_u8(&chars("007")), Some(7));
    assert_eq!(parse_u8(&chars("256")), None);
    assert_eq!(parse_u8(&chars("-1")), None);
    assert_eq!(parse_u8(&chars("+")), None);
    assert_eq!(parse_u8(&chars(" 1")), None);
    assert_eq!(parse_i16(&chars("-32768")), Some(-32768));
    assert_eq!(parse_i16(&chars("32767")), Some(32767));
    assert_eq!(parse_i16(&chars("32768")), None);
    assert_eq!(parse_i16(&chars("-0")), Some(0));
    assert_eq!(parse_i16(&chars("-")), None);
    for text in ["0", "42", "-42", "+42", "99999", "1a"] {
        assert_eq!(parse_i16(&chars(text)), text.parse::<i16>().ok());
        assert_eq!(parse_u8(&chars(text)), text.parse::<u8>().ok());
    }
}

#[test]
fn commands_are_framed_with_crlf() {
    assert_eq!(frame_command("INFO"), "INFO\r\n");
    assert_eq!(get_request_command(0), "GET 0");
    assert_eq!(get_request_command(42), "GET 42");
    assert_eq!(get_request_command(255), "GET 255");
}

#[test]
fn replies_are_decoded_and_trimmed() {
    assert_eq!(decode_reply(b"  >>> INSEN v1\r\n"), ">>> INSEN v1");
    assert_eq!(decode_reply(b""), "");
    assert_eq!(decode_reply(b">>> a\xffb\n"), ">>> a\u{FFFD}b");
}
