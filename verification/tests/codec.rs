use light_actor::codec::{decode_status, encode_command, parse_status_topic, Qos};
use light_actor::models::{LightState, PowerAction};

#[test]
fn payload_on_decodes() {
    assert_eq!(LightState::try_from("ON".as_bytes()), Ok(LightState::On));
}

#[test]
fn payload_off_decodes() {
    assert_eq!(LightState::try_from("OFF".as_bytes()), Ok(LightState::Off));
}

#[test]
fn payload_surrounding_whitespace_is_trimmed() {
    assert_eq!(LightState::try_from("  ON\r\n".as_bytes()), Ok(LightState::On));
    assert_eq!(LightState::try_from("\tOFF ".as_bytes()), Ok(LightState::Off));
}

#[test]
fn payload_unicode_whitespace_is_trimmed() {
    assert_eq!(LightState::try_from("\u{b}ON".as_bytes()), Ok(LightState::On));
    assert_eq!(LightState::try_from("\u{a0}ON\u{a0}".as_bytes()), Ok(LightState::On));
    assert_eq!(LightState::try_from("\u{85}OFF".as_bytes()), Ok(LightState::Off));
    assert_eq!(LightState::try_from("\u{2009}OFF\u{3000}".as_bytes()), Ok(LightState::Off));
    assert_eq!(LightState::try_from("\u{1680}\u{2028}ON\u{202f}\u{205f}".as_bytes()), Ok(LightState::On));
}

#[test]
fn payload_non_whitespace_margins_are_rejected() {
    // a zero-width space is not Unicode whitespace
    assert_eq!(LightState::try_from("\u{200b}ON".as_bytes()), Err(()));
    // a lone continuation byte is not valid UTF-8
    assert_eq!(LightState::try_from(&[0x85u8, b'O', b'N'][..]), Err(()));
    assert_eq!(LightState::try_from(&[b' ', b'O', b'N', 0xC2u8][..]), Err(()));
}

#[test]
fn payload_other_text_is_rejected() {
    assert_eq!(LightState::try_from("on".as_bytes()), Err(()));
    assert_eq!(LightState::try_from("".as_bytes()), Err(()));
    assert_eq!(LightState::try_from("   ".as_bytes()), Err(()));
    assert_eq!(LightState::try_from("ONN".as_bytes()), Err(()));
    assert_eq!(LightState::try_from("O N".as_bytes()), Err(()));
    assert_eq!(LightState::try_from("OFF OFF".as_bytes()), Err(()));
    assert_eq!(LightState::try_from(&[0xffu8, 0xfe][..]), Err(()));
}

#[test]
fn status_topic_parses() {
    assert_eq!(parse_status_topic("stat/node-1/power"), Some(String::from("node-1")));
}

#[test]
fn status_topic_empty_id_parses() {
    assert_eq!(parse_status_topic("stat//power"), Some(String::from("")));
}

#[test]
fn other_topic_shapes_are_rejected() {
    assert_eq!(parse_status_topic("cmd/node-1/power"), None);
    assert_eq!(parse_status_topic("stat/node-1/voltage"), None);
    assert_eq!(parse_status_topic("stat/node-1"), None);
    assert_eq!(parse_status_topic("stat/a/b/power"), None);
    assert_eq!(parse_status_topic(""), None);
    assert_eq!(parse_status_topic("stat/node-1/power/"), None);
}

#[test]
fn decode_status_pairs_topic_and_payload() {
    assert_eq!(
        decode_status("stat/node-2/power", "ON".as_bytes()),
        Some((String::from("node-2"), LightState::On))
    );
    assert_eq!(decode_status("stat/node-2/power", "PENDING".as_bytes()), None);
    assert_eq!(decode_status("cmd/node-2/power", "ON".as_bytes()), None);
}

#[test]
fn command_encodes_to_cmd_topic() {
    let on = encode_command(&String::from("node-0"), PowerAction::On);
    assert_eq!(on.topic, "cmd/node-0/power");
    assert_eq!(on.payload, "ON");
    assert_eq!(on.qos, Qos::AtLeastOnce);
    assert!(!on.retained);

    let off = encode_command(&String::from("node-0"), PowerAction::Off);
    assert_eq!(off.topic, "cmd/node-0/power");
    assert_eq!(off.payload, "OFF");
    assert_eq!(off.qos, Qos::AtLeastOnce);
    assert!(!off.retained);
}
