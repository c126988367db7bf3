use onetcli::osc::{
    extract_osc_events, osc_events_in_text, parse_i32, parse_osc_payload, recorded_command_event,
    OscEvent,
};

#[test]
fn parse_osc_payload_decodes_recorded_command() {
    let payload = "1337;Command=Z2l0IHN0YXR1cw==";

    let event = parse_osc_payload(payload);

    match event {
        Some(OscEvent::CommandRecorded(command)) => {
            assert_eq!(command, "git status");
        }
        other => panic!("expected recorded command event, got {other:?}"),
    }
}

#[test]
fn extract_osc_events_keeps_command_recording_between_prompt_events() {
    let events = extract_osc_events(
        b"\x1b]133;A\x07\x1b]1337;Command=Z2l0IHN0YXR1cw==\x07\x1b]133;D;0\x07",
    );

    assert!(matches!(events.first(), Some(OscEvent::PromptStart)));
    assert!(matches!(events.get(1), Some(OscEvent::CommandRecorded(cmd)) if cmd == "git status"));
    assert!(matches!(
        events.get(2),
        Some(OscEvent::CommandFinished { exit_code: 0 })
    ));
}

#[test]
fn prompt_markers_parse() {
    assert_eq!(Some(OscEvent::PromptStart), parse_osc_payload("133;A"));
    assert_eq!(Some(OscEvent::InputStart), parse_osc_payload("133;B"));
    assert_eq!(Some(OscEvent::CommandStart), parse_osc_payload("133;C"));
    assert_eq!(None, parse_osc_payload("133;E"));
    assert_eq!(None, parse_osc_payload("133;AB"));
    assert_eq!(None, parse_osc_payload("0;title"));
}

#[test]
fn exit_codes_parse_or_read_as_minus_one() {
    assert_eq!(
        Some(OscEvent::CommandFinished { exit_code: 127 }),
        parse_osc_payload("133;D;127")
    );
    assert_eq!(
        Some(OscEvent::CommandFinished { exit_code: -1 }),
        parse_osc_payload("133;D;")
    );
    assert_eq!(
        Some(OscEvent::CommandFinished { exit_code: -1 }),
        parse_osc_payload("133;D;abc")
    );
    assert_eq!(
        Some(OscEvent::CommandFinished { exit_code: -2 }),
        parse_osc_payload("133;D;-2")
    );
}

#[test]
fn parse_i32_follows_decimal_syntax_and_range() {
    assert_eq!(Some(0), parse_i32("0"));
    assert_eq!(Some(42), parse_i32("+42"));
    assert_eq!(Some(-42), parse_i32("-42"));
    assert_eq!(Some(2147483647), parse_i32("2147483647"));
    assert_eq!(Some(-2147483648), parse_i32("-2147483648"));
    assert_eq!(None, parse_i32("2147483648"));
    assert_eq!(None, parse_i32("-2147483649"));
    assert_eq!(None, parse_i32("99999999999999999999"));
    assert_eq!(None, parse_i32(""));
    assert_eq!(None, parse_i32("-"));
    assert_eq!(None, parse_i32(" 1"));
    assert_eq!(None, parse_i32("1 "));
    for text in ["7", "-13", "+0", "x", "1x", "--1", "000123"] {
        assert_eq!(text.parse::<i32>().ok(), parse_i32(text), "{text}");
    }
}

#[test]
fn working_directory_keeps_the_path_after_the_host() {
    assert_eq!(
        Some(OscEvent::WorkingDirChanged("/home/me/src".to_string())),
        parse_osc_payload("7;file://host/home/me/src")
    );
    assert_eq!(
        Some(OscEvent::WorkingDirChanged("/tmp".to_string())),
        parse_osc_payload("7;file:///tmp")
    );
    assert_eq!(
        Some(OscEvent::WorkingDirChanged(String::new())),
        parse_osc_payload("7;file://host")
    );
}

#[test]
fn recorded_commands_need_valid_base64_and_utf8() {
    assert_eq!(None, parse_osc_payload("1337;Command=***"));
    // "/w==" decodes to the single byte 0xff, which is not UTF-8.
    assert_eq!(None, parse_osc_payload("1337;Command=/w=="));
    assert_eq!(
        Some(OscEvent::CommandRecorded(String::new())),
        parse_osc_payload("1337;Command=")
    );
    assert_eq!(None, recorded_command_event(None));
    assert_eq!(None, recorded_command_event(Some(vec![0xc3])));
    assert_eq!(
        Some(OscEvent::CommandRecorded("é".to_string())),
        recorded_command_event(Some(vec![0xc3, 0xa9]))
    );
}

#[test]
fn sequences_end_with_bel_or_string_terminator() {
    let events = osc_events_in_text("x\u{1b}]133;B\u{1b}\\y\u{1b}]133;C\u{7}\u{1b}]133;A");
    assert_eq!(vec![OscEvent::InputStart, OscEvent::CommandStart], events);
}

#[test]
fn invalid_utf8_is_replaced_before_scanning() {
    let events = extract_osc_events(b"\xff\x1b]133;A\x07");
    assert_eq!(vec![OscEvent::PromptStart], events);
}
