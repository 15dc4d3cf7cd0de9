use tcd_server::control_definitions::{
    File, InnerControlDefinitions, RawControl, RawInput, RawInputKind, RawOutput, RawOutputKind,
    AIRCRAFT_NAME_CONTROL,
};
use tcd_server::controls::{ControlOutputs, Input, InputDefKind, InputValue, Output, OutputDefKind, Outputs};
use tcd_server::session::{Request, Session};
use tcd_server::stream::{process_frame, RecvState, Stream, StreamError, BUFFER_LEN};

fn string_output(address: u16, max_length: u16) -> RawOutput {
    RawOutput {
        address,
        description: String::from("text"),
        kind: RawOutputKind::String,
        mask: None,
        max_value: None,
        shift_by: None,
        max_length: Some(max_length),
        suffix: String::new(),
    }
}

fn integer_output(address: u16, mask: u16, shift_by: u16) -> RawOutput {
    RawOutput {
        address,
        description: String::from("number"),
        kind: RawOutputKind::Integer,
        mask: Some(mask),
        max_value: Some(1),
        shift_by: Some(shift_by),
        max_length: None,
        suffix: String::new(),
    }
}

fn control(name: &str, outputs: Vec<RawOutput>) -> RawControl {
    RawControl {
        category: String::from("Misc"),
        name: String::from(name),
        kind: String::from("display"),
        description: String::from(name),
        momentary_positions: None,
        physical_variant: None,
        inputs: vec![],
        outputs,
    }
}

fn file(controls: Vec<RawControl>) -> File {
    File {
        inner: vec![(
            String::from("Misc"),
            controls.into_iter().map(|c| (c.name.clone(), c)).collect(),
        )],
    }
}

fn empty_file() -> File {
    File { inner: vec![] }
}

#[test]
fn bad_sync_drops_connection() {
    let mut stream = Stream::new();
    assert_eq!(stream.read_sync(&[0x55, 0x55, 0x00, 0x55]), Err(StreamError::BadSync));
    assert_eq!(stream.recv_state(), RecvState::Sync);
    assert_eq!(stream.read_sync(&[0x55, 0x55, 0x55, 0x55]), Ok(()));
    assert_eq!(stream.recv_state(), RecvState::Data);
}

#[test]
fn datagram_past_mirror_end_is_refused() {
    let mut stream = Stream::new();
    stream.read_sync(&[0x55; 4]).unwrap();
    // addr 0xfff0, len 0x0011: one byte past the end
    assert_eq!(stream.read_header(&[0xf0, 0xff, 0x11, 0x00]), Err(StreamError::InvalidRange));
    assert!(stream.buffer().iter().all(|b| *b == 0));
    assert_eq!(stream.read_header(&[0xf0, 0xff, 0x10, 0x00]), Ok((0xfff0, 0x10)));
    assert_eq!(stream.read_header(&[0x34, 0x12, 0x02, 0x00]), Ok((0x1234, 2)));
}

#[test]
fn datagrams_fill_mirror_and_end_frame_at_the_top() {
    let mut stream = Stream::new();
    stream.read_sync(&[0x55; 4]).unwrap();
    assert!(!stream.read_data(0x10, &[1, 2, 3]));
    assert_eq!(stream.recv_state(), RecvState::Data);
    assert_eq!(&stream.buffer()[0x0f..0x14], &[0, 1, 2, 3, 0]);
    assert!(stream.read_data(0xfffe, &[9, 8]));
    assert_eq!(stream.recv_state(), RecvState::Sync);
    assert_eq!(stream.buffer().len(), BUFFER_LEN);
    assert_eq!(stream.buffer()[0xffff], 8);
}

#[test]
fn integer_output_is_bit_exact() {
    let mut mirror = vec![0u8; 16];
    mirror[4] = 0x34;
    mirror[5] = 0x12;
    assert_eq!(integer_output(4, 0xffff, 0).read(&mirror), Some(Output::Integer(0x1234)));
    assert_eq!(integer_output(4, 0x0f00, 8).read(&mirror), Some(Output::Integer(0x2)));
    assert_eq!(integer_output(4, 0x00f0, 4).read(&mirror), Some(Output::Integer(0x3)));
    mirror[5] = 0xff;
    mirror[4] = 0xfe;
    assert_eq!(integer_output(4, 0xffff, 0).read(&mirror), Some(Output::Integer(-2)));
    assert_eq!(integer_output(15, 0xffff, 0).read(&mirror), None);
    assert_eq!(integer_output(14, 0xffff, 0).read(&mirror), Some(Output::Integer(0)));
}

#[test]
fn string_output_stops_at_nul() {
    let mut mirror = vec![0u8; 16];
    mirror[2..7].copy_from_slice(b"HELLO");
    assert_eq!(string_output(2, 8).read(&mirror), Some(Output::String(String::from("HELLO"))));
    assert_eq!(string_output(2, 3).read(&mirror), Some(Output::String(String::from("HEL"))));
    assert_eq!(string_output(0, 4).read(&mirror), Some(Output::String(String::new())));
    assert_eq!(string_output(10, 7).read(&mirror), None);
    assert_eq!(string_output(10, 6).read(&mirror), Some(Output::String(String::new())));
}

#[test]
fn string_output_with_invalid_utf8_is_omitted() {
    let mut mirror = vec![0u8; 8];
    mirror[0] = b'A';
    mirror[1] = 0xff;
    assert_eq!(string_output(0, 4).read(&mirror), None);
    let c = control("BAD", vec![string_output(0, 4), integer_output(0, 0x00ff, 0)]);
    let outs = c.outputs(&mirror);
    assert_eq!(outs.as_slice(), &[Output::Integer(0x41)]);
}

#[test]
fn raw_definitions_convert() {
    let input = RawInput {
        description: String::from("switch"),
        kind: RawInputKind::VariableStep,
        max_value: Some(65535),
        suggested_step: Some(3200),
        argument: None,
    };
    assert!(input.check());
    let def = input.to_def();
    assert!(matches!(
        def.kind,
        InputDefKind::VariableStep { max_value: 65535, suggested_step: 3200 }
    ));
    let missing = RawInput { kind: RawInputKind::Action, ..input.clone() };
    assert!(!missing.check());
    let out = string_output(3, 6).to_def();
    assert!(matches!(out.kind, OutputDefKind::String { max_length: 6 }));
    let mut bad = integer_output(0, 1, 16);
    assert!(!bad.check());
    bad.shift_by = Some(15);
    assert!(bad.check());
    let c = control("X", vec![string_output(0, 2)]);
    let d = c.to_def();
    assert_eq!(d.category, "Misc");
    assert_eq!(d.outputs.len(), 1);
}

fn definitions() -> InnerControlDefinitions {
    let start = file(vec![control(AIRCRAFT_NAME_CONTROL, vec![string_output(0, 24)])]);
    let common = file(vec![control("COMMON", vec![integer_output(30, 0xffff, 0)])]);
    let f16 = file(vec![control("MASTER_ARM", vec![integer_output(40, 0x0001, 0)])]);
    let f14 = file(vec![
        control("HOOK", vec![integer_output(42, 0x0001, 0)]),
        control("MASTER_ARM", vec![integer_output(40, 0x0002, 1)]),
    ]);
    assert!(start.check() && common.check() && f16.check() && f14.check());
    InnerControlDefinitions::new(
        start,
        empty_file(),
        common,
        vec![(String::from("F-16C_50"), f16), (String::from("F-14B"), f14)],
    )
}

fn mirror_with_aircraft(name: &str) -> Vec<u8> {
    let mut mirror = vec![0u8; BUFFER_LEN];
    mirror[..name.len()].copy_from_slice(name.as_bytes());
    mirror[30] = 7;
    mirror[40] = 0b11;
    mirror[42] = 1;
    mirror
}

#[test]
fn airframe_switch() {
    let mut defs = definitions();
    let mirror = mirror_with_aircraft("F-16C_50");
    let name = defs.control_outputs(AIRCRAFT_NAME_CONTROL, &mirror).into_string();
    assert_eq!(name, Some(String::from("F-16C_50")));
    assert!(defs.load_aircraft("F-16C_50"));
    let all = defs.all_outputs(&mirror);
    assert_eq!(all.get("MASTER_ARM").unwrap().as_slice(), &[Output::Integer(1)]);
    assert!(all.get("HOOK").is_none());
    assert_eq!(all.get("COMMON").unwrap().as_slice(), &[Output::Integer(7)]);
    assert_eq!(all.len(), 3);

    assert!(!defs.load_aircraft("A-10C"));
    let all = defs.all_outputs(&mirror);
    assert!(all.get("MASTER_ARM").is_none());
    assert_eq!(all.len(), 2);
}

#[test]
fn frame_processing_loads_airframe_once() {
    let mut defs = definitions();
    let mut previous = String::new();
    let snapshot = process_frame(&mut defs, &mirror_with_aircraft("F-14B"), &mut previous);
    assert_eq!(previous, "F-14B");
    assert_eq!(snapshot.get("HOOK").unwrap().as_slice(), &[Output::Integer(1)]);
    assert_eq!(snapshot.get("MASTER_ARM").unwrap().as_slice(), &[Output::Integer(1)]);

    let snapshot = process_frame(&mut defs, &mirror_with_aircraft("F-16C_50"), &mut previous);
    assert_eq!(previous, "F-16C_50");
    assert!(snapshot.get("HOOK").is_none());

    // an unknown airframe leaves only the global controls
    let snapshot = process_frame(&mut defs, &mirror_with_aircraft("MiG-29"), &mut previous);
    assert_eq!(previous, "MiG-29");
    assert!(snapshot.get("MASTER_ARM").is_none());
    assert_eq!(snapshot.len(), 2);

    // an empty name changes nothing
    let snapshot = process_frame(&mut defs, &mirror_with_aircraft(""), &mut previous);
    assert_eq!(previous, "MiG-29");
    assert_eq!(snapshot.len(), 2);
}

#[test]
fn control_outputs_prefers_globals() {
    let mut defs = definitions();
    let mirror = mirror_with_aircraft("F-14B");
    assert!(defs.load_aircraft("F-14B"));
    assert_eq!(defs.control_outputs("HOOK", &mirror).as_slice(), &[Output::Integer(1)]);
    assert_eq!(defs.control_outputs("COMMON", &mirror).as_slice(), &[Output::Integer(7)]);
    assert!(defs.control_outputs("NOPE", &mirror).as_slice().is_empty());
}

fn snapshot(value: i16) -> ControlOutputs {
    let mut outputs = ControlOutputs::new();
    outputs.insert(String::from("MASTER_ARM"), Outputs::from_vec(vec![Output::Integer(value)]));
    outputs.insert(String::from("OTHER"), Outputs::from_vec(vec![Output::Integer(0)]));
    outputs
}

#[test]
fn flow_controlled_controls_stream() {
    let mut session = Session::new();
    assert!(session.on_snapshot(&snapshot(0)).is_none());
    assert!(session.on_request(Request::Subscribe(String::from("MASTER_ARM"))).is_none());
    let mut batches = vec![];
    for i in 0..10 {
        if let Some(b) = session.on_snapshot(&snapshot(i)) {
            batches.push(b);
        }
    }
    assert_eq!(batches.len(), 1);
    assert_eq!(batches[0].announce.len, 1);
    assert_eq!(batches[0].responses.len(), 1);
    assert_eq!(batches[0].responses[0].name, "MASTER_ARM");
    assert_eq!(batches[0].responses[0].outputs.as_slice(), &[Output::Integer(0)]);

    assert!(session.on_request(Request::Acknowledge).is_none());
    let next = session.on_snapshot(&snapshot(10)).unwrap();
    assert_eq!(next.announce.len, 1);
    assert_eq!(next.responses[0].outputs.as_slice(), &[Output::Integer(10)]);
    assert!(session.on_snapshot(&snapshot(11)).is_none());
}

#[test]
fn subscriptions_are_idempotent() {
    let mut session = Session::new();
    session.on_request(Request::Subscribe(String::from("MASTER_ARM")));
    session.on_request(Request::Subscribe(String::from("MASTER_ARM")));
    session.on_request(Request::Subscribe(String::from("MISSING")));
    let b = session.on_snapshot(&snapshot(1)).unwrap();
    assert_eq!(b.announce.len, 1);
    session.on_request(Request::Acknowledge);
    session.on_request(Request::Unsubscribe(String::from("NEVER")));
    session.on_request(Request::Unsubscribe(String::from("MASTER_ARM")));
    session.on_request(Request::Unsubscribe(String::from("MASTER_ARM")));
    let b = session.on_snapshot(&snapshot(2)).unwrap();
    assert_eq!(b.announce.len, 0);
    session.on_request(Request::Acknowledge);
    session.on_request(Request::Unsubscribe(String::from("MISSING")));
    assert!(!session.wants_snapshot());
    assert!(session.on_snapshot(&snapshot(3)).is_none());
}

#[test]
fn inputs_are_passed_on() {
    let mut session = Session::new();
    let input = Input::new(String::from("MASTER_ARM"), InputValue::Toggle);
    let forwarded = session.on_request(Request::Input(input)).unwrap();
    assert_eq!(forwarded.to_string(), "MASTER_ARM TOGGLE");
}

#[test]
fn input_commands_are_rendered() {
    assert_eq!(InputValue::Increase.to_string(), "INC");
    assert_eq!(InputValue::Decrease.to_string(), "DEC");
    assert_eq!(InputValue::Toggle.to_string(), "TOGGLE");
    assert_eq!(InputValue::Integer(0).to_string(), "0");
    assert_eq!(InputValue::Integer(42).to_string(), "42");
    assert_eq!(InputValue::Integer(-12).to_string(), "-12");
    assert_eq!(InputValue::Integer(i16::MIN).to_string(), "-32768");
    assert_eq!(InputValue::Integer(i16::MAX).to_string(), "32767");
    let input = Input::new(String::from("UFC_1"), InputValue::Integer(1));
    assert_eq!(input.command_line(), "UFC_1 1\n");
}

#[test]
fn first_string_output() {
    let outs = Outputs::from_vec(vec![
        Output::Integer(3),
        Output::String(String::from("a")),
        Output::String(String::from("b")),
    ]);
    assert_eq!(outs.into_string(), Some(String::from("a")));
    assert_eq!(Outputs::from_vec(vec![Output::Integer(3)]).into_string(), None);
    assert_eq!(Outputs::new().into_string(), None);
    let from: Outputs = vec![Output::String(String::from("c"))].into();
    assert_eq!(from.copied().into_string(), Some(String::from("c")));
}
