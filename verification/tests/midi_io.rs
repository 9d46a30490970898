use ml10x::midi_io::{check_sysex_frame, find_port, MidiError, PortInfo};

#[test]
fn find_port_substring_match() {
    let ports = vec![
        PortInfo { name: "Morningstar ML10X 0".into(), direction: "input" },
        PortInfo { name: "Other Device 1".into(), direction: "input" },
    ];
    let p = find_port(&ports, "ml10x").unwrap();
    assert_eq!(p.name, "Morningstar ML10X 0");
}

#[test]
fn find_port_no_match_lists_available() {
    let ports = vec![PortInfo { name: "Other Device".into(), direction: "input" }];
    let err = find_port(&ports, "ml10x").unwrap_err();
    match err {
        MidiError::NoPort { available, .. } => {
            assert!(available.contains("Other Device"), "got: {available}");
        }
        other => panic!("expected NoPort, got {other:?}"),
    }
}

#[test]
fn find_port_ambiguous() {
    let ports = vec![
        PortInfo { name: "ML10X A".into(), direction: "input" },
        PortInfo { name: "ML10X B".into(), direction: "input" },
    ];
    let err = find_port(&ports, "ml10x").unwrap_err();
    match err {
        MidiError::AmbiguousPort { count: 2, .. } => {}
        other => panic!("expected AmbiguousPort, got {other:?}"),
    }
}

// ---- further cases ----

#[test]
fn find_port_error_texts_are_exact() {
    let none: Vec<PortInfo> = vec![];
    match find_port(&none, "X") {
        Err(MidiError::NoPort { direction: "MIDI", needle, available }) => {
            assert_eq!(needle, "X");
            assert_eq!(available, "(none enumerated)");
        }
        other => panic!("expected NoPort, got {other:?}"),
    }
    let ports = vec![
        PortInfo { name: "ML10X A".into(), direction: "output" },
        PortInfo { name: "Synth".into(), direction: "output" },
        PortInfo { name: "my ml10x".into(), direction: "output" },
    ];
    match find_port(&ports, "ML10x") {
        Err(MidiError::AmbiguousPort { direction: "output", count: 2, matches, .. }) => {
            assert_eq!(matches, "ML10X A, my ml10x");
        }
        other => panic!("expected AmbiguousPort, got {other:?}"),
    }
    match find_port(&ports[1..], "nope") {
        Err(MidiError::NoPort { available, .. }) => assert_eq!(available, "Synth, my ml10x"),
        other => panic!("expected NoPort, got {other:?}"),
    }
}

#[test]
fn port_text_pads_direction() {
    let p = PortInfo { name: "ML10X".into(), direction: "input" };
    assert_eq!(p.to_text(), "input  ML10X");
    let q = PortInfo { name: "ML10X".into(), direction: "output" };
    assert_eq!(q.to_text(), "output ML10X");
}

#[test]
fn sysex_frame_check() {
    assert!(check_sysex_frame(&[0xF0, 0x01, 0xF7]).is_ok());
    assert_eq!(check_sysex_frame(&[]), Err(MidiError::BadSysExFrame));
    assert_eq!(check_sysex_frame(&[0xF0, 0x01]), Err(MidiError::BadSysExFrame));
}
