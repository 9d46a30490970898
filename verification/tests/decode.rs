use ml10x::decode::{decode_controller, decode_preset, decode_preset_names, decode_spillover, DecodeError};
use ml10x::encode::{encode_controller, encode_preset};
use ml10x::presets::{
    Connection, ConnectorSlug, Controller, IncludeInTrails, Preset, PresetBody, SimpleHop,
    Spillover, SpilloverTarget,
};
use ml10x::sysex::{build_header, encode_segment, frame, SysexError};

#[test]
fn spillover_2byte_zero_pair_is_nothing() {
    assert_eq!(decode_spillover(&[0, 0]), SpilloverTarget::Nothing);
    assert_eq!(decode_spillover(&[0, 99]), SpilloverTarget::Nothing);
    assert_eq!(decode_spillover(&[1, 13]), SpilloverTarget::DTip);
    assert_eq!(decode_spillover(&[1, 12]), SpilloverTarget::DRing);
    assert_eq!(decode_spillover(&[127]), SpilloverTarget::Nothing);
    assert_eq!(decode_spillover(&[13]), SpilloverTarget::DTip);
}

// ---- further cases ----

#[test]
fn decode_spillover_unknown_and_empty_are_nothing() {
    assert_eq!(decode_spillover(&[]), SpilloverTarget::Nothing);
    assert_eq!(decode_spillover(&[5]), SpilloverTarget::Nothing);
}

#[test]
fn decode_preset_rejects_short_and_broken_messages() {
    assert!(matches!(decode_preset(&[0xF0; 10], 0, 0), Err(DecodeError::HeaderTooShort(10))));
    let h = build_header(6, 0, 0, 0, 0, 0, 0, 0);
    let msg = frame(&h, &[vec![0x7F, 0x01, 0x09]]).unwrap();
    assert!(matches!(
        decode_preset(&msg, 0, 0),
        Err(DecodeError::Sysex(SysexError::SegmentTruncated { .. }))
    ));
}

#[test]
fn simple_write_reads_back() {
    let p = Preset {
        bank: 2,
        number: 7,
        name: "Lead".into(),
        spillover: Spillover { output_tip: SpilloverTarget::DTip, output_ring: SpilloverTarget::InputRing },
        body: PresetBody::Simple {
            chain: vec![
                SimpleHop { from_connector: ConnectorSlug::ATip, to_connector: ConnectorSlug::OutputTip, bypass: true },
                SimpleHop { from_connector: ConnectorSlug::InputTip, to_connector: ConnectorSlug::ATip, bypass: false },
            ],
        },
    };
    let msg = encode_preset(&p, true).unwrap();
    let q = decode_preset(&msg, 2, 7).unwrap();
    assert_eq!(q.name, "Lead");
    assert_eq!(q.spillover, p.spillover);
    // Reading order starts at the input.
    assert_eq!(
        q.body,
        PresetBody::Simple {
            chain: vec![
                SimpleHop { from_connector: ConnectorSlug::InputTip, to_connector: ConnectorSlug::ATip, bypass: false },
                SimpleHop { from_connector: ConnectorSlug::ATip, to_connector: ConnectorSlug::OutputTip, bypass: true },
            ],
        }
    );
    assert_eq!((q.bank, q.number), (2, 7));
}

#[test]
fn advanced_write_reads_back_in_signal_order() {
    let p = Preset {
        bank: 0,
        number: 1,
        name: "Adv".into(),
        spillover: Default::default(),
        body: PresetBody::Advanced {
            connections: vec![
                Connection { from_connector: ConnectorSlug::BTip, to_connector: ConnectorSlug::OutputRing },
                Connection { from_connector: ConnectorSlug::InputTip, to_connector: ConnectorSlug::BTip },
                Connection { from_connector: ConnectorSlug::InputTip, to_connector: ConnectorSlug::OutputTip },
            ],
        },
    };
    let msg = encode_preset(&p, true).unwrap();
    let q = decode_preset(&msg, 0, 1).unwrap();
    assert_eq!(
        q.body,
        PresetBody::Advanced {
            connections: vec![
                Connection { from_connector: ConnectorSlug::InputTip, to_connector: ConnectorSlug::OutputTip },
                Connection { from_connector: ConnectorSlug::InputTip, to_connector: ConnectorSlug::BTip },
                Connection { from_connector: ConnectorSlug::BTip, to_connector: ConnectorSlug::OutputRing },
            ],
        }
    );
}

#[test]
fn unreached_hops_trail_in_index_order() {
    let h = build_header(6, 0, 0, 0, 0, 0, 0, 0);
    // Routed: A Tip (gn 4) -> B Tip (gn 5), C Tip (gn 6) -> D Tip (gn 7);
    // neither is reachable from an input.
    let segs = vec![
        encode_segment(6, &[6, 7, 0]),
        encode_segment(4, &[4, 5, 0]),
    ];
    let msg = frame(&h, &segs).unwrap();
    let q = decode_preset(&msg, 0, 0).unwrap();
    match q.body {
        PresetBody::Simple { chain } => {
            assert_eq!(chain.len(), 2);
            assert_eq!(chain[0].from_connector, ConnectorSlug::ATip);
            assert_eq!(chain[1].from_connector, ConnectorSlug::CTip);
        }
        other => panic!("expected Simple, got {other:?}"),
    }
}

#[test]
fn preset_names_map_by_segment_id() {
    let h = build_header(6, 2, 0, 0, 0, 0, 0, 0);
    let segs = vec![
        encode_segment(0, b"Clean       "),
        encode_segment(1, b"Crunch"),
        encode_segment(0, b"Again"),
    ];
    let msg = frame(&h, &segs).unwrap();
    let names = decode_preset_names(&msg).unwrap();
    assert_eq!(names.len(), 2);
    assert_eq!(names[&0], "Again");
    assert_eq!(names[&1], "Crunch");
}

#[test]
fn controller_write_reads_back() {
    let mut c = Controller::default();
    c.midi_channel = 9;
    c.device_id = 6;
    c.loop_bypass_persistent = true;
    c.include_in_trails = IncludeInTrails { b_ring: true, e_ring: true, ..IncludeInTrails::default() };
    c.connectors.d_ring.name = "Delay".into();
    c.connectors.input_tip.short_name = "Gtr".into();
    let q = decode_controller(&encode_controller(&c).unwrap()).unwrap();
    assert_eq!(q.midi_channel, 9);
    assert_eq!(q.device_id, 6);
    assert!(q.loop_bypass_persistent);
    assert!(!q.input_split);
    assert_eq!(q.include_in_trails, c.include_in_trails);
    assert_eq!(q.connectors.d_ring.name, "Delay");
    assert_eq!(q.connectors.input_tip.short_name, "Gtr");
    assert_eq!(q.uuid, "");
}

#[test]
fn trails_bitmap_low_byte_comes_first() {
    let msg = frame(&build_header(6, 1, 0, 0, 0, 0, 0, 0), &[encode_segment(33, &[1, 0])]).unwrap();
    let t = decode_controller(&msg).unwrap().include_in_trails;
    assert!(t.a_tip && !t.d_ring);
    let msg = frame(&build_header(6, 1, 0, 0, 0, 0, 0, 0), &[encode_segment(33, &[0, 1])]).unwrap();
    let t = decode_controller(&msg).unwrap().include_in_trails;
    assert!(t.d_ring && !t.a_tip);
}

#[test]
fn trails_segment_is_written_low_byte_first() {
    let ctrl = Controller {
        include_in_trails: IncludeInTrails { a_tip: true, e_ring: true, ..IncludeInTrails::default() },
        ..Controller::default()
    };
    let bytes = encode_controller(&ctrl).unwrap();
    // Segment 33 carries bits 0..6 in its first byte, bits 7..9 in its second.
    let seg = [0x7F, 33, 2, 1, 4];
    assert!(bytes.windows(seg.len()).any(|w| w == seg), "segment 33 not found as [1, 4]");
}
