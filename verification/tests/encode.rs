use ml10x::decode::decode_spillover;
use ml10x::encode::{
    ascii_fold_bytes, encode_controller, encode_navigate_to, encode_preset,
    encode_request_preset_names, encode_select_bank, encode_simple_preset, fold_decomposed,
    spillover_write_byte,
};
use ml10x::presets::{
    Connection, ConnectorSlug, Controller, Preset, PresetBody, SimpleHop, Spillover,
    SpilloverTarget,
};
use ml10x::sysex::{iter_segments, parse_header};
use std::collections::HashMap;

#[test]
fn spillover_byte_table_is_scrambled() {
    // Spot-check the values that a linear table would get wrong.
    assert_eq!(spillover_write_byte(SpilloverTarget::Nothing), 127);
    assert_eq!(spillover_write_byte(SpilloverTarget::ARing), 0);
    assert_eq!(spillover_write_byte(SpilloverTarget::BTip), 15);
    assert_eq!(spillover_write_byte(SpilloverTarget::DTip), 13);
}

#[test]
fn ascii_fold_strips_diacritics() {
    assert_eq!(ascii_fold_bytes("Saída"), b"Saida".to_vec());
    assert_eq!(ascii_fold_bytes("Entrada"), b"Entrada".to_vec());
}

#[test]
fn navigate_to_emits_p2_22_and_p2_18() {
    let (bm, pm) = encode_navigate_to(2, 42).unwrap();
    let bh = parse_header(&bm).unwrap();
    let ph = parse_header(&pm).unwrap();
    assert_eq!((bh.p2, bh.p3), (22, 2));
    assert_eq!((ph.p2, ph.p3), (18, 42));
}

#[test]
fn encode_preset_dispatches_on_body() {
    let simple = Preset {
        bank: 0,
        number: 0,
        name: "S".into(),
        spillover: Default::default(),
        body: PresetBody::Simple { chain: vec![] },
    };
    let bytes = encode_preset(&simple, true).unwrap();
    assert_eq!(parse_header(&bytes).unwrap().p2, 0, "simple writes p2=0");

    let advanced = Preset {
        bank: 0,
        number: 0,
        name: "A".into(),
        spillover: Default::default(),
        body: PresetBody::Advanced {
            connections: vec![Connection {
                from_connector: ConnectorSlug::InputTip,
                to_connector: ConnectorSlug::OutputTip,
            }],
        },
    };
    let bytes = encode_preset(&advanced, true).unwrap();
    assert_eq!(parse_header(&bytes).unwrap().p2, 2, "advanced writes p2=2");
}

// ---- further cases ----

#[test]
fn every_spillover_byte_reads_back() {
    let all = [
        SpilloverTarget::Nothing,
        SpilloverTarget::InputTip,
        SpilloverTarget::InputRing,
        SpilloverTarget::ATip,
        SpilloverTarget::ARing,
        SpilloverTarget::BTip,
        SpilloverTarget::BRing,
        SpilloverTarget::CTip,
        SpilloverTarget::CRing,
        SpilloverTarget::DTip,
        SpilloverTarget::DRing,
        SpilloverTarget::ETip,
        SpilloverTarget::ERing,
    ];
    for t in all {
        assert_eq!(decode_spillover(&[spillover_write_byte(t)]), t);
    }
}

#[test]
fn fold_drops_combining_marks_and_replaces_non_ascii() {
    assert_eq!(fold_decomposed("a\u{0301}b"), b"ab".to_vec());
    assert_eq!(fold_decomposed("x\u{00DF}"), b"x?".to_vec());
    assert_eq!(ascii_fold_bytes("ﬁ"), b"fi".to_vec());
}

#[test]
fn simple_write_orders_unrouted_then_routed() {
    let p = Preset {
        bank: 1,
        number: 5,
        name: "Chain  ".into(),
        spillover: Spillover { output_tip: SpilloverTarget::ATip, output_ring: SpilloverTarget::Nothing },
        body: PresetBody::Simple {
            chain: vec![
                SimpleHop { from_connector: ConnectorSlug::InputTip, to_connector: ConnectorSlug::ATip, bypass: false },
                SimpleHop { from_connector: ConnectorSlug::ATip, to_connector: ConnectorSlug::OutputTip, bypass: true },
            ],
        },
    };
    let msg = encode_simple_preset(&p, false).unwrap();
    let h = parse_header(&msg).unwrap();
    assert_eq!((h.p1, h.p2, h.p3, h.p4), (6, 0, 5, 1));
    let segs = iter_segments(&msg).unwrap();
    let ids: Vec<u8> = segs.iter().map(|s| s.0).collect();
    // Fixed order minus the routed A Tip (4) and Input Tip (0), then the chain.
    assert_eq!(ids, vec![9, 5, 10, 6, 11, 7, 12, 8, 13, 3, 0, 4, 16, 17, 20, 32]);
    assert_eq!(segs[0].1, vec![9, 0x7F]);
    assert_eq!(segs[10].1, vec![0, 4, 0]);
    assert_eq!(segs[11].1, vec![4, 2, 1]);
    assert_eq!(segs[12].1, vec![1]);
    assert_eq!(segs[13].1, vec![127]);
    assert_eq!(segs[15].1, b"Chain".to_vec());
}

#[test]
fn preset_name_is_cut_to_twelve_bytes() {
    let p = Preset {
        bank: 0,
        number: 0,
        name: "A very long preset name".into(),
        spillover: Default::default(),
        body: PresetBody::Simple { chain: vec![] },
    };
    let msg = encode_preset(&p, true).unwrap();
    let segs: HashMap<u8, Vec<u8>> = iter_segments(&msg).unwrap().into_iter().collect();
    assert_eq!(segs[&32], b"A very long ".to_vec());
}

#[test]
fn request_and_select_messages_carry_their_argument() {
    let r = encode_request_preset_names(3).unwrap();
    let h = parse_header(&r).unwrap();
    assert_eq!((h.p1, h.p2, h.p3), (0, 64, 3));
    let b = encode_select_bank(0x85).unwrap();
    assert_eq!(parse_header(&b).unwrap().p3, 0x05);
    assert_eq!(r.len(), 18);
}

#[test]
fn controller_header_is_6_1() {
    let msg = encode_controller(&Controller::default()).unwrap();
    let h = parse_header(&msg).unwrap();
    assert_eq!((h.p1, h.p2), (6, 1));
    // 56 name segments + 5 settings.
    assert_eq!(iter_segments(&msg).unwrap().len(), 61);
}
