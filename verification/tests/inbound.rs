use ml10x::device::{ml10x, InboundClass};
use ml10x::inbound::{classify_inbound, ClassifyError, InboundMessage};
use ml10x::sysex::{build_header_with, encode_segment, frame_with};

fn frame(p1: u8, p2: u8, p3: u8, p4: u8, p5: u8) -> Vec<u8> {
    let header = build_header_with(ml10x(), p1, p2, p3, p4, p5, 0, 0, 0);
    frame_with(ml10x(), &header, &[]).unwrap()
}

#[test]
fn editor_event_is_classified() {
    let bytes = frame(InboundClass::EditorEvent.code(), 2, 0, 0, 0);
    match classify_inbound(&bytes).unwrap() {
        InboundMessage::EditorEvent { p2: 2, .. } => {}
        other => panic!("expected EditorEvent, got {other:?}"),
    }
}

#[test]
fn unknown_message_falls_through_to_other() {
    let bytes = frame(99, 88, 77, 66, 55);
    match classify_inbound(&bytes).unwrap() {
        InboundMessage::Other { p1: 99, p2: 88, p3: 77, p4: 66, p5: 55 } => {}
        other => panic!("expected Other, got {other:?}"),
    }
}

#[test]
fn too_short_returns_error() {
    let res = classify_inbound(&[0xF0, 0xF7]);
    assert!(matches!(res, Err(ClassifyError::TooShort(_))));
}

// ---- further cases ----

#[test]
fn controller_info_carries_the_uuid() {
    let header = build_header_with(ml10x(), 17, 0, 0, 0, 0, 0, 0, 0);
    let nibbles: Vec<u8> = (0..32u8).map(|i| 15 - (i & 0x0F)).collect();
    let msg = frame_with(ml10x(), &header, &[encode_segment(0, &nibbles)]).unwrap();
    match classify_inbound(&msg).unwrap() {
        InboundMessage::ControllerInfo { uuid: Some(u) } => {
            assert_eq!(u, "fedcba98-7654-3210-fedc-ba9876543210")
        }
        other => panic!("expected ControllerInfo, got {other:?}"),
    }
    let bare = frame(17, 0, 0, 0, 0);
    assert!(matches!(classify_inbound(&bare), Ok(InboundMessage::ControllerInfo { uuid: None })));
}

#[test]
fn preset_data_takes_slot_from_header() {
    let header = build_header_with(ml10x(), 6, 0, 12, 3, 0, 0, 0, 0);
    let msg = frame_with(ml10x(), &header, &[encode_segment(32, b"Solo")]).unwrap();
    match classify_inbound(&msg).unwrap() {
        InboundMessage::Preset { bank: 3, number: 12, preset } => {
            assert_eq!(preset.name, "Solo");
            assert_eq!((preset.bank, preset.number), (3, 12));
        }
        other => panic!("expected Preset, got {other:?}"),
    }
}

#[test]
fn preset_names_and_controller_are_routed() {
    let names = frame(9, 0, 2, 0, 0);
    assert!(matches!(
        classify_inbound(&names),
        Ok(InboundMessage::PresetNames { bank: 2, .. })
    ));
    let ctrl = frame(6, 1, 0, 0, 0);
    assert!(matches!(classify_inbound(&ctrl), Ok(InboundMessage::Controller(_))));
    // Data with an unknown subtype falls through.
    let other = frame(6, 5, 0, 0, 0);
    assert!(matches!(classify_inbound(&other), Ok(InboundMessage::Other { p1: 6, p2: 5, .. })));
}
