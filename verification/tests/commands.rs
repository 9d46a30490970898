use ml10x::commands::dump::{capture_kind, capture_uuid, preset_file_path, CaptureKind};
use ml10x::commands::helpers::{inbound_announcement, preset_from_reply, read_attempt_wait_ms};
use ml10x::commands::lint::{issues_block, lint_exit_code, severity_count};
use ml10x::commands::list::{banks_to_query, is_empty_slot_name, is_listed};
use ml10x::commands::sync::{
    batch_refusal, failure_exit, is_save_ack, preset_steps, sync_order, SyncFailure, SyncItem, SyncTally,
};
use ml10x::device::{ml10x, InboundClass};
use ml10x::exit_codes;
use ml10x::midi_io::{find_port, is_ml10x_port, match_ports, MidiError, PortInfo};
use ml10x::roundtrip::check_controller_names;
use ml10x::decode::decode_controller;
use ml10x::encode::encode_controller;
use ml10x::presets::{Connector, Connectors, Controller, IncludeInTrails};
use ml10x::sysex::{build_header_with, encode_segment, frame_with};
use ml10x::validate::{Issue, Severity};

/// A message whose length field matches its length, as the device sends.
fn inbound(p1: u8, p2: u8, segments: &[Vec<u8>]) -> Vec<u8> {
    let mut header = build_header_with(ml10x(), p1, p2, 0, 0, 0, 0, 0, 0);
    let total: usize = 16 + segments.iter().map(|s| s.len()).sum::<usize>() + 2;
    header[14] = ((total >> 7) & 0x3F) as u8;
    header[15] = (total & 0x7F) as u8;
    frame_with(ml10x(), &header, segments).unwrap()
}

#[test]
fn save_ack_is_editor_event_two() {
    assert!(is_save_ack(&inbound(InboundClass::EditorEvent.code(), 2, &[])));
    assert!(!is_save_ack(&inbound(InboundClass::EditorEvent.code(), 0, &[])));
    assert!(!is_save_ack(&inbound(InboundClass::Data.code(), 2, &[])));
}

#[test]
fn save_ack_needs_a_matching_length_field() {
    let header = build_header_with(ml10x(), InboundClass::EditorEvent.code(), 2, 0, 0, 0, 0, 0, 0);
    let msg = frame_with(ml10x(), &header, &[]).unwrap();
    assert!(!is_save_ack(&msg));
    assert!(!is_save_ack(&[0xF0, 0xF7]));
}

#[test]
fn bank_changes_only_when_the_bank_differs() {
    let first = preset_steps(None, 2);
    assert!(first.change_bank);
    assert_eq!(first.settle_max_ms, 4000);
    let same = preset_steps(Some(2), 2);
    assert!(!same.change_bank);
    assert_eq!(same.settle_max_ms, 1500);
    assert!(preset_steps(Some(1), 2).change_bank);
}

#[test]
fn tally_counts_and_summarises() {
    let mut t = SyncTally::new(3);
    assert!(t.record(true, true));
    assert!(t.record(false, false));
    assert_eq!((t.synced, t.failed), (1, 1));
    assert!(!t.record(false, true));
    assert_eq!(t.summary(), "1/3 item(s) synced (2 failure(s)).");
    assert_eq!(t.exit_code(), exit_codes::SYNC_NO_ACK);
    assert!(!t.all_ok());
    let mut ok = SyncTally::new(1);
    ok.record(true, false);
    assert_eq!(ok.summary(), "1/1 item(s) synced.");
    assert_eq!(ok.exit_code(), exit_codes::OK);
}

#[test]
fn empty_slot_names() {
    assert!(is_empty_slot_name(""));
    assert!(is_empty_slot_name("   \t"));
    assert!(is_empty_slot_name("Empty"));
    assert!(is_empty_slot_name("  EMPTY  "));
    assert!(is_empty_slot_name("\u{3000}empty\u{a0}"));
    assert!(!is_empty_slot_name("Empty slot"));
    assert!(!is_empty_slot_name("Lead"));
}

#[test]
fn listing_filters_by_bank_and_emptiness() {
    assert!(is_listed(0, Some(1), "Lead", false));
    assert!(!is_listed(1, Some(1), "Lead", false));
    assert!(is_listed(3, None, "Lead", false));
    assert!(!is_listed(0, None, "Empty", false));
    assert!(is_listed(0, None, "Empty", true));
}

#[test]
fn banks_to_query_checks_the_range() {
    assert_eq!(banks_to_query(None), Some(vec![0, 1, 2, 3]));
    assert_eq!(banks_to_query(Some(2)), Some(vec![1]));
    assert_eq!(banks_to_query(Some(0)), None);
    assert_eq!(banks_to_query(Some(5)), None);
}

#[test]
fn announcement_lines() {
    assert_eq!(inbound_announcement(1, 0, 0, 18), "  device says: device connected.");
    assert_eq!(inbound_announcement(1, 2, 0, 18), "  device says: preset saved (ack).");
    assert_eq!(inbound_announcement(1, 7, 42, 18), "  device says: loading progress 42.");
    assert_eq!(inbound_announcement(1, 9, 0, 18), "  device says: editor event 9.");
    assert_eq!(inbound_announcement(6, 0, 0, 300), "  received preset data (300 bytes).");
    assert_eq!(inbound_announcement(6, 9, 0, 20), "  received data (20 bytes).");
    assert_eq!(inbound_announcement(17, 0, 0, 52), "  received controller info (52 bytes).");
    assert_eq!(
        inbound_announcement(9, 3, 0, 18),
        "  received message class 9 subtype 3 (18 bytes)."
    );
}

#[test]
fn capture_kinds() {
    let header = build_header_with(ml10x(), 6, 0, 12, 3, 0, 0, 0, 0);
    let msg = frame_with(ml10x(), &header, &[]).unwrap();
    assert_eq!(capture_kind(&msg), CaptureKind::Preset { bank: 3, number: 12 });
    assert_eq!(capture_kind(&inbound(6, 1, &[])), CaptureKind::Controller);
    assert_eq!(capture_kind(&inbound(1, 2, &[])), CaptureKind::Other);
    assert_eq!(capture_kind(&[0xF0, 6, 0, 0xF7]), CaptureKind::Other);
}

#[test]
fn capture_uuid_reads_the_first_info_message() {
    let a: Vec<u8> = (0..32u8).map(|i| i & 0x0F).collect();
    let b: Vec<u8> = (0..32u8).map(|i| 15 - (i & 0x0F)).collect();
    let info = inbound(17, 0, &[encode_segment(0, &a), encode_segment(0, &b)]);
    let later = inbound(17, 0, &[encode_segment(0, &a)]);
    let other = inbound(6, 1, &[]);
    let got = capture_uuid(&[other.clone(), info, later]);
    assert_eq!(got.as_deref(), Some("fedcba98-7654-3210-fedc-ba9876543210"));
    assert_eq!(capture_uuid(&[other]), None);
    assert_eq!(capture_uuid(&[inbound(17, 0, &[encode_segment(0, &[1, 2])])]), None);
}

#[test]
fn preset_file_paths_are_zero_padded() {
    assert_eq!(preset_file_path(0, 7), "bank-1/preset-007.yaml");
    assert_eq!(preset_file_path(3, 42), "bank-4/preset-042.yaml");
    assert_eq!(preset_file_path(1, 127), "bank-2/preset-127.yaml");
}

fn issue(severity: Severity) -> Issue {
    Issue { severity, path: "p".into(), message: "m".into() }
}

#[test]
fn issue_counts_and_blocking() {
    let issues = vec![issue(Severity::Warning), issue(Severity::Info), issue(Severity::Warning)];
    assert_eq!(severity_count(&issues, Severity::Warning), 2);
    assert_eq!(severity_count(&issues, Severity::Error), 0);
    assert!(!issues_block(&issues, false));
    assert!(issues_block(&issues, true));
    assert!(issues_block(&[issue(Severity::Error)], false));
    assert!(!issues_block(&[], true));
}

#[test]
fn ml10x_port_names() {
    assert!(is_ml10x_port("Morningstar ML10X 0"));
    assert!(is_ml10x_port("ml10x"));
    assert!(is_ml10x_port("MORNINGSTAR MC6"));
    assert!(!is_ml10x_port("IAC Driver Bus 1"));
}

#[test]
fn batch_sends_controller_first() {
    assert_eq!(
        sync_order(true, 2),
        vec![SyncItem::Controller, SyncItem::Preset(0), SyncItem::Preset(1)]
    );
    assert_eq!(sync_order(false, 1), vec![SyncItem::Preset(0)]);
    assert_eq!(sync_order(false, 0), vec![]);
}

#[test]
fn strict_batches_stop_at_the_first_failure() {
    assert_eq!(failure_exit(SyncFailure::Load, true), Some(exit_codes::INPUT_FILE_ERROR));
    assert_eq!(failure_exit(SyncFailure::Encode, true), Some(exit_codes::ENCODE_ERROR));
    assert_eq!(failure_exit(SyncFailure::Load, false), None);
    assert_eq!(failure_exit(SyncFailure::Encode, false), None);
}

#[test]
fn empty_batches_are_refused() {
    assert_eq!(batch_refusal(true, 0, false), Some((exit_codes::INPUT_FILE_ERROR, "Nothing syncable after validation.")));
    assert_eq!(batch_refusal(false, 0, false), Some((exit_codes::INPUT_FILE_ERROR, "Nothing to sync.")));
    assert_eq!(batch_refusal(true, 1, false), None);
    assert_eq!(batch_refusal(false, 0, true), None);
}

#[test]
fn lint_exit_codes() {
    assert_eq!(lint_exit_code(0, 0, 0, false), exit_codes::INPUT_FILE_ERROR);
    assert_eq!(lint_exit_code(3, 0, 0, false), exit_codes::OK);
    assert_eq!(lint_exit_code(3, 1, 0, false), exit_codes::INPUT_FILE_ERROR);
    assert_eq!(lint_exit_code(3, 0, 2, false), exit_codes::OK);
    assert_eq!(lint_exit_code(3, 0, 2, true), exit_codes::INPUT_FILE_ERROR);
}

#[test]
fn reading_back_retries_once() {
    assert_eq!(read_attempt_wait_ms(0, 1500), Some(1500));
    assert_eq!(read_attempt_wait_ms(1, 1500), Some(2000));
    assert_eq!(read_attempt_wait_ms(2, 1500), None);
}

#[test]
fn preset_reply_takes_the_slot_asked_for() {
    let header = build_header_with(ml10x(), 6, 0, 12, 3, 0, 0, 0, 0);
    let msg = frame_with(ml10x(), &header, &[encode_segment(32, b"Solo")]).unwrap();
    let p = preset_from_reply(&msg, 1, 7).unwrap();
    assert_eq!((p.bank, p.number), (1, 7));
    assert_eq!(p.name, "Solo");
    assert!(preset_from_reply(&inbound(1, 2, &[]), 1, 7).is_none());
    assert!(preset_from_reply(&inbound(6, 1, &[]), 1, 7).is_none());
}

fn port(name: &str) -> PortInfo {
    PortInfo { name: name.into(), direction: "input" }
}

#[test]
fn ports_match_on_lowered_names() {
    let ports = vec![port("Morningstar ML10X 0"), port("Other Device 1")];
    let lowered = vec!["morningstar ml10x 0".to_string(), "other device 1".to_string()];
    assert_eq!(match_ports(&ports, &lowered, "ml10x", "ML10X").unwrap().name, "Morningstar ML10X 0");
    match match_ports(&ports, &lowered, "device", "Device") {
        Ok(p) => assert_eq!(p.name, "Other Device 1"),
        Err(e) => panic!("expected a match, got {e:?}"),
    }
    match match_ports(&ports, &lowered, "nope", "Nope") {
        Err(MidiError::NoPort { needle, available, .. }) => {
            assert_eq!(needle, "Nope");
            assert_eq!(available, "Morningstar ML10X 0, Other Device 1");
        }
        other => panic!("expected NoPort, got {other:?}"),
    }
    match match_ports(&ports, &lowered, " ", " ") {
        Err(MidiError::AmbiguousPort { count: 2, .. }) => {}
        other => panic!("expected AmbiguousPort, got {other:?}"),
    }
    assert_eq!(find_port(&ports, "ML10x").unwrap().name, "Morningstar ML10X 0");
}

fn named(name: &str) -> Connector {
    Connector {
        name: name.into(),
        short_name: "ab".into(),
        input_name: "in".into(),
        output_name: "out".into(),
    }
}

#[test]
fn ascii_controller_reads_back_whole() {
    let ctrl = Controller {
        uuid: "ignored".into(),
        midi_channel: 9,
        device_id: 6,
        input_split: true,
        loop_bypass_persistent: true,
        include_in_trails: IncludeInTrails { b_ring: true, e_tip: true, ..IncludeInTrails::default() },
        connectors: Connectors { a_tip: named("Ego 76"), output_ring: named("Amp"), ..Connectors::default() },
    };
    assert!(check_controller_names(&ctrl));
    let back = decode_controller(&encode_controller(&ctrl).unwrap()).unwrap();
    assert_eq!(back, Controller { uuid: String::new(), ..ctrl });
}

#[test]
fn overlong_names_do_not_fit() {
    let long = "x".repeat(130);
    let ctrl = Controller {
        connectors: Connectors { c_ring: named(&long), ..Connectors::default() },
        ..Controller::default()
    };
    assert!(!check_controller_names(&ctrl));
}
