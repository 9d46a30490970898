use ml10x::commands::helpers::{classify, extract_uuid};
use ml10x::commands::lint::is_preset_file_name;
use ml10x::config::Config;
use ml10x::device::ml10x;
use ml10x::output::Verbosity;
use ml10x::sysex::{build_header_with, encode_segment, frame_with};

fn frame(p1: u8, p2: u8, p3: u8, segments: &[Vec<u8>]) -> Vec<u8> {
    let header = build_header_with(ml10x(), p1, p2, p3, 0, 0, 0, 0, 0);
    frame_with(ml10x(), &header, segments).unwrap()
}

#[test]
fn extract_uuid_finds_the_first_controller_info() {
    let nibbles: Vec<u8> = (0..32u8).map(|i| i % 16).collect();
    let messages = vec![
        frame(1, 0, 0, &[]),
        frame(17, 0, 0, &[encode_segment(0, &[1, 2, 3])]),
        frame(17, 0, 0, &[encode_segment(0, &nibbles)]),
    ];
    assert_eq!(extract_uuid(&messages).as_deref(), Some("01234567-89ab-cdef-0123-456789abcdef"));
    assert_eq!(extract_uuid(&messages[..2]), None);
}

#[test]
fn classify_reads_the_header_bytes() {
    assert_eq!(classify(&frame(6, 1, 4, &[])), Some((6, 1, 4)));
    let mut bad = frame(6, 1, 4, &[]);
    let n = bad.len();
    bad[n - 2] ^= 1;
    assert_eq!(classify(&bad), None);
}

#[test]
fn preset_file_names() {
    assert!(is_preset_file_name("preset-001.yaml"));
    assert!(is_preset_file_name("preset-.yaml"));
    assert!(!is_preset_file_name("controller.yaml"));
    assert!(!is_preset_file_name("preset-001.yml"));
    assert!(!is_preset_file_name("preset"));
}

#[test]
fn verbosity_flags() {
    assert_eq!(Verbosity::from_flags(true, true, false), None);
    assert_eq!(Verbosity::from_flags(true, false, true), Some(Verbosity::Verbose));
    assert_eq!(Verbosity::from_flags(false, false, true), Some(Verbosity::Quiet));
    assert_eq!(Verbosity::from_flags(false, false, false), Some(Verbosity::Normal));
    assert_eq!(Verbosity::default(), Verbosity::Normal);
}

#[test]
fn default_config_uses_ml10x_port() {
    let c = Config::default();
    assert_eq!(c.port, "ML10X");
    assert!(c.config_path.is_none());
}
