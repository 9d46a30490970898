use ml10x::handshake::{handshake_messages, HANDSHAKE_P2_SEQUENCE};
use ml10x::sysex::parse_header;

#[test]
fn handshake_emits_four_frames() {
    let frames = handshake_messages().unwrap();
    assert_eq!(frames.len(), 4);
    for (i, frame) in frames.iter().enumerate() {
        let h = parse_header(frame).unwrap();
        assert_eq!(h.p2, HANDSHAKE_P2_SEQUENCE[i], "frame {i}");
    }
}

#[test]
fn handshake_frames_have_no_segments() {
    for frame in handshake_messages().unwrap().iter() {
        assert_eq!(frame.len(), 18);
    }
}
