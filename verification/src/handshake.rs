//! The ML10X connect handshake: byte builders only.
//!
//! The official editor's connect sequence is four outbound SysEx frames
//! with P2 = 0, 24, 19, 21. After receiving them the device streams the
//! active preset and the controller dump unprompted. Sending and receiving
//! belong to whoever owns the MIDI port.
use vstd::prelude::*;

use crate::device::{ml10x, spec_ml10x, DeviceProfile};
use crate::midi_io::MidiError;
use crate::sysex::{
    build_header_with, bytes_result_view, frame_with, segment_views, spec_frame, spec_frame_with,
    spec_header, SysexError,
};

verus! {

/// Why sending the handshake failed.
#[derive(Debug, Clone, PartialEq, Eq)]
pub enum HandshakeError {
    Sysex(SysexError),
    Midi(MidiError),
}

/// The four P2 codes the editor sends right after a port is opened.
pub const HANDSHAKE_P2_SEQUENCE: [u8; 4] = [0, 24, 19, 21];

/// The handshake frame with the given P2 (all other function bytes 0).
pub open spec fn spec_handshake_frame(device: DeviceProfile, p2: u8) -> Seq<u8> {
    spec_frame(spec_header(device, seq![0u8, p2, 0u8, 0u8, 0u8, 0u8, 0u8, 0u8]))
}

fn handshake_frame(device: DeviceProfile, p2: u8) -> (r: Result<Vec<u8>, SysexError>)
    ensures
        r matches Ok(v) && v@ == spec_handshake_frame(device, p2),
{
    let header = build_header_with(device, 0, p2, 0, 0, 0, 0, 0, 0);
    let segments: Vec<Vec<u8>> = Vec::new();
    let r = frame_with(device, header.as_slice(), segments.as_slice());
    proof {
        assert(segment_views(segments@).flatten() =~= Seq::<u8>::empty());
        assert(header@ + Seq::<u8>::empty() =~= header@);
        assert(bytes_result_view(r) == spec_frame_with(device, header@, segment_views(segments@)));
    }
    r
}

/// Build the four connect-handshake frames for a device profile, in the
/// order they are sent.
pub fn handshake_messages_with(device: DeviceProfile) -> (r: Result<[Vec<u8>; 4], SysexError>)
    ensures
        r matches Ok(frames) && forall|i: int|
            0 <= i < 4 ==> (#[trigger] frames@[i])@ == spec_handshake_frame(
                device,
                HANDSHAKE_P2_SEQUENCE@[i],
            ),
{
    let m0 = match handshake_frame(device, HANDSHAKE_P2_SEQUENCE[0]) {
        Ok(v) => v,
        Err(e) => {
            return Err(e);
        },
    };
    let m1 = match handshake_frame(device, HANDSHAKE_P2_SEQUENCE[1]) {
        Ok(v) => v,
        Err(e) => {
            return Err(e);
        },
    };
    let m2 = match handshake_frame(device, HANDSHAKE_P2_SEQUENCE[2]) {
        Ok(v) => v,
        Err(e) => {
            return Err(e);
        },
    };
    let m3 = match handshake_frame(device, HANDSHAKE_P2_SEQUENCE[3]) {
        Ok(v) => v,
        Err(e) => {
            return Err(e);
        },
    };
    let frames = [m0, m1, m2, m3];
    assert forall|i: int| 0 <= i < 4 implies (#[trigger] frames@[i])@ == spec_handshake_frame(
        device,
        HANDSHAKE_P2_SEQUENCE@[i],
    ) by {
        if i == 0 {
            assert(frames@[0] == m0);
        } else if i == 1 {
            assert(frames@[1] == m1);
        } else if i == 2 {
            assert(frames@[2] == m2);
        } else {
            assert(frames@[3] == m3);
        }
    }
    Ok(frames)
}

/// [`handshake_messages_with`] for the ML10X profile.
pub fn handshake_messages() -> (r: Result<[Vec<u8>; 4], SysexError>)
    ensures
        r matches Ok(frames) && forall|i: int|
            0 <= i < 4 ==> (#[trigger] frames@[i])@ == spec_handshake_frame(
                spec_ml10x(),
                HANDSHAKE_P2_SEQUENCE@[i],
            ),
{
    handshake_messages_with(ml10x())
}

} // verus!
