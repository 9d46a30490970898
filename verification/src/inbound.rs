//! Classify and decode an inbound SysEx message in one call.
//!
//! Every command that talks to the device routes inbound messages by their
//! f1/f2 bytes to the matching decoder; `classify_inbound` holds that
//! routing in one place.
use vstd::prelude::*;

use std::collections::HashMap;

use crate::decode::{
    decode_controller, decode_preset, decode_preset_names, decoded_controller_is,
    decoded_preset_is, names_map_is, DecodeError,
};
use crate::device::{segment_id, InboundClass};
use crate::presets::{Controller, Preset};
use crate::sysex::{
    decode_uuid_nibbles, iter_segments, segment_list_view, spec_segments, spec_uuid_text,
    string_result_view, SysexError,
};

verus! {

/// What the device just sent.
///
/// `Other` carries the raw header bytes so callers can handle messages this
/// helper does not know about without re-parsing the header.
#[derive(Clone, Debug, PartialEq)]
pub enum InboundMessage {
    /// A preset's contents; `bank` and `number` come from the header (P4 and
    /// P3), the device's idea of which slot the data belongs to.
    Preset { bank: u8, number: u8, preset: Preset },
    /// Global controller settings (`Data` class, P2 = 1).
    Controller(Controller),
    /// The preset names of one bank (`PresetNames` class); the bank is P3.
    PresetNames { bank: u8, names: HashMap<u8, String> },
    /// Controller info: the device UUID, sent after the connect handshake.
    ControllerInfo { uuid: Option<String> },
    /// Editor event. P2 = 2 is the "Preset Settings Saved" acknowledgement
    /// the device sends after a successful preset write.
    EditorEvent { p2: u8, p3: u8 },
    /// Anything else.
    Other { p1: u8, p2: u8, p3: u8, p4: u8, p5: u8 },
}

#[derive(Debug, Clone, PartialEq, Eq)]
pub enum ClassifyError {
    /// Message too short (its length in bytes) to contain a SysEx header.
    TooShort(usize),
    Decode(DecodeError),
    Sysex(SysexError),
}

/// The UUID of the first segment with id 0 (from index `k` on) whose data
/// is a valid 32-nibble UUID.
pub open spec fn first_uuid_from(segs: Seq<(u8, Seq<u8>)>, k: int) -> Option<Seq<char>>
    decreases segs.len() - k,
{
    if k < 0 || k >= segs.len() {
        None
    } else if segs[k].0 == segment_id::UUID_OR_FIRMWARE && segs[k].1.len() == 32 {
        Some(spec_uuid_text(segs[k].1))
    } else {
        first_uuid_from(segs, k + 1)
    }
}

/// Whether `r` is `uuid` as an optional string.
pub open spec fn optional_text_is(r: Option<String>, uuid: Option<Seq<char>>) -> bool {
    match uuid {
        Some(t) => r matches Some(s) && s@ == t,
        None => r is None,
    }
}

fn extract_uuid(message: &[u8]) -> (r: Result<Option<String>, SysexError>)
    ensures
        match spec_segments(message@) {
            Err(e) => r == Err::<Option<String>, SysexError>(e),
            Ok(segs) => r matches Ok(u) && optional_text_is(u, first_uuid_from(segs, 0)),
        },
{
    let segments = match iter_segments(message) {
        Ok(s) => s,
        Err(e) => {
            return Err(e);
        },
    };
    let ghost sv = segment_list_view(segments@);
    let mut k: usize = 0;
    while k < segments.len()
        invariant
            k <= segments@.len(),
            sv == segment_list_view(segments@),
            spec_segments(message@) == Ok::<Seq<(u8, Seq<u8>)>, SysexError>(sv),
            first_uuid_from(sv, 0) == first_uuid_from(sv, k as int),
        decreases segments@.len() - k,
    {
        if segments[k].0 == segment_id::UUID_OR_FIRMWARE {
            let d = decode_uuid_nibbles(segments[k].1.as_slice());
            proof {
                assert(sv[k as int] == (segments@[k as int].0, segments@[k as int].1@));
                assert(string_result_view(d) == crate::sysex::spec_decode_uuid(sv[k as int].1));
            }
            match d {
                Ok(uuid) => {
                    return Ok(Some(uuid));
                },
                Err(_) => {},
            }
        }
        k += 1;
    }
    Ok(None)
}


/// What [`classify_inbound`] returns for a message of more than 10 bytes.
pub open spec fn classified_is(r: Result<InboundMessage, ClassifyError>, m: Seq<u8>) -> bool {
    let p1 = m[6];
    let p2 = m[7];
    let p3 = m[8];
    let p4 = m[9];
    let p5 = m[10];
    if p1 == InboundClass::EditorEvent.spec_code() {
        r == Ok::<InboundMessage, ClassifyError>(InboundMessage::EditorEvent { p2, p3 })
    } else if p1 == InboundClass::Data.spec_code() && (p2 == 0 || p2 == 2) {
        match spec_segments(m) {
            Err(e) => r == Err::<InboundMessage, ClassifyError>(
                ClassifyError::Decode(DecodeError::Sysex(e)),
            ),
            Ok(segs) => r matches Ok(InboundMessage::Preset { bank, number, preset }) && bank
                == p4 && number == p3 && decoded_preset_is(preset, m, segs, p4, p3),
        }
    } else if p1 == InboundClass::Data.spec_code() && p2 == 1 {
        match spec_segments(m) {
            Err(e) => r == Err::<InboundMessage, ClassifyError>(
                ClassifyError::Decode(DecodeError::Sysex(e)),
            ),
            Ok(segs) => r matches Ok(InboundMessage::Controller(c)) && decoded_controller_is(
                c,
                segs,
            ),
        }
    } else if p1 == InboundClass::PresetNames.spec_code() {
        match spec_segments(m) {
            Err(e) => r == Err::<InboundMessage, ClassifyError>(
                ClassifyError::Decode(DecodeError::Sysex(e)),
            ),
            Ok(segs) => r matches Ok(InboundMessage::PresetNames { bank, names }) && bank == p3
                && names_map_is(names@, segs),
        }
    } else if p1 == InboundClass::ControllerInfo.spec_code() {
        match spec_segments(m) {
            Err(e) => r == Err::<InboundMessage, ClassifyError>(ClassifyError::Sysex(e)),
            Ok(segs) => r matches Ok(InboundMessage::ControllerInfo { uuid }) && optional_text_is(
                uuid,
                first_uuid_from(segs, 0),
            ),
        }
    } else {
        r == Ok::<InboundMessage, ClassifyError>(InboundMessage::Other { p1, p2, p3, p4, p5 })
    }
}

/// Inspect a complete SysEx frame and decode it into the `InboundMessage`
/// that fits its header. Framing is not validated beyond what the chosen
/// decoder needs; use `parse_header_with` first for that.
pub fn classify_inbound(message: &[u8]) -> (r: Result<InboundMessage, ClassifyError>)
    ensures
        message@.len() <= 10 ==> r == Err::<InboundMessage, ClassifyError>(
            ClassifyError::TooShort(message@.len() as usize),
        ),
        message@.len() > 10 ==> classified_is(r, message@),
{
    if message.len() <= 10 {
        return Err(ClassifyError::TooShort(message.len()));
    }
    let p1 = message[6];
    let p2 = message[7];
    let p3 = message[8];
    let p4 = message[9];
    let p5 = message[10];
    if p1 == InboundClass::EditorEvent.code() {
        return Ok(InboundMessage::EditorEvent { p2, p3 });
    }
    if p1 == InboundClass::Data.code() {
        if p2 == 0 || p2 == 2 {
            let number = p3;
            let bank = p4;
            return match decode_preset(message, bank, number) {
                Ok(preset) => Ok(InboundMessage::Preset { bank, number, preset }),
                Err(e) => Err(ClassifyError::Decode(e)),
            };
        }
        if p2 == 1 {
            return match decode_controller(message) {
                Ok(controller) => Ok(InboundMessage::Controller(controller)),
                Err(e) => Err(ClassifyError::Decode(e)),
            };
        }
    }
    if p1 == InboundClass::PresetNames.code() {
        return match decode_preset_names(message) {
            Ok(names) => Ok(InboundMessage::PresetNames { bank: p3, names }),
            Err(e) => Err(ClassifyError::Decode(e)),
        };
    }
    if p1 == InboundClass::ControllerInfo.code() {
        return match extract_uuid(message) {
            Ok(uuid) => Ok(InboundMessage::ControllerInfo { uuid }),
            Err(e) => Err(ClassifyError::Sysex(e)),
        };
    }
    Ok(InboundMessage::Other { p1, p2, p3, p4, p5 })
}

} // verus!
