//! What a dump makes of the messages it captured: which hold preset or
//! controller data, the controller's UUID, and where each preset is
//! written.
use vstd::prelude::*;

use crate::device::{segment_id, InboundClass, HEADER_LENGTH};
use crate::sysex::{decode_uuid_nibbles, iter_segments, segment_list_view, spec_segments, spec_uuid_text};
use crate::text::push_char;
use crate::validate::{decimal, push_decimal};

verus! {

/// What a captured message carries, by its header bytes.
#[derive(Copy, Clone, Debug, PartialEq, Eq, Structural)]
pub enum CaptureKind {
    /// Preset data (f1 = 6, f2 = 0) for the slot its header names.
    Preset { bank: u8, number: u8 },
    /// Controller data (f1 = 6, f2 = 1).
    Controller,
    /// Anything else, or a message too short to hold a header.
    Other,
}

/// The kind of a captured message: preset data names its bank in header
/// byte f4 and its number in f3.
pub open spec fn spec_capture_kind(m: Seq<u8>) -> CaptureKind {
    if m.len() < HEADER_LENGTH {
        CaptureKind::Other
    } else if m[6] == InboundClass::Data.spec_code() && m[7] == 0 {
        CaptureKind::Preset { bank: m[9], number: m[8] }
    } else if m[6] == InboundClass::Data.spec_code() && m[7] == 1 {
        CaptureKind::Controller
    } else {
        CaptureKind::Other
    }
}

/// The kind of a captured message (see [`spec_capture_kind`]).
pub fn capture_kind(m: &[u8]) -> (r: CaptureKind)
    ensures
        r == spec_capture_kind(m@),
{
    if m.len() < HEADER_LENGTH {
        CaptureKind::Other
    } else if m[6] == InboundClass::Data.code() && m[7] == 0 {
        CaptureKind::Preset { bank: m[9], number: m[8] }
    } else if m[6] == InboundClass::Data.code() && m[7] == 1 {
        CaptureKind::Controller
    } else {
        CaptureKind::Other
    }
}

/// Whether `m` is a controller-info message (f1 = 17).
pub open spec fn is_controller_info(m: Seq<u8>) -> bool {
    m.len() >= HEADER_LENGTH && m[6] == InboundClass::ControllerInfo.spec_code()
}

/// The index of the first controller-info message from `k` on.
pub open spec fn first_info_from(ms: Seq<Vec<u8>>, k: int) -> Option<int>
    decreases ms.len() - k,
{
    if k < 0 || k >= ms.len() {
        None
    } else if is_controller_info(ms[k]@) {
        Some(k)
    } else {
        first_info_from(ms, k + 1)
    }
}

/// The UUID of the last segment of `segs` with id 0 whose data is a valid
/// 32-nibble UUID.
pub open spec fn last_uuid(segs: Seq<(u8, Seq<u8>)>) -> Option<Seq<char>>
    decreases segs.len(),
{
    if segs.len() == 0 {
        None
    } else if segs.last().0 == segment_id::UUID_OR_FIRMWARE && segs.last().1.len() == 32 {
        Some(spec_uuid_text(segs.last().1))
    } else {
        last_uuid(segs.drop_last())
    }
}

/// The UUID a dump records for the controller: that of the first captured
/// controller-info message, read from its last valid UUID segment; `None`
/// when there is no such message, its segments do not parse, or none
/// holds a valid UUID.
pub open spec fn spec_capture_uuid(ms: Seq<Vec<u8>>) -> Option<Seq<char>> {
    match first_info_from(ms, 0) {
        Some(i) => match spec_segments(ms[i]@) {
            Ok(segs) => last_uuid(segs),
            Err(_) => None,
        },
        None => None,
    }
}

/// The UUID a dump records for the controller (see [`spec_capture_uuid`]).
pub fn capture_uuid(received: &[Vec<u8>]) -> (r: Option<String>)
    ensures
        match spec_capture_uuid(received@) {
            Some(t) => r matches Some(s) && s@ == t,
            None => r is None,
        },
{
    let mut k: usize = 0;
    while k < received.len() && !(received[k].len() >= HEADER_LENGTH && received[k][6]
        == InboundClass::ControllerInfo.code())
        invariant
            k <= received@.len(),
            first_info_from(received@, 0) == first_info_from(received@, k as int),
        decreases received@.len() - k,
    {
        k += 1;
    }
    if k >= received.len() {
        return None;
    }
    assert(first_info_from(received@, 0) == Some(k as int));
    let segments = match iter_segments(received[k].as_slice()) {
        Ok(s) => s,
        Err(_) => {
            return None;
        },
    };
    let ghost sv = segment_list_view(segments@);
    let mut found: Option<String> = None;
    let mut q: usize = 0;
    while q < segments.len()
        invariant
            q <= segments@.len(),
            sv == segment_list_view(segments@),
            spec_capture_uuid(received@) == last_uuid(sv),
            match last_uuid(sv.take(q as int)) {
                Some(t) => found matches Some(s) && s@ == t,
                None => found is None,
            },
        decreases segments@.len() - q,
    {
        proof {
            assert(sv.take(q as int + 1).drop_last() =~= sv.take(q as int));
            assert(sv[q as int] == (segments@[q as int].0, segments@[q as int].1@));
        }
        if segments[q].0 == segment_id::UUID_OR_FIRMWARE {
            match decode_uuid_nibbles(segments[q].1.as_slice()) {
                Ok(u) => {
                    found = Some(u);
                },
                Err(_) => {},
            }
        }
        q += 1;
    }
    assert(sv.take(segments@.len() as int) =~= sv);
    found
}

/// Where a dump writes the preset of bank `bank` (numbered from 0) and
/// slot `number`: `bank-{bank + 1}/preset-{number, three digits}.yaml`.
pub open spec fn spec_preset_file_path(bank: u8, number: u8) -> Seq<char> {
    "bank-"@ + decimal((bank + 1) as nat) + "/preset-"@ + (if number < 10 {
        "00"@
    } else if number < 100 {
        "0"@
    } else {
        Seq::empty()
    }) + decimal(number as nat) + ".yaml"@
}

/// Where a dump writes a preset (see [`spec_preset_file_path`]), relative
/// to the output directory.
pub fn preset_file_path(bank: u8, number: u8) -> (r: String)
    requires
        bank < 255,
    ensures
        r@ == spec_preset_file_path(bank, number),
{
    let mut out = String::new();
    out.append("bank-");
    push_decimal(&mut out, bank as usize + 1);
    out.append("/preset-");
    if number < 10 {
        out.append("00");
    } else if number < 100 {
        out.append("0");
    }
    push_decimal(&mut out, number as usize);
    out.append(".yaml");
    assert(out@ =~= spec_preset_file_path(bank, number));
    out
}

} // verus!
