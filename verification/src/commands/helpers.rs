//! Helpers shared by the device-touching subcommands.
use vstd::prelude::*;

use crate::device::{ml10x, spec_ml10x, InboundClass};
use crate::decode::decoded_preset_is;
use crate::inbound::{classify_inbound, first_uuid_from, optional_text_is, InboundMessage};
use crate::presets::Preset;
use crate::sysex::{parse_header_with, spec_parse_header, spec_segments};
use crate::validate::{decimal, push_decimal};

verus! {

/// The UUID a single message carries: a controller-info message (f1 = 17)
/// whose segments parse and hold a valid UUID segment.
pub open spec fn message_uuid(m: Seq<u8>) -> Option<Seq<char>> {
    if m.len() > 10 && m[6] == 17 {
        match spec_segments(m) {
            Ok(segs) => first_uuid_from(segs, 0),
            Err(_) => None,
        }
    } else {
        None
    }
}

/// The first UUID carried by the messages from index `k` on.
pub open spec fn first_message_uuid(ms: Seq<Vec<u8>>, k: int) -> Option<Seq<char>>
    decreases ms.len() - k,
{
    if k < 0 || k >= ms.len() {
        None
    } else if message_uuid(ms[k]@) is Some {
        message_uuid(ms[k]@)
    } else {
        first_message_uuid(ms, k + 1)
    }
}

/// Walk a captured response stream and return the first UUID it finds.
pub fn extract_uuid(messages: &[Vec<u8>]) -> (r: Option<String>)
    ensures
        optional_text_is(r, first_message_uuid(messages@, 0)),
{
    let mut k: usize = 0;
    while k < messages.len()
        invariant
            k <= messages@.len(),
            first_message_uuid(messages@, 0) == first_message_uuid(messages@, k as int),
        decreases messages@.len() - k,
    {
        let classified = classify_inbound(messages[k].as_slice());
        match classified {
            Ok(InboundMessage::ControllerInfo { uuid }) => {
                match uuid {
                    Some(u) => {
                        return Some(u);
                    },
                    None => {},
                }
            },
            _ => {},
        }
        k += 1;
    }
    None
}

/// The classification bytes of a message: (p1, p2, p3) of a header that
/// passes the framing checks.
pub open spec fn spec_classify(m: Seq<u8>) -> Option<(u8, u8, u8)> {
    match spec_parse_header(spec_ml10x(), m, false) {
        Ok(h) => Some((h.p1, h.p2, h.p3)),
        Err(_) => None,
    }
}

/// Parse and classify an inbound message (its p1/p2/p3 when valid).
pub fn classify(message: &[u8]) -> (r: Option<(u8, u8, u8)>)
    ensures
        r == spec_classify(message@),
{
    match parse_header_with(ml10x(), message, false) {
        Ok(h) => Some((h.p1, h.p2, h.p3)),
        Err(_) => None,
    }
}

/// What an editor event says, by its subtype `p2` (`p3` is the progress
/// of a load).
pub open spec fn editor_event_label(p2: u8, p3: u8) -> Seq<char> {
    if p2 == 0 {
        "device connected"@
    } else if p2 == 2 {
        "preset saved (ack)"@
    } else if p2 == 5 {
        "loading start"@
    } else if p2 == 6 {
        "loading end"@
    } else if p2 == 7 {
        "loading progress "@ + decimal(p3 as nat)
    } else {
        "editor event "@ + decimal(p2 as nat)
    }
}

/// What kind of data a data message carries, by its subtype `p2`.
pub open spec fn data_kind_label(p2: u8) -> Seq<char> {
    if p2 == 0 {
        "preset data"@
    } else if p2 == 1 {
        "controller data"@
    } else if p2 == 2 {
        "all preset names"@
    } else {
        "data"@
    }
}

/// The line that reports a message from the device, by its header bytes
/// `p1`, `p2`, `p3` and its length.
pub open spec fn spec_inbound_announcement(p1: u8, p2: u8, p3: u8, msg_len: usize) -> Seq<char> {
    if p1 == InboundClass::EditorEvent.spec_code() {
        "  device says: "@ + editor_event_label(p2, p3) + "."@
    } else if p1 == InboundClass::Data.spec_code() {
        "  received "@ + data_kind_label(p2) + " ("@ + decimal(msg_len as nat) + " bytes)."@
    } else if p1 == InboundClass::ControllerInfo.spec_code() {
        "  received controller info ("@ + decimal(msg_len as nat) + " bytes)."@
    } else {
        "  received message class "@ + decimal(p1 as nat) + " subtype "@ + decimal(p2 as nat)
            + " ("@ + decimal(msg_len as nat) + " bytes)."@
    }
}

/// The line that reports a message from the device (see
/// [`spec_inbound_announcement`]).
pub fn inbound_announcement(p1: u8, p2: u8, p3: u8, msg_len: usize) -> (r: String)
    ensures
        r@ == spec_inbound_announcement(p1, p2, p3, msg_len),
{
    let mut out = String::new();
    if p1 == InboundClass::EditorEvent.code() {
        out.append("  device says: ");
        if p2 == 0 {
            out.append("device connected");
        } else if p2 == 2 {
            out.append("preset saved (ack)");
        } else if p2 == 5 {
            out.append("loading start");
        } else if p2 == 6 {
            out.append("loading end");
        } else if p2 == 7 {
            out.append("loading progress ");
            push_decimal(&mut out, p3 as usize);
        } else {
            out.append("editor event ");
            push_decimal(&mut out, p2 as usize);
        }
        out.append(".");
    } else if p1 == InboundClass::Data.code() {
        out.append("  received ");
        if p2 == 0 {
            out.append("preset data");
        } else if p2 == 1 {
            out.append("controller data");
        } else if p2 == 2 {
            out.append("all preset names");
        } else {
            out.append("data");
        }
        out.append(" (");
        push_decimal(&mut out, msg_len);
        out.append(" bytes).");
    } else if p1 == InboundClass::ControllerInfo.code() {
        out.append("  received controller info (");
        push_decimal(&mut out, msg_len);
        out.append(" bytes).");
    } else {
        out.append("  received message class ");
        push_decimal(&mut out, p1 as usize);
        out.append(" subtype ");
        push_decimal(&mut out, p2 as usize);
        out.append(" (");
        push_decimal(&mut out, msg_len);
        out.append(" bytes).");
    }
    assert(out@ =~= spec_inbound_announcement(p1, p2, p3, msg_len));
    out
}

/// How long, at most, each wait for a reply to a preset select lasts, in
/// milliseconds.
pub const READ_POLL_MS: u64 = 500;

/// How long the `attempt`-th try (from 0) at reading a preset back waits
/// for its data: `total_ms` the first time, half a second more the second
/// time; there is no third try.
pub fn read_attempt_wait_ms(attempt: u32, total_ms: u64) -> (r: Option<u64>)
    requires
        total_ms <= u64::MAX - 500,
    ensures
        attempt == 0 ==> r == Some(total_ms),
        attempt == 1 ==> r == Some((total_ms + 500) as u64),
        attempt >= 2 ==> r is None,
{
    if attempt == 0 {
        Some(total_ms)
    } else if attempt == 1 {
        Some(total_ms + 500)
    } else {
        None
    }
}

/// Whether a reply carries preset data that decodes: longer than 10
/// bytes, of the data class with subtype 0 or 2, with segments that parse.
pub open spec fn carries_preset(m: Seq<u8>) -> bool {
    &&& m.len() > 10
    &&& m[6] == InboundClass::Data.spec_code()
    &&& (m[7] == 0 || m[7] == 2)
    &&& spec_segments(m) is Ok
}

/// The preset a reply to a select carries, labelled with the slot that was
/// asked for (`bank`, `number`) rather than the one the header names: the
/// device sometimes echoes a stale slot number. `None` for any other reply.
pub fn preset_from_reply(reply: &[u8], bank: u8, number: u8) -> (r: Option<Preset>)
    ensures
        r is Some <==> carries_preset(reply@),
        r matches Some(p) ==> (spec_segments(reply@) matches Ok(segs) && decoded_preset_is(
            p,
            reply@,
            segs,
            bank,
            number,
        )),
{
    match classify_inbound(reply) {
        Ok(InboundMessage::Preset { preset, .. }) => {
            let mut p = preset;
            p.bank = bank;
            p.number = number;
            Some(p)
        },
        _ => None,
    }
}

} // verus!
