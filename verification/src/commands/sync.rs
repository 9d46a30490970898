//! The decisions of a batch sync: when a bank must be selected before a
//! preset, how long the device may settle, which reply acknowledges a save,
//! and what the batch reports at the end.
use vstd::prelude::*;

use crate::device::{ml10x, spec_ml10x, InboundClass};
use crate::exit_codes::{ENCODE_ERROR, INPUT_FILE_ERROR, OK, SYNC_NO_ACK};
use crate::sysex::{parse_header_with, spec_parse_header};
use crate::validate::{decimal, push_decimal};

verus! {

/// Whether `reply` acknowledges a saved preset: a well-framed message of
/// the declared length whose header reads "editor event 2".
pub open spec fn spec_is_save_ack(reply: Seq<u8>) -> bool {
    match spec_parse_header(spec_ml10x(), reply, true) {
        Ok(h) => h.p1 == InboundClass::EditorEvent.spec_code() && h.p2 == 2,
        Err(_) => false,
    }
}

/// Whether `reply` acknowledges a saved preset (see [`spec_is_save_ack`]).
pub fn is_save_ack(reply: &[u8]) -> (r: bool)
    ensures
        r == spec_is_save_ack(reply@),
{
    match parse_header_with(ml10x(), reply, true) {
        Ok(h) => h.p1 == InboundClass::EditorEvent.code() && h.p2 == 2,
        Err(_) => false,
    }
}

/// How long the device may settle after a bank change, in milliseconds.
pub const PRESET_SETTLE_AFTER_BANK_MS: u64 = 4000;

/// How long the device may settle after selecting a preset in the bank
/// already selected, in milliseconds.
pub const PRESET_SETTLE_SAME_BANK_MS: u64 = 1500;

/// The steps that come before saving one preset of a batch.
#[derive(Copy, Clone, Debug, PartialEq, Eq, Structural)]
pub struct PresetSteps {
    /// Select the preset's bank first: it is not the bank selected last.
    pub change_bank: bool,
    /// The longest the device may take to settle after the preset is
    /// selected, in milliseconds.
    pub settle_max_ms: u64,
}

/// The steps before saving a preset of bank `bank` when `last_bank` was
/// the bank selected last (`None` before the first).
pub fn preset_steps(last_bank: Option<u8>, bank: u8) -> (r: PresetSteps)
    ensures
        r.change_bank == (last_bank != Some(bank)),
        r.settle_max_ms == (if r.change_bank {
            PRESET_SETTLE_AFTER_BANK_MS
        } else {
            PRESET_SETTLE_SAME_BANK_MS
        }),
{
    let change_bank = match last_bank {
        Some(b) => b != bank,
        None => true,
    };
    PresetSteps {
        change_bank,
        settle_max_ms: if change_bank {
            PRESET_SETTLE_AFTER_BANK_MS
        } else {
            PRESET_SETTLE_SAME_BANK_MS
        },
    }
}

/// The running count of a batch: how many items it holds, how many were
/// synced and how many failed.
#[derive(Copy, Clone, Debug, PartialEq, Eq, Structural)]
pub struct SyncTally {
    pub total: usize,
    pub synced: usize,
    pub failed: usize,
}

/// The closing line of a batch:
/// `"{synced}/{total} item(s) synced."`, with `" ({failed} failure(s))"`
/// before the full stop when something failed.
pub open spec fn spec_sync_summary(t: SyncTally) -> Seq<char> {
    decimal(t.synced as nat) + "/"@ + decimal(t.total as nat) + " item(s) synced"@ + (if t.failed
        > 0 {
        " ("@ + decimal(t.failed as nat) + " failure(s))"@
    } else {
        Seq::empty()
    }) + "."@
}

impl SyncTally {
    /// Every item is counted at most once.
    pub open spec fn wf(self) -> bool {
        self.synced + self.failed <= self.total
    }

    /// A batch of `total` items, none done yet.
    pub fn new(total: usize) -> (r: SyncTally)
        ensures
            r == (SyncTally { total, synced: 0, failed: 0 }),
            r.wf(),
    {
        SyncTally { total, synced: 0, failed: 0 }
    }

    /// Records the outcome of the next item; returns whether the batch
    /// goes on: a failure stops a strict batch.
    pub fn record(&mut self, ok: bool, strict: bool) -> (go_on: bool)
        requires
            old(self).synced + old(self).failed < old(self).total,
        ensures
            final(self).total == old(self).total,
            final(self).synced == old(self).synced + (if ok {
                1int
            } else {
                0int
            }),
            final(self).failed == old(self).failed + (if ok {
                0int
            } else {
                1int
            }),
            final(self).wf(),
            go_on == (ok || !strict),
    {
        if ok {
            self.synced = self.synced + 1;
        } else {
            self.failed = self.failed + 1;
        }
        ok || !strict
    }

    /// Whether nothing failed.
    pub fn all_ok(&self) -> (r: bool)
        ensures
            r == (self.failed == 0),
    {
        self.failed == 0
    }

    /// The exit code of the batch: success when nothing failed, the
    /// no-acknowledgement code otherwise.
    pub fn exit_code(&self) -> (r: i32)
        ensures
            r == (if self.failed > 0 {
                SYNC_NO_ACK
            } else {
                OK
            }),
    {
        if self.failed > 0 {
            SYNC_NO_ACK
        } else {
            OK
        }
    }

    /// The closing line of the batch (see [`spec_sync_summary`]).
    pub fn summary(&self) -> (r: String)
        ensures
            r@ == spec_sync_summary(*self),
    {
        let mut out = String::new();
        push_decimal(&mut out, self.synced);
        out.append("/");
        push_decimal(&mut out, self.total);
        out.append(" item(s) synced");
        if self.failed > 0 {
            out.append(" (");
            push_decimal(&mut out, self.failed);
            out.append(" failure(s))");
        }
        out.append(".");
        assert(out@ =~= spec_sync_summary(*self));
        out
    }
}

/// How long to wait for the device to acknowledge a saved preset, in
/// milliseconds.
pub const SAVE_ACK_WAIT_MS: u64 = 3000;

/// How long each wait for a reply within [`SAVE_ACK_WAIT_MS`] lasts, in
/// milliseconds.
pub const SAVE_ACK_POLL_MS: u64 = 1000;

/// How long to pause after sending controller settings, in milliseconds;
/// the firmware has no "controller saved" reply, so brief silence (or any
/// reply) counts as success.
pub const CONTROLLER_PAUSE_MS: u64 = 500;

/// How long each wait for the replies to controller settings lasts, in
/// milliseconds.
pub const CONTROLLER_DRAIN_MS: u64 = 400;

/// One item of a batch, in the order it is sent.
#[derive(Copy, Clone, Debug, PartialEq, Eq, Structural)]
pub enum SyncItem {
    /// The controller settings.
    Controller,
    /// The preset at this position of the batch's preset list.
    Preset(usize),
}

/// The order a batch is sent in: the controller settings first, when the
/// batch holds them, then the presets in their order.
pub open spec fn spec_sync_order(has_controller: bool, presets: nat) -> Seq<SyncItem> {
    (if has_controller {
        seq![SyncItem::Controller]
    } else {
        Seq::empty()
    }) + Seq::new(presets, |i: int| SyncItem::Preset(i as usize))
}

/// The order a batch is sent in (see [`spec_sync_order`]).
pub fn sync_order(has_controller: bool, presets: usize) -> (r: Vec<SyncItem>)
    ensures
        r@ == spec_sync_order(has_controller, presets as nat),
{
    let mut out: Vec<SyncItem> = Vec::new();
    if has_controller {
        out.push(SyncItem::Controller);
    }
    let ghost head = out@;
    let mut i: usize = 0;
    while i < presets
        invariant
            i <= presets,
            head == (if has_controller {
                seq![SyncItem::Controller]
            } else {
                Seq::<SyncItem>::empty()
            }),
            out@ == head + Seq::new(i as nat, |j: int| SyncItem::Preset(j as usize)),
        decreases presets - i,
    {
        out.push(SyncItem::Preset(i));
        assert(out@ =~= head + Seq::new(i as nat + 1, |j: int| SyncItem::Preset(j as usize)));
        i += 1;
    }
    out
}

/// The stage of a batch at which a file failed.
#[derive(Copy, Clone, Debug, PartialEq, Eq, Structural)]
pub enum SyncFailure {
    /// The file could not be read, parsed or validated.
    Load,
    /// The preset or settings could not be encoded.
    Encode,
}

/// The exit code a failure ends the batch with: a strict batch stops at
/// the first failure (input-file error after a load failure, encode error
/// after an encode failure); otherwise the batch goes on (`None`).
pub fn failure_exit(failure: SyncFailure, strict: bool) -> (r: Option<i32>)
    ensures
        !strict ==> r is None,
        strict ==> r == Some(
            match failure {
                SyncFailure::Load => INPUT_FILE_ERROR,
                SyncFailure::Encode => ENCODE_ERROR,
            },
        ),
{
    if !strict {
        None
    } else {
        match failure {
            SyncFailure::Load => Some(INPUT_FILE_ERROR),
            SyncFailure::Encode => Some(ENCODE_ERROR),
        }
    }
}

/// Whether a batch starts once its files are loaded: it refuses, with an
/// input-file error, when no preset and no controller settings are left,
/// saying "Nothing syncable after validation." when something failed and
/// "Nothing to sync." otherwise.
pub fn batch_refusal(had_error: bool, presets_loaded: usize, controller_ready: bool) -> (r: Option<(i32, &'static str)>)
    ensures
        presets_loaded > 0 || controller_ready ==> r is None,
        presets_loaded == 0 && !controller_ready && had_error ==> (r matches Some((code, msg))
            && code == INPUT_FILE_ERROR && msg@ == "Nothing syncable after validation."@),
        presets_loaded == 0 && !controller_ready && !had_error ==> (r matches Some((code, msg))
            && code == INPUT_FILE_ERROR && msg@ == "Nothing to sync."@),
{
    if presets_loaded > 0 || controller_ready {
        None
    } else if had_error {
        Some((INPUT_FILE_ERROR, "Nothing syncable after validation."))
    } else {
        Some((INPUT_FILE_ERROR, "Nothing to sync."))
    }
}

} // verus!
