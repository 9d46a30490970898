//! ML10X device profile and SysEx header layout.
//!
//! Two numbering systems for the 14 physical connectors are at play in the
//! protocol:
//!
//! - "value" (0..13) indexes the controller-data name segments:
//!   A Tip=0, A Ring=1, ..., E Ring=9, Input Tip=10, Input Ring=11,
//!   Output Tip=12, Output Ring=13.
//! - "groupNumber" (0..13) uses a different order and appears in preset
//!   connection records (segment id + data bytes).
use vstd::prelude::*;

pub mod segment_id;

verus! {

pub const MANUFACTURER_ID: [u8; 3] = [0x00, 0x21, 0x24];

pub const MODEL_BYTE: u8 = 0x07;

pub const NUM_BANKS: u8 = 4;

pub const PRESETS_PER_BANK: u8 = 128;

pub const NUM_LOOPS: u8 = 10;

pub const HEADER_LENGTH: usize = 16;

pub const SEGMENT_LEAD_IN: u8 = 0x7F;

/// Sentinel byte in a connection record's data[1] meaning "this connector
/// has no outgoing link in this preset's chain".
pub const UNROUTED: u8 = 0x7F;

/// Byte positions inside the 16-byte SysEx header.
#[derive(Copy, Clone, Debug, Eq, PartialEq, Structural)]
pub enum HeaderPos {
    SysexStart,
    ManfId1,
    ManfId2,
    ManfId3,
    ModelId,
    VersionId1,
    FunctionId1,
    FunctionId2,
    FunctionId3,
    FunctionId4,
    FunctionId5,
    FunctionId6,
    FunctionId7,
    FunctionId8,
    /// Outbound: always zero. Inbound: packed length field,
    /// `length = ((byte14 & 0x3F) << 7) | byte15`; bit 6 of byte 14 is a flag.
    LengthMsb,
    LengthLsb,
    ArrayStart,
}

impl HeaderPos {
    /// The byte offset of this field, in declaration order 0..=16.
    pub open spec fn spec_idx(self) -> usize {
        match self {
            HeaderPos::SysexStart => 0,
            HeaderPos::ManfId1 => 1,
            HeaderPos::ManfId2 => 2,
            HeaderPos::ManfId3 => 3,
            HeaderPos::ModelId => 4,
            HeaderPos::VersionId1 => 5,
            HeaderPos::FunctionId1 => 6,
            HeaderPos::FunctionId2 => 7,
            HeaderPos::FunctionId3 => 8,
            HeaderPos::FunctionId4 => 9,
            HeaderPos::FunctionId5 => 10,
            HeaderPos::FunctionId6 => 11,
            HeaderPos::FunctionId7 => 12,
            HeaderPos::FunctionId8 => 13,
            HeaderPos::LengthMsb => 14,
            HeaderPos::LengthLsb => 15,
            HeaderPos::ArrayStart => 16,
        }
    }

    #[verifier::when_used_as_spec(spec_idx)]
    pub fn idx(self) -> (r: usize)
        ensures
            r == self.spec_idx(),
    {
        match self {
            HeaderPos::SysexStart => 0,
            HeaderPos::ManfId1 => 1,
            HeaderPos::ManfId2 => 2,
            HeaderPos::ManfId3 => 3,
            HeaderPos::ModelId => 4,
            HeaderPos::VersionId1 => 5,
            HeaderPos::FunctionId1 => 6,
            HeaderPos::FunctionId2 => 7,
            HeaderPos::FunctionId3 => 8,
            HeaderPos::FunctionId4 => 9,
            HeaderPos::FunctionId5 => 10,
            HeaderPos::FunctionId6 => 11,
            HeaderPos::FunctionId7 => 12,
            HeaderPos::FunctionId8 => 13,
            HeaderPos::LengthMsb => 14,
            HeaderPos::LengthLsb => 15,
            HeaderPos::ArrayStart => 16,
        }
    }
}

/// Named values for FUNCTION_ID_2 (P2): the editor's outbound request opcodes.
#[derive(Copy, Clone, Debug, Eq, PartialEq, Structural)]
pub enum FunctionCode {
    Dummy,
    EngagePreset,
    EngageExp,
    RequestControllerSettingsAll,
    RequestControllerGeneralConfig,
    RequestWaveformEngine,
    RequestSequencerEngine,
    RequestScrollSlots,
    RequestMidiChannelNames,
    RequestBankArrangement,
    RequestOmniportData,
    RequestBankPresetNames,
    RequestControllerFirmwareVersion,
    RequestEventProcessor,
    RequestControllerUuid,
    ToggleLooperMode,
    RequestPresetNames,
    RequestExpressionCalibration,
    RequestResistorLadderCalibration,
    RequestMidiClockSlots,
}

impl FunctionCode {
    pub open spec fn spec_code(self) -> u8 {
        match self {
            FunctionCode::Dummy => 0,
            FunctionCode::EngagePreset => 29,
            FunctionCode::EngageExp => 30,
            FunctionCode::RequestControllerSettingsAll => 35,
            FunctionCode::RequestControllerGeneralConfig => 36,
            FunctionCode::RequestWaveformEngine => 37,
            FunctionCode::RequestSequencerEngine => 38,
            FunctionCode::RequestScrollSlots => 39,
            FunctionCode::RequestMidiChannelNames => 40,
            FunctionCode::RequestBankArrangement => 41,
            FunctionCode::RequestOmniportData => 42,
            FunctionCode::RequestBankPresetNames => 43,
            FunctionCode::RequestControllerFirmwareVersion => 44,
            FunctionCode::RequestEventProcessor => 45,
            FunctionCode::RequestControllerUuid => 46,
            FunctionCode::ToggleLooperMode => 47,
            FunctionCode::RequestPresetNames => 64,
            FunctionCode::RequestExpressionCalibration => 65,
            FunctionCode::RequestResistorLadderCalibration => 66,
            FunctionCode::RequestMidiClockSlots => 80,
        }
    }

    /// The P2 byte the editor sends for this request.
    #[verifier::when_used_as_spec(spec_code)]
    pub fn code(self) -> (r: u8)
        ensures
            r == self.spec_code(),
    {
        match self {
            FunctionCode::Dummy => 0,
            FunctionCode::EngagePreset => 29,
            FunctionCode::EngageExp => 30,
            FunctionCode::RequestControllerSettingsAll => 35,
            FunctionCode::RequestControllerGeneralConfig => 36,
            FunctionCode::RequestWaveformEngine => 37,
            FunctionCode::RequestSequencerEngine => 38,
            FunctionCode::RequestScrollSlots => 39,
            FunctionCode::RequestMidiChannelNames => 40,
            FunctionCode::RequestBankArrangement => 41,
            FunctionCode::RequestOmniportData => 42,
            FunctionCode::RequestBankPresetNames => 43,
            FunctionCode::RequestControllerFirmwareVersion => 44,
            FunctionCode::RequestEventProcessor => 45,
            FunctionCode::RequestControllerUuid => 46,
            FunctionCode::ToggleLooperMode => 47,
            FunctionCode::RequestPresetNames => 64,
            FunctionCode::RequestExpressionCalibration => 65,
            FunctionCode::RequestResistorLadderCalibration => 66,
            FunctionCode::RequestMidiClockSlots => 80,
        }
    }
}

/// Top-level classification of inbound messages by their f1 (FUNCTION_ID_1) byte.
#[derive(Copy, Clone, Debug, Eq, PartialEq, Structural)]
pub enum InboundClass {
    EditorEvent,
    Data,
    DataDump,
    DataUploadAck,
    PresetNames,
    ControllerInfo,
}

impl InboundClass {
    pub open spec fn spec_code(self) -> u8 {
        match self {
            InboundClass::EditorEvent => 1,
            InboundClass::Data => 6,
            InboundClass::DataDump => 7,
            InboundClass::DataUploadAck => 8,
            InboundClass::PresetNames => 9,
            InboundClass::ControllerInfo => 17,
        }
    }

    /// The f1 byte that identifies this class.
    #[verifier::when_used_as_spec(spec_code)]
    pub fn code(self) -> (r: u8)
        ensures
            r == self.spec_code(),
    {
        match self {
            InboundClass::EditorEvent => 1,
            InboundClass::Data => 6,
            InboundClass::DataDump => 7,
            InboundClass::DataUploadAck => 8,
            InboundClass::PresetNames => 9,
            InboundClass::ControllerInfo => 17,
        }
    }
}

/// Per-preset routing mode as it appears in the wire protocol (a header
/// field: P5 for READ, P2 for WRITE), not as a segment.
#[derive(Copy, Clone, Debug, Eq, PartialEq, Structural)]
pub enum PresetMode {
    Simple,
    Advanced,
}

impl PresetMode {
    pub open spec fn spec_code(self) -> u8 {
        match self {
            PresetMode::Simple => 0,
            PresetMode::Advanced => 1,
        }
    }

    #[verifier::when_used_as_spec(spec_code)]
    pub fn code(self) -> (r: u8)
        ensures
            r == self.spec_code(),
    {
        match self {
            PresetMode::Simple => 0,
            PresetMode::Advanced => 1,
        }
    }
}

pub const CONNECTOR_LABELS: [&'static str; 14] = [
    "A Tip",
    "A Ring",
    "B Tip",
    "B Ring",
    "C Tip",
    "C Ring",
    "D Tip",
    "D Ring",
    "E Tip",
    "E Ring",
    "Input Tip",
    "Input Ring",
    "Output Tip",
    "Output Ring",
];

pub const CONNECTOR_SLUGS: [&'static str; 14] = [
    "a_tip",
    "a_ring",
    "b_tip",
    "b_ring",
    "c_tip",
    "c_ring",
    "d_tip",
    "d_ring",
    "e_tip",
    "e_ring",
    "input_tip",
    "input_ring",
    "output_tip",
    "output_ring",
];

/// groupNumber -> value mapping (the editor's `Hw` array).
pub const GROUPNUMBER_TO_VALUE: [u8; 14] = [10, 11, 12, 13, 0, 2, 4, 6, 8, 1, 3, 5, 7, 9];

/// value -> groupNumber, the inverse of [`GROUPNUMBER_TO_VALUE`]
/// (see [`lemma_groupnumber_value_inverse`]).
pub const VALUE_TO_GROUPNUMBER: [u8; 14] = [4, 9, 5, 10, 6, 11, 7, 12, 8, 13, 0, 1, 2, 3];

/// The slug text of the connector with the given value (0..13).
pub open spec fn slug_text(value: int) -> Seq<char> {
    CONNECTOR_SLUGS@[value]@
}

/// Reveals the 14 slug texts and shows that they are pairwise distinct.
pub proof fn lemma_connector_slugs_distinct()
    ensures
        forall|i: int, j: int|
            0 <= i < 14 && 0 <= j < 14 && i != j ==> #[trigger] slug_text(i) != #[trigger] slug_text(
                j,
            ),
{
    reveal_strlit("a_tip");
    reveal_strlit("a_ring");
    reveal_strlit("b_tip");
    reveal_strlit("b_ring");
    reveal_strlit("c_tip");
    reveal_strlit("c_ring");
    reveal_strlit("d_tip");
    reveal_strlit("d_ring");
    reveal_strlit("e_tip");
    reveal_strlit("e_ring");
    reveal_strlit("input_tip");
    reveal_strlit("input_ring");
    reveal_strlit("output_tip");
    reveal_strlit("output_ring");
    assert forall|i: int, j: int|
        0 <= i < 14 && 0 <= j < 14 && i != j implies #[trigger] slug_text(i) != #[trigger] slug_text(
        j,
    ) by {
        let a = slug_text(i);
        let b = slug_text(j);
        if a == b {
            assert(a.len() == b.len());
            assert(a[0] == b[0]);
            assert(a[1] == b[1]);
            assert(a[2] == b[2]);
            assert(a.len() > 6 ==> a[6] == b[6]);
            assert(a.len() > 7 ==> a[7] == b[7]);
        }
    }
}

/// The two connector tables are mutual inverses on 0..13.
pub proof fn lemma_groupnumber_value_inverse()
    ensures
        forall|v: int|
            0 <= v < 14 ==> #[trigger] GROUPNUMBER_TO_VALUE@[VALUE_TO_GROUPNUMBER@[v] as int] == v,
        forall|gn: int|
            0 <= gn < 14 ==> #[trigger] VALUE_TO_GROUPNUMBER@[GROUPNUMBER_TO_VALUE@[gn] as int]
                == gn,
        forall|v: int| 0 <= v < 14 ==> #[trigger] VALUE_TO_GROUPNUMBER@[v] < 14,
        forall|gn: int| 0 <= gn < 14 ==> #[trigger] GROUPNUMBER_TO_VALUE@[gn] < 14,
{
}

/// Whether two strings hold the same characters.
pub(crate) fn str_eq(a: &str, b: &str) -> (r: bool)
    ensures
        r == (a@ == b@),
{
    let x = crate::text::chars_of(a);
    let y = crate::text::chars_of(b);
    if x.len() != y.len() {
        return false;
    }
    let mut i: usize = 0;
    while i < x.len()
        invariant
            i <= x@.len(),
            x@.len() == y@.len(),
            x@ == a@,
            y@ == b@,
            forall|j: int| 0 <= j < i ==> x@[j] == y@[j],
        decreases x@.len() - i,
    {
        if x[i] != y[i] {
            assert(a@[i as int] != b@[i as int]);
            return false;
        }
        i += 1;
    }
    assert(a@ =~= b@);
    true
}

/// The slug of the connector with the given groupNumber.
pub fn groupnumber_to_slug(gn: u8) -> (r: &'static str)
    requires
        gn < 14,
    ensures
        r@ == slug_text(GROUPNUMBER_TO_VALUE@[gn as int] as int),
        r == CONNECTOR_SLUGS@[GROUPNUMBER_TO_VALUE@[gn as int] as int],
{
    proof {
        lemma_groupnumber_value_inverse();
    }
    CONNECTOR_SLUGS[GROUPNUMBER_TO_VALUE[gn as usize] as usize]
}

/// The groupNumber of the connector whose slug is `slug`, if there is one.
pub fn slug_to_groupnumber(slug: &str) -> (r: Option<u8>)
    ensures
        r matches Some(gn) ==> exists|v: int|
            0 <= v < 14 && slug_text(v) == slug@ && gn == VALUE_TO_GROUPNUMBER@[v],
        r is None <==> forall|v: int| 0 <= v < 14 ==> slug_text(v) != slug@,
{
    let mut i: usize = 0;
    while i < 14
        invariant
            i <= 14,
            forall|j: int| 0 <= j < i ==> slug_text(j) != slug@,
        decreases 14 - i,
    {
        if str_eq(CONNECTOR_SLUGS[i], slug) {
            assert(slug_text(i as int) == slug@);
            return Some(VALUE_TO_GROUPNUMBER[i]);
        }
        i += 1;
    }
    None
}

/// Static facts about an ML10X. A struct (rather than module constants only)
/// so callers can swap in a different profile.
#[derive(Copy, Clone, Debug, Eq, PartialEq)]
pub struct DeviceProfile {
    pub manufacturer_id: [u8; 3],
    pub model_byte: u8,
    pub num_banks: u8,
    pub presets_per_bank: u8,
    pub num_loops: u8,
}

impl DeviceProfile {
    /// Number of preset slots: banks times presets per bank.
    pub fn total_presets(&self) -> (r: u16)
        ensures
            r == self.num_banks * self.presets_per_bank,
    {
        assert(self.num_banks * self.presets_per_bank <= 255 * 255) by (nonlinear_arith)
            requires
                self.num_banks <= 255,
                self.presets_per_bank <= 255,
        ;
        (self.num_banks as u16) * (self.presets_per_bank as u16)
    }
}

/// The ML10X profile as a value.
pub open spec fn spec_ml10x() -> DeviceProfile {
    DeviceProfile {
        manufacturer_id: MANUFACTURER_ID,
        model_byte: MODEL_BYTE,
        num_banks: NUM_BANKS,
        presets_per_bank: PRESETS_PER_BANK,
        num_loops: NUM_LOOPS,
    }
}

/// The ML10X profile: manufacturer `00 21 24`, model byte 7, 4 banks of 128
/// presets, 10 loops.
#[verifier::when_used_as_spec(spec_ml10x)]
pub fn ml10x() -> (r: DeviceProfile)
    ensures
        r == spec_ml10x(),
{
    DeviceProfile {
        manufacturer_id: MANUFACTURER_ID,
        model_byte: MODEL_BYTE,
        num_banks: NUM_BANKS,
        presets_per_bank: PRESETS_PER_BANK,
        num_loops: NUM_LOOPS,
    }
}

} // verus!
