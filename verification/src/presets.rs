//! In-memory model for ML10X presets and the global controller settings.
//!
//! The ML10X has no per-preset MIDI message list (that is an MC-series
//! feature), and the controller model deliberately omits the input-ring
//! alternate pin (referenced by the editor but not exposed by v1.2 firmware).
use vstd::prelude::*;

use crate::device::{
    lemma_connector_slugs_distinct, slug_text, str_eq, CONNECTOR_SLUGS,
};

verus! {

#[derive(Copy, Clone, Debug, Eq, PartialEq, Structural)]
pub enum LoopState {
    On,
    Off,
}

/// Spillover can target any of the 10 loops or either input. The two
/// outputs are not valid targets, and there is no `last_connected` option on
/// the ML10X.
#[derive(Copy, Clone, Debug, Eq, PartialEq, Hash, Structural)]
pub enum SpilloverTarget {
    Nothing,
    InputTip,
    InputRing,
    ATip,
    ARing,
    BTip,
    BRing,
    CTip,
    CRing,
    DTip,
    DRing,
    ETip,
    ERing,
}

impl Default for SpilloverTarget {
    fn default() -> (r: Self)
        ensures
            r == SpilloverTarget::Nothing,
    {
        SpilloverTarget::Nothing
    }
}

/// The slug text of a spillover target.
pub open spec fn spillover_slug_text(t: SpilloverTarget) -> Seq<char> {
    match t {
        SpilloverTarget::Nothing => "nothing"@,
        SpilloverTarget::InputTip => "input_tip"@,
        SpilloverTarget::InputRing => "input_ring"@,
        SpilloverTarget::ATip => "a_tip"@,
        SpilloverTarget::ARing => "a_ring"@,
        SpilloverTarget::BTip => "b_tip"@,
        SpilloverTarget::BRing => "b_ring"@,
        SpilloverTarget::CTip => "c_tip"@,
        SpilloverTarget::CRing => "c_ring"@,
        SpilloverTarget::DTip => "d_tip"@,
        SpilloverTarget::DRing => "d_ring"@,
        SpilloverTarget::ETip => "e_tip"@,
        SpilloverTarget::ERing => "e_ring"@,
    }
}

/// The 13 spillover targets in declaration order.
pub open spec fn spillover_target_at(i: int) -> SpilloverTarget {
    if i == 0 {
        SpilloverTarget::Nothing
    } else if i == 1 {
        SpilloverTarget::InputTip
    } else if i == 2 {
        SpilloverTarget::InputRing
    } else if i == 3 {
        SpilloverTarget::ATip
    } else if i == 4 {
        SpilloverTarget::ARing
    } else if i == 5 {
        SpilloverTarget::BTip
    } else if i == 6 {
        SpilloverTarget::BRing
    } else if i == 7 {
        SpilloverTarget::CTip
    } else if i == 8 {
        SpilloverTarget::CRing
    } else if i == 9 {
        SpilloverTarget::DTip
    } else if i == 10 {
        SpilloverTarget::DRing
    } else if i == 11 {
        SpilloverTarget::ETip
    } else {
        SpilloverTarget::ERing
    }
}

/// Distinct spillover targets have distinct slugs.
pub proof fn lemma_spillover_slugs_distinct()
    ensures
        forall|a: SpilloverTarget, b: SpilloverTarget|
            a != b ==> #[trigger] spillover_slug_text(a) != #[trigger] spillover_slug_text(b),
{
    reveal_strlit("nothing");
    reveal_strlit("input_tip");
    reveal_strlit("input_ring");
    reveal_strlit("a_tip");
    reveal_strlit("a_ring");
    reveal_strlit("b_tip");
    reveal_strlit("b_ring");
    reveal_strlit("c_tip");
    reveal_strlit("c_ring");
    reveal_strlit("d_tip");
    reveal_strlit("d_ring");
    reveal_strlit("e_tip");
    reveal_strlit("e_ring");
    assert forall|a: SpilloverTarget, b: SpilloverTarget|
        a != b implies #[trigger] spillover_slug_text(a) != #[trigger] spillover_slug_text(b) by {
        let x = spillover_slug_text(a);
        let y = spillover_slug_text(b);
        if x == y {
            assert(x.len() == y.len());
            assert(x[0] == y[0]);
            assert(x[2] == y[2]);
            assert(x.len() > 6 ==> x[6] == y[6]);
        }
    }
}

impl SpilloverTarget {
    pub fn slug(self) -> (r: &'static str)
        ensures
            r@ == spillover_slug_text(self),
    {
        match self {
            SpilloverTarget::Nothing => "nothing",
            SpilloverTarget::InputTip => "input_tip",
            SpilloverTarget::InputRing => "input_ring",
            SpilloverTarget::ATip => "a_tip",
            SpilloverTarget::ARing => "a_ring",
            SpilloverTarget::BTip => "b_tip",
            SpilloverTarget::BRing => "b_ring",
            SpilloverTarget::CTip => "c_tip",
            SpilloverTarget::CRing => "c_ring",
            SpilloverTarget::DTip => "d_tip",
            SpilloverTarget::DRing => "d_ring",
            SpilloverTarget::ETip => "e_tip",
            SpilloverTarget::ERing => "e_ring",
        }
    }

    /// The target whose slug is `slug`, if any.
    pub fn from_slug(slug: &str) -> (r: Option<Self>)
        ensures
            r matches Some(t) ==> spillover_slug_text(t) == slug@,
            r is None <==> forall|t: SpilloverTarget| spillover_slug_text(t) != slug@,
    {
        let mut i: usize = 0;
        while i < 13
            invariant
                i <= 13,
                forall|j: int| 0 <= j < i ==> spillover_slug_text(spillover_target_at(j)) != slug@,
            decreases 13 - i,
        {
            let t = Self::target_at(i);
            if str_eq(t.slug(), slug) {
                return Some(t);
            }
            i += 1;
        }
        assert forall|t: SpilloverTarget| spillover_slug_text(t) != slug@ by {
            let j: int = match t {
                SpilloverTarget::Nothing => 0,
                SpilloverTarget::InputTip => 1,
                SpilloverTarget::InputRing => 2,
                SpilloverTarget::ATip => 3,
                SpilloverTarget::ARing => 4,
                SpilloverTarget::BTip => 5,
                SpilloverTarget::BRing => 6,
                SpilloverTarget::CTip => 7,
                SpilloverTarget::CRing => 8,
                SpilloverTarget::DTip => 9,
                SpilloverTarget::DRing => 10,
                SpilloverTarget::ETip => 11,
                SpilloverTarget::ERing => 12,
            };
            assert(spillover_target_at(j) == t);
        }
        None
    }

    fn target_at(i: usize) -> (r: Self)
        requires
            i < 13,
        ensures
            r == spillover_target_at(i as int),
    {
        if i == 0 {
            SpilloverTarget::Nothing
        } else if i == 1 {
            SpilloverTarget::InputTip
        } else if i == 2 {
            SpilloverTarget::InputRing
        } else if i == 3 {
            SpilloverTarget::ATip
        } else if i == 4 {
            SpilloverTarget::ARing
        } else if i == 5 {
            SpilloverTarget::BTip
        } else if i == 6 {
            SpilloverTarget::BRing
        } else if i == 7 {
            SpilloverTarget::CTip
        } else if i == 8 {
            SpilloverTarget::CRing
        } else if i == 9 {
            SpilloverTarget::DTip
        } else if i == 10 {
            SpilloverTarget::DRing
        } else if i == 11 {
            SpilloverTarget::ETip
        } else {
            SpilloverTarget::ERing
        }
    }
}

/// `from_slug` undoes `slug` for every spillover target.
pub proof fn lemma_spillover_slug_roundtrip(t: SpilloverTarget, r: Option<SpilloverTarget>)
    requires
        r matches Some(u) ==> spillover_slug_text(u) == spillover_slug_text(t),
        r is None <==> forall|u: SpilloverTarget| spillover_slug_text(u) != spillover_slug_text(t),
    ensures
        r == Some(t),
{
    lemma_spillover_slugs_distinct();
    match r {
        Some(u) => {
            if u != t {
                assert(spillover_slug_text(u) != spillover_slug_text(t));
            }
        },
        None => {
            let same = spillover_slug_text(t);
            assert(forall|u: SpilloverTarget| #[trigger] spillover_slug_text(u) != same);
            assert(spillover_slug_text(t) == same);
            assert(false);
        },
    }
}

/// One of the 14 physical connectors on the device.
#[derive(Copy, Clone, Debug, Eq, PartialEq, Hash, Structural)]
pub enum ConnectorSlug {
    ATip,
    ARing,
    BTip,
    BRing,
    CTip,
    CRing,
    DTip,
    DRing,
    ETip,
    ERing,
    InputTip,
    InputRing,
    OutputTip,
    OutputRing,
}

/// The connector with the given value (0..13); `OutputRing` past the end.
pub open spec fn connector_of_value(v: int) -> ConnectorSlug {
    if v == 0 {
        ConnectorSlug::ATip
    } else if v == 1 {
        ConnectorSlug::ARing
    } else if v == 2 {
        ConnectorSlug::BTip
    } else if v == 3 {
        ConnectorSlug::BRing
    } else if v == 4 {
        ConnectorSlug::CTip
    } else if v == 5 {
        ConnectorSlug::CRing
    } else if v == 6 {
        ConnectorSlug::DTip
    } else if v == 7 {
        ConnectorSlug::DRing
    } else if v == 8 {
        ConnectorSlug::ETip
    } else if v == 9 {
        ConnectorSlug::ERing
    } else if v == 10 {
        ConnectorSlug::InputTip
    } else if v == 11 {
        ConnectorSlug::InputRing
    } else if v == 12 {
        ConnectorSlug::OutputTip
    } else {
        ConnectorSlug::OutputRing
    }
}

impl ConnectorSlug {
    /// Index into the editor's "value" numbering (controller-data segments).
    pub open spec fn spec_value(self) -> u8 {
        match self {
            ConnectorSlug::ATip => 0,
            ConnectorSlug::ARing => 1,
            ConnectorSlug::BTip => 2,
            ConnectorSlug::BRing => 3,
            ConnectorSlug::CTip => 4,
            ConnectorSlug::CRing => 5,
            ConnectorSlug::DTip => 6,
            ConnectorSlug::DRing => 7,
            ConnectorSlug::ETip => 8,
            ConnectorSlug::ERing => 9,
            ConnectorSlug::InputTip => 10,
            ConnectorSlug::InputRing => 11,
            ConnectorSlug::OutputTip => 12,
            ConnectorSlug::OutputRing => 13,
        }
    }

    /// The slug text of this connector.
    pub open spec fn spec_slug(self) -> Seq<char> {
        slug_text(self.spec_value() as int)
    }

    pub open spec fn spec_is_input(self) -> bool {
        self == ConnectorSlug::InputTip || self == ConnectorSlug::InputRing
    }

    pub open spec fn spec_is_output(self) -> bool {
        self == ConnectorSlug::OutputTip || self == ConnectorSlug::OutputRing
    }

    pub fn slug(self) -> (r: &'static str)
        ensures
            r@ == self.spec_slug(),
            r == CONNECTOR_SLUGS@[self.spec_value() as int],
    {
        CONNECTOR_SLUGS[self.value() as usize]
    }

    #[verifier::when_used_as_spec(spec_value)]
    pub fn value(self) -> (r: u8)
        ensures
            r == self.spec_value(),
            r < 14,
    {
        match self {
            ConnectorSlug::ATip => 0,
            ConnectorSlug::ARing => 1,
            ConnectorSlug::BTip => 2,
            ConnectorSlug::BRing => 3,
            ConnectorSlug::CTip => 4,
            ConnectorSlug::CRing => 5,
            ConnectorSlug::DTip => 6,
            ConnectorSlug::DRing => 7,
            ConnectorSlug::ETip => 8,
            ConnectorSlug::ERing => 9,
            ConnectorSlug::InputTip => 10,
            ConnectorSlug::InputRing => 11,
            ConnectorSlug::OutputTip => 12,
            ConnectorSlug::OutputRing => 13,
        }
    }

    pub fn from_value(v: u8) -> (r: Option<Self>)
        ensures
            v < 14 ==> r == Some(connector_of_value(v as int)),
            v >= 14 ==> r is None,
    {
        if v == 0 {
            Some(ConnectorSlug::ATip)
        } else if v == 1 {
            Some(ConnectorSlug::ARing)
        } else if v == 2 {
            Some(ConnectorSlug::BTip)
        } else if v == 3 {
            Some(ConnectorSlug::BRing)
        } else if v == 4 {
            Some(ConnectorSlug::CTip)
        } else if v == 5 {
            Some(ConnectorSlug::CRing)
        } else if v == 6 {
            Some(ConnectorSlug::DTip)
        } else if v == 7 {
            Some(ConnectorSlug::DRing)
        } else if v == 8 {
            Some(ConnectorSlug::ETip)
        } else if v == 9 {
            Some(ConnectorSlug::ERing)
        } else if v == 10 {
            Some(ConnectorSlug::InputTip)
        } else if v == 11 {
            Some(ConnectorSlug::InputRing)
        } else if v == 12 {
            Some(ConnectorSlug::OutputTip)
        } else if v == 13 {
            Some(ConnectorSlug::OutputRing)
        } else {
            None
        }
    }

    /// The connector whose slug is `slug`, if any.
    pub fn from_slug(slug: &str) -> (r: Option<Self>)
        ensures
            r matches Some(c) ==> c.spec_slug() == slug@,
            r is None <==> forall|v: int| 0 <= v < 14 ==> slug_text(v) != slug@,
    {
        let mut i: u8 = 0;
        while i < 14
            invariant
                i <= 14,
                forall|j: int| 0 <= j < i ==> slug_text(j) != slug@,
            decreases 14 - i,
        {
            if str_eq(CONNECTOR_SLUGS[i as usize], slug) {
                proof {
                    lemma_value_roundtrip(connector_of_value(i as int));
                    assert(slug_text(i as int) == slug@);
                }
                return Self::from_value(i);
            }
            i += 1;
        }
        None
    }

    #[verifier::when_used_as_spec(spec_is_input)]
    pub fn is_input(self) -> (r: bool)
        ensures
            r == self.spec_is_input(),
    {
        match self {
            ConnectorSlug::InputTip | ConnectorSlug::InputRing => true,
            _ => false,
        }
    }

    #[verifier::when_used_as_spec(spec_is_output)]
    pub fn is_output(self) -> (r: bool)
        ensures
            r == self.spec_is_output(),
    {
        match self {
            ConnectorSlug::OutputTip | ConnectorSlug::OutputRing => true,
            _ => false,
        }
    }
}

/// `value` and the value numbering agree: every connector is the connector
/// of its own value, and every value below 14 is the value of its connector.
pub proof fn lemma_value_roundtrip(c: ConnectorSlug)
    ensures
        connector_of_value(c.spec_value() as int) == c,
        forall|v: int| 0 <= v < 14 ==> #[trigger] connector_of_value(v).spec_value() == v,
{
}

/// `from_slug` undoes `slug` for every connector.
pub proof fn lemma_connector_slug_roundtrip(c: ConnectorSlug, r: Option<ConnectorSlug>)
    requires
        r matches Some(d) ==> d.spec_slug() == c.spec_slug(),
        r is None <==> forall|v: int| 0 <= v < 14 ==> slug_text(v) != c.spec_slug(),
    ensures
        r == Some(c),
{
    lemma_connector_slugs_distinct();
    if let Some(d) = r {
        assert(slug_text(d.spec_value() as int) == slug_text(c.spec_value() as int));
        lemma_value_roundtrip(c);
        lemma_value_roundtrip(d);
    } else {
        assert(slug_text(c.spec_value() as int) != c.spec_slug());
    }
}

/// One link in a Simple-mode preset's signal chain. Carries `bypass`
/// because Simple mode supports per-loop bypass.
#[derive(Copy, Clone, Debug, PartialEq, Eq, Structural)]
pub struct SimpleHop {
    pub from_connector: ConnectorSlug,
    pub to_connector: ConnectorSlug,
    pub bypass: bool,
}

/// One edge in an Advanced-mode preset's routing graph. No `bypass`: the
/// v1.2 firmware ignores per-loop bypass in Advanced presets.
#[derive(Copy, Clone, Debug, PartialEq, Eq, Structural)]
pub struct Connection {
    pub from_connector: ConnectorSlug,
    pub to_connector: ConnectorSlug,
}

/// Per-output spillover target for a preset.
#[derive(Copy, Clone, Debug, PartialEq, Eq, Structural)]
pub struct Spillover {
    pub output_tip: SpilloverTarget,
    pub output_ring: SpilloverTarget,
}

impl Default for Spillover {
    fn default() -> (r: Self)
        ensures
            r.output_tip == SpilloverTarget::Nothing,
            r.output_ring == SpilloverTarget::Nothing,
    {
        Spillover { output_tip: SpilloverTarget::Nothing, output_ring: SpilloverTarget::Nothing }
    }
}

/// Discriminator used in YAML (`body.mode: simple|advanced`) and in messages.
#[derive(Copy, Clone, Debug, Eq, PartialEq, Structural)]
pub enum PresetMode {
    Simple,
    Advanced,
}

/// The mode-specific shape of a preset's routing: a linear chain with
/// per-loop bypass (Simple) or an arbitrary graph (Advanced).
#[derive(Clone, Debug, PartialEq, Eq)]
pub enum PresetBody {
    Simple { chain: Vec<SimpleHop> },
    Advanced { connections: Vec<Connection> },
}

impl PresetBody {
    pub open spec fn spec_mode(&self) -> PresetMode {
        match self {
            PresetBody::Simple { .. } => PresetMode::Simple,
            PresetBody::Advanced { .. } => PresetMode::Advanced,
        }
    }

    #[verifier::when_used_as_spec(spec_mode)]
    pub fn mode(&self) -> (r: PresetMode)
        ensures
            r == self.spec_mode(),
    {
        match self {
            PresetBody::Simple { .. } => PresetMode::Simple,
            PresetBody::Advanced { .. } => PresetMode::Advanced,
        }
    }
}

impl Default for PresetBody {
    fn default() -> (r: Self)
        ensures
            r matches PresetBody::Simple { chain } && chain@.len() == 0,
    {
        PresetBody::Simple { chain: Vec::new() }
    }
}

/// One preset on the ML10X. `bank` is 0..3 (the wire form); the YAML layer
/// shows it as 1..4. `number` is 0..127 within the bank.
#[derive(Clone, Debug, PartialEq, Eq)]
pub struct Preset {
    pub bank: u8,
    pub number: u8,
    pub name: String,
    pub spillover: Spillover,
    pub body: PresetBody,
}

impl Preset {
    #[verifier::when_used_as_spec(spec_mode)]
    pub fn mode(&self) -> (r: PresetMode)
        ensures
            r == self.body.spec_mode(),
    {
        self.body.mode()
    }

    pub open spec fn spec_mode(&self) -> PresetMode {
        self.body.spec_mode()
    }
}

/// The names of one physical connector, user-editable in Controller Settings.
#[derive(Clone, Debug, PartialEq, Eq)]
pub struct Connector {
    pub name: String,
    pub short_name: String,
    pub input_name: String,
    pub output_name: String,
}

impl Default for Connector {
    fn default() -> (r: Self)
        ensures
            r.name@ == Seq::<char>::empty(),
            r.short_name@ == Seq::<char>::empty(),
            r.input_name@ == Seq::<char>::empty(),
            r.output_name@ == Seq::<char>::empty(),
    {
        Connector {
            name: String::new(),
            short_name: String::new(),
            input_name: String::new(),
            output_name: String::new(),
        }
    }
}

/// Per-loop spillover-enable flags. Only the 10 loops have toggles; the 4
/// fixed endpoints have none.
#[derive(Copy, Clone, Debug, PartialEq, Eq, Structural)]
pub struct IncludeInTrails {
    pub a_tip: bool,
    pub a_ring: bool,
    pub b_tip: bool,
    pub b_ring: bool,
    pub c_tip: bool,
    pub c_ring: bool,
    pub d_tip: bool,
    pub d_ring: bool,
    pub e_tip: bool,
    pub e_ring: bool,
}

impl Default for IncludeInTrails {
    fn default() -> (r: Self)
        ensures
            r == (IncludeInTrails {
                a_tip: false,
                a_ring: false,
                b_tip: false,
                b_ring: false,
                c_tip: false,
                c_ring: false,
                d_tip: false,
                d_ring: false,
                e_tip: false,
                e_ring: false,
            }),
    {
        IncludeInTrails {
            a_tip: false,
            a_ring: false,
            b_tip: false,
            b_ring: false,
            c_tip: false,
            c_ring: false,
            d_tip: false,
            d_ring: false,
            e_tip: false,
            e_ring: false,
        }
    }
}

/// The 14-connector name table, one entry per physical jack.
#[derive(Clone, Debug, PartialEq, Eq)]
pub struct Connectors {
    pub a_tip: Connector,
    pub a_ring: Connector,
    pub b_tip: Connector,
    pub b_ring: Connector,
    pub c_tip: Connector,
    pub c_ring: Connector,
    pub d_tip: Connector,
    pub d_ring: Connector,
    pub e_tip: Connector,
    pub e_ring: Connector,
    pub input_tip: Connector,
    pub input_ring: Connector,
    pub output_tip: Connector,
    pub output_ring: Connector,
}

/// The connector entry at the given value position (0..13).
pub open spec fn connector_at(c: Connectors, i: int) -> Connector {
    if i == 0 {
        c.a_tip
    } else if i == 1 {
        c.a_ring
    } else if i == 2 {
        c.b_tip
    } else if i == 3 {
        c.b_ring
    } else if i == 4 {
        c.c_tip
    } else if i == 5 {
        c.c_ring
    } else if i == 6 {
        c.d_tip
    } else if i == 7 {
        c.d_ring
    } else if i == 8 {
        c.e_tip
    } else if i == 9 {
        c.e_ring
    } else if i == 10 {
        c.input_tip
    } else if i == 11 {
        c.input_ring
    } else if i == 12 {
        c.output_tip
    } else {
        c.output_ring
    }
}

/// A connector entry with all four names empty.
pub open spec fn connector_is_blank(c: Connector) -> bool {
    &&& c.name@ == Seq::<char>::empty()
    &&& c.short_name@ == Seq::<char>::empty()
    &&& c.input_name@ == Seq::<char>::empty()
    &&& c.output_name@ == Seq::<char>::empty()
}

impl Default for Connectors {
    fn default() -> (r: Self)
        ensures
            forall|i: int| 0 <= i < 14 ==> connector_is_blank(#[trigger] connector_at(r, i)),
    {
        Connectors {
            a_tip: Connector::default(),
            a_ring: Connector::default(),
            b_tip: Connector::default(),
            b_ring: Connector::default(),
            c_tip: Connector::default(),
            c_ring: Connector::default(),
            d_tip: Connector::default(),
            d_ring: Connector::default(),
            e_tip: Connector::default(),
            e_ring: Connector::default(),
            input_tip: Connector::default(),
            input_ring: Connector::default(),
            output_tip: Connector::default(),
            output_ring: Connector::default(),
        }
    }
}

/// Global, device-wide settings that are not per-preset.
#[derive(Clone, Debug, PartialEq, Eq)]
pub struct Controller {
    pub uuid: String,
    pub midi_channel: u8,
    pub device_id: u8,
    pub input_split: bool,
    pub loop_bypass_persistent: bool,
    pub include_in_trails: IncludeInTrails,
    pub connectors: Connectors,
}

/// All-zero, all-empty controller settings.
pub open spec fn controller_is_blank(c: Controller) -> bool {
    &&& c.uuid@ == Seq::<char>::empty()
    &&& c.midi_channel == 0
    &&& c.device_id == 0
    &&& !c.input_split
    &&& !c.loop_bypass_persistent
    &&& c.include_in_trails == (IncludeInTrails {
        a_tip: false,
        a_ring: false,
        b_tip: false,
        b_ring: false,
        c_tip: false,
        c_ring: false,
        d_tip: false,
        d_ring: false,
        e_tip: false,
        e_ring: false,
    })
    &&& forall|i: int| 0 <= i < 14 ==> connector_is_blank(#[trigger] connector_at(c.connectors, i))
}

impl Default for Controller {
    fn default() -> (r: Self)
        ensures
            controller_is_blank(r),
    {
        Controller {
            uuid: String::new(),
            midi_channel: 0,
            device_id: 0,
            input_split: false,
            loop_bypass_persistent: false,
            include_in_trails: IncludeInTrails::default(),
            connectors: Connectors::default(),
        }
    }
}

} // verus!
