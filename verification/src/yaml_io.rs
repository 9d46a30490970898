//! The YAML document shapes of presets and controller settings, and the
//! conversions between them and the in-memory model.
//!
//! The document's `bank` is 1..4 (the editor's "Bank 1".."Bank 4"); the
//! in-memory `Preset.bank` is 0..3 (the wire form). Fields are laid out so
//! the file reads top to bottom: bank, number, name, spillover, body.
//! Reading and writing the text belongs to the program around the library.
use vstd::prelude::*;

use crate::presets::{
    Connection, Connector, ConnectorSlug, Connectors, Controller, IncludeInTrails, Preset,
    PresetBody, SimpleHop, Spillover, SpilloverTarget,
};

verus! {

pub const PRESET_SCHEMA_URL: &'static str =
    "https://raw.githubusercontent.com/ragb/ml10x-access-rs/main/schemas/preset.schema.json";

pub const CONTROLLER_SCHEMA_URL: &'static str =
    "https://raw.githubusercontent.com/ragb/ml10x-access-rs/main/schemas/controller.schema.json";

/// A document that breaks the model's rules.
#[derive(Debug, Clone, PartialEq, Eq)]
pub enum YamlError {
    /// `preset.bank` must be 1..4.
    BadBank { path: String, got: u8 },
}

#[derive(Debug, Clone, Copy, PartialEq, Eq)]
pub struct SpilloverYaml {
    pub output_tip: SpilloverTarget,
    pub output_ring: SpilloverTarget,
}

#[derive(Debug, Clone, Copy, PartialEq, Eq)]
pub struct SimpleHopYaml {
    pub from_connector: ConnectorSlug,
    pub to_connector: ConnectorSlug,
    pub bypass: bool,
}

#[derive(Debug, Clone, Copy, PartialEq, Eq)]
pub struct ConnectionYaml {
    pub from_connector: ConnectorSlug,
    pub to_connector: ConnectorSlug,
}

#[derive(Debug, Clone, PartialEq, Eq)]
pub enum PresetBodyYaml {
    Simple { chain: Vec<SimpleHopYaml> },
    Advanced { connections: Vec<ConnectionYaml> },
}

/// The `preset:` section; `bank` is 1..4.
#[derive(Debug, Clone, PartialEq, Eq)]
pub struct PresetYaml {
    pub bank: u8,
    pub number: u8,
    pub name: String,
    pub spillover: SpilloverYaml,
    pub body: PresetBodyYaml,
}

#[derive(Debug, Clone, PartialEq, Eq)]
pub struct PresetDoc {
    pub preset: PresetYaml,
}

#[derive(Debug, Clone, PartialEq, Eq)]
pub struct ConnectorYaml {
    pub name: String,
    pub short_name: String,
    pub input_name: String,
    pub output_name: String,
}

#[derive(Debug, Clone, PartialEq, Eq)]
pub struct ConnectorsYaml {
    pub a_tip: ConnectorYaml,
    pub a_ring: ConnectorYaml,
    pub b_tip: ConnectorYaml,
    pub b_ring: ConnectorYaml,
    pub c_tip: ConnectorYaml,
    pub c_ring: ConnectorYaml,
    pub d_tip: ConnectorYaml,
    pub d_ring: ConnectorYaml,
    pub e_tip: ConnectorYaml,
    pub e_ring: ConnectorYaml,
    pub input_tip: ConnectorYaml,
    pub input_ring: ConnectorYaml,
    pub output_tip: ConnectorYaml,
    pub output_ring: ConnectorYaml,
}

#[derive(Debug, Clone, PartialEq, Eq)]
pub struct ControllerYaml {
    pub uuid: String,
    pub midi_channel: u8,
    pub device_id: u8,
    pub input_split: bool,
    pub loop_bypass_persistent: bool,
    pub include_in_trails: IncludeInTrails,
    pub connectors: ConnectorsYaml,
}

#[derive(Debug, Clone, PartialEq, Eq)]
pub struct ControllerDoc {
    pub controller: ControllerYaml,
}

// ---------------------------------------------------------------------------
// Presets
// ---------------------------------------------------------------------------

/// The document hops of a chain.
pub open spec fn chain_yaml(chain: Seq<SimpleHop>) -> Seq<SimpleHopYaml> {
    chain.map_values(
        |h: SimpleHop|
            SimpleHopYaml {
                from_connector: h.from_connector,
                to_connector: h.to_connector,
                bypass: h.bypass,
            },
    )
}

/// The model hops of a document chain.
pub open spec fn chain_of_yaml(chain: Seq<SimpleHopYaml>) -> Seq<SimpleHop> {
    chain.map_values(
        |h: SimpleHopYaml|
            SimpleHop {
                from_connector: h.from_connector,
                to_connector: h.to_connector,
                bypass: h.bypass,
            },
    )
}

/// The document connections of a routing graph.
pub open spec fn connections_yaml(cs: Seq<Connection>) -> Seq<ConnectionYaml> {
    cs.map_values(
        |c: Connection|
            ConnectionYaml { from_connector: c.from_connector, to_connector: c.to_connector },
    )
}

/// The model connections of document connections.
pub open spec fn connections_of_yaml(cs: Seq<ConnectionYaml>) -> Seq<Connection> {
    cs.map_values(
        |c: ConnectionYaml|
            Connection { from_connector: c.from_connector, to_connector: c.to_connector },
    )
}

/// The document of a preset: the model's fields, bank counted from 1.
pub open spec fn preset_doc_is(doc: PresetDoc, p: Preset) -> bool {
    &&& doc.preset.bank == p.bank + 1
    &&& doc.preset.number == p.number
    &&& doc.preset.name@ == p.name@
    &&& doc.preset.spillover == (SpilloverYaml {
        output_tip: p.spillover.output_tip,
        output_ring: p.spillover.output_ring,
    })
    &&& match p.body {
        PresetBody::Simple { chain } => doc.preset.body matches PresetBodyYaml::Simple {
            chain: c,
        } && c@ == chain_yaml(chain@),
        PresetBody::Advanced { connections } => doc.preset.body matches PresetBodyYaml::Advanced {
            connections: c,
        } && c@ == connections_yaml(connections@),
    }
}

fn hops_to_yaml(chain: &Vec<SimpleHop>) -> (r: Vec<SimpleHopYaml>)
    ensures
        r@ == chain_yaml(chain@),
{
    let mut out: Vec<SimpleHopYaml> = Vec::new();
    let mut k: usize = 0;
    while k < chain.len()
        invariant
            k <= chain@.len(),
            out@ == chain_yaml(chain@).take(k as int),
        decreases chain@.len() - k,
    {
        let h = chain[k];
        out.push(
            SimpleHopYaml {
                from_connector: h.from_connector,
                to_connector: h.to_connector,
                bypass: h.bypass,
            },
        );
        assert(chain_yaml(chain@).take(k as int + 1) =~= out@);
        k += 1;
    }
    assert(chain_yaml(chain@).take(chain@.len() as int) =~= chain_yaml(chain@));
    out
}

fn hops_from_yaml(chain: &Vec<SimpleHopYaml>) -> (r: Vec<SimpleHop>)
    ensures
        r@ == chain_of_yaml(chain@),
{
    let mut out: Vec<SimpleHop> = Vec::new();
    let mut k: usize = 0;
    while k < chain.len()
        invariant
            k <= chain@.len(),
            out@ == chain_of_yaml(chain@).take(k as int),
        decreases chain@.len() - k,
    {
        let h = chain[k];
        out.push(
            SimpleHop {
                from_connector: h.from_connector,
                to_connector: h.to_connector,
                bypass: h.bypass,
            },
        );
        assert(chain_of_yaml(chain@).take(k as int + 1) =~= out@);
        k += 1;
    }
    assert(chain_of_yaml(chain@).take(chain@.len() as int) =~= chain_of_yaml(chain@));
    out
}

fn connections_to_yaml(cs: &Vec<Connection>) -> (r: Vec<ConnectionYaml>)
    ensures
        r@ == connections_yaml(cs@),
{
    let mut out: Vec<ConnectionYaml> = Vec::new();
    let mut k: usize = 0;
    while k < cs.len()
        invariant
            k <= cs@.len(),
            out@ == connections_yaml(cs@).take(k as int),
        decreases cs@.len() - k,
    {
        let c = cs[k];
        out.push(ConnectionYaml { from_connector: c.from_connector, to_connector: c.to_connector });
        assert(connections_yaml(cs@).take(k as int + 1) =~= out@);
        k += 1;
    }
    assert(connections_yaml(cs@).take(cs@.len() as int) =~= connections_yaml(cs@));
    out
}

fn connections_from_yaml(cs: &Vec<ConnectionYaml>) -> (r: Vec<Connection>)
    ensures
        r@ == connections_of_yaml(cs@),
{
    let mut out: Vec<Connection> = Vec::new();
    let mut k: usize = 0;
    while k < cs.len()
        invariant
            k <= cs@.len(),
            out@ == connections_of_yaml(cs@).take(k as int),
        decreases cs@.len() - k,
    {
        let c = cs[k];
        out.push(Connection { from_connector: c.from_connector, to_connector: c.to_connector });
        assert(connections_of_yaml(cs@).take(k as int + 1) =~= out@);
        k += 1;
    }
    assert(connections_of_yaml(cs@).take(cs@.len() as int) =~= connections_of_yaml(cs@));
    out
}

/// The document of a preset (bank counted from 1).
pub fn preset_to_yaml(preset: &Preset) -> (r: PresetDoc)
    requires
        preset.bank < 255,
    ensures
        preset_doc_is(r, *preset),
{
    let body = match &preset.body {
        PresetBody::Simple { chain } => PresetBodyYaml::Simple { chain: hops_to_yaml(chain) },
        PresetBody::Advanced { connections } => PresetBodyYaml::Advanced {
            connections: connections_to_yaml(connections),
        },
    };
    PresetDoc {
        preset: PresetYaml {
            bank: preset.bank + 1,
            number: preset.number,
            name: preset.name.clone(),
            spillover: SpilloverYaml {
                output_tip: preset.spillover.output_tip,
                output_ring: preset.spillover.output_ring,
            },
            body,
        },
    }
}

/// The preset a document stands for, when its bank is 1..4 (`BadBank`
/// otherwise, naming `source_for_errs`).
pub open spec fn preset_of_doc_is(p: Preset, doc: PresetDoc) -> bool {
    &&& p.bank == doc.preset.bank - 1
    &&& p.number == doc.preset.number
    &&& p.name@ == doc.preset.name@
    &&& p.spillover == (Spillover {
        output_tip: doc.preset.spillover.output_tip,
        output_ring: doc.preset.spillover.output_ring,
    })
    &&& match doc.preset.body {
        PresetBodyYaml::Simple { chain } => p.body matches PresetBody::Simple { chain: c } && c@
            == chain_of_yaml(chain@),
        PresetBodyYaml::Advanced { connections } => p.body matches PresetBody::Advanced {
            connections: c,
        } && c@ == connections_of_yaml(connections@),
    }
}

/// The preset a document stands for; its bank must be 1..4.
pub fn yaml_to_preset(doc: PresetDoc, source_for_errs: &str) -> (r: Result<Preset, YamlError>)
    ensures
        1 <= doc.preset.bank <= 4 ==> (r matches Ok(p) && preset_of_doc_is(p, doc)),
        !(1 <= doc.preset.bank <= 4) ==> (r matches Err(YamlError::BadBank { path, got }) && path@
            == source_for_errs@ && got == doc.preset.bank),
{
    if !(1 <= doc.preset.bank && doc.preset.bank <= 4) {
        return Err(
            YamlError::BadBank { path: String::from_str(source_for_errs), got: doc.preset.bank },
        );
    }
    let body = match &doc.preset.body {
        PresetBodyYaml::Simple { chain } => PresetBody::Simple { chain: hops_from_yaml(chain) },
        PresetBodyYaml::Advanced { connections } => PresetBody::Advanced {
            connections: connections_from_yaml(connections),
        },
    };
    Ok(
        Preset {
            bank: doc.preset.bank - 1,
            number: doc.preset.number,
            name: doc.preset.name,
            spillover: Spillover {
                output_tip: doc.preset.spillover.output_tip,
                output_ring: doc.preset.spillover.output_ring,
            },
            body,
        },
    )
}

// ---------------------------------------------------------------------------
// Controller settings
// ---------------------------------------------------------------------------

/// A connector's names in a document.
pub open spec fn connector_yaml_is(y: ConnectorYaml, c: Connector) -> bool {
    &&& y.name@ == c.name@
    &&& y.short_name@ == c.short_name@
    &&& y.input_name@ == c.input_name@
    &&& y.output_name@ == c.output_name@
}

/// The document entry at value position `i` (0..13).
pub open spec fn connector_yaml_at(c: ConnectorsYaml, i: int) -> ConnectorYaml {
    if i == 0 {
        c.a_tip
    } else if i == 1 {
        c.a_ring
    } else if i == 2 {
        c.b_tip
    } else if i == 3 {
        c.b_ring
    } else if i == 4 {
        c.c_tip
    } else if i == 5 {
        c.c_ring
    } else if i == 6 {
        c.d_tip
    } else if i == 7 {
        c.d_ring
    } else if i == 8 {
        c.e_tip
    } else if i == 9 {
        c.e_ring
    } else if i == 10 {
        c.input_tip
    } else if i == 11 {
        c.input_ring
    } else if i == 12 {
        c.output_tip
    } else {
        c.output_ring
    }
}

/// A controller's settings in a document: the same values field by field.
pub open spec fn controller_doc_is(doc: ControllerDoc, c: Controller) -> bool {
    &&& doc.controller.uuid@ == c.uuid@
    &&& doc.controller.midi_channel == c.midi_channel
    &&& doc.controller.device_id == c.device_id
    &&& doc.controller.input_split == c.input_split
    &&& doc.controller.loop_bypass_persistent == c.loop_bypass_persistent
    &&& doc.controller.include_in_trails == c.include_in_trails
    &&& forall|i: int|
        0 <= i < 14 ==> connector_yaml_is(
            #[trigger] connector_yaml_at(doc.controller.connectors, i),
            crate::presets::connector_at(c.connectors, i),
        )
}

fn connector_to_yaml(c: &Connector) -> (r: ConnectorYaml)
    ensures
        connector_yaml_is(r, *c),
{
    ConnectorYaml {
        name: c.name.clone(),
        short_name: c.short_name.clone(),
        input_name: c.input_name.clone(),
        output_name: c.output_name.clone(),
    }
}

fn connector_from_yaml(c: &ConnectorYaml) -> (r: Connector)
    ensures
        connector_yaml_is(*c, r),
{
    Connector {
        name: c.name.clone(),
        short_name: c.short_name.clone(),
        input_name: c.input_name.clone(),
        output_name: c.output_name.clone(),
    }
}

/// The document of a controller's settings.
pub fn controller_to_yaml(controller: &Controller) -> (r: ControllerDoc)
    ensures
        controller_doc_is(r, *controller),
{
    let c = &controller.connectors;
    ControllerDoc {
        controller: ControllerYaml {
            uuid: controller.uuid.clone(),
            midi_channel: controller.midi_channel,
            device_id: controller.device_id,
            input_split: controller.input_split,
            loop_bypass_persistent: controller.loop_bypass_persistent,
            include_in_trails: controller.include_in_trails,
            connectors: ConnectorsYaml {
                a_tip: connector_to_yaml(&c.a_tip),
                a_ring: connector_to_yaml(&c.a_ring),
                b_tip: connector_to_yaml(&c.b_tip),
                b_ring: connector_to_yaml(&c.b_ring),
                c_tip: connector_to_yaml(&c.c_tip),
                c_ring: connector_to_yaml(&c.c_ring),
                d_tip: connector_to_yaml(&c.d_tip),
                d_ring: connector_to_yaml(&c.d_ring),
                e_tip: connector_to_yaml(&c.e_tip),
                e_ring: connector_to_yaml(&c.e_ring),
                input_tip: connector_to_yaml(&c.input_tip),
                input_ring: connector_to_yaml(&c.input_ring),
                output_tip: connector_to_yaml(&c.output_tip),
                output_ring: connector_to_yaml(&c.output_ring),
            },
        },
    }
}

/// The controller settings a document stands for.
pub fn yaml_to_controller(doc: &ControllerDoc) -> (r: Controller)
    ensures
        controller_doc_is(*doc, r),
{
    let c = &doc.controller.connectors;
    Controller {
        uuid: doc.controller.uuid.clone(),
        midi_channel: doc.controller.midi_channel,
        device_id: doc.controller.device_id,
        input_split: doc.controller.input_split,
        loop_bypass_persistent: doc.controller.loop_bypass_persistent,
        include_in_trails: doc.controller.include_in_trails,
        connectors: Connectors {
            a_tip: connector_from_yaml(&c.a_tip),
            a_ring: connector_from_yaml(&c.a_ring),
            b_tip: connector_from_yaml(&c.b_tip),
            b_ring: connector_from_yaml(&c.b_ring),
            c_tip: connector_from_yaml(&c.c_tip),
            c_ring: connector_from_yaml(&c.c_ring),
            d_tip: connector_from_yaml(&c.d_tip),
            d_ring: connector_from_yaml(&c.d_ring),
            e_tip: connector_from_yaml(&c.e_tip),
            e_ring: connector_from_yaml(&c.e_ring),
            input_tip: connector_from_yaml(&c.input_tip),
            input_ring: connector_from_yaml(&c.input_ring),
            output_tip: connector_from_yaml(&c.output_tip),
            output_ring: connector_from_yaml(&c.output_ring),
        },
    }
}

// ---------------------------------------------------------------------------
// Laws
// ---------------------------------------------------------------------------

/// Writing a preset to its document and reading it back gives the same
/// preset, field by field, for every bank 0..3.
pub proof fn lemma_preset_yaml_roundtrip(p: Preset, doc: PresetDoc, q: Preset)
    requires
        p.bank < 4,
        preset_doc_is(doc, p),
        preset_of_doc_is(q, doc),
    ensures
        q.bank == p.bank,
        q.number == p.number,
        q.name@ == p.name@,
        q.spillover == p.spillover,
        q.body.spec_mode() == p.body.spec_mode(),
        p.body matches PresetBody::Simple { chain } ==> (q.body matches PresetBody::Simple {
            chain: c,
        } && c@ == chain@),
        p.body matches PresetBody::Advanced { connections } ==> (q.body matches PresetBody::Advanced {
            connections: c,
        } && c@ == connections@),
{
    match p.body {
        PresetBody::Simple { chain } => {
            assert(chain_of_yaml(chain_yaml(chain@)) =~= chain@);
        },
        PresetBody::Advanced { connections } => {
            assert(connections_of_yaml(connections_yaml(connections@)) =~= connections@);
        },
    }
}

/// Writing controller settings to their document and reading them back
/// gives the same settings, field by field.
pub proof fn lemma_controller_yaml_roundtrip(c: Controller, doc: ControllerDoc, q: Controller)
    requires
        controller_doc_is(doc, c),
        controller_doc_is(doc, q),
    ensures
        q.uuid@ == c.uuid@,
        q.midi_channel == c.midi_channel,
        q.device_id == c.device_id,
        q.input_split == c.input_split,
        q.loop_bypass_persistent == c.loop_bypass_persistent,
        q.include_in_trails == c.include_in_trails,
        forall|i: int|
            #![trigger crate::presets::connector_at(q.connectors, i)]
            0 <= i < 14 ==> {
                let a = crate::presets::connector_at(q.connectors, i);
                let b = crate::presets::connector_at(c.connectors, i);
                &&& a.name@ == b.name@
                &&& a.short_name@ == b.short_name@
                &&& a.input_name@ == b.input_name@
                &&& a.output_name@ == b.output_name@
            },
{
    assert forall|i: int|
        #![trigger crate::presets::connector_at(q.connectors, i)]
        0 <= i < 14 implies {
        let a = crate::presets::connector_at(q.connectors, i);
        let b = crate::presets::connector_at(c.connectors, i);
        &&& a.name@ == b.name@
        &&& a.short_name@ == b.short_name@
        &&& a.input_name@ == b.input_name@
        &&& a.output_name@ == b.output_name@
    } by {
        assert(connector_yaml_is(
            connector_yaml_at(doc.controller.connectors, i),
            crate::presets::connector_at(c.connectors, i),
        ));
        assert(connector_yaml_is(
            connector_yaml_at(doc.controller.connectors, i),
            crate::presets::connector_at(q.connectors, i),
        ));
    }
}

} // verus!
