use ml10x::presets::{
    Connection, Connector, ConnectorSlug, Connectors, Controller, IncludeInTrails, Preset,
    PresetBody, SimpleHop, Spillover, SpilloverTarget,
};
use ml10x::yaml_io::{
    controller_to_yaml, preset_to_yaml, yaml_to_controller, yaml_to_preset, PresetBodyYaml,
    YamlError,
};

fn sample_preset() -> Preset {
    Preset {
        bank: 0,
        number: 0,
        name: "Base".into(),
        spillover: Spillover { output_tip: SpilloverTarget::DTip, output_ring: SpilloverTarget::Nothing },
        body: PresetBody::Simple {
            chain: vec![
                SimpleHop { from_connector: ConnectorSlug::InputTip, to_connector: ConnectorSlug::ATip, bypass: false },
                SimpleHop { from_connector: ConnectorSlug::ATip, to_connector: ConnectorSlug::OutputTip, bypass: true },
            ],
        },
    }
}

#[test]
fn preset_document_bank_is_1_indexed() {
    let doc = preset_to_yaml(&sample_preset());
    assert_eq!(doc.preset.bank, 1);
    assert!(matches!(doc.preset.body, PresetBodyYaml::Simple { .. }));
}

#[test]
fn preset_document_round_trips() {
    let p = sample_preset();
    assert_eq!(yaml_to_preset(preset_to_yaml(&p), "<test>").unwrap(), p);
    let adv = Preset {
        bank: 3,
        number: 1,
        name: "Adv".into(),
        spillover: Spillover::default(),
        body: PresetBody::Advanced {
            connections: vec![
                Connection { from_connector: ConnectorSlug::InputTip, to_connector: ConnectorSlug::OutputTip },
                Connection { from_connector: ConnectorSlug::InputTip, to_connector: ConnectorSlug::OutputRing },
            ],
        },
    };
    assert_eq!(yaml_to_preset(preset_to_yaml(&adv), "<test>").unwrap(), adv);
}

#[test]
fn preset_document_rejects_bank_out_of_range() {
    let mut doc = preset_to_yaml(&sample_preset());
    doc.preset.bank = 5;
    match yaml_to_preset(doc, "x.yaml") {
        Err(YamlError::BadBank { path, got: 5 }) => assert_eq!(path, "x.yaml"),
        other => panic!("expected BadBank, got {other:?}"),
    }
    let mut doc = preset_to_yaml(&sample_preset());
    doc.preset.bank = 0;
    assert!(matches!(yaml_to_preset(doc, "y"), Err(YamlError::BadBank { got: 0, .. })));
}

#[test]
fn controller_document_round_trips() {
    let ctrl = Controller {
        uuid: "abc".into(),
        midi_channel: 9,
        device_id: 6,
        input_split: true,
        loop_bypass_persistent: false,
        include_in_trails: IncludeInTrails { a_tip: true, e_ring: true, ..IncludeInTrails::default() },
        connectors: Connectors {
            a_tip: Connector {
                name: "Ego 76".into(),
                short_name: "76".into(),
                input_name: "guitar".into(),
                output_name: "EQ-7".into(),
            },
            ..Connectors::default()
        },
    };
    let doc = controller_to_yaml(&ctrl);
    assert_eq!(doc.controller.connectors.a_tip.name, "Ego 76");
    assert_eq!(yaml_to_controller(&doc), ctrl);
}
