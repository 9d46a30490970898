use ml10x::presets::{
    Connector, ConnectorSlug, Connectors, Controller, Preset, PresetBody, PresetMode, Spillover,
    SpilloverTarget,
};

#[test]
fn connector_slug_value_round_trip() {
    for v in 0u8..14 {
        let c = ConnectorSlug::from_value(v).expect("known value");
        assert_eq!(c.value(), v);
        assert_eq!(ConnectorSlug::from_slug(c.slug()), Some(c));
    }
}

#[test]
fn spillover_target_slug_round_trip() {
    let all = [
        SpilloverTarget::Nothing,
        SpilloverTarget::InputTip,
        SpilloverTarget::InputRing,
        SpilloverTarget::ATip,
        SpilloverTarget::ARing,
        SpilloverTarget::BTip,
        SpilloverTarget::BRing,
        SpilloverTarget::CTip,
        SpilloverTarget::CRing,
        SpilloverTarget::DTip,
        SpilloverTarget::DRing,
        SpilloverTarget::ETip,
        SpilloverTarget::ERing,
    ];
    for t in all {
        assert_eq!(SpilloverTarget::from_slug(t.slug()), Some(t));
    }
}

#[test]
fn preset_default_body_is_simple() {
    let p = Preset {
        bank: 1,
        number: 0,
        name: "empty".to_string(),
        spillover: Spillover::default(),
        body: PresetBody::default(),
    };
    assert_eq!(p.mode(), PresetMode::Simple);
}

#[test]
fn unknown_slugs_and_values_are_rejected() {
    assert_eq!(ConnectorSlug::from_value(14), None);
    assert_eq!(ConnectorSlug::from_slug("nothing"), None);
    assert_eq!(SpilloverTarget::from_slug("output_tip"), None);
    assert_eq!(SpilloverTarget::default(), SpilloverTarget::Nothing);
}

#[test]
fn inputs_and_outputs_are_classified() {
    assert!(ConnectorSlug::InputRing.is_input());
    assert!(!ConnectorSlug::ATip.is_input());
    assert!(ConnectorSlug::OutputTip.is_output());
    assert!(!ConnectorSlug::InputTip.is_output());
}

#[test]
fn defaults_are_blank() {
    let c = Controller::default();
    assert_eq!(c.midi_channel, 0);
    assert_eq!(c.connectors, Connectors::default());
    assert_eq!(c.connectors.e_ring, Connector::default());
    assert_eq!(Connector::default().name, "");
}
