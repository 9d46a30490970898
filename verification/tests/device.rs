use ml10x::device::{
    groupnumber_to_slug, ml10x, slug_to_groupnumber, FunctionCode, InboundClass, PresetMode,
    CONNECTOR_SLUGS, GROUPNUMBER_TO_VALUE, VALUE_TO_GROUPNUMBER,
};

#[test]
fn value_to_groupnumber_is_inverse_of_groupnumber_to_value() {
    for v in 0u8..14 {
        assert_eq!(GROUPNUMBER_TO_VALUE[VALUE_TO_GROUPNUMBER[v as usize] as usize], v);
    }
    for gn in 0u8..14 {
        assert_eq!(VALUE_TO_GROUPNUMBER[GROUPNUMBER_TO_VALUE[gn as usize] as usize], gn);
    }
}

#[test]
fn slug_groupnumber_round_trip() {
    for &slug in &CONNECTOR_SLUGS {
        let gn = slug_to_groupnumber(slug).expect("known slug");
        assert_eq!(groupnumber_to_slug(gn), slug);
    }
}

#[test]
fn total_presets() {
    assert_eq!(ml10x().total_presets(), 512);
}

#[test]
fn slug_to_groupnumber_rejects_unknown() {
    assert_eq!(slug_to_groupnumber("a_tipp"), None);
    assert_eq!(slug_to_groupnumber("input_tip"), Some(0));
    assert_eq!(slug_to_groupnumber("e_ring"), Some(13));
}

#[test]
fn codes_match_the_wire_values() {
    assert_eq!(FunctionCode::EngagePreset.code(), 29);
    assert_eq!(FunctionCode::RequestPresetNames.code(), 64);
    assert_eq!(InboundClass::ControllerInfo.code(), 17);
    assert_eq!(InboundClass::Data.code(), 6);
    assert_eq!(PresetMode::Advanced.code(), 1);
}
