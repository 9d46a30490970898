use ml10x::diff::{diff_presets, DiffValue, HopEntry};
use ml10x::presets::{Connection, ConnectorSlug, Preset, PresetBody, SimpleHop, Spillover, SpilloverTarget};

fn base() -> Preset {
    Preset {
        bank: 0,
        number: 0,
        name: "Same".into(),
        spillover: Spillover::default(),
        body: PresetBody::Simple {
            chain: vec![SimpleHop {
                from_connector: ConnectorSlug::InputTip,
                to_connector: ConnectorSlug::OutputTip,
                bypass: false,
            }],
        },
    }
}

#[test]
fn identical_presets_have_no_differences() {
    assert!(diff_presets(&base(), &base()).is_empty());
}

#[test]
fn name_difference_surfaces() {
    let mut a = base();
    a.name = "Other".into();
    let diffs = diff_presets(&a, &base());
    assert_eq!(diffs.len(), 1);
    assert_eq!(diffs[0].field, "name");
}

#[test]
fn spillover_differences_surface_per_side() {
    let mut a = base();
    a.spillover.output_tip = SpilloverTarget::ATip;
    let diffs = diff_presets(&a, &base());
    assert_eq!(diffs.len(), 1);
    assert_eq!(diffs[0].field, "spillover.output_tip");
}

#[test]
fn mode_change_surfaces() {
    let mut a = base();
    a.body = PresetBody::Advanced {
        connections: vec![Connection {
            from_connector: ConnectorSlug::InputTip,
            to_connector: ConnectorSlug::OutputTip,
        }],
    };
    let diffs = diff_presets(&a, &base());
    let modes: Vec<&str> = diffs.iter().map(|d| d.field.as_str()).collect();
    assert!(modes.contains(&"mode"), "got: {modes:?}");
}

#[test]
fn chain_reorder_is_not_a_difference() {
    let mut reordered = base();
    if let PresetBody::Simple { chain } = &mut reordered.body {
        chain.push(SimpleHop {
            from_connector: ConnectorSlug::InputRing,
            to_connector: ConnectorSlug::OutputRing,
            bypass: false,
        });
    }
    let mut original = base();
    if let PresetBody::Simple { chain } = &mut original.body {
        chain.insert(
            0,
            SimpleHop {
                from_connector: ConnectorSlug::InputRing,
                to_connector: ConnectorSlug::OutputRing,
                bypass: false,
            },
        );
    }
    assert!(diff_presets(&reordered, &original).is_empty());
}

// ---- further cases ----

#[test]
fn hop_difference_renders_both_sides() {
    let mut a = base();
    if let PresetBody::Simple { chain } = &mut a.body {
        chain[0].bypass = true;
    }
    let diffs = diff_presets(&a, &base());
    assert_eq!(diffs.len(), 1);
    assert_eq!(diffs[0].field, "chain");
    assert_eq!(
        diffs[0].local,
        DiffValue::Hops(vec![HopEntry { from: "input_tip".into(), to: "output_tip".into(), bypass: Some(true) }])
    );
    assert_eq!(
        diffs[0].device,
        DiffValue::Hops(vec![HopEntry { from: "input_tip".into(), to: "output_tip".into(), bypass: Some(false) }])
    );
}

#[test]
fn duplicate_hops_count() {
    let mut a = base();
    if let PresetBody::Simple { chain } = &mut a.body {
        let h = chain[0];
        chain.push(h);
    }
    let diffs = diff_presets(&a, &base());
    assert_eq!(diffs.len(), 1);
    assert_eq!(diffs[0].field, "chain");
}
