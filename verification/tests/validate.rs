use ml10x::presets::{Connection, ConnectorSlug, Preset, PresetBody, SimpleHop, Spillover, SpilloverTarget};
use ml10x::validate::{
    filter_blocking, format_path, report_from_issues, validate_preset_semantics, Issue, Severity,
};

fn good_preset() -> Preset {
    Preset {
        bank: 1,
        number: 0,
        name: "OK".into(),
        spillover: Spillover::default(),
        body: PresetBody::Simple {
            chain: vec![
                SimpleHop {
                    from_connector: ConnectorSlug::InputTip,
                    to_connector: ConnectorSlug::ATip,
                    bypass: false,
                },
                SimpleHop {
                    from_connector: ConnectorSlug::ATip,
                    to_connector: ConnectorSlug::OutputTip,
                    bypass: false,
                },
            ],
        },
    }
}

fn simple_preset(chain: Vec<SimpleHop>) -> Preset {
    Preset {
        bank: 0,
        number: 0,
        name: "T".into(),
        spillover: Spillover::default(),
        body: PresetBody::Simple { chain },
    }
}

fn advanced_preset(connections: Vec<Connection>, spillover: Spillover) -> Preset {
    Preset {
        bank: 0,
        number: 0,
        name: "T".into(),
        spillover,
        body: PresetBody::Advanced { connections },
    }
}

#[test]
fn semantics_accepts_good_preset() {
    let issues = validate_preset_semantics(&good_preset());
    assert!(filter_blocking(&issues).is_empty(), "issues: {issues:?}");
}

#[test]
fn semantics_outputs_cannot_be_from() {
    let p = simple_preset(vec![SimpleHop {
        from_connector: ConnectorSlug::OutputTip,
        to_connector: ConnectorSlug::ATip,
        bypass: false,
    }]);
    let issues = validate_preset_semantics(&p);
    assert!(issues.iter().any(|i| i.message.contains("cannot be a chain SOURCE")));
}

#[test]
fn semantics_inputs_cannot_be_to() {
    let p = simple_preset(vec![SimpleHop {
        from_connector: ConnectorSlug::ATip,
        to_connector: ConnectorSlug::InputTip,
        bypass: false,
    }]);
    let issues = validate_preset_semantics(&p);
    assert!(issues.iter().any(|i| i.message.contains("cannot be a chain DESTINATION")));
}

#[test]
fn semantics_rejects_self_loops() {
    let p = simple_preset(vec![SimpleHop {
        from_connector: ConnectorSlug::ATip,
        to_connector: ConnectorSlug::ATip,
        bypass: false,
    }]);
    let issues = validate_preset_semantics(&p);
    assert!(issues.iter().any(|i| i.message.contains("loops back on itself")));
}

#[test]
fn semantics_advanced_spillover_warns() {
    let p = advanced_preset(
        vec![],
        Spillover { output_tip: SpilloverTarget::DTip, output_ring: SpilloverTarget::Nothing },
    );
    let issues = validate_preset_semantics(&p);
    assert!(issues
        .iter()
        .any(|i| i.message.contains("do not persist spillover") && i.severity == Severity::Warning));
}

#[test]
fn semantics_no_input_output_path_warns() {
    let p = simple_preset(vec![SimpleHop {
        from_connector: ConnectorSlug::ATip,
        to_connector: ConnectorSlug::BTip,
        bypass: false,
    }]);
    let issues = validate_preset_semantics(&p);
    assert!(issues.iter().any(|i| i.message.contains("no path from an input")));
}

#[test]
fn semantics_simple_mode_rejects_branching() {
    let p = simple_preset(vec![
        SimpleHop {
            from_connector: ConnectorSlug::InputTip,
            to_connector: ConnectorSlug::OutputTip,
            bypass: false,
        },
        SimpleHop {
            from_connector: ConnectorSlug::InputTip,
            to_connector: ConnectorSlug::OutputRing,
            bypass: false,
        },
    ]);
    let issues = validate_preset_semantics(&p);
    assert!(issues.iter().any(|i| i.message.contains("branch the signal")));
    assert!(issues.iter().any(|i| i.severity == Severity::Error));
}

#[test]
fn semantics_advanced_mode_allows_branching() {
    let p = advanced_preset(
        vec![
            Connection {
                from_connector: ConnectorSlug::InputTip,
                to_connector: ConnectorSlug::OutputTip,
            },
            Connection {
                from_connector: ConnectorSlug::InputTip,
                to_connector: ConnectorSlug::OutputRing,
            },
        ],
        Spillover::default(),
    );
    let issues = validate_preset_semantics(&p);
    assert!(filter_blocking(&issues).is_empty(), "issues: {issues:?}");
}

#[test]
fn semantics_duplicate_hop_warns() {
    let p = advanced_preset(
        vec![
            Connection { from_connector: ConnectorSlug::InputTip, to_connector: ConnectorSlug::ATip },
            Connection { from_connector: ConnectorSlug::InputTip, to_connector: ConnectorSlug::ATip },
            Connection { from_connector: ConnectorSlug::ATip, to_connector: ConnectorSlug::OutputTip },
        ],
        Spillover::default(),
    );
    let issues = validate_preset_semantics(&p);
    assert!(issues.iter().any(|i| i.message.contains("duplicate hop")));
}

// ---- further cases ----

#[test]
fn messages_and_paths_are_exact() {
    let p = simple_preset(vec![
        SimpleHop { from_connector: ConnectorSlug::InputTip, to_connector: ConnectorSlug::ATip, bypass: false },
        SimpleHop { from_connector: ConnectorSlug::OutputRing, to_connector: ConnectorSlug::InputRing, bypass: false },
    ]);
    let issues = validate_preset_semantics(&p);
    assert_eq!(issues[0].path, "preset.body.chain[1].from_connector");
    assert_eq!(
        issues[0].message,
        "\"output_ring\" is an output endpoint and cannot be a chain SOURCE. Signal flows TO outputs, never FROM them."
    );
    assert_eq!(issues[1].path, "preset.body.chain[1].to_connector");
    assert_eq!(issues[2].path, "preset.body.chain");
    assert_eq!(issues[2].severity, Severity::Warning);
    assert_eq!(issues.len(), 3);
}

#[test]
fn merge_count_is_reported_in_slug_order() {
    let p = simple_preset(vec![
        SimpleHop { from_connector: ConnectorSlug::InputTip, to_connector: ConnectorSlug::OutputTip, bypass: false },
        SimpleHop { from_connector: ConnectorSlug::ATip, to_connector: ConnectorSlug::OutputTip, bypass: false },
        SimpleHop { from_connector: ConnectorSlug::BTip, to_connector: ConnectorSlug::OutputTip, bypass: false },
        SimpleHop { from_connector: ConnectorSlug::ARing, to_connector: ConnectorSlug::BRing, bypass: false },
        SimpleHop { from_connector: ConnectorSlug::ATip, to_connector: ConnectorSlug::BRing, bypass: false },
    ]);
    let issues = validate_preset_semantics(&p);
    let blocking: Vec<String> = filter_blocking(&issues).iter().map(|i| i.message.clone()).collect();
    assert_eq!(
        blocking,
        vec![
            "Simple mode: \"a_tip\" appears 2 times as a `from_connector`, which would branch the signal. Switch to Advanced (`body.mode: advanced`) to allow branching.".to_string(),
            "Simple mode: \"b_ring\" appears 2 times as a `to_connector`, which would merge multiple signals. Switch to Advanced (`body.mode: advanced`) to allow merging.".to_string(),
            "Simple mode: \"output_tip\" appears 3 times as a `to_connector`, which would merge multiple signals. Switch to Advanced (`body.mode: advanced`) to allow merging.".to_string(),
        ]
    );
}

#[test]
fn report_splits_by_severity() {
    let issues = vec![
        Issue { severity: Severity::Warning, path: "a".into(), message: "w".into() },
        Issue { severity: Severity::Error, path: "b".into(), message: "e".into() },
        Issue { severity: Severity::Info, path: "c".into(), message: "i".into() },
    ];
    let r = report_from_issues(issues);
    assert_eq!(r.errors.len(), 1);
    assert_eq!(r.errors[0].path, "b");
    assert_eq!(r.warnings.iter().map(|i| i.path.as_str()).collect::<Vec<_>>(), vec!["a", "c"]);
}

#[test]
fn issue_text_and_severity_names() {
    let i = Issue { severity: Severity::Error, path: "preset.name".into(), message: "too long".into() };
    assert_eq!(i.to_text(), "[error] preset.name: too long");
    assert_eq!(Severity::Warning.as_str(), "warning");
    assert_eq!(Severity::Info.as_str(), "info");
}

#[test]
fn empty_preset_has_no_issues() {
    assert!(validate_preset_semantics(&simple_preset(vec![])).is_empty());
}

#[test]
fn format_path_renders_pointer_as_dotted_path() {
    assert_eq!(
        format_path("/preset/body/chain/0/from_connector"),
        "preset.body.chain[0].from_connector"
    );
    assert_eq!(format_path("/schema_version"), "schema_version");
    assert_eq!(format_path("/0/1"), "[0][1]");
    assert_eq!(format_path("//a"), "a");
    assert_eq!(format_path("/a/+7"), "a[7]");
    assert_eq!(format_path("/a/-1"), "a.-1");
    assert_eq!(format_path("/a/99999999999999999999999"), "a.99999999999999999999999");
}

#[test]
fn format_path_root() {
    assert_eq!(format_path(""), "(root)");
    assert_eq!(format_path("/"), "(root)");
    assert_eq!(format_path("//"), "(root)");
}

fn advanced(pairs: &[(ConnectorSlug, ConnectorSlug)]) -> Preset {
    Preset {
        bank: 0,
        number: 1,
        name: "Route".into(),
        spillover: Spillover::default(),
        body: PresetBody::Advanced {
            connections: pairs
                .iter()
                .map(|&(from_connector, to_connector)| Connection { from_connector, to_connector })
                .collect(),
        },
    }
}

fn warns_no_path(p: &Preset) -> bool {
    validate_preset_semantics(p).iter().any(|i| i.message.contains("no path from an input"))
}

#[test]
fn long_path_listed_backwards_still_reaches_the_output() {
    // The hops come in reverse order, so each relaxation round adds one
    // connector of the path.
    let p = advanced(&[
        (ConnectorSlug::ETip, ConnectorSlug::OutputRing),
        (ConnectorSlug::DTip, ConnectorSlug::ETip),
        (ConnectorSlug::CTip, ConnectorSlug::DTip),
        (ConnectorSlug::BTip, ConnectorSlug::CTip),
        (ConnectorSlug::ATip, ConnectorSlug::BTip),
        (ConnectorSlug::InputRing, ConnectorSlug::ATip),
    ]);
    assert!(!warns_no_path(&p));
}

#[test]
fn path_into_a_cycle_without_output_warns() {
    let p = advanced(&[
        (ConnectorSlug::InputTip, ConnectorSlug::ATip),
        (ConnectorSlug::ATip, ConnectorSlug::BTip),
        (ConnectorSlug::BTip, ConnectorSlug::ATip),
        (ConnectorSlug::CTip, ConnectorSlug::OutputTip),
    ]);
    assert!(warns_no_path(&p));
}
