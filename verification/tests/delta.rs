use modpack_core::delta::{
    check_extension, check_metadata, group_paths, is_group_descriptor, new_payloads, normalize,
    output_steps, plan_delta, referenced_paths, rewrite_group, rewrite_groups, rewrite_options,
    rewrite_simple, skip_bom, DeltaError, DeltaProgress, GroupKind, HashedPaths, OutputContent,
    OutputStep, PenumbraGroup, PenumbraImcOption, PenumbraStandardOption,
    PenumbraStandardOptionSimple,
};
use modpack_core::digest::Blake3Sink;
use modpack_core::multi_writer::Sink;

fn strings(list: &[&str]) -> Vec<String> {
    list.iter().map(|s| s.to_string()).collect()
}

fn pairs(list: &[(&str, &str)]) -> Vec<(String, String)> {
    list.iter().map(|(a, b)| (a.to_string(), b.to_string())).collect()
}

fn simple(files: &[(&str, &str)]) -> PenumbraStandardOptionSimple {
    PenumbraStandardOptionSimple {
        version: Some(1),
        files: pairs(files),
        file_swaps: pairs(&[("x", "y")]),
        manipulations: vec![serde_json::Value::Bool(true)],
    }
}

fn option(name: &str, files: &[(&str, &str)]) -> PenumbraStandardOption {
    PenumbraStandardOption {
        name: name.to_string(),
        description: Some("about".to_string()),
        priority: 3,
        simple: simple(files),
    }
}

fn group(name: &str, kind: GroupKind) -> PenumbraGroup {
    PenumbraGroup {
        version: None,
        name: name.to_string(),
        description: None,
        priority: 1,
        default_settings: 2,
        kind,
    }
}

fn imc() -> GroupKind {
    GroupKind::Imc {
        identifier: serde_json::Value::Null,
        all_variants: true,
        default_entry: serde_json::Value::String("entry".to_string()),
        options: vec![PenumbraImcOption {
            name: "variant".to_string(),
            description: None,
            is_disable_sub_mod: Some(false),
            attribute_mask: Some(5),
        }],
    }
}

fn hash_of(data: &[u8]) -> String {
    let mut sink = Blake3Sink::new();
    sink.write(data).unwrap();
    sink.finish()
}

fn hashed(list: &[(&str, &str)]) -> HashedPaths {
    let mut table = HashedPaths::new(list.len());
    for (path, hash) in list {
        table.record(path.to_string(), hash.to_string());
    }
    table
}

#[test]
fn only_pmp_is_taken() {
    assert_eq!(check_extension(Some("pmp")), Ok(()));
    assert_eq!(check_extension(Some("ttmp")), Err(DeltaError::TextoolsNotSupported));
    assert_eq!(check_extension(Some("ttmp2")), Err(DeltaError::TextoolsNotSupported));
    assert_eq!(check_extension(Some("zip")), Err(DeltaError::UnknownFileType));
    assert_eq!(check_extension(Some("PMP")), Err(DeltaError::UnknownFileType));
    assert_eq!(check_extension(Some("")), Err(DeltaError::UnknownFileType));
    assert_eq!(check_extension(None), Err(DeltaError::UnknownFileType));
}

#[test]
fn missing_metadata_fails_before_anything_is_written() {
    assert_eq!(
        check_metadata(&strings(&["default_mod.json", "group_001_a.json", "files/a.tex"])),
        Err(DeltaError::MissingMeta)
    );
    assert_eq!(check_metadata(&vec![]), Err(DeltaError::MissingMeta));
    assert_eq!(
        check_metadata(&strings(&["dir/meta.json", "meta.json.bak"])),
        Err(DeltaError::MissingMeta)
    );
    assert_eq!(
        check_metadata(&strings(&["default_mod.json", "meta.json"])),
        Ok(())
    );
}

#[test]
fn byte_order_mark_is_left_out() {
    assert_eq!(skip_bom(&[0xEF, 0xBB, 0xBF, b'{', b'}']), b"{}");
    assert_eq!(skip_bom(&[0xEF, 0xBB, 0xBF]), b"");
    assert_eq!(skip_bom(b"{}"), b"{}");
    assert_eq!(skip_bom(&[0xEF, 0xBB]), &[0xEF, 0xBB]);
    assert_eq!(skip_bom(&[0xEF, 0xBB, b'x', 0xBF]), &[0xEF, 0xBB, b'x', 0xBF]);
    assert_eq!(skip_bom(&[0xBF, 0xBB, 0xEF, 1]), &[0xBF, 0xBB, 0xEF, 1]);
    assert_eq!(skip_bom(b""), b"");
    assert_eq!(
        skip_bom(&[0xEF, 0xBB, 0xBF, 0xEF, 0xBB, 0xBF]),
        &[0xEF, 0xBB, 0xBF]
    );
}

#[test]
fn group_descriptors_are_told_by_their_names() {
    assert!(is_group_descriptor("group_001_hair.json"));
    assert!(is_group_descriptor("group_.json"));
    assert!(!is_group_descriptor("group_001_hair.txt"));
    assert!(!is_group_descriptor("Group_001_hair.json"));
    assert!(!is_group_descriptor("default_mod.json"));
    assert!(!is_group_descriptor("group.json"));
    assert!(!is_group_descriptor(""));
}

#[test]
fn group_descriptors_come_in_ascending_order() {
    let names = strings(&[
        "meta.json",
        "group_010_z.json",
        "group_002_b.json",
        "files/group_001.json",
        "group_001_a.json",
        "default_mod.json",
        "group_002_b.json",
        "group_002_B.json",
    ]);
    assert_eq!(
        group_paths(&names),
        strings(&[
            "group_001_a.json",
            "group_002_B.json",
            "group_002_b.json",
            "group_002_b.json",
            "group_010_z.json",
        ])
    );
    assert!(group_paths(&strings(&["meta.json"])).is_empty());
}

#[test]
fn paths_are_brought_into_one_form() {
    assert_eq!(normalize("a\\b\\c.tex"), "a/b/c.tex");
    assert_eq!(normalize("a/b\\c"), "a/b/c");
    assert_eq!(normalize("plain"), "plain");
    assert_eq!(normalize("\\\\"), "//");
    assert_eq!(normalize(""), "");
}

#[test]
fn every_referenced_path_is_collected_once() {
    let default = simple(&[("game/a", "files\\a.tex"), ("game/b", "files/b.mdl")]);
    let groups = vec![
        group(
            "one",
            GroupKind::Single {
                options: vec![
                    option("x", &[("game/c", "files/a.tex"), ("game/d", "files/c.tex")]),
                    option("y", &[]),
                ],
            },
        ),
        group("two", imc()),
        group(
            "three",
            GroupKind::Multi { options: vec![option("z", &[("game/e", "files/b.mdl"), ("game/f", "d")])] },
        ),
    ];
    assert_eq!(
        referenced_paths(&default, &groups),
        strings(&["files/a.tex", "files/b.mdl", "files/c.tex", "d"])
    );
    assert!(referenced_paths(&simple(&[]), &vec![]).is_empty());
}

#[test]
fn hashed_paths_keep_the_first_hash_of_a_path() {
    let mut table = HashedPaths::new(3);
    assert_eq!(
        table.record("a".to_string(), "h1".to_string()),
        DeltaProgress::HashingFiles { current: 0, total: 3 }
    );
    assert_eq!(
        table.record("b".to_string(), "h2".to_string()),
        DeltaProgress::HashingFiles { current: 1, total: 3 }
    );
    assert_eq!(
        table.record("a".to_string(), "h3".to_string()),
        DeltaProgress::HashingFiles { current: 2, total: 3 }
    );
    assert_eq!(table.lookup("a"), Some(&"h1".to_string()));
    assert_eq!(table.lookup("b"), Some(&"h2".to_string()));
    assert_eq!(table.lookup("c"), None);
    assert_eq!(table.pairs(), &pairs(&[("a", "h1"), ("b", "h2")]));
}

#[test]
fn new_payloads_are_the_local_hashes_without_the_remote_ones() {
    let table = hashed(&[("a", "h1"), ("b", "h2"), ("c", "h1"), ("d", "h3"), ("e", "h4")]);
    assert_eq!(
        new_payloads(&table, &strings(&["h2", "h9", "h4"])),
        pairs(&[("h1", "a"), ("h3", "d")])
    );
    assert_eq!(
        new_payloads(&table, &vec![]),
        pairs(&[("h1", "a"), ("h2", "b"), ("h3", "d"), ("h4", "e")])
    );
    assert!(new_payloads(&table, &strings(&["h1", "h2", "h3", "h4"])).is_empty());
    assert!(new_payloads(&hashed(&[]), &strings(&["h1"])).is_empty());
}

#[test]
fn references_point_at_payloads_after_rewriting() {
    let table = hashed(&[("files/a.tex", "h1"), ("files/b.mdl", "h2")]);
    let out = rewrite_simple(
        simple(&[("game/a", "files/a.tex"), ("game/b", "files/b.mdl"), ("game/c", "files/a.tex")]),
        &table,
    )
    .unwrap();
    assert_eq!(
        out.files,
        pairs(&[("game/a", "files/h1"), ("game/b", "files/h2"), ("game/c", "files/h1")])
    );
    assert_eq!(out.version, Some(1));
    assert_eq!(out.file_swaps, pairs(&[("x", "y")]));
    assert_eq!(out.manipulations, vec![serde_json::Value::Bool(true)]);
}

#[test]
fn a_reference_without_a_hash_violates_the_invariant() {
    let table = hashed(&[("files/a.tex", "h1")]);
    assert!(matches!(
        rewrite_simple(simple(&[("game/a", "files\\b.tex")]), &table),
        Err(DeltaError::InvariantViolated)
    ));
    assert!(matches!(
        rewrite_simple(simple(&[("game/a", "files/a.tex/")]), &table),
        Err(DeltaError::InvariantViolated)
    ));
    assert!(matches!(
        rewrite_simple(simple(&[("game/a", "files/a.tex"), ("game/b", "nowhere")]), &table),
        Err(DeltaError::InvariantViolated)
    ));
    assert!(matches!(
        rewrite_options(vec![option("x", &[]), option("y", &[("g", "nowhere")])], &table),
        Err(DeltaError::InvariantViolated)
    ));
    assert!(matches!(
        rewrite_group(
            group("g", GroupKind::Multi { options: vec![option("y", &[("g", "nowhere")])] }),
            &table
        ),
        Err(DeltaError::InvariantViolated)
    ));
    assert!(matches!(
        rewrite_groups(
            vec![
                group("i", imc()),
                group("g", GroupKind::Single { options: vec![option("y", &[("g", "nowhere")])] })
            ],
            &table
        ),
        Err(DeltaError::InvariantViolated)
    ));
    assert!(rewrite_simple(simple(&[]), &hashed(&[])).unwrap().files.is_empty());
}

#[test]
fn groups_keep_all_but_their_references() {
    let table = hashed(&[("files/a.tex", "h1")]);
    let out = rewrite_groups(
        vec![
            group("one", GroupKind::Single { options: vec![option("x", &[("game/a", "files/a.tex")])] }),
            group("two", imc()),
            group("three", GroupKind::Multi { options: vec![] }),
        ],
        &table,
    )
    .unwrap();
    assert_eq!(out.len(), 3);
    assert_eq!(out[0].name, "one");
    assert_eq!(out[0].priority, 1);
    assert_eq!(out[0].default_settings, 2);
    match &out[0].kind {
        GroupKind::Single { options } => {
            assert_eq!(options.len(), 1);
            assert_eq!(options[0].name, "x");
            assert_eq!(options[0].description, Some("about".to_string()));
            assert_eq!(options[0].priority, 3);
            assert_eq!(options[0].simple.files, pairs(&[("game/a", "files/h1")]));
        }
        _ => panic!("the kind of a group changed"),
    }
    match &out[1].kind {
        GroupKind::Imc { identifier, all_variants, default_entry, options } => {
            assert_eq!(identifier, &serde_json::Value::Null);
            assert!(*all_variants);
            assert_eq!(default_entry, &serde_json::Value::String("entry".to_string()));
            assert_eq!(options.len(), 1);
            assert_eq!(options[0].name, "variant");
            assert_eq!(options[0].attribute_mask, Some(5));
            assert_eq!(options[0].is_disable_sub_mod, Some(false));
        }
        _ => panic!("the kind of a group changed"),
    }
    assert!(matches!(&out[2].kind, GroupKind::Multi { options } if options.is_empty()));
}

#[test]
fn the_files_of_a_delta_come_in_order() {
    let steps = output_steps(&pairs(&[("h1", "files/a.tex"), ("h2", "b")]), 2).unwrap();
    let expected = vec![
        OutputStep {
            name: "files/h1".to_string(),
            content: OutputContent::Payload { source: "files/a.tex".to_string() },
        },
        OutputStep {
            name: "files/h2".to_string(),
            content: OutputContent::Payload { source: "b".to_string() },
        },
        OutputStep { name: "heliosphere_delta.json".to_string(), content: OutputContent::Manifest },
        OutputStep { name: "meta.json".to_string(), content: OutputContent::Metadata },
        OutputStep { name: "default_mod.json".to_string(), content: OutputContent::DefaultMod },
        OutputStep {
            name: "group_001_group.json".to_string(),
            content: OutputContent::Group { index: 0 },
        },
        OutputStep {
            name: "group_002_group.json".to_string(),
            content: OutputContent::Group { index: 1 },
        },
    ];
    assert_eq!(steps, expected);
}

#[test]
fn group_files_are_numbered_in_three_digits_or_more() {
    let steps = output_steps(&vec![], 1000).unwrap();
    assert_eq!(steps.len(), 1003);
    assert_eq!(steps[3].name, "group_001_group.json");
    assert_eq!(steps[11].name, "group_009_group.json");
    assert_eq!(steps[12].name, "group_010_group.json");
    assert_eq!(steps[101].name, "group_099_group.json");
    assert_eq!(steps[102].name, "group_100_group.json");
    assert_eq!(steps[1001].name, "group_999_group.json");
    assert_eq!(steps[1002].name, "group_1000_group.json");
    assert_eq!(steps[1002].content, OutputContent::Group { index: 999 });
}

#[test]
fn more_steps_than_can_be_counted_are_refused() {
    assert!(matches!(
        output_steps(&vec![], usize::MAX),
        Err(DeltaError::TooManySteps)
    ));
    assert!(matches!(
        output_steps(&pairs(&[("h", "p")]), usize::MAX - 3),
        Err(DeltaError::TooManySteps)
    ));
}

#[test]
fn a_delta_holds_only_what_the_remote_side_lacks() {
    let a = hash_of(b"texture bytes");
    let b = hash_of(b"model bytes");
    assert_ne!(a, b);
    let default = simple(&[("chara/a.tex", "a.tex")]);
    let groups = vec![group(
        "extras",
        GroupKind::Single { options: vec![option("on", &[("chara/b.mdl", "b.mdl")])] },
    )];
    let paths = referenced_paths(&default, &groups);
    assert_eq!(paths, strings(&["a.tex", "b.mdl"]));
    let mut table = HashedPaths::new(paths.len());
    table.record("a.tex".to_string(), a.clone());
    table.record("b.mdl".to_string(), b.clone());
    let plan = plan_delta(default, groups, &table, &vec![a.clone()]).unwrap();
    assert_eq!(plan.payloads, vec![(b.clone(), "b.mdl".to_string())]);
    assert_eq!(plan.default.files, vec![("chara/a.tex".to_string(), format!("files/{a}"))]);
    match &plan.groups[0].kind {
        GroupKind::Single { options } => {
            assert_eq!(
                options[0].simple.files,
                vec![("chara/b.mdl".to_string(), format!("files/{b}"))]
            );
        }
        _ => panic!("the kind of a group changed"),
    }
    let names: Vec<&str> = plan.steps.iter().map(|s| s.name.as_str()).collect();
    assert_eq!(
        names,
        vec![
            format!("files/{b}").as_str(),
            "heliosphere_delta.json",
            "meta.json",
            "default_mod.json",
            "group_001_group.json",
        ]
    );
    assert_eq!(
        plan.steps[0].content,
        OutputContent::Payload { source: "b.mdl".to_string() }
    );
    assert_eq!(
        plan.progress(0),
        DeltaProgress::CreatingUpdateFile { current: 0, total: 5 }
    );
    assert_eq!(
        plan.progress(5),
        DeltaProgress::CreatingUpdateFile { current: 5, total: 5 }
    );
    for (_, target) in plan.default.files.iter() {
        let hash = target.strip_prefix("files/").unwrap();
        assert!(hash == a || plan.payloads.iter().any(|(h, _)| h == hash));
    }
}

#[test]
fn a_reference_with_backslashes_is_found_under_its_one_form() {
    let table = hashed(&[("tex/a.tex", "h1"), ("tex/sub/b.tex", "h2")]);
    let out = rewrite_simple(
        simple(&[
            ("game/a", "tex\\a.tex"),
            ("game/b", "tex/a.tex"),
            ("game/c", "tex\\sub/b.tex"),
            ("game/d", "tex\\sub\\b.tex"),
        ]),
        &table,
    )
    .unwrap();
    assert_eq!(
        out.files,
        pairs(&[
            ("game/a", "files/h1"),
            ("game/b", "files/h1"),
            ("game/c", "files/h2"),
            ("game/d", "files/h2"),
        ])
    );
    let default = simple(&[("game/a", "tex\\a.tex")]);
    let groups = vec![group(
        "g",
        GroupKind::Multi { options: vec![option("o", &[("game/b", "tex\\sub\\b.tex")])] },
    )];
    let paths = referenced_paths(&default, &groups);
    assert_eq!(paths, strings(&["tex/a.tex", "tex/sub/b.tex"]));
    let plan = plan_delta(default, groups, &table, &strings(&["h2"])).unwrap();
    assert_eq!(plan.payloads, pairs(&[("h1", "tex/a.tex")]));
    assert_eq!(plan.default.files, pairs(&[("game/a", "files/h1")]));
    match &plan.groups[0].kind {
        GroupKind::Multi { options } => {
            assert_eq!(options[0].simple.files, pairs(&[("game/b", "files/h2")]));
        }
        _ => panic!("the kind of a group changed"),
    }
}

#[test]
fn a_plan_fails_where_a_reference_has_no_hash() {
    let table = hashed(&[("a/b.tex", "h1")]);
    assert!(matches!(
        plan_delta(simple(&[("game", "a\\c.tex")]), vec![], &table, &vec![]),
        Err(DeltaError::InvariantViolated)
    ));
    assert!(matches!(
        plan_delta(simple(&[("game", "b.tex")]), vec![], &table, &vec![]),
        Err(DeltaError::InvariantViolated)
    ));
    let plan = plan_delta(simple(&[("game", "a\\b.tex")]), vec![], &table, &vec![]).unwrap();
    assert_eq!(plan.payloads, pairs(&[("h1", "a/b.tex")]));
    assert_eq!(plan.steps.len(), 4);
}
