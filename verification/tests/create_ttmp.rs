use modpack_core::address::can_take_segment;
use modpack_core::create_ttmp::{
    build_manifest, dat_file, dat_file_of, fetch_target, file_info, payload_url, place,
    CreateError, Downloads, Manifest, ManifestError, ManifestMod, TtmpProgress,
    MINIMUM_FRAMEWORK_VERSION, MOD_CATEGORY, TTMP_VERSION,
};
use modpack_core::deduplicate::FileInfo;
use modpack_core::model::{Group, GroupOptionGameArchive, NeededFiles, OptionItem, SelectionType};

fn item(name: &str) -> OptionItem {
    OptionItem {
        name: name.to_string(),
        image_path: Some(format!("{name}.png")),
        description: None,
        game_paths: vec![],
    }
}

fn group(name: &str, selection_type: SelectionType, options: &[&str]) -> Group {
    Group {
        name: name.to_string(),
        selection_type,
        options: options.iter().map(|o| item(o)).collect(),
    }
}

fn usage(group: Option<&str>, option: Option<&str>, path: &str) -> GroupOptionGameArchive {
    (
        group.map(|g| g.to_string()),
        option.map(|o| o.to_string()),
        path.to_string(),
        None,
    )
}

fn listed(path: &str, dat: &str) -> ManifestMod {
    ManifestMod { full_path: path.to_string(), dat_file: dat.to_string() }
}

#[test]
fn the_fixed_texts_of_the_format() {
    assert_eq!(TTMP_VERSION, "1.3w");
    assert_eq!(MINIMUM_FRAMEWORK_VERSION, "1.3.0.0");
    assert_eq!(MOD_CATEGORY, "Mod file");
}

#[test]
fn every_category_has_its_data_file() {
    let table = [
        ("common", "000000"),
        ("bgcommon", "010000"),
        ("bg", "020000"),
        ("cut", "030000"),
        ("chara", "040000"),
        ("shader", "050000"),
        ("ui", "060000"),
        ("sound", "070000"),
        ("vfx", "080000"),
        ("ui_script", "090000"),
        ("exd", "0a0000"),
        ("game_script", "0b0000"),
        ("music", "0c0000"),
        ("sqpack_test", "120000"),
        ("debug", "130000"),
    ];
    for (category, code) in table {
        assert_eq!(dat_file(category), Some(code));
        assert_eq!(dat_file_of(&format!("{category}/some/file.dat")), code);
    }
    assert_eq!(dat_file("unknown"), None);
    assert_eq!(dat_file(""), None);
    assert_eq!(dat_file("Chara"), None);
}

#[test]
fn the_data_file_goes_by_the_first_segment() {
    assert_eq!(dat_file_of("ui/icon/000001.tex"), "060000");
    assert_eq!(dat_file_of("ui"), "060000");
    assert_eq!(dat_file_of("ui/"), "060000");
    assert_eq!(dat_file_of("/ui/icon"), "040000");
    assert_eq!(dat_file_of("unknown/ui/icon"), "040000");
    assert_eq!(dat_file_of("chara/ui"), "040000");
    assert_eq!(dat_file_of(""), "040000");
    assert_eq!(dat_file_of("bgcommon/hou/x.mdl"), "010000");
    assert_eq!(dat_file_of("bg/ffxiv/x.mdl"), "020000");
}

#[test]
fn file_info_takes_group_option_and_path() {
    assert_eq!(
        file_info(usage(Some("g"), Some("o"), "chara/a.tex")),
        FileInfo {
            group: Some("g".to_string()),
            option: Some("o".to_string()),
            game_path: "chara/a.tex".to_string(),
        }
    );
    assert_eq!(
        file_info((None, None, "p".to_string(), Some("archive".to_string()))),
        FileInfo { group: None, option: None, game_path: "p".to_string() }
    );
}

#[test]
fn files_without_a_group_are_listed_on_their_own() {
    let needed = vec![
        ("h1".to_string(), vec![usage(None, None, "chara/a.tex"), usage(None, None, "ui/b.tex")]),
        ("h2".to_string(), vec![usage(None, None, "vfx/c.avfx")]),
    ];
    let manifest = build_manifest(&vec![], &needed).unwrap();
    assert!(manifest.pages.is_empty());
    assert_eq!(
        manifest.simple_mods,
        vec![
            listed("chara/a.tex", "040000"),
            listed("ui/b.tex", "060000"),
            listed("vfx/c.avfx", "080000"),
        ]
    );
}

#[test]
fn each_group_gets_one_page_in_the_order_of_first_use() {
    let groups = vec![
        group("hair", SelectionType::Single, &["short", "long"]),
        group("eyes", SelectionType::Multi, &["blue"]),
        group("unused", SelectionType::Single, &["x"]),
    ];
    let needed = vec![
        (
            "h1".to_string(),
            vec![
                usage(Some("eyes"), Some("blue"), "chara/eye.tex"),
                usage(Some("hair"), Some("long"), "chara/hair.mdl"),
            ],
        ),
        (
            "h2".to_string(),
            vec![
                usage(Some("hair"), Some("long"), "chara/hair.tex"),
                usage(Some("hair"), Some("short"), "bg/short.mdl"),
                usage(Some("hair"), Some("absent"), "chara/lost.mdl"),
                usage(None, None, "sound/a.scd"),
            ],
        ),
    ];
    let manifest = build_manifest(&groups, &needed).unwrap();
    assert_eq!(manifest.simple_mods, vec![listed("sound/a.scd", "070000")]);
    assert_eq!(manifest.pages.len(), 2);
    let eyes = &manifest.pages[0];
    assert_eq!(eyes.group_name, "eyes");
    assert_eq!(eyes.page_index, 0);
    assert_eq!(eyes.selection_type, SelectionType::Multi);
    assert_eq!(eyes.options.len(), 1);
    assert_eq!(eyes.options[0].name, "blue");
    assert_eq!(eyes.options[0].image_path, Some("blue.png".to_string()));
    assert_eq!(eyes.options[0].description, None);
    assert_eq!(eyes.options[0].mods, vec![listed("chara/eye.tex", "040000")]);
    let hair = &manifest.pages[1];
    assert_eq!(hair.group_name, "hair");
    assert_eq!(hair.page_index, 1);
    assert_eq!(hair.selection_type, SelectionType::Single);
    assert_eq!(hair.options.len(), 2);
    assert_eq!(hair.options[0].name, "short");
    assert_eq!(hair.options[0].mods, vec![listed("bg/short.mdl", "020000")]);
    assert_eq!(hair.options[1].name, "long");
    assert_eq!(
        hair.options[1].mods,
        vec![listed("chara/hair.mdl", "040000"), listed("chara/hair.tex", "040000")]
    );
}

#[test]
fn a_file_goes_to_the_first_option_of_its_name() {
    let groups = vec![group("g", SelectionType::Single, &["twin", "twin"])];
    let needed = vec![("h".to_string(), vec![usage(Some("g"), Some("twin"), "chara/a")])];
    let manifest = build_manifest(&groups, &needed).unwrap();
    assert_eq!(manifest.pages[0].options[0].mods, vec![listed("chara/a", "040000")]);
    assert!(manifest.pages[0].options[1].mods.is_empty());
}

#[test]
fn the_later_description_of_a_group_stands() {
    let groups = vec![
        group("g", SelectionType::Single, &["old"]),
        group("g", SelectionType::Multi, &["new"]),
    ];
    let needed = vec![("h".to_string(), vec![usage(Some("g"), Some("new"), "chara/a")])];
    let manifest = build_manifest(&groups, &needed).unwrap();
    assert_eq!(manifest.pages.len(), 1);
    assert_eq!(manifest.pages[0].selection_type, SelectionType::Multi);
    assert_eq!(manifest.pages[0].options.len(), 1);
    assert_eq!(manifest.pages[0].options[0].name, "new");
    assert_eq!(manifest.pages[0].options[0].mods.len(), 1);
}

#[test]
fn a_use_must_name_group_and_option_or_neither() {
    let groups = vec![group("g", SelectionType::Single, &["o"])];
    assert_eq!(
        build_manifest(&groups, &vec![("h".to_string(), vec![usage(Some("g"), None, "a")])]),
        Err(ManifestError::HalfNamed)
    );
    assert_eq!(
        build_manifest(&groups, &vec![("h".to_string(), vec![usage(None, Some("o"), "a")])]),
        Err(ManifestError::HalfNamed)
    );
}

#[test]
fn a_use_must_name_a_described_group() {
    let groups = vec![group("g", SelectionType::Single, &["o"])];
    let needed = vec![
        ("h1".to_string(), vec![usage(Some("g"), Some("o"), "a")]),
        ("h2".to_string(), vec![usage(Some("other"), Some("o"), "b"), usage(None, None, "c")]),
    ];
    assert_eq!(build_manifest(&groups, &needed), Err(ManifestError::UnknownGroup));
    assert_eq!(
        build_manifest(&vec![], &vec![("h".to_string(), vec![usage(Some(""), Some(""), "a")])]),
        Err(ManifestError::UnknownGroup)
    );
}

#[test]
fn an_empty_manifest() {
    assert_eq!(
        build_manifest(&vec![], &vec![]),
        Ok(Manifest { pages: vec![], simple_mods: vec![] })
    );
    assert_eq!(
        build_manifest(&vec![], &vec![("h".to_string(), vec![])]),
        Ok(Manifest { pages: vec![], simple_mods: vec![] })
    );
}

#[test]
fn a_failed_use_leaves_the_manifest_alone() {
    let mut manifest = Manifest { pages: vec![], simple_mods: vec![listed("a", "040000")] };
    assert_eq!(
        place(&mut manifest, &vec![], &usage(Some("g"), Some("o"), "b")),
        Err(ManifestError::UnknownGroup)
    );
    assert_eq!(
        manifest,
        Manifest { pages: vec![], simple_mods: vec![listed("a", "040000")] }
    );
    assert_eq!(place(&mut manifest, &vec![], &usage(None, None, "exd/b")), Ok(()));
    assert_eq!(manifest.simple_mods, vec![listed("a", "040000"), listed("exd/b", "0a0000")]);
}

#[test]
fn the_hash_becomes_the_last_segment_of_the_address() {
    let needed = NeededFiles {
        base_uri: url::Url::parse("https://example.com/files/").unwrap(),
        files: vec![],
    };
    assert_eq!(
        payload_url(&needed, "abc123").unwrap().as_str(),
        "https://example.com/files/abc123"
    );
    let plain = NeededFiles {
        base_uri: url::Url::parse("https://example.com/files").unwrap(),
        files: vec![],
    };
    assert_eq!(
        payload_url(&plain, "a/b").unwrap().as_str(),
        "https://example.com/files/a%2Fb"
    );
    let root = NeededFiles { base_uri: url::Url::parse("https://example.com").unwrap(), files: vec![] };
    assert_eq!(payload_url(&root, "h").unwrap().as_str(), "https://example.com/h");
    assert_eq!(needed.base_uri.as_str(), "https://example.com/files/");
}

#[test]
fn an_address_that_cannot_be_a_base_is_refused() {
    let needed = NeededFiles {
        base_uri: url::Url::parse("mailto:someone@example.com").unwrap(),
        files: vec![],
    };
    assert_eq!(payload_url(&needed, "abc"), Err(CreateError::CannotBeABase));
    assert_eq!(fetch_target(None), Err(CreateError::CannotBeABase));
    let url = url::Url::parse("https://example.com/x").unwrap();
    assert_eq!(fetch_target(Some(url.clone())), Ok(url));
}

#[test]
fn an_address_takes_a_segment_while_it_stays_short_enough() {
    assert!(can_take_segment(0, 0));
    assert!(can_take_segment(25, 43));
    assert!(can_take_segment(4_294_967_294, 0));
    assert!(!can_take_segment(4_294_967_295, 0));
    assert!(can_take_segment(0, 1_431_655_764));
    assert!(!can_take_segment(0, 1_431_655_765));
    assert!(can_take_segment(2, 1_431_655_764));
    assert!(!can_take_segment(3, 1_431_655_764));
    assert!(can_take_segment(4_294_967_291, 1));
    assert!(!can_take_segment(4_294_967_292, 1));
    assert!(!can_take_segment(usize::MAX, 0));
    assert!(!can_take_segment(0, usize::MAX));
    assert!(!can_take_segment(usize::MAX, usize::MAX));
}

#[test]
fn downloads_are_counted_up_to_their_number() {
    let (mut downloads, start) = Downloads::new(2);
    assert_eq!(start, TtmpProgress::DownloadingFiles { current: 0, total: 2 });
    assert_eq!(
        downloads.fetched(),
        Ok(TtmpProgress::DownloadingFiles { current: 1, total: 2 })
    );
    assert_eq!(
        downloads.fetched(),
        Ok(TtmpProgress::DownloadingFiles { current: 2, total: 2 })
    );
    assert_eq!(downloads.fetched(), Err(CreateError::TooManyDownloads));
    assert_eq!(downloads.fetched(), Err(CreateError::TooManyDownloads));
    let (mut none, start) = Downloads::new(0);
    assert_eq!(start, TtmpProgress::DownloadingFiles { current: 0, total: 0 });
    assert_eq!(none.fetched(), Err(CreateError::TooManyDownloads));
}
