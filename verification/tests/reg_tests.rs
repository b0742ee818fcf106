use bfme2_manager::reg::{
    bfme2_entries, registry_plan, rotwk_entries, RegEntry, RegHive, RegKeyEntries, RegValue,
    Regentries, ResolvedRegValue,
};

#[test]
fn tables_declare_one_machine_hive_with_three_keys() {
    for entries in [bfme2_entries(), rotwk_entries()] {
        assert_eq!(entries.hives.len(), 1);
        assert_eq!(entries.hives[0].hive, "HKLM");
        assert_eq!(entries.hives[0].keys.len(), 3);
    }
}

#[test]
fn base_game_installer_key_carries_the_templates() {
    let entries = bfme2_entries();
    let installer_key = &entries.hives[0].keys[0];
    assert_eq!(
        installer_key.key,
        "SOFTWARE\\WOW6432Node\\Electronic Arts\\Electronic Arts\\The Battle for Middle-earth II"
    );
    let install_path = installer_key
        .entries
        .iter()
        .find(|e| e.value_name == "InstallPath")
        .unwrap();
    match &install_path.value {
        RegValue::Template(t) => assert_eq!(t, "{{ install_path }}"),
        other => panic!("expected a template, got {:?}", other),
    }
}

#[test]
fn plan_renders_templates_against_the_installation_data() {
    // Cross-checked against handlebars directly: `{{ install_path }}`
    // renders to the given path, and literal values pass through untouched.
    let entries = bfme2_entries();
    let plan = registry_plan(
        &entries,
        "C:\\games\\bfme2",
        "C:\\games\\bfme2",
        "AAAABBBBCCCCDDDDEEEE",
        "cafe",
    )
    .unwrap();
    assert_eq!(plan.len(), 1);
    assert_eq!(plan[0].0, "HKLM");
    assert_eq!(plan[0].1.len(), 3);
    let installer_values = &plan[0].1[0].1;
    let find = |name: &str| {
        installer_values
            .iter()
            .find(|(n, _)| n == name)
            .map(|(_, v)| v)
            .unwrap()
    };
    match find("InstallPath") {
        ResolvedRegValue::Str(s) => assert_eq!(s, "C:\\games\\bfme2"),
        other => panic!("expected a string, got {:?}", other),
    }
    match find("ergc") {
        ResolvedRegValue::Str(s) => assert_eq!(s, "AAAABBBBCCCCDDDDEEEE"),
        other => panic!("expected a string, got {:?}", other),
    }
    match find("Language") {
        ResolvedRegValue::Str(s) => assert_eq!(s, "english"),
        other => panic!("expected a string, got {:?}", other),
    }
    match find("Version") {
        ResolvedRegValue::UInt(n) => assert_eq!(*n, 65536),
        other => panic!("expected a number, got {:?}", other),
    }

    // The handlebars crate called directly agrees with what the plan holds.
    let mut data = std::collections::BTreeMap::new();
    data.insert("install_path", "C:\\games\\bfme2".to_string());
    data.insert("install_path_shorthand", "C:\\games\\bfme2".to_string());
    data.insert("ergc", "AAAABBBBCCCCDDDDEEEE".to_string());
    data.insert("checksum", "cafe".to_string());
    let direct = handlebars::Handlebars::new()
        .render_template("{{ install_path }}", &data)
        .unwrap();
    match find("InstallPath") {
        ResolvedRegValue::Str(s) => assert_eq!(*s, direct),
        other => panic!("expected a string, got {:?}", other),
    }
}

#[test]
fn plan_for_the_declared_tables_is_always_produced() {
    // Every template in both tables renders, so the plan side is owed.
    for entries in [bfme2_entries(), rotwk_entries()] {
        assert!(registry_plan(&entries, "C:/g", "C:/g", "AAAA", "00").is_ok());
    }
}

#[test]
fn broken_template_fails_the_plan() {
    let entries = Regentries {
        hives: vec![RegHive {
            hive: "HKLM".to_string(),
            keys: vec![RegKeyEntries {
                key: "SOFTWARE\\Somewhere".to_string(),
                entries: vec![RegEntry {
                    value_name: "Broken".to_string(),
                    value: RegValue::Template("{{#if".to_string()),
                }],
            }],
        }],
    };
    assert!(registry_plan(&entries, "C:/g", "C:/g", "AAAA", "00").is_err());
}

