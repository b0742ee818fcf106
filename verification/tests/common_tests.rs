use bfme2_manager::common::{
    format_ergc, parse_options_resolution, remove_dashes, str_to_emoji_hash, to_breakable, Game,
    Installation, InstallationAttribute,
};

#[test]
fn games_and_attributes_enumerate_in_order() {
    assert_eq!(Game::all(), vec![Game::BFME2, Game::ROTWK]);
    assert_eq!(Game::BFME2.name(), "BFME2");
    assert_eq!(Game::ROTWK.name_lower(), "rotwk");
    let attrs = InstallationAttribute::all();
    assert_eq!(attrs.len(), 6);
    assert_eq!(attrs[0], InstallationAttribute::Checksum);
    assert_eq!(attrs[3].title(), "Activation Code");
}

#[test]
fn format_ergc_groups_by_four() {
    assert_eq!(format_ergc("AAAABBBBCCCCDDDDEEEE"), "AAAA-BBBB-CCCC-DDDD-EEEE");
    assert_eq!(format_ergc("AAAA-BBBBCC"), "AAAA-BBBB-CC");
    assert_eq!(format_ergc(""), "");
    assert_eq!(format_ergc("ABC"), "ABC");
}

#[test]
fn remove_dashes_strips_every_dash() {
    assert_eq!(remove_dashes("AAAA-BBBB-CCCC"), "AAAABBBBCCCC");
    assert_eq!(remove_dashes("--"), "");
}

#[test]
fn to_breakable_interleaves_zero_width_spaces() {
    assert_eq!(to_breakable("ab".to_string()), "a\u{200B}b\u{200B}");
    assert_eq!(to_breakable(String::new()), "");
}

#[test]
fn emoji_hash_matches_direct_crate_composition() {
    // The library's emoji hash is the base_emoji rendering of the MD5 digest
    // with each byte reduced modulo 255; composing the two crates directly
    // must give the same string.
    let digest = <md5::Md5 as md5::Digest>::digest(b"lan-party");
    let mapped: Vec<u8> = digest.iter().map(|b| b % 0xff).collect();
    let expected = base_emoji::to_string(&mapped);
    assert_eq!(str_to_emoji_hash("lan-party".to_string()).unwrap(), expected);
    assert_ne!(str_to_emoji_hash("lan-party".to_string()).unwrap(), "lan-party");
}

#[test]
fn defaults_point_at_the_game_directory() {
    let inst = Installation::defaults(Game::BFME2, Some("C:/media".to_string()));
    assert_eq!(inst.path, "C:\\Pgroam Files (x86)\\Electronic Arts\\BFME2");
    assert_eq!(inst.resolution, (1024, 768));
    assert_eq!(inst.install_source.as_deref(), Some("C:/media"));
    assert!(!inst.is_complete);
    assert!(!inst.in_progress);
}

#[test]
fn update_from_copies_everything_but_the_transient_flag() {
    let mut target = Installation::defaults(Game::BFME2, None);
    target.in_progress = true;
    let mut other = Installation::defaults(Game::BFME2, Some("D:/media".to_string()));
    other.checksum = "abc".to_string();
    other.is_complete = true;
    target.update_from(other);
    assert_eq!(target.checksum, "abc");
    assert!(target.is_complete);
    assert_eq!(target.install_source.as_deref(), Some("D:/media"));
    assert!(target.in_progress);
}

#[test]
fn set_resolution_parses_width_x_height() {
    let mut inst = Installation::defaults(Game::BFME2, None);
    assert!(inst.set_resolution("1920x1080".to_string()).is_ok());
    assert_eq!(inst.get_resolution(), (1920, 1080));
    assert_eq!(inst.get_resolution_string(), "1920x1080");
}

#[test]
fn unparsable_resolution_is_reported_ok_and_ignored() {
    let mut inst = Installation::defaults(Game::BFME2, None);
    assert!(inst.set_resolution("garbage".to_string()).is_ok());
    assert_eq!(inst.get_resolution(), (1024, 768));
    assert!(inst.set_resolution("12x".to_string()).is_ok());
    assert_eq!(inst.get_resolution(), (1024, 768));
}

#[test]
fn attributes_read_and_write_the_record() {
    let mut inst = Installation::defaults(Game::BFME2, None);
    inst.set_attribute(&InstallationAttribute::Checksum, "cafe".to_string()).unwrap();
    assert_eq!(inst.get_attribute(&InstallationAttribute::Checksum), "cafe");
    inst.set_attribute(&InstallationAttribute::InstallPath, "C:/x".to_string()).unwrap();
    assert_eq!(inst.get_attribute(&InstallationAttribute::InstallPath), "C:/x");
    inst.set_attribute(&InstallationAttribute::ERGC, "AAAA-BBBB-CCCC-DDDD-EEEE".to_string())
        .unwrap();
    assert_eq!(inst.ergc, "AAAABBBBCCCCDDDDEEEE");
    assert_eq!(
        inst.get_attribute(&InstallationAttribute::ERGC),
        "AAAA-BBBB-CCCC-DDDD-EEEE"
    );
    inst.set_attribute(&InstallationAttribute::Resolution, "800x600".to_string()).unwrap();
    assert_eq!(inst.get_attribute(&InstallationAttribute::Resolution), "800x600");
    inst.set_attribute(&InstallationAttribute::InstallationSource, "D:/src".to_string()).unwrap();
    assert_eq!(inst.get_attribute(&InstallationAttribute::InstallationSource), "D:/src");
}

#[test]
fn recorded_userdata_path_is_preferred() {
    let mut inst = Installation::defaults(Game::BFME2, None);
    inst.userdata_path = "C:/users/someone/AppData/Roaming/BFME2Files".to_string();
    assert_eq!(
        inst.get_userdata_path().as_deref(),
        Some("C:/users/someone/AppData/Roaming/BFME2Files")
    );
}

#[test]
fn unidentified_installation_has_no_userdata_path() {
    let inst = Installation::defaults(Game::BFME2, None);
    assert_eq!(inst.get_userdata_path(), None);
    assert_eq!(
        inst.get_attribute(&InstallationAttribute::UserdataPath),
        "<will be generated>"
    );
}

#[test]
fn full_checksum_of_base_game_is_its_own() {
    let mut inst = Installation::defaults(Game::BFME2, None);
    inst.checksum = "cafe".to_string();
    assert_eq!(inst.get_full_checksum(None).as_deref(), Some("cafe"));
}

#[test]
fn full_checksum_of_expansion_combines_both_digests() {
    // The compatibility fingerprint digests the two hex digests run
    // together: cross-checked against the md-5 crate directly.
    let mut base = Installation::defaults(Game::BFME2, None);
    base.checksum = "593616de15330c0fb2d55e55410bf994".to_string();
    let mut expansion = Installation::defaults(Game::ROTWK, None);
    expansion.checksum = "b0ab0254bd58eb87eaee3172ba49fefb".to_string();
    assert_eq!(
        expansion.get_full_checksum(Some(&base)).as_deref(),
        Some("114d608651dac228cc830c0e52c449e9")
    );
    let empty_base = Installation::defaults(Game::BFME2, None);
    assert_eq!(expansion.get_full_checksum(Some(&empty_base)), None);
    assert_eq!(expansion.get_full_checksum(None), None);
}

#[test]
fn readiness_needs_source_volume_and_full_code() {
    let mut inst = Installation::defaults(Game::BFME2, Some("C:/media".to_string()));
    inst.ergc = "AAAABBBBCCCCDDDDEEEE".to_string();
    assert!(inst.is_installation_ready(true, true));
    assert!(!inst.is_installation_ready(false, true));
    assert!(!inst.is_installation_ready(true, false));
    inst.ergc = "AAAABBBBCCCCDDDD".to_string();
    assert!(!inst.is_installation_ready(true, true));
    inst.ergc = "aaaabbbbccccddddeeee".to_string();
    assert!(!inst.is_installation_ready(true, true));
    inst.install_source = None;
    inst.ergc = "AAAABBBBCCCCDDDDEEEE".to_string();
    assert!(!inst.is_installation_ready(true, true));
}

#[test]
fn options_resolution_is_read_from_the_first_resolution_line() {
    let contents = "AudioLOD = High\r\nResolution = 1600 900\r\nOther = 1 2\r\n";
    assert_eq!(parse_options_resolution(contents), Ok((1600, 900)));
}

#[test]
fn options_without_a_resolution_line_fail() {
    assert_eq!(
        parse_options_resolution("AudioLOD = High\n"),
        Err("Could not find Resolution in options.ini!".to_string())
    );
}

#[test]
fn resolution_line_with_wrong_arity_fails() {
    assert_eq!(
        parse_options_resolution("Resolution = 1600\n"),
        Err("Error parsing options.ini".to_string())
    );
    assert_eq!(
        parse_options_resolution("Resolution = 1 2 3\n"),
        Err("Error parsing options.ini".to_string())
    );
}

#[test]
fn load_outcome_assembles_a_complete_record() {
    let inst = Installation::load_outcome(
        Game::BFME2,
        Ok("cafe".to_string()),
        Ok("C:/games/bfme2".to_string()),
        Ok("BFME2Files".to_string()),
        Ok("AAAABBBBCCCCDDDDEEEE".to_string()),
        Some("/home/player".to_string()),
        Some("Resolution = 1280 720".to_string()),
    )
    .unwrap();
    assert_eq!(inst.game, Game::BFME2);
    assert_eq!(inst.checksum, "cafe");
    assert_eq!(inst.path, "C:/games/bfme2");
    assert_eq!(inst.userdata_path, "/home/player/AppData/Roaming/BFME2Files");
    assert_eq!(inst.resolution, (1280, 720));
    assert!(inst.is_complete);
    assert!(!inst.in_progress);
    assert_eq!(inst.install_source, None);
}

#[test]
fn load_outcome_reports_missing_registry_values() {
    let err = Installation::load_outcome(
        Game::BFME2,
        Ok("cafe".to_string()),
        Err("no such key".to_string()),
        Ok("BFME2Files".to_string()),
        Ok("AAAA".to_string()),
        Some("/home/player".to_string()),
        None,
    )
    .unwrap_err();
    assert_eq!(
        err,
        "Not matching: Got (Ok(cafe), Err(no such key), Ok(BFME2Files), Ok(AAAA), )"
    );
}

#[test]
fn load_outcome_reports_unreadable_options() {
    let err = Installation::load_outcome(
        Game::BFME2,
        Ok("cafe".to_string()),
        Ok("C:/games/bfme2".to_string()),
        Ok("BFME2Files".to_string()),
        Ok("AAAA".to_string()),
        Some("/home/player".to_string()),
        None,
    )
    .unwrap_err();
    assert_eq!(
        err,
        "Couldn't open /home/player/AppData/Roaming/BFME2Files/Options.ini"
    );
}
