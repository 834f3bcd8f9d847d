use std::io::Write;

use tidekeeper::archive::{
    analyze_zip_entries, extract_nexus_mod_id, flat_target, is_dir_entry_name, modpack_target,
    strip_root_target, PackFolder,
};
use tidekeeper::zipfile::{analyze_zip, modpack_manifest, zip_entry_names};

fn make_zip(entries: &[(&str, &[u8])]) -> Vec<u8> {
    let mut w = zip::ZipWriter::new(std::io::Cursor::new(Vec::new()));
    let opts = zip::write::SimpleFileOptions::default()
        .compression_method(zip::CompressionMethod::Stored);
    for (name, data) in entries {
        if name.ends_with('/') {
            w.add_directory(name.trim_end_matches('/'), opts).unwrap();
        } else {
            w.start_file(*name, opts).unwrap();
            w.write_all(data).unwrap();
        }
    }
    w.finish().unwrap().into_inner()
}

fn names(v: &[&str]) -> Vec<Option<String>> {
    v.iter().map(|s| Some(s.to_string())).collect()
}

#[test]
fn nexus_id_is_first_numeric_segment() {
    assert_eq!(extract_nexus_mod_id("gravestone-waypoint-lite-1234-1-0-1700000000"), Some(1234));
    assert_eq!(extract_nexus_mod_id("BetterScanner-36-2-1-1712345678"), Some(36));
}

#[test]
fn nexus_id_absent_without_numeric_segment() {
    assert_eq!(extract_nexus_mod_id("my-cool-mod"), None);
    assert_eq!(extract_nexus_mod_id(""), None);
    assert_eq!(extract_nexus_mod_id("mod--v2"), None);
}

#[test]
fn nexus_id_too_large_is_none() {
    // The first all-digit segment does not fit a u64.
    assert_eq!(extract_nexus_mod_id("mod-99999999999999999999999-5"), None);
}

#[test]
fn law_nexus_name_gives_id_example() {
    let stem = format!("{}-{}-{}", "rich-scanner", 4821u64, "1-2-1713000000");
    assert_eq!(extract_nexus_mod_id(&stem), Some(4821));
}

#[test]
fn ue4ss_archive_is_recognised() {
    let info = analyze_zip_entries(
        &names(&["ue4ss/UE4SS.dll", "ue4ss/UE4SS-settings.ini", "dwmapi.dll"]),
        "UE4SS-36-3-0-1700000000",
    );
    assert_eq!(info.install_type, "ue4ss");
    assert_eq!(info.suggested_name, "UE4SS");
    assert!(!info.needs_name_prompt);
    assert_eq!(info.nexus_mod_id, None);
}

#[test]
fn game_relative_archive_takes_embedded_name() {
    let info = analyze_zip_entries(
        &names(&[
            "Subnautica2/",
            "Subnautica2/Binaries/Win64/ue4ss/Mods/FastTravel/Scripts/main.lua",
        ]),
        "FastTravel-77-1-0-1700000000",
    );
    assert_eq!(info.install_type, "game_relative");
    assert_eq!(info.suggested_name, "FastTravel");
    assert!(!info.needs_name_prompt);
    assert_eq!(info.nexus_mod_id, Some(77));
}

#[test]
fn logicmods_archive_takes_pak_stem() {
    let info = analyze_zip_entries(
        &names(&["LogicMods/Farm_P.pak", "LogicMods/Farm_P.ucas", "LogicMods/Farm_P.utoc"]),
        "farm",
    );
    assert_eq!(info.install_type, "pak");
    assert_eq!(info.suggested_name, "Farm_P");
    assert!(!info.needs_name_prompt);
    assert_eq!(info.nexus_mod_id, None);
}

#[test]
fn pak_archive_takes_root_folder() {
    let info = analyze_zip_entries(&names(&["AxumMetalFarm/Axum.pak", "AxumMetalFarm/Axum.utoc"]), "x");
    assert_eq!(info.install_type, "pak");
    assert_eq!(info.suggested_name, "AxumMetalFarm");
    assert!(!info.needs_name_prompt);
}

#[test]
fn script_archive_takes_root_folder() {
    let info = analyze_zip_entries(&names(&["BetterHud/Scripts/main.lua", "BetterHud/enabled.txt"]), "bh");
    assert_eq!(info.install_type, "script");
    assert_eq!(info.suggested_name, "BetterHud");
    assert!(!info.needs_name_prompt);
}

#[test]
fn empty_archive_prompts_for_name() {
    let info = analyze_zip_entries(&Vec::new(), "something-12-1");
    assert_eq!(info.install_type, "script");
    assert_eq!(info.suggested_name, "something-12-1");
    assert!(info.needs_name_prompt);
    assert_eq!(info.nexus_mod_id, Some(12));
}

#[test]
fn unreadable_entries_are_skipped() {
    let entries = vec![None, Some("Cool/Scripts/main.lua".to_string())];
    let info = analyze_zip_entries(&entries, "cool");
    assert_eq!(info.suggested_name, "Cool");
    assert_eq!(info.install_type, "script");
}

#[test]
fn analyze_zip_reads_real_archive() {
    let data = make_zip(&[("MyMod/", b""), ("MyMod/Scripts/main.lua", b"print('hi')")]);
    let names = zip_entry_names(&data).unwrap();
    assert_eq!(names, vec![Some("MyMod/".to_string()), Some("MyMod/Scripts/main.lua".to_string())]);
    let info = analyze_zip(&data, "MyMod-5-1").unwrap();
    assert_eq!(info.install_type, "script");
    assert_eq!(info.suggested_name, "MyMod");
    assert_eq!(info.nexus_mod_id, Some(5));
}

#[test]
fn analyze_zip_rejects_garbage() {
    assert!(analyze_zip(b"this is not a zip file", "x").is_err());
    assert!(zip_entry_names(b"").is_err());
}

#[test]
fn flat_target_keeps_path_and_rejects_parent() {
    assert_eq!(flat_target("ue4ss/UE4SS.dll"), Some("ue4ss/UE4SS.dll".to_string()));
    assert_eq!(flat_target("../evil.dll"), None);
    assert_eq!(flat_target("a/../../b"), None);
}

#[test]
fn strip_root_target_drops_first_component() {
    assert_eq!(strip_root_target("MyMod/Scripts/main.lua"), Some("Scripts/main.lua".to_string()));
    assert_eq!(strip_root_target("MyMod/"), None);
    assert_eq!(strip_root_target("MyMod/../../x"), None);
    assert_eq!(strip_root_target("MyMod\\Scripts\\main.lua"), Some("Scripts/main.lua".to_string()));
}

#[test]
fn law_strip_root_stays_inside_example() {
    // No target ever climbs out of the destination folder.
    for name in ["a/b/c", "a/./b", "x/..", "../a/b", "a//b"] {
        if let Some(t) = strip_root_target(name) {
            assert!(!t.split('/').any(|c| c == ".."));
            assert!(!t.starts_with('/'));
        }
    }
}

#[test]
fn dir_entries_end_with_slash() {
    assert!(is_dir_entry_name("MyMod/"));
    assert!(!is_dir_entry_name("MyMod/main.lua"));
    assert!(!is_dir_entry_name(""));
}

#[test]
fn modpack_targets_split_by_folder() {
    match modpack_target("pak/Farm/Farm.pak") {
        Some((PackFolder::Pak, rel)) => assert_eq!(rel, "Farm/Farm.pak"),
        _ => panic!("expected a pak target"),
    }
    match modpack_target("script/Hud/Scripts/main.lua") {
        Some((PackFolder::Script, rel)) => assert_eq!(rel, "Hud/Scripts/main.lua"),
        _ => panic!("expected a script target"),
    }
    assert!(modpack_target("modpack.json").is_none());
    assert!(modpack_target("other/x/y").is_none());
    assert!(modpack_target("pak").is_none());
    assert!(modpack_target("pak/../x").is_none());
}

#[test]
fn modpack_manifest_is_read() {
    let data = make_zip(&[("modpack.json", b"{\"app\":\"tidekeeper\"}"), ("pak/A/a.pak", b"x")]);
    assert_eq!(modpack_manifest(&data).unwrap(), b"{\"app\":\"tidekeeper\"}".to_vec());
}

#[test]
fn modpack_manifest_missing() {
    let data = make_zip(&[("pak/A/a.pak", b"x")]);
    assert_eq!(
        modpack_manifest(&data).unwrap_err(),
        "Not a Tidekeeper mod pack (modpack.json not found)"
    );
    assert!(modpack_manifest(b"nope").is_err());
}

#[test]
fn leading_dot_and_root_count_as_first_component() {
    assert_eq!(strip_root_target("./a/b"), Some("a/b".to_string()));
    assert_eq!(strip_root_target("/a/b"), Some("a/b".to_string()));
    assert_eq!(strip_root_target("./a"), Some("a".to_string()));
    assert_eq!(strip_root_target("./"), None);
    assert!(modpack_target("/pak/x").is_none());
    assert!(modpack_target("./pak/x").is_none());
    let info = analyze_zip_entries(&names(&["./Subnautica2/Binaries/Win64/main.lua"]), "x");
    assert_eq!(info.install_type, "script");
    assert_eq!(info.suggested_name, ".");
    let info = analyze_zip_entries(&names(&["./Subnautica2/Content/Paks/LogicMods/a.pak"]), "x");
    assert_eq!(info.install_type, "pak");
}

#[test]
fn drive_prefix_counts_as_first_component() {
    assert_eq!(strip_root_target("C:/a/b"), Some("/a/b".to_string()));
    assert_eq!(strip_root_target("C:a/b"), Some("a/b".to_string()));
    assert_eq!(strip_root_target("C:./a"), Some("./a".to_string()));
    assert_eq!(strip_root_target("top/C:x/b"), Some("C:x/b".to_string()));
    assert_eq!(strip_root_target("C:"), None);
    assert!(modpack_target("C:/pak/x").is_none());
    assert!(modpack_target("C:pak/x").is_none());
}
