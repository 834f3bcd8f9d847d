use tidekeeper::model::{ModMeta, ZipInfo};
use tidekeeper::mods::{
    archive_install_meta, archive_kind, backup_missing, derive_inner_game_folder, find_7zip,
    install_plan, logic_mods_dir, matches_config, meta_path, mod_folder_name, mod_install_path,
    pak_folder_state, rollback_source, seven_zip_args, seven_zip_candidates, toggle_action,
    toggle_log_message, verify_mod, verify_targets, ArchiveKind, ExtractMode, ToggleAction,
};

const MODS: &str = "C:\\Steam\\steamapps\\common\\Subnautica2\\Subnautica2\\Binaries\\Win64\\ue4ss\\Mods";
const INNER: &str = "C:\\Steam\\steamapps\\common\\Subnautica2\\Subnautica2";

fn meta_with_backup(backup: Option<&str>) -> ModMeta {
    ModMeta {
        source: "nexus".to_string(),
        mod_id: Some(1),
        file_id: None,
        version: None,
        display_name: None,
        file_name: None,
        installed_at: 0,
        installed_files: None,
        backup_path: backup.map(|b| b.to_string()),
    }
}

#[test]
fn meta_path_is_inside_mod_folder() {
    assert_eq!(meta_path("C:\\Mods\\Hud"), "C:\\Mods\\Hud\\tidekeeper.json");
    assert_eq!(meta_path("C:\\Mods\\Hud\\"), "C:\\Mods\\Hud\\tidekeeper.json");
}

#[test]
fn inner_game_folder_is_four_levels_up() {
    assert_eq!(derive_inner_game_folder(MODS).unwrap(), INNER);
    assert_eq!(
        derive_inner_game_folder("D:\\S2\\Subnautica2\\Binaries\\Win64\\ue4ss\\Mods").unwrap(),
        "D:\\S2\\Subnautica2"
    );
}

#[test]
fn inner_game_folder_error_for_short_path() {
    let e = derive_inner_game_folder("ue4ss/Mods").unwrap_err();
    assert_eq!(e, "Cannot derive game folder from mods path \u{2014} verify your mods folder setting");
}

#[test]
fn logic_mods_folder() {
    assert_eq!(logic_mods_dir(INNER), format!("{}\\Content\\Paks\\LogicMods", INNER));
}

#[test]
fn install_paths_by_type() {
    assert_eq!(
        mod_install_path("pak", MODS, "Farm"),
        Some(format!("{}\\Content\\Paks\\LogicMods\\Farm", INNER))
    );
    assert_eq!(mod_install_path("script", MODS, "Hud"), Some(format!("{}\\Hud", MODS)));
    assert_eq!(mod_install_path("game_relative", MODS, "Hud"), Some(format!("{}\\Hud", MODS)));
    assert_eq!(mod_install_path("ue4ss", MODS, "UE4SS"), None);
    assert_eq!(mod_install_path("pak", "Mods", "Farm"), None);
}

#[test]
fn settings_extensions() {
    assert!(matches_config("C:\\m\\config.INI"));
    assert!(matches_config("settings.json"));
    assert!(matches_config("x.toml"));
    assert!(matches_config("x.cfg"));
    assert!(!matches_config("main.lua"));
    assert!(!matches_config("README"));
    assert!(!matches_config(".ini"));
}

#[test]
fn pak_folder_states() {
    assert_eq!(pak_folder_state("Farm"), ("Farm".to_string(), true));
    assert_eq!(pak_folder_state("Farm.disabled"), ("Farm".to_string(), false));
    assert_eq!(pak_folder_state("Farm.disabled.disabled"), ("Farm".to_string(), false));
}

#[test]
fn law_disable_then_read_example() {
    let (name, on) = pak_folder_state("Farm");
    assert!(on);
    let (name2, on2) = pak_folder_state(&format!("{}.disabled", name));
    assert_eq!(name2, "Farm");
    assert!(!on2);
}

#[test]
fn toggle_pak_mod_renames() {
    let lm = format!("{}\\Content\\Paks\\LogicMods", INNER);
    match toggle_action(&format!("{}\\Farm", lm), false).unwrap() {
        ToggleAction::Rename { from, to } => {
            assert_eq!(from, format!("{}\\Farm", lm));
            assert_eq!(to, format!("{}\\Farm.disabled", lm));
        }
        _ => panic!("expected a rename"),
    }
    match toggle_action(&format!("{}\\Farm.disabled", lm), true).unwrap() {
        ToggleAction::Rename { from, to } => {
            assert_eq!(from, format!("{}\\Farm.disabled", lm));
            assert_eq!(to, format!("{}\\Farm", lm));
        }
        _ => panic!("expected a rename"),
    }
}

#[test]
fn toggle_pak_mod_anywhere_by_suffix() {
    match toggle_action("C:\\x\\Thing.disabled", true).unwrap() {
        ToggleAction::Rename { from, to } => {
            assert_eq!(from, "C:\\x\\Thing.disabled");
            assert_eq!(to, "C:\\x\\Thing");
        }
        _ => panic!("expected a rename"),
    }
}

#[test]
fn toggle_script_mod_marker() {
    match toggle_action("C:\\Mods\\Hud", true).unwrap() {
        ToggleAction::WriteMarker(p) => assert_eq!(p, "C:\\Mods\\Hud\\enabled.txt"),
        _ => panic!("expected a marker write"),
    }
    match toggle_action("C:\\Mods\\Hud", false).unwrap() {
        ToggleAction::RemoveMarker(p) => assert_eq!(p, "C:\\Mods\\Hud\\enabled.txt"),
        _ => panic!("expected a marker removal"),
    }
}

#[test]
fn toggle_invalid_path() {
    assert!(matches!(toggle_action("", true), Err(e) if e == "Invalid mod path"));
    assert!(matches!(toggle_action("/", true), Err(e) if e == "Invalid mod path"));
}

#[test]
fn toggle_messages() {
    assert_eq!(toggle_log_message("C:\\LogicMods\\Farm.disabled", true), "Enabled: Farm");
    assert_eq!(toggle_log_message("C:\\Mods\\Hud", false), "Disabled: Hud");
}

#[test]
fn verify_reports_missing_files() {
    let files = vec!["Scripts/main.lua".to_string(), "tidekeeper.json".to_string(), "x.txt".to_string()];
    let targets = verify_targets("C:\\Mods\\Hud", &files);
    assert_eq!(
        targets,
        vec!["C:\\Mods\\Hud\\Scripts/main.lua", "C:\\Mods\\Hud\\tidekeeper.json", "C:\\Mods\\Hud\\x.txt"]
    );
    let r = verify_mod("C:\\Mods\\Hud".to_string(), Some(files), &vec![true, false, false]);
    assert!(!r.ok);
    assert_eq!(r.missing, vec!["x.txt".to_string()]);
    assert_eq!(r.mod_path, "C:\\Mods\\Hud");
}

#[test]
fn verify_without_list_passes() {
    let r = verify_mod("C:\\Mods\\Hud".to_string(), None, &Vec::new());
    assert!(r.ok);
    assert!(r.missing.is_empty());
}

#[test]
fn law_all_present_passes_example() {
    let files = vec!["a".to_string(), "b/c".to_string()];
    let r = verify_mod("m".to_string(), Some(files), &vec![true, true]);
    assert!(r.ok);
    assert!(r.missing.is_empty());
}

#[test]
fn install_plan_by_type() {
    let info = |t: &str, s: &str| ZipInfo {
        suggested_name: s.to_string(),
        install_type: t.to_string(),
        needs_name_prompt: false,
        nexus_mod_id: None,
    };
    let p = install_plan(&info("ue4ss", "UE4SS"), MODS, "ignored").unwrap();
    assert_eq!(p.dest, format!("{}\\Binaries\\Win64", INNER));
    assert!(matches!(p.mode, ExtractMode::Flat));
    assert!(!p.create_dest);
    assert_eq!(p.installed_name, "UE4SS");

    let p = install_plan(&info("game_relative", "Fast"), MODS, "ignored").unwrap();
    assert_eq!(p.dest, INNER);
    assert!(matches!(p.mode, ExtractMode::StripRoot));
    assert_eq!(p.installed_name, "Fast");

    let p = install_plan(&info("pak", "Farm"), MODS, "My Farm").unwrap();
    assert_eq!(p.dest, format!("{}\\Content\\Paks\\LogicMods\\My Farm", INNER));
    assert!(p.create_dest);
    assert_eq!(p.installed_name, "My Farm");

    let p = install_plan(&info("script", "Hud"), MODS, "Hud2").unwrap();
    assert_eq!(p.dest, format!("{}\\Hud2", MODS));
    assert_eq!(p.installed_name, "Hud2");

    assert!(install_plan(&info("pak", "Farm"), "Mods", "x").is_err());
}

#[test]
fn archive_kinds() {
    assert!(matches!(archive_kind("C:\\d\\mod.ZIP"), Ok(ArchiveKind::Zip)));
    assert!(matches!(archive_kind("mod.7z"), Ok(ArchiveKind::SevenZip)));
    assert!(matches!(archive_kind("mod.rar"), Ok(ArchiveKind::Rar)));
    assert!(matches!(archive_kind("mod.tar.gz"), Err(e) if e == "Unsupported format: .gz"));
    assert!(matches!(archive_kind("mod"), Err(e) if e == "Unsupported format: ."));
}

#[test]
fn install_meta_from_archive() {
    let m = archive_install_meta(Some(42), 100, vec!["a".to_string()]);
    assert_eq!(m.source, "nexus");
    assert_eq!(m.mod_id, Some(42));
    assert_eq!(m.installed_at, 100);
    let m = archive_install_meta(None, 5, vec![]);
    assert_eq!(m.source, "manual");
    assert_eq!(m.mod_id, None);
}

#[test]
fn seven_zip_command() {
    assert_eq!(
        seven_zip_args("C:/d/m.rar", "C:/tmp/tk_1"),
        vec!["x", "C:/d/m.rar", "-oC:/tmp/tk_1", "-y"]
    );
    let c = seven_zip_candidates();
    assert_eq!(find_7zip(&vec![false, true]), Some(c[1].clone()));
    assert_eq!(find_7zip(&vec![true, true]), Some("C:\\Program Files\\7-Zip\\7z.exe".to_string()));
    assert_eq!(find_7zip(&vec![false, false]), None);
}

#[test]
fn folder_name_of_mod() {
    assert_eq!(mod_folder_name("C:\\Mods\\Hud"), "Hud");
    assert_eq!(mod_folder_name(""), "");
}

#[test]
fn rollback_sources() {
    assert_eq!(rollback_source(None).unwrap_err(), "No metadata found for this mod");
    let m = meta_with_backup(None);
    assert_eq!(rollback_source(Some(&m)).unwrap_err(), "No backup available for this mod");
    let m = meta_with_backup(Some("C:\\data\\backups\\Hud_1.0"));
    assert_eq!(rollback_source(Some(&m)).unwrap(), "C:\\data\\backups\\Hud_1.0");
    assert_eq!(backup_missing(), "Backup folder no longer exists");
}

#[test]
fn toggle_round_trip_when_logic_mods_path_ends_in_separator_or_dot() {
    for lm in ["C:\\G\\LogicMods\\", "C:\\G\\logicmods\\.", "C:\\G\\LogicMods\\.\\"] {
        let (from, to) = match toggle_action(&format!("{}\\Farm", lm), false).unwrap() {
            ToggleAction::Rename { from, to } => (from, to),
            _ => panic!("expected a rename"),
        };
        let parent = if lm.contains("logicmods") { "C:\\G\\logicmods" } else { "C:\\G\\LogicMods" };
        assert_eq!(from, format!("{}\\Farm", parent));
        assert_eq!(to, format!("{}\\Farm.disabled", parent));
        match toggle_action(&to, true).unwrap() {
            ToggleAction::Rename { from: back_from, to: back_to } => {
                assert_eq!(back_from, to);
                assert_eq!(back_to, from);
            }
            _ => panic!("expected a rename"),
        }
    }
}

#[test]
fn drive_prefix_is_not_a_folder_level() {
    let e = derive_inner_game_folder("C:\\a\\b\\c").unwrap_err();
    assert_eq!(e, "Cannot derive game folder from mods path \u{2014} verify your mods folder setting");
    assert_eq!(derive_inner_game_folder("C:\\a\\b\\c\\d").unwrap(), "C:\\");
    assert_eq!(derive_inner_game_folder("C:a\\b\\c\\d").unwrap(), "C:");
    assert_eq!(meta_path("C:"), "C:tidekeeper.json");
    assert_eq!(meta_path("C:\\"), "C:\\tidekeeper.json");
    assert_eq!(verify_targets("C:\\Mods\\Hud", &vec!["\\x".to_string(), "D:y".to_string()]), vec!["C:\\x", "D:y"]);
}
