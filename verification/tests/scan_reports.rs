use tidekeeper::diagnostics::{
    diagnose, diagnosis_target, is_lua_script, lua_string_arg, script_hooks, trim_disabled_suffix,
    DiagObservations, PakFolderItem, ScriptModScan,
};
use tidekeeper::game::{
    direct_binaries_path, exe_not_found_message, find_subnautica2_install, launch_target,
    library_folders_path, mod_structure_target, nested_binaries_path, now_secs,
    subnautica2_candidates, ue4ss_dll_path,
};
use tidekeeper::model::{Config, DiagIssue, ModMeta, ModpackEntry};
use tidekeeper::modpack::{
    export_dirs, install_dirs, modpack_entries, pack_count, pack_path, pack_prefix, pack_source,
    pack_sources, state_fix,
};
use tidekeeper::mods::ToggleAction;
use tidekeeper::release::{
    installer_entry, installer_missing, installer_package_url, update_info, updater_script,
    InstallerSearch,
};
use tidekeeper::report::{
    diagnostics_log_entries, report_text, ue4ss_log_location, ue4ss_log_missing, ue4ss_log_path,
    ue4ss_log_tail,
};
use tidekeeper::scan::{
    adopt_target, adopted_parts, configured_pak_dir, find_config_files, scan_mods, sort_by_name,
    unmanaged_groups, ListedFile, MarkedFolder, ModFolderItem, ScannedFolder,
};
use tidekeeper::archive::{modpack_target, PackFolder};

const MODS: &str = "C:\\S2\\Subnautica2\\Binaries\\Win64\\ue4ss\\Mods";
const INNER: &str = "C:\\S2\\Subnautica2";

fn config_with(mods: Option<&str>) -> Config {
    let mut c = Config::empty();
    c.mods_folder = mods.map(|m| m.to_string());
    c
}

fn file(name: &str) -> ListedFile {
    ListedFile { name: name.to_string(), is_file: true }
}

fn dir_item(name: &str, children: Vec<ListedFile>) -> ModFolderItem {
    ModFolderItem { name: name.to_string(), is_dir: true, children }
}

fn file_item(name: &str) -> ModFolderItem {
    ModFolderItem { name: name.to_string(), is_dir: false, children: vec![] }
}

fn scanned(name: &str, marker: bool, items: Vec<ModFolderItem>) -> ScannedFolder {
    ScannedFolder { name: name.to_string(), marker_present: marker, meta: None, backup_exists: false, items }
}

fn issue(sev: &str, title: &str, detail: &str) -> DiagIssue {
    DiagIssue { severity: sev.to_string(), title: title.to_string(), detail: detail.to_string() }
}

fn entry(name: &str, t: &str, on: bool) -> ModpackEntry {
    ModpackEntry { name: name.to_string(), mod_type: t.to_string(), enabled: on }
}

// ---------------------------------------------------------------------------
// Game folder
// ---------------------------------------------------------------------------

#[test]
fn clock_reads_after_epoch() {
    assert!(now_secs() > 1_600_000_000);
}

#[test]
fn launch_and_loader_paths() {
    let c = config_with(Some(MODS));
    assert_eq!(
        launch_target(Some(&c)).unwrap(),
        format!("{}\\Binaries\\Win64\\Subnautica2-Win64-Shipping.exe", INNER)
    );
    assert_eq!(ue4ss_dll_path(Some(&c)), Some(format!("{}\\Binaries\\Win64\\ue4ss\\UE4SS.dll", INNER)));
    assert_eq!(launch_target(None).unwrap_err(), "No config found");
    assert_eq!(launch_target(Some(&config_with(None))).unwrap_err(), "No mods folder configured");
    assert!(launch_target(Some(&config_with(Some("a/b")))).unwrap_err().starts_with("Cannot derive game folder"));
    assert_eq!(ue4ss_dll_path(None), None);
    assert_eq!(exe_not_found_message("x.exe"), "Executable not found: x.exe");
}

#[test]
fn mods_folder_structure() {
    assert_eq!(nested_binaries_path("D:\\common\\Subnautica2"), "D:\\common\\Subnautica2\\Subnautica2\\Binaries");
    assert_eq!(direct_binaries_path("D:\\g"), "D:\\g\\Binaries");
    assert_eq!(
        mod_structure_target("D:\\common\\Subnautica2", true, true).unwrap(),
        "D:\\common\\Subnautica2\\Subnautica2\\Binaries\\Win64\\ue4ss\\Mods"
    );
    assert_eq!(mod_structure_target("D:\\g", false, true).unwrap(), "D:\\g\\Binaries\\Win64\\ue4ss\\Mods");
    assert_eq!(
        mod_structure_target("D:\\x", false, false).unwrap_err(),
        "Subnautica 2 game files not found here. Select the folder named Subnautica2 inside your Steam library."
    );
}

#[test]
fn steam_libraries() {
    let vdf = "\"libraryfolders\"\n{\n\t\"0\"\n\t{\n\t\t\"path\"\t\t\"C:\\\\Program Files (x86)\\\\Steam\"\n\t}\n\t\"1\"\n\t{\n\t\t\"path\"\t\t\"F:\\\\SteamLibrary\"\n\t\t\"label\"\t\t\"\"\n\t}\n}\n";
    let c = subnautica2_candidates("c:\\program files (x86)\\steam", Some(vdf));
    assert_eq!(
        c,
        vec![
            "c:\\program files (x86)\\steam\\steamapps\\common\\Subnautica2".to_string(),
            "C:\\Program Files (x86)\\Steam\\steamapps\\common\\Subnautica2".to_string(),
            "F:\\SteamLibrary\\steamapps\\common\\Subnautica2".to_string(),
        ]
    );
    assert_eq!(
        find_subnautica2_install("c:\\program files (x86)\\steam", Some(vdf), &vec![false, false, true]),
        Some("F:\\SteamLibrary\\steamapps\\common\\Subnautica2".to_string())
    );
    assert_eq!(find_subnautica2_install("c:\\s", None, &vec![false]), None);
    assert_eq!(library_folders_path("c:\\s"), "c:\\s\\steamapps\\libraryfolders.vdf");
}

// ---------------------------------------------------------------------------
// Listing mods
// ---------------------------------------------------------------------------

#[test]
fn settings_files_found() {
    let items = vec![
        file_item("Settings.INI"),
        file_item("tidekeeper.json"),
        file_item("enabled.txt"),
        file_item("OPTIONS.json"),
        file_item("readme.txt"),
        dir_item("Config", vec![file("a.json"), file("b.lua"), ListedFile { name: "c.ini".to_string(), is_file: false }]),
        dir_item("Scripts", vec![file("config.lua"), file("config.lua.new"), file("main.lua"), file("Config")]),
        dir_item("Other", vec![file("x.ini")]),
    ];
    assert_eq!(
        find_config_files("C:\\Mods\\Hud", &items),
        vec![
            "C:\\Mods\\Hud\\Settings.INI",
            "C:\\Mods\\Hud\\OPTIONS.json",
            "C:\\Mods\\Hud\\Config\\a.json",
            "C:\\Mods\\Hud\\Scripts\\config.lua",
            "C:\\Mods\\Hud\\Scripts\\config.lua.new",
            "C:\\Mods\\Hud\\Scripts\\Config",
        ]
    );
    assert_eq!(find_config_files("", &items)[3], "Scripts\\config.lua");
}

#[test]
fn sort_is_stable_by_lowercase_name() {
    let mk = |n: &str, p: &str| tidekeeper::model::ModEntry {
        name: n.to_string(),
        enabled: true,
        path: p.to_string(),
        mod_type: "script".to_string(),
        meta: None,
        config_files: vec![],
        has_backup: false,
    };
    let sorted = sort_by_name(vec![mk("beta", "1"), mk("Alpha", "2"), mk("alpha", "3"), mk("Gamma", "4")]);
    let order: Vec<&str> = sorted.iter().map(|e| e.path.as_str()).collect();
    assert_eq!(order, vec!["2", "3", "1", "4"]);
}

#[test]
fn scan_lists_and_sorts_mods() {
    let meta = ModMeta {
        source: "manual".to_string(),
        mod_id: None,
        file_id: None,
        version: None,
        display_name: None,
        file_name: None,
        installed_at: 1,
        installed_files: None,
        backup_path: Some("B".to_string()),
    };
    let mut hud = scanned("hud", true, vec![file_item("hud.ini")]);
    hud.meta = Some(meta);
    hud.backup_exists = true;
    let c = config_with(Some(MODS));
    let list = scan_mods(
        Some(&c),
        vec![hud, scanned("Zoom", false, vec![])],
        vec![scanned("Farm.disabled", false, vec![])],
    )
    .unwrap();
    let names: Vec<&str> = list.iter().map(|e| e.name.as_str()).collect();
    assert_eq!(names, vec!["Farm", "hud", "Zoom"]);
    assert_eq!(list[0].mod_type, "pak");
    assert!(!list[0].enabled);
    assert_eq!(list[0].path, format!("{}\\Content\\Paks\\LogicMods\\Farm.disabled", INNER));
    assert_eq!(list[1].path, format!("{}\\hud", MODS));
    assert!(list[1].enabled);
    assert!(list[1].has_backup);
    assert_eq!(list[1].config_files, vec![format!("{}\\hud\\hud.ini", MODS)]);
    assert!(!list[2].enabled && !list[2].has_backup);
    assert_eq!(scan_mods(None, vec![], vec![]).unwrap_err(), "No config found");
    assert_eq!(scan_mods(Some(&config_with(None)), vec![], vec![]).unwrap_err(), "No mods folder configured");
}

#[test]
fn scan_ignores_paks_without_game_folder() {
    let c = config_with(Some("Mods"));
    let list = scan_mods(Some(&c), vec![scanned("A", true, vec![])], vec![scanned("P", false, vec![])]).unwrap();
    assert_eq!(list.len(), 1);
    assert_eq!(list[0].name, "A");
}

#[test]
fn loose_pak_groups() {
    let items = vec![
        file("Farm_P.pak"),
        file("readme.txt"),
        file("Boat.UTOC"),
        file("Farm_P.ucas"),
        ListedFile { name: "Dir.pak".to_string(), is_file: false },
        file("Farm_P.utoc"),
    ];
    let g = unmanaged_groups(&items);
    assert_eq!(g.len(), 2);
    assert_eq!(g[0].suggested_name, "Farm_P");
    assert_eq!(g[0].files, vec!["Farm_P.pak", "Farm_P.ucas", "Farm_P.utoc"]);
    assert_eq!(g[1].suggested_name, "Boat");
    assert_eq!(g[1].files, vec!["Boat.UTOC"]);
    assert_eq!(adopted_parts(&items, "Farm_P"), vec!["Farm_P.pak", "Farm_P.ucas", "Farm_P.utoc"]);
    assert!(adopted_parts(&items, "readme").is_empty());
}

#[test]
fn adoption_target() {
    let c = config_with(Some(MODS));
    let (pak, dest) = adopt_target(Some(&c), "  My Farm ").unwrap();
    assert_eq!(pak, format!("{}\\Content\\Paks\\LogicMods", INNER));
    assert_eq!(dest, format!("{}\\Content\\Paks\\LogicMods\\My Farm", INNER));
    assert_eq!(adopt_target(None, "x").unwrap_err(), "No config");
    assert_eq!(adopt_target(Some(&config_with(None)), "x").unwrap_err(), "No mods folder");
    assert_eq!(configured_pak_dir(Some(&c)), Some(pak));
    assert_eq!(configured_pak_dir(None), None);
}

// ---------------------------------------------------------------------------
// Mod packs
// ---------------------------------------------------------------------------

#[test]
fn pack_entries_and_dirs() {
    let e = modpack_entries(
        &vec![MarkedFolder { name: "Hud".to_string(), marker_present: true }],
        &vec!["Farm.disabled".to_string(), "Boat".to_string()],
    )
    .unwrap();
    let v: Vec<(&str, &str, bool)> = e.iter().map(|x| (x.name.as_str(), x.mod_type.as_str(), x.enabled)).collect();
    assert_eq!(v, vec![("Hud", "script", true), ("Farm", "pak", false), ("Boat", "pak", true)]);
    assert_eq!(pack_count(&e), 3);
    assert_eq!(modpack_entries(&vec![], &vec![]).unwrap_err(), "No mods installed to export");
    let c = config_with(Some(MODS));
    assert_eq!(export_dirs(Some(&c)).unwrap(), (MODS.to_string(), format!("{}\\Content\\Paks\\LogicMods", INNER)));
    assert_eq!(export_dirs(Some(&config_with(Some("x")))).unwrap_err(), "Invalid mods folder path");
    assert_eq!(export_dirs(None).unwrap_err(), "No config");
    assert!(install_dirs(Some(&config_with(Some("x")))).unwrap_err().starts_with("Cannot derive"));
}

#[test]
fn pack_sources_and_paths() {
    let farm = entry("Farm", "pak", false);
    assert_eq!(pack_sources("S", "P", &farm), vec!["P\\Farm", "P\\Farm.disabled"]);
    assert_eq!(pack_source("S", "P", &farm, &vec![false, true]), Some("P\\Farm.disabled".to_string()));
    assert_eq!(pack_source("S", "P", &farm, &vec![true, true]), Some("P\\Farm".to_string()));
    assert_eq!(pack_source("S", "P", &farm, &vec![false, false]), None);
    let hud = entry("Hud", "script", true);
    assert_eq!(pack_sources("S", "P", &hud), vec!["S\\Hud"]);
    assert_eq!(pack_prefix(&farm), "pak/Farm");
    assert_eq!(pack_path("pak/Farm", "Farm.pak"), "pak/Farm/Farm.pak");
}

#[test]
fn law_pack_round_trip_example() {
    for (e, file) in [(entry("Farm", "pak", true), "Farm.pak"), (entry("Hud", "script", false), "main.lua")] {
        let path = pack_path(&pack_path(&pack_prefix(&e), "Sub"), file);
        match modpack_target(&path) {
            Some((kind, rel)) => {
                assert_eq!(matches!(kind, PackFolder::Pak), e.mod_type == "pak");
                assert_eq!(rel, format!("{}/Sub/{}", e.name, file));
            }
            None => panic!("pack path not installed"),
        }
    }
}

#[test]
fn law_pack_keeps_state_example() {
    match state_fix("S", "P", &entry("Farm", "pak", false), true, false) {
        Some(ToggleAction::Rename { from, to }) => {
            assert_eq!(from, "P\\Farm");
            assert_eq!(to, "P\\Farm.disabled");
        }
        _ => panic!("expected a rename"),
    }
    assert!(state_fix("S", "P", &entry("Farm", "pak", true), true, false).is_none());
    match state_fix("S", "P", &entry("Farm", "pak", true), false, true) {
        Some(ToggleAction::Rename { from, to }) => {
            assert_eq!(from, "P\\Farm.disabled");
            assert_eq!(to, "P\\Farm");
        }
        _ => panic!("expected a rename"),
    }
    match state_fix("S", "P", &entry("Hud", "script", true), false, false) {
        Some(ToggleAction::WriteMarker(p)) => assert_eq!(p, "S\\Hud\\enabled.txt"),
        _ => panic!("expected a marker write"),
    }
    match state_fix("S", "P", &entry("Hud", "script", false), false, false) {
        Some(ToggleAction::RemoveMarker(p)) => assert_eq!(p, "S\\Hud\\enabled.txt"),
        _ => panic!("expected a marker removal"),
    }
    assert!(state_fix("S", "P", &entry("X", "other", true), true, true).is_none());
}

// ---------------------------------------------------------------------------
// Diagnostics and reports
// ---------------------------------------------------------------------------

#[test]
fn lua_hooks() {
    assert_eq!(lua_string_arg("  \"/Script/Game.Foo:Bar\", fn)"), Some("/Script/Game.Foo:Bar".to_string()));
    assert_eq!(lua_string_arg("'x')"), Some("x".to_string()));
    assert_eq!(lua_string_arg("name)"), None);
    assert_eq!(lua_string_arg("\"open"), None);
    let script = "local x = 1\nRegisterHook(\"/A\", function() end)\n  RegisterHook('/B', f)\nRegisterHook(var)\n";
    assert_eq!(script_hooks(script), vec!["/A", "/B"]);
    assert!(is_lua_script("Scripts/main.LUA"));
    assert!(!is_lua_script("main.luac"));
    assert_eq!(trim_disabled_suffix("Farm.disabled.disabled"), "Farm");
}

#[test]
fn setup_problems_stop_diagnostics() {
    let e = diagnosis_target(None).unwrap_err();
    assert_eq!(e.title, "No configuration found");
    let e = diagnosis_target(Some(&config_with(None))).unwrap_err();
    assert_eq!(e.title, "No mods folder configured");
    let e = diagnosis_target(Some(&config_with(Some("x")))).unwrap_err();
    assert_eq!(e.title, "Invalid mods folder path");
    let (m, inner) = diagnosis_target(Some(&config_with(Some(MODS)))).unwrap();
    assert_eq!((m.as_str(), inner.as_str()), (MODS, INNER));
}

fn script_mod(name: &str, enabled: bool, count: usize, hooks: &[&str]) -> ScriptModScan {
    ScriptModScan {
        name: name.to_string(),
        enabled,
        non_marker_count: count,
        hooks: hooks.iter().map(|h| h.to_string()).collect(),
    }
}

#[test]
fn healthy_setup_passes() {
    let o = DiagObservations {
        ue4ss_dll_exists: true,
        ue4ss_dir_exists: true,
        proxy_dll_exists: true,
        script_mods: vec![script_mod("A", true, 2, &["/H"])],
        pak_items: vec![],
    };
    let r = diagnose(&o);
    assert_eq!(r.len(), 1);
    assert_eq!(r[0].severity, "ok");
    assert_eq!(r[0].title, "All checks passed");
}

#[test]
fn law_hook_conflict_reported_example() {
    let o = DiagObservations {
        ue4ss_dll_exists: false,
        ue4ss_dir_exists: true,
        proxy_dll_exists: false,
        script_mods: vec![
            script_mod("A", true, 1, &["/H", "/H"]),
            script_mod("Empty", false, 0, &[]),
            script_mod("B", true, 3, &["/H", "/K"]),
            script_mod("C", false, 3, &["/K"]),
        ],
        pak_items: vec![
            PakFolderItem { name: "Loose.pak".to_string(), is_file: true, is_dir: false, file_names: vec![] },
            PakFolderItem {
                name: "Half.disabled".to_string(),
                is_file: false,
                is_dir: true,
                file_names: vec!["half.PAK".to_string()],
            },
        ],
    };
    let r = diagnose(&o);
    let titles: Vec<&str> = r.iter().map(|i| i.title.as_str()).collect();
    assert_eq!(
        titles,
        vec![
            "UE4SS is not installed",
            "UE4SS proxy DLL missing",
            "Empty: folder appears empty",
            "Hook conflict: /H",
            "Unmanaged file: Loose.pak",
            "Half: incomplete pak files",
        ]
    );
    assert_eq!(r[3].detail, "A and B both register this hook \u{2014} one may override the other.");
    assert_eq!(r[5].detail, "Missing .utoc, .ucas \u{2014} this mod likely won't load in-game. Try reinstalling it.");
    let log = diagnostics_log_entries(&r);
    assert_eq!(log[0], ("INFO".to_string(), "Diagnostics ran \u{2014} 6 issue(s) found".to_string()));
    assert_eq!(log[1], ("ERROR".to_string(), "Diagnostic: UE4SS is not installed".to_string()));
    assert_eq!(log[3], ("WARN".to_string(), "Diagnostic: Empty: folder appears empty".to_string()));
    assert_eq!(log.len(), 7);
}

#[test]
fn ue4ss_log_helpers() {
    assert_eq!(ue4ss_log_path("C:\\x\\ue4ss\\Mods"), Some("C:\\x\\ue4ss\\UE4SS.log".to_string()));
    assert_eq!(ue4ss_log_path("/"), None);
    assert_eq!(ue4ss_log_location(None).unwrap_err(), "No config");
    assert_eq!(ue4ss_log_location(Some(&config_with(None))).unwrap_err(), "No mods folder configured");
    assert_eq!(ue4ss_log_location(Some(&config_with(Some("/")))).unwrap_err(), "Invalid mods folder path");
    assert_eq!(
        ue4ss_log_missing(),
        "UE4SS.log not found. Run the game at least once with UE4SS installed to generate it."
    );
    let mut log = String::new();
    for i in 0..450 {
        log.push_str(&format!("line {}\n", i));
    }
    let tail = ue4ss_log_tail(&log);
    assert!(tail.starts_with("line 50\n"));
    assert!(tail.ends_with("line 449"));
    assert_eq!(tail.lines().count(), 400);
    assert_eq!(ue4ss_log_tail("a\nb"), "a\nb");
}

#[test]
fn report_layout() {
    let mut c = config_with(Some("M"));
    c.nexus_api_key = Some("k".to_string());
    let issues = vec![issue("error", "Bad", "Fix it"), issue("ok", "Fine", "ignored")];
    let r = report_text("2024-01-01", Some(&c), &issues, Some("1|INFO|a\n"), None);
    let expected = "=== Tidekeeper Diagnostic Report ===\n\
Generated : 2024-01-01\n\
\n\
--- Configuration ---\n\
Mods folder : M\n\
Nexus API   : configured\n\
\n\
--- System Checks ---\n\
[ERROR] Bad\n        Fix it\n\
[OK]    Fine\n\
\n\
--- Tidekeeper Activity Log (last 100 entries) ---\n\
(format: unix_timestamp | LEVEL | message)\n\
1|INFO|a\n\
\n\
--- UE4SS Log (last 400 lines) ---\n\
(UE4SS.log not found \u{2014} run the game once with UE4SS installed)\n";
    assert_eq!(r, expected);
    let r = report_text("t", None, &vec![], Some("  \n"), Some("x"));
    assert!(r.contains("(no configuration found)\n"));
    assert!(r.contains("(empty)\n"));
    assert!(r.ends_with("--- UE4SS Log (last 400 lines) ---\nx\n"));
    let r = report_text("t", Some(&config_with(None)), &vec![issue("warning", "W", "d")], None, None);
    assert!(r.contains("Mods folder : (not set)\nNexus API   : (not set)\n"));
    assert!(r.contains("[WARN]  W\n        d\n"));
    assert!(r.contains("(log file not found)\n"));
}

// ---------------------------------------------------------------------------
// Application updates
// ---------------------------------------------------------------------------

#[test]
fn update_reports() {
    let u = update_info(Some(("1.2.0".to_string(), Some("notes".to_string()))));
    assert!(u.available);
    assert_eq!(u.version, Some("1.2.0".to_string()));
    assert_eq!(u.notes, Some("notes".to_string()));
    let u = update_info(None);
    assert!(!u.available && u.version.is_none() && u.notes.is_none());
    assert_eq!(
        installer_package_url("1.2.0"),
        "https://github.com/ToobsTube/Tidekeeper/releases/download/v1.2.0/Tidekeeper_1.2.0_x64-setup.nsis.zip"
    );
}

#[test]
fn installer_in_package() {
    let n = |v: &[Option<&str>]| v.iter().map(|x| x.map(|s| s.to_string())).collect::<Vec<_>>();
    assert!(matches!(installer_entry(&n(&[Some("readme.txt"), Some("Tidekeeper_1.2.0_x64-setup.exe")])), InstallerSearch::Found(1)));
    assert!(matches!(installer_entry(&n(&[None, Some("a.exe")])), InstallerSearch::Unreadable(0)));
    assert!(matches!(installer_entry(&n(&[Some("a.exe"), None])), InstallerSearch::Found(0)));
    assert!(matches!(installer_entry(&n(&[Some("a.txt")])), InstallerSearch::Missing));
    assert_eq!(installer_missing(), "Installer not found in update package");
}

#[test]
fn updater_script_quotes_paths() {
    let s = updater_script("C:\\T\\tidekeeper_update.exe", "C:\\App\\Tide\"keeper.exe");
    let expected = "@echo off\r\n\
echo started >> \"%TEMP%\\tidekeeper_update_log.txt\"\r\n\
ping 127.0.0.1 -n 4 > nul\r\n\
\"C:\\T\\tidekeeper_update.exe\" /S\r\n\
echo nsis done >> \"%TEMP%\\tidekeeper_update_log.txt\"\r\n\
ping 127.0.0.1 -n 2 > nul\r\n\
start \"\" \"C:\\App\\Tide\"\"keeper.exe\"\r\n\
echo relaunch attempted >> \"%TEMP%\\tidekeeper_update_log.txt\"\r\n";
    assert_eq!(s, expected);
}

#[test]
fn law_settings_relative_example() {
    let items = vec![
        file_item("mod.cfg"),
        dir_item("Scripts", vec![file("config.lua"), file("main.lua")]),
        dir_item("config", vec![file("keys.toml")]),
    ];
    let base = "C:\\Mods\\Hud";
    let joined: Vec<String> = find_config_files("", &items).iter().map(|r| format!("{}\\{}", base, r)).collect();
    assert_eq!(find_config_files(base, &items), joined);
    assert_eq!(joined, vec!["C:\\Mods\\Hud\\mod.cfg", "C:\\Mods\\Hud\\Scripts\\config.lua", "C:\\Mods\\Hud\\config\\keys.toml"]);
}

#[test]
fn law_toggle_round_trip_example() {
    let parent = "D:\\Game\\Content\\Paks\\LogicMods";
    let on = format!("{}\\Farm", parent);
    let off = format!("{}\\Farm.disabled", parent);
    match tidekeeper::mods::toggle_action(&on, false).unwrap() {
        ToggleAction::Rename { from, to } => assert_eq!((from.as_str(), to.as_str()), (on.as_str(), off.as_str())),
        _ => panic!("expected a rename"),
    }
    match tidekeeper::mods::toggle_action(&off, true).unwrap() {
        ToggleAction::Rename { from, to } => assert_eq!((from.as_str(), to.as_str()), (off.as_str(), on.as_str())),
        _ => panic!("expected a rename"),
    }
}

#[test]
fn diagnose_all_clear_only_when_nothing_found() {
    let quiet = DiagObservations {
        ue4ss_dll_exists: true,
        ue4ss_dir_exists: true,
        proxy_dll_exists: true,
        script_mods: vec![],
        pak_items: vec![],
    };
    let r = diagnose(&quiet);
    assert_eq!(r.len(), 1);
    assert_eq!(r[0].severity, "ok");
    assert_eq!(r[0].title, "All checks passed");
    assert_eq!(r[0].detail, "No issues detected. Your mod setup looks healthy.");
    let noisy = DiagObservations {
        ue4ss_dll_exists: true,
        ue4ss_dir_exists: true,
        proxy_dll_exists: true,
        script_mods: vec![script_mod("Empty", true, 0, &[])],
        pak_items: vec![],
    };
    let r = diagnose(&noisy);
    assert_eq!(r.len(), 1);
    assert_eq!(r[0].severity, "warning");
    assert!(r.iter().all(|i| i.severity != "ok"));
}

#[test]
fn report_ignores_secrets_example() {
    let mut a = config_with(Some("C:\\Game\\Mods"));
    a.nexus_api_key = Some("key-one".to_string());
    a.nexus_token = Some("token-one".to_string());
    a.nexus_username = Some("alice".to_string());
    let mut b = config_with(Some("C:\\Game\\Mods"));
    b.nexus_api_key = Some("key-two".to_string());
    b.nexus_refresh_token = Some("refresh".to_string());
    b.nexus_client_id = Some("client".to_string());
    let issues = vec![issue("warning", "W", "d")];
    let ra = report_text("t", Some(&a), &issues, Some("1|INFO|x\n"), Some("log"));
    let rb = report_text("t", Some(&b), &issues, Some("1|INFO|x\n"), Some("log"));
    assert_eq!(ra, rb);
    assert!(!ra.contains("key-one"));
    assert!(!ra.contains("token-one"));
    assert!(ra.contains("Nexus API   : configured\n"));
}
