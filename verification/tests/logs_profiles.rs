use tidekeeper::logs::{format_log_line, parse_log_line, read_log};
use tidekeeper::model::{Config, Profile};
use tidekeeper::mods::ToggleAction;
use tidekeeper::profiles::{
    auth_status, delete_profile, enabled_mod_names, import_profile, imported_profile,
    profile_marker_action, profile_mods, remove_mod_from_profiles, save_profile, sign_out,
    switch_profile, ProfileFile,
};
use tidekeeper::scan::MarkedFolder;

fn chars(s: &str) -> Vec<char> {
    s.chars().collect()
}

fn strings(v: &[&str]) -> Vec<String> {
    v.iter().map(|s| s.to_string()).collect()
}

fn folder(name: &str, on: bool) -> MarkedFolder {
    MarkedFolder { name: name.to_string(), marker_present: on }
}

#[test]
fn log_line_format() {
    assert_eq!(format_log_line(1700000000, "INFO", "Installed: Hud"), "1700000000|INFO|Installed: Hud\n");
}

#[test]
fn log_line_parse() {
    let l = parse_log_line(&chars("17|WARN|a|b")).unwrap();
    assert_eq!(l.ts, 17);
    assert_eq!(l.level, "WARN");
    assert_eq!(l.message, "a|b");
    assert!(parse_log_line(&chars("x|WARN|m")).is_none());
    assert!(parse_log_line(&chars("17|WARN")).is_none());
    assert!(parse_log_line(&chars("")).is_none());
}

#[test]
fn log_read_newest_first_skipping_bad_lines() {
    let content = "1|INFO|first\ngarbage\n2|ERROR|second\r\n3|WARN|third\n";
    let r = read_log(content);
    assert_eq!(r.len(), 3);
    assert_eq!((r[0].ts, r[0].level.as_str(), r[0].message.as_str()), (3, "WARN", "third"));
    assert_eq!((r[1].ts, r[1].level.as_str(), r[1].message.as_str()), (2, "ERROR", "second"));
    assert_eq!((r[2].ts, r[2].level.as_str(), r[2].message.as_str()), (1, "INFO", "first"));
}

#[test]
fn log_read_keeps_500_newest() {
    let mut content = String::new();
    for i in 0..600u64 {
        content.push_str(&format_log_line(i, "INFO", "m"));
    }
    let r = read_log(&content);
    assert_eq!(r.len(), 500);
    assert_eq!(r[0].ts, 599);
    assert_eq!(r[499].ts, 100);
}

#[test]
fn law_log_write_then_read_example() {
    let before = "5|INFO|older\n";
    let after = format!("{}{}", before, format_log_line(9, "ERROR", "Install failed for X: boom"));
    let r = read_log(&after);
    assert_eq!(r[0].ts, 9);
    assert_eq!(r[0].level, "ERROR");
    assert_eq!(r[0].message, "Install failed for X: boom");
}

#[test]
fn profile_save_then_read() {
    let mut c = Config::empty();
    save_profile(&mut c, "coop".to_string(), strings(&["Hud", "Map"]));
    assert_eq!(profile_mods(&c, "coop"), strings(&["Hud", "Map"]));
    assert_eq!(c.active_profile, Some("coop".to_string()));
    save_profile(&mut c, "solo".to_string(), strings(&["Hud"]));
    save_profile(&mut c, "coop".to_string(), strings(&["Map"]));
    assert_eq!(profile_mods(&c, "coop"), strings(&["Map"]));
    assert_eq!(profile_mods(&c, "solo"), strings(&["Hud"]));
    assert_eq!(c.profiles.as_ref().unwrap().len(), 2);
    assert!(profile_mods(&c, "nope").is_empty());
}

#[test]
fn profile_delete_clears_active() {
    let mut c = Config::empty();
    save_profile(&mut c, "a".to_string(), strings(&["X"]));
    save_profile(&mut c, "b".to_string(), strings(&["Y"]));
    delete_profile(&mut c, "a");
    assert!(profile_mods(&c, "a").is_empty());
    assert_eq!(profile_mods(&c, "b"), strings(&["Y"]));
    assert_eq!(c.active_profile, Some("b".to_string()));
    delete_profile(&mut c, "b");
    assert_eq!(c.active_profile, None);
}

#[test]
fn profile_import_keeps_active() {
    let mut c = Config::empty();
    c.active_profile = Some("mine".to_string());
    import_profile(&mut c, "friend".to_string(), strings(&["A", "B"]));
    assert_eq!(profile_mods(&c, "friend"), strings(&["A", "B"]));
    assert_eq!(c.active_profile, Some("mine".to_string()));
}

#[test]
fn profile_switch_returns_mods() {
    let mut c = Config::empty();
    c.profiles = Some(vec![Profile { name: "p".to_string(), mods: strings(&["A"]) }]);
    assert_eq!(switch_profile(&mut c, "p".to_string()), strings(&["A"]));
    assert_eq!(c.active_profile, Some("p".to_string()));
    assert!(switch_profile(&mut c, "unknown".to_string()).is_empty());
    assert_eq!(c.active_profile, Some("unknown".to_string()));
}

#[test]
fn uninstalled_mod_leaves_every_profile() {
    let mut c = Config::empty();
    c.profiles = Some(vec![
        Profile { name: "p".to_string(), mods: strings(&["A", "Gone", "B"]) },
        Profile { name: "q".to_string(), mods: strings(&["Gone"]) },
    ]);
    remove_mod_from_profiles(&mut c, "Gone");
    assert_eq!(profile_mods(&c, "p"), strings(&["A", "B"]));
    assert!(profile_mods(&c, "q").is_empty());
    assert_eq!(c.profiles.as_ref().unwrap().len(), 2);
}

#[test]
fn enabled_names_in_folder_order() {
    let f = vec![folder("A", true), folder("B", false), folder("C", true)];
    assert_eq!(enabled_mod_names(&f), strings(&["A", "C"]));
}

#[test]
fn switching_writes_and_removes_markers() {
    let profile = strings(&["A"]);
    match profile_marker_action("C:\\Mods", "A", &profile) {
        ToggleAction::WriteMarker(p) => assert_eq!(p, "C:\\Mods\\A\\enabled.txt"),
        _ => panic!("expected a marker write"),
    }
    match profile_marker_action("C:\\Mods", "B", &profile) {
        ToggleAction::RemoveMarker(p) => assert_eq!(p, "C:\\Mods\\B\\enabled.txt"),
        _ => panic!("expected a marker removal"),
    }
}

#[test]
fn law_switch_then_save_example() {
    let folders = vec![folder("A", false), folder("B", true), folder("C", false)];
    let profile = strings(&["C", "A", "Missing"]);
    let after: Vec<MarkedFolder> = folders
        .iter()
        .map(|f| {
            let on = matches!(profile_marker_action("M", &f.name, &profile), ToggleAction::WriteMarker(_));
            folder(&f.name, on)
        })
        .collect();
    assert_eq!(enabled_mod_names(&after), strings(&["A", "C"]));
}

#[test]
fn imported_profile_fields() {
    let ok = imported_profile(ProfileFile {
        profile: Some("coop".to_string()),
        mods: Some(vec![Some("A".to_string()), None, Some("B".to_string())]),
    })
    .unwrap();
    assert_eq!(ok, ("coop".to_string(), strings(&["A", "B"])));
    let bad = imported_profile(ProfileFile { profile: None, mods: Some(vec![]) });
    assert_eq!(bad.unwrap_err(), "Invalid profile file");
    let bad = imported_profile(ProfileFile { profile: Some("x".to_string()), mods: None });
    assert_eq!(bad.unwrap_err(), "Invalid profile file");
}

#[test]
fn signing_out_forgets_tokens_only() {
    let mut c = Config::empty();
    c.nexus_token = Some("t".to_string());
    c.nexus_refresh_token = Some("r".to_string());
    c.nexus_token_expiry = Some(5);
    c.nexus_username = Some("u".to_string());
    c.nexus_is_premium = Some(true);
    c.nexus_api_key = Some("k".to_string());
    c.mods_folder = Some("M".to_string());
    sign_out(&mut c);
    assert_eq!(c.nexus_token, None);
    assert_eq!(c.nexus_refresh_token, None);
    assert_eq!(c.nexus_token_expiry, None);
    assert_eq!(c.nexus_username, None);
    assert_eq!(c.nexus_is_premium, None);
    assert_eq!(c.nexus_api_key, Some("k".to_string()));
    assert_eq!(c.mods_folder, Some("M".to_string()));
}

#[test]
fn auth_status_from_config() {
    let s = auth_status(None);
    assert!(!s.signed_in && s.username.is_none() && !s.is_premium);
    let mut c = Config::empty();
    c.nexus_username = Some("u".to_string());
    let s = auth_status(Some(&c));
    assert!(!s.signed_in && s.username.is_none());
    c.nexus_token = Some("t".to_string());
    let s = auth_status(Some(&c));
    assert!(s.signed_in);
    assert_eq!(s.username, Some("u".to_string()));
    assert!(!s.is_premium);
    c.nexus_is_premium = Some(true);
    assert!(auth_status(Some(&c)).is_premium);
}

#[test]
fn switch_restores_saved_example() {
    let saved = vec![folder("A", true), folder("B", false), folder("C", true)];
    let mut c = Config::empty();
    save_profile(&mut c, "p".to_string(), enabled_mod_names(&saved));
    save_profile(&mut c, "q".to_string(), strings(&["B"]));
    let profile = switch_profile(&mut c, "p".to_string());
    assert_eq!(c.active_profile, Some("p".to_string()));
    let now = vec![folder("A", false), folder("B", true), folder("C", true)];
    for (f, s) in now.iter().zip(saved.iter()) {
        let on = matches!(profile_marker_action("M", &f.name, &profile), ToggleAction::WriteMarker(_));
        assert_eq!(on, s.marker_present);
    }
}
