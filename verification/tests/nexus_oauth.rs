use tidekeeper::model::{Config, ModMeta, ZipInfo};
use tidekeeper::nexus::{
    archive_stem, backup_dir, backup_name, direct_install_refused, download_dir, download_file_name,
    file_download_link_url, first_download_link, has_update, install_folder_name, is_nxm_link,
    is_tracked_nexus_mod, mod_file_url, mod_files_url, mod_info_url, new_defaults_name,
    nexus_install_log, nexus_install_meta, nxm_download_link_url, nxm_ids, nxm_install_meta,
    offered_file_entries, parse_nxm_url, pick_update_file, update_status, user_info, variant_name,
    with_nexus_name, NexusApiFile, nxm_mods_folder, direct_install_mods_folder, update_check_mods_folder,
    tracked_nexus_mods, FolderMeta,
};
use tidekeeper::oauth::{
    api_key_header, auth_step, auth_url, bearer_header, callback_page, check_oauth_state,
    code_exchange_form, decode_jwt_payload, generate_code_challenge, generate_code_verifier,
    generate_state, hex_encode, is_premium, oauth_client_id, parse_oauth_callback, record_refresh,
    record_sign_in, refresh_form, token_exchange_failed, token_refresh_failed, AuthStep, JwtClaims,
};

fn api_file(id: u64, name: Option<&str>, version: Option<&str>, cat: Option<u32>) -> NexusApiFile {
    NexusApiFile {
        file_id: id,
        name: name.map(|s| s.to_string()),
        version: version.map(|s| s.to_string()),
        size_kb: Some(10),
        category_id: cat,
    }
}

#[test]
fn nxm_link_parsed() {
    let r = parse_nxm_url("nxm://subnautica2/mods/123/files/456?key=abc&expires=789&user_id=1").unwrap();
    assert_eq!(r.game, "subnautica2");
    assert_eq!(r.mod_id, "123");
    assert_eq!(r.file_id, "456");
    assert_eq!(r.key, "abc");
    assert_eq!(r.expires, "789");
    assert_eq!(
        nxm_download_link_url(&r),
        "https://api.nexusmods.com/v1/games/subnautica2/mods/123/files/456/download_link.json?key=abc&expires=789"
    );
}

#[test]
fn nxm_link_without_query() {
    let r = parse_nxm_url("nxm://subnautica2/mods/1/files/2").unwrap();
    assert_eq!(r.key, "");
    assert_eq!(r.expires, "");
}

#[test]
fn nxm_link_too_short() {
    assert_eq!(
        parse_nxm_url("nxm://subnautica2/mods/1").unwrap_err(),
        "Invalid NXM URL: nxm://subnautica2/mods/1"
    );
}

#[test]
fn nxm_links_recognised() {
    assert!(is_nxm_link("nxm://subnautica2/mods/1/files/2"));
    assert!(!is_nxm_link("https://nexusmods.com"));
}

#[test]
fn api_addresses() {
    assert_eq!(mod_info_url(36), "https://api.nexusmods.com/v1/games/subnautica2/mods/36.json");
    assert_eq!(mod_files_url(36), "https://api.nexusmods.com/v1/games/subnautica2/mods/36/files.json");
    assert_eq!(mod_file_url(36, 7), "https://api.nexusmods.com/v1/games/subnautica2/mods/36/files/7.json");
    assert_eq!(
        file_download_link_url(36, 7),
        "https://api.nexusmods.com/v1/games/subnautica2/mods/36/files/7/download_link.json"
    );
}

#[test]
fn download_names() {
    assert_eq!(
        download_file_name("https://cf.nexus.com/files/Hud-12-1-0-17.zip?md5=x&expires=1"),
        "Hud-12-1-0-17.zip"
    );
    assert_eq!(download_file_name("plain"), "plain");
    assert_eq!(archive_stem("Hud-12-1-0-17.zip"), "Hud-12-1-0-17");
    assert_eq!(archive_stem(""), "mod");
}

#[test]
fn variant_names() {
    assert_eq!(
        variant_name("gravestone-waypoint-lite-1234-1-0-17", Some(1234)),
        Some("gravestone-waypoint-lite".to_string())
    );
    assert_eq!(variant_name("hud-99-1", Some(12)), None);
    assert_eq!(variant_name("hud-99-1", None), None);
}

#[test]
fn backup_names() {
    assert_eq!(backup_name("C:\\Mods\\Hud", Some("1.2/beta:3")), "Hud_1.2_beta_3");
    assert_eq!(backup_name("C:\\Mods\\Hud", None), "Hud_unknown");
    assert_eq!(backup_name("", Some("1")), "mod_1");
    assert_eq!(backup_dir("C:\\data", "Hud_1.0"), "C:\\data\\backups\\Hud_1.0");
}

#[test]
fn new_defaults_names() {
    assert_eq!(new_defaults_name("C:\\Mods\\Hud\\Scripts\\config.lua"), "config.lua.new");
}

#[test]
fn nxm_meta() {
    let r = parse_nxm_url("nxm://subnautica2/mods/12/files/x?key=k").unwrap();
    let m = nxm_install_meta(
        &r,
        Some("Better HUD".to_string()),
        None,
        Some("1.0".to_string()),
        Some("hud-lite".to_string()),
        50,
        vec!["a".to_string()],
        None,
    );
    assert_eq!(m.source, "nexus");
    assert_eq!(m.mod_id, Some(12));
    assert_eq!(m.file_id, None);
    assert_eq!(m.version, Some("1.0".to_string()));
    assert_eq!(m.display_name, Some("Better HUD".to_string()));
    assert_eq!(m.file_name, Some("hud-lite".to_string()));
    assert_eq!(m.installed_at, 50);
}

#[test]
fn nexus_meta_and_log() {
    let m = nexus_install_meta(5, 6, Some("2.0".to_string()), Some("Main".to_string()), 7, vec![], Some("B".to_string()));
    assert_eq!(m.source, "nexus");
    assert_eq!((m.mod_id, m.file_id), (Some(5), Some(6)));
    assert_eq!(m.display_name, None);
    assert_eq!(m.backup_path, Some("B".to_string()));
    assert_eq!(nexus_install_log("Hud", 5, 6), "Nexus install: Hud (mod 5, file 6)");
}

#[test]
fn offered_files_are_main_and_optional() {
    let files = vec![
        api_file(1, Some("Main file"), Some("1.0"), Some(1)),
        api_file(2, None, None, Some(3)),
        api_file(3, Some("Old"), None, Some(4)),
        api_file(4, Some("Unknown"), None, None),
    ];
    let e = offered_file_entries(files);
    assert_eq!(e.len(), 2);
    assert_eq!((e[0].file_id, e[0].name.as_str()), (1, "Main file"));
    assert_eq!((e[1].file_id, e[1].name.as_str()), (2, "File 2"));
    assert_eq!(e[0].version, Some("1.0".to_string()));
}

#[test]
fn updates_detected_by_version_text() {
    let s = |x: &str| Some(x.to_string());
    assert!(has_update(&s("1.0"), &s("1.1")));
    assert!(!has_update(&s("1.0"), &s("1.0")));
    assert!(!has_update(&None, &s("1.0")));
    assert!(!has_update(&s("1.0"), &None));
}

#[test]
fn update_file_matches_installed_name() {
    let files = vec![
        api_file(10, Some("Plus"), None, Some(1)),
        api_file(11, Some("Lite"), None, Some(1)),
        api_file(12, Some("lite"), None, Some(3)),
    ];
    assert_eq!(pick_update_file(&files, &Some("LITE".to_string())), (Some(11), Some("Lite".to_string())));
    assert_eq!(pick_update_file(&files, &Some("Other".to_string())), (Some(10), Some("Plus".to_string())));
    assert_eq!(pick_update_file(&files, &None), (Some(10), Some("Plus".to_string())));
    assert_eq!(pick_update_file(&vec![api_file(1, None, None, Some(3))], &None), (None, None));
}

#[test]
fn update_status_fields() {
    let files = vec![api_file(10, Some("Main"), None, Some(1))];
    let st = update_status(
        "Hud".to_string(),
        "C:\\Mods\\Hud".to_string(),
        9,
        Some("1.0".to_string()),
        Some("1.1".to_string()),
        &None,
        Some(&files),
    );
    assert!(st.has_update);
    assert_eq!(st.latest_file_id, Some(10));
    assert_eq!(st.latest_file_name, Some("Main".to_string()));
    assert_eq!(st.mod_id, Some(9));
    let st = update_status("Hud".to_string(), "p".to_string(), 9, None, Some("1.1".to_string()), &None, Some(&files));
    assert!(!st.has_update);
    assert_eq!(st.latest_file_id, None);
}

#[test]
fn tracked_mods_and_users() {
    let mut m = ModMeta {
        source: "nexus".to_string(),
        mod_id: Some(1),
        file_id: None,
        version: None,
        display_name: None,
        file_name: None,
        installed_at: 0,
        installed_files: None,
        backup_path: None,
    };
    assert!(is_tracked_nexus_mod(&m));
    m.mod_id = None;
    assert!(!is_tracked_nexus_mod(&m));
    let u = user_info(Some(true), Some("diver".to_string()));
    assert!(u.is_premium);
    assert_eq!(u.username, "diver");
    let u = user_info(None, None);
    assert!(!u.is_premium);
    assert_eq!(u.username, "");
}

#[test]
fn download_flow_helpers() {
    let mut c = Config::empty();
    assert_eq!(download_dir(&c, "C:\\data"), "C:\\data\\downloads");
    c.download_dir = Some("D:\\dl".to_string());
    assert_eq!(download_dir(&c, "C:\\data"), "D:\\dl");
    assert_eq!(first_download_link(vec!["u1".to_string(), "u2".to_string()]).unwrap(), "u1");
    assert_eq!(first_download_link(vec![]).unwrap_err(), "No download links returned");
    assert_eq!(
        direct_install_refused(Some("Premium only")),
        "Nexus requires a Premium account for direct installs (Premium only). Use the \"Mod Manager Download\" button on the Nexus website instead."
    );
    assert!(direct_install_refused(None).contains("(unknown error)"));
    assert_eq!(install_folder_name(&Some("lite".to_string()), "Hud"), "lite");
    assert_eq!(install_folder_name(&None, "Hud"), "Hud");
    let info = ZipInfo {
        suggested_name: "x".to_string(),
        install_type: "script".to_string(),
        needs_name_prompt: true,
        nexus_mod_id: Some(3),
    };
    let named = with_nexus_name(info, Some("Better HUD".to_string()));
    assert_eq!(named.suggested_name, "Better HUD");
    assert!(!named.needs_name_prompt);
    assert_eq!(named.nexus_mod_id, Some(3));
}

#[test]
fn pkce_challenge_is_base64_of_sha256() {
    // SHA-256 of the empty text is e3b0c442...b855.
    assert_eq!(generate_code_challenge(""), "47DEQpj8HBSa-_TImW-5JCeuQeRkm5NMpJWZG3hSuFU");
    assert_eq!(
        generate_code_challenge("dBjftJeZ4CVP-mJ92K9qYNmO3iOqDNt9v9lfXI7Kjp0"),
        "l8zDxpg33ujzbcRbnAnFsg15cHdf0hoecK8f2FxOPQo"
    );
}

#[test]
fn verifier_is_base64_of_32_bytes() {
    let v = generate_code_verifier();
    assert_eq!(v.len(), 43);
    assert!(v.chars().all(|c| c.is_ascii_alphanumeric() || c == '-' || c == '_'));
    assert_ne!(generate_code_verifier(), v);
}

#[test]
fn law_state_is_hex_example() {
    assert_eq!(hex_encode(&[0x00, 0x0f, 0xab, 0xff]), "000fabff");
    let s = generate_state();
    assert_eq!(s.len(), 32);
    assert!(s.chars().all(|c| c.is_ascii_digit() || ('a'..='f').contains(&c)));
}

#[test]
fn authorize_address() {
    assert_eq!(
        auth_url("cid", "st", "ch"),
        "https://users.nexusmods.com/oauth/authorize?client_id=cid&response_type=code&scope=&redirect_uri=http%3A%2F%2F127.0.0.1%3A8089%2Fcallback&state=st&code_challenge_method=S256&code_challenge=ch"
    );
    let mut c = Config::empty();
    assert_eq!(oauth_client_id(&c), "public_test");
    c.nexus_client_id = Some("mine".to_string());
    assert_eq!(oauth_client_id(&c), "mine");
}

#[test]
fn callback_request_line() {
    assert_eq!(
        parse_oauth_callback("GET /callback?code=abc&state=xyz HTTP/1.1\r\n").unwrap(),
        ("abc".to_string(), "xyz".to_string())
    );
    assert_eq!(
        parse_oauth_callback("GET /callback?state=xyz HTTP/1.1").unwrap_err(),
        "OAuth callback missing code or state"
    );
    assert!(parse_oauth_callback("").is_err());
    assert!(check_oauth_state(&"a".to_string(), &"a".to_string()).is_ok());
    assert_eq!(
        check_oauth_state(&"a".to_string(), &"b".to_string()).unwrap_err(),
        "Authentication failed (state mismatch)"
    );
}

#[test]
fn jwt_payload_decoded() {
    // {"exp":1} in URL-safe base64 without padding is eyJleHAiOjF9.
    assert_eq!(decode_jwt_payload("h.eyJleHAiOjF9.s").unwrap(), b"{\"exp\":1}".to_vec());
    assert_eq!(decode_jwt_payload("nodots").unwrap_err(), "Invalid JWT");
    assert!(decode_jwt_payload("h.!!!.s").unwrap_err().starts_with("JWT decode: "));
}

#[test]
fn sign_in_recorded() {
    let claims = JwtClaims {
        exp: Some(100),
        username: Some("diver".to_string()),
        membership_roles: Some(vec![Some("member".to_string()), None, Some("lifetimepremium".to_string())]),
    };
    assert!(is_premium(&claims));
    let mut c = Config::empty();
    record_sign_in(&mut c, "at".to_string(), "rt".to_string(), &claims);
    assert_eq!(c.nexus_token, Some("at".to_string()));
    assert_eq!(c.nexus_refresh_token, Some("rt".to_string()));
    assert_eq!(c.nexus_token_expiry, Some(100));
    assert_eq!(c.nexus_username, Some("diver".to_string()));
    assert_eq!(c.nexus_is_premium, Some(true));
    let bare = JwtClaims { exp: None, username: None, membership_roles: None };
    record_sign_in(&mut c, "a2".to_string(), "r2".to_string(), &bare);
    assert_eq!(c.nexus_token_expiry, Some(0));
    assert_eq!(c.nexus_username, Some(String::new()));
    assert_eq!(c.nexus_is_premium, Some(false));
    record_refresh(&mut c, "a3".to_string(), "r3".to_string(), &bare);
    assert_eq!(c.nexus_username, None);
    assert_eq!(c.nexus_token, Some("a3".to_string()));
}

#[test]
fn auth_steps() {
    let mut c = Config::empty();
    assert!(auth_step(&c, 0).is_none());
    c.nexus_token = Some("t".to_string());
    c.nexus_token_expiry = Some(1000);
    c.nexus_refresh_token = Some("r".to_string());
    c.nexus_client_id = Some("id".to_string());
    assert!(matches!(auth_step(&c, 939), Some(AuthStep::Bearer(t)) if t == "t"));
    assert!(matches!(auth_step(&c, 940), Some(AuthStep::Refresh(r, id)) if r == "r" && id == "id"));
    c.nexus_token_expiry = Some(30);
    assert!(matches!(auth_step(&c, 0), Some(AuthStep::Refresh(_, _))));
    assert_eq!(bearer_header("t"), ("Authorization".to_string(), "Bearer t".to_string()));
    assert_eq!(
        api_key_header(&c).unwrap_err(),
        "No Nexus authentication. Sign in with Nexus Mods or add an API key in Settings."
    );
    c.nexus_api_key = Some("k".to_string());
    assert_eq!(api_key_header(&c).unwrap(), ("apikey".to_string(), "k".to_string()));
}

#[test]
fn token_forms_and_messages() {
    let f = code_exchange_form("c", "v", "id");
    assert_eq!(f[0], ("grant_type".to_string(), "authorization_code".to_string()));
    assert_eq!(f[1], ("redirect_uri".to_string(), "http://127.0.0.1:8089/callback".to_string()));
    assert_eq!(f[4], ("code_verifier".to_string(), "v".to_string()));
    let r = refresh_form("rt", "id");
    assert_eq!(r, vec![
        ("grant_type".to_string(), "refresh_token".to_string()),
        ("client_id".to_string(), "id".to_string()),
        ("refresh_token".to_string(), "rt".to_string()),
    ]);
    assert_eq!(token_exchange_failed("bad"), "Token exchange failed: bad");
    assert_eq!(token_refresh_failed(), "Token refresh failed \u{2014} please sign in again");
    assert!(callback_page().starts_with("HTTP/1.1 200 OK\r\n"));
    assert!(callback_page().contains("\u{2713} Signed in! You can close this tab."));
}

#[test]
fn nxm_ids_read_as_numbers() {
    let r = parse_nxm_url("nxm://subnautica2/mods/+12/files/x7?key=k").unwrap();
    assert_eq!(nxm_ids(&r), (Some(12), None));
    let r = parse_nxm_url("nxm://subnautica2/mods/18446744073709551616/files/0").unwrap();
    assert_eq!(nxm_ids(&r), (None, Some(0)));
}

fn meta_from(source: &str, mod_id: Option<u64>) -> ModMeta {
    ModMeta {
        source: source.to_string(),
        mod_id,
        file_id: None,
        version: None,
        display_name: None,
        file_name: None,
        installed_at: 0,
        installed_files: None,
        backup_path: None,
    }
}

#[test]
fn nexus_commands_need_setup() {
    assert_eq!(nxm_mods_folder(None).unwrap_err(), "No config \u{2014} please complete setup first");
    assert_eq!(direct_install_mods_folder(None).unwrap_err(), "No config");
    assert_eq!(update_check_mods_folder(None), None);
    let mut c = Config::empty();
    assert_eq!(nxm_mods_folder(Some(&c)).unwrap_err(), "No mods folder configured");
    assert_eq!(direct_install_mods_folder(Some(&c)).unwrap_err(), "No mods folder configured");
    assert_eq!(update_check_mods_folder(Some(&c)), None);
    c.mods_folder = Some("C:\\Mods".to_string());
    assert_eq!(nxm_mods_folder(Some(&c)).unwrap(), "C:\\Mods");
    assert_eq!(direct_install_mods_folder(Some(&c)).unwrap(), "C:\\Mods");
    assert_eq!(update_check_mods_folder(Some(&c)), Some("C:\\Mods".to_string()));
}

#[test]
fn update_check_asks_about_nexus_mods_only() {
    let f = |name: &str, meta: Option<ModMeta>| FolderMeta { name: name.to_string(), path: format!("P/{}", name), meta };
    let scripts = vec![
        f("A", Some(meta_from("nexus", Some(1)))),
        f("B", Some(meta_from("manual", Some(2)))),
        f("C", None),
        f("D", Some(meta_from("nexus", None))),
        f("E", Some(meta_from("nexus", Some(5)))),
    ];
    let paks = vec![f("Farm.disabled", Some(meta_from("nexus", Some(7)))), f("G", Some(meta_from("x", Some(8))))];
    let r = tracked_nexus_mods(scripts, paks);
    let names: Vec<&str> = r.iter().map(|m| m.name.as_str()).collect();
    assert_eq!(names, vec!["A", "E", "Farm"]);
    assert_eq!(r[2].path, "P/Farm.disabled");
    assert_eq!(r[2].meta.as_ref().unwrap().mod_id, Some(7));
}
