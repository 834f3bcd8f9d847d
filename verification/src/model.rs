//! The records that the mod manager keeps and hands out.
use vstd::prelude::*;

verus! {

/// One saved loadout: a name and the script mods that it enables.
#[derive(Debug)]
pub struct Profile {
    pub name: String,
    pub mods: Vec<String>,
}

/// The application's settings.
#[derive(Debug)]
pub struct Config {
    pub mods_folder: Option<String>,
    pub setup_complete: Option<bool>,
    pub nexus_client_id: Option<String>,
    pub nexus_token: Option<String>,
    pub nexus_refresh_token: Option<String>,
    pub nexus_token_expiry: Option<u64>,
    pub nexus_username: Option<String>,
    pub nexus_is_premium: Option<bool>,
    pub nexus_api_key: Option<String>,
    /// Saved profiles, each name at most once.
    pub profiles: Option<Vec<Profile>>,
    pub active_profile: Option<String>,
    pub download_dir: Option<String>,
}

impl Config {
    /// A configuration with nothing set.
    pub fn empty() -> (c: Config)
        ensures
            c.mods_folder is None,
            c.setup_complete is None,
            c.nexus_client_id is None,
            c.nexus_token is None,
            c.nexus_refresh_token is None,
            c.nexus_token_expiry is None,
            c.nexus_username is None,
            c.nexus_is_premium is None,
            c.nexus_api_key is None,
            c.profiles is None,
            c.active_profile is None,
            c.download_dir is None,
    {
        Config {
            mods_folder: None,
            setup_complete: None,
            nexus_client_id: None,
            nexus_token: None,
            nexus_refresh_token: None,
            nexus_token_expiry: None,
            nexus_username: None,
            nexus_is_premium: None,
            nexus_api_key: None,
            profiles: None,
            active_profile: None,
            download_dir: None,
        }
    }
}

/// What the manager records about an installed mod.
#[derive(Debug)]
pub struct ModMeta {
    /// `"nexus"` or `"manual"`.
    pub source: String,
    pub mod_id: Option<u64>,
    pub file_id: Option<u64>,
    pub version: Option<String>,
    pub display_name: Option<String>,
    pub file_name: Option<String>,
    pub installed_at: u64,
    pub installed_files: Option<Vec<String>>,
    pub backup_path: Option<String>,
}

/// An installed mod as the library lists it.
#[derive(Debug)]
pub struct ModEntry {
    pub name: String,
    pub enabled: bool,
    pub path: String,
    /// `"script"` or `"pak"`.
    pub mod_type: String,
    pub meta: Option<ModMeta>,
    pub config_files: Vec<String>,
    pub has_backup: bool,
}

/// What an archive holds, as far as installing it goes.
#[derive(Debug)]
pub struct ZipInfo {
    pub suggested_name: String,
    /// `"ue4ss"`, `"game_relative"`, `"pak"` or `"script"`.
    pub install_type: String,
    pub needs_name_prompt: bool,
    pub nexus_mod_id: Option<u64>,
}

/// One finding of the diagnostics.
#[derive(Debug)]
pub struct DiagIssue {
    /// `"error"`, `"warning"` or `"ok"`.
    pub severity: String,
    pub title: String,
    pub detail: String,
}

/// One entry of the activity log.
#[derive(Debug)]
pub struct LogLine {
    pub ts: u64,
    pub level: String,
    pub message: String,
}

/// The outcome of checking that a mod's recorded files are still present.
#[derive(Debug)]
pub struct VerifyResult {
    pub mod_path: String,
    pub ok: bool,
    pub missing: Vec<String>,
}

/// The account behind a Nexus API key.
#[derive(Debug)]
pub struct NexusUserInfo {
    pub is_premium: bool,
    pub username: String,
}

/// A downloadable file of a Nexus mod.
#[derive(Debug)]
pub struct NexusFileEntry {
    pub file_id: u64,
    pub name: String,
    pub version: Option<String>,
    pub size_kb: Option<u64>,
}

/// Whether an installed Nexus mod has a newer version.
#[derive(Debug)]
pub struct ModUpdateStatus {
    pub mod_name: String,
    pub mod_path: String,
    pub has_update: bool,
    pub installed_version: Option<String>,
    pub latest_version: Option<String>,
    pub mod_id: Option<u64>,
    pub latest_file_id: Option<u64>,
    pub latest_file_name: Option<String>,
}

/// Loose pak files in the pak folder that share a stem.
#[derive(Debug)]
pub struct UnmanagedGroup {
    pub suggested_name: String,
    pub files: Vec<String>,
}

/// One mod in a mod pack.
#[derive(Debug)]
pub struct ModpackEntry {
    pub name: String,
    /// `"pak"` or `"script"`.
    pub mod_type: String,
    pub enabled: bool,
}

/// Whether the user is signed in to Nexus.
#[derive(Debug)]
pub struct AuthStatus {
    pub signed_in: bool,
    pub username: Option<String>,
    pub is_premium: bool,
}

/// Whether a newer release of the application is available.
#[derive(Debug)]
pub struct UpdateInfo {
    pub available: bool,
    pub version: Option<String>,
    pub notes: Option<String>,
}

} // verus!
