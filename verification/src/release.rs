//! Updating the application itself: what an update check reports, where a
//! release's installer package lives, which entry of the package is the
//! installer, and the script that runs it once the application has exited.
use vstd::prelude::*;
use crate::model::UpdateInfo;
use crate::text::{chars_of, ends_with_str, extend_chars, extend_str, opt_view, string_from};

verus! {

broadcast use vstd::seq_lib::group_seq_properties;

/// What an update check reports: the newer release's version and notes
/// when there is one; nothing available when there is none or the check
/// failed (`check_for_update`).
pub fn update_info(found: Option<(String, Option<String>)>) -> (r: UpdateInfo)
    ensures
        match found {
            Some((v, n)) => r.available && r.version == Some(v) && r.notes == n,
            None => !r.available && r.version is None && r.notes is None,
        },
{
    match found {
        Some((v, n)) => UpdateInfo { available: true, version: Some(v), notes: n },
        None => UpdateInfo { available: false, version: None, notes: None },
    }
}

/// Where the installer package of a release is published.
pub open spec fn installer_package_spec(version: Seq<char>) -> Seq<char> {
    "https://github.com/ToobsTube/Tidekeeper/releases/download/v"@ + version + "/Tidekeeper_"@
        + version + "_x64-setup.nsis.zip"@
}

/// Where the installer package of a release is published.
pub fn installer_package_url(version: &str) -> (r: String)
    ensures
        r@ == installer_package_spec(version@),
{
    let mut v = chars_of("https://github.com/ToobsTube/Tidekeeper/releases/download/v");
    extend_str(&mut v, version);
    extend_str(&mut v, "/Tidekeeper_");
    extend_str(&mut v, version);
    extend_str(&mut v, "_x64-setup.nsis.zip");
    string_from(v.as_slice())
}

/// What a search of the package's entries for the installer finds.
#[derive(Debug)]
pub enum InstallerSearch {
    /// The installer is the entry at this index.
    Found(usize),
    /// The entry at this index could not be opened, before any installer.
    Unreadable(usize),
    /// No entry is an installer.
    Missing,
}

/// Whether an entry stops the search: it cannot be opened, or its name ends
/// in `.exe`.
pub open spec fn stops_search(e: Option<Seq<char>>) -> bool {
    match e {
        Some(n) => ".exe"@.is_suffix_of(n),
        None => true,
    }
}

/// The installer among a package's entries (`install_update`): the first
/// entry whose name ends in `.exe`, unless an entry that cannot be opened
/// comes first.
pub fn installer_entry(names: &Vec<Option<String>>) -> (r: InstallerSearch)
    ensures
        match r {
            InstallerSearch::Found(i) => i < names@.len() && (names@[i as int] matches Some(n)
                && ".exe"@.is_suffix_of(n@)) && forall|k: int|
                0 <= k < i ==> !stops_search(#[trigger] opt_view(names@[k])),
            InstallerSearch::Unreadable(i) => i < names@.len() && names@[i as int] is None && forall|
                k: int,
            |
                0 <= k < i ==> !stops_search(#[trigger] opt_view(names@[k])),
            InstallerSearch::Missing => forall|k: int|
                0 <= k < names@.len() ==> !stops_search(#[trigger] opt_view(names@[k])),
        },
{
    for i in 0..names.len()
        invariant
            forall|k: int| 0 <= k < i ==> !stops_search(#[trigger] opt_view(names@[k])),
    {
        match &names[i] {
            Some(n) => {
                let v = chars_of(n.as_str());
                if ends_with_str(v.as_slice(), ".exe") {
                    return InstallerSearch::Found(i);
                }
            },
            None => {
                return InstallerSearch::Unreadable(i);
            },
        }
    }
    InstallerSearch::Missing
}

/// The message when a package holds no installer.
pub fn installer_missing() -> (r: String)
    ensures
        r@ == "Installer not found in update package"@,
{
    "Installer not found in update package".to_owned()
}

/// A path quoted for the command interpreter: every `"` doubled.
pub open spec fn cmd_escape(s: Seq<char>) -> Seq<char>
    decreases s.len(),
{
    if s.len() == 0 {
        s
    } else {
        cmd_escape(s.drop_last()) + if s.last() == '"' {
            seq!['"', '"']
        } else {
            seq![s.last()]
        }
    }
}

/// A path with every `"` doubled.
fn cmd_escape_exec(s: &str) -> (r: Vec<char>)
    ensures
        r@ == cmd_escape(s@),
{
    let v = chars_of(s);
    let mut out: Vec<char> = Vec::new();
    for i in 0..v.len()
        invariant
            v@ == s@,
            out@ == cmd_escape(v@.take(i as int)),
    {
        assert(v@.take(i + 1).drop_last() == v@.take(i as int));
        assert(v@.take(i + 1).last() == v@[i as int]);
        if v[i] == '"' {
            out.push('"');
            out.push('"');
        } else {
            out.push(v[i]);
        }
        assert(out@ =~= cmd_escape(v@.take(i + 1)));
    }
    assert(v@.take(v.len() as int) == v@);
    out
}

/// The script that waits for the application to exit, runs the installer
/// silently, and starts the application again, logging each step to a file
/// in the temporary folder.
pub open spec fn updater_script_spec(installer: Seq<char>, app_exe: Seq<char>) -> Seq<char> {
    "@echo off\r\necho started >> \"%TEMP%\\tidekeeper_update_log.txt\"\r\nping 127.0.0.1 -n 4 > nul\r\n\""@
        + cmd_escape(installer)
        + "\" /S\r\necho nsis done >> \"%TEMP%\\tidekeeper_update_log.txt\"\r\nping 127.0.0.1 -n 2 > nul\r\nstart \"\" \""@
        + cmd_escape(app_exe)
        + "\"\r\necho relaunch attempted >> \"%TEMP%\\tidekeeper_update_log.txt\"\r\n"@
}

/// The script that runs the installer once the application has exited.
pub fn updater_script(installer: &str, app_exe: &str) -> (r: String)
    ensures
        r@ == updater_script_spec(installer@, app_exe@),
{
    let mut v = chars_of(
        "@echo off\r\necho started >> \"%TEMP%\\tidekeeper_update_log.txt\"\r\nping 127.0.0.1 -n 4 > nul\r\n\"",
    );
    let a = cmd_escape_exec(installer);
    extend_chars(&mut v, a.as_slice());
    extend_str(
        &mut v,
        "\" /S\r\necho nsis done >> \"%TEMP%\\tidekeeper_update_log.txt\"\r\nping 127.0.0.1 -n 2 > nul\r\nstart \"\" \"",
    );
    let b = cmd_escape_exec(app_exe);
    extend_chars(&mut v, b.as_slice());
    extend_str(&mut v, "\"\r\necho relaunch attempted >> \"%TEMP%\\tidekeeper_update_log.txt\"\r\n");
    string_from(v.as_slice())
}

} // verus!
