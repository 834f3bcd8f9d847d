//! The game's install: the clock, the game and loader files under the game
//! folder, the folder layout that script mods need, and the Steam libraries
//! where the game may be installed.
use vstd::prelude::*;
use std::time::{Duration, SystemTime, UNIX_EPOCH};
use crate::model::Config;
use crate::mods::{derive_inner_game_folder, join3, join3_exec, no_game_folder_message};
use crate::paths::{ancestor_spec, join_path_str, join_spec};
use crate::text::{
    chars_of, find_spec, find_str, lines_of, lines_spec, replace_char, replace_chars,
    split_chars, split_spec, string_from, trim, trim_spec, views,
};

verus! {

broadcast use vstd::seq_lib::group_seq_properties;

// ---------------------------------------------------------------------------
// The clock
// ---------------------------------------------------------------------------

#[verifier::external_type_specification]
#[verifier::external_body]
pub struct ExSystemTime(SystemTime);

/// `SystemTime::now`: the system clock's reading. Nothing is stated of it.
#[verifier::external_body]
fn system_now() -> SystemTime {
    SystemTime::now()
}

/// `SystemTime::duration_since(UNIX_EPOCH)`: how long after the Unix epoch
/// `t` lies, or `None` when `t` lies before it. Nothing is stated of which
/// comes back: it depends on the clock.
#[verifier::external_body]
fn since_epoch(t: &SystemTime) -> Option<Duration> {
    t.duration_since(UNIX_EPOCH).ok()
}

/// `Duration::as_secs`: the whole seconds of a duration. Nothing is stated
/// of the number, since a duration is opaque here.
#[verifier::external_body]
fn whole_secs(d: &Duration) -> u64 {
    d.as_secs()
}

/// The current time in whole seconds since the Unix epoch, or 0 when the
/// clock reads earlier than the epoch.
pub fn now_secs() -> u64 {
    match since_epoch(&system_now()) {
        Some(d) => whole_secs(&d),
        None => 0,
    }
}

// ---------------------------------------------------------------------------
// Files under the game folder
// ---------------------------------------------------------------------------

/// The game's executable inside the game folder.
pub open spec fn game_exe_spec(inner: Seq<char>) -> Seq<char> {
    join3(inner, "Binaries"@, "Win64"@, "Subnautica2-Win64-Shipping.exe"@)
}

/// The loader's folder inside the game folder.
pub open spec fn ue4ss_dir_spec(inner: Seq<char>) -> Seq<char> {
    join3(inner, "Binaries"@, "Win64"@, "ue4ss"@)
}

/// The loader's library inside the game folder.
pub open spec fn ue4ss_dll_spec(inner: Seq<char>) -> Seq<char> {
    join_spec(ue4ss_dir_spec(inner), "UE4SS.dll"@)
}

/// The script mods folder inside the game folder.
pub open spec fn mods_folder_spec(inner: Seq<char>) -> Seq<char> {
    join_spec(ue4ss_dir_spec(inner), "Mods"@)
}

/// The game folder of a configuration: an error when there is no
/// configuration, no mods folder, or a mods folder too shallow.
pub open spec fn configured_game_folder(config: Option<&Config>) -> Result<Seq<char>, Seq<char>> {
    match config {
        None => Err("No config found"@),
        Some(c) => match c.mods_folder {
            None => Err("No mods folder configured"@),
            Some(f) => match ancestor_spec(f@, 4) {
                Some(inner) => Ok(inner),
                None => Err(no_game_folder_message()),
            },
        },
    }
}

/// The game folder of a configuration, or why there is none.
fn game_folder_of(config: Option<&Config>) -> (r: Result<String, String>)
    ensures
        match r {
            Ok(p) => configured_game_folder(config) == Ok::<Seq<char>, Seq<char>>(p@),
            Err(e) => configured_game_folder(config) == Err::<Seq<char>, Seq<char>>(e@),
        },
{
    match config {
        None => Err("No config found".to_owned()),
        Some(c) => match &c.mods_folder {
            None => Err("No mods folder configured".to_owned()),
            Some(f) => derive_inner_game_folder(f.as_str()),
        },
    }
}

/// The executable to start when the game is launched (`launch_game`).
pub fn launch_target(config: Option<&Config>) -> (r: Result<String, String>)
    ensures
        match r {
            Ok(p) => configured_game_folder(config) matches Ok(inner) && p@ == game_exe_spec(inner),
            Err(e) => configured_game_folder(config) == Err::<Seq<char>, Seq<char>>(e@),
        },
{
    let inner = game_folder_of(config)?;
    let v = chars_of(inner.as_str());
    let p = join3_exec(v.as_slice(), "Binaries", "Win64", "Subnautica2-Win64-Shipping.exe");
    Ok(string_from(p.as_slice()))
}

/// The message when the executable is missing.
pub fn exe_not_found_message(exe: &str) -> (r: String)
    ensures
        r@ == "Executable not found: "@ + exe@,
{
    let mut m = chars_of("Executable not found: ");
    crate::text::extend_str(&mut m, exe);
    string_from(m.as_slice())
}

/// The loader's library whose presence tells that the loader is installed
/// (`check_ue4ss`): none when the configuration locates no game folder.
pub fn ue4ss_dll_path(config: Option<&Config>) -> (r: Option<String>)
    ensures
        match r {
            Some(p) => configured_game_folder(config) matches Ok(inner) && p@ == ue4ss_dll_spec(inner),
            None => configured_game_folder(config) is Err,
        },
{
    match game_folder_of(config) {
        Ok(inner) => {
            let v = chars_of(inner.as_str());
            let d = join3_exec(v.as_slice(), "Binaries", "Win64", "ue4ss");
            let p = join_path_str(d.as_slice(), "UE4SS.dll");
            Some(string_from(p.as_slice()))
        },
        Err(_) => None,
    }
}

// ---------------------------------------------------------------------------
// Setting up the mods folder
// ---------------------------------------------------------------------------

/// The `Binaries` folder when the chosen folder is the Steam install folder,
/// which holds the game folder `Subnautica2`.
pub open spec fn nested_binaries_spec(base: Seq<char>) -> Seq<char> {
    join_spec(join_spec(base, "Subnautica2"@), "Binaries"@)
}

/// The `Binaries` folder when the chosen folder is the game folder itself.
pub open spec fn direct_binaries_spec(base: Seq<char>) -> Seq<char> {
    join_spec(base, "Binaries"@)
}

/// The message when neither folder holds the game.
pub open spec fn game_files_missing_message() -> Seq<char> {
    "Subnautica 2 game files not found here. Select the folder named Subnautica2 inside your Steam library."@
}

/// The mods folder to create for a chosen folder, given whether the nested
/// and the direct `Binaries` folders exist: the nested layout wins.
pub open spec fn mod_structure_spec(base: Seq<char>, nested_is_dir: bool, direct_is_dir: bool) -> Result<
    Seq<char>,
    Seq<char>,
> {
    if nested_is_dir {
        Ok(mods_folder_spec(join_spec(base, "Subnautica2"@)))
    } else if direct_is_dir {
        Ok(mods_folder_spec(base))
    } else {
        Err(game_files_missing_message())
    }
}

/// The `Binaries` folder to look for under the Steam install layout.
pub fn nested_binaries_path(game_folder: &str) -> (r: String)
    ensures
        r@ == nested_binaries_spec(game_folder@),
{
    let v = chars_of(game_folder);
    let a = join_path_str(v.as_slice(), "Subnautica2");
    let b = join_path_str(a.as_slice(), "Binaries");
    string_from(b.as_slice())
}

/// The `Binaries` folder to look for directly under the chosen folder.
pub fn direct_binaries_path(game_folder: &str) -> (r: String)
    ensures
        r@ == direct_binaries_spec(game_folder@),
{
    let v = chars_of(game_folder);
    let b = join_path_str(v.as_slice(), "Binaries");
    string_from(b.as_slice())
}

/// The mods folder to create for a chosen folder (`create_mod_structure`).
pub fn mod_structure_target(game_folder: &str, nested_is_dir: bool, direct_is_dir: bool) -> (r: Result<
    String,
    String,
>)
    ensures
        match r {
            Ok(p) => mod_structure_spec(game_folder@, nested_is_dir, direct_is_dir)
                == Ok::<Seq<char>, Seq<char>>(p@),
            Err(e) => mod_structure_spec(game_folder@, nested_is_dir, direct_is_dir)
                == Err::<Seq<char>, Seq<char>>(e@),
        },
{
    let v = chars_of(game_folder);
    let inner: Vec<char> = if nested_is_dir {
        join_path_str(v.as_slice(), "Subnautica2")
    } else if direct_is_dir {
        v
    } else {
        return Err(
            "Subnautica 2 game files not found here. Select the folder named Subnautica2 inside your Steam library.".to_owned(),
        );
    };
    let d = join3_exec(inner.as_slice(), "Binaries", "Win64", "ue4ss");
    let p = join_path_str(d.as_slice(), "Mods");
    Ok(string_from(p.as_slice()))
}

// ---------------------------------------------------------------------------
// Steam libraries
// ---------------------------------------------------------------------------

/// Steam's folder as the registry gives it, with `/` written as `\`.
pub open spec fn steam_root_spec(steam_path: Seq<char>) -> Seq<char> {
    replace_char(steam_path, '/', '\\')
}

/// The game's folder inside a Steam library.
pub open spec fn game_in_library(lib: Seq<char>) -> Seq<char> {
    join3(lib, "steamapps"@, "common"@, "Subnautica2"@)
}

/// The file that lists Steam's further libraries.
pub open spec fn library_folders_spec(steam_path: Seq<char>) -> Seq<char> {
    join_spec(join_spec(steam_root_spec(steam_path), "steamapps"@), "libraryfolders.vdf"@)
}

/// Every `\\` replaced by `\`, left to right (`str::replace`).
pub open spec fn unescape_backslashes(s: Seq<char>) -> Seq<char>
    decreases s.len(),
{
    if s.len() < 2 {
        s
    } else if s[0] == '\\' && s[1] == '\\' {
        seq!['\\'] + unescape_backslashes(s.skip(2))
    } else {
        seq![s[0]] + unescape_backslashes(s.skip(1))
    }
}

/// The library that a line of the library list names: the fourth piece
/// between quotes of the trimmed line (`"path"   "F:\\SteamLibrary"`),
/// when it holds `:\` or starts with `/`, unescaped.
pub open spec fn library_of_line(line: Seq<char>) -> Option<Seq<char>> {
    let t = split_spec(trim_spec(line), '"');
    if t.len() > 3 && (find_spec(t[3], ":\\"@) is Some || (t[3].len() > 0 && t[3][0] == '/')) {
        Some(unescape_backslashes(t[3]))
    } else {
        None
    }
}

/// The libraries that lines of the library list name, in order.
pub open spec fn libraries_of(lines: Seq<Seq<char>>) -> Seq<Seq<char>>
    decreases lines.len(),
{
    if lines.len() == 0 {
        Seq::empty()
    } else {
        libraries_of(lines.drop_last()) + match library_of_line(lines.last()) {
            Some(l) => seq![l],
            None => Seq::empty(),
        }
    }
}

/// Where the game may be installed, in the order they are tried: Steam's own
/// library, then each library of the list (when the list could be read).
pub open spec fn install_candidates(steam_path: Seq<char>, vdf: Option<Seq<char>>) -> Seq<Seq<char>> {
    seq![game_in_library(steam_root_spec(steam_path))] + match vdf {
        Some(v) => libraries_of(lines_spec(v)).map_values(|l: Seq<char>| game_in_library(l)),
        None => Seq::empty(),
    }
}

/// The first candidate that is present (`present[i]` for the `i`-th).
pub open spec fn first_present(c: Seq<Seq<char>>, present: Seq<bool>) -> Option<Seq<char>>
    decreases c.len(),
{
    if c.len() == 0 || present.len() == 0 {
        None
    } else if present[0] {
        Some(c[0])
    } else {
        first_present(c.drop_first(), present.drop_first())
    }
}

/// `s` with every `\\` replaced by `\`.
fn unescape_exec(v: &[char]) -> (r: Vec<char>)
    ensures
        r@ == unescape_backslashes(v@),
{
    let mut out: Vec<char> = Vec::new();
    let mut i: usize = 0;
    assert(v@.skip(0) == v@);
    while i < v.len()
        invariant
            i <= v@.len(),
            out@ + unescape_backslashes(v@.skip(i as int)) == unescape_backslashes(v@),
        decreases v@.len() - i,
    {
        let ghost rest = v@.skip(i as int);
        if i + 1 < v.len() && v[i] == '\\' && v[i + 1] == '\\' {
            assert(rest[0] == '\\' && rest[1] == '\\');
            assert(rest.skip(2) == v@.skip(i + 2));
            out.push('\\');
            i = i + 2;
            assert(out@ + unescape_backslashes(v@.skip(i as int)) =~= unescape_backslashes(v@));
        } else {
            proof {
                assert(rest[0] == v@[i as int]);
                if rest.len() >= 2 {
                    assert(rest.skip(1) == v@.skip(i + 1));
                } else {
                    assert(rest == seq![v@[i as int]]);
                    assert(v@.skip(i + 1).len() == 0);
                }
            }
            out.push(v[i]);
            i = i + 1;
            assert(out@ + unescape_backslashes(v@.skip(i as int)) =~= unescape_backslashes(v@));
        }
    }
    assert(v@.skip(i as int).len() == 0);
    assert(out@ + Seq::<char>::empty() == out@);
    out
}

/// The library that a line of the library list names.
fn library_in_line(line: &[char]) -> (r: Option<Vec<char>>)
    ensures
        match r {
            Some(l) => library_of_line(line@) == Some(l@),
            None => library_of_line(line@) is None,
        },
{
    let t = trim(line);
    let pieces = split_chars(t.as_slice(), '"');
    assert(pieces@.map_values(|x: Vec<char>| x@).len() == pieces@.len());
    if pieces.len() > 3 {
        let raw = &pieces[3];
        assert(pieces@.map_values(|x: Vec<char>| x@)[3] == raw@);
        let has_drive = find_str(raw.as_slice(), ":\\").is_some();
        let rooted = raw.len() > 0 && raw[0] == '/';
        if has_drive || rooted {
            return Some(unescape_exec(raw.as_slice()));
        }
    }
    None
}

/// The libraries that the library list names, in order.
fn libraries_in(vdf: &str) -> (r: Vec<Vec<char>>)
    ensures
        r@.map_values(|x: Vec<char>| x@) == libraries_of(lines_spec(vdf@)),
{
    let v = chars_of(vdf);
    let lines = lines_of(v.as_slice());
    let ghost ls = lines@.map_values(|x: Vec<char>| x@);
    let mut out: Vec<Vec<char>> = Vec::new();
    for i in 0..lines.len()
        invariant
            ls == lines@.map_values(|x: Vec<char>| x@),
            ls == lines_spec(vdf@),
            out@.map_values(|x: Vec<char>| x@) == libraries_of(ls.take(i as int)),
    {
        let ghost o0 = out@.map_values(|x: Vec<char>| x@);
        assert(ls.take(i + 1).drop_last() == ls.take(i as int));
        assert(ls.take(i + 1).last() == lines@[i as int]@);
        match library_in_line(lines[i].as_slice()) {
            Some(l) => {
                out.push(l);
                assert(out@.map_values(|x: Vec<char>| x@) =~= libraries_of(ls.take(i + 1)));
            },
            None => {
                assert(out@.map_values(|x: Vec<char>| x@) =~= libraries_of(ls.take(i + 1)));
            },
        }
    }
    assert(ls.take(lines.len() as int) == ls);
    out
}

/// The game's folder inside a library.
fn game_in_library_exec(lib: &[char]) -> (r: Vec<char>)
    ensures
        r@ == game_in_library(lib@),
{
    join3_exec(lib, "steamapps", "common", "Subnautica2")
}

/// The file that lists Steam's further libraries, for Steam's folder as the
/// registry gives it.
pub fn library_folders_path(steam_path: &str) -> (r: String)
    ensures
        r@ == library_folders_spec(steam_path@),
{
    let v = chars_of(steam_path);
    let root = replace_chars(v.as_slice(), '/', '\\');
    let a = join_path_str(root.as_slice(), "steamapps");
    let b = join_path_str(a.as_slice(), "libraryfolders.vdf");
    string_from(b.as_slice())
}

/// Where the game may be installed, in the order they are tried, given
/// Steam's folder and the library list (`None` when it could not be read).
pub fn subnautica2_candidates(steam_path: &str, vdf: Option<&str>) -> (r: Vec<String>)
    ensures
        views(r@) == install_candidates(steam_path@, opt_str_view(vdf)),
{
    let v = chars_of(steam_path);
    let root = replace_chars(v.as_slice(), '/', '\\');
    let first = game_in_library_exec(root.as_slice());
    let mut out: Vec<String> = Vec::new();
    out.push(string_from(first.as_slice()));
    let ghost head = seq![game_in_library(steam_root_spec(steam_path@))];
    assert(views(out@) =~= head);
    match vdf {
        Some(text) => {
            let libs = libraries_in(text);
            let ghost lv = libs@.map_values(|x: Vec<char>| x@);
            for i in 0..libs.len()
                invariant
                    lv == libs@.map_values(|x: Vec<char>| x@),
                    views(out@) == head + lv.take(i as int).map_values(
                        |l: Seq<char>| game_in_library(l),
                    ),
            {
                let ghost o0 = views(out@);
                let g = game_in_library_exec(libs[i].as_slice());
                out.push(string_from(g.as_slice()));
                assert(views(out@) =~= o0.push(game_in_library(lv[i as int])));
                assert(lv.take(i + 1) == lv.take(i as int).push(libs@[i as int]@));
                assert(lv.take(i + 1).map_values(|l: Seq<char>| game_in_library(l)) =~= lv.take(
                    i as int,
                ).map_values(|l: Seq<char>| game_in_library(l)).push(game_in_library(lv[i as int])));
                assert(views(out@) =~= head + lv.take(i + 1).map_values(
                    |l: Seq<char>| game_in_library(l),
                ));
            }
            assert(lv.take(libs.len() as int) == lv);
        },
        None => {
            assert(views(out@) =~= head + Seq::<Seq<char>>::empty());
        },
    }
    out
}

/// The text of an optional string.
pub open spec fn opt_str_view(s: Option<&str>) -> Option<Seq<char>> {
    match s {
        Some(t) => Some(t@),
        None => None,
    }
}

/// The first of the candidates that is present (`present[i]` for the
/// `i`-th).
pub fn pick_first_present(c: &Vec<String>, present: &Vec<bool>) -> (r: Option<String>)
    requires
        present@.len() == c@.len(),
    ensures
        match r {
            Some(p) => first_present(views(c@), present@) == Some(p@),
            None => first_present(views(c@), present@) is None,
        },
{
    let ghost cv = views(c@);
    let mut i: usize = 0;
    assert(cv.skip(0) == cv && present@.skip(0) == present@);
    while i < c.len()
        invariant
            cv == views(c@),
            cv.len() == present@.len(),
            i <= c.len(),
            first_present(cv, present@) == first_present(cv.skip(i as int), present@.skip(i as int)),
        decreases c.len() - i,
    {
        assert(cv.skip(i as int)[0] == c@[i as int]@);
        assert(present@.skip(i as int)[0] == present@[i as int]);
        if present[i] {
            let x = c[i].clone();
            assert(x@ == c@[i as int]@);
            assert(cv.skip(i as int).len() > 0 && present@.skip(i as int).len() > 0);
            assert(first_present(cv.skip(i as int), present@.skip(i as int)) == Some(x@));
            return Some(x);
        }
        assert(cv.skip(i as int).drop_first() == cv.skip(i + 1));
        assert(present@.skip(i as int).drop_first() == present@.skip(i + 1));
        i = i + 1;
    }
    None
}

/// Where the game is installed (`find_subnautica2_install`): the first
/// candidate of `subnautica2_candidates` that is a folder, given which are
/// (`present[i]` for the `i`-th).
pub fn find_subnautica2_install(steam_path: &str, vdf: Option<&str>, present: &Vec<bool>) -> (r: Option<
    String,
>)
    requires
        present@.len() == install_candidates(steam_path@, opt_str_view(vdf)).len(),
    ensures
        match r {
            Some(p) => first_present(install_candidates(steam_path@, opt_str_view(vdf)), present@)
                == Some(p@),
            None => first_present(install_candidates(steam_path@, opt_str_view(vdf)), present@) is None,
        },
{
    let c = subnautica2_candidates(steam_path, vdf);
    pick_first_present(&c, present)
}

} // verus!
