//! Where mods live: the game's folder layout derived from the mods folder,
//! install destinations, and the names the manager gives to mod folders.
use vstd::prelude::*;
use crate::paths::{
    ancestor_spec, components, extension_spec, join_path, join_path_str, join_spec,
    leading_path_of, path_components, extension_of,
};
use crate::diagnostics::{trim_disabled, trim_disabled_suffix};
use crate::model::{VerifyResult, ZipInfo};
use crate::paths::{
    ends_in_name, file_name_of, file_name_spec, has_parent_dir, lemma_join_parent, path_has_parent_dir,
    is_parent_dir, plain_component, all_components, lemma_join_any_parent, strip_tail,
};
use crate::text::{
    chars_eq_str, chars_of, ends_with_str, eq_ignore_ascii_case, extend_str, lowercase_chars,
    string_from, unicode_lowercase, views, chars_eq_ignore_ascii_case, sub_chars, extend_chars,
};

verus! {

broadcast use vstd::seq_lib::group_seq_properties;

/// The name of the file that holds a mod's metadata.
pub open spec fn meta_file_name() -> Seq<char> {
    "tidekeeper.json"@
}

/// The metadata file of a mod folder.
pub fn meta_path(mod_path: &str) -> (r: String)
    ensures
        r@ == join_spec(mod_path@, meta_file_name()),
{
    let v = chars_of(mod_path);
    let r = join_path_str(v.as_slice(), "tidekeeper.json");
    string_from(r.as_slice())
}

/// The message when the game folder cannot be found from the mods folder.
pub open spec fn no_game_folder_message() -> Seq<char> {
    "Cannot derive game folder from mods path \u{2014} verify your mods folder setting"@
}

/// The game folder: four levels above the mods folder
/// (`.../Subnautica2/Binaries/Win64/ue4ss/Mods` gives `.../Subnautica2`).
pub fn derive_inner_game_folder(mods_folder: &str) -> (r: Result<String, String>)
    ensures
        match r {
            Ok(inner) => ancestor_spec(mods_folder@, 4) == Some(inner@),
            Err(e) => ancestor_spec(mods_folder@, 4) is None && e@ == no_game_folder_message(),
        },
{
    let v = chars_of(mods_folder);
    let cs = path_components(v.as_slice());
    assert(cs@.map_values(|x: Vec<char>| x@).len() == cs@.len());
    if cs.len() < 4 {
        return Err(
            "Cannot derive game folder from mods path \u{2014} verify your mods folder setting".to_owned(),
        );
    }
    let p = leading_path_of(v.as_slice(), cs.len() - 4);
    Ok(string_from(p.as_slice()))
}

/// A path with three literal components appended.
pub open spec fn join3(base: Seq<char>, a: Seq<char>, b: Seq<char>, c: Seq<char>) -> Seq<char> {
    join_spec(join_spec(join_spec(base, a), b), c)
}

/// The folder of pak mods inside the game folder.
pub open spec fn logic_mods_spec(inner: Seq<char>) -> Seq<char> {
    join3(inner, "Content"@, "Paks"@, "LogicMods"@)
}

/// `base` followed by three literal components.
pub(crate) fn join3_exec(base: &[char], a: &str, b: &str, c: &str) -> (r: Vec<char>)
    ensures
        r@ == join3(base@, a@, b@, c@),
{
    let x = join_path_str(base, a);
    let y = join_path_str(x.as_slice(), b);
    join_path_str(y.as_slice(), c)
}

/// The folder of pak mods inside the game folder.
pub fn logic_mods_dir(inner: &str) -> (r: String)
    ensures
        r@ == logic_mods_spec(inner@),
{
    let v = chars_of(inner);
    let r = join3_exec(v.as_slice(), "Content", "Paks", "LogicMods");
    string_from(r.as_slice())
}

/// Where a mod of a given install type lives: pak mods in the pak folder,
/// script mods in the mods folder; the loader has no folder of its own.
pub open spec fn mod_install_path_spec(
    install_type: Seq<char>,
    mods_folder: Seq<char>,
    mod_name: Seq<char>,
) -> Option<Seq<char>> {
    if install_type == "pak"@ {
        match ancestor_spec(mods_folder, 4) {
            Some(inner) => Some(join_spec(logic_mods_spec(inner), mod_name)),
            None => None,
        }
    } else if install_type == "ue4ss"@ {
        None
    } else {
        Some(join_spec(mods_folder, mod_name))
    }
}

/// The folder of an installed mod.
pub fn mod_install_path(install_type: &str, mods_folder: &str, mod_name: &str) -> (r: Option<
    String,
>)
    ensures
        match r {
            Some(p) => mod_install_path_spec(install_type@, mods_folder@, mod_name@) == Some(p@),
            None => mod_install_path_spec(install_type@, mods_folder@, mod_name@) is None,
        },
{
    let t = chars_of(install_type);
    let name = chars_of(mod_name);
    if chars_eq_str(t.as_slice(), "pak") {
        match derive_inner_game_folder(mods_folder) {
            Ok(inner) => {
                let lm = logic_mods_dir(inner.as_str());
                let lv = chars_of(lm.as_str());
                let p = join_path(lv.as_slice(), name.as_slice());
                Some(string_from(p.as_slice()))
            },
            Err(_) => None,
        }
    } else if chars_eq_str(t.as_slice(), "ue4ss") {
        None
    } else {
        let m = chars_of(mods_folder);
        let p = join_path(m.as_slice(), name.as_slice());
        Some(string_from(p.as_slice()))
    }
}

/// The extensions of files that hold a mod's settings.
pub open spec fn is_config_extension(e: Seq<char>) -> bool {
    e == "ini"@ || e == "cfg"@ || e == "toml"@ || e == "json"@
}

/// Whether a path names a settings file: its extension, lowercased, is
/// `ini`, `cfg`, `toml` or `json`.
pub fn matches_config(path: &str) -> (r: bool)
    ensures
        r == (extension_spec(path@) matches Some(e) && is_config_extension(unicode_lowercase(e))),
{
    let v = chars_of(path);
    match extension_of(v.as_slice()) {
        Some(e) => {
            let l = lowercase_chars(e.as_slice());
            chars_eq_str(l.as_slice(), "ini") || chars_eq_str(l.as_slice(), "cfg")
                || chars_eq_str(l.as_slice(), "toml") || chars_eq_str(l.as_slice(), "json")
        },
        None => false,
    }
}

// ---------------------------------------------------------------------------
// Enabling and disabling
// ---------------------------------------------------------------------------

/// The name and state of a folder in the pak folder: a folder whose name
/// ends in `.disabled` is a disabled mod named without that ending.
pub open spec fn pak_folder_state_spec(raw: Seq<char>) -> (Seq<char>, bool) {
    if ".disabled"@.is_suffix_of(raw) {
        (trim_disabled(raw), false)
    } else {
        (raw, true)
    }
}

/// The name and state of a folder in the pak folder.
pub fn pak_folder_state(raw: &str) -> (r: (String, bool))
    ensures
        (r.0@, r.1) == pak_folder_state_spec(raw@),
{
    let v = chars_of(raw);
    if ends_with_str(v.as_slice(), ".disabled") {
        (trim_disabled_suffix(raw), false)
    } else {
        (raw.to_owned(), true)
    }
}

/// What toggling a mod does on disk.
#[derive(Debug)]
pub enum ToggleAction {
    /// Rename a pak mod's folder; the mod's path afterwards is `to`.
    Rename { from: String, to: String },
    /// Create an empty `enabled.txt` marker in a script mod's folder.
    WriteMarker(String),
    /// Remove a script mod's `enabled.txt` marker, if it exists.
    RemoveMarker(String),
}

/// The message for a mod path with no parent or no name.
pub open spec fn invalid_mod_path_message() -> Seq<char> {
    "Invalid mod path"@
}

/// Whether a mod path names a pak mod: it lives in a folder named
/// `LogicMods` (any ASCII case), or its name ends in `.disabled`.
pub open spec fn is_pak_mod_path(parent: Seq<char>, name: Seq<char>) -> bool {
    (file_name_spec(parent) matches Some(pn) && eq_ignore_ascii_case(pn, "logicmods"@))
        || ".disabled"@.is_suffix_of(name)
}

/// What toggling the mod at `mod_path` on or off does.
pub open spec fn toggle_spec(mod_path: Seq<char>, enabled: bool) -> Option<(u8, Seq<char>, Seq<char>)> {
    match (ancestor_spec(mod_path, 1), file_name_spec(mod_path)) {
        (Some(parent), Some(name)) => if is_pak_mod_path(parent, name) {
            let base = trim_disabled(name);
            let on = join_spec(parent, base);
            let off = join_spec(parent, base + ".disabled"@);
            if enabled {
                Some((0u8, off, on))
            } else {
                Some((0u8, on, off))
            }
        } else if enabled {
            Some((1u8, join_spec(mod_path, "enabled.txt"@), Seq::empty()))
        } else {
            Some((2u8, join_spec(mod_path, "enabled.txt"@), Seq::empty()))
        },
        _ => None,
    }
}

/// The fields of a toggle action: its kind (rename, write, remove) and paths.
pub open spec fn toggle_view(a: ToggleAction) -> (u8, Seq<char>, Seq<char>) {
    match a {
        ToggleAction::Rename { from, to } => (0u8, from@, to@),
        ToggleAction::WriteMarker(p) => (1u8, p@, Seq::empty()),
        ToggleAction::RemoveMarker(p) => (2u8, p@, Seq::empty()),
    }
}

/// What toggling the mod at `mod_path` on or off does (`toggle_mod`): a pak
/// mod's folder is renamed between `name` and `name.disabled`; a script
/// mod's `enabled.txt` marker is written or removed.
pub fn toggle_action(mod_path: &str, enabled: bool) -> (r: Result<ToggleAction, String>)
    ensures
        match r {
            Ok(a) => toggle_spec(mod_path@, enabled) == Some(toggle_view(a)),
            Err(e) => toggle_spec(mod_path@, enabled) is None && e@ == invalid_mod_path_message(),
        },
{
    let v = chars_of(mod_path);
    let cs = path_components(v.as_slice());
    assert(cs@.map_values(|x: Vec<char>| x@).len() == cs@.len());
    if cs.len() < 1 {
        return Err("Invalid mod path".to_owned());
    }
    let parent = leading_path_of(v.as_slice(), cs.len() - 1);
    let name = match file_name_of(v.as_slice()) {
        Some(n) => n,
        None => return Err("Invalid mod path".to_owned()),
    };
    let in_logic_mods = match file_name_of(parent.as_slice()) {
        Some(pn) => {
            let l = chars_of("logicmods");
            chars_eq_ignore_ascii_case(pn.as_slice(), l.as_slice())
        },
        None => false,
    };
    if in_logic_mods || ends_with_str(name.as_slice(), ".disabled") {
        let name_s = string_from(name.as_slice());
        let base = trim_disabled_suffix(name_s.as_str());
        let bv = chars_of(base.as_str());
        let on = join_path(parent.as_slice(), bv.as_slice());
        let mut off_name = bv;
        extend_str(&mut off_name, ".disabled");
        let off = join_path(parent.as_slice(), off_name.as_slice());
        if enabled {
            Ok(ToggleAction::Rename { from: string_from(off.as_slice()), to: string_from(on.as_slice()) })
        } else {
            Ok(ToggleAction::Rename { from: string_from(on.as_slice()), to: string_from(off.as_slice()) })
        }
    } else {
        let marker = join_path_str(v.as_slice(), "enabled.txt");
        if enabled {
            Ok(ToggleAction::WriteMarker(string_from(marker.as_slice())))
        } else {
            Ok(ToggleAction::RemoveMarker(string_from(marker.as_slice())))
        }
    }
}

/// The log message for a toggle: `Enabled: name` or `Disabled: name`, with
/// the name's `.disabled` ending removed.
pub fn toggle_log_message(mod_path: &str, enabled: bool) -> (r: String)
    ensures
        r@ == (if enabled {
            "Enabled: "@
        } else {
            "Disabled: "@
        }) + trim_disabled(
            match file_name_spec(mod_path@) {
                Some(n) => n,
                None => Seq::empty(),
            },
        ),
{
    let v = chars_of(mod_path);
    let name = match file_name_of(v.as_slice()) {
        Some(n) => string_from(n.as_slice()),
        None => String::new(),
    };
    let shown = trim_disabled_suffix(name.as_str());
    let mut m = if enabled {
        chars_of("Enabled: ")
    } else {
        chars_of("Disabled: ")
    };
    extend_str(&mut m, shown.as_str());
    string_from(m.as_slice())
}

/// Disabling a mod and reading its folder back gives the same mod, disabled;
/// re-enabling it gives the name back.
pub proof fn law_disable_then_read(base: Seq<char>)
    requires
        !".disabled"@.is_suffix_of(base),
    ensures
        pak_folder_state_spec(base + ".disabled"@) == (base, false),
        pak_folder_state_spec(base) == (base, true),
        trim_disabled(base + ".disabled"@) == base,
{
    let s = base + ".disabled"@;
    assert(".disabled"@.len() == 9) by {
        reveal_strlit(".disabled");
    }
    assert(s.subrange(s.len() - 9, s.len() as int) =~= ".disabled"@);
    assert(".disabled"@.is_suffix_of(s));
    assert(s.take(s.len() - 9) =~= base);
    if base.len() >= 9 {
        assert(trim_disabled(base) == base);
    }
}

/// A plain name with `.disabled` appended is still a plain name.
proof fn lemma_disabled_plain(base: Seq<char>)
    requires
        plain_component(base),
    ensures
        plain_component(base + ".disabled"@),
{
    let off = base + ".disabled"@;
    assert(".disabled"@ =~= seq!['.', 'd', 'i', 's', 'a', 'b', 'l', 'e', 'd']) by {
        reveal_strlit(".disabled");
    }
    assert(!off.contains('/') && !off.contains('\\')) by {
        if off.contains('/') || off.contains('\\') {
            let k = choose|k: int| 0 <= k < off.len() && (off[k] == '/' || off[k] == '\\');
            if k < base.len() {
                assert(base.contains(off[k]));
            }
        }
    }
    assert(off.len() > 2);
}

/// Disabling a pak mod in a `LogicMods` folder renames its folder to
/// `name.disabled`, and enabling the renamed mod renames it back: each
/// toggle undoes the other. Where the folder's path ends in its name, the
/// paths are exactly the joined ones.
pub proof fn law_toggle_round_trip(parent: Seq<char>, base: Seq<char>)
    requires
        ends_in_name(parent),
        file_name_spec(parent) matches Some(pn) && eq_ignore_ascii_case(pn, "logicmods"@),
        plain_component(base),
        !".disabled"@.is_suffix_of(base),
    ensures
        toggle_spec(join_spec(parent, base), false) == Some(
            (0u8, join_spec(parent, base), join_spec(parent, base + ".disabled"@)),
        ),
        toggle_spec(join_spec(parent, base + ".disabled"@), true) == Some(
            (0u8, join_spec(parent, base + ".disabled"@), join_spec(parent, base)),
        ),
{
    let off = base + ".disabled"@;
    lemma_disabled_plain(base);
    lemma_join_parent(parent, base);
    lemma_join_parent(parent, off);
    law_disable_then_read(base);
    assert(".disabled"@.is_suffix_of(off));
    if base.len() >= 9 {
        assert(trim_disabled(base) == base);
    }
}

/// Disabling a pak mod in a `LogicMods` folder, whatever the folder's path
/// ends in (its name, a separator or `.`), moves the mod to the path of
/// `LogicMods/name.disabled`, and enabling it from there moves it back to
/// where disabling took it from, the path of `LogicMods/name`: disabling
/// then enabling gives the mod its folder back.
pub proof fn law_toggle_round_trip_any_parent(parent: Seq<char>, base: Seq<char>)
    requires
        file_name_spec(parent) matches Some(pn) && eq_ignore_ascii_case(pn, "logicmods"@),
        plain_component(base),
        !".disabled"@.is_suffix_of(base),
    ensures
        toggle_spec(join_spec(parent, base), false) matches Some((k, from, to)) && k == 0u8
            && all_components(from) == all_components(join_spec(parent, base))
            && all_components(to) == all_components(join_spec(parent, base + ".disabled"@))
            && toggle_spec(to, true) == Some((0u8, to, from)),
{
    let off = base + ".disabled"@;
    lemma_disabled_plain(base);
    let p = strip_tail(parent);
    lemma_join_any_parent(parent, base);
    lemma_join_any_parent(parent, off);
    assert(file_name_spec(p) == file_name_spec(parent));
    law_toggle_round_trip(p, base);
    lemma_join_parent(p, base);
    lemma_join_any_parent(p, base);
    lemma_join_any_parent(p, off);
    assert(toggle_spec(join_spec(parent, base), false) == toggle_spec(join_spec(p, base), false));
}

/// Enabling a script mod writes its marker and disabling it removes the
/// same marker: each toggle undoes the other.
pub proof fn law_marker_round_trip(mod_path: Seq<char>)
    requires
        toggle_spec(mod_path, true) matches Some(t) && t.0 == 1u8,
    ensures
        match toggle_spec(mod_path, true) {
            Some((_, marker, _)) => toggle_spec(mod_path, false) == Some((2u8, marker, Seq::<char>::empty())),
            None => false,
        },
{
}

// ---------------------------------------------------------------------------
// Checking installed files
// ---------------------------------------------------------------------------

/// The files of a mod that a check looks for: every recorded file except
/// the metadata file.
pub open spec fn is_checked_file(f: Seq<char>) -> bool {
    f != meta_file_name()
}

/// The recorded files that are missing, given which of them exist.
pub open spec fn missing_files_spec(files: Seq<Seq<char>>, present: Seq<bool>) -> Seq<Seq<char>>
    decreases files.len(),
{
    if files.len() == 0 {
        Seq::empty()
    } else {
        let rest = missing_files_spec(files.drop_last(), present);
        if is_checked_file(files.last()) && !present[files.len() - 1] {
            rest.push(files.last())
        } else {
            rest
        }
    }
}

/// A mod whose recorded files are all present passes the check: nothing is
/// missing.
pub proof fn law_all_present_passes(files: Seq<Seq<char>>, present: Seq<bool>)
    requires
        present.len() >= files.len(),
        forall|i: int| 0 <= i < files.len() ==> #[trigger] present[i],
    ensures
        missing_files_spec(files, present).len() == 0,
    decreases files.len(),
{
    if files.len() > 0 {
        law_all_present_passes(files.drop_last(), present);
        assert(present[files.len() - 1]);
    }
}

/// The paths to look for when checking a mod: each recorded file under the
/// mod's folder.
pub fn verify_targets(mod_path: &str, files: &Vec<String>) -> (r: Vec<String>)
    ensures
        r@.len() == files@.len(),
        forall|i: int| 0 <= i < files@.len() ==> (#[trigger] r@[i])@ == join_spec(mod_path@, files@[i]@),
{
    let m = chars_of(mod_path);
    let mut out: Vec<String> = Vec::new();
    for i in 0..files.len()
        invariant
            m@ == mod_path@,
            out@.len() == i,
            forall|k: int| 0 <= k < i ==> (#[trigger] out@[k])@ == join_spec(mod_path@, files@[k]@),
    {
        let f = chars_of(files[i].as_str());
        let p = join_path(m.as_slice(), f.as_slice());
        out.push(string_from(p.as_slice()));
    }
    out
}

/// Checks a mod's recorded files (`verify_mod`): with no metadata, or no
/// file list in it, the mod passes; otherwise the files that are not
/// present (the metadata file aside) are missing, and it passes when none are.
pub fn verify_mod(mod_path: String, installed_files: Option<Vec<String>>, present: &Vec<bool>) -> (r: VerifyResult)
    requires
        installed_files matches Some(f) ==> present@.len() == f@.len(),
    ensures
        r.mod_path == mod_path,
        match installed_files {
            Some(f) => views(r.missing@) == missing_files_spec(views(f@), present@) && r.ok == (
            r.missing@.len() == 0),
            None => r.ok && r.missing@.len() == 0,
        },
{
    let files = match installed_files {
        Some(f) => f,
        None => return VerifyResult { mod_path, ok: true, missing: Vec::new() },
    };
    let ghost fv = views(files@);
    let mut missing: Vec<String> = Vec::new();
    for i in 0..files.len()
        invariant
            fv == views(files@),
            present@.len() == files@.len(),
            views(missing@) == missing_files_spec(fv.take(i as int), present@),
    {
        let ghost t = fv.take(i + 1);
        assert(t.drop_last() == fv.take(i as int));
        assert(t.last() == files@[i as int]@);
        let ghost m0 = views(missing@);
        let fc = chars_of(files[i].as_str());
        if !chars_eq_str(fc.as_slice(), "tidekeeper.json") && !present[i] {
            let x = files[i].clone();
            missing.push(x);
            assert(views(missing@) =~= m0.push(files@[i as int]@));
        }
    }
    assert(fv.take(files.len() as int) == fv);
    let ok = missing.len() == 0;
    VerifyResult { mod_path, ok, missing }
}

// ---------------------------------------------------------------------------
// Installing an archive
// ---------------------------------------------------------------------------

/// How an archive's entries are placed.
#[derive(Debug)]
pub enum ExtractMode {
    /// Each entry at its own path under the destination.
    Flat,
    /// Each entry without its first component under the destination.
    StripRoot,
}

/// Where and how an archive is installed.
#[derive(Debug)]
pub struct InstallPlan {
    pub dest: String,
    pub mode: ExtractMode,
    /// The destination folder is created before extracting.
    pub create_dest: bool,
    /// The name reported for the installed mod.
    pub installed_name: String,
}

/// Where and how an archive with this classification is installed: the
/// loader flat into the game's `Binaries/Win64`; a game-relative archive
/// into the game folder; a pak mod into its own folder of the pak folder; a
/// script mod into its own folder of the mods folder. The last three strip
/// the archive's top folder. `None` when the game folder is needed and
/// cannot be derived.
pub open spec fn install_plan_spec(
    install_type: Seq<char>,
    suggested_name: Seq<char>,
    mods_folder: Seq<char>,
    mod_name: Seq<char>,
) -> Option<(Seq<char>, bool, bool, Seq<char>)> {
    let inner = ancestor_spec(mods_folder, 4);
    if install_type == "ue4ss"@ {
        match inner {
            Some(i) => Some((join_spec(join_spec(i, "Binaries"@), "Win64"@), false, false, "UE4SS"@)),
            None => None,
        }
    } else if install_type == "game_relative"@ {
        match inner {
            Some(i) => Some((i, true, false, suggested_name)),
            None => None,
        }
    } else if install_type == "pak"@ {
        match inner {
            Some(i) => Some((join_spec(logic_mods_spec(i), mod_name), true, true, mod_name)),
            None => None,
        }
    } else {
        Some((join_spec(mods_folder, mod_name), true, true, mod_name))
    }
}

/// The fields of a plan: destination, whether the top folder is stripped,
/// whether the destination is created, and the installed name.
pub open spec fn install_plan_view(p: InstallPlan) -> (Seq<char>, bool, bool, Seq<char>) {
    (p.dest@, p.mode is StripRoot, p.create_dest, p.installed_name@)
}

/// Where and how an archive is installed (`install_zip_bytes`).
pub fn install_plan(info: &ZipInfo, mods_folder: &str, mod_name: &str) -> (r: Result<InstallPlan, String>)
    ensures
        match r {
            Ok(p) => install_plan_spec(
                info.install_type@,
                info.suggested_name@,
                mods_folder@,
                mod_name@,
            ) == Some(install_plan_view(p)),
            Err(e) => install_plan_spec(
                info.install_type@,
                info.suggested_name@,
                mods_folder@,
                mod_name@,
            ) is None && e@ == no_game_folder_message(),
        },
{
    let t = chars_of(info.install_type.as_str());
    if chars_eq_str(t.as_slice(), "ue4ss") {
        let inner = derive_inner_game_folder(mods_folder)?;
        let iv = chars_of(inner.as_str());
        let a = join_path_str(iv.as_slice(), "Binaries");
        let d = join_path_str(a.as_slice(), "Win64");
        Ok(
            InstallPlan {
                dest: string_from(d.as_slice()),
                mode: ExtractMode::Flat,
                create_dest: false,
                installed_name: "UE4SS".to_owned(),
            },
        )
    } else if chars_eq_str(t.as_slice(), "game_relative") {
        let inner = derive_inner_game_folder(mods_folder)?;
        Ok(
            InstallPlan {
                dest: inner,
                mode: ExtractMode::StripRoot,
                create_dest: false,
                installed_name: info.suggested_name.clone(),
            },
        )
    } else if chars_eq_str(t.as_slice(), "pak") {
        let inner = derive_inner_game_folder(mods_folder)?;
        let lm = logic_mods_dir(inner.as_str());
        let lv = chars_of(lm.as_str());
        let nv = chars_of(mod_name);
        let d = join_path(lv.as_slice(), nv.as_slice());
        Ok(
            InstallPlan {
                dest: string_from(d.as_slice()),
                mode: ExtractMode::StripRoot,
                create_dest: true,
                installed_name: mod_name.to_owned(),
            },
        )
    } else {
        let mv = chars_of(mods_folder);
        let nv = chars_of(mod_name);
        let d = join_path(mv.as_slice(), nv.as_slice());
        Ok(
            InstallPlan {
                dest: string_from(d.as_slice()),
                mode: ExtractMode::StripRoot,
                create_dest: true,
                installed_name: mod_name.to_owned(),
            },
        )
    }
}

/// The kinds of archive the manager reads.
#[derive(Debug)]
pub enum ArchiveKind {
    Zip,
    SevenZip,
    Rar,
}

/// The kind of an archive, by its extension in lowercase: `zip`, `7z` or
/// `rar`; the lowercase extension (empty when there is none) otherwise.
pub open spec fn archive_kind_spec(path: Seq<char>) -> Result<u8, Seq<char>> {
    let ext = match extension_spec(path) {
        Some(e) => unicode_lowercase(e),
        None => Seq::empty(),
    };
    if ext == "zip"@ {
        Ok(0u8)
    } else if ext == "7z"@ {
        Ok(1u8)
    } else if ext == "rar"@ {
        Ok(2u8)
    } else {
        Err(ext)
    }
}

/// The message for an archive of another kind.
pub open spec fn unsupported_format_message(ext: Seq<char>) -> Seq<char> {
    "Unsupported format: ."@ + ext
}

/// The kind of an archive (`archive_to_zip_bytes`).
pub fn archive_kind(path: &str) -> (r: Result<ArchiveKind, String>)
    ensures
        match r {
            Ok(ArchiveKind::Zip) => archive_kind_spec(path@) == Ok::<u8, Seq<char>>(0u8),
            Ok(ArchiveKind::SevenZip) => archive_kind_spec(path@) == Ok::<u8, Seq<char>>(1u8),
            Ok(ArchiveKind::Rar) => archive_kind_spec(path@) == Ok::<u8, Seq<char>>(2u8),
            Err(e) => archive_kind_spec(path@) matches Err(x) && e@ == unsupported_format_message(x),
        },
{
    let v = chars_of(path);
    let ext: Vec<char> = match extension_of(v.as_slice()) {
        Some(e) => lowercase_chars(e.as_slice()),
        None => {
            assert(""@ =~= Seq::<char>::empty()) by {
                reveal_strlit("");
            }
            Vec::new()
        },
    };
    if chars_eq_str(ext.as_slice(), "zip") {
        Ok(ArchiveKind::Zip)
    } else if chars_eq_str(ext.as_slice(), "7z") {
        Ok(ArchiveKind::SevenZip)
    } else if chars_eq_str(ext.as_slice(), "rar") {
        Ok(ArchiveKind::Rar)
    } else {
        let mut m = chars_of("Unsupported format: .");
        extend_chars(&mut m, ext.as_slice());
        Err(string_from(m.as_slice()))
    }
}

/// The metadata recorded after installing an archive from disk: from Nexus
/// when its name carries a mod id, else a manual install.
pub fn archive_install_meta(nexus_mod_id: Option<u64>, installed_at: u64, installed_files: Vec<String>) -> (m: crate::model::ModMeta)
    ensures
        m.source@ == (if nexus_mod_id is Some {
            "nexus"@
        } else {
            "manual"@
        }),
        m.mod_id == nexus_mod_id,
        m.file_id is None,
        m.version is None,
        m.display_name is None,
        m.file_name is None,
        m.installed_at == installed_at,
        m.installed_files == Some(installed_files),
        m.backup_path is None,
{
    crate::model::ModMeta {
        source: if nexus_mod_id.is_some() {
            "nexus".to_owned()
        } else {
            "manual".to_owned()
        },
        mod_id: nexus_mod_id,
        file_id: None,
        version: None,
        display_name: None,
        file_name: None,
        installed_at,
        installed_files: Some(installed_files),
        backup_path: None,
    }
}

/// The arguments that make 7-Zip extract `archive` into `out_dir`.
pub fn seven_zip_args(archive: &str, out_dir: &str) -> (r: Vec<String>)
    ensures
        views(r@) == seq!["x"@, archive@, "-o"@ + out_dir@, "-y"@],
{
    let mut o = chars_of("-o");
    extend_str(&mut o, out_dir);
    let mut r: Vec<String> = Vec::new();
    r.push("x".to_owned());
    r.push(archive.to_owned());
    r.push(string_from(o.as_slice()));
    r.push("-y".to_owned());
    assert(views(r@) =~= seq!["x"@, archive@, "-o"@ + out_dir@, "-y"@]);
    r
}

/// The places where 7-Zip is installed by default, in the order they are tried.
pub open spec fn seven_zip_candidates_spec() -> Seq<Seq<char>> {
    seq!["C:\\Program Files\\7-Zip\\7z.exe"@, "C:\\Program Files (x86)\\7-Zip\\7z.exe"@]
}

/// The places where 7-Zip is installed by default.
pub fn seven_zip_candidates() -> (r: Vec<String>)
    ensures
        views(r@) == seven_zip_candidates_spec(),
{
    let mut r: Vec<String> = Vec::new();
    r.push("C:\\Program Files\\7-Zip\\7z.exe".to_owned());
    r.push("C:\\Program Files (x86)\\7-Zip\\7z.exe".to_owned());
    assert(views(r@) =~= seven_zip_candidates_spec());
    r
}

/// The first of the default 7-Zip places that exists, given which exist
/// (`present[i]` for the `i`-th place).
pub fn find_7zip(present: &Vec<bool>) -> (r: Option<String>)
    requires
        present@.len() == seven_zip_candidates_spec().len(),
    ensures
        match r {
            Some(p) => (present@[0] && p@ == seven_zip_candidates_spec()[0]) || (!present@[0]
                && present@[1] && p@ == seven_zip_candidates_spec()[1]),
            None => !present@[0] && !present@[1],
        },
{
    let c = seven_zip_candidates();
    assert(c@[0]@ == views(c@)[0] && c@[1]@ == views(c@)[1]);
    if present[0] {
        Some(c[0].clone())
    } else if present[1] {
        Some(c[1].clone())
    } else {
        None
    }
}


// ---------------------------------------------------------------------------
// Uninstalling and rolling back
// ---------------------------------------------------------------------------

/// The name of a mod's folder (empty when the path names none), as the
/// profiles know the mod (`uninstall_mod`).
pub fn mod_folder_name(mod_path: &str) -> (r: String)
    ensures
        r@ == (match file_name_spec(mod_path@) {
            Some(n) => n,
            None => Seq::empty(),
        }),
{
    let v = chars_of(mod_path);
    match file_name_of(v.as_slice()) {
        Some(n) => string_from(n.as_slice()),
        None => String::new(),
    }
}

/// The backup that rolling a mod back restores: the one its metadata
/// records; an error when there is no metadata or it records no backup.
pub open spec fn rollback_source_spec(meta: Option<crate::model::ModMeta>) -> Result<Seq<char>, Seq<char>> {
    match meta {
        None => Err("No metadata found for this mod"@),
        Some(m) => match m.backup_path {
            None => Err("No backup available for this mod"@),
            Some(b) => Ok(b@),
        },
    }
}

/// The backup that rolling a mod back restores (`rollback_mod`).
pub fn rollback_source(meta: Option<&crate::model::ModMeta>) -> (r: Result<String, String>)
    ensures
        match r {
            Ok(b) => rollback_source_spec(match meta {
                Some(m) => Some(*m),
                None => None,
            }) == Ok::<Seq<char>, Seq<char>>(b@),
            Err(e) => rollback_source_spec(match meta {
                Some(m) => Some(*m),
                None => None,
            }) == Err::<Seq<char>, Seq<char>>(e@),
        },
{
    match meta {
        None => Err("No metadata found for this mod".to_owned()),
        Some(m) => match &m.backup_path {
            None => Err("No backup available for this mod".to_owned()),
            Some(b) => Ok(b.clone()),
        },
    }
}

/// The message when the recorded backup folder is gone.
pub fn backup_missing() -> (r: String)
    ensures
        r@ == "Backup folder no longer exists"@,
{
    "Backup folder no longer exists".to_owned()
}


/// Every install but the UE4SS loader's strips the archive's top folder;
/// the loader is extracted as it is into the game's `Binaries/Win64`. A
/// script mod (any type other than the loader, game-relative and pak) goes
/// into a folder of its name in the mods folder, which is created, so an
/// entry `root/rel` lands at `mods_folder/mod_name/rel`.
pub proof fn law_install_strips_top_folder(
    install_type: Seq<char>,
    suggested_name: Seq<char>,
    mods_folder: Seq<char>,
    mod_name: Seq<char>,
)
    ensures
        install_plan_spec(install_type, suggested_name, mods_folder, mod_name) matches Some(p)
            ==> (p.1 <==> install_type != "ue4ss"@),
        install_type != "ue4ss"@ && install_type != "game_relative"@ && install_type != "pak"@
            ==> install_plan_spec(install_type, suggested_name, mods_folder, mod_name) == Some(
            (join_spec(mods_folder, mod_name), true, true, mod_name),
        ),
        (install_type == "ue4ss"@ || install_type == "game_relative"@ || install_type == "pak"@) ==> (
        install_plan_spec(install_type, suggested_name, mods_folder, mod_name) is Some <==> ancestor_spec(
            mods_folder,
            4,
        ) is Some),
        install_plan_spec(install_type, suggested_name, mods_folder, mod_name) matches Some(p) ==> {
            &&& (p.2 <==> (install_type != "ue4ss"@ && install_type != "game_relative"@))
            &&& p.3 == (if install_type == "ue4ss"@ {
                "UE4SS"@
            } else if install_type == "game_relative"@ {
                suggested_name
            } else {
                mod_name
            })
            &&& install_type == "game_relative"@ ==> Some(p.0) == ancestor_spec(mods_folder, 4)
            &&& install_type == "pak"@ ==> (ancestor_spec(mods_folder, 4) matches Some(i) && p.0
                == join_spec(join_spec(join_spec(join_spec(i, "Content"@), "Paks"@), "LogicMods"@), mod_name))
        },
{
    reveal_strlit("ue4ss");
    reveal_strlit("game_relative");
    reveal_strlit("pak");
    assert("ue4ss"@.len() == 5 && "game_relative"@.len() == 13 && "pak"@.len() == 3);
}

} // verus!
