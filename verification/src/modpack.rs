//! Mod packs: the list of mods that a pack records, where each mod's files
//! come from and go to inside the pack, and how a pack's recorded states
//! are restored after its files are unpacked.
use vstd::prelude::*;
use crate::archive::{join_components, modpack_target_spec};
use crate::game::first_present;
use crate::model::{Config, ModpackEntry};
use crate::scan::MarkedFolder;
use crate::mods::{
    derive_inner_game_folder, logic_mods_dir, logic_mods_spec, pak_folder_state,
    pak_folder_state_spec, toggle_view, ToggleAction,
};
use crate::diagnostics::trim_disabled;
use crate::paths::{
    ancestor_spec, components, has_parent_dir, is_component, is_parent_dir, join_path, join_spec,
    plain_component,
};
use crate::text::{chars_eq_str, chars_of, extend_str, string_from, views};

verus! {

broadcast use vstd::seq_lib::group_seq_properties;

/// The fields of a pack entry: name, type, enabled.
pub open spec fn pack_entry_view(e: ModpackEntry) -> (Seq<char>, Seq<char>, bool) {
    (e.name@, e.mod_type@, e.enabled)
}

/// The mods folder and the pak folder of a configuration, for exporting a
/// pack; or why there are none.
pub open spec fn export_dirs_spec(config: Option<&Config>) -> Result<(Seq<char>, Seq<char>), Seq<char>> {
    match config {
        None => Err("No config"@),
        Some(c) => match c.mods_folder {
            None => Err("No mods folder configured"@),
            Some(f) => match ancestor_spec(f@, 4) {
                None => Err("Invalid mods folder path"@),
                Some(inner) => Ok((f@, logic_mods_spec(inner))),
            },
        },
    }
}

/// The mods folder and the pak folder of a configuration, for exporting.
pub fn export_dirs(config: Option<&Config>) -> (r: Result<(String, String), String>)
    ensures
        match r {
            Ok((s, p)) => export_dirs_spec(config) == Ok::<(Seq<char>, Seq<char>), Seq<char>>(
                (s@, p@),
            ),
            Err(e) => export_dirs_spec(config) == Err::<(Seq<char>, Seq<char>), Seq<char>>(e@),
        },
{
    let c = match config {
        Some(c) => c,
        None => return Err("No config".to_owned()),
    };
    let f = match &c.mods_folder {
        Some(f) => f,
        None => return Err("No mods folder configured".to_owned()),
    };
    match derive_inner_game_folder(f.as_str()) {
        Ok(inner) => Ok((f.clone(), logic_mods_dir(inner.as_str()))),
        Err(_) => Err("Invalid mods folder path".to_owned()),
    }
}

/// The mods folder and the pak folder of a configuration, for installing a
/// pack; or why there are none.
pub open spec fn install_dirs_spec(config: Option<&Config>) -> Result<(Seq<char>, Seq<char>), Seq<char>> {
    match config {
        None => Err("No config"@),
        Some(c) => match c.mods_folder {
            None => Err("No mods folder configured"@),
            Some(f) => match ancestor_spec(f@, 4) {
                None => Err(crate::mods::no_game_folder_message()),
                Some(inner) => Ok((f@, logic_mods_spec(inner))),
            },
        },
    }
}

/// The mods folder and the pak folder of a configuration, for installing.
pub fn install_dirs(config: Option<&Config>) -> (r: Result<(String, String), String>)
    ensures
        match r {
            Ok((s, p)) => install_dirs_spec(config) == Ok::<(Seq<char>, Seq<char>), Seq<char>>(
                (s@, p@),
            ),
            Err(e) => install_dirs_spec(config) == Err::<(Seq<char>, Seq<char>), Seq<char>>(e@),
        },
{
    let c = match config {
        Some(c) => c,
        None => return Err("No config".to_owned()),
    };
    let f = match &c.mods_folder {
        Some(f) => f,
        None => return Err("No mods folder configured".to_owned()),
    };
    let inner = derive_inner_game_folder(f.as_str())?;
    Ok((f.clone(), logic_mods_dir(inner.as_str())))
}

/// The entries a pack records: the script mods, enabled by their marker,
/// then the pak mods, named and enabled by their folder names.
pub open spec fn pack_entries_spec(scripts: Seq<MarkedFolder>, paks: Seq<Seq<char>>) -> Seq<
    (Seq<char>, Seq<char>, bool),
> {
    scripts.map_values(|f: MarkedFolder| (f.name@, "script"@, f.marker_present)) + paks.map_values(
        |raw: Seq<char>| (pak_folder_state_spec(raw).0, "pak"@, pak_folder_state_spec(raw).1),
    )
}

/// The entries of a pack (`export_modpack`), given the mod folders of the
/// mods folder and of the pak folder in listing order; an error when there
/// is no mod at all.
pub fn modpack_entries(scripts: &Vec<MarkedFolder>, paks: &Vec<String>) -> (r: Result<
    Vec<ModpackEntry>,
    String,
>)
    ensures
        match r {
            Ok(v) => v@.map_values(|e: ModpackEntry| pack_entry_view(e)) == pack_entries_spec(
                scripts@,
                views(paks@),
            ) && v@.len() > 0,
            Err(e) => scripts@.len() + paks@.len() == 0 && e@ == "No mods installed to export"@,
        },
{
    let mut out: Vec<ModpackEntry> = Vec::new();
    for i in 0..scripts.len()
        invariant
            out@.map_values(|e: ModpackEntry| pack_entry_view(e)) == scripts@.take(i as int).map_values(
                |f: MarkedFolder| (f.name@, "script"@, f.marker_present),
            ),
    {
        let ghost o0 = out@.map_values(|e: ModpackEntry| pack_entry_view(e));
        let f = &scripts[i];
        out.push(
            ModpackEntry { name: f.name.clone(), mod_type: "script".to_owned(), enabled: f.marker_present },
        );
        assert(out@.map_values(|e: ModpackEntry| pack_entry_view(e)) =~= o0.push(
            (scripts@[i as int].name@, "script"@, scripts@[i as int].marker_present),
        ));
        assert(scripts@.take(i + 1) == scripts@.take(i as int).push(scripts@[i as int]));
        assert(scripts@.take(i + 1).map_values(|f: MarkedFolder| (f.name@, "script"@, f.marker_present))
            =~= o0.push((scripts@[i as int].name@, "script"@, scripts@[i as int].marker_present)));
    }
    assert(scripts@.take(scripts.len() as int) == scripts@);
    let ghost head = out@.map_values(|e: ModpackEntry| pack_entry_view(e));
    let ghost pv = views(paks@);
    for i in 0..paks.len()
        invariant
            pv == views(paks@),
            out@.map_values(|e: ModpackEntry| pack_entry_view(e)) == head + pv.take(i as int).map_values(
                |raw: Seq<char>| (pak_folder_state_spec(raw).0, "pak"@, pak_folder_state_spec(raw).1),
            ),
    {
        let ghost o0 = out@.map_values(|e: ModpackEntry| pack_entry_view(e));
        let (name, enabled) = pak_folder_state(paks[i].as_str());
        out.push(ModpackEntry { name, mod_type: "pak".to_owned(), enabled });
        let ghost x = (pak_folder_state_spec(pv[i as int]).0, "pak"@, pak_folder_state_spec(pv[i as int]).1);
        assert(out@.map_values(|e: ModpackEntry| pack_entry_view(e)) =~= o0.push(x));
        assert(pv.take(i + 1) == pv.take(i as int).push(pv[i as int]));
        assert(pv.take(i + 1).map_values(
            |raw: Seq<char>| (pak_folder_state_spec(raw).0, "pak"@, pak_folder_state_spec(raw).1),
        ) =~= pv.take(i as int).map_values(
            |raw: Seq<char>| (pak_folder_state_spec(raw).0, "pak"@, pak_folder_state_spec(raw).1),
        ).push(x));
    }
    assert(pv.take(paks.len() as int) == pv);
    if out.len() == 0 {
        return Err("No mods installed to export".to_owned());
    }
    Ok(out)
}

/// The folders a mod's files may be packed from, in the order they are
/// tried: a pak mod's enabled folder, then its disabled one; a script mod's
/// folder.
pub open spec fn pack_sources_spec(script_dir: Seq<char>, pak_dir: Seq<char>, e: (Seq<char>, Seq<char>, bool)) -> Seq<
    Seq<char>,
> {
    if e.1 == "pak"@ {
        seq![join_spec(pak_dir, e.0), join_spec(pak_dir, e.0 + ".disabled"@)]
    } else {
        seq![join_spec(script_dir, e.0)]
    }
}

/// The folders a mod's files may be packed from, in the order tried.
pub fn pack_sources(script_dir: &str, pak_dir: &str, entry: &ModpackEntry) -> (r: Vec<String>)
    ensures
        views(r@) == pack_sources_spec(script_dir@, pak_dir@, pack_entry_view(*entry)),
{
    let nv = chars_of(entry.name.as_str());
    let tv = chars_of(entry.mod_type.as_str());
    let mut out: Vec<String> = Vec::new();
    if chars_eq_str(tv.as_slice(), "pak") {
        let pd = chars_of(pak_dir);
        let on = join_path(pd.as_slice(), nv.as_slice());
        let mut off_name = nv.clone();
        extend_str(&mut off_name, ".disabled");
        let off = join_path(pd.as_slice(), off_name.as_slice());
        out.push(string_from(on.as_slice()));
        out.push(string_from(off.as_slice()));
    } else {
        let sd = chars_of(script_dir);
        let p = join_path(sd.as_slice(), nv.as_slice());
        out.push(string_from(p.as_slice()));
    }
    assert(views(out@) =~= pack_sources_spec(script_dir@, pak_dir@, pack_entry_view(*entry)));
    out
}

/// The folder a mod's files are packed from: the first of its candidate
/// folders that exists (`present[i]` for the `i`-th); none when none does,
/// and the mod is then left out of the pack's files.
pub fn pack_source(script_dir: &str, pak_dir: &str, entry: &ModpackEntry, present: &Vec<bool>) -> (r:
    Option<String>)
    requires
        present@.len() == pack_sources_spec(script_dir@, pak_dir@, pack_entry_view(*entry)).len(),
    ensures
        match r {
            Some(p) => first_present(pack_sources_spec(script_dir@, pak_dir@, pack_entry_view(*entry)), present@)
                == Some(p@),
            None => first_present(pack_sources_spec(script_dir@, pak_dir@, pack_entry_view(*entry)), present@) is None,
        },
{
    let c = pack_sources(script_dir, pak_dir, entry);
    crate::game::pick_first_present(&c, present)
}

/// The folder inside a pack that holds a mod's files: `type/name`.
pub open spec fn pack_prefix_spec(e: (Seq<char>, Seq<char>, bool)) -> Seq<char> {
    join_components(seq![e.1, e.0])
}

/// The folder inside a pack that holds a mod's files.
pub fn pack_prefix(entry: &ModpackEntry) -> (r: String)
    ensures
        r@ == pack_prefix_spec(pack_entry_view(*entry)),
{
    let mut v = chars_of(entry.mod_type.as_str());
    v.push('/');
    extend_str(&mut v, entry.name.as_str());
    let ghost cs = seq![entry.mod_type@, entry.name@];
    assert(cs.drop_last() =~= seq![entry.mod_type@]);
    assert(join_components(cs.drop_last()) == entry.mod_type@);
    assert(v@ =~= join_components(cs));
    string_from(v.as_slice())
}

/// The path inside a pack of the entry `name` of the pack folder `prefix`.
pub fn pack_path(prefix: &str, name: &str) -> (r: String)
    ensures
        r@ == prefix@ + seq!['/'] + name@,
{
    let mut v = chars_of(prefix);
    v.push('/');
    extend_str(&mut v, name);
    string_from(v.as_slice())
}

/// What restoring a packed mod's recorded state does once its files are
/// unpacked: a script mod's marker is written or removed; a pak mod's
/// folder is renamed to match its state when the other folder exists
/// (`ep_is_dir` for `name`, `dp_is_dir` for `name.disabled`); other types
/// are left alone.
pub open spec fn state_fix_spec(
    script_dir: Seq<char>,
    pak_dir: Seq<char>,
    e: (Seq<char>, Seq<char>, bool),
    ep_is_dir: bool,
    dp_is_dir: bool,
) -> Option<(u8, Seq<char>, Seq<char>)> {
    let on = join_spec(pak_dir, e.0);
    let off = join_spec(pak_dir, e.0 + ".disabled"@);
    if e.1 == "script"@ {
        let marker = join_spec(join_spec(script_dir, e.0), "enabled.txt"@);
        if e.2 {
            Some((1u8, marker, Seq::empty()))
        } else {
            Some((2u8, marker, Seq::empty()))
        }
    } else if e.1 == "pak"@ {
        if !e.2 && ep_is_dir {
            Some((0u8, on, off))
        } else if e.2 && dp_is_dir {
            Some((0u8, off, on))
        } else {
            None
        }
    } else {
        None
    }
}

/// The two folders of a pak mod: enabled, then disabled.
pub fn pak_state_dirs(pak_dir: &str, name: &str) -> (r: (String, String))
    ensures
        r.0@ == join_spec(pak_dir@, name@),
        r.1@ == join_spec(pak_dir@, name@ + ".disabled"@),
{
    let pd = chars_of(pak_dir);
    let nv = chars_of(name);
    let on = join_path(pd.as_slice(), nv.as_slice());
    let mut off_name = nv;
    extend_str(&mut off_name, ".disabled");
    let off = join_path(pd.as_slice(), off_name.as_slice());
    (string_from(on.as_slice()), string_from(off.as_slice()))
}

/// What restoring a packed mod's recorded state does (`install_modpack`).
pub fn state_fix(script_dir: &str, pak_dir: &str, entry: &ModpackEntry, ep_is_dir: bool, dp_is_dir: bool) -> (r:
    Option<ToggleAction>)
    ensures
        match r {
            Some(a) => state_fix_spec(script_dir@, pak_dir@, pack_entry_view(*entry), ep_is_dir, dp_is_dir)
                == Some(toggle_view(a)),
            None => state_fix_spec(script_dir@, pak_dir@, pack_entry_view(*entry), ep_is_dir, dp_is_dir) is None,
        },
{
    let tv = chars_of(entry.mod_type.as_str());
    if chars_eq_str(tv.as_slice(), "script") {
        let sd = chars_of(script_dir);
        let nv = chars_of(entry.name.as_str());
        let d = join_path(sd.as_slice(), nv.as_slice());
        let m = crate::paths::join_path_str(d.as_slice(), "enabled.txt");
        if entry.enabled {
            Some(ToggleAction::WriteMarker(string_from(m.as_slice())))
        } else {
            Some(ToggleAction::RemoveMarker(string_from(m.as_slice())))
        }
    } else if chars_eq_str(tv.as_slice(), "pak") {
        let (on, off) = pak_state_dirs(pak_dir, entry.name.as_str());
        if !entry.enabled && ep_is_dir {
            Some(ToggleAction::Rename { from: on, to: off })
        } else if entry.enabled && dp_is_dir {
            Some(ToggleAction::Rename { from: off, to: on })
        } else {
            None
        }
    } else {
        None
    }
}

/// The number of mods a pack records, as the count reported back.
pub fn pack_count(entries: &Vec<ModpackEntry>) -> (r: u32)
    ensures
        r == entries@.len() as u32,
{
    entries.len() as u32
}

// ---------------------------------------------------------------------------
// What a pack writes, installing puts back
// ---------------------------------------------------------------------------

/// A file that exporting packs at `type/name/rel…` (a pak or script mod
/// named `name`, `rel` the file's path inside the mod folder, all of them
/// plain components) is unpacked by installing into the same folder kind,
/// at `name/rel…` inside it: what a pack writes, installing puts back.
pub proof fn law_pack_round_trip(is_pak: bool, name: Seq<char>, rel: Seq<Seq<char>>)
    requires
        plain_component(name),
        forall|i: int| 0 <= i < rel.len() ==> plain_component(#[trigger] rel[i]),
    ensures
        modpack_target_spec(
            join_components(
                seq![if is_pak {
                    "pak"@
                } else {
                    "script"@
                }, name] + rel,
            ),
        ) == Some((is_pak, join_components(seq![name] + rel))),
{
    let kind = if is_pak {
        "pak"@
    } else {
        "script"@
    };
    let cs = seq![kind, name] + rel;
    let p = join_components(cs);
    assert(kind.len() > 0 && kind != seq!['.'] && !kind.contains('/') && !kind.contains('\\')) by {
        reveal_strlit("pak");
        reveal_strlit("script");
        if is_pak {
            assert(kind =~= seq!['p', 'a', 'k']);
        } else {
            assert(kind =~= seq!['s', 'c', 'r', 'i', 'p', 't']);
        }
    }
    assert(crate::paths::drive_len(kind) == 0) by {
        reveal_strlit("pak");
        reveal_strlit("script");
        if is_pak {
            assert(kind =~= seq!['p', 'a', 'k']);
        } else {
            assert(kind =~= seq!['s', 'c', 'r', 'i', 'p', 't']);
        }
    }
    assert(!is_parent_dir(kind)) by {
        reveal_strlit("pak");
        reveal_strlit("script");
    }
    assert forall|i: int| 0 <= i < cs.len() implies is_component(#[trigger] cs[i]) && !cs[i].contains('/')
        && !cs[i].contains('\\') && !is_parent_dir(cs[i]) by {
        if i >= 2 {
            assert(cs[i] == rel[i - 2]);
        }
    }
    crate::archive::lemma_join_components(cs);
    assert(components(p) == cs);
    crate::archive::lemma_join_first(cs);
    assert(kind[0] == 'p' || kind[0] == 's') by {
        reveal_strlit("pak");
        reveal_strlit("script");
    }
    assert(crate::paths::lead_components(p).len() == 0);
    assert(crate::paths::all_components(p) == cs);
    assert(!has_parent_dir(p)) by {
        if has_parent_dir(p) {
            let i = choose|i: int| 0 <= i < components(p).len() && is_parent_dir(#[trigger] components(p)[i]);
            assert(is_parent_dir(cs[i]));
        }
    }
    // The manifest's name has no separator, a pack path has one.
    assert(p != "modpack.json"@) by {
        reveal_strlit("modpack.json");
        lemma_join_has_sep(cs);
        if p == "modpack.json"@ {
            assert(!"modpack.json"@.contains('/'));
        }
    }
    assert(cs.skip(1) =~= seq![name] + rel);
    assert(cs[0] == kind);
    reveal_strlit("pak");
    reveal_strlit("script");
}

/// A path joined from two or more components holds a `/`.
proof fn lemma_join_has_sep(cs: Seq<Seq<char>>)
    requires
        cs.len() >= 2,
    ensures
        join_components(cs).contains('/'),
    decreases cs.len(),
{
    let j0 = join_components(cs.drop_last());
    let j = join_components(cs);
    assert(j == j0 + seq!['/'] + cs.last());
    assert(j[j0.len() as int] == '/');
}


/// A name with its `.disabled` endings removed no longer ends in `.disabled`.
pub proof fn lemma_trim_disabled_clean(s: Seq<char>)
    ensures
        !".disabled"@.is_suffix_of(trim_disabled(s)),
    decreases s.len(),
{
    assert(".disabled"@.len() == 9) by {
        reveal_strlit(".disabled");
    }
    if ".disabled"@.is_suffix_of(s) && s.len() >= 9 {
        lemma_trim_disabled_clean(s.take(s.len() - 9));
    }
}

/// A mod pack keeps each mod's enabled state. A pak mod whose folder was
/// `raw` is recorded by its name and state; once its files are unpacked
/// into the enabled folder (and no disabled folder exists), restoring its
/// state renames it to the disabled folder exactly when it was disabled,
/// and the folder it ends in reads back as the same name and state. A
/// script mod's marker is written exactly when it was enabled, and removed
/// otherwise.
pub proof fn law_pack_keeps_state(script_dir: Seq<char>, pak_dir: Seq<char>, raw: Seq<char>, name: Seq<char>, enabled: bool)
    ensures
        ({
            let st = pak_folder_state_spec(raw);
            let e = (st.0, "pak"@, st.1);
            if st.1 {
                &&& state_fix_spec(script_dir, pak_dir, e, true, false) is None
                &&& pak_folder_state_spec(st.0) == (st.0, true)
            } else {
                &&& state_fix_spec(script_dir, pak_dir, e, true, false) == Some(
                    (0u8, join_spec(pak_dir, st.0), join_spec(pak_dir, st.0 + ".disabled"@)),
                )
                &&& pak_folder_state_spec(st.0 + ".disabled"@) == (st.0, false)
            }
        }),
        state_fix_spec(script_dir, pak_dir, (name, "script"@, enabled), false, false) == Some(
            (
                if enabled {
                    1u8
                } else {
                    2u8
                },
                join_spec(join_spec(script_dir, name), "enabled.txt"@),
                Seq::<char>::empty(),
            ),
        ),
{
    assert("pak"@ != "script"@) by {
        reveal_strlit("pak");
        reveal_strlit("script");
        assert("pak"@.len() != "script"@.len());
    }
    let st = pak_folder_state_spec(raw);
    if ".disabled"@.is_suffix_of(raw) {
        lemma_trim_disabled_clean(raw);
        crate::mods::law_disable_then_read(trim_disabled(raw));
    } else {
        crate::mods::law_disable_then_read(raw);
    }
}

} // verus!
