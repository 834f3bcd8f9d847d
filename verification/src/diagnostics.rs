//! Diagnostics: the checks that look for a broken mod setup, decided from
//! what was found on disk.
use vstd::prelude::*;
use crate::archive::is_pak_file_name;
use crate::model::{Config, DiagIssue};
use crate::paths::{ancestor_spec, join_spec, leading_path_of, path_components};
use crate::text::{
    chars_eq, chars_of, ends_with_str, extend_chars, extend_str, find_spec, find_str, lines_of,
    lines_spec, lowercase_chars, string_from, sub_chars, trim_start, trim_start_spec,
    unicode_lowercase, views, find_chars,
};

verus! {

broadcast use vstd::seq_lib::group_seq_properties;

// ---------------------------------------------------------------------------
// Hooks registered by Lua scripts
// ---------------------------------------------------------------------------

/// The string literal that starts `s` after leading whitespace: the text
/// between a `"` or `'` and the next occurrence of the same quote.
pub open spec fn lua_string_arg_spec(s: Seq<char>) -> Option<Seq<char>> {
    let t = trim_start_spec(s);
    if t.len() > 0 && (t[0] == '"' || t[0] == '\'') {
        let rest = t.drop_first();
        match find_spec(rest, seq![t[0]]) {
            Some(e) => Some(rest.take(e)),
            None => None,
        }
    } else {
        None
    }
}

/// The leading Lua string literal of `s`, when there is one.
pub fn lua_string_arg(s: &str) -> (r: Option<String>)
    ensures
        match r {
            Some(a) => lua_string_arg_spec(s@) == Some(a@),
            None => lua_string_arg_spec(s@) is None,
        },
{
    let v = chars_of(s);
    let t = trim_start(v.as_slice());
    if t.len() == 0 || !(t[0] == '"' || t[0] == '\'') {
        return None;
    }
    let q = vec![t[0]];
    assert(q@ =~= seq![t@[0]]);
    let rest = sub_chars(t.as_slice(), 1, t.len());
    assert(rest@ == t@.drop_first());
    match find_chars(rest.as_slice(), q.as_slice()) {
        Some(e) => {
            proof {
                crate::logs::lemma_find_in_range(rest@, q@);
            }
            let a = sub_chars(rest.as_slice(), 0, e);
            Some(string_from(a.as_slice()))
        },
        None => None,
    }
}

/// The hook named on one line of a Lua script, if it calls `RegisterHook(`
/// with a string literal.
pub open spec fn line_hook(l: Seq<char>) -> Option<Seq<char>> {
    match find_spec(l, "RegisterHook("@) {
        Some(i) => lua_string_arg_spec(l.skip(i + 13)),
        None => None,
    }
}

/// The hooks that a Lua script registers, line by line.
pub open spec fn script_hooks_spec(content: Seq<char>) -> Seq<Seq<char>> {
    lines_spec(content).filter_map(|l: Seq<char>| line_hook(l))
}

/// The hooks that a Lua script registers, in the order of its lines.
pub fn script_hooks(content: &str) -> (r: Vec<String>)
    ensures
        views(r@) == script_hooks_spec(content@),
{
    let v = chars_of(content);
    let ls = lines_of(v.as_slice());
    let ghost lv = ls@.map_values(|x: Vec<char>| x@);
    let pat = chars_of("RegisterHook(");
    proof {
        reveal_strlit("RegisterHook(");
    }
    let mut out: Vec<String> = Vec::new();
    for i in 0..ls.len()
        invariant
            lv == ls@.map_values(|x: Vec<char>| x@),
            lv == lines_spec(content@),
            pat@ == "RegisterHook("@,
            pat@.len() == 13,
            views(out@) == lv.take(i as int).filter_map(|l: Seq<char>| line_hook(l)),
    {
        assert(lv.take(i + 1).drop_last() == lv.take(i as int));
        assert(lv.take(i + 1).last() == ls@[i as int]@);
        let line = &ls[i];
        let ghost o0 = views(out@);
        match find_chars(line.as_slice(), pat.as_slice()) {
            Some(idx) => {
                proof {
                    crate::logs::lemma_find_in_range(line@, pat@);
                }
                let ll = line.len();
                assert(idx + 13 <= ll);
                let tail = sub_chars(line.as_slice(), idx + 13, ll);
                let ts = string_from(tail.as_slice());
                match lua_string_arg(ts.as_str()) {
                    Some(h) => {
                        out.push(h);
                        assert(views(out@) =~= o0 + seq![h@]);
                    },
                    None => {},
                }
            },
            None => {},
        }
    }
    assert(lv.take(ls.len() as int) == lv);
    out
}

/// Whether a file name or path is a Lua script (extension `lua`, any case).
pub fn is_lua_script(path: &str) -> (r: bool)
    ensures
        r == (crate::paths::extension_spec(path@) matches Some(e)
            && crate::text::eq_ignore_ascii_case(e, "lua"@)),
{
    let v = chars_of(path);
    match crate::paths::extension_of(v.as_slice()) {
        Some(e) => {
            let l = chars_of("lua");
            crate::text::chars_eq_ignore_ascii_case(e.as_slice(), l.as_slice())
        },
        None => false,
    }
}

// ---------------------------------------------------------------------------
// What the checks look at
// ---------------------------------------------------------------------------

/// A script mod folder as the checks see it.
#[derive(Debug)]
pub struct ScriptModScan {
    pub name: String,
    /// An `enabled.txt` marker is present.
    pub enabled: bool,
    /// How many entries of the folder are not the marker.
    pub non_marker_count: usize,
    /// The hooks its Lua scripts register, in scan order (read only for
    /// enabled mods).
    pub hooks: Vec<String>,
}

/// An entry of the pak folder as the checks see it.
#[derive(Debug)]
pub struct PakFolderItem {
    pub name: String,
    pub is_file: bool,
    pub is_dir: bool,
    /// For a folder, the names of the entries inside it.
    pub file_names: Vec<String>,
}

/// Everything that the checks look at once the game folder is known.
#[derive(Debug)]
pub struct DiagObservations {
    pub ue4ss_dll_exists: bool,
    pub ue4ss_dir_exists: bool,
    pub proxy_dll_exists: bool,
    /// The folders of the mods folder, in listing order.
    pub script_mods: Vec<ScriptModScan>,
    /// The entries of the pak folder, in listing order (empty when there is
    /// no pak folder).
    pub pak_items: Vec<PakFolderItem>,
}

/// The fields of an issue.
pub open spec fn issue_view(i: DiagIssue) -> (Seq<char>, Seq<char>, Seq<char>) {
    (i.severity@, i.title@, i.detail@)
}

/// The fields of a sequence of issues.
pub open spec fn issues_view(s: Seq<DiagIssue>) -> Seq<(Seq<char>, Seq<char>, Seq<char>)> {
    s.map_values(|i: DiagIssue| issue_view(i))
}

/// An issue.
fn issue(severity: &str, title: String, detail: String) -> (r: DiagIssue)
    ensures
        issue_view(r) == (severity@, title@, detail@),
{
    DiagIssue { severity: severity.to_owned(), title, detail }
}

// ---------------------------------------------------------------------------
// Locating the game folder
// ---------------------------------------------------------------------------

/// The message of an issue that stops the checks before they start.
pub open spec fn setup_issue_spec(config: Option<&Config>) -> Option<(Seq<char>, Seq<char>, Seq<char>)> {
    match config {
        None => Some(
            (
                "error"@,
                "No configuration found"@,
                "Open Settings and configure your mods folder before running diagnostics."@,
            ),
        ),
        Some(c) => match c.mods_folder {
            None => Some(
                (
                    "error"@,
                    "No mods folder configured"@,
                    "Open Settings and pick your mods folder before running diagnostics."@,
                ),
            ),
            Some(f) => match ancestor_spec(f@, 4) {
                None => Some(
                    (
                        "error"@,
                        "Invalid mods folder path"@,
                        "The configured path doesn't match the expected Subnautica 2 folder structure."@,
                    ),
                ),
                Some(_) => None,
            },
        },
    }
}

/// The mods folder and the game folder that the checks look at, or the one
/// issue that stops them: no configuration, no mods folder, or a mods
/// folder too shallow to hold the game folder.
pub fn diagnosis_target(config: Option<&Config>) -> (r: Result<(String, String), DiagIssue>)
    ensures
        match r {
            Ok((mods_folder, inner)) => {
                &&& setup_issue_spec(config) is None
                &&& config matches Some(c)
                &&& c.mods_folder == Some(mods_folder)
                &&& ancestor_spec(mods_folder@, 4) == Some(inner@)
            },
            Err(i) => setup_issue_spec(config) == Some(issue_view(i)),
        },
{
    let c = match config {
        None => {
            return Err(
                issue(
                    "error",
                    "No configuration found".to_owned(),
                    "Open Settings and configure your mods folder before running diagnostics.".to_owned(),
                ),
            )
        },
        Some(c) => c,
    };
    let f = match &c.mods_folder {
        None => {
            return Err(
                issue(
                    "error",
                    "No mods folder configured".to_owned(),
                    "Open Settings and pick your mods folder before running diagnostics.".to_owned(),
                ),
            )
        },
        Some(f) => f,
    };
    match crate::mods::derive_inner_game_folder(f.as_str()) {
        Ok(inner) => Ok((f.clone(), inner)),
        Err(_) => Err(
            issue(
                "error",
                "Invalid mods folder path".to_owned(),
                "The configured path doesn't match the expected Subnautica 2 folder structure.".to_owned(),
            ),
        ),
    }
}

// ---------------------------------------------------------------------------
// The checks
// ---------------------------------------------------------------------------

/// A sequence with later repeats removed.
pub open spec fn dedup<A>(s: Seq<A>) -> Seq<A>
    decreases s.len(),
{
    if s.len() == 0 {
        s
    } else {
        let d = dedup(s.drop_last());
        if d.contains(s.last()) {
            d
        } else {
            d.push(s.last())
        }
    }
}

/// Pieces joined with a separator between each two.
pub open spec fn join_spec_seq(parts: Seq<Seq<char>>, sep: Seq<char>) -> Seq<char>
    decreases parts.len(),
{
    if parts.len() == 0 {
        Seq::empty()
    } else if parts.len() == 1 {
        parts[0]
    } else {
        join_spec_seq(parts.drop_last(), sep) + sep + parts.last()
    }
}

/// The hooks that enabled script mods register, in registration order.
pub open spec fn registered_hooks(mods: Seq<ScriptModScan>) -> Seq<Seq<char>>
    decreases mods.len(),
{
    if mods.len() == 0 {
        Seq::empty()
    } else {
        registered_hooks(mods.drop_last()) + (if mods.last().enabled {
            views(mods.last().hooks@)
        } else {
            Seq::empty()
        })
    }
}

/// The enabled mods that register a hook, each once, in folder order.
pub open spec fn hook_registrants(mods: Seq<ScriptModScan>, hook: Seq<char>) -> Seq<Seq<char>> {
    dedup(
        mods.filter(|m: ScriptModScan| m.enabled && views(m.hooks@).contains(hook)).map_values(
            |m: ScriptModScan| m.name@,
        ),
    )
}

/// The issue for a hook that two or more enabled mods register.
pub open spec fn hook_conflict_issue(mods: Seq<ScriptModScan>, hook: Seq<char>) -> (
    Seq<char>,
    Seq<char>,
    Seq<char>,
) {
    (
        "warning"@,
        "Hook conflict: "@ + hook,
        join_spec_seq(hook_registrants(mods, hook), " and "@)
            + " both register this hook \u{2014} one may override the other."@,
    )
}

/// The hook conflicts, one per hook, in the order the hooks were first registered.
pub open spec fn hook_conflicts(mods: Seq<ScriptModScan>) -> Seq<(Seq<char>, Seq<char>, Seq<char>)> {
    dedup(registered_hooks(mods)).filter(|h: Seq<char>| hook_registrants(mods, h).len() > 1).map_values(
        |h: Seq<char>| hook_conflict_issue(mods, h),
    )
}

/// Removing repeats keeps exactly the values that occur.
pub proof fn lemma_dedup_contains<A>(s: Seq<A>, x: A)
    ensures
        dedup(s).contains(x) == s.contains(x),
    decreases s.len(),
{
    if s.len() > 0 {
        lemma_dedup_contains(s.drop_last(), x);
        let d = dedup(s.drop_last());
        if s.drop_last().contains(x) {
            let k = choose|k: int| 0 <= k < s.drop_last().len() && s.drop_last()[k] == x;
            assert(s[k] == x);
        }
        if s.contains(x) && !s.drop_last().contains(x) {
            let k = choose|k: int| 0 <= k < s.len() && s[k] == x;
            if k < s.len() - 1 {
                assert(s.drop_last()[k] == x);
            }
            assert(s.last() == x);
            if !d.contains(s.last()) {
                assert(d.push(s.last())[d.len() as int] == x);
            }
        }
        if dedup(s).contains(x) && !d.contains(x) {
            assert(!d.contains(s.last()));
            let k = choose|k: int| 0 <= k < dedup(s).len() && dedup(s)[k] == x;
            if k < d.len() {
                assert(d[k] == x);
            }
            assert(s[s.len() - 1] == x);
        }
    }
}

/// A hook that an enabled mod registers is among the registered hooks.
proof fn lemma_registered_contains(mods: Seq<ScriptModScan>, i: int, h: Seq<char>)
    requires
        0 <= i < mods.len(),
        mods[i].enabled,
        views(mods[i].hooks@).contains(h),
    ensures
        registered_hooks(mods).contains(h),
    decreases mods.len(),
{
    let r0 = registered_hooks(mods.drop_last());
    let tail = if mods.last().enabled {
        views(mods.last().hooks@)
    } else {
        Seq::empty()
    };
    assert(registered_hooks(mods) == r0 + tail);
    if i < mods.len() - 1 {
        assert(mods.drop_last()[i] == mods[i]);
        lemma_registered_contains(mods.drop_last(), i, h);
        let k = choose|k: int| 0 <= k < r0.len() && r0[k] == h;
        assert((r0 + tail)[k] == h);
    } else {
        let k = choose|k: int| 0 <= k < tail.len() && tail[k] == h;
        assert((r0 + tail)[r0.len() + k] == h);
    }
}

/// When two enabled mods with different names both register a hook, the
/// diagnostics report a conflict for that hook, naming the mods that
/// register it.
pub proof fn law_hook_conflict_reported(mods: Seq<ScriptModScan>, i: int, j: int, h: Seq<char>)
    requires
        0 <= i < mods.len(),
        0 <= j < mods.len(),
        mods[i].name@ != mods[j].name@,
        mods[i].enabled,
        mods[j].enabled,
        views(mods[i].hooks@).contains(h),
        views(mods[j].hooks@).contains(h),
    ensures
        hook_conflicts(mods).contains(hook_conflict_issue(mods, h)),
        hook_registrants(mods, h).len() > 1,
{
    broadcast use vstd::seq_lib::group_filter_ensures;
    let p = |m: ScriptModScan| m.enabled && views(m.hooks@).contains(h);
    let f = |m: ScriptModScan| m.name@;
    let fl = mods.filter(p);
    mods.lemma_filter_contains(p, i);
    mods.lemma_filter_contains(p, j);
    let ki = choose|k: int| 0 <= k < fl.len() && fl[k] == mods[i];
    let kj = choose|k: int| 0 <= k < fl.len() && fl[k] == mods[j];
    let names = fl.map_values(f);
    assert(names[ki] == mods[i].name@);
    assert(names[kj] == mods[j].name@);
    lemma_dedup_contains(names, mods[i].name@);
    lemma_dedup_contains(names, mods[j].name@);
    let regs = hook_registrants(mods, h);
    assert(regs == dedup(names));
    assert(regs.len() > 1) by {
        let a = choose|k: int| 0 <= k < regs.len() && regs[k] == mods[i].name@;
        let b = choose|k: int| 0 <= k < regs.len() && regs[k] == mods[j].name@;
        assert(a != b);
    }
    lemma_registered_contains(mods, i, h);
    lemma_dedup_contains(registered_hooks(mods), h);
    let hs = dedup(registered_hooks(mods));
    let q = |x: Seq<char>| hook_registrants(mods, x).len() > 1;
    let kh = choose|k: int| 0 <= k < hs.len() && hs[k] == h;
    hs.lemma_filter_contains(q, kh);
    let hf = hs.filter(q);
    let m = choose|k: int| 0 <= k < hf.len() && hf[k] == h;
    let g = |x: Seq<char>| hook_conflict_issue(mods, x);
    assert(hf.map_values(g)[m] == hook_conflict_issue(mods, h));
    assert(hook_conflicts(mods) == hf.map_values(g));
}

/// The diagnostics of a setup report such a conflict among their findings.
pub proof fn law_diagnose_reports_conflict(o: DiagObservations, i: int, j: int, h: Seq<char>)
    requires
        0 <= i < o.script_mods@.len(),
        0 <= j < o.script_mods@.len(),
        o.script_mods@[i].name@ != o.script_mods@[j].name@,
        o.script_mods@[i].enabled,
        o.script_mods@[j].enabled,
        views(o.script_mods@[i].hooks@).contains(h),
        views(o.script_mods@[j].hooks@).contains(h),
    ensures
        diagnose_spec(o).contains(hook_conflict_issue(o.script_mods@, h)),
{
    let mods = o.script_mods@;
    law_hook_conflict_reported(mods, i, j, h);
    let a = loader_issues(o) + empty_mod_issues(mods);
    let c = hook_conflicts(mods);
    let d = pak_issues(o.pak_items@);
    let x = hook_conflict_issue(mods, h);
    let k = choose|k: int| 0 <= k < c.len() && c[k] == x;
    let found = a + c + d;
    assert(found[a.len() + k] == x);
    assert(found.len() > 0);
}

/// The issues about the loader.
pub open spec fn loader_issues(o: DiagObservations) -> Seq<(Seq<char>, Seq<char>, Seq<char>)> {
    (if !o.ue4ss_dll_exists {
        seq![
            (
                "error"@,
                "UE4SS is not installed"@,
                "Script mods won't load. Download the SN2-specific build from Nexus (mod #36) and install via \"+\u{a0}Install ZIP\"."@,
            ),
        ]
    } else {
        Seq::empty()
    }) + (if o.ue4ss_dir_exists && !o.proxy_dll_exists {
        seq![
            (
                "error"@,
                "UE4SS proxy DLL missing"@,
                "dwmapi.dll is absent from Binaries\\Win64. UE4SS won't initialise at all. Reinstall the SN2 UE4SS build from Nexus (mod #36)."@,
            ),
        ]
    } else {
        Seq::empty()
    })
}

/// The issues about empty script mod folders, in folder order.
pub open spec fn empty_mod_issues(mods: Seq<ScriptModScan>) -> Seq<(Seq<char>, Seq<char>, Seq<char>)> {
    mods.filter(|m: ScriptModScan| m.non_marker_count == 0).map_values(
        |m: ScriptModScan|
            (
                "warning"@,
                m.name@ + ": folder appears empty"@,
                "No mod files found here \u{2014} this mod may not have installed correctly."@,
            ),
    )
}

/// A name with every trailing `.disabled` removed (`trim_end_matches`).
pub open spec fn trim_disabled(s: Seq<char>) -> Seq<char>
    decreases s.len(),
{
    if ".disabled"@.is_suffix_of(s) && s.len() >= 9 {
        trim_disabled(s.take(s.len() - 9))
    } else {
        s
    }
}

/// Whether some name in the folder, lowercased, ends with `ext`.
pub open spec fn folder_has_ext(names: Seq<Seq<char>>, ext: Seq<char>) -> bool {
    exists|i: int| 0 <= i < names.len() && ext.is_suffix_of(unicode_lowercase(#[trigger] names[i]))
}

/// The file kinds that a pak mod folder lacks, among `.pak`, `.utoc`, `.ucas`.
pub open spec fn missing_pak_kinds(names: Seq<Seq<char>>) -> Seq<Seq<char>> {
    (if !folder_has_ext(names, ".pak"@) {
        seq![".pak"@]
    } else {
        Seq::empty()
    }) + (if !folder_has_ext(names, ".utoc"@) {
        seq![".utoc"@]
    } else {
        Seq::empty()
    }) + (if !folder_has_ext(names, ".ucas"@) {
        seq![".ucas"@]
    } else {
        Seq::empty()
    })
}

/// The issues about one entry of the pak folder.
pub open spec fn pak_item_issues(it: PakFolderItem) -> Seq<(Seq<char>, Seq<char>, Seq<char>)> {
    let loose = if it.is_file && is_pak_file_name(unicode_lowercase(it.name@)) {
        seq![
            (
                "warning"@,
                "Unmanaged file: "@ + it.name@,
                "This file is loose in LogicMods\\ rather than in a subfolder. Tidekeeper can't track or disable it."@,
            ),
        ]
    } else {
        Seq::empty()
    };
    let missing = missing_pak_kinds(views(it.file_names@));
    let incomplete = if it.is_dir && 0 < missing.len() < 3 {
        seq![
            (
                "error"@,
                trim_disabled(it.name@) + ": incomplete pak files"@,
                "Missing "@ + join_spec_seq(missing, ", "@)
                    + " \u{2014} this mod likely won't load in-game. Try reinstalling it."@,
            ),
        ]
    } else {
        Seq::empty()
    };
    loose + incomplete
}

/// The issues about the pak folder, entry by entry.
pub open spec fn pak_issues(items: Seq<PakFolderItem>) -> Seq<(Seq<char>, Seq<char>, Seq<char>)>
    decreases items.len(),
{
    if items.len() == 0 {
        Seq::empty()
    } else {
        pak_issues(items.drop_last()) + pak_item_issues(items.last())
    }
}

/// The findings of the checks: loader, empty folders, hook conflicts and
/// pak folders, in that order.
pub open spec fn found_issues(o: DiagObservations) -> Seq<(Seq<char>, Seq<char>, Seq<char>)> {
    loader_issues(o) + empty_mod_issues(o.script_mods@) + hook_conflicts(o.script_mods@)
        + pak_issues(o.pak_items@)
}

/// The one issue reported when the checks find nothing.
pub open spec fn all_clear_issue() -> (Seq<char>, Seq<char>, Seq<char>) {
    ("ok"@, "All checks passed"@, "No issues detected. Your mod setup looks healthy."@)
}

/// All findings of the checks; the all-clear issue alone when there are none.
pub open spec fn diagnose_spec(o: DiagObservations) -> Seq<(Seq<char>, Seq<char>, Seq<char>)> {
    let found = found_issues(o);
    if found.len() == 0 {
        seq![all_clear_issue()]
    } else {
        found
    }
}

/// Every issue of the list is an error or a warning.
pub open spec fn errors_or_warnings(s: Seq<(Seq<char>, Seq<char>, Seq<char>)>) -> bool {
    forall|i: int| 0 <= i < s.len() ==> (#[trigger] s[i]).0 == "error"@ || s[i].0 == "warning"@
}

proof fn lemma_errors_or_warnings_concat(
    a: Seq<(Seq<char>, Seq<char>, Seq<char>)>,
    b: Seq<(Seq<char>, Seq<char>, Seq<char>)>,
)
    requires
        errors_or_warnings(a),
        errors_or_warnings(b),
    ensures
        errors_or_warnings(a + b),
{
    assert forall|i: int| 0 <= i < (a + b).len() implies (#[trigger] (a + b)[i]).0 == "error"@ || (a
        + b)[i].0 == "warning"@ by {
        if i < a.len() {
            assert((a + b)[i] == a[i]);
        } else {
            assert((a + b)[i] == b[i - a.len()]);
        }
    }
}

proof fn lemma_pak_issues_severity(items: Seq<PakFolderItem>)
    ensures
        errors_or_warnings(pak_issues(items)),
    decreases items.len(),
{
    if items.len() > 0 {
        lemma_pak_issues_severity(items.drop_last());
        let it = items.last();
        let p = pak_item_issues(it);
        assert forall|i: int| 0 <= i < p.len() implies (#[trigger] p[i]).0 == "error"@ || p[i].0
            == "warning"@ by {}
        lemma_errors_or_warnings_concat(pak_issues(items.drop_last()), pak_item_issues(it));
    }
}

proof fn lemma_found_severity(o: DiagObservations)
    ensures
        errors_or_warnings(found_issues(o)),
{
    let mods = o.script_mods@;
    let e = empty_mod_issues(mods);
    let h = hook_conflicts(mods);
    assert(errors_or_warnings(loader_issues(o)));
    assert(errors_or_warnings(e));
    assert(errors_or_warnings(h));
    lemma_pak_issues_severity(o.pak_items@);
    lemma_errors_or_warnings_concat(loader_issues(o), e);
    lemma_errors_or_warnings_concat(loader_issues(o) + e, h);
    lemma_errors_or_warnings_concat(loader_issues(o) + e + h, pak_issues(o.pak_items@));
}

/// The checks always report something: a setup that stops them is
/// reported as one error; otherwise each issue is an error, a warning or
/// the all-clear, the all-clear comes only as the one issue of the list,
/// and exactly when the checks found nothing else.
pub proof fn law_diagnose_never_empty(config: Option<&Config>, o: DiagObservations)
    ensures
        setup_issue_spec(config) matches Some(i) ==> i.0 == "error"@,
        diagnose_spec(o).len() >= 1,
        forall|i: int|
            0 <= i < diagnose_spec(o).len() ==> (#[trigger] diagnose_spec(o)[i]).0 == "error"@
                || diagnose_spec(o)[i].0 == "warning"@ || diagnose_spec(o)[i].0 == "ok"@,
        (exists|i: int| 0 <= i < diagnose_spec(o).len() && (#[trigger] diagnose_spec(o)[i]).0 == "ok"@)
            <==> diagnose_spec(o) == seq![all_clear_issue()],
        diagnose_spec(o) == seq![all_clear_issue()] <==> found_issues(o).len() == 0,
{
    lemma_found_severity(o);
    reveal_strlit("ok");
    reveal_strlit("error");
    reveal_strlit("warning");
    let f = found_issues(o);
    let d = diagnose_spec(o);
    assert("ok"@.len() == 2 && "error"@.len() == 5 && "warning"@.len() == 7);
    if f.len() == 0 {
        assert(d[0].0 == "ok"@);
    } else {
        assert(d == f);
        assert(d[0].0 == "error"@ || d[0].0 == "warning"@);
        assert(d[0] != all_clear_issue());
        assert(d != seq![all_clear_issue()]);
        assert forall|i: int| 0 <= i < d.len() implies (#[trigger] d[i]).0 != "ok"@ by {
            assert(d[i].0 == "error"@ || d[i].0 == "warning"@);
        }
    }
}

// ---------------------------------------------------------------------------
// Running the checks
// ---------------------------------------------------------------------------

/// The strings with later repeats removed.
pub fn dedup_strings(v: &Vec<String>) -> (r: Vec<String>)
    ensures
        views(r@) == dedup(views(v@)),
{
    let ghost vv = views(v@);
    let mut r: Vec<String> = Vec::new();
    for i in 0..v.len()
        invariant
            vv == views(v@),
            views(r@) == dedup(vv.take(i as int)),
    {
        assert(vv.take(i + 1).drop_last() == vv.take(i as int));
        assert(vv.take(i + 1).last() == v@[i as int]@);
        let ghost r0 = views(r@);
        let mut seen = false;
        let mut j: usize = 0;
        let x = &v[i];
        while j < r.len()
            invariant
                j <= r@.len(),
                r0 == views(r@),
                seen == (exists|k: int| 0 <= k < j && (#[trigger] r@[k])@ == x@),
            decreases r@.len() - j,
        {
            if r[j] == *x {
                seen = true;
            }
            j = j + 1;
        }
        proof {
            if r0.contains(x@) {
                let k = choose|k: int| 0 <= k < r0.len() && r0[k] == x@;
                assert(r@[k]@ == x@);
            }
            if seen {
                let k = choose|k: int| 0 <= k < r@.len() && (#[trigger] r@[k])@ == x@;
                assert(r0[k] == x@);
            }
        }
        if !seen {
            let x = v[i].clone();
            r.push(x);
            assert(views(r@) =~= r0.push(v@[i as int]@));
        }
    }
    assert(vv.take(v.len() as int) == vv);
    r
}

/// The pieces joined with `sep` between each two.
pub fn join_with(parts: &Vec<String>, sep: &str) -> (r: Vec<char>)
    ensures
        r@ == join_spec_seq(views(parts@), sep@),
{
    let ghost pv = views(parts@);
    let mut acc: Vec<char> = Vec::new();
    for i in 0..parts.len()
        invariant
            pv == views(parts@),
            acc@ == join_spec_seq(pv.take(i as int), sep@),
    {
        let ghost t = pv.take(i + 1);
        assert(t.drop_last() == pv.take(i as int));
        assert(t.last() == parts@[i as int]@);
        if i > 0 {
            extend_str(&mut acc, sep);
        } else {
            assert(t.len() == 1);
        }
        extend_str(&mut acc, parts[i].as_str());
    }
    assert(pv.take(parts.len() as int) == pv);
    acc
}

/// The hooks that enabled mods register, in registration order.
fn collect_hooks(mods: &Vec<ScriptModScan>) -> (r: Vec<String>)
    ensures
        views(r@) == registered_hooks(mods@),
{
    let mut r: Vec<String> = Vec::new();
    for i in 0..mods.len()
        invariant
            views(r@) == registered_hooks(mods@.take(i as int)),
    {
        assert(mods@.take(i + 1).drop_last() == mods@.take(i as int));
        assert(mods@.take(i + 1).last() == mods@[i as int]);
        let m = &mods[i];
        if m.enabled {
            let ghost r0 = views(r@);
            for j in 0..m.hooks.len()
                invariant
                    views(r@) == r0 + views(m.hooks@).take(j as int),
            {
                let ghost rr = r@;
                let h = m.hooks[j].clone();
                assert(h@ == m.hooks@[j as int]@);
                r.push(h);
                assert(views(r@) =~= views(rr).push(h@));
                assert(views(m.hooks@).take(j + 1) == views(m.hooks@).take(j as int).push(
                    m.hooks@[j as int]@,
                ));
                assert(views(r@) =~= r0 + views(m.hooks@).take(j + 1));
            }
            assert(views(m.hooks@).take(m.hooks.len() as int) == views(m.hooks@));
        } else {
            assert(views(r@) =~= registered_hooks(mods@.take(i as int)) + Seq::<Seq<char>>::empty());
        }
    }
    assert(mods@.take(mods.len() as int) == mods@);
    r
}

/// Whether a list of strings holds `x`.
fn strings_contain(v: &Vec<String>, x: &String) -> (r: bool)
    ensures
        r == views(v@).contains(x@),
{
    for i in 0..v.len()
        invariant
            forall|k: int| 0 <= k < i ==> v@[k]@ != x@,
    {
        if v[i] == *x {
            assert(views(v@)[i as int] == x@);
            return true;
        }
    }
    proof {
        if views(v@).contains(x@) {
            let k = choose|k: int| 0 <= k < views(v@).len() && views(v@)[k] == x@;
            assert(v@[k]@ == x@);
        }
    }
    false
}

/// The enabled mods that register `hook`, each once, in folder order.
fn registrants_of(mods: &Vec<ScriptModScan>, hook: &String) -> (r: Vec<String>)
    ensures
        views(r@) == hook_registrants(mods@, hook@),
{
    let ghost p = |m: ScriptModScan| m.enabled && views(m.hooks@).contains(hook@);
    let ghost f = |m: ScriptModScan| m.name@;
    let mut names: Vec<String> = Vec::new();
    for i in 0..mods.len()
        invariant
            views(names@) == mods@.take(i as int).filter(
                |m: ScriptModScan| m.enabled && views(m.hooks@).contains(hook@),
            ).map_values(|m: ScriptModScan| m.name@),
    {
        proof {
            reveal(Seq::filter);
            assert(mods@.take(i + 1).drop_last() == mods@.take(i as int));
            assert(mods@.take(i + 1).last() == mods@[i as int]);
        }
        let ghost n0 = views(names@);
        let m = &mods[i];
        if m.enabled && strings_contain(&m.hooks, hook) {
            let x = m.name.clone();
            names.push(x);
            assert(views(names@) =~= n0.push(m.name@));
        }
    }
    assert(mods@.take(mods.len() as int) == mods@);
    dedup_strings(&names)
}

/// The hook conflicts among the script mods.
fn conflict_issues(mods: &Vec<ScriptModScan>) -> (r: Vec<DiagIssue>)
    ensures
        issues_view(r@) == hook_conflicts(mods@),
{
    let all = collect_hooks(mods);
    let hooks = dedup_strings(&all);
    let ghost hv = views(hooks@);
    let mut out: Vec<DiagIssue> = Vec::new();
    for i in 0..hooks.len()
        invariant
            hv == views(hooks@),
            hv == dedup(registered_hooks(mods@)),
            issues_view(out@) == hv.take(i as int).filter(
                |h: Seq<char>| hook_registrants(mods@, h).len() > 1,
            ).map_values(|h: Seq<char>| hook_conflict_issue(mods@, h)),
    {
        proof {
            reveal(Seq::filter);
            assert(hv.take(i + 1).drop_last() == hv.take(i as int));
            assert(hv.take(i + 1).last() == hooks@[i as int]@);
        }
        let ghost o0 = issues_view(out@);
        let regs = registrants_of(mods, &hooks[i]);
        if regs.len() > 1 {
            let mut title: Vec<char> = chars_of("Hook conflict: ");
            extend_str(&mut title, hooks[i].as_str());
            let mut detail = join_with(&regs, " and ");
            extend_str(&mut detail, " both register this hook \u{2014} one may override the other.");
            let it = issue("warning", string_from(title.as_slice()), string_from(detail.as_slice()));
            out.push(it);
            assert(issues_view(out@) =~= o0.push(hook_conflict_issue(mods@, hooks@[i as int]@)));
        }
    }
    assert(hv.take(hooks.len() as int) == hv);
    out
}

/// Whether the first `n` characters of `v` end with `pat`.
fn prefix_ends_with(v: &[char], n: usize, pat: &str) -> (r: bool)
    requires
        n <= v@.len(),
    ensures
        r == pat@.is_suffix_of(v@.take(n as int)),
{
    let p = chars_of(pat);
    if n < p.len() {
        return false;
    }
    let r = crate::text::matches_at(v, n - p.len(), p.as_slice());
    assert(v@.skip(n - p@.len()).subrange(0, p@.len() as int) =~= v@.take(n as int).subrange(
        n - p@.len(),
        n as int,
    ));
    r
}

/// A name with every trailing `.disabled` removed.
pub fn trim_disabled_suffix(name: &str) -> (r: String)
    ensures
        r@ == trim_disabled(name@),
{
    let v = chars_of(name);
    let mut n: usize = v.len();
    assert(v@.take(n as int) == v@);
    while n >= 9 && prefix_ends_with(v.as_slice(), n, ".disabled")
        invariant
            n <= v@.len(),
            trim_disabled(name@) == trim_disabled(v@.take(n as int)),
        decreases n,
    {
        assert(v@.take(n as int).take(n - 9) == v@.take(n - 9));
        n = n - 9;
    }
    let r = sub_chars(v.as_slice(), 0, n);
    assert(r@ == v@.take(n as int));
    string_from(r.as_slice())
}

/// Whether some name, lowercased, ends with `ext`.
fn names_have_ext(names: &Vec<String>, ext: &str) -> (r: bool)
    ensures
        r == folder_has_ext(views(names@), ext@),
{
    for i in 0..names.len()
        invariant
            forall|k: int| 0 <= k < i ==> !ext@.is_suffix_of(unicode_lowercase(#[trigger] views(names@)[k])),
    {
        let v = chars_of(names[i].as_str());
        let l = lowercase_chars(v.as_slice());
        assert(views(names@)[i as int] == names@[i as int]@);
        if ends_with_str(l.as_slice(), ext) {
            return true;
        }
    }
    false
}

/// The issues about one entry of the pak folder.
fn pak_item_issue_list(it: &PakFolderItem) -> (r: Vec<DiagIssue>)
    ensures
        issues_view(r@) == pak_item_issues(*it),
{
    let mut out: Vec<DiagIssue> = Vec::new();
    let nv = chars_of(it.name.as_str());
    let lower = lowercase_chars(nv.as_slice());
    if it.is_file && crate::archive::pak_file_name(lower.as_slice()) {
        let mut title = chars_of("Unmanaged file: ");
        extend_str(&mut title, it.name.as_str());
        out.push(
            issue(
                "warning",
                string_from(title.as_slice()),
                "This file is loose in LogicMods\\ rather than in a subfolder. Tidekeeper can't track or disable it.".to_owned(),
            ),
        );
    }
    let ghost o0 = issues_view(out@);
    if it.is_dir {
        let has_pak = names_have_ext(&it.file_names, ".pak");
        let has_utoc = names_have_ext(&it.file_names, ".utoc");
        let has_ucas = names_have_ext(&it.file_names, ".ucas");
        if (has_pak || has_utoc || has_ucas) && !(has_pak && has_utoc && has_ucas) {
            let mut missing: Vec<String> = Vec::new();
            if !has_pak {
                missing.push(".pak".to_owned());
            }
            if !has_utoc {
                missing.push(".utoc".to_owned());
            }
            if !has_ucas {
                missing.push(".ucas".to_owned());
            }
            let ghost mk = missing_pak_kinds(views(it.file_names@));
            assert(views(missing@) =~= mk);
            let display = trim_disabled_suffix(it.name.as_str());
            let mut title = chars_of(display.as_str());
            extend_str(&mut title, ": incomplete pak files");
            let mut detail = chars_of("Missing ");
            let list = join_with(&missing, ", ");
            extend_chars(&mut detail, list.as_slice());
            extend_str(&mut detail, " \u{2014} this mod likely won't load in-game. Try reinstalling it.");
            out.push(issue("error", string_from(title.as_slice()), string_from(detail.as_slice())));
            assert(issues_view(out@) =~= pak_item_issues(*it));
        } else {
            assert(!(0 < missing_pak_kinds(views(it.file_names@)).len() < 3));
            assert(issues_view(out@) =~= pak_item_issues(*it));
        }
    } else {
        assert(issues_view(out@) =~= pak_item_issues(*it));
    }
    out
}

/// Appends `more` to `out`.
fn append_issues(out: &mut Vec<DiagIssue>, more: Vec<DiagIssue>)
    ensures
        issues_view(final(out)@) == issues_view(old(out)@) + issues_view(more@),
{
    let mut m = more;
    let ghost mv = issues_view(m@);
    let ghost o0 = issues_view(out@);
    out.append(&mut m);
    assert(issues_view(out@) =~= o0 + mv);
}

/// The issues about the pak folder.
fn pak_issue_list(items: &Vec<PakFolderItem>) -> (r: Vec<DiagIssue>)
    ensures
        issues_view(r@) == pak_issues(items@),
{
    let mut out: Vec<DiagIssue> = Vec::new();
    for i in 0..items.len()
        invariant
            issues_view(out@) == pak_issues(items@.take(i as int)),
    {
        assert(items@.take(i + 1).drop_last() == items@.take(i as int));
        assert(items@.take(i + 1).last() == items@[i as int]);
        let more = pak_item_issue_list(&items[i]);
        append_issues(&mut out, more);
    }
    assert(items@.take(items.len() as int) == items@);
    out
}

/// The issues about empty script mod folders.
fn empty_mod_issue_list(mods: &Vec<ScriptModScan>) -> (r: Vec<DiagIssue>)
    ensures
        issues_view(r@) == empty_mod_issues(mods@),
{
    let mut out: Vec<DiagIssue> = Vec::new();
    for i in 0..mods.len()
        invariant
            issues_view(out@) == empty_mod_issues(mods@.take(i as int)),
    {
        proof {
            reveal(Seq::filter);
            assert(mods@.take(i + 1).drop_last() == mods@.take(i as int));
            assert(mods@.take(i + 1).last() == mods@[i as int]);
        }
        let ghost o0 = issues_view(out@);
        if mods[i].non_marker_count == 0 {
            let mut title = chars_of(mods[i].name.as_str());
            extend_str(&mut title, ": folder appears empty");
            out.push(
                issue(
                    "warning",
                    string_from(title.as_slice()),
                    "No mod files found here \u{2014} this mod may not have installed correctly.".to_owned(),
                ),
            );
            assert(issues_view(out@) =~= o0.push(
                (
                    "warning"@,
                    mods@[i as int].name@ + ": folder appears empty"@,
                    "No mod files found here \u{2014} this mod may not have installed correctly."@,
                ),
            ));
        }
    }
    assert(mods@.take(mods.len() as int) == mods@);
    out
}

/// Runs the checks on what was found on disk (`collect_diagnostics`).
pub fn diagnose(o: &DiagObservations) -> (r: Vec<DiagIssue>)
    ensures
        issues_view(r@) == diagnose_spec(*o),
{
    let mut out: Vec<DiagIssue> = Vec::new();
    if !o.ue4ss_dll_exists {
        out.push(
            issue(
                "error",
                "UE4SS is not installed".to_owned(),
                "Script mods won't load. Download the SN2-specific build from Nexus (mod #36) and install via \"+\u{a0}Install ZIP\".".to_owned(),
            ),
        );
    }
    if o.ue4ss_dir_exists && !o.proxy_dll_exists {
        out.push(
            issue(
                "error",
                "UE4SS proxy DLL missing".to_owned(),
                "dwmapi.dll is absent from Binaries\\Win64. UE4SS won't initialise at all. Reinstall the SN2 UE4SS build from Nexus (mod #36).".to_owned(),
            ),
        );
    }
    assert(issues_view(out@) =~= loader_issues(*o));
    let e = empty_mod_issue_list(&o.script_mods);
    append_issues(&mut out, e);
    let c = conflict_issues(&o.script_mods);
    append_issues(&mut out, c);
    let p = pak_issue_list(&o.pak_items);
    append_issues(&mut out, p);
    if out.len() == 0 {
        out.push(
            issue(
                "ok",
                "All checks passed".to_owned(),
                "No issues detected. Your mod setup looks healthy.".to_owned(),
            ),
        );
        assert(issues_view(out@) =~= diagnose_spec(*o));
    }
    out
}


/// A loose file of the pak folder is what makes a warning about an entry:
/// an entry draws a warning exactly when it is a file whose lowercase name
/// ends in `.pak`, `.ucas` or `.utoc`, and that warning, first among the
/// entry's issues, names it as an unmanaged file.
pub proof fn law_loose_pak_file_reported(it: PakFolderItem)
    ensures
        (exists|k: int|
            0 <= k < pak_item_issues(it).len() && (#[trigger] pak_item_issues(it)[k]).0 == "warning"@)
            <==> (it.is_file && (".pak"@.is_suffix_of(unicode_lowercase(it.name@))
            || ".ucas"@.is_suffix_of(unicode_lowercase(it.name@)) || ".utoc"@.is_suffix_of(
            unicode_lowercase(it.name@),
        ))),
        (it.is_file && (".pak"@.is_suffix_of(unicode_lowercase(it.name@))
            || ".ucas"@.is_suffix_of(unicode_lowercase(it.name@)) || ".utoc"@.is_suffix_of(
            unicode_lowercase(it.name@),
        ))) ==> pak_item_issues(it).len() > 0 && pak_item_issues(it)[0].0 == "warning"@
            && pak_item_issues(it)[0].1 == "Unmanaged file: "@ + it.name@,
{
    reveal_strlit("warning");
    reveal_strlit("error");
    assert("warning"@.len() == 7 && "error"@.len() == 5);
    let p = pak_item_issues(it);
    if exists|k: int| 0 <= k < p.len() && (#[trigger] p[k]).0 == "warning"@ {
        let k = choose|k: int| 0 <= k < p.len() && (#[trigger] p[k]).0 == "warning"@;
        if !(it.is_file && is_pak_file_name(unicode_lowercase(it.name@))) {
            assert(p[k].0 == "error"@);
        }
    }
    if it.is_file && is_pak_file_name(unicode_lowercase(it.name@)) {
        assert(p[0].0 == "warning"@);
    }
}

/// The issues of an entry of the pak folder are among the pak folder's issues.
proof fn lemma_pak_issues_include(items: Seq<PakFolderItem>, i: int, k: int)
    requires
        0 <= i < items.len(),
        0 <= k < pak_item_issues(items[i]).len(),
    ensures
        pak_issues(items).contains(pak_item_issues(items[i])[k]),
    decreases items.len(),
{
    let init = items.drop_last();
    let a = pak_issues(init);
    let b = pak_item_issues(items.last());
    assert(pak_issues(items) == a + b);
    if i == items.len() - 1 {
        assert((a + b)[a.len() + k] == b[k]);
    } else {
        assert(init[i] == items[i]);
        lemma_pak_issues_include(init, i, k);
        let j = choose|j: int| 0 <= j < a.len() && a[j] == pak_item_issues(items[i])[k];
        assert((a + b)[j] == a[j]);
    }
}

/// Every loose `.pak`, `.ucas` or `.utoc` file of the pak folder, whatever
/// its case, is reported by the checks as an unmanaged file.
pub proof fn law_diagnose_reports_loose_pak_files(o: DiagObservations, i: int)
    requires
        0 <= i < o.pak_items@.len(),
        o.pak_items@[i].is_file,
        ".pak"@.is_suffix_of(unicode_lowercase(o.pak_items@[i].name@))
            || ".ucas"@.is_suffix_of(unicode_lowercase(o.pak_items@[i].name@))
            || ".utoc"@.is_suffix_of(unicode_lowercase(o.pak_items@[i].name@)),
    ensures
        exists|k: int|
            0 <= k < diagnose_spec(o).len() && (#[trigger] diagnose_spec(o)[k]).0 == "warning"@
                && diagnose_spec(o)[k].1 == "Unmanaged file: "@ + o.pak_items@[i].name@,
{
    let it = o.pak_items@[i];
    law_loose_pak_file_reported(it);
    lemma_pak_issues_include(o.pak_items@, i, 0);
    let x = pak_item_issues(it)[0];
    let f = found_issues(o);
    let pre = loader_issues(o) + empty_mod_issues(o.script_mods@) + hook_conflicts(o.script_mods@);
    let pi = pak_issues(o.pak_items@);
    assert(f == pre + pi);
    let j = choose|j: int| 0 <= j < pi.len() && pi[j] == x;
    assert(f[pre.len() + j] == x);
    assert(diagnose_spec(o) == f);
    assert(diagnose_spec(o)[pre.len() + j] == x);
}

} // verus!
