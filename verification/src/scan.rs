//! Listing installed mods: the settings files inside a mod folder, the
//! entries of the mod list and their order, and loose pak files that no
//! mod folder holds.
use vstd::prelude::*;
use crate::model::{Config, ModEntry, ModMeta, UnmanagedGroup};
use crate::mods::{
    derive_inner_game_folder, is_config_extension, logic_mods_dir, logic_mods_spec,
    pak_folder_state, pak_folder_state_spec,
};
use crate::paths::{
    ancestor_spec, ends_in_name, extension_of, extension_spec, file_stem_of, file_stem_spec, is_sep,
    join_path, join_spec, plain_component,
};
use crate::text::{
    chars_eq_str, chars_of, ends_with_str, lowercase_chars, starts_with_str, string_from,
    unicode_lowercase, views,
};

verus! {

broadcast use vstd::seq_lib::group_seq_properties;

// ---------------------------------------------------------------------------
// The order of names
// ---------------------------------------------------------------------------

/// The order of `str::cmp` on text: lexicographic by characters, a prefix
/// first. (Comparing UTF-8 bytes orders text as its code points do.)
pub open spec fn lex_le(a: Seq<char>, b: Seq<char>) -> bool
    decreases a.len(),
{
    if a.len() == 0 {
        true
    } else if b.len() == 0 {
        false
    } else if a[0] != b[0] {
        a[0] < b[0]
    } else {
        lex_le(a.drop_first(), b.drop_first())
    }
}

/// Every text is at most itself.
pub proof fn lemma_lex_le_reflexive(a: Seq<char>)
    ensures
        lex_le(a, a),
    decreases a.len(),
{
    if a.len() > 0 {
        lemma_lex_le_reflexive(a.drop_first());
    }
}

/// Any two texts are ordered one way or the other.
pub proof fn lemma_lex_le_total(a: Seq<char>, b: Seq<char>)
    ensures
        lex_le(a, b) || lex_le(b, a),
    decreases a.len(),
{
    if a.len() > 0 && b.len() > 0 && a[0] == b[0] {
        lemma_lex_le_total(a.drop_first(), b.drop_first());
    }
}

/// The order is transitive.
pub proof fn lemma_lex_le_transitive(a: Seq<char>, b: Seq<char>, c: Seq<char>)
    requires
        lex_le(a, b),
        lex_le(b, c),
    ensures
        lex_le(a, c),
    decreases a.len(),
{
    if a.len() > 0 && b.len() > 0 && c.len() > 0 && a[0] == b[0] && b[0] == c[0] {
        lemma_lex_le_transitive(a.drop_first(), b.drop_first(), c.drop_first());
    }
}

/// Whether `a` comes no later than `b` in the order of `str::cmp`.
fn chars_lex_le(a: &[char], b: &[char]) -> (r: bool)
    ensures
        r == lex_le(a@, b@),
{
    let mut i: usize = 0;
    assert(a@.skip(0) == a@ && b@.skip(0) == b@);
    while i < a.len() && i < b.len() && a[i] == b[i]
        invariant
            i <= a@.len(),
            i <= b@.len(),
            lex_le(a@, b@) == lex_le(a@.skip(i as int), b@.skip(i as int)),
        decreases a@.len() - i,
    {
        assert(a@.skip(i as int).drop_first() == a@.skip(i + 1));
        assert(b@.skip(i as int).drop_first() == b@.skip(i + 1));
        i = i + 1;
    }
    if i == a.len() {
        true
    } else if i == b.len() {
        false
    } else {
        assert(a@.skip(i as int)[0] == a@[i as int] && b@.skip(i as int)[0] == b@[i as int]);
        a[i] < b[i]
    }
}

// ---------------------------------------------------------------------------
// Stable sorting by name
// ---------------------------------------------------------------------------

/// `r` is `s` sorted stably by `key`: `p` sends each place of `r` to the
/// place of `s` that it comes from, one to one, and items with equal keys
/// keep their order.
pub open spec fn stable_perm<A>(r: Seq<A>, s: Seq<A>, key: spec_fn(A) -> Seq<char>, p: Seq<int>) -> bool {
    &&& p.len() == r.len()
    &&& forall|k: int| 0 <= k < p.len() ==> 0 <= #[trigger] p[k] < s.len() && r[k] == s[p[k]]
    &&& forall|a: int, b: int| 0 <= a < b < p.len() ==> #[trigger] p[a] != #[trigger] p[b]
    &&& forall|a: int, b: int|
        0 <= a < b < p.len() && key(#[trigger] r[a]) == key(#[trigger] r[b]) ==> p[a] < p[b]
}

/// Whether `r` is in the order of `key`.
pub open spec fn sorted_by<A>(r: Seq<A>, key: spec_fn(A) -> Seq<char>) -> bool {
    forall|a: int, b: int| 0 <= a < b < r.len() ==> lex_le(key(#[trigger] r[a]), key(#[trigger] r[b]))
}

/// `r` is `s` sorted stably by `key`: the same items, one for one, in the
/// order of their keys, items with equal keys in their order in `s`.
pub open spec fn stable_sort_of<A>(r: Seq<A>, s: Seq<A>, key: spec_fn(A) -> Seq<char>) -> bool {
    &&& r.len() == s.len()
    &&& sorted_by(r, key)
    &&& exists|p: Seq<int>| stable_perm(r, s, key, p)
}

/// The key by which the mod list is ordered: the name in lowercase.
pub open spec fn entry_key(e: ModEntry) -> Seq<char> {
    unicode_lowercase(e.name@)
}

/// The mod list sorted stably by lowercase name (`sort_by` on
/// `name.to_lowercase()`).
pub fn sort_by_name(entries: Vec<ModEntry>) -> (r: Vec<ModEntry>)
    ensures
        stable_sort_of(r@, entries@, |e: ModEntry| entry_key(e)),
{
    let ghost s = entries@;
    let ghost key = |e: ModEntry| entry_key(e);
    let mut rest = entries;
    let mut out: Vec<ModEntry> = Vec::new();
    let mut keys: Vec<Vec<char>> = Vec::new();
    let ghost mut p: Seq<int> = Seq::empty();
    let n = rest.len();
    let mut i: usize = 0;
    assert(s.skip(0) == s);
    while i < n
        invariant
            n == s.len(),
            i <= n,
            key == (|e: ModEntry| entry_key(e)),
            rest@ == s.skip(i as int),
            out@.len() == i,
            keys@.len() == i,
            forall|k: int| 0 <= k < i ==> (#[trigger] keys@[k])@ == entry_key(out@[k]),
            sorted_by(out@, key),
            p.len() == i,
            forall|k: int| 0 <= k < i ==> 0 <= #[trigger] p[k] < i && out@[k] == s[p[k]],
            forall|a: int, b: int| 0 <= a < b < i ==> #[trigger] p[a] != #[trigger] p[b],
            forall|a: int, b: int|
                0 <= a < b < i && entry_key(#[trigger] out@[a]) == entry_key(#[trigger] out@[b])
                    ==> p[a] < p[b],
        decreases n - i,
    {
        assert(rest@[0] == s[i as int]);
        let x = rest.remove(0);
        assert(rest@ =~= s.skip(i + 1));
        let nv = chars_of(x.name.as_str());
        let xk = lowercase_chars(nv.as_slice());
        let mut j: usize = 0;
        while j < out.len() && chars_lex_le(keys[j].as_slice(), xk.as_slice())
            invariant
                j <= out@.len(),
                out@.len() == keys@.len(),
                xk@ == entry_key(x),
                forall|k: int| 0 <= k < out@.len() ==> (#[trigger] keys@[k])@ == entry_key(out@[k]),
                forall|k: int| 0 <= k < j ==> lex_le(entry_key(#[trigger] out@[k]), entry_key(x)),
            decreases out@.len() - j,
        {
            j = j + 1;
        }
        let ghost o = out@;
        proof {
            // Every item from `j` on comes strictly after `x`.
            assert forall|m: int| j <= m < o.len() implies !lex_le(entry_key(#[trigger] o[m]), entry_key(x))
                && lex_le(entry_key(x), entry_key(o[m])) by {
                assert(!lex_le(entry_key(o[j as int]), entry_key(x)));
                if m > j {
                    assert(lex_le(key(o[j as int]), key(o[m])));
                    if lex_le(entry_key(o[m]), entry_key(x)) {
                        lemma_lex_le_transitive(entry_key(o[j as int]), entry_key(o[m]), entry_key(x));
                    }
                }
                lemma_lex_le_total(entry_key(o[m]), entry_key(x));
            }
        }
        let ghost xkey = entry_key(x);
        out.insert(j, x);
        keys.insert(j, xk);
        let ghost p0 = p;
        proof {
            p = p0.insert(j as int, i as int);
            let o2 = out@;
            assert(o2 == o.insert(j as int, o2[j as int]));
            assert(forall|k: int| 0 <= k < j ==> o2[k] == o[k]);
            assert(forall|k: int| j < k < o2.len() ==> o2[k] == o[k - 1]);
            assert(forall|k: int| 0 <= k < j ==> p[k] == p0[k]);
            assert(forall|k: int| j < k < p.len() ==> p[k] == p0[k - 1]);
            assert(p[j as int] == i);
            assert(o2[j as int] == s[i as int]);
            lemma_lex_le_reflexive(xkey);
            assert forall|a: int, b: int| 0 <= a < b < o2.len() implies lex_le(
                key(#[trigger] o2[a]),
                key(#[trigger] o2[b]),
            ) by {
                if a < j && b < j {
                    assert(key(o[a]) == key(o2[a]) && key(o[b]) == key(o2[b]));
                } else if a < j && b == j {
                } else if a < j && b > j {
                    assert(lex_le(key(o[a]), key(o[b - 1])));
                } else if a == j {
                    assert(o2[b] == o[b - 1]);
                } else {
                    assert(lex_le(key(o[a - 1]), key(o[b - 1])));
                }
            }
            assert forall|a: int, b: int| 0 <= a < b < o2.len() && entry_key(#[trigger] o2[a])
                == entry_key(#[trigger] o2[b]) implies p[a] < p[b] by {
                if a < j && b < j {
                } else if a < j && b == j {
                } else if a < j && b > j {
                } else if a == j {
                    assert(o2[b] == o[b - 1]);
                    assert(!lex_le(entry_key(o[b - 1]), xkey));
                } else {
                }
            }
            assert forall|a: int, b: int| 0 <= a < b < o2.len() implies #[trigger] p[a]
                != #[trigger] p[b] by {
                if a < j && b < j {
                } else if a < j && b == j {
                } else if a < j && b > j {
                    assert(p[b] == p0[b - 1]);
                } else if a == j {
                } else {
                }
            }
            assert forall|k: int| 0 <= k < i + 1 implies 0 <= #[trigger] p[k] < i + 1 && o2[k]
                == s[p[k]] by {
                if k < j {
                } else if k == j {
                } else {
                    assert(p[k] == p0[k - 1]);
                }
            }
            assert forall|k: int| 0 <= k < i + 1 implies (#[trigger] keys@[k])@ == entry_key(o2[k]) by {
                if k < j {
                } else if k == j {
                } else {
                }
            }
        }
        i = i + 1;
    }
    proof {
        assert(stable_perm(out@, s, key, p));
    }
    out
}


/// Sorting by a key and then viewing each item is sorting the views by the
/// same key.
pub proof fn lemma_stable_sort_map<A, B>(
    r: Seq<A>,
    s: Seq<A>,
    key: spec_fn(A) -> Seq<char>,
    f: spec_fn(A) -> B,
    key2: spec_fn(B) -> Seq<char>,
)
    requires
        stable_sort_of(r, s, key),
        forall|x: A| #[trigger] key2(f(x)) == key(x),
    ensures
        stable_sort_of(r.map_values(f), s.map_values(f), key2),
{
    let p = choose|p: Seq<int>| stable_perm(r, s, key, p);
    let rv = r.map_values(f);
    let sv = s.map_values(f);
    assert forall|a: int, b: int| 0 <= a < b < rv.len() implies lex_le(
        key2(#[trigger] rv[a]),
        key2(#[trigger] rv[b]),
    ) by {
        assert(key2(f(r[a])) == key(r[a]) && key2(f(r[b])) == key(r[b]));
    }
    assert forall|k: int| 0 <= k < p.len() implies 0 <= #[trigger] p[k] < sv.len() && rv[k]
        == sv[p[k]] by {}
    assert forall|a: int, b: int| 0 <= a < b < p.len() && key2(#[trigger] rv[a]) == key2(
        #[trigger] rv[b],
    ) implies p[a] < p[b] by {
        assert(key2(f(r[a])) == key(r[a]) && key2(f(r[b])) == key(r[b]));
        assert(key(r[a]) == key(r[b]));
        assert(p[a] < p[b]);
    }
    assert(stable_perm(rv, sv, key2, p));
}

// ---------------------------------------------------------------------------
// Settings files
// ---------------------------------------------------------------------------

/// An entry of a folder as a listing shows it.
#[derive(Debug)]
pub struct ListedFile {
    pub name: String,
    pub is_file: bool,
}

/// A script mod folder with the state of its marker.
#[derive(Debug)]
pub struct MarkedFolder {
    pub name: String,
    /// An `enabled.txt` marker is present in it.
    pub marker_present: bool,
}

/// An entry of a mod folder: its name, whether it is a folder, and for a
/// folder the entries inside it.
#[derive(Debug)]
pub struct ModFolderItem {
    pub name: String,
    pub is_dir: bool,
    pub children: Vec<ListedFile>,
}

/// The extensions of settings files at the top of a mod folder.
pub open spec fn is_top_settings_ext(e: Seq<char>) -> bool {
    e == "ini"@ || e == "cfg"@ || e == "toml"@
}

/// A settings file at the top of a mod folder: by its lowercase extension
/// (`ini`, `cfg`, `toml`) or its lowercase name (`config.json`,
/// `settings.json`, `options.json`), the metadata file and the marker aside.
pub open spec fn top_settings_name(name: Seq<char>) -> bool {
    let l = unicode_lowercase(name);
    &&& l != "tidekeeper.json"@
    &&& l != "enabled.txt"@
    &&& ((extension_spec(name) matches Some(e) && is_top_settings_ext(unicode_lowercase(e)))
        || l == "config.json"@ || l == "settings.json"@ || l == "options.json"@)
}

/// A settings file inside a `Config` folder (any case): a file whose
/// lowercase extension is `ini`, `cfg`, `toml` or `json`; inside a `Scripts`
/// folder: a file whose lowercase stem is `config` or whose lowercase name
/// starts with `config.` (the loader's `config.lua` and `config.lua.new`).
pub open spec fn settings_child(scripts: bool, c: ListedFile) -> bool {
    &&& c.is_file
    &&& if scripts {
        (file_stem_spec(c.name@) matches Some(st) && unicode_lowercase(st) == "config"@)
            || "config."@.is_prefix_of(unicode_lowercase(c.name@))
    } else {
        extension_spec(c.name@) matches Some(e) && is_config_extension(unicode_lowercase(e))
    }
}

/// The settings files of one entry of a mod folder at `base`.
pub open spec fn item_settings_paths(base: Seq<char>, it: ModFolderItem) -> Seq<Seq<char>> {
    let l = unicode_lowercase(it.name@);
    let dir = join_spec(base, it.name@);
    if it.is_dir {
        if l == "config"@ || l == "scripts"@ {
            it.children@.filter(|c: ListedFile| settings_child(l == "scripts"@, c)).map_values(
                |c: ListedFile| join_spec(dir, c.name@),
            )
        } else {
            Seq::empty()
        }
    } else if top_settings_name(it.name@) {
        seq![dir]
    } else {
        Seq::empty()
    }
}

/// The settings files of a mod folder at `base`, entry by entry.
pub open spec fn settings_paths(base: Seq<char>, items: Seq<ModFolderItem>) -> Seq<Seq<char>>
    decreases items.len(),
{
    if items.len() == 0 {
        Seq::empty()
    } else {
        settings_paths(base, items.drop_last()) + item_settings_paths(base, items.last())
    }
}

/// Whether a name at the top of a mod folder names a settings file.
fn is_top_settings(name: &str) -> (r: bool)
    ensures
        r == top_settings_name(name@),
{
    let v = chars_of(name);
    let l = lowercase_chars(v.as_slice());
    if chars_eq_str(l.as_slice(), "tidekeeper.json") || chars_eq_str(l.as_slice(), "enabled.txt") {
        return false;
    }
    let by_ext = match extension_of(v.as_slice()) {
        Some(e) => {
            let le = lowercase_chars(e.as_slice());
            chars_eq_str(le.as_slice(), "ini") || chars_eq_str(le.as_slice(), "cfg")
                || chars_eq_str(le.as_slice(), "toml")
        },
        None => false,
    };
    by_ext || chars_eq_str(l.as_slice(), "config.json") || chars_eq_str(l.as_slice(), "settings.json")
        || chars_eq_str(l.as_slice(), "options.json")
}

/// Whether an entry of a `Config` or `Scripts` folder is a settings file.
fn is_settings_child(c: &ListedFile, scripts: bool) -> (r: bool)
    ensures
        r == settings_child(scripts, *c),
{
    if !c.is_file {
        return false;
    }
    let v = chars_of(c.name.as_str());
    if scripts {
        let by_stem = match file_stem_of(v.as_slice()) {
            Some(st) => {
                let ls = lowercase_chars(st.as_slice());
                chars_eq_str(ls.as_slice(), "config")
            },
            None => false,
        };
        let l = lowercase_chars(v.as_slice());
        by_stem || starts_with_str(l.as_slice(), "config.")
    } else {
        match extension_of(v.as_slice()) {
            Some(e) => {
                let le = lowercase_chars(e.as_slice());
                chars_eq_str(le.as_slice(), "ini") || chars_eq_str(le.as_slice(), "cfg")
                    || chars_eq_str(le.as_slice(), "toml") || chars_eq_str(le.as_slice(), "json")
            },
            None => false,
        }
    }
}

/// Appends the settings files among the entries of the folder `dir`.
fn push_settings_children(dir: &[char], kids: &Vec<ListedFile>, scripts: bool, out: &mut Vec<String>)
    ensures
        views(final(out)@) == views(old(out)@) + kids@.filter(
            |c: ListedFile| settings_child(scripts, c),
        ).map_values(|c: ListedFile| join_spec(dir@, c.name@)),
{
    let ghost o0 = views(out@);
    for k in 0..kids.len()
        invariant
            views(out@) == o0 + kids@.take(k as int).filter(
                |c: ListedFile| settings_child(scripts, c),
            ).map_values(|c: ListedFile| join_spec(dir@, c.name@)),
    {
        proof {
            reveal(Seq::filter);
            assert(kids@.take(k + 1).drop_last() == kids@.take(k as int));
            assert(kids@.take(k + 1).last() == kids@[k as int]);
        }
        let ghost before = views(out@);
        if is_settings_child(&kids[k], scripts) {
            let nv = chars_of(kids[k].name.as_str());
            let p = join_path(dir, nv.as_slice());
            out.push(string_from(p.as_slice()));
            assert(views(out@) =~= before.push(join_spec(dir@, kids@[k as int].name@)));
        }
        assert(views(out@) =~= o0 + kids@.take(k + 1).filter(
            |c: ListedFile| settings_child(scripts, c),
        ).map_values(|c: ListedFile| join_spec(dir@, c.name@)));
    }
    assert(kids@.take(kids.len() as int) == kids@);
}

/// The settings files of a mod folder (`find_config_files`), given the
/// entries of the folder at `mod_path` in listing order: top-level files by
/// name or extension, and the files of its `Config` and `Scripts` folders.
/// With an empty `mod_path` the paths are relative to the mod folder.
pub fn find_config_files(mod_path: &str, items: &Vec<ModFolderItem>) -> (r: Vec<String>)
    ensures
        views(r@) == settings_paths(mod_path@, items@),
{
    let base = chars_of(mod_path);
    let mut out: Vec<String> = Vec::new();
    for i in 0..items.len()
        invariant
            base@ == mod_path@,
            views(out@) == settings_paths(mod_path@, items@.take(i as int)),
    {
        assert(items@.take(i + 1).drop_last() == items@.take(i as int));
        assert(items@.take(i + 1).last() == items@[i as int]);
        let ghost before = views(out@);
        let it = &items[i];
        let nv = chars_of(it.name.as_str());
        let dir = join_path(base.as_slice(), nv.as_slice());
        if it.is_dir {
            let l = lowercase_chars(nv.as_slice());
            let is_config = chars_eq_str(l.as_slice(), "config");
            let is_scripts = chars_eq_str(l.as_slice(), "scripts");
            if is_config || is_scripts {
                push_settings_children(dir.as_slice(), &it.children, is_scripts, &mut out);
            } else {
                assert(views(out@) =~= before + Seq::<Seq<char>>::empty());
            }
        } else if is_top_settings(it.name.as_str()) {
            out.push(string_from(dir.as_slice()));
            assert(views(out@) =~= before + seq![dir@]);
        } else {
            assert(views(out@) =~= before + Seq::<Seq<char>>::empty());
        }
    }
    assert(items@.take(items.len() as int) == items@);
    out
}


/// A plain name joined onto a folder, and a plain name joined onto that:
/// the same path as the two names joined first and then onto the folder.
proof fn lemma_join_two(base: Seq<char>, d: Seq<char>, c: Seq<char>)
    requires
        ends_in_name(base),
        plain_component(d),
        plain_component(c),
    ensures
        join_spec(join_spec(base, d), c) == join_spec(base, join_spec(join_spec(Seq::empty(), d), c)),
{
    assert(!is_sep(d[0]) && !is_sep(c[0])) by {
        if is_sep(d[0]) {
            assert(d.contains(d[0]));
        }
        if is_sep(c[0]) {
            assert(c.contains(c[0]));
        }
    }
    assert(!is_sep(d.last())) by {
        if is_sep(d.last()) {
            assert(d.contains(d[d.len() - 1]));
        }
    }
    assert(crate::paths::path_body(d) =~= d);
    assert(join_spec(Seq::empty(), d) =~= d);
    crate::paths::lemma_join_body(base, d);
    let bd = join_spec(base, d);
    let b = crate::paths::path_body(base);
    assert(b.len() > 0 && !is_sep(b.last()));
    assert(b.last() == base.last());
    assert(bd =~= base.push('\\') + d);
    assert(join_spec(d, c) =~= d.push('\\') + c);
    let dc = d.push('\\') + c;
    assert(crate::paths::drive_len(dc) == 0) by {
        if d.len() >= 2 {
            assert(dc[0] == d[0] && dc[1] == d[1]);
        } else {
            assert(dc[1] == '\\');
        }
    }
    assert(dc[0] == d[0]);
    crate::paths::lemma_join_body(base, dc);
    crate::paths::lemma_join_body(bd, c);
    assert(crate::paths::path_body(bd) =~= b.push('\\') + d);
    assert(join_spec(bd, c) =~= join_spec(base, dc));
}

/// The settings files of one entry, found from a folder, are those found
/// relative to the folder joined onto it.
proof fn lemma_item_settings_relative(base: Seq<char>, it: ModFolderItem)
    requires
        ends_in_name(base),
        plain_component(it.name@),
        forall|j: int| 0 <= j < it.children@.len() ==> plain_component(#[trigger] it.children@[j].name@),
    ensures
        item_settings_paths(base, it) == item_settings_paths(Seq::empty(), it).map_values(
            |r: Seq<char>| join_spec(base, r),
        ),
{
    let l = unicode_lowercase(it.name@);
    let p = |c: ListedFile| settings_child(l == "scripts"@, c);
    let fl = it.children@.filter(p);
    if it.is_dir && (l == "config"@ || l == "scripts"@) {
        let lhs = fl.map_values(|c: ListedFile| join_spec(join_spec(base, it.name@), c.name@));
        let inner = fl.map_values(|c: ListedFile| join_spec(join_spec(Seq::empty(), it.name@), c.name@));
        assert forall|k: int| 0 <= k < fl.len() implies lhs[k] == inner.map_values(
            |r: Seq<char>| join_spec(base, r),
        )[k] by {
            assert(fl.contains(fl[k]));
            it.children@.lemma_filter_contains_rev(p, fl[k]);
            let j = choose|j: int| 0 <= j < it.children@.len() && it.children@[j] == fl[k];
            assert(plain_component(it.children@[j].name@));
            lemma_join_two(base, it.name@, fl[k].name@);
        }
        assert(lhs =~= inner.map_values(|r: Seq<char>| join_spec(base, r)));
    } else if !it.is_dir && top_settings_name(it.name@) {
        assert(join_spec(Seq::empty(), it.name@) =~= it.name@) by {
            assert(!is_sep(it.name@[0])) by {
                if is_sep(it.name@[0]) {
                    assert(it.name@.contains(it.name@[0]));
                }
            }
        }
        assert(seq![join_spec(base, it.name@)] =~= seq![join_spec(Seq::empty(), it.name@)].map_values(
            |r: Seq<char>| join_spec(base, r),
        ));
    } else {
        assert(Seq::<Seq<char>>::empty() =~= Seq::<Seq<char>>::empty().map_values(
            |r: Seq<char>| join_spec(base, r),
        ));
    }
}

/// Settings files found relative to a mod folder lead, joined onto the
/// folder, to the settings files found in it: what an update remembers of
/// the old folder points at the same files in the new folder and in the
/// backup.
pub proof fn law_settings_relative(base: Seq<char>, items: Seq<ModFolderItem>)
    requires
        ends_in_name(base),
        forall|i: int| 0 <= i < items.len() ==> plain_component(#[trigger] items[i].name@),
        forall|i: int, j: int|
            0 <= i < items.len() && 0 <= j < items[i].children@.len() ==> plain_component(
                #[trigger] items[i].children@[j].name@,
            ),
    ensures
        settings_paths(base, items) == settings_paths(Seq::empty(), items).map_values(
            |r: Seq<char>| join_spec(base, r),
        ),
    decreases items.len(),
{
    if items.len() > 0 {
        let init = items.drop_last();
        assert forall|i: int| 0 <= i < init.len() implies plain_component(#[trigger] init[i].name@) by {
            assert(init[i] == items[i]);
        }
        assert forall|i: int, j: int|
            0 <= i < init.len() && 0 <= j < init[i].children@.len() implies plain_component(
                #[trigger] init[i].children@[j].name@,
            ) by {
            assert(init[i] == items[i]);
        }
        law_settings_relative(base, init);
        let last = items.last();
        assert(last == items[items.len() - 1]);
        assert forall|j: int| 0 <= j < last.children@.len() implies plain_component(
            #[trigger] last.children@[j].name@,
        ) by {
            assert(plain_component(items[items.len() - 1].children@[j].name@));
        }
        lemma_item_settings_relative(base, last);
        let a = settings_paths(Seq::empty(), init);
        let b = item_settings_paths(Seq::empty(), last);
        assert((a + b).map_values(|r: Seq<char>| join_spec(base, r)) =~= a.map_values(
            |r: Seq<char>| join_spec(base, r),
        ) + b.map_values(|r: Seq<char>| join_spec(base, r)));
    } else {
        assert(settings_paths(Seq::<char>::empty(), items).map_values(|r: Seq<char>| join_spec(base, r))
            =~= Seq::<Seq<char>>::empty());
    }
}

// ---------------------------------------------------------------------------
// The mod list
// ---------------------------------------------------------------------------

/// A mod folder as a scan finds it.
#[derive(Debug)]
pub struct ScannedFolder {
    /// The folder's name.
    pub name: String,
    /// An `enabled.txt` marker is present in it.
    pub marker_present: bool,
    /// The metadata read from it, if any could be read.
    pub meta: Option<ModMeta>,
    /// The backup folder that the metadata records exists.
    pub backup_exists: bool,
    /// Its entries, in listing order.
    pub items: Vec<ModFolderItem>,
}

/// The fields of a mod list entry: name, enabled, path, type, metadata,
/// settings files, and whether a backup exists.
pub open spec fn entry_view(e: ModEntry) -> (
    Seq<char>,
    bool,
    Seq<char>,
    Seq<char>,
    Option<ModMeta>,
    Seq<Seq<char>>,
    bool,
) {
    (e.name@, e.enabled, e.path@, e.mod_type@, e.meta, views(e.config_files@), e.has_backup)
}

/// A mod has a backup when its metadata records one and that folder exists.
pub open spec fn has_backup_spec(f: ScannedFolder) -> bool {
    f.meta matches Some(m) && m.backup_path is Some && f.backup_exists
}

/// The entry of a script mod folder in the mods folder: enabled when its
/// marker is present.
pub open spec fn script_entry_spec(mods_folder: Seq<char>, f: ScannedFolder) -> (
    Seq<char>,
    bool,
    Seq<char>,
    Seq<char>,
    Option<ModMeta>,
    Seq<Seq<char>>,
    bool,
) {
    let path = join_spec(mods_folder, f.name@);
    (f.name@, f.marker_present, path, "script"@, f.meta, settings_paths(path, f.items@), has_backup_spec(f))
}

/// The entry of a folder in the pak folder: a name ending in `.disabled`
/// is a disabled mod named without it.
pub open spec fn pak_entry_spec(pak_dir: Seq<char>, f: ScannedFolder) -> (
    Seq<char>,
    bool,
    Seq<char>,
    Seq<char>,
    Option<ModMeta>,
    Seq<Seq<char>>,
    bool,
) {
    let path = join_spec(pak_dir, f.name@);
    let st = pak_folder_state_spec(f.name@);
    (st.0, st.1, path, "pak"@, f.meta, settings_paths(path, f.items@), has_backup_spec(f))
}

/// The entry of a script mod folder.
pub fn script_mod_entry(mods_folder: &str, f: ScannedFolder) -> (e: ModEntry)
    ensures
        entry_view(e) == script_entry_spec(mods_folder@, f),
{
    let base = chars_of(mods_folder);
    let nv = chars_of(f.name.as_str());
    let pv = join_path(base.as_slice(), nv.as_slice());
    let path = string_from(pv.as_slice());
    let config_files = find_config_files(path.as_str(), &f.items);
    let has_backup = match &f.meta {
        Some(m) => m.backup_path.is_some() && f.backup_exists,
        None => false,
    };
    ModEntry {
        name: f.name,
        enabled: f.marker_present,
        path,
        mod_type: "script".to_owned(),
        meta: f.meta,
        config_files,
        has_backup,
    }
}

/// The entry of a folder in the pak folder.
pub fn pak_mod_entry(pak_dir: &str, f: ScannedFolder) -> (e: ModEntry)
    ensures
        entry_view(e) == pak_entry_spec(pak_dir@, f),
{
    let base = chars_of(pak_dir);
    let nv = chars_of(f.name.as_str());
    let pv = join_path(base.as_slice(), nv.as_slice());
    let path = string_from(pv.as_slice());
    let config_files = find_config_files(path.as_str(), &f.items);
    let has_backup = match &f.meta {
        Some(m) => m.backup_path.is_some() && f.backup_exists,
        None => false,
    };
    let (name, enabled) = pak_folder_state(f.name.as_str());
    ModEntry {
        name,
        enabled,
        path,
        mod_type: "pak".to_owned(),
        meta: f.meta,
        config_files,
        has_backup,
    }
}

/// The pak folder of a configuration, when it locates a game folder.
pub open spec fn pak_dir_spec(config: Option<&Config>) -> Option<Seq<char>> {
    match config {
        Some(c) => match c.mods_folder {
            Some(f) => match ancestor_spec(f@, 4) {
                Some(inner) => Some(logic_mods_spec(inner)),
                None => None,
            },
            None => None,
        },
        None => None,
    }
}

/// The pak folder of a configuration, when it locates a game folder.
pub fn configured_pak_dir(config: Option<&Config>) -> (r: Option<String>)
    ensures
        match r {
            Some(p) => pak_dir_spec(config) == Some(p@),
            None => pak_dir_spec(config) is None,
        },
{
    match config {
        Some(c) => match &c.mods_folder {
            Some(f) => match derive_inner_game_folder(f.as_str()) {
                Ok(inner) => Some(logic_mods_dir(inner.as_str())),
                Err(_) => None,
            },
            None => None,
        },
        None => None,
    }
}

/// The mod list before sorting: the script mods, then (when the mods
/// folder locates a game folder) the pak mods, each in listing order.
pub open spec fn unsorted_entries(
    mods_folder: Seq<char>,
    scripts: Seq<ScannedFolder>,
    paks: Seq<ScannedFolder>,
) -> Seq<(Seq<char>, bool, Seq<char>, Seq<char>, Option<ModMeta>, Seq<Seq<char>>, bool)> {
    scripts.map_values(|f: ScannedFolder| script_entry_spec(mods_folder, f)) + match ancestor_spec(
        mods_folder,
        4,
    ) {
        Some(inner) => paks.map_values(|f: ScannedFolder| pak_entry_spec(logic_mods_spec(inner), f)),
        None => Seq::empty(),
    }
}

/// The key of an entry's fields: its name in lowercase.
pub open spec fn view_key(
    t: (Seq<char>, bool, Seq<char>, Seq<char>, Option<ModMeta>, Seq<Seq<char>>, bool),
) -> Seq<char> {
    unicode_lowercase(t.0)
}

/// The mod list (`scan_mods`), given the folders found in the mods folder
/// and in the pak folder: every mod's entry, sorted stably by lowercase
/// name. Without a configuration, or a mods folder in it, there is none.
pub fn scan_mods(config: Option<&Config>, scripts: Vec<ScannedFolder>, paks: Vec<ScannedFolder>) -> (r:
    Result<Vec<ModEntry>, String>)
    ensures
        match r {
            Ok(v) => config matches Some(c) && c.mods_folder matches Some(f) && stable_sort_of(
                v@.map_values(|e: ModEntry| entry_view(e)),
                unsorted_entries(f@, scripts@, paks@),
                |t: (Seq<char>, bool, Seq<char>, Seq<char>, Option<ModMeta>, Seq<Seq<char>>, bool)|
                    view_key(t),
            ),
            Err(e) => (config is None && e@ == "No config found"@) || (config matches Some(c)
                && c.mods_folder is None && e@ == "No mods folder configured"@),
        },
{
    let c = match config {
        Some(c) => c,
        None => return Err("No config found".to_owned()),
    };
    let mods_folder = match &c.mods_folder {
        Some(f) => f,
        None => return Err("No mods folder configured".to_owned()),
    };
    let ghost sv = scripts@;
    let ghost pv = paks@;
    let ghost mf = mods_folder@;
    let mut built: Vec<ModEntry> = Vec::new();
    let mut rest = scripts;
    let ns = rest.len();
    assert(sv.skip(0) == sv);
    for i in 0..ns
        invariant
            ns == sv.len(),
            rest@ == sv.skip(i as int),
            mf == mods_folder@,
            built@.map_values(|e: ModEntry| entry_view(e)) == sv.take(i as int).map_values(
                |f: ScannedFolder| script_entry_spec(mf, f),
            ),
    {
        let ghost b0 = built@.map_values(|e: ModEntry| entry_view(e));
        assert(rest@[0] == sv[i as int]);
        let f = rest.remove(0);
        assert(rest@ =~= sv.skip(i + 1));
        let e = script_mod_entry(mods_folder.as_str(), f);
        built.push(e);
        assert(sv.take(i + 1) == sv.take(i as int).push(sv[i as int]));
        assert(built@.map_values(|e: ModEntry| entry_view(e)) =~= b0.push(script_entry_spec(mf, sv[i as int])));
        assert(sv.take(i + 1).map_values(|f: ScannedFolder| script_entry_spec(mf, f)) =~= sv.take(
            i as int,
        ).map_values(|f: ScannedFolder| script_entry_spec(mf, f)).push(script_entry_spec(mf, sv[i as int])));
    }
    assert(sv.take(ns as int) == sv);
    let ghost head = built@.map_values(|e: ModEntry| entry_view(e));
    match derive_inner_game_folder(mods_folder.as_str()) {
        Ok(inner) => {
            let pak_dir = logic_mods_dir(inner.as_str());
            let ghost pd = pak_dir@;
            let mut prest = paks;
            let np = prest.len();
            assert(pv.skip(0) == pv);
            for i in 0..np
                invariant
                    np == pv.len(),
                    prest@ == pv.skip(i as int),
                    pd == pak_dir@,
                    built@.map_values(|e: ModEntry| entry_view(e)) == head + pv.take(i as int).map_values(
                        |f: ScannedFolder| pak_entry_spec(pd, f),
                    ),
            {
                let ghost b0 = built@.map_values(|e: ModEntry| entry_view(e));
                assert(prest@[0] == pv[i as int]);
                let f = prest.remove(0);
                assert(prest@ =~= pv.skip(i + 1));
                let e = pak_mod_entry(pak_dir.as_str(), f);
                built.push(e);
                assert(pv.take(i + 1) == pv.take(i as int).push(pv[i as int]));
                assert(built@.map_values(|e: ModEntry| entry_view(e)) =~= b0.push(pak_entry_spec(pd, pv[i as int])));
                assert(pv.take(i + 1).map_values(|f: ScannedFolder| pak_entry_spec(pd, f)) =~= pv.take(
                    i as int,
                ).map_values(|f: ScannedFolder| pak_entry_spec(pd, f)).push(pak_entry_spec(pd, pv[i as int])));
            }
            assert(pv.take(np as int) == pv);
        },
        Err(_) => {
            assert(head =~= head + Seq::<(Seq<char>, bool, Seq<char>, Seq<char>, Option<ModMeta>, Seq<Seq<char>>, bool)>::empty());
        },
    }
    let ghost b = built@;
    let sorted = sort_by_name(built);
    proof {
        lemma_stable_sort_map(
            sorted@,
            b,
            |e: ModEntry| entry_key(e),
            |e: ModEntry| entry_view(e),
            |t: (Seq<char>, bool, Seq<char>, Seq<char>, Option<ModMeta>, Seq<Seq<char>>, bool)|
                view_key(t),
        );
    }
    Ok(sorted)
}

// ---------------------------------------------------------------------------
// Loose pak files
// ---------------------------------------------------------------------------

/// A loose file in the pak folder that belongs to a pak mod: a file whose
/// lowercase name ends in `.pak`, `.utoc` or `.ucas`.
pub open spec fn is_loose_part(f: ListedFile) -> bool {
    f.is_file && crate::archive::is_pak_file_name(unicode_lowercase(f.name@))
}

/// The loose pak files among the entries of the pak folder, in order.
pub open spec fn loose_parts(items: Seq<ListedFile>) -> Seq<Seq<char>> {
    items.filter(|f: ListedFile| is_loose_part(f)).map_values(|f: ListedFile| f.name@)
}

/// The group of a loose file: its stem, or its whole name when it has none.
pub open spec fn part_group(name: Seq<char>) -> Seq<char> {
    match file_stem_spec(name) {
        Some(s) => s,
        None => name,
    }
}

/// The groups of loose pak files: one per stem, in the order stems first
/// occur, each with its files in listing order.
pub open spec fn unmanaged_groups_spec(items: Seq<ListedFile>) -> Seq<(Seq<char>, Seq<Seq<char>>)> {
    let parts = loose_parts(items);
    crate::diagnostics::dedup(parts.map_values(|n: Seq<char>| part_group(n))).map_values(
        |st: Seq<char>| (st, parts.filter(|n: Seq<char>| part_group(n) == st)),
    )
}

/// The fields of a group.
pub open spec fn group_view(g: UnmanagedGroup) -> (Seq<char>, Seq<Seq<char>>) {
    (g.suggested_name@, views(g.files@))
}

/// Whether an entry of the pak folder is a loose pak file.
fn loose_part(f: &ListedFile) -> (r: bool)
    ensures
        r == is_loose_part(*f),
{
    if !f.is_file {
        return false;
    }
    let v = chars_of(f.name.as_str());
    let l = lowercase_chars(v.as_slice());
    crate::archive::pak_file_name(l.as_slice())
}

/// The group of a loose file.
fn part_group_of(name: &String) -> (r: String)
    ensures
        r@ == part_group(name@),
{
    let v = chars_of(name.as_str());
    match file_stem_of(v.as_slice()) {
        Some(s) => string_from(s.as_slice()),
        None => name.clone(),
    }
}

/// The loose pak files that share a stem (`get_unmanaged_paks`), given the
/// entries of the pak folder in listing order.
pub fn unmanaged_groups(items: &Vec<ListedFile>) -> (r: Vec<UnmanagedGroup>)
    ensures
        r@.map_values(|g: UnmanagedGroup| group_view(g)) == unmanaged_groups_spec(items@),
{
    let mut parts: Vec<String> = Vec::new();
    for i in 0..items.len()
        invariant
            views(parts@) == items@.take(i as int).filter(|f: ListedFile| is_loose_part(f)).map_values(
                |f: ListedFile| f.name@,
            ),
    {
        proof {
            reveal(Seq::filter);
            assert(items@.take(i + 1).drop_last() == items@.take(i as int));
            assert(items@.take(i + 1).last() == items@[i as int]);
        }
        let ghost p0 = views(parts@);
        if loose_part(&items[i]) {
            parts.push(items[i].name.clone());
            assert(views(parts@) =~= p0.push(items@[i as int].name@));
        }
    }
    assert(items@.take(items.len() as int) == items@);
    let ghost pv = views(parts@);
    let mut stems: Vec<String> = Vec::new();
    for i in 0..parts.len()
        invariant
            pv == views(parts@),
            views(stems@) == pv.take(i as int).map_values(|n: Seq<char>| part_group(n)),
    {
        let ghost s0 = views(stems@);
        stems.push(part_group_of(&parts[i]));
        assert(views(stems@) =~= s0.push(part_group(pv[i as int])));
        assert(pv.take(i + 1) == pv.take(i as int).push(pv[i as int]));
        assert(views(stems@) =~= pv.take(i + 1).map_values(|n: Seq<char>| part_group(n)));
    }
    assert(pv.take(parts.len() as int) == pv);
    let order = crate::diagnostics::dedup_strings(&stems);
    let ghost ov = views(order@);
    let mut out: Vec<UnmanagedGroup> = Vec::new();
    for g in 0..order.len()
        invariant
            ov == views(order@),
            pv == views(parts@),
            pv == loose_parts(items@),
            out@.map_values(|x: UnmanagedGroup| group_view(x)) == ov.take(g as int).map_values(
                |st: Seq<char>| (st, pv.filter(|n: Seq<char>| part_group(n) == st)),
            ),
    {
        let ghost st = ov[g as int];
        let mut files: Vec<String> = Vec::new();
        for k in 0..parts.len()
            invariant
                pv == views(parts@),
                g < order@.len(),
                st == order@[g as int]@,
                views(files@) == pv.take(k as int).filter(|n: Seq<char>| part_group(n) == st),
        {
            proof {
                reveal(Seq::filter);
                assert(pv.take(k + 1).drop_last() == pv.take(k as int));
                assert(pv.take(k + 1).last() == pv[k as int]);
            }
            let ghost f0 = views(files@);
            let stem = part_group_of(&parts[k]);
            if stem == order[g] {
                files.push(parts[k].clone());
                assert(views(files@) =~= f0.push(pv[k as int]));
            }
        }
        assert(pv.take(parts.len() as int) == pv);
        let ghost fv = views(files@);
        assert(fv == pv.filter(|n: Seq<char>| part_group(n) == st));
        let ghost o0 = out@.map_values(|x: UnmanagedGroup| group_view(x));
        let name = order[g].clone();
        out.push(UnmanagedGroup { suggested_name: name, files });
        assert(out@.map_values(|x: UnmanagedGroup| group_view(x)) =~= o0.push((st, fv)));
        assert(ov.take(g + 1) == ov.take(g as int).push(st));
        assert(out@.map_values(|x: UnmanagedGroup| group_view(x)) =~= ov.take(g + 1).map_values(
            |st: Seq<char>| (st, pv.filter(|n: Seq<char>| part_group(n) == st)),
        ));
    }
    assert(ov.take(order.len() as int) == ov);
    out
}

/// The stem of a loose file that adoption compares with the group's name:
/// its stem, or nothing when it has none.
pub open spec fn adopt_stem(name: Seq<char>) -> Seq<char> {
    match file_stem_spec(name) {
        Some(s) => s,
        None => Seq::empty(),
    }
}

/// The loose pak files that adopting the group `suggested_name` moves
/// (`adopt_unmanaged_pak`), in listing order.
pub open spec fn adopted_parts_spec(items: Seq<ListedFile>, suggested_name: Seq<char>) -> Seq<Seq<char>> {
    items.filter(|f: ListedFile| is_loose_part(f) && adopt_stem(f.name@) == suggested_name).map_values(
        |f: ListedFile| f.name@,
    )
}

/// The loose pak files that adopting a group moves.
pub fn adopted_parts(items: &Vec<ListedFile>, suggested_name: &str) -> (r: Vec<String>)
    ensures
        views(r@) == adopted_parts_spec(items@, suggested_name@),
{
    let want = chars_of(suggested_name);
    let mut out: Vec<String> = Vec::new();
    for i in 0..items.len()
        invariant
            want@ == suggested_name@,
            views(out@) == items@.take(i as int).filter(
                |f: ListedFile| is_loose_part(f) && adopt_stem(f.name@) == suggested_name@,
            ).map_values(|f: ListedFile| f.name@),
    {
        proof {
            reveal(Seq::filter);
            assert(items@.take(i + 1).drop_last() == items@.take(i as int));
            assert(items@.take(i + 1).last() == items@[i as int]);
        }
        let ghost o0 = views(out@);
        if loose_part(&items[i]) {
            let v = chars_of(items[i].name.as_str());
            let st: Vec<char> = match file_stem_of(v.as_slice()) {
                Some(s) => s,
                None => Vec::new(),
            };
            if crate::text::chars_eq(st.as_slice(), want.as_slice()) {
                out.push(items[i].name.clone());
                assert(views(out@) =~= o0.push(items@[i as int].name@));
            }
        }
    }
    assert(items@.take(items.len() as int) == items@);
    out
}

/// Where an adopted group goes: the pak folder and, inside it, the folder
/// named by the trimmed mod name; or why there is none.
pub open spec fn adopt_target_spec(config: Option<&Config>, mod_name: Seq<char>) -> Result<
    (Seq<char>, Seq<char>),
    Seq<char>,
> {
    match config {
        None => Err("No config"@),
        Some(c) => match c.mods_folder {
            None => Err("No mods folder"@),
            Some(f) => match ancestor_spec(f@, 4) {
                None => Err(crate::mods::no_game_folder_message()),
                Some(inner) => Ok(
                    (
                        logic_mods_spec(inner),
                        join_spec(logic_mods_spec(inner), crate::text::trim_spec(mod_name)),
                    ),
                ),
            },
        },
    }
}

/// Where an adopted group goes: the pak folder and the new mod folder.
pub fn adopt_target(config: Option<&Config>, mod_name: &str) -> (r: Result<(String, String), String>)
    ensures
        match r {
            Ok((d, m)) => adopt_target_spec(config, mod_name@) == Ok::<(Seq<char>, Seq<char>), Seq<char>>(
                (d@, m@),
            ),
            Err(e) => adopt_target_spec(config, mod_name@) == Err::<(Seq<char>, Seq<char>), Seq<char>>(e@),
        },
{
    let c = match config {
        Some(c) => c,
        None => return Err("No config".to_owned()),
    };
    let f = match &c.mods_folder {
        Some(f) => f,
        None => return Err("No mods folder".to_owned()),
    };
    let inner = derive_inner_game_folder(f.as_str())?;
    let pak_dir = logic_mods_dir(inner.as_str());
    let pd = chars_of(pak_dir.as_str());
    let nv = chars_of(mod_name);
    let tn = crate::text::trim(nv.as_slice());
    let dest = join_path(pd.as_slice(), tn.as_slice());
    Ok((pak_dir, string_from(dest.as_slice())))
}

} // verus!
