//! What an archive holds and where its entries go: the classification of a
//! mod archive by the names of its entries, and the extraction targets.
use vstd::prelude::*;
use crate::model::ZipInfo;
use crate::paths::{
    all_components, path_all_components, lead_components,
    components, file_stem_spec, has_parent_dir, join_spec, path_components,
    path_has_parent_dir, file_stem_of, raw_components, drive_len, path_body, is_sep, raw_lead,
};
use crate::text::{
    all_digits, chars_eq_str, chars_of, ends_with_str, first_some, lowercase_chars, opt_view,
    opt_views, parse_u64, parse_u64_spec, replace_char, replace_chars, split_chars, split_spec,
    string_from, unicode_lowercase, contains_char, sub_chars, extend_chars, decimal,
};

verus! {

broadcast use vstd::seq_lib::group_seq_properties;

// ---------------------------------------------------------------------------
// Nexus mod ids in download names
// ---------------------------------------------------------------------------

/// A hyphen-separated segment that can be a mod id: one or more ASCII digits.
pub open spec fn is_id_segment(p: Seq<char>) -> bool {
    p.len() > 0 && all_digits(p)
}

/// The Nexus mod id in a download name `{file-name}-{modId}-{version}-{timestamp}`:
/// the first all-digit hyphen-separated segment, read as a `u64`.
pub open spec fn nexus_mod_id_spec(stem: Seq<char>) -> Option<u64> {
    match first_id_segment(split_spec(stem, '-')) {
        Some(p) => parse_u64_spec(p),
        None => None,
    }
}

/// The first segment that can be a mod id.
pub open spec fn first_id_segment(segs: Seq<Seq<char>>) -> Option<Seq<char>> {
    first_some(
        segs,
        |p: Seq<char>|
            if is_id_segment(p) {
                Some(p)
            } else {
                None
            },
    )
}

/// Whether all characters of `v` are ASCII digits.
fn chars_all_digits(v: &[char]) -> (r: bool)
    ensures
        r == all_digits(v@),
{
    for i in 0..v.len()
        invariant
            forall|j: int| 0 <= j < i ==> crate::text::is_ascii_digit(#[trigger] v@[j]),
    {
        if !('0' <= v[i] && v[i] <= '9') {
            return false;
        }
    }
    true
}

/// The Nexus mod id in an archive's file stem, when it has one.
pub fn extract_nexus_mod_id(zip_stem: &str) -> (r: Option<u64>)
    ensures
        r == nexus_mod_id_spec(zip_stem@),
{
    let v = chars_of(zip_stem);
    let segs = split_chars(v.as_slice(), '-');
    let ghost sv = segs@.map_values(|x: Vec<char>| x@);
    for i in 0..segs.len()
        invariant
            sv == segs@.map_values(|x: Vec<char>| x@),
            sv == split_spec(zip_stem@, '-'),
            first_id_segment(sv.take(i as int)) is None,
    {
        assert(sv.take(i + 1).drop_last() == sv.take(i as int));
        assert(sv.take(i + 1).last() == segs@[i as int]@);
        let s = &segs[i];
        if s.len() > 0 && chars_all_digits(s.as_slice()) {
            proof {
                assert(first_id_segment(sv.take(i + 1)) == Some(s@));
                lemma_first_some_prefix(
                    sv,
                    |p: Seq<char>|
                        if is_id_segment(p) {
                            Some(p)
                        } else {
                            None
                        },
                    i + 1,
                );
            }
            return parse_u64(s.as_slice());
        }
    }
    assert(sv.take(segs.len() as int) == sv);
    None
}

/// The first `Some` over two sequences one after the other: the first
/// one's, when it has one, else the second one's.
pub proof fn lemma_first_some_append<A, B>(a: Seq<A>, b: Seq<A>, f: spec_fn(A) -> Option<B>)
    ensures
        first_some(a + b, f) == (match first_some(a, f) {
            Some(x) => Some(x),
            None => first_some(b, f),
        }),
    decreases b.len(),
{
    if b.len() == 0 {
        assert(a + b =~= a);
    } else {
        lemma_first_some_append(a, b.drop_last(), f);
        assert((a + b).drop_last() =~= a + b.drop_last());
        assert((a + b).last() == b.last());
    }
}

/// A Nexus download name `{file-name}-{modId}-{rest}` gives back the mod
/// id, when no hyphen-separated segment of the file name is all digits:
/// the id is the first all-digit segment.
pub proof fn law_nexus_name_gives_id(title: Seq<char>, id: u64, rest: Seq<char>)
    requires
        forall|i: int| 0 <= i < split_spec(title, '-').len() ==> !is_id_segment(
            #[trigger] split_spec(title, '-')[i],
        ),
    ensures
        nexus_mod_id_spec(title + seq!['-'] + decimal(id as nat) + seq!['-'] + rest) == Some(id),
{
    let d = decimal(id as nat);
    crate::text::lemma_decimal_digits(id as nat);
    crate::text::lemma_parse_decimal(id);
    assert(!d.contains('-')) by {
        if d.contains('-') {
            let k = choose|k: int| 0 <= k < d.len() && d[k] == '-';
            assert(crate::text::is_ascii_digit(d[k]));
        }
    }
    let a = title + seq!['-'];
    let b = d + seq!['-'] + rest;
    let stem = title + seq!['-'] + d + seq!['-'] + rest;
    assert(stem =~= a + b);
    crate::logs::lemma_split_append(a, b, '-');
    crate::logs::lemma_split_append(d + seq!['-'], rest, '-');
    assert(b =~= (d + seq!['-']) + rest);
    crate::logs::lemma_split_single(d, '-');
    crate::text::lemma_split_nonempty(title, '-');
    assert(split_spec(a, '-') == split_spec(title, '-').push(Seq::<char>::empty())) by {
        assert(a.drop_last() =~= title);
    }
    assert(split_spec(d + seq!['-'], '-') == seq![d].push(Seq::<char>::empty())) by {
        assert((d + seq!['-']).drop_last() =~= d);
    }
    let f = |p: Seq<char>|
        if is_id_segment(p) {
            Some(p)
        } else {
            None::<Seq<char>>
        };
    let ts = split_spec(title, '-');
    let rs = split_spec(rest, '-');
    assert(split_spec(a, '-').drop_last() =~= ts);
    assert(seq![d].push(Seq::<char>::empty()).drop_last() =~= seq![d]);
    assert(split_spec(stem, '-') =~= ts + (seq![d] + rs));
    assert(first_some(ts, f) is None) by {
        lemma_first_some_none(ts, f);
    }
    lemma_first_some_append(ts, seq![d] + rs, f);
    lemma_first_some_append(seq![d], rs, f);
    assert(seq![d].drop_last() =~= Seq::<Seq<char>>::empty());
    assert(is_id_segment(d));
    assert(seq![d].last() == d);
    assert(f(d) == Some(d));
    assert(first_some(seq![d].drop_last(), f) is None);
    assert(first_some(seq![d], f) == Some(d));
}

/// `first_some` finds nothing where `f` gives nothing.
proof fn lemma_first_some_none(s: Seq<Seq<char>>, f: spec_fn(Seq<char>) -> Option<Seq<char>>)
    requires
        forall|i: int| 0 <= i < s.len() ==> (#[trigger] f(s[i])) is None,
    ensures
        first_some(s, f) is None,
    decreases s.len(),
{
    if s.len() > 0 {
        assert forall|i: int| 0 <= i < s.drop_last().len() implies (#[trigger] f(s.drop_last()[i])) is None by {
            assert(s.drop_last()[i] == s[i]);
        }
        lemma_first_some_none(s.drop_last(), f);
        assert(f(s[s.len() - 1]) is None);
    }
}

/// Once a prefix has a `Some`, the whole sequence has the same one.
pub proof fn lemma_first_some_prefix<A, B>(s: Seq<A>, f: spec_fn(A) -> Option<B>, k: int)
    requires
        0 <= k <= s.len(),
        first_some(s.take(k), f) is Some,
    ensures
        first_some(s, f) == first_some(s.take(k), f),
    decreases s.len() - k,
{
    if k < s.len() {
        assert(s.take(k + 1).drop_last() == s.take(k));
        lemma_first_some_prefix(s, f, k + 1);
    } else {
        assert(s.take(k) == s);
    }
}

// ---------------------------------------------------------------------------
// Classifying an archive by its entry names
// ---------------------------------------------------------------------------

/// An entry name in lowercase, with `\` written as `/`.
pub open spec fn entry_lower(n: Seq<char>) -> Seq<char> {
    replace_char(unicode_lowercase(n), '\\', '/')
}

/// The entry that marks the UE4SS loader itself.
pub open spec fn is_ue4ss_marker(n: Seq<char>) -> bool {
    entry_lower(n) == "ue4ss/ue4ss.dll"@
}

/// A lowercase name of a pak-mod file: `.pak`, `.ucas` or `.utoc`.
pub open spec fn is_pak_file_name(l: Seq<char>) -> bool {
    ||| ".pak"@.is_suffix_of(l)
    ||| ".ucas"@.is_suffix_of(l)
    ||| ".utoc"@.is_suffix_of(l)
}

/// Whether an entry is a pak-mod file.
pub open spec fn is_pak_entry(n: Seq<char>) -> bool {
    is_pak_file_name(entry_lower(n))
}

/// The first component of an entry name as `Path::components` lists it: a
/// leading root or `.` counts.
pub open spec fn entry_root(n: Seq<char>) -> Option<Seq<char>> {
    if all_components(n).len() > 0 {
        Some(all_components(n)[0])
    } else {
        None
    }
}

/// A component that names the folder holding mods (`Mods` or `LogicMods`).
pub open spec fn is_mods_dir(c: Seq<char>) -> bool {
    unicode_lowercase(c) == "mods"@ || unicode_lowercase(c) == "logicmods"@
}

/// A component that looks like a folder name: not empty, with no `.`.
pub open spec fn is_folder_name(c: Seq<char>) -> bool {
    c.len() > 0 && !c.contains('.')
}

/// The first folder that directly follows a mods folder in a component list.
pub open spec fn embedded_in(cs: Seq<Seq<char>>) -> Option<Seq<char>>
    decreases cs.len(),
{
    if cs.len() < 2 {
        None
    } else if is_mods_dir(cs[0]) && is_folder_name(cs[1]) {
        Some(cs[1])
    } else {
        embedded_in(cs.drop_first())
    }
}

/// The first root component among the readable entries.
pub open spec fn first_root(es: Seq<Option<Seq<char>>>) -> Option<Seq<char>> {
    first_some(
        es,
        |e: Option<Seq<char>>|
            match e {
                Some(n) => entry_root(n),
                None => None,
            },
    )
}

/// The stem of the first pak-mod file among the readable entries.
pub open spec fn first_pak_stem(es: Seq<Option<Seq<char>>>) -> Option<Seq<char>> {
    first_some(
        es,
        |e: Option<Seq<char>>|
            match e {
                Some(n) => if is_pak_entry(n) {
                    file_stem_spec(n)
                } else {
                    None
                },
                None => None,
            },
    )
}

/// The first mod folder named inside a `Mods` or `LogicMods` folder.
pub open spec fn first_embedded_name(es: Seq<Option<Seq<char>>>) -> Option<Seq<char>> {
    first_some(
        es,
        |e: Option<Seq<char>>|
            match e {
                Some(n) => embedded_in(components(n)),
                None => None,
            },
    )
}

/// Whether some readable entry is the UE4SS marker.
pub open spec fn has_ue4ss_marker(es: Seq<Option<Seq<char>>>) -> bool {
    exists|i: int| 0 <= i < es.len() && (#[trigger] es[i] matches Some(n) && is_ue4ss_marker(n))
}

/// Whether some readable entry is a pak-mod file.
pub open spec fn has_pak_entry(es: Seq<Option<Seq<char>>>) -> bool {
    exists|i: int| 0 <= i < es.len() && (#[trigger] es[i] matches Some(n) && is_pak_entry(n))
}

/// The value of an option, or `d`.
pub open spec fn or_else(o: Option<Seq<char>>, d: Seq<char>) -> Seq<char> {
    match o {
        Some(x) => x,
        None => d,
    }
}

/// How an archive with these entries (`None` for one that cannot be read)
/// and this file stem is installed: suggested name, install type, whether
/// the user must be asked for a name, and the Nexus mod id.
pub open spec fn zip_info_spec(es: Seq<Option<Seq<char>>>, stem: Seq<char>) -> (
    Seq<char>,
    Seq<char>,
    bool,
    Option<u64>,
) {
    let id = nexus_mod_id_spec(stem);
    let root = first_root(es);
    let root_lower = unicode_lowercase(or_else(root, Seq::empty()));
    if has_ue4ss_marker(es) {
        ("UE4SS"@, "ue4ss"@, false, None)
    } else if root_lower == "subnautica2"@ {
        (or_else(first_embedded_name(es), stem), "game_relative"@, false, id)
    } else if root_lower == "logicmods"@ {
        (or_else(first_pak_stem(es), stem), "pak"@, first_pak_stem(es) is None, id)
    } else if has_pak_entry(es) {
        (or_else(root, stem), "pak"@, root is None, id)
    } else {
        (or_else(root, stem), "script"@, root is None, id)
    }
}

/// The fields of a `ZipInfo`.
pub open spec fn zip_info_view(z: ZipInfo) -> (Seq<char>, Seq<char>, bool, Option<u64>) {
    (z.suggested_name@, z.install_type@, z.needs_name_prompt, z.nexus_mod_id)
}

/// Whether a lowercase name is a pak-mod file.
pub fn pak_file_name(l: &[char]) -> (r: bool)
    ensures
        r == is_pak_file_name(l@),
{
    ends_with_str(l, ".pak") || ends_with_str(l, ".ucas") || ends_with_str(l, ".utoc")
}

/// Whether a component is a mods folder.
fn component_is_mods_dir(c: &[char]) -> (r: bool)
    ensures
        r == is_mods_dir(c@),
{
    let l = lowercase_chars(c);
    chars_eq_str(l.as_slice(), "mods") || chars_eq_str(l.as_slice(), "logicmods")
}

/// The first folder that directly follows a mods folder.
fn embedded_name_of(cs: &Vec<Vec<char>>) -> (r: Option<Vec<char>>)
    ensures
        opt_chars(r) == embedded_in(cs@.map_values(|x: Vec<char>| x@)),
{
    let ghost cv = cs@.map_values(|x: Vec<char>| x@);
    let mut i: usize = 0;
    assert(cv.skip(0) == cv);
    while cs.len() > 1 && i < cs.len() - 1
        invariant
            cv == cs@.map_values(|x: Vec<char>| x@),
            i <= cs@.len(),
            embedded_in(cv) == embedded_in(cv.skip(i as int)),
        decreases cs@.len() - i,
    {
        let ghost rest = cv.skip(i as int);
        assert(rest[0] == cs@[i as int]@);
        assert(rest[1] == cs@[i + 1]@);
        assert(rest.drop_first() == cv.skip(i + 1));
        if component_is_mods_dir(cs[i].as_slice()) {
            let next = &cs[i + 1];
            if next.len() > 0 && !contains_char(next.as_slice(), '.') {
                return Some(sub_chars(next.as_slice(), 0, next.len()));
            }
        }
        i = i + 1;
    }
    assert(cv.skip(i as int).len() < 2);
    None
}

/// The characters of an optional character vector.
pub open spec fn opt_chars(o: Option<Vec<char>>) -> Option<Seq<char>> {
    match o {
        Some(v) => Some(v@),
        None => None,
    }
}

/// The text of an option, or of `d`.
fn string_or(o: &Option<Vec<char>>, d: &str) -> (r: String)
    ensures
        r@ == or_else(opt_chars(*o), d@),
{
    match o {
        Some(v) => string_from(v.as_slice()),
        None => d.to_owned(),
    }
}

/// Classifies an archive from the names of its entries, in archive order
/// (`None` for an entry that cannot be read), and its file stem.
pub fn analyze_zip_entries(entries: &Vec<Option<String>>, zip_stem: &str) -> (info: ZipInfo)
    ensures
        zip_info_view(info) == zip_info_spec(opt_views(entries@), zip_stem@),
{
    let ghost es = opt_views(entries@);
    let mut first_root_v: Option<Vec<char>> = None;
    let mut has_pak = false;
    let mut first_pak: Option<Vec<char>> = None;
    let mut embedded: Option<Vec<char>> = None;
    let mut is_ue4ss = false;
    for i in 0..entries.len()
        invariant
            es == opt_views(entries@),
            opt_chars(first_root_v) == first_root(es.take(i as int)),
            opt_chars(first_pak) == first_pak_stem(es.take(i as int)),
            opt_chars(embedded) == first_embedded_name(es.take(i as int)),
            has_pak == has_pak_entry(es.take(i as int)),
            is_ue4ss == has_ue4ss_marker(es.take(i as int)),
    {
        let ghost t0 = es.take(i as int);
        let ghost t1 = es.take(i + 1);
        assert(t1.drop_last() == t0);
        assert(t1.last() == es[i as int]);
        assert(es[i as int] == opt_view(entries@[i as int]));
        assert forall|k: int| 0 <= k < i implies t1[k] == t0[k] by {}
        match &entries[i] {
            Some(name) => {

                let nv = chars_of(name.as_str());
                let lower0 = lowercase_chars(nv.as_slice());
                let lower = replace_chars(lower0.as_slice(), '\\', '/');
                if chars_eq_str(lower.as_slice(), "ue4ss/ue4ss.dll") {
                    is_ue4ss = true;
                }
                let pak = pak_file_name(lower.as_slice());
                if pak {
                    has_pak = true;
                    if first_pak.is_none() {
                        first_pak = file_stem_of(nv.as_slice());
                    }
                }
                let comps = path_components(nv.as_slice());
                let ghost cv = comps@.map_values(|x: Vec<char>| x@);
                if first_root_v.is_none() {
                    let all = path_all_components(nv.as_slice());
                    let ghost av = all@.map_values(|x: Vec<char>| x@);
                    if all.len() > 0 {
                        assert(all@[0]@ == av[0]);
                        first_root_v = Some(sub_chars(all[0].as_slice(), 0, all[0].len()));
                    }
                }
                if embedded.is_none() {
                    embedded = embedded_name_of(&comps);
                }
                proof {
                    if is_ue4ss_marker(name@) {
                        assert(t1[i as int] matches Some(n) && is_ue4ss_marker(n));
                    }
                    if is_pak_entry(name@) {
                        assert(t1[i as int] matches Some(n) && is_pak_entry(n));
                    }
                    if has_ue4ss_marker(t1) && !is_ue4ss_marker(name@) {
                        let k = choose|k: int|
                            0 <= k < t1.len() && (#[trigger] t1[k] matches Some(n)
                                && is_ue4ss_marker(n));
                        assert(k < i);
                    }
                    if has_pak_entry(t1) && !is_pak_entry(name@) {
                        let k = choose|k: int|
                            0 <= k < t1.len() && (#[trigger] t1[k] matches Some(n)
                                && is_pak_entry(n));
                        assert(k < i);
                    }
                    if has_ue4ss_marker(t0) {
                        let k = choose|k: int|
                            0 <= k < t0.len() && (#[trigger] t0[k] matches Some(n)
                                && is_ue4ss_marker(n));
                        assert(t1[k] == t0[k]);
                    }
                    if has_pak_entry(t0) {
                        let k = choose|k: int|
                            0 <= k < t0.len() && (#[trigger] t0[k] matches Some(n)
                                && is_pak_entry(n));
                        assert(t1[k] == t0[k]);
                    }
                }
            },
            None => {

                proof {
                    if has_ue4ss_marker(t1) {
                        let k = choose|k: int|
                            0 <= k < t1.len() && (#[trigger] t1[k] matches Some(n)
                                && is_ue4ss_marker(n));
                        assert(k < i);
                    }
                    if has_pak_entry(t1) {
                        let k = choose|k: int|
                            0 <= k < t1.len() && (#[trigger] t1[k] matches Some(n)
                                && is_pak_entry(n));
                        assert(k < i);
                    }
                    if has_ue4ss_marker(t0) {
                        let k = choose|k: int|
                            0 <= k < t0.len() && (#[trigger] t0[k] matches Some(n)
                                && is_ue4ss_marker(n));
                        assert(t1[k] == t0[k]);
                    }
                    if has_pak_entry(t0) {
                        let k = choose|k: int|
                            0 <= k < t0.len() && (#[trigger] t0[k] matches Some(n)
                                && is_pak_entry(n));
                        assert(t1[k] == t0[k]);
                    }
                }
            },
        }
    }
    assert(es.take(entries.len() as int) == es);
    let nexus_mod_id = extract_nexus_mod_id(zip_stem);
    if is_ue4ss {
        return ZipInfo {
            suggested_name: "UE4SS".to_owned(),
            install_type: "ue4ss".to_owned(),
            needs_name_prompt: false,
            nexus_mod_id: None,
        };
    }
    let root_text = string_or(&first_root_v, "");
    assert(""@ == Seq::<char>::empty()) by {
        reveal_strlit("");
    }
    let root_lower_s = crate::text::to_lowercase(root_text.as_str());
    let root_lower = chars_of(root_lower_s.as_str());
    if chars_eq_str(root_lower.as_slice(), "subnautica2") {
        ZipInfo {
            suggested_name: string_or(&embedded, zip_stem),
            install_type: "game_relative".to_owned(),
            needs_name_prompt: false,
            nexus_mod_id,
        }
    } else if chars_eq_str(root_lower.as_slice(), "logicmods") {
        let found = first_pak.is_some();
        ZipInfo {
            suggested_name: string_or(&first_pak, zip_stem),
            install_type: "pak".to_owned(),
            needs_name_prompt: !found,
            nexus_mod_id,
        }
    } else if has_pak {
        ZipInfo {
            suggested_name: string_or(&first_root_v, zip_stem),
            install_type: "pak".to_owned(),
            needs_name_prompt: first_root_v.is_none(),
            nexus_mod_id,
        }
    } else {
        ZipInfo {
            suggested_name: string_or(&first_root_v, zip_stem),
            install_type: "script".to_owned(),
            needs_name_prompt: first_root_v.is_none(),
            nexus_mod_id,
        }
    }
}

// ---------------------------------------------------------------------------
// Where entries go
// ---------------------------------------------------------------------------

/// Components joined into a relative path with `/`.
pub open spec fn join_components(cs: Seq<Seq<char>>) -> Seq<char>
    decreases cs.len(),
{
    if cs.len() == 0 {
        Seq::empty()
    } else if cs.len() == 1 {
        cs[0]
    } else {
        join_components(cs.drop_last()) + seq!['/'] + cs.last()
    }
}

/// Where an entry goes when the archive is extracted as it is: its own
/// path, unless a component of it is `..`.
pub open spec fn flat_target_spec(name: Seq<char>) -> Option<Seq<char>> {
    if has_parent_dir(name) {
        None
    } else {
        Some(name)
    }
}

/// Where an entry goes when the archive's top folder is stripped: its path
/// without the first component (a leading root or `.` being the first);
/// nothing for the top folder itself or for a path with a `..` component.
pub open spec fn strip_root_target_spec(name: Seq<char>) -> Option<Seq<char>> {
    let cs = all_components(name);
    if has_parent_dir(name) || cs.len() < 2 {
        None
    } else {
        Some(rel_path(cs.skip(1)))
    }
}

/// Components written out as a path: a leading root as `/`, the others
/// joined with `/` after it.
pub open spec fn rel_path(cs: Seq<Seq<char>>) -> Seq<char> {
    if cs.len() > 0 && cs[0] == seq!['/'] {
        seq!['/'] + join_components(cs.drop_first())
    } else {
        join_components(cs)
    }
}

/// Whether an entry is a folder: its name ends with `/`.
pub open spec fn is_dir_entry(name: Seq<char>) -> bool {
    name.len() > 0 && name.last() == '/'
}

/// Components joined with `/`.
fn join_components_exec(cs: &Vec<Vec<char>>, from: usize) -> (r: Vec<char>)
    requires
        from <= cs@.len(),
    ensures
        r@ == join_components(cs@.map_values(|x: Vec<char>| x@).skip(from as int)),
{
    let ghost cv = cs@.map_values(|x: Vec<char>| x@).skip(from as int);
    let mut r: Vec<char> = Vec::new();
    let mut i = from;
    while i < cs.len()
        invariant
            from <= i <= cs@.len(),
            cv == cs@.map_values(|x: Vec<char>| x@).skip(from as int),
            r@ == join_components(cv.take(i - from)),
        decreases cs@.len() - i,
    {
        let ghost t = cv.take(i - from + 1);
        assert(t.drop_last() == cv.take(i - from));
        assert(t.last() == cs@[i as int]@);
        if i > from {
            r.push('/');
        } else {
            assert(t.len() == 1);
        }
        extend_chars(&mut r, cs[i].as_slice());
        i = i + 1;
    }
    assert(cv.take(cs@.len() - from) == cv);
    r
}

/// Where an entry goes when the archive is extracted as it is.
pub fn flat_target(name: &str) -> (r: Option<String>)
    ensures
        opt_view(r) == flat_target_spec(name@),
{
    let v = chars_of(name);
    if path_has_parent_dir(v.as_slice()) {
        None
    } else {
        Some(name.to_owned())
    }
}

/// Where an entry goes when the archive's top folder is stripped.
pub fn strip_root_target(name: &str) -> (r: Option<String>)
    ensures
        opt_view(r) == strip_root_target_spec(name@),
{
    let v = chars_of(name);
    if path_has_parent_dir(v.as_slice()) {
        return None;
    }
    let cs = path_all_components(v.as_slice());
    let ghost cv = cs@.map_values(|x: Vec<char>| x@);
    assert(cv.len() == cs@.len());
    if cs.len() < 2 {
        return None;
    }
    assert(cv[1] == cs@[1]@);
    assert(cv.skip(1)[0] == cv[1]);
    if cs[1].len() == 1 && cs[1][0] == '/' {
        assert(cs@[1]@ =~= seq!['/']);
        let mut r = vec!['/'];
        let t = join_components_exec(&cs, 2);
        assert(cv.skip(1).drop_first() =~= cv.skip(2));
        extend_chars(&mut r, t.as_slice());
        assert(r@ =~= rel_path(cv.skip(1)));
        Some(string_from(r.as_slice()))
    } else {
        assert(cs@[1]@ != seq!['/']) by {
            if cs@[1]@ == seq!['/'] {
                assert(cs@[1]@.len() == 1);
            }
        }
        let r = join_components_exec(&cs, 1);
        Some(string_from(r.as_slice()))
    }
}

/// Whether an entry is a folder.
pub fn is_dir_entry_name(name: &str) -> (r: bool)
    ensures
        r == is_dir_entry(name@),
{
    let v = chars_of(name);
    v.len() > 0 && v[v.len() - 1] == '/'
}

/// The folder of a mod pack that an entry belongs to.
#[derive(Debug)]
pub enum PackFolder {
    Pak,
    Script,
}

/// Where an entry of a mod pack goes: entries under `pak/` into the pak
/// folder and under `script/` into the mods folder, without that first
/// component; the manifest, other entries (those starting at a root or at
/// `.` among them), and paths with `..` are skipped.
pub open spec fn modpack_target_spec(name: Seq<char>) -> Option<(bool, Seq<char>)> {
    let cs = all_components(name);
    if name == "modpack.json"@ || has_parent_dir(name) || cs.len() < 2 {
        None
    } else if cs[0] == "pak"@ {
        Some((true, join_components(cs.skip(1))))
    } else if cs[0] == "script"@ {
        Some((false, join_components(cs.skip(1))))
    } else {
        None
    }
}

/// Where an entry of a mod pack goes.
pub fn modpack_target(name: &str) -> (r: Option<(PackFolder, String)>)
    ensures
        match r {
            Some((f, p)) => modpack_target_spec(name@) == Some((f is Pak, p@)),
            None => modpack_target_spec(name@) is None,
        },
{
    let v = chars_of(name);
    if chars_eq_str(v.as_slice(), "modpack.json") || path_has_parent_dir(v.as_slice()) {
        return None;
    }
    let cs = path_all_components(v.as_slice());
    let ghost cv = cs@.map_values(|x: Vec<char>| x@);
    if cs.len() < 2 {
        return None;
    }
    assert(cv[0] == cs@[0]@);
    let folder = if chars_eq_str(cs[0].as_slice(), "pak") {
        PackFolder::Pak
    } else if chars_eq_str(cs[0].as_slice(), "script") {
        PackFolder::Script
    } else {
        return None;
    };
    let r = join_components_exec(&cs, 1);
    Some((folder, string_from(r.as_slice())))
}

// ---------------------------------------------------------------------------
// No entry leaves its folder
// ---------------------------------------------------------------------------

/// Every character of every piece of a split comes from the text.
proof fn lemma_split_chars_from(s: Seq<char>, d: char)
    ensures
        forall|i: int, j: int|
            0 <= i < split_spec(s, d).len() && 0 <= j < split_spec(s, d)[i].len() ==> s.contains(
                #[trigger] split_spec(s, d)[i][j],
            ),
    decreases s.len(),
{
    crate::text::lemma_split_nonempty(s, d);
    if s.len() > 0 {
        lemma_split_chars_from(s.drop_last(), d);
        crate::text::lemma_split_nonempty(s.drop_last(), d);
        let p = split_spec(s.drop_last(), d);
        assert forall|i: int, j: int|
            0 <= i < split_spec(s, d).len() && 0 <= j < split_spec(s, d)[i].len() implies s.contains(
            #[trigger] split_spec(s, d)[i][j],
        ) by {
            let q = split_spec(s, d);
            if s.last() == d {
                if i < p.len() {
                    assert(q[i] == p[i]);
                    let x = p[i][j];
                    let k = choose|k: int| 0 <= k < s.drop_last().len() && s.drop_last()[k] == x;
                    assert(s[k] == x);
                }
            } else {
                if i < p.len() - 1 {
                    assert(q[i] == p[i]);
                    let x = p[i][j];
                    let k = choose|k: int| 0 <= k < s.drop_last().len() && s.drop_last()[k] == x;
                    assert(s[k] == x);
                } else {
                    assert(q[i] == p.last().push(s.last()));
                    if j < p.last().len() {
                        assert(p[p.len() - 1] == p.last());
                        let x = p[p.len() - 1][j];
                        let k = choose|k: int| 0 <= k < s.drop_last().len() && s.drop_last()[k] == x;
                        assert(s[k] == x);
                    } else {
                        assert(s[s.len() - 1] == s.last());
                    }
                }
            }
        }
    }
}

/// A component holds no separator.
proof fn lemma_components_lack_seps(s: Seq<char>)
    ensures
        forall|i: int|
            0 <= i < raw_components(s).len() ==> !(#[trigger] raw_components(s)[i]).contains('/')
                && !raw_components(s)[i].contains('\\'),
{
    broadcast use vstd::seq_lib::group_filter_ensures;
    let n = crate::paths::normalize_seps(s);
    let ps = split_spec(n, '/');
    crate::text::lemma_split_pieces_lack_delim(n, '/');
    lemma_split_chars_from(n, '/');
    assert(!n.contains('\\')) by {
        if n.contains('\\') {
            let k = choose|k: int| 0 <= k < n.len() && n[k] == '\\';
            assert(n[k] == (if s[k] == '\\' { '/' } else { s[k] }));
        }
    }
    let f = |p: Seq<char>| crate::paths::is_component(p);
    assert forall|i: int|
        0 <= i < raw_components(s).len() implies !(#[trigger] raw_components(s)[i]).contains('/')
        && !raw_components(s)[i].contains('\\') by {
        let c = raw_components(s)[i];
        assert(ps.filter(f).contains(c));
        ps.lemma_filter_contains_rev(f, c);
        let k = choose|k: int| 0 <= k < ps.len() && ps[k] == c;
        if c.contains('\\') {
            let j = choose|j: int| 0 <= j < c.len() && c[j] == '\\';
            assert(ps[k][j] == '\\');
        }
    }
}

/// A component is kept by the filter.
proof fn lemma_components_are_components(s: Seq<char>)
    ensures
        forall|i: int| 0 <= i < raw_components(s).len() ==> crate::paths::is_component(
            #[trigger] raw_components(s)[i],
        ),
{
    broadcast use vstd::seq_lib::group_filter_ensures;
    let f = |p: Seq<char>| crate::paths::is_component(p);
    let ps = crate::paths::pieces(s);
    assert forall|i: int| 0 <= i < raw_components(s).len() implies crate::paths::is_component(
        #[trigger] raw_components(s)[i],
    ) by {
        ps.lemma_filter_pred(f, i);
    }
}

/// Joining components with `/` gives text with exactly those components.
proof fn lemma_join_raw_components(cs: Seq<Seq<char>>)
    requires
        forall|i: int|
            0 <= i < cs.len() ==> crate::paths::is_component(#[trigger] cs[i]) && !cs[i].contains(
                '/',
            ) && !cs[i].contains('\\'),
    ensures
        raw_components(join_components(cs)) == cs,
        !join_components(cs).contains('\\'),
    decreases cs.len(),
{
    let j = join_components(cs);
    if cs.len() == 0 {
        reveal_with_fuel(Seq::filter, 2);
        assert(crate::paths::normalize_seps(j) =~= Seq::<char>::empty());
        assert(crate::paths::pieces(j) =~= seq![Seq::<char>::empty()]);
        assert(seq![Seq::<char>::empty()].drop_last() =~= Seq::<Seq<char>>::empty());
        assert(raw_components(j) =~= cs);
    } else {
        let a = if cs.len() == 1 {
            Seq::<char>::empty()
        } else {
            join_components(cs.drop_last()) + seq!['/']
        };
        let b = cs.last();
        assert(cs[cs.len() - 1] == b);
        assert(j =~= a + b);
        assert(!b.contains('\\') && !b.contains('/'));
        assert(crate::paths::normalize_seps(b) =~= b) by {
            assert forall|k: int| 0 <= k < b.len() implies crate::paths::normalize_seps(b)[k]
                == b[k] by {
                if b[k] == '\\' {
                    assert(b.contains('\\'));
                }
            }
        }
        crate::logs::lemma_split_single(b, '/');
        if cs.len() == 1 {
            reveal(Seq::filter);
            assert(j =~= b);
            assert(crate::paths::pieces(j) =~= seq![b]);
            assert(seq![b].drop_last() =~= Seq::<Seq<char>>::empty());
            assert(raw_components(j) =~= cs);
        } else {
            let c0 = cs.drop_last();
            assert forall|i: int|
                0 <= i < c0.len() implies crate::paths::is_component(#[trigger] c0[i])
                && !c0[i].contains('/') && !c0[i].contains('\\') by {
                assert(c0[i] == cs[i]);
            }
            lemma_join_raw_components(c0);
            let j0 = join_components(c0);
            assert(crate::paths::normalize_seps(j0) =~= j0) by {
                assert forall|k: int| 0 <= k < j0.len() implies crate::paths::normalize_seps(j0)[k]
                    == j0[k] by {
                    if j0[k] == '\\' {
                        assert(j0.contains('\\'));
                    }
                }
            }
            let na = crate::paths::normalize_seps(a);
            assert(na =~= j0 + seq!['/']);
            assert(crate::paths::normalize_seps(j) =~= na + b);
            crate::logs::lemma_split_append(na, b, '/');
            crate::text::lemma_split_nonempty(j0, '/');
            assert(na.drop_last() =~= j0);
            assert(split_spec(na, '/') == split_spec(j0, '/').push(Seq::<char>::empty()));
            assert(split_spec(na, '/').drop_last() =~= split_spec(j0, '/'));
            let pj = crate::paths::pieces(j);
            assert(pj =~= crate::paths::pieces(j0) + seq![b]);
            reveal(Seq::filter);
            assert(pj.drop_last() =~= crate::paths::pieces(j0));
            assert(pj.last() == b);
            assert(raw_components(j) =~= raw_components(j0).push(b));
            assert(cs =~= c0.push(b));
        }
        assert(!j.contains('\\')) by {
            if j.contains('\\') {
                let k = choose|k: int| 0 <= k < j.len() && j[k] == '\\';
                if k < a.len() {
                    if cs.len() > 1 {
                        let j0 = join_components(cs.drop_last());
                        if k < j0.len() {
                            assert(j0[k] == '\\');
                            assert(j0.contains('\\'));
                        }
                    }
                } else {
                    assert(b[k - a.len()] == '\\');
                    assert(b.contains('\\'));
                }
            }
        }
    }
}

/// Joining components with `/`, the first with no drive prefix, gives a
/// path with exactly those components and no drive prefix.
pub proof fn lemma_join_components(cs: Seq<Seq<char>>)
    requires
        forall|i: int|
            0 <= i < cs.len() ==> crate::paths::is_component(#[trigger] cs[i]) && !cs[i].contains(
                '/',
            ) && !cs[i].contains('\\'),
        cs.len() > 0 ==> drive_len(cs[0]) == 0,
    ensures
        components(join_components(cs)) == cs,
        drive_len(join_components(cs)) == 0,
        !join_components(cs).contains('\\'),
{
    lemma_join_raw_components(cs);
    let j = join_components(cs);
    if cs.len() > 0 {
        lemma_join_first(cs);
        if cs[0].len() >= 2 {
            assert(j[0] == cs[0][0] && j[1] == cs[0][1]);
        } else if cs.len() > 1 {
            assert(j[1] == '/');
        } else {
            assert(j =~= cs[0]);
        }
    }
    assert(path_body(j) =~= j);
}

/// The path an entry is extracted to as it is has no `..` component and,
/// for an entry that does not itself start at a root, does not start at
/// one: it stays inside the destination folder. (An entry that starts at a
/// root is extracted to that path as it stands.)
pub proof fn law_flat_stays_inside(name: Seq<char>)
    requires
        flat_target_spec(name) is Some,
        name.len() > 0 ==> name[0] != '/' && name[0] != '\\',
    ensures
        ({
            let r = flat_target_spec(name).unwrap();
            &&& r == name
            &&& !has_parent_dir(r)
            &&& (r.len() > 0 ==> r[0] != '/' && r[0] != '\\')
        }),
{
}

/// Joining a component in front of others puts it and a `/` before their join.
proof fn lemma_join_prepend(a: Seq<char>, rest: Seq<Seq<char>>)
    requires
        rest.len() > 0,
    ensures
        join_components(seq![a] + rest) == a + seq!['/'] + join_components(rest),
    decreases rest.len(),
{
    let cs = seq![a] + rest;
    assert(join_components(cs) == join_components(cs.drop_last()) + seq!['/'] + cs.last());
    assert(cs.last() == rest.last());
    if rest.len() == 1 {
        assert(cs.drop_last() =~= seq![a]);
        assert(join_components(seq![a]) == a);
        assert(join_components(rest) == rest[0]);
        assert(join_components(cs) =~= a + seq!['/'] + join_components(rest));
    } else {
        lemma_join_prepend(a, rest.drop_last());
        assert(cs.drop_last() =~= seq![a] + rest.drop_last());
        assert(join_components(rest) == join_components(rest.drop_last()) + seq!['/'] + rest.last());
        assert(join_components(cs) =~= a + seq!['/'] + join_components(rest));
    }
}

/// `.` joined in front of components: a path that starts with `.` and
/// lists exactly those components after it.
proof fn lemma_dot_join(c: Seq<Seq<char>>)
    requires
        forall|i: int|
            0 <= i < c.len() ==> crate::paths::is_component(#[trigger] c[i]) && !c[i].contains(
                '/',
            ) && !c[i].contains('\\'),
    ensures
        all_components(join_components(seq![seq!['.']] + c)) == seq![seq!['.']] + c,
        join_components(seq![seq!['.']] + c).len() > 0,
        join_components(seq![seq!['.']] + c)[0] == '.',
        drive_len(join_components(seq![seq!['.']] + c)) == 0,
{
    let dot = seq!['.'];
    let cs = seq![dot] + c;
    let j = join_components(cs);
    reveal(Seq::filter);
    if c.len() == 0 {
        assert(cs =~= seq![dot]);
        assert(j == dot);
        assert(crate::paths::normalize_seps(j) =~= j);
        crate::logs::lemma_split_single(j, '/');
        assert(crate::paths::pieces(j) =~= seq![dot]);
        assert(seq![dot].drop_last() =~= Seq::<Seq<char>>::empty());
        assert(path_body(j) =~= j);
        assert(components(j) =~= Seq::<Seq<char>>::empty());
    } else {
        lemma_join_prepend(dot, c);
        lemma_join_raw_components(c);
        let jc = join_components(c);
        let a = seq!['.', '/'];
        assert(j =~= a + jc);
        crate::paths::lemma_pieces_after_sep(a, jc);
        assert(crate::paths::normalize_seps(a) =~= a);
        assert(a.drop_last() =~= dot);
        crate::logs::lemma_split_single(dot, '/');
        assert(crate::paths::pieces(a) =~= seq![dot, Seq::<char>::empty()]);
        assert(crate::paths::pieces(a).drop_last() =~= seq![dot]);
        let pj = crate::paths::pieces(jc);
        assert(crate::paths::pieces(j) =~= seq![dot] + pj);
        pj.lemma_filter_prepend(dot, |p: Seq<char>| crate::paths::is_component(p));
        assert(path_body(j) =~= j);
        assert(components(j) =~= c);
        assert(j[1] == '/');
    }
    assert(all_components(j) =~= cs);
}

/// The path an entry is extracted to, once its top folder is stripped,
/// lists the entry's components after the first (a drive prefix, a root or
/// a leading `.` being the first), has no `..` component, no drive prefix,
/// and does not start at a root: it stays inside the destination folder.
/// (An entry whose second component is a root, or looks like a drive, as in
/// `C:/a` or `a/C:b`, is extracted to where `Path::join` takes that path.)
pub proof fn law_strip_root_stays_inside(name: Seq<char>)
    requires
        strip_root_target_spec(name) is Some,
        all_components(name)[1] != seq!['/'],
        drive_len(all_components(name)[1]) == 0,
    ensures
        ({
            let r = strip_root_target_spec(name).unwrap();
            &&& all_components(r) == all_components(name).skip(1)
            &&& !has_parent_dir(r)
            &&& r.len() > 0
            &&& !is_sep(r[0])
            &&& drive_len(r) == 0
        }),
{
    let c = components(name);
    let lc = crate::paths::lead_components(name);
    let all = all_components(name);
    let cs = all.skip(1);
    assert(cs[0] == all[1]);
    lemma_components_lack_seps(path_body(name));
    lemma_components_are_components(path_body(name));
    // the named components that follow what comes first
    let o: int = if lc.len() == 0 { 1 } else { 0 };
    let named = c.skip(o);
    let dot = lc.len() == 2;
    assert(lc.len() <= 2);
    if dot {
        assert(lc[1] == all[1]);
        assert(lc[1] == seq!['.']) by {
            match raw_lead(path_body(name)) {
                Some(l) => {
                    assert(l == seq!['/'] || l == seq!['.']);
                },
                None => {},
            }
        }
        assert(cs =~= seq![seq!['.']] + c);
    } else {
        assert(cs =~= named);
    }
    assert(forall|i: int| 0 <= i < named.len() ==> named[i] == #[trigger] c[i + o]);
    assert forall|i: int|
        0 <= i < named.len() implies crate::paths::is_component(#[trigger] named[i]) && !named[i].contains(
            '/',
        ) && !named[i].contains('\\') by {
        assert(named[i] == c[i + o]);
    }
    if !dot {
        assert(named.len() > 0 ==> drive_len(named[0]) == 0);
    }
    let r = rel_path(cs);
    assert(r == join_components(cs));
    if dot {
        lemma_dot_join(c);
    } else {
        lemma_join_components(named);
        lemma_join_first(named);
        assert(lc.len() == 0 || lc.len() == 1);
        let j = join_components(named);
        assert(crate::paths::lead_components(j) =~= Seq::<Seq<char>>::empty()) by {
            assert(path_body(j) =~= j);
            assert(j[0] == named[0][0]);
            assert(!is_sep(j[0]));
            if named[0][0] == '.' {
                assert(named[0] != seq!['.']);
                if named[0].len() == 1 {
                    assert(named[0] =~= seq!['.']);
                }
                assert(named[0].len() >= 2);
                assert(j[1] == named[0][1]);
                if is_sep(named[0][1]) {
                    assert(named[0].contains(named[0][1]));
                }
            }
            assert(raw_lead(j) is None);
        }
        assert(all_components(j) =~= named);
    }
    assert(!has_parent_dir(r)) by {
        if has_parent_dir(r) {
            let i = choose|i: int|
                0 <= i < components(r).len() && crate::paths::is_parent_dir(
                    #[trigger] components(r)[i],
                );
            assert(all_components(r) == cs);
            let k = (crate::paths::lead_components(r).len() + i) as int;
            assert(all_components(r)[k] == components(r)[i]);
            if dot {
                assert(cs[k] == c[k - 1]);
                assert(c[k - 1] == c[(k - 1 - o) + o]);
            } else {
                assert(cs[k] == named[k]);
                assert(named[k] == c[k + o]);
            }
            assert(has_parent_dir(name));
        }
    }
}

/// A join of components starts with the first component, followed by `/`
/// when there are more.
pub proof fn lemma_join_first(cs: Seq<Seq<char>>)
    requires
        cs.len() > 0,
        forall|i: int|
            0 <= i < cs.len() ==> crate::paths::is_component(#[trigger] cs[i]) && !cs[i].contains(
                '/',
            ) && !cs[i].contains('\\'),
    ensures
        join_components(cs).len() > 0,
        join_components(cs)[0] == cs[0][0],
        cs[0].is_prefix_of(join_components(cs)),
        cs.len() > 1 ==> join_components(cs)[cs[0].len() as int] == '/',
        !is_sep(join_components(cs)[0]),
    decreases cs.len(),
{
    if cs.len() > 1 {
        let c0 = cs.drop_last();
        assert forall|i: int|
            0 <= i < c0.len() implies crate::paths::is_component(#[trigger] c0[i])
            && !c0[i].contains('/') && !c0[i].contains('\\') by {
            assert(c0[i] == cs[i]);
        }
        lemma_join_first(c0);
        assert(c0[0] == cs[0]);
        let j0 = join_components(c0);
        assert(join_components(cs) == j0 + seq!['/'] + cs.last());
        if c0.len() == 1 {
            assert(j0 == cs[0]);
        }
    }
    assert(cs[0].len() > 0);
    if cs[0][0] == '/' || cs[0][0] == '\\' {
        assert(cs[0].contains(cs[0][0]));
    }
}


/// Every archive but the UE4SS loader carries the Nexus mod id of its file
/// stem, whatever else its entries decide; the loader carries none.
pub proof fn law_archive_keeps_nexus_id(es: Seq<Option<Seq<char>>>, stem: Seq<char>)
    ensures
        zip_info_spec(es, stem).3 == (if has_ue4ss_marker(es) {
            None
        } else {
            nexus_mod_id_spec(stem)
        }),
        !has_ue4ss_marker(es) && has_pak_entry(es) ==> zip_info_spec(es, stem).1 != "script"@,
{
    reveal_strlit("pak");
    reveal_strlit("script");
    reveal_strlit("game_relative");
    assert("pak"@.len() == 3 && "script"@.len() == 6 && "game_relative"@.len() == 13);
}

} // verus!
