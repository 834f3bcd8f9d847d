//! Talking to Nexus Mods, minus the network: `nxm://` links, API addresses,
//! download names, update detection and the metadata written after an install.
use vstd::prelude::*;
use crate::model::{Config, ModMeta, ModUpdateStatus, NexusFileEntry, NexusUserInfo, ZipInfo};
use crate::paths::{join_path_str, join_spec};
use crate::paths::{file_name_spec, file_stem_spec, file_name_of, file_stem_of};
use crate::text::{
    chars_eq_ignore_ascii_case, chars_of, decimal, eq_ignore_ascii_case, extend_chars,
    extend_decimal, extend_str, find_chars, find_spec, opt_view, parse_u64, parse_u64_spec,
    split_chars, split_spec, string_from, sub_chars, views, starts_with_str, lemma_split_nonempty,
};

verus! {

broadcast use vstd::seq_lib::group_seq_properties;

// ---------------------------------------------------------------------------
// nxm:// links
// ---------------------------------------------------------------------------

/// A download request carried by an `nxm://` link.
#[derive(Debug)]
pub struct NxmRequest {
    pub game: String,
    pub mod_id: String,
    pub file_id: String,
    pub key: String,
    pub expires: String,
}

/// `s` with every leading copy of `p` removed (`trim_start_matches`).
pub open spec fn trim_prefix_all(s: Seq<char>, p: Seq<char>) -> Seq<char>
    decreases s.len(),
{
    if p.len() > 0 && p.is_prefix_of(s) {
        trim_prefix_all(s.skip(p.len() as int), p)
    } else {
        s
    }
}

/// The text before and after the first `c` (`split_once`).
pub open spec fn split_once_spec(s: Seq<char>, c: char) -> Option<(Seq<char>, Seq<char>)> {
    match find_spec(s, seq![c]) {
        Some(i) => Some((s.take(i), s.skip(i + 1))),
        None => None,
    }
}

/// The value of the last `name=` parameter of a query, or nothing.
pub open spec fn query_param(params: Seq<Seq<char>>, name: Seq<char>) -> Seq<char>
    decreases params.len(),
{
    if params.len() == 0 {
        Seq::empty()
    } else if name.is_prefix_of(params.last()) {
        params.last().skip(name.len() as int)
    } else {
        query_param(params.drop_last(), name)
    }
}

/// The path and query of an `nxm://` link.
pub open spec fn nxm_path_query(url: Seq<char>) -> (Seq<char>, Seq<char>) {
    let rest = trim_prefix_all(url, "nxm://"@);
    match split_once_spec(rest, '?') {
        Some(pq) => pq,
        None => (rest, Seq::empty()),
    }
}

/// What an `nxm://game/mods/ID/files/ID?key=K&expires=E` link asks for:
/// the path's first, third and fifth segments and the last `key` and
/// `expires` parameters; `None` when the path has fewer than five segments.
pub open spec fn nxm_spec(url: Seq<char>) -> Option<(Seq<char>, Seq<char>, Seq<char>, Seq<char>, Seq<char>)> {
    let (path, query) = nxm_path_query(url);
    let parts = split_spec(path, '/');
    let params = split_spec(query, '&');
    if parts.len() < 5 {
        None
    } else {
        Some(
            (
                parts[0],
                parts[2],
                parts[4],
                query_param(params, "key="@),
                query_param(params, "expires="@),
            ),
        )
    }
}

/// The fields of a request.
pub open spec fn nxm_view(r: NxmRequest) -> (Seq<char>, Seq<char>, Seq<char>, Seq<char>, Seq<char>) {
    (r.game@, r.mod_id@, r.file_id@, r.key@, r.expires@)
}

/// `v` with every leading copy of `p` removed.
fn trim_prefix_all_exec(v: &[char], p: &str) -> (r: Vec<char>)
    ensures
        r@ == trim_prefix_all(v@, p@),
{
    let pv = chars_of(p);
    let mut i: usize = 0;
    assert(v@.skip(0) == v@);
    if pv.len() == 0 {
        return sub_chars(v, 0, v.len());
    }
    while i <= v.len() && crate::text::matches_at(v, i, pv.as_slice())
        invariant
            i <= v@.len(),
            pv@ == p@,
            pv@.len() > 0,
            trim_prefix_all(v@, p@) == trim_prefix_all(v@.skip(i as int), p@),
        decreases v@.len() - i,
    {
        assert(v@.skip(i as int).skip(pv@.len() as int) == v@.skip(i + pv@.len()));
        i = i + pv.len();
    }
    sub_chars(v, i, v.len())
}

/// The text before and after the first `c`.
fn split_once_exec(v: &[char], c: char) -> (r: Option<(Vec<char>, Vec<char>)>)
    ensures
        match r {
            Some((a, b)) => split_once_spec(v@, c) == Some((a@, b@)),
            None => split_once_spec(v@, c) is None,
        },
{
    let pat = vec![c];
    assert(pat@ =~= seq![c]);
    match find_chars(v, pat.as_slice()) {
        Some(i) => {
            proof {
                crate::logs::lemma_find_in_range(v@, pat@);
            }
            let vl = v.len();
            Some((sub_chars(v, 0, i), sub_chars(v, i + 1, vl)))
        },
        None => None,
    }
}

/// The value of the last `name` parameter.
fn query_param_exec(params: &Vec<Vec<char>>, name: &str) -> (r: Vec<char>)
    ensures
        r@ == query_param(params@.map_values(|x: Vec<char>| x@), name@),
{
    let ghost pv = params@.map_values(|x: Vec<char>| x@);
    let mut n = params.len();
    while n > 0
        invariant
            n <= params@.len(),
            pv == params@.map_values(|x: Vec<char>| x@),
            query_param(pv, name@) == query_param(pv.take(n as int), name@),
        decreases n,
    {
        let t = &params[n - 1];
        assert(pv.take(n as int).last() == t@);
        assert(pv.take(n as int).drop_last() == pv.take(n - 1));
        if starts_with_str(t.as_slice(), name) {
            let nl = chars_of(name);
            return sub_chars(t.as_slice(), nl.len(), t.len());
        }
        n = n - 1;
    }
    Vec::new()
}

/// The message for a link that is not a download link.
pub open spec fn invalid_nxm_message(url: Seq<char>) -> Seq<char> {
    "Invalid NXM URL: "@ + url
}

/// Reads an `nxm://` download link.
pub fn parse_nxm_url(nxm_url: &str) -> (r: Result<NxmRequest, String>)
    ensures
        match r {
            Ok(req) => nxm_spec(nxm_url@) == Some(nxm_view(req)),
            Err(e) => nxm_spec(nxm_url@) is None && e@ == invalid_nxm_message(nxm_url@),
        },
{
    let v = chars_of(nxm_url);
    let rest = trim_prefix_all_exec(v.as_slice(), "nxm://");
    let (path, query) = match split_once_exec(rest.as_slice(), '?') {
        Some(pq) => pq,
        None => (rest, Vec::new()),
    };
    let parts = split_chars(path.as_slice(), '/');
    let ghost partv = parts@.map_values(|x: Vec<char>| x@);
    if parts.len() < 5 {
        let mut m = chars_of("Invalid NXM URL: ");
        extend_str(&mut m, nxm_url);
        return Err(string_from(m.as_slice()));
    }
    let params = split_chars(query.as_slice(), '&');
    let key = query_param_exec(&params, "key=");
    let expires = query_param_exec(&params, "expires=");
    assert(partv[0] == parts@[0]@ && partv[2] == parts@[2]@ && partv[4] == parts@[4]@);
    Ok(
        NxmRequest {
            game: string_from(parts[0].as_slice()),
            mod_id: string_from(parts[2].as_slice()),
            file_id: string_from(parts[4].as_slice()),
            key: string_from(key.as_slice()),
            expires: string_from(expires.as_slice()),
        },
    )
}

// ---------------------------------------------------------------------------
// API addresses
// ---------------------------------------------------------------------------

/// The address that lists the download links of a file named by an `nxm://` link.
pub open spec fn nxm_download_link_url_spec(req: (Seq<char>, Seq<char>, Seq<char>, Seq<char>, Seq<char>)) -> Seq<char> {
    "https://api.nexusmods.com/v1/games/"@ + req.0 + "/mods/"@ + req.1 + "/files/"@ + req.2
        + "/download_link.json?key="@ + req.3 + "&expires="@ + req.4
}

/// The address that lists the download links of a file named by an `nxm://` link.
pub fn nxm_download_link_url(req: &NxmRequest) -> (r: String)
    ensures
        r@ == nxm_download_link_url_spec(nxm_view(*req)),
{
    let mut v = chars_of("https://api.nexusmods.com/v1/games/");
    extend_str(&mut v, req.game.as_str());
    extend_str(&mut v, "/mods/");
    extend_str(&mut v, req.mod_id.as_str());
    extend_str(&mut v, "/files/");
    extend_str(&mut v, req.file_id.as_str());
    extend_str(&mut v, "/download_link.json?key=");
    extend_str(&mut v, req.key.as_str());
    extend_str(&mut v, "&expires=");
    extend_str(&mut v, req.expires.as_str());
    string_from(v.as_slice())
}

/// The API address of a Subnautica 2 mod.
pub open spec fn mod_info_url_spec(mod_id: u64) -> Seq<char> {
    "https://api.nexusmods.com/v1/games/subnautica2/mods/"@ + decimal(mod_id as nat) + ".json"@
}

/// The API address of a Subnautica 2 mod.
pub fn mod_info_url(mod_id: u64) -> (r: String)
    ensures
        r@ == mod_info_url_spec(mod_id),
{
    let mut v = chars_of("https://api.nexusmods.com/v1/games/subnautica2/mods/");
    extend_decimal(&mut v, mod_id);
    extend_str(&mut v, ".json");
    string_from(v.as_slice())
}

/// The API address that lists the files of a Subnautica 2 mod.
pub open spec fn mod_files_url_spec(mod_id: u64) -> Seq<char> {
    "https://api.nexusmods.com/v1/games/subnautica2/mods/"@ + decimal(mod_id as nat)
        + "/files.json"@
}

/// The API address that lists the files of a Subnautica 2 mod.
pub fn mod_files_url(mod_id: u64) -> (r: String)
    ensures
        r@ == mod_files_url_spec(mod_id),
{
    let mut v = chars_of("https://api.nexusmods.com/v1/games/subnautica2/mods/");
    extend_decimal(&mut v, mod_id);
    extend_str(&mut v, "/files.json");
    string_from(v.as_slice())
}

/// The API address of one file of a Subnautica 2 mod.
pub open spec fn mod_file_url_spec(mod_id: u64, file_id: u64) -> Seq<char> {
    "https://api.nexusmods.com/v1/games/subnautica2/mods/"@ + decimal(mod_id as nat) + "/files/"@
        + decimal(file_id as nat) + ".json"@
}

/// The API address of one file of a Subnautica 2 mod.
pub fn mod_file_url(mod_id: u64, file_id: u64) -> (r: String)
    ensures
        r@ == mod_file_url_spec(mod_id, file_id),
{
    let mut v = chars_of("https://api.nexusmods.com/v1/games/subnautica2/mods/");
    extend_decimal(&mut v, mod_id);
    extend_str(&mut v, "/files/");
    extend_decimal(&mut v, file_id);
    extend_str(&mut v, ".json");
    string_from(v.as_slice())
}

/// The API address that lists the download links of a file of a Subnautica 2 mod.
pub open spec fn file_download_link_url_spec(mod_id: u64, file_id: u64) -> Seq<char> {
    "https://api.nexusmods.com/v1/games/subnautica2/mods/"@ + decimal(mod_id as nat) + "/files/"@
        + decimal(file_id as nat) + "/download_link.json"@
}

/// The API address that lists the download links of a file of a Subnautica 2 mod.
pub fn file_download_link_url(mod_id: u64, file_id: u64) -> (r: String)
    ensures
        r@ == file_download_link_url_spec(mod_id, file_id),
{
    let mut v = chars_of("https://api.nexusmods.com/v1/games/subnautica2/mods/");
    extend_decimal(&mut v, mod_id);
    extend_str(&mut v, "/files/");
    extend_decimal(&mut v, file_id);
    extend_str(&mut v, "/download_link.json");
    string_from(v.as_slice())
}

// ---------------------------------------------------------------------------
// Downloads
// ---------------------------------------------------------------------------

/// The file name of a download: the last `/` segment of its address, up to
/// any `?`.
pub open spec fn download_file_name_spec(uri: Seq<char>) -> Seq<char> {
    let segs = split_spec(uri, '/');
    split_spec(segs.last(), '?')[0]
}

/// The file name of a download.
pub fn download_file_name(uri: &str) -> (r: String)
    ensures
        r@ == download_file_name_spec(uri@),
{
    let v = chars_of(uri);
    let segs = split_chars(v.as_slice(), '/');
    proof {
        lemma_split_nonempty(v@, '/');
    }
    let last = &segs[segs.len() - 1];
    assert(last@ == split_spec(v@, '/').last());
    let qs = split_chars(last.as_slice(), '?');
    proof {
        lemma_split_nonempty(last@, '?');
    }
    assert(qs@[0]@ == split_spec(last@, '?')[0]);
    string_from(qs[0].as_slice())
}

/// The stem of a downloaded archive's file name, or `mod`.
pub open spec fn archive_stem_spec(file_name: Seq<char>) -> Seq<char> {
    match file_stem_spec(file_name) {
        Some(s) => s,
        None => "mod"@,
    }
}

/// The stem of a downloaded archive's file name, or `mod`.
pub fn archive_stem(file_name: &str) -> (r: String)
    ensures
        r@ == archive_stem_spec(file_name@),
{
    let v = chars_of(file_name);
    match file_stem_of(v.as_slice()) {
        Some(s) => string_from(s.as_slice()),
        None => "mod".to_owned(),
    }
}

/// The variant name in a download name: what comes before `-{modId}-`.
pub open spec fn variant_name_spec(zip_stem: Seq<char>, mod_id: Option<u64>) -> Option<Seq<char>> {
    match mod_id {
        Some(mid) => {
            let marker = seq!['-'] + decimal(mid as nat) + seq!['-'];
            match find_spec(zip_stem, marker) {
                Some(i) => Some(zip_stem.take(i)),
                None => None,
            }
        },
        None => None,
    }
}

/// The variant name in a download name
/// (`gravestone-waypoint-lite-1234-1-0-...` gives `gravestone-waypoint-lite`).
pub fn variant_name(zip_stem: &str, mod_id: Option<u64>) -> (r: Option<String>)
    ensures
        match r {
            Some(n) => variant_name_spec(zip_stem@, mod_id) == Some(n@),
            None => variant_name_spec(zip_stem@, mod_id) is None,
        },
{
    match mod_id {
        Some(mid) => {
            let mut marker: Vec<char> = Vec::new();
            marker.push('-');
            extend_decimal(&mut marker, mid);
            marker.push('-');
            assert(marker@ =~= seq!['-'] + decimal(mid as nat) + seq!['-']);
            let v = chars_of(zip_stem);
            match find_chars(v.as_slice(), marker.as_slice()) {
                Some(i) => {
                    proof {
                        crate::logs::lemma_find_in_range(v@, marker@);
                    }
                    let before = sub_chars(v.as_slice(), 0, i);
                    Some(string_from(before.as_slice()))
                },
                None => None,
            }
        },
        None => None,
    }
}

/// A version text that can be part of a folder name: every `/`, `\` and
/// `:` written as `_`.
pub open spec fn safe_version(v: Seq<char>) -> Seq<char> {
    v.map_values(|c: char| if c == '/' || c == '\\' || c == ':' { '_' } else { c })
}

/// A version made safe for a folder name holds no `/`, `\\` or `:`, and
/// keeps every other character in place.
pub proof fn law_safe_version_clean(v: Seq<char>)
    ensures
        safe_version(v).len() == v.len(),
        forall|i: int|
            0 <= i < v.len() ==> #[trigger] safe_version(v)[i] != '/' && safe_version(v)[i] != '\\'
                && safe_version(v)[i] != ':',
        forall|i: int|
            0 <= i < v.len() && v[i] != '/' && v[i] != '\\' && v[i] != ':' ==> #[trigger] safe_version(
                v,
            )[i] == v[i],
{
}

/// The name of the backup of an installed mod that an update replaces: the
/// folder's name (or `mod`), `_`, and the installed version (or `unknown`).
pub open spec fn backup_name_spec(old_path: Seq<char>, old_version: Option<Seq<char>>) -> Seq<char> {
    let stem = match file_name_spec(old_path) {
        Some(n) => n,
        None => "mod"@,
    };
    let version = match old_version {
        Some(v) => v,
        None => "unknown"@,
    };
    stem + seq!['_'] + safe_version(version)
}

/// The name of the backup of an installed mod that an update replaces.
pub fn backup_name(old_path: &str, old_version: Option<&str>) -> (r: String)
    ensures
        r@ == backup_name_spec(
            old_path@,
            match old_version {
                Some(v) => Some(v@),
                None => None,
            },
        ),
{
    let p = chars_of(old_path);
    let mut out = match file_name_of(p.as_slice()) {
        Some(n) => n,
        None => chars_of("mod"),
    };
    out.push('_');
    let ver = match old_version {
        Some(v) => chars_of(v),
        None => chars_of("unknown"),
    };
    let ghost out0 = out@;
    for i in 0..ver.len()
        invariant
            out@ == out0 + safe_version(ver@.take(i as int)),
    {
        let c = ver[i];
        if c == '/' || c == '\\' || c == ':' {
            out.push('_');
        } else {
            out.push(c);
        }
        assert(safe_version(ver@.take(i + 1)) =~= safe_version(ver@.take(i as int)).push(
            if c == '/' || c == '\\' || c == ':' {
                '_'
            } else {
                c
            },
        ));
    }
    assert(ver@.take(ver.len() as int) == ver@);
    string_from(out.as_slice())
}

/// The file that keeps a mod's new default settings when its old settings
/// are put back after an update: the settings file's name with `.new` added.
pub open spec fn new_defaults_name_spec(config_path: Seq<char>) -> Seq<char> {
    let n = match file_name_spec(config_path) {
        Some(n) => n,
        None => Seq::empty(),
    };
    n + ".new"@
}

/// The name under which a settings file's new defaults are kept.
pub fn new_defaults_name(config_path: &str) -> (r: String)
    ensures
        r@ == new_defaults_name_spec(config_path@),
{
    let p = chars_of(config_path);
    let mut out = match file_name_of(p.as_slice()) {
        Some(n) => n,
        None => Vec::new(),
    };
    extend_str(&mut out, ".new");
    string_from(out.as_slice())
}

/// The mod and file ids of an `nxm://` request, each read as a decimal `u64`.
pub fn nxm_ids(req: &NxmRequest) -> (r: (Option<u64>, Option<u64>))
    ensures
        r.0 == parse_u64_spec(req.mod_id@),
        r.1 == parse_u64_spec(req.file_id@),
{
    let mid = chars_of(req.mod_id.as_str());
    let fid = chars_of(req.file_id.as_str());
    (parse_u64(mid.as_slice()), parse_u64(fid.as_slice()))
}

/// The metadata recorded after a download from an `nxm://` link.
pub fn nxm_install_meta(
    req: &NxmRequest,
    display_name: Option<String>,
    file_variant_name: Option<String>,
    file_version: Option<String>,
    file_name_clean: Option<String>,
    installed_at: u64,
    installed_files: Vec<String>,
    backup_path: Option<String>,
) -> (m: ModMeta)
    ensures
        m.source@ == "nexus"@,
        m.mod_id == parse_u64_spec(req.mod_id@),
        m.file_id == parse_u64_spec(req.file_id@),
        m.version == file_version,
        m.display_name == display_name,
        m.file_name == (if file_variant_name is Some {
            file_variant_name
        } else {
            file_name_clean
        }),
        m.installed_at == installed_at,
        m.installed_files == Some(installed_files),
        m.backup_path == backup_path,
{
    let (mod_id, file_id) = nxm_ids(req);
    let file_name = match file_variant_name {
        Some(n) => Some(n),
        None => file_name_clean,
    };
    ModMeta {
        source: "nexus".to_owned(),
        mod_id,
        file_id,
        version: file_version,
        display_name,
        file_name,
        installed_at,
        installed_files: Some(installed_files),
        backup_path,
    }
}

// ---------------------------------------------------------------------------
// Mod files and updates
// ---------------------------------------------------------------------------

/// A file of a mod as the Nexus API describes it.
#[derive(Debug)]
pub struct NexusApiFile {
    pub file_id: u64,
    pub name: Option<String>,
    pub version: Option<String>,
    pub size_kb: Option<u64>,
    pub category_id: Option<u32>,
}

/// The file list entry of an API file: its name, or `File {id}`.
pub open spec fn file_entry_name(f: NexusApiFile) -> Seq<char> {
    match f.name {
        Some(n) => n@,
        None => "File "@ + decimal(f.file_id as nat),
    }
}

/// The files offered for install: those in the main (1) and optional (3)
/// categories, in API order.
pub open spec fn offered_files(files: Seq<NexusApiFile>) -> Seq<NexusApiFile> {
    files.filter(|f: NexusApiFile| f.category_id == Some(1u32) || f.category_id == Some(3u32))
}

/// The fields of a file list entry.
pub open spec fn file_entry_view(e: NexusFileEntry) -> (u64, Seq<char>, Option<Seq<char>>, Option<u64>) {
    (e.file_id, e.name@, opt_view(e.version), e.size_kb)
}

/// The file list entry for an API file.
pub open spec fn api_file_entry(f: NexusApiFile) -> (u64, Seq<char>, Option<Seq<char>>, Option<u64>) {
    (f.file_id, file_entry_name(f), opt_view(f.version), f.size_kb)
}

/// The installable files of a mod, as listed to the user (`get_nexus_mod_files`).
pub fn offered_file_entries(files: Vec<NexusApiFile>) -> (r: Vec<NexusFileEntry>)
    ensures
        r@.map_values(|e: NexusFileEntry| file_entry_view(e)) == offered_files(files@).map_values(
            |f: NexusApiFile| api_file_entry(f),
        ),
{
    let mut out: Vec<NexusFileEntry> = Vec::new();
    let ghost fs = files@;
    let mut rest = files;
    let mut i: usize = 0;
    let n = rest.len();
    while i < n
        invariant
            n == fs.len(),
            rest@ == fs,
            i <= n,
            out@.map_values(|e: NexusFileEntry| file_entry_view(e)) == offered_files(
                fs.take(i as int),
            ).map_values(|f: NexusApiFile| api_file_entry(f)),
        decreases n - i,
    {
        proof {
            reveal(Seq::filter);
            assert(fs.take(i + 1).drop_last() == fs.take(i as int));
            assert(fs.take(i + 1).last() == fs[i as int]);
        }
        let ghost o0 = out@.map_values(|e: NexusFileEntry| file_entry_view(e));
        let f = &rest[i];
        if f.category_id == Some(1u32) || f.category_id == Some(3u32) {
            let name = match &f.name {
                Some(s) => s.clone(),
                None => {
                    let mut v = chars_of("File ");
                    extend_decimal(&mut v, f.file_id);
                    string_from(v.as_slice())
                },
            };
            let e = NexusFileEntry {
                file_id: f.file_id,
                name,
                version: f.version.clone(),
                size_kb: f.size_kb,
            };
            out.push(e);
            assert(out@.map_values(|e: NexusFileEntry| file_entry_view(e)) =~= o0.push(
                api_file_entry(fs[i as int]),
            ));
        }
        i = i + 1;
    }
    assert(fs.take(n as int) == fs);
    out
}

/// An update is available when both versions are known and they differ.
pub open spec fn has_update_spec(installed: Option<Seq<char>>, latest: Option<Seq<char>>) -> bool {
    match (installed, latest) {
        (Some(i), Some(l)) => i != l,
        _ => false,
    }
}

/// Whether the latest version differs from the installed one.
pub fn has_update(installed: &Option<String>, latest: &Option<String>) -> (r: bool)
    ensures
        r == has_update_spec(opt_view(*installed), opt_view(*latest)),
{
    match (installed, latest) {
        (Some(i), Some(l)) => *i != *l,
        _ => false,
    }
}

/// The main files (category 1) of a mod, in API order.
pub open spec fn main_files(files: Seq<NexusApiFile>) -> Seq<NexusApiFile> {
    files.filter(|f: NexusApiFile| f.category_id == Some(1u32))
}

/// Whether a file's name matches the installed file name, up to ASCII case.
pub open spec fn name_matches(f: NexusApiFile, installed_name: Seq<char>) -> bool {
    f.name matches Some(n) && eq_ignore_ascii_case(n@, installed_name)
}

/// The first file of a list whose name matches.
pub open spec fn first_matching(files: Seq<NexusApiFile>, installed_name: Seq<char>) -> Option<int>
    decreases files.len(),
{
    if files.len() == 0 {
        None
    } else if name_matches(files[0], installed_name) {
        Some(0)
    } else {
        match first_matching(files.drop_first(), installed_name) {
            Some(i) => Some(i + 1),
            None => None,
        }
    }
}

/// The file that an update installs: among the main files, the first whose
/// name matches the installed file name, else the first main file.
pub open spec fn update_file_spec(files: Seq<NexusApiFile>, installed_name: Option<Seq<char>>) -> Option<NexusApiFile> {
    let mains = main_files(files);
    let matched = match installed_name {
        Some(n) => match first_matching(mains, n) {
            Some(i) => Some(mains[i]),
            None => None,
        },
        None => None,
    };
    if matched is Some {
        matched
    } else if mains.len() > 0 {
        Some(mains[0])
    } else {
        None
    }
}

/// The id and name of the file that an update installs.
pub fn pick_update_file(files: &Vec<NexusApiFile>, installed_name: &Option<String>) -> (r: (
    Option<u64>,
    Option<String>,
))
    ensures
        match update_file_spec(files@, opt_view(*installed_name)) {
            Some(f) => r.0 == Some(f.file_id) && opt_view(r.1) == opt_view(f.name),
            None => r.0 is None && r.1 is None,
        },
{
    let mut mains: Vec<usize> = Vec::new();
    let ghost mf = main_files(files@);
    for i in 0..files.len()
        invariant
            mains@.len() == main_files(files@.take(i as int)).len(),
            forall|k: int|
                0 <= k < mains@.len() ==> #[trigger] mains@[k] < files@.len() && files@[mains@[k] as int]
                    == main_files(files@.take(i as int))[k],
    {
        proof {
            reveal(Seq::filter);
            assert(files@.take(i + 1).drop_last() == files@.take(i as int));
            assert(files@.take(i + 1).last() == files@[i as int]);
        }
        if files[i].category_id == Some(1u32) {
            mains.push(i);
        }
    }
    assert(files@.take(files.len() as int) == files@);
    match installed_name {
        Some(n) => {
            let nv = chars_of(n.as_str());
            let mut j: usize = 0;
            while j < mains.len()
                invariant
                    nv@ == n@,
                    *installed_name == Some(*n),
                    j <= mains@.len(),
                    mains@.len() == mf.len(),
                    mf == main_files(files@),
                    forall|k: int|
                        0 <= k < mains@.len() ==> #[trigger] mains@[k] < files@.len()
                            && files@[mains@[k] as int] == mf[k],
                    first_matching(mf, n@) == (match first_matching(mf.skip(j as int), n@) {
                        Some(t) => Some(t + j),
                        None => None,
                    }),
                decreases mains@.len() - j,
            {
                let f = &files[mains[j]];
                assert(files@[mains@[j as int] as int] == mf[j as int]);
                let ghost rest = mf.skip(j as int);
                assert(rest[0] == mf[j as int]);
                assert(rest.drop_first() == mf.skip(j + 1));
                let hit = match &f.name {
                    Some(fname) => {
                        let fv = chars_of(fname.as_str());
                        let h = chars_eq_ignore_ascii_case(fv.as_slice(), nv.as_slice());
                        assert(h == eq_ignore_ascii_case(fname@, n@));
                        h
                    },
                    None => false,
                };
                assert(hit == name_matches(*f, n@));
                if hit {
                    assert(name_matches(mf[j as int], n@));
                    assert(first_matching(rest, n@) == Some(0int));
                    assert(first_matching(mf, n@) == Some(j as int));
                    assert(opt_view(*installed_name) == Some(n@));
                    assert(update_file_spec(files@, opt_view(*installed_name)) == Some(mf[j as int]));
                    return (Some(f.file_id), clone_opt(&f.name));
                } else {
                    assert(!name_matches(mf[j as int], n@));
                }
                j = j + 1;
            }
            assert(mf.skip(j as int).len() == 0);
        },
        None => {},
    }
    if mains.len() > 0 {
        let f = &files[mains[0]];
        assert(files@[mains@[0] as int] == mf[0]);
        (Some(f.file_id), clone_opt(&f.name))
    } else {
        (None, None)
    }
}

/// A copy of an optional string.
pub fn clone_opt(o: &Option<String>) -> (r: Option<String>)
    ensures
        opt_view(r) == opt_view(*o),
{
    match o {
        Some(s) => Some(s.clone()),
        None => None,
    }
}

/// The update status of one installed Nexus mod.
pub fn update_status(
    mod_name: String,
    mod_path: String,
    mod_id: u64,
    installed_version: Option<String>,
    latest_version: Option<String>,
    installed_file_name: &Option<String>,
    files: Option<&Vec<NexusApiFile>>,
) -> (r: ModUpdateStatus)
    ensures
        r.mod_name == mod_name,
        r.mod_path == mod_path,
        r.mod_id == Some(mod_id),
        r.installed_version == installed_version,
        r.latest_version == latest_version,
        r.has_update == has_update_spec(opt_view(installed_version), opt_view(latest_version)),
        !r.has_update || files is None ==> r.latest_file_id is None && r.latest_file_name is None,
        r.has_update && files is Some ==> match update_file_spec(
            files.unwrap()@,
            opt_view(*installed_file_name),
        ) {
            Some(f) => r.latest_file_id == Some(f.file_id) && opt_view(r.latest_file_name)
                == opt_view(f.name),
            None => r.latest_file_id is None && r.latest_file_name is None,
        },
{
    let upd = has_update(&installed_version, &latest_version);
    let (latest_file_id, latest_file_name) = if upd {
        match files {
            Some(fs) => pick_update_file(fs, installed_file_name),
            None => (None, None),
        }
    } else {
        (None, None)
    };
    ModUpdateStatus {
        mod_name,
        mod_path,
        has_update: upd,
        installed_version,
        latest_version,
        mod_id: Some(mod_id),
        latest_file_id,
        latest_file_name,
    }
}

// ---------------------------------------------------------------------------
// What the Nexus commands need from the configuration
// ---------------------------------------------------------------------------

/// The message when an `nxm://` link arrives before setup.
pub open spec fn nxm_no_config_message() -> Seq<char> {
    "No config \u{2014} please complete setup first"@
}

/// The mods folder that a download from an `nxm://` link installs into
/// (`process_nxm`), or why there is none: no configuration, or no mods
/// folder in it.
pub fn nxm_mods_folder(config: Option<&Config>) -> (r: Result<String, String>)
    ensures
        match config {
            None => r matches Err(e) && e@ == nxm_no_config_message(),
            Some(c) => match c.mods_folder {
                None => r matches Err(e) && e@ == "No mods folder configured"@,
                Some(m) => r matches Ok(f) && f@ == m@,
            },
        },
{
    match config {
        None => Err("No config \u{2014} please complete setup first".to_owned()),
        Some(c) => match &c.mods_folder {
            None => Err("No mods folder configured".to_owned()),
            Some(m) => Ok(m.clone()),
        },
    }
}

/// The mods folder that a direct install from Nexus installs into
/// (`install_nexus_mod`), or why there is none: no configuration, or no
/// mods folder in it.
pub fn direct_install_mods_folder(config: Option<&Config>) -> (r: Result<String, String>)
    ensures
        match config {
            None => r matches Err(e) && e@ == "No config"@,
            Some(c) => match c.mods_folder {
                None => r matches Err(e) && e@ == "No mods folder configured"@,
                Some(m) => r matches Ok(f) && f@ == m@,
            },
        },
{
    match config {
        None => Err("No config".to_owned()),
        Some(c) => match &c.mods_folder {
            None => Err("No mods folder configured".to_owned()),
            Some(m) => Ok(m.clone()),
        },
    }
}

/// The mods folder whose mods an update check looks at
/// (`check_mod_updates`); none, and so no statuses, without a
/// configuration or a mods folder.
pub fn update_check_mods_folder(config: Option<&Config>) -> (r: Option<String>)
    ensures
        opt_view(r) == match config {
            None => None,
            Some(c) => opt_view(c.mods_folder),
        },
{
    match config {
        None => None,
        Some(c) => match &c.mods_folder {
            None => None,
            Some(m) => Some(m.clone()),
        },
    }
}

/// A mod folder with the metadata read from it, if any.
#[derive(Debug)]
pub struct FolderMeta {
    pub name: String,
    pub path: String,
    pub meta: Option<ModMeta>,
}

/// Whether a folder's metadata marks a mod from Nexus with a known id.
pub open spec fn folder_tracked(f: FolderMeta) -> bool {
    f.meta matches Some(m) && m.source@ == "nexus"@ && m.mod_id is Some
}

/// The folders that an update check asks Nexus about, in folder order.
pub open spec fn tracked_folders(fs: Seq<FolderMeta>) -> Seq<FolderMeta> {
    fs.filter(|f: FolderMeta| folder_tracked(f))
}

/// Moves the tracked folders of `from` to the end of `out`, each under its
/// name with any `.disabled` endings removed when `trim` holds.
fn push_tracked(out: &mut Vec<FolderMeta>, from: Vec<FolderMeta>, trim: bool)
    ensures
        final(out)@.len() == old(out)@.len() + tracked_folders(from@).len(),
        forall|i: int| 0 <= i < old(out)@.len() ==> final(out)@[i] == old(out)@[i],
        forall|i: int|
            0 <= i < tracked_folders(from@).len() ==> {
                let f = #[trigger] final(out)@[old(out)@.len() + i];
                let g = tracked_folders(from@)[i];
                &&& f.name@ == (if trim { crate::diagnostics::trim_disabled(g.name@) } else { g.name@ })
                &&& f.path == g.path
                &&& f.meta == g.meta
            },
{
    let n0: usize = from.len();
    let ghost start = out@.len();
    let ghost orig = from@;
    assert(orig.len() == n0);
    let ghost o0 = out@;
    let mut rest = from;
    let mut i: usize = 0;
    while rest.len() > 0
        invariant
            i + rest@.len() == orig.len(),
            orig.len() <= usize::MAX,
            rest@ == orig.skip(i as int),
            out@.len() == start + tracked_folders(orig.take(i as int)).len(),
            start == o0.len(),
            forall|k: int| 0 <= k < start ==> out@[k] == o0[k],
            forall|k: int|
                0 <= k < tracked_folders(orig.take(i as int)).len() ==> {
                    let f = #[trigger] out@[start + k];
                    let g = tracked_folders(orig.take(i as int))[k];
                    &&& f.name@ == (if trim { crate::diagnostics::trim_disabled(g.name@) } else { g.name@ })
                    &&& f.path == g.path
                    &&& f.meta == g.meta
                },
        decreases rest@.len(),
    {
        let f = rest.remove(0);
        proof {
            reveal(Seq::filter);
            assert(f == orig[i as int]);
            assert(orig.take(i + 1).drop_last() =~= orig.take(i as int));
            assert(orig.take(i + 1).last() == orig[i as int]);
            assert(rest@ =~= orig.skip(i + 1));
        }
        let from_nexus = match &f.meta {
            Some(m) => is_tracked_nexus_mod(m),
            None => false,
        };
        if from_nexus {
            let name = if trim {
                crate::diagnostics::trim_disabled_suffix(f.name.as_str())
            } else {
                f.name
            };
            out.push(FolderMeta { name, path: f.path, meta: f.meta });
        }
        i = i + 1;
    }
    assert(orig.take(i as int) =~= orig);
}

/// The folders that an update check asks Nexus about: the tracked script
/// mod folders, then the tracked pak mod folders under their names with
/// `.disabled` removed, each in folder order.
pub fn tracked_nexus_mods(scripts: Vec<FolderMeta>, paks: Vec<FolderMeta>) -> (r: Vec<FolderMeta>)
    ensures
        r@.len() == tracked_folders(scripts@).len() + tracked_folders(paks@).len(),
        forall|i: int|
            0 <= i < tracked_folders(scripts@).len() ==> {
                let f = #[trigger] r@[i];
                let g = tracked_folders(scripts@)[i];
                &&& f.name@ == g.name@
                &&& f.path == g.path
                &&& f.meta == g.meta
            },
        forall|i: int|
            0 <= i < tracked_folders(paks@).len() ==> {
                let f = #[trigger] r@[tracked_folders(scripts@).len() + i];
                let g = tracked_folders(paks@)[i];
                &&& f.name@ == crate::diagnostics::trim_disabled(g.name@)
                &&& f.path == g.path
                &&& f.meta == g.meta
            },
{
    let mut out: Vec<FolderMeta> = Vec::new();
    push_tracked(&mut out, scripts, false);
    assert(forall|i: int| 0 <= i < tracked_folders(scripts@).len() ==> #[trigger] out@[i] == out@[0 + i]);
    push_tracked(&mut out, paks, true);
    out
}

/// Whether installed metadata marks a mod that came from Nexus with a known id.
pub fn is_tracked_nexus_mod(meta: &ModMeta) -> (r: bool)
    ensures
        r == (meta.source@ == "nexus"@ && meta.mod_id is Some),
{
    let s = chars_of(meta.source.as_str());
    crate::text::chars_eq_str(s.as_slice(), "nexus") && meta.mod_id.is_some()
}

/// The account that an API key belongs to, from the fields the validation
/// answer holds: not premium and no name when a field is missing.
pub fn user_info(is_premium: Option<bool>, name: Option<String>) -> (r: NexusUserInfo)
    ensures
        r.is_premium == (is_premium == Some(true)),
        r.username@ == (match name {
            Some(n) => n@,
            None => Seq::empty(),
        }),
{
    NexusUserInfo {
        is_premium: match is_premium {
            Some(b) => b,
            None => false,
        },
        username: match name {
            Some(n) => n,
            None => String::new(),
        },
    }
}


// ---------------------------------------------------------------------------
// The download and install flow
// ---------------------------------------------------------------------------

/// Whether a text is an `nxm://` link that the manager handles.
pub fn is_nxm_link(s: &str) -> (r: bool)
    ensures
        r == "nxm://"@.is_prefix_of(s@),
{
    let v = chars_of(s);
    starts_with_str(v.as_slice(), "nxm://")
}

/// The folder downloads are saved in: the configured one, else `downloads`
/// in the application's data folder.
pub open spec fn download_dir_spec(config: &Config, app_data: Seq<char>) -> Seq<char> {
    match config.download_dir {
        Some(d) => d@,
        None => join_spec(app_data, "downloads"@),
    }
}

/// The folder downloads are saved in.
pub fn download_dir(config: &Config, app_data: &str) -> (r: String)
    ensures
        r@ == download_dir_spec(config, app_data@),
{
    match &config.download_dir {
        Some(d) => d.clone(),
        None => {
            let v = chars_of(app_data);
            let p = join_path_str(v.as_slice(), "downloads");
            string_from(p.as_slice())
        },
    }
}

/// Where the backup named `name` is kept: in `backups` in the application's
/// data folder.
pub fn backup_dir(app_data: &str, name: &str) -> (r: String)
    ensures
        r@ == join_spec(join_spec(app_data@, "backups"@), name@),
{
    let v = chars_of(app_data);
    let b = join_path_str(v.as_slice(), "backups");
    let p = join_path_str(b.as_slice(), name);
    string_from(p.as_slice())
}

/// The first of the download links the API returned, or the message when
/// it returned none.
pub fn first_download_link(uris: Vec<String>) -> (r: Result<String, String>)
    ensures
        match r {
            Ok(u) => uris@.len() > 0 && u == uris@[0],
            Err(e) => uris@.len() == 0 && e@ == "No download links returned"@,
        },
{
    let mut uris = uris;
    if uris.len() == 0 {
        return Err("No download links returned".to_owned());
    }
    Ok(uris.remove(0))
}

/// The message when Nexus refuses a direct download (`install_nexus_mod`),
/// with the API's message or `unknown error`.
pub open spec fn direct_install_refused_spec(message: Option<Seq<char>>) -> Seq<char> {
    "Nexus requires a Premium account for direct installs ("@ + match message {
        Some(m) => m,
        None => "unknown error"@,
    } + "). Use the \"Mod Manager Download\" button on the Nexus website instead."@
}

/// The message when Nexus refuses a direct download.
pub fn direct_install_refused(message: Option<&str>) -> (r: String)
    ensures
        r@ == direct_install_refused_spec(
            match message {
                Some(m) => Some(m@),
                None => None,
            },
        ),
{
    let mut v = chars_of("Nexus requires a Premium account for direct installs (");
    match message {
        Some(m) => extend_str(&mut v, m),
        None => extend_str(&mut v, "unknown error"),
    }
    extend_str(&mut v, "). Use the \"Mod Manager Download\" button on the Nexus website instead.");
    string_from(v.as_slice())
}

/// The folder name to install a download under: the preferred name when
/// there is one, else the archive's suggested name.
pub fn install_folder_name(preferred: &Option<String>, suggested: &str) -> (r: String)
    ensures
        r@ == (match *preferred {
            Some(p) => p@,
            None => suggested@,
        }),
{
    match preferred {
        Some(p) => p.clone(),
        None => suggested.to_owned(),
    }
}

/// An archive's classification with the mod's name from Nexus, when the
/// API gave one: the name is then suggested and no longer asked for
/// (`peek_zip_name`).
pub fn with_nexus_name(info: ZipInfo, name: Option<String>) -> (r: ZipInfo)
    ensures
        match name {
            Some(n) => r.suggested_name == n && !r.needs_name_prompt,
            None => r.suggested_name == info.suggested_name && r.needs_name_prompt == info.needs_name_prompt,
        },
        r.install_type == info.install_type,
        r.nexus_mod_id == info.nexus_mod_id,
{
    match name {
        Some(n) => ZipInfo {
            suggested_name: n,
            install_type: info.install_type,
            needs_name_prompt: false,
            nexus_mod_id: info.nexus_mod_id,
        },
        None => info,
    }
}

/// The metadata recorded after installing a chosen file of a Nexus mod
/// (`install_nexus_mod`).
pub fn nexus_install_meta(
    mod_id: u64,
    file_id: u64,
    version: Option<String>,
    file_name: Option<String>,
    installed_at: u64,
    installed_files: Vec<String>,
    backup_path: Option<String>,
) -> (m: ModMeta)
    ensures
        m.source@ == "nexus"@,
        m.mod_id == Some(mod_id),
        m.file_id == Some(file_id),
        m.version == version,
        m.display_name is None,
        m.file_name == file_name,
        m.installed_at == installed_at,
        m.installed_files == Some(installed_files),
        m.backup_path == backup_path,
{
    ModMeta {
        source: "nexus".to_owned(),
        mod_id: Some(mod_id),
        file_id: Some(file_id),
        version,
        display_name: None,
        file_name,
        installed_at,
        installed_files: Some(installed_files),
        backup_path,
    }
}

/// The activity log message after installing a file of a Nexus mod.
pub fn nexus_install_log(installed: &str, mod_id: u64, file_id: u64) -> (r: String)
    ensures
        r@ == "Nexus install: "@ + installed@ + " (mod "@ + decimal(mod_id as nat) + ", file "@ + decimal(
            file_id as nat,
        ) + ")"@,
{
    let mut v = chars_of("Nexus install: ");
    extend_str(&mut v, installed);
    extend_str(&mut v, " (mod ");
    extend_decimal(&mut v, mod_id);
    extend_str(&mut v, ", file ");
    extend_decimal(&mut v, file_id);
    extend_str(&mut v, ")");
    string_from(v.as_slice())
}


/// With both versions known an update is shown exactly when the two
/// version texts differ, whatever they are; with either unknown, none is.
pub proof fn law_update_when_versions_differ(installed: Option<Seq<char>>, latest: Option<Seq<char>>)
    ensures
        (installed is Some && latest is Some) ==> (has_update_spec(installed, latest) <==> installed->0
            != latest->0),
        (installed is None || latest is None) ==> !has_update_spec(installed, latest),
        has_update_spec(installed, latest) == has_update_spec(latest, installed),
{
}

} // verus!
