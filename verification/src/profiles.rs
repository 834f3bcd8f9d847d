//! Profiles (saved sets of enabled script mods) and the account fields of
//! the configuration.
use vstd::prelude::*;
use crate::model::{AuthStatus, Config, Profile};
use crate::text::views;
use crate::scan::MarkedFolder;
use crate::mods::{toggle_view, ToggleAction};
use crate::paths::{join_path, join_path_str, join_spec};
use crate::text::chars_of;

verus! {

broadcast use vstd::seq_lib::group_seq_properties;

/// Profile names occur at most once.
pub open spec fn profiles_wf(ps: Seq<Profile>) -> bool {
    forall|i: int, j: int|
        0 <= i < ps.len() && 0 <= j < ps.len() && i != j ==> #[trigger] ps[i].name@
            != #[trigger] ps[j].name@
}

/// The profiles as a map from name to enabled mods.
pub open spec fn profile_map(ps: Seq<Profile>) -> Map<Seq<char>, Seq<Seq<char>>>
    decreases ps.len(),
{
    if ps.len() == 0 {
        Map::empty()
    } else {
        profile_map(ps.drop_last()).insert(ps.last().name@, views(ps.last().mods@))
    }
}

/// The saved profiles of a configuration (none when it has none).
pub open spec fn config_profiles(c: &Config) -> Map<Seq<char>, Seq<Seq<char>>> {
    match c.profiles {
        Some(ps) => profile_map(ps@),
        None => Map::empty(),
    }
}

/// The configuration's profile list is well formed.
pub open spec fn config_wf(c: &Config) -> bool {
    match c.profiles {
        Some(ps) => profiles_wf(ps@),
        None => true,
    }
}

/// The mods of a profile, or none when there is no such profile.
pub open spec fn profile_mods_spec(c: &Config, name: Seq<char>) -> Seq<Seq<char>> {
    if config_profiles(c).contains_key(name) {
        config_profiles(c)[name]
    } else {
        Seq::empty()
    }
}

/// The fields of a configuration that profile operations leave alone.
pub open spec fn same_settings(a: &Config, b: &Config) -> bool {
    &&& a.mods_folder == b.mods_folder
    &&& a.setup_complete == b.setup_complete
    &&& a.nexus_client_id == b.nexus_client_id
    &&& a.nexus_token == b.nexus_token
    &&& a.nexus_refresh_token == b.nexus_refresh_token
    &&& a.nexus_token_expiry == b.nexus_token_expiry
    &&& a.nexus_username == b.nexus_username
    &&& a.nexus_is_premium == b.nexus_is_premium
    &&& a.nexus_api_key == b.nexus_api_key
    &&& a.download_dir == b.download_dir
}

/// A map lookup in a well-formed list finds the entry with that name.
proof fn lemma_profile_map_index(ps: Seq<Profile>, i: int)
    requires
        profiles_wf(ps),
        0 <= i < ps.len(),
    ensures
        profile_map(ps).contains_key(ps[i].name@),
        profile_map(ps)[ps[i].name@] == views(ps[i].mods@),
    decreases ps.len(),
{
    if i < ps.len() - 1 {
        let q = ps.drop_last();
        assert(profiles_wf(q)) by {
            assert forall|a: int, b: int|
                0 <= a < q.len() && 0 <= b < q.len() && a != b implies #[trigger] q[a].name@
                != #[trigger] q[b].name@ by {
                assert(q[a] == ps[a] && q[b] == ps[b]);
            }
        }
        assert(q[i] == ps[i]);
        lemma_profile_map_index(q, i);
        assert(ps[i].name@ != ps[ps.len() - 1].name@);
    }
}

/// A name that no profile has is not in the map.
proof fn lemma_profile_map_absent(ps: Seq<Profile>, name: Seq<char>)
    requires
        forall|i: int| 0 <= i < ps.len() ==> (#[trigger] ps[i]).name@ != name,
    ensures
        !profile_map(ps).contains_key(name),
    decreases ps.len(),
{
    if ps.len() > 0 {
        let q = ps.drop_last();
        assert forall|i: int| 0 <= i < q.len() implies (#[trigger] q[i]).name@ != name by {
            assert(q[i] == ps[i]);
        }
        lemma_profile_map_absent(q, name);
        assert(ps[ps.len() - 1] == ps.last());
    }
}

/// Every key of the map is the name of a profile.
proof fn lemma_profile_map_keys(ps: Seq<Profile>, name: Seq<char>)
    requires
        profile_map(ps).contains_key(name),
    ensures
        exists|i: int| 0 <= i < ps.len() && (#[trigger] ps[i]).name@ == name,
    decreases ps.len(),
{
    if ps.len() > 0 {
        let q = ps.drop_last();
        if name == ps.last().name@ {
            assert(ps[ps.len() - 1].name@ == name);
        } else {
            lemma_profile_map_keys(q, name);
            let i = choose|i: int| 0 <= i < q.len() && (#[trigger] q[i]).name@ == name;
            assert(ps[i] == q[i]);
        }
    }
}

/// A copy of a list of strings.
pub fn clone_strings(v: &Vec<String>) -> (r: Vec<String>)
    ensures
        views(r@) == views(v@),
{
    let mut r: Vec<String> = Vec::new();
    for i in 0..v.len()
        invariant
            views(r@) == views(v@.take(i as int)),
    {
        let ghost r0 = r@;
        let s = v[i].clone();
        assert(s@ == v@[i as int]@);
        r.push(s);
        assert(r@ == r0.push(s));
        assert(views(r@) =~= views(r0).push(s@));
        assert(v@.take(i + 1) == v@.take(i as int).push(v@[i as int]));
        assert(views(v@.take(i + 1)) =~= views(v@.take(i as int)).push(v@[i as int]@));
    }
    assert(v@.take(v.len() as int) == v@);
    r
}

/// The position of the profile with this name.
fn find_profile(ps: &Vec<Profile>, name: &str) -> (r: Option<usize>)
    requires
        profiles_wf(ps@),
    ensures
        match r {
            Some(i) => i < ps@.len() && ps@[i as int].name@ == name@,
            None => forall|i: int| 0 <= i < ps@.len() ==> (#[trigger] ps@[i]).name@ != name@,
        },
{
    let n = name.to_owned();
    for i in 0..ps.len()
        invariant
            n@ == name@,
            forall|j: int| 0 <= j < i ==> (#[trigger] ps@[j]).name@ != name@,
    {
        if ps[i].name == n {
            return Some(i);
        }
    }
    None
}

/// The mods of the profile with this name, or none (`export_profile` and
/// `switch_profile` read them so).
pub fn profile_mods(config: &Config, name: &str) -> (r: Vec<String>)
    requires
        config_wf(config),
    ensures
        views(r@) == profile_mods_spec(config, name@),
{
    match &config.profiles {
        Some(ps) => match find_profile(ps, name) {
            Some(i) => {
                proof {
                    lemma_profile_map_index(ps@, i as int);
                }
                clone_strings(&ps[i].mods)
            },
            None => {
                proof {
                    lemma_profile_map_absent(ps@, name@);
                }
                Vec::new()
            },
        },
        None => Vec::new(),
    }
}

/// Sets the mods of the profile with this name, adding it when there is none.
fn put_profile(ps: &mut Vec<Profile>, name: String, mods: Vec<String>)
    requires
        profiles_wf(old(ps)@),
    ensures
        profiles_wf(final(ps)@),
        profile_map(final(ps)@) == profile_map(old(ps)@).insert(name@, views(mods@)),
{
    let ghost name_v = name@;
    let ghost mods_v = views(mods@);
    match find_profile(ps, name.as_str()) {
        Some(i) => {
            let ghost old_ps = ps@;
            let p = Profile { name, mods };
            ps.set(i, p);
            proof {
                lemma_profile_map_index(old_ps, i as int);
                lemma_wf_update(old_ps, i as int, p);
                assert forall|k: Seq<char>| #[trigger]
                    profile_map(ps@).contains_key(k) == profile_map(old_ps).insert(
                        name_v,
                        mods_v,
                    ).contains_key(k) by {
                    lemma_map_membership(old_ps, ps@, i as int, k);
                }
                assert forall|k: Seq<char>| #[trigger]
                    profile_map(ps@).contains_key(k) implies profile_map(ps@)[k] == profile_map(
                    old_ps,
                ).insert(name_v, mods_v)[k] by {
                    lemma_map_membership(old_ps, ps@, i as int, k);
                }
                assert(profile_map(ps@) =~= profile_map(old_ps).insert(name_v, mods_v));
            }
        },
        None => {
            let ghost old_ps = ps@;
            ps.push(Profile { name, mods });
            proof {
                assert(ps@.drop_last() == old_ps);
                assert forall|a: int, b: int|
                    0 <= a < ps@.len() && 0 <= b < ps@.len() && a != b implies #[trigger] ps@[a].name@
                    != #[trigger] ps@[b].name@ by {
                    if a < old_ps.len() && b < old_ps.len() {
                        assert(ps@[a] == old_ps[a] && ps@[b] == old_ps[b]);
                    } else if a < old_ps.len() {
                        assert(ps@[a] == old_ps[a]);
                    } else {
                        assert(ps@[b] == old_ps[b]);
                    }
                }
            }
        },
    }
}

proof fn lemma_wf_update(ps: Seq<Profile>, i: int, p: Profile)
    requires
        profiles_wf(ps),
        0 <= i < ps.len(),
        p.name@ == ps[i].name@,
    ensures
        profiles_wf(ps.update(i, p)),
{
    let q = ps.update(i, p);
    assert forall|a: int, b: int|
        0 <= a < q.len() && 0 <= b < q.len() && a != b implies #[trigger] q[a].name@
        != #[trigger] q[b].name@ by {
        assert(q[a].name@ == ps[a].name@);
        assert(q[b].name@ == ps[b].name@);
    }
}

/// Replacing one profile by another of the same name changes only that entry.
proof fn lemma_map_membership(ps: Seq<Profile>, qs: Seq<Profile>, i: int, k: Seq<char>)
    requires
        profiles_wf(ps),
        0 <= i < ps.len(),
        qs.len() == ps.len(),
        qs[i].name@ == ps[i].name@,
        forall|j: int| 0 <= j < ps.len() && j != i ==> qs[j] == ps[j],
    ensures
        profile_map(qs).contains_key(k) == profile_map(ps).contains_key(k),
        profile_map(qs).contains_key(k) ==> profile_map(qs)[k] == (if k == ps[i].name@ {
            views(qs[i].mods@)
        } else {
            profile_map(ps)[k]
        }),
{
    assert(profiles_wf(qs)) by {
        assert forall|a: int, b: int|
            0 <= a < qs.len() && 0 <= b < qs.len() && a != b implies #[trigger] qs[a].name@
            != #[trigger] qs[b].name@ by {
            assert(qs[a].name@ == ps[a].name@);
            assert(qs[b].name@ == ps[b].name@);
        }
    }
    if profile_map(ps).contains_key(k) {
        lemma_profile_map_keys(ps, k);
        let j = choose|j: int| 0 <= j < ps.len() && (#[trigger] ps[j]).name@ == k;
        lemma_profile_map_index(ps, j);
        lemma_profile_map_index(qs, j);
    }
    if profile_map(qs).contains_key(k) {
        lemma_profile_map_keys(qs, k);
        let j = choose|j: int| 0 <= j < qs.len() && (#[trigger] qs[j]).name@ == k;
        lemma_profile_map_index(ps, j);
        lemma_profile_map_index(qs, j);
    }
}

/// Records the mods that are enabled now as the named profile, and makes it
/// the active one (`save_profile`).
pub fn save_profile(config: &mut Config, profile_name: String, enabled: Vec<String>)
    requires
        config_wf(old(config)),
    ensures
        config_wf(final(config)),
        config_profiles(final(config)) == config_profiles(old(config)).insert(
            profile_name@,
            views(enabled@),
        ),
        final(config).profiles is Some,
        final(config).active_profile == Some(profile_name),
        same_settings(final(config), old(config)),
{
    let active = profile_name.clone();
    let mut ps = match config.profiles.take() {
        Some(ps) => ps,
        None => Vec::new(),
    };
    put_profile(&mut ps, profile_name, enabled);
    config.profiles = Some(ps);
    config.active_profile = Some(active);
}

/// Stores an imported profile under its name (`import_profile`).
pub fn import_profile(config: &mut Config, profile_name: String, mods: Vec<String>)
    requires
        config_wf(old(config)),
    ensures
        config_wf(final(config)),
        config_profiles(final(config)) == config_profiles(old(config)).insert(
            profile_name@,
            views(mods@),
        ),
        final(config).profiles is Some,
        final(config).active_profile == old(config).active_profile,
        same_settings(final(config), old(config)),
{
    let mut ps = match config.profiles.take() {
        Some(ps) => ps,
        None => Vec::new(),
    };
    put_profile(&mut ps, profile_name, mods);
    config.profiles = Some(ps);
}

/// Removes the named profile; when it was the active one, no profile is
/// active any more (`delete_profile`).
pub fn delete_profile(config: &mut Config, profile_name: &str)
    requires
        config_wf(old(config)),
    ensures
        config_wf(final(config)),
        config_profiles(final(config)) == config_profiles(old(config)).remove(profile_name@),
        final(config).profiles is Some,
        final(config).active_profile == (if old(config).active_profile matches Some(a) && a@
            == profile_name@ {
            None
        } else {
            old(config).active_profile
        }),
        same_settings(final(config), old(config)),
{
    let mut ps = match config.profiles.take() {
        Some(ps) => ps,
        None => Vec::new(),
    };
    let ghost old_map = profile_map(ps@);
    match find_profile(&ps, profile_name) {
        Some(i) => {
            let ghost old_ps = ps@;
            ps.remove(i);
            proof {
                lemma_remove_profile(old_ps, i as int);
            }
        },
        None => {
            proof {
                lemma_profile_map_absent(ps@, profile_name@);
                assert(old_map.remove(profile_name@) =~= old_map);
            }
        },
    }
    config.profiles = Some(ps);
    let clear = match &config.active_profile {
        Some(a) => {
            let n = profile_name.to_owned();
            *a == n
        },
        None => false,
    };
    if clear {
        config.active_profile = None;
    }
}

proof fn lemma_remove_profile(ps: Seq<Profile>, i: int)
    requires
        profiles_wf(ps),
        0 <= i < ps.len(),
    ensures
        profiles_wf(ps.remove(i)),
        profile_map(ps.remove(i)) == profile_map(ps).remove(ps[i].name@),
{
    let q = ps.remove(i);
    let name = ps[i].name@;
    assert forall|a: int, b: int|
        0 <= a < q.len() && 0 <= b < q.len() && a != b implies #[trigger] q[a].name@
        != #[trigger] q[b].name@ by {
        let a2 = if a < i {
            a
        } else {
            a + 1
        };
        let b2 = if b < i {
            b
        } else {
            b + 1
        };
        assert(q[a] == ps[a2] && q[b] == ps[b2]);
    }
    assert forall|k: Seq<char>| #[trigger]
        profile_map(q).contains_key(k) == profile_map(ps).remove(name).contains_key(k) by {
        if profile_map(q).contains_key(k) {
            lemma_profile_map_keys(q, k);
            let j = choose|j: int| 0 <= j < q.len() && (#[trigger] q[j]).name@ == k;
            let j2 = if j < i {
                j
            } else {
                j + 1
            };
            assert(q[j] == ps[j2]);
            lemma_profile_map_index(ps, j2);
        }
        if profile_map(ps).remove(name).contains_key(k) {
            lemma_profile_map_keys(ps, k);
            let j = choose|j: int| 0 <= j < ps.len() && (#[trigger] ps[j]).name@ == k;
            let j2 = if j < i {
                j
            } else {
                j - 1
            };
            assert(j != i);
            assert(q[j2] == ps[j]);
            lemma_profile_map_index(q, j2);
        }
    }
    assert forall|k: Seq<char>| #[trigger]
        profile_map(q).contains_key(k) implies profile_map(q)[k] == profile_map(ps).remove(
        name,
    )[k] by {
        lemma_profile_map_keys(q, k);
        let j = choose|j: int| 0 <= j < q.len() && (#[trigger] q[j]).name@ == k;
        let j2 = if j < i {
            j
        } else {
            j + 1
        };
        assert(q[j] == ps[j2]);
        lemma_profile_map_index(ps, j2);
        lemma_profile_map_index(q, j);
    }
    assert(profile_map(q) =~= profile_map(ps).remove(name));
}

/// The names of the script mods to enable for the named profile, with the
/// profile made the active one (`switch_profile`); an unknown profile
/// enables nothing.
pub fn switch_profile(config: &mut Config, profile_name: String) -> (enabled: Vec<String>)
    requires
        config_wf(old(config)),
    ensures
        views(enabled@) == profile_mods_spec(old(config), profile_name@),
        config_wf(final(config)),
        config_profiles(final(config)) == config_profiles(old(config)),
        final(config).profiles is Some,
        final(config).active_profile == Some(profile_name),
        same_settings(final(config), old(config)),
{
    let enabled = profile_mods(config, profile_name.as_str());
    if config.profiles.is_none() {
        config.profiles = Some(Vec::new());
    }
    config.active_profile = Some(profile_name);
    enabled
}

/// The mods of a profile with one mod taken out.
pub open spec fn without_mod(mods: Seq<Seq<char>>, mod_name: Seq<char>) -> Seq<Seq<char>> {
    mods.filter(|m: Seq<char>| m != mod_name)
}

/// The mod list without `mod_name`, order kept.
fn retain_other_mods(mods: &Vec<String>, mod_name: &str) -> (r: Vec<String>)
    ensures
        views(r@) == without_mod(views(mods@), mod_name@),
{
    let n = mod_name.to_owned();
    let ghost mv = views(mods@);
    let mut r: Vec<String> = Vec::new();
    for i in 0..mods.len()
        invariant
            n@ == mod_name@,
            mv == views(mods@),
            views(r@) == without_mod(mv.take(i as int), mod_name@),
    {
        proof {
            reveal(Seq::filter);
            assert(mv.take(i + 1).drop_last() == mv.take(i as int));
            assert(mv.take(i + 1).last() == mods@[i as int]@);
        }
        let ghost r0 = views(r@);
        if mods[i] != n {
            let m = mods[i].clone();
            r.push(m);
            assert(views(r@) =~= r0.push(mods@[i as int]@));
        }
    }
    assert(mv.take(mods.len() as int) == mv);
    r
}

/// Takes an uninstalled mod out of every profile (`uninstall_mod`).
pub fn remove_mod_from_profiles(config: &mut Config, mod_name: &str)
    requires
        config_wf(old(config)),
    ensures
        config_wf(final(config)),
        config_profiles(final(config)).dom() == config_profiles(old(config)).dom(),
        forall|k: Seq<char>| #[trigger]
            config_profiles(final(config)).contains_key(k) ==> config_profiles(final(config))[k]
                == without_mod(config_profiles(old(config))[k], mod_name@),
        final(config).profiles is Some <==> old(config).profiles is Some,
        final(config).active_profile == old(config).active_profile,
        same_settings(final(config), old(config)),
{
    let ps = match config.profiles.take() {
        Some(ps) => ps,
        None => return,
    };
    let mut out: Vec<Profile> = Vec::new();
    for i in 0..ps.len()
        invariant
            profiles_wf(ps@),
            out@.len() == i,
            forall|j: int| 0 <= j < i ==> (#[trigger] out@[j]).name@ == ps@[j].name@,
            forall|j: int|
                0 <= j < i ==> views((#[trigger] out@[j]).mods@) == without_mod(
                    views(ps@[j].mods@),
                    mod_name@,
                ),
    {
        let mods = retain_other_mods(&ps[i].mods, mod_name);
        let name = ps[i].name.clone();
        out.push(Profile { name, mods });
    }
    proof {
        assert(profiles_wf(out@)) by {
            assert forall|a: int, b: int|
                0 <= a < out@.len() && 0 <= b < out@.len() && a != b implies #[trigger] out@[a].name@
                != #[trigger] out@[b].name@ by {
                assert(out@[a].name@ == ps@[a].name@);
                assert(out@[b].name@ == ps@[b].name@);
            }
        }
        assert forall|k: Seq<char>| #[trigger]
            profile_map(out@).contains_key(k) == profile_map(ps@).contains_key(k) by {
            if profile_map(out@).contains_key(k) {
                lemma_profile_map_keys(out@, k);
                let j = choose|j: int| 0 <= j < out@.len() && (#[trigger] out@[j]).name@ == k;
                lemma_profile_map_index(ps@, j);
            }
            if profile_map(ps@).contains_key(k) {
                lemma_profile_map_keys(ps@, k);
                let j = choose|j: int| 0 <= j < ps@.len() && (#[trigger] ps@[j]).name@ == k;
                lemma_profile_map_index(out@, j);
            }
        }
        assert forall|k: Seq<char>| #[trigger]
            profile_map(out@).contains_key(k) implies profile_map(out@)[k] == without_mod(
            profile_map(ps@)[k],
            mod_name@,
        ) by {
            lemma_profile_map_keys(out@, k);
            let j = choose|j: int| 0 <= j < out@.len() && (#[trigger] out@[j]).name@ == k;
            lemma_profile_map_index(ps@, j);
            lemma_profile_map_index(out@, j);
        }
        assert(profile_map(out@).dom() =~= profile_map(ps@).dom());
    }
    config.profiles = Some(out);
}

/// The configuration with the Nexus sign-in forgotten (`nexus_oauth_logout`).
pub fn sign_out(config: &mut Config)
    ensures
        final(config).nexus_token is None,
        final(config).nexus_refresh_token is None,
        final(config).nexus_token_expiry is None,
        final(config).nexus_username is None,
        final(config).nexus_is_premium is None,
        final(config).mods_folder == old(config).mods_folder,
        final(config).setup_complete == old(config).setup_complete,
        final(config).nexus_client_id == old(config).nexus_client_id,
        final(config).nexus_api_key == old(config).nexus_api_key,
        final(config).profiles == old(config).profiles,
        final(config).active_profile == old(config).active_profile,
        final(config).download_dir == old(config).download_dir,
{
    config.nexus_token = None;
    config.nexus_refresh_token = None;
    config.nexus_token_expiry = None;
    config.nexus_username = None;
    config.nexus_is_premium = None;
}

/// Whether the user is signed in, read from the configuration if there is
/// one (`nexus_get_auth_status`): signed in exactly when a token is stored.
pub fn auth_status(config: Option<&Config>) -> (r: AuthStatus)
    ensures
        match config {
            Some(c) => if c.nexus_token is Some {
                &&& r.signed_in
                &&& r.username == c.nexus_username
                &&& r.is_premium == (c.nexus_is_premium == Some(true))
            } else {
                !r.signed_in && r.username is None && !r.is_premium
            },
            None => !r.signed_in && r.username is None && !r.is_premium,
        },
{
    match config {
        Some(c) => {
            if c.nexus_token.is_some() {
                AuthStatus {
                    signed_in: true,
                    username: c.nexus_username.clone(),
                    is_premium: match c.nexus_is_premium {
                        Some(b) => b,
                        None => false,
                    },
                }
            } else {
                AuthStatus { signed_in: false, username: None, is_premium: false }
            }
        },
        None => AuthStatus { signed_in: false, username: None, is_premium: false },
    }
}

// ---------------------------------------------------------------------------
// Laws
// ---------------------------------------------------------------------------

/// After a profile is saved (or imported), reading it gives the mods that
/// were stored, and every other profile reads as before.
pub proof fn law_profile_store_then_read(
    before: &Config,
    after: &Config,
    name: Seq<char>,
    mods: Seq<Seq<char>>,
    other: Seq<char>,
)
    requires
        config_profiles(after) == config_profiles(before).insert(name, mods),
    ensures
        profile_mods_spec(after, name) == mods,
        other != name ==> profile_mods_spec(after, other) == profile_mods_spec(before, other),
{
}

/// After a profile is deleted it reads as empty, and every other profile
/// reads as before.
pub proof fn law_profile_delete_then_read(
    before: &Config,
    after: &Config,
    name: Seq<char>,
    other: Seq<char>,
)
    requires
        config_profiles(after) == config_profiles(before).remove(name),
    ensures
        profile_mods_spec(after, name) == Seq::<Seq<char>>::empty(),
        other != name ==> profile_mods_spec(after, other) == profile_mods_spec(before, other),
{
}

/// After a mod is uninstalled, no profile names it, and each profile keeps
/// its other mods in order.
pub proof fn law_uninstalled_mod_leaves_profiles(
    before: &Config,
    after: &Config,
    mod_name: Seq<char>,
    profile: Seq<char>,
)
    requires
        config_profiles(after).dom() == config_profiles(before).dom(),
        forall|k: Seq<char>| #[trigger]
            config_profiles(after).contains_key(k) ==> config_profiles(after)[k] == without_mod(
                config_profiles(before)[k],
                mod_name,
            ),
    ensures
        !profile_mods_spec(after, profile).contains(mod_name),
        profile_mods_spec(after, profile) == without_mod(
            profile_mods_spec(before, profile),
            mod_name,
        ),
{
    broadcast use vstd::seq_lib::group_filter_ensures;
    if config_profiles(after).contains_key(profile) {
        assert(config_profiles(before).contains_key(profile));
        let f = |m: Seq<char>| m != mod_name;
        if profile_mods_spec(after, profile).contains(mod_name) {
            let mods = config_profiles(before)[profile];
            let i = choose|i: int|
                0 <= i < mods.filter(f).len() && mods.filter(f)[i] == mod_name;
            mods.lemma_filter_pred(f, i);
        }
    } else {
        assert(!config_profiles(before).contains_key(profile));
        reveal(Seq::filter);
    }
}


// ---------------------------------------------------------------------------
// Markers and profiles
// ---------------------------------------------------------------------------

/// The names of the script mods whose marker is present, in folder order.
pub open spec fn enabled_names_spec(folders: Seq<MarkedFolder>) -> Seq<Seq<char>> {
    folders.filter(|f: MarkedFolder| f.marker_present).map_values(|f: MarkedFolder| f.name@)
}

/// The names of the script mods that are enabled (`save_profile`), in
/// folder order.
pub fn enabled_mod_names(folders: &Vec<MarkedFolder>) -> (r: Vec<String>)
    ensures
        views(r@) == enabled_names_spec(folders@),
{
    let mut out: Vec<String> = Vec::new();
    for i in 0..folders.len()
        invariant
            views(out@) == folders@.take(i as int).filter(|f: MarkedFolder| f.marker_present).map_values(
                |f: MarkedFolder| f.name@,
            ),
    {
        proof {
            reveal(Seq::filter);
            assert(folders@.take(i + 1).drop_last() == folders@.take(i as int));
            assert(folders@.take(i + 1).last() == folders@[i as int]);
        }
        let ghost o0 = views(out@);
        if folders[i].marker_present {
            out.push(folders[i].name.clone());
            assert(views(out@) =~= o0.push(folders@[i as int].name@));
        }
    }
    assert(folders@.take(folders.len() as int) == folders@);
    out
}

/// What switching profiles does to the script mod `name` in the mods
/// folder: its marker is written when the profile holds it, else removed.
pub open spec fn profile_marker_spec(mods_folder: Seq<char>, name: Seq<char>, profile: Seq<Seq<char>>) -> (
    u8,
    Seq<char>,
    Seq<char>,
) {
    let marker = join_spec(join_spec(mods_folder, name), "enabled.txt"@);
    if profile.contains(name) {
        (1u8, marker, Seq::empty())
    } else {
        (2u8, marker, Seq::empty())
    }
}

/// Whether a list of names holds `x`.
fn names_contain(v: &Vec<String>, x: &str) -> (r: bool)
    ensures
        r == views(v@).contains(x@),
{
    let xs = x.to_owned();
    for i in 0..v.len()
        invariant
            xs@ == x@,
            forall|k: int| 0 <= k < i ==> v@[k]@ != x@,
    {
        if v[i] == xs {
            assert(views(v@)[i as int] == x@);
            return true;
        }
    }
    proof {
        if views(v@).contains(x@) {
            let k = choose|k: int| 0 <= k < views(v@).len() && views(v@)[k] == x@;
            assert(v@[k]@ == x@);
        }
    }
    false
}

/// What switching to a profile that enables `profile` does to the script
/// mod `name` (`switch_profile`).
pub fn profile_marker_action(mods_folder: &str, name: &str, profile: &Vec<String>) -> (r: ToggleAction)
    ensures
        toggle_view(r) == profile_marker_spec(mods_folder@, name@, views(profile@)),
{
    let m = chars_of(mods_folder);
    let n = chars_of(name);
    let d = join_path(m.as_slice(), n.as_slice());
    let marker = join_path_str(d.as_slice(), "enabled.txt");
    let p = crate::text::string_from(marker.as_slice());
    if names_contain(profile, name) {
        ToggleAction::WriteMarker(p)
    } else {
        ToggleAction::RemoveMarker(p)
    }
}

/// The script mod folders once the markers that switching writes and
/// removes are in place.
pub open spec fn after_switch(folders: Seq<MarkedFolder>, profile: Seq<Seq<char>>, mods_folder: Seq<char>) -> Seq<
    MarkedFolder,
> {
    folders.map_values(
        |f: MarkedFolder|
            MarkedFolder {
                name: f.name,
                marker_present: profile_marker_spec(mods_folder, f.name@, profile).0 == 1u8,
            },
    )
}

/// Switching to a profile and then saving the enabled mods records the
/// profile's mods that are installed, in folder order: a profile survives
/// a switch and a save, but for mods no longer installed.
pub proof fn law_switch_then_save(folders: Seq<MarkedFolder>, profile: Seq<Seq<char>>, mods_folder: Seq<char>)
    ensures
        enabled_names_spec(after_switch(folders, profile, mods_folder)) == folders.map_values(
            |f: MarkedFolder| f.name@,
        ).filter(|n: Seq<char>| profile.contains(n)),
    decreases folders.len(),
{
    reveal(Seq::filter);
    if folders.len() > 0 {
        let init = folders.drop_last();
        law_switch_then_save(init, profile, mods_folder);
        assert(after_switch(folders, profile, mods_folder).drop_last() =~= after_switch(init, profile, mods_folder));
        assert(folders.map_values(|f: MarkedFolder| f.name@).drop_last() =~= init.map_values(
            |f: MarkedFolder| f.name@,
        ));
    } else {
        assert(after_switch(folders, profile, mods_folder) =~= Seq::<MarkedFolder>::empty());
        assert(folders.map_values(|f: MarkedFolder| f.name@) =~= Seq::<Seq<char>>::empty());
    }
}


/// A name is among the enabled names exactly when some folder of that name
/// has its marker.
proof fn lemma_enabled_names_contains(folders: Seq<MarkedFolder>, n: Seq<char>)
    ensures
        enabled_names_spec(folders).contains(n) <==> exists|i: int|
            0 <= i < folders.len() && (#[trigger] folders[i]).marker_present && folders[i].name@ == n,
    decreases folders.len(),
{
    reveal(Seq::filter);
    if folders.len() > 0 {
        let init = folders.drop_last();
        let last = folders.last();
        lemma_enabled_names_contains(init, n);
        let fi = init.filter(|f: MarkedFolder| f.marker_present);
        let ei = enabled_names_spec(init);
        let e = enabled_names_spec(folders);
        if last.marker_present {
            assert(folders.filter(|f: MarkedFolder| f.marker_present) == fi.push(last));
            assert(e =~= ei.push(last.name@));
        } else {
            assert(folders.filter(|f: MarkedFolder| f.marker_present) == fi);
            assert(e == ei);
        }
        if exists|i: int| 0 <= i < folders.len() && (#[trigger] folders[i]).marker_present && folders[i].name@ == n {
            let i = choose|i: int| 0 <= i < folders.len() && (#[trigger] folders[i]).marker_present && folders[i].name@ == n;
            if i < init.len() {
                assert(init[i] == folders[i]);
            } else {
                assert(e.last() == n);
            }
        }
        if e.contains(n) {
            let k = choose|k: int| 0 <= k < e.len() && e[k] == n;
            if k < ei.len() {
                assert(ei[k] == n);
                let i = choose|i: int| 0 <= i < init.len() && (#[trigger] init[i]).marker_present && init[i].name@ == n;
                assert(folders[i] == init[i]);
            } else {
                assert(folders[folders.len() - 1] == last);
            }
        }
    }
}

/// Switching to a saved profile restores exactly the set of mods that were
/// enabled when it was saved: where the profile still holds the names that
/// were enabled then, and the mods folder holds the same script mod folders
/// (whatever their markers became since), after the switch each folder has
/// its marker exactly when it had one at saving time.
pub proof fn law_switch_restores_saved(
    config: &Config,
    name: Seq<char>,
    saved: Seq<MarkedFolder>,
    now: Seq<MarkedFolder>,
    mods_folder: Seq<char>,
)
    requires
        config_profiles(config).contains_key(name),
        config_profiles(config)[name] == enabled_names_spec(saved),
        now.len() == saved.len(),
        forall|j: int| 0 <= j < now.len() ==> (#[trigger] now[j]).name@ == saved[j].name@,
        forall|i: int, j: int|
            0 <= i < saved.len() && 0 <= j < saved.len() && i != j ==> (#[trigger] saved[i]).name@
                != (#[trigger] saved[j]).name@,
    ensures
        after_switch(now, profile_mods_spec(config, name), mods_folder).len() == now.len(),
        forall|j: int|
            0 <= j < now.len() ==> (#[trigger] after_switch(now, profile_mods_spec(config, name), mods_folder)[j]).name
                == now[j].name && after_switch(now, profile_mods_spec(config, name), mods_folder)[j].marker_present
                == saved[j].marker_present,
{
    let p = profile_mods_spec(config, name);
    let r = after_switch(now, p, mods_folder);
    assert(p == enabled_names_spec(saved));
    assert forall|j: int| 0 <= j < now.len() implies (#[trigger] r[j]).name == now[j].name
        && r[j].marker_present == saved[j].marker_present by {
        lemma_enabled_names_contains(saved, now[j].name@);
        assert(r[j].marker_present == p.contains(now[j].name@));
        if saved[j].marker_present {
            assert(saved[j].name@ == now[j].name@);
        }
        if p.contains(now[j].name@) {
            let i = choose|i: int| 0 <= i < saved.len() && (#[trigger] saved[i]).marker_present && saved[i].name@ == now[j].name@;
            assert(i == j);
        }
    }
}

/// A profile file's fields as read: its `profile` when that is text, and
/// its `mods` when that is a list (each item's text, or `None` for an item
/// that is not text).
#[derive(Debug)]
pub struct ProfileFile {
    pub profile: Option<String>,
    pub mods: Option<Vec<Option<String>>>,
}

/// The texts among the items of a list, in order.
pub open spec fn text_items(items: Seq<Option<String>>) -> Seq<Seq<char>> {
    items.filter(|x: Option<String>| x is Some).map_values(|x: Option<String>| x->0@)
}

/// The profile an imported file holds (`import_profile`): its name and the
/// text items of its mod list; `Invalid profile file` when the name is not
/// text or the mods are not a list.
pub fn imported_profile(file: ProfileFile) -> (r: Result<(String, Vec<String>), String>)
    ensures
        match r {
            Ok((name, mods)) => file.profile == Some(name) && (file.mods matches Some(items)
                && views(mods@) == text_items(items@)),
            Err(e) => (file.profile is None || file.mods is None) && e@ == "Invalid profile file"@,
        },
{
    let name = match file.profile {
        Some(n) => n,
        None => return Err("Invalid profile file".to_owned()),
    };
    let items = match file.mods {
        Some(items) => items,
        None => return Err("Invalid profile file".to_owned()),
    };
    let mut mods: Vec<String> = Vec::new();
    for i in 0..items.len()
        invariant
            views(mods@) == items@.take(i as int).filter(|x: Option<String>| x is Some).map_values(
                |x: Option<String>| x->0@,
            ),
    {
        proof {
            reveal(Seq::filter);
            assert(items@.take(i + 1).drop_last() == items@.take(i as int));
            assert(items@.take(i + 1).last() == items@[i as int]);
        }
        let ghost m0 = views(mods@);
        match &items[i] {
            Some(t) => {
                mods.push(t.clone());
                assert(views(mods@) =~= m0.push(items@[i as int]->0@));
            },
            None => {},
        }
    }
    assert(items@.take(items.len() as int) == items@);
    Ok((name, mods))
}

} // verus!
