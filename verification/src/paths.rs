//! Paths as text, as Windows reads them. A path is a string whose pieces
//! are separated by `/` or `\`, after an optional drive prefix (`C:`). Its
//! named components are the pieces that are neither empty nor `.`, as
//! `Path::components` normalizes them; the drive prefix and a root or
//! leading `.` come before them where `Path::components` lists them.
//! Joining writes `\`, as `Path::join` does on Windows.
use vstd::prelude::*;
use crate::text::{
    chars_of, extend_chars, lemma_split_nonempty, replace_char, replace_chars, split_chars,
    split_spec, sub_chars,
};

verus! {

broadcast use vstd::seq_lib::group_seq_properties;

/// A path separator.
pub open spec fn is_sep(c: char) -> bool {
    c == '/' || c == '\\'
}

/// The path with every `\` written as `/`.
pub open spec fn normalize_seps(s: Seq<char>) -> Seq<char> {
    replace_char(s, '\\', '/')
}

/// The raw pieces of a path between separators.
pub open spec fn pieces(s: Seq<char>) -> Seq<Seq<char>> {
    split_spec(normalize_seps(s), '/')
}

/// A piece that names a component: neither empty nor `.`.
pub open spec fn is_component(p: Seq<char>) -> bool {
    p.len() > 0 && p != seq!['.']
}

/// An ASCII letter.
pub open spec fn is_ascii_alpha(c: char) -> bool {
    ('a' <= c && c <= 'z') || ('A' <= c && c <= 'Z')
}

/// The length of a path's drive prefix: 2 for a path that starts with an
/// ASCII letter and `:` (`C:`), else 0.
pub open spec fn drive_len(s: Seq<char>) -> int {
    if s.len() >= 2 && is_ascii_alpha(s[0]) && s[1] == ':' {
        2
    } else {
        0
    }
}

/// A path after its drive prefix.
pub open spec fn path_body(s: Seq<char>) -> Seq<char> {
    s.skip(drive_len(s))
}

/// The named components of text with no drive prefix.
pub open spec fn raw_components(s: Seq<char>) -> Seq<Seq<char>> {
    pieces(s).filter(|p: Seq<char>| is_component(p))
}

/// The named components of a path: those after its drive prefix, if any.
pub open spec fn components(s: Seq<char>) -> Seq<Seq<char>> {
    raw_components(path_body(s))
}

/// Whether a component is `..`.
pub open spec fn is_parent_dir(p: Seq<char>) -> bool {
    p == seq!['.', '.']
}

/// The component that `Path::components` lists before the named components
/// of text with no drive prefix: the root (written `/`) for text that starts
/// with a separator; `.` for text that is `.` or starts with `.` and a
/// separator; none otherwise.
pub open spec fn raw_lead(s: Seq<char>) -> Option<Seq<char>> {
    if s.len() > 0 && is_sep(s[0]) {
        Some(seq!['/'])
    } else if s.len() > 0 && s[0] == '.' && (s.len() == 1 || is_sep(s[1])) {
        Some(seq!['.'])
    } else {
        None
    }
}

/// The components that `Path::components` lists before a path's named
/// components: its drive prefix, if any, then its root or leading `.`, if
/// any.
pub open spec fn lead_components(s: Seq<char>) -> Seq<Seq<char>> {
    (if drive_len(s) == 2 {
        seq![s.take(2)]
    } else {
        Seq::empty()
    }) + match raw_lead(path_body(s)) {
        Some(l) => seq![l],
        None => Seq::empty(),
    }
}

/// The components of a path as `Path::components` lists them: the drive
/// prefix, the root or leading `.`, then the named components (`..` among
/// them).
pub open spec fn all_components(s: Seq<char>) -> Seq<Seq<char>> {
    lead_components(s) + components(s)
}

/// Whether some component of the path is `..`.
pub open spec fn has_parent_dir(s: Seq<char>) -> bool {
    exists|i: int| 0 <= i < components(s).len() && is_parent_dir(#[trigger] components(s)[i])
}

/// Text with no drive prefix and a relative name joined: one `\\` between
/// them, none when the text is empty or already ends in a separator.
pub open spec fn raw_join(base: Seq<char>, name: Seq<char>) -> Seq<char> {
    if base.len() == 0 || is_sep(base.last()) {
        base + name
    } else {
        base.push('\\') + name
    }
}

/// `Path::join` as Windows has it: `name` itself when it has a drive
/// prefix; the drive prefix of `base` and `name` when `name` starts at a
/// root; else `base` and `name` with one `\\` between them (none when
/// `base` is empty, is a drive prefix alone, or already ends in a
/// separator).
pub open spec fn join_spec(base: Seq<char>, name: Seq<char>) -> Seq<char> {
    if drive_len(name) == 2 {
        name
    } else if name.len() > 0 && is_sep(name[0]) {
        base.take(drive_len(base)) + name
    } else {
        base.take(drive_len(base)) + raw_join(path_body(base), name)
    }
}

/// `Path::file_name`: the last component, unless there is none or it is `..`.
pub open spec fn file_name_spec(s: Seq<char>) -> Option<Seq<char>> {
    let c = components(s);
    if c.len() == 0 || is_parent_dir(c.last()) {
        None
    } else {
        Some(c.last())
    }
}

/// The index of the last occurrence of `c` in `s`.
pub open spec fn rfind_char(s: Seq<char>, c: char) -> Option<int>
    decreases s.len(),
{
    if s.len() == 0 {
        None
    } else if s.last() == c {
        Some(s.len() - 1)
    } else {
        rfind_char(s.drop_last(), c)
    }
}

/// The stem of a file name: the part before its last `.`, or the whole name
/// when there is no `.` after the first character.
pub open spec fn name_stem(n: Seq<char>) -> Seq<char> {
    match rfind_char(n, '.') {
        Some(i) => if i == 0 {
            n
        } else {
            n.take(i)
        },
        None => n,
    }
}

/// The extension of a file name: the part after its last `.`, when that
/// `.` is not the first character.
pub open spec fn name_extension(n: Seq<char>) -> Option<Seq<char>> {
    match rfind_char(n, '.') {
        Some(i) => if i == 0 {
            None
        } else {
            Some(n.skip(i + 1))
        },
        None => None,
    }
}

/// `Path::file_stem`.
pub open spec fn file_stem_spec(s: Seq<char>) -> Option<Seq<char>> {
    match file_name_spec(s) {
        Some(n) => Some(name_stem(n)),
        None => None,
    }
}

/// `Path::extension`.
pub open spec fn extension_spec(s: Seq<char>) -> Option<Seq<char>> {
    match file_name_spec(s) {
        Some(n) => name_extension(n),
        None => None,
    }
}

/// The length of the shortest prefix of a path whose pieces hold `k`
/// components, when the path has `p` as its pieces.
pub open spec fn cut_len(p: Seq<Seq<char>>, k: nat) -> int
    decreases p.len(),
{
    if p.len() == 0 || k == 0 {
        0
    } else if p.len() == 1 {
        p[0].len() as int
    } else if is_component(p[0]) {
        if k == 1 {
            p[0].len() as int
        } else {
            p[0].len() + 1 + cut_len(p.drop_first(), (k - 1) as nat)
        }
    } else {
        p[0].len() + 1 + cut_len(p.drop_first(), k)
    }
}

/// Text with no drive prefix through its first `k` components (the root
/// alone, or nothing, when `k` is 0).
pub open spec fn raw_leading(s: Seq<char>, k: nat) -> Seq<char> {
    if k == 0 {
        if s.len() > 0 && is_sep(s[0]) {
            s.take(1)
        } else {
            Seq::empty()
        }
    } else {
        s.take(cut_len(pieces(s), k))
    }
}

/// A path through its first `k` named components, its drive prefix
/// included.
pub open spec fn leading_path(s: Seq<char>, k: nat) -> Seq<char> {
    s.take(drive_len(s)) + raw_leading(path_body(s), k)
}

/// The `n`-th ancestor of a path (`Path::ancestors().nth(n)`): the path
/// without its last `n` components, when it has at least `n` of them.
pub open spec fn ancestor_spec(s: Seq<char>, n: nat) -> Option<Seq<char>> {
    let c = components(s);
    if c.len() < n {
        None
    } else {
        Some(leading_path(s, (c.len() - n) as nat))
    }
}

// ---------------------------------------------------------------------------

/// Every piece of a normalized path, with its characters, comes from the path.
pub proof fn lemma_pieces_len(s: Seq<char>)
    ensures
        pieces(s).len() >= 1,
{
    lemma_split_nonempty(normalize_seps(s), '/');
}

/// The pieces of a path, with separators normalized to `/`.
pub fn path_pieces(v: &[char]) -> (r: Vec<Vec<char>>)
    ensures
        r@.map_values(|x: Vec<char>| x@) == pieces(v@),
{
    let n = replace_chars(v, '\\', '/');
    split_chars(n.as_slice(), '/')
}

/// Whether a piece names a component.
pub fn piece_is_component(p: &[char]) -> (r: bool)
    ensures
        r == is_component(p@),
{
    let r = p.len() > 0 && !(p.len() == 1 && p[0] == '.');
    proof {
        if p@.len() == 1 && p@[0] == '.' {
            assert(p@ =~= seq!['.']);
        }
        if p@ == seq!['.'] {
            assert(p@.len() == 1);
        }
    }
    r
}

/// Whether a component is `..`.
pub fn component_is_parent_dir(p: &[char]) -> (r: bool)
    ensures
        r == is_parent_dir(p@),
{
    let r = p.len() == 2 && p[0] == '.' && p[1] == '.';
    proof {
        if r {
            assert(p@ =~= seq!['.', '.']);
        }
    }
    r
}

/// The components of a path (`Path::components`).
pub fn path_components(v: &[char]) -> (r: Vec<Vec<char>>)
    ensures
        r@.map_values(|x: Vec<char>| x@) == components(v@),
{
    let b = path_body_of(v);
    let ps = path_pieces(b.as_slice());
    let ghost pv = ps@.map_values(|x: Vec<char>| x@);
    let mut out: Vec<Vec<char>> = Vec::new();
    for i in 0..ps.len()
        invariant
            pv == ps@.map_values(|x: Vec<char>| x@),
            pv == pieces(path_body(v@)),
            out@.map_values(|x: Vec<char>| x@) == pv.take(i as int).filter(
                |p: Seq<char>| is_component(p),
            ),
    {
        let ghost out0 = out@.map_values(|x: Vec<char>| x@);
        proof {
            reveal(Seq::filter);
            assert(pv.take(i + 1).drop_last() == pv.take(i as int));
            assert(pv.take(i + 1).last() == pv[i as int]);
            assert(pv[i as int] == ps@[i as int]@);
        }
        if piece_is_component(ps[i].as_slice()) {
            out.push(sub_chars(ps[i].as_slice(), 0, ps[i].len()));
            assert(out@.map_values(|x: Vec<char>| x@) =~= out0.push(pv[i as int]));
        }
    }
    assert(pv.take(ps.len() as int) == pv);
    out
}

/// The length of a path's drive prefix.
pub fn drive_len_of(v: &[char]) -> (r: usize)
    ensures
        r as int == drive_len(v@),
{
    if v.len() >= 2 && (('a' <= v[0] && v[0] <= 'z') || ('A' <= v[0] && v[0] <= 'Z')) && v[1] == ':' {
        2
    } else {
        0
    }
}

/// A path after its drive prefix.
pub fn path_body_of(v: &[char]) -> (r: Vec<char>)
    ensures
        r@ == path_body(v@),
{
    let d = drive_len_of(v);
    let r = sub_chars(v, d, v.len());
    assert(r@ =~= path_body(v@));
    r
}

/// The component that text with no drive prefix starts with before its
/// named components.
fn raw_lead_of(v: &[char]) -> (r: Option<Vec<char>>)
    ensures
        match r {
            Some(l) => raw_lead(v@) == Some(l@),
            None => raw_lead(v@) is None,
        },
{
    if v.len() > 0 && (v[0] == '/' || v[0] == '\\') {
        let r = vec!['/'];
        assert(r@ =~= seq!['/']);
        Some(r)
    } else if v.len() > 0 && v[0] == '.' && (v.len() == 1 || v[1] == '/' || v[1] == '\\') {
        let r = vec!['.'];
        assert(r@ =~= seq!['.']);
        Some(r)
    } else {
        None
    }
}

/// The components of a path as `Path::components` lists them.
pub fn path_all_components(v: &[char]) -> (r: Vec<Vec<char>>)
    ensures
        r@.map_values(|x: Vec<char>| x@) == all_components(v@),
{
    let cs = path_components(v);
    let ghost cv = cs@.map_values(|x: Vec<char>| x@);
    let d = drive_len_of(v);
    let mut out: Vec<Vec<char>> = Vec::new();
    if d == 2 {
        out.push(sub_chars(v, 0, 2));
    }
    let b = path_body_of(v);
    match raw_lead_of(b.as_slice()) {
        Some(l) => out.push(l),
        None => {},
    }
    let ghost lv = out@.map_values(|x: Vec<char>| x@);
    assert(lv =~= lead_components(v@));
    let mut rest = cs;
    out.append(&mut rest);
    assert(out@.map_values(|x: Vec<char>| x@) =~= lv + cv);
    out
}

/// Whether some component of the path is `..`.
pub fn path_has_parent_dir(v: &[char]) -> (r: bool)
    ensures
        r == has_parent_dir(v@),
{
    let cs = path_components(v);
    let ghost cv = cs@.map_values(|x: Vec<char>| x@);
    for i in 0..cs.len()
        invariant
            cv == cs@.map_values(|x: Vec<char>| x@),
            cv == components(v@),
            forall|j: int| 0 <= j < i ==> !is_parent_dir(#[trigger] cv[j]),
    {
        assert(cv[i as int] == cs@[i as int]@);
        if component_is_parent_dir(cs[i].as_slice()) {
            return true;
        }
    }
    false
}

/// `Path::join`.
pub fn join_path(base: &[char], name: &[char]) -> (r: Vec<char>)
    ensures
        r@ == join_spec(base@, name@),
{
    if drive_len_of(name) == 2 {
        return sub_chars(name, 0, name.len());
    }
    let d = drive_len_of(base);
    let mut r = sub_chars(base, 0, d);
    if name.len() > 0 && (name[0] == '/' || name[0] == '\\') {
        extend_chars(&mut r, name);
        assert(r@ =~= join_spec(base@, name@));
        return r;
    }
    let b = path_body_of(base);
    extend_chars(&mut r, b.as_slice());
    let bl = b.len();
    if !(bl == 0 || b[bl - 1] == '/' || b[bl - 1] == '\\') {
        r.push('\\');
    }
    extend_chars(&mut r, name);
    assert(r@ =~= join_spec(base@, name@));
    r
}

/// `Path::join` with a literal name.
pub fn join_path_str(base: &[char], name: &str) -> (r: Vec<char>)
    ensures
        r@ == join_spec(base@, name@),
{
    let n = chars_of(name);
    join_path(base, n.as_slice())
}

/// `Path::file_name`.
pub fn file_name_of(v: &[char]) -> (r: Option<Vec<char>>)
    ensures
        match r {
            Some(n) => file_name_spec(v@) == Some(n@),
            None => file_name_spec(v@) is None,
        },
{
    let cs = path_components(v);
    let ghost cv = cs@.map_values(|x: Vec<char>| x@);
    if cs.len() == 0 {
        return None;
    }
    let last = &cs[cs.len() - 1];
    assert(last@ == cv.last());
    if component_is_parent_dir(last.as_slice()) {
        return None;
    }
    Some(sub_chars(last.as_slice(), 0, last.len()))
}

/// The index of the last `c` in `v`.
pub fn rfind_char_in(v: &[char], c: char) -> (r: Option<usize>)
    ensures
        match r {
            Some(i) => rfind_char(v@, c) == Some(i as int) && i < v@.len(),
            None => rfind_char(v@, c) is None,
        },
{
    let mut n = v.len();
    while n > 0
        invariant
            n <= v@.len(),
            rfind_char(v@, c) == rfind_char(v@.take(n as int), c),
        decreases n,
    {
        assert(v@.take(n as int).last() == v@[n - 1]);
        if v[n - 1] == c {
            return Some(n - 1);
        }
        assert(v@.take(n as int).drop_last() == v@.take(n - 1));
        n = n - 1;
    }
    None
}

/// The stem of a file name.
pub fn stem_of_name(n: &[char]) -> (r: Vec<char>)
    ensures
        r@ == name_stem(n@),
{
    match rfind_char_in(n, '.') {
        Some(i) => if i == 0 {
            sub_chars(n, 0, n.len())
        } else {
            sub_chars(n, 0, i)
        },
        None => sub_chars(n, 0, n.len()),
    }
}

/// The extension of a file name.
pub fn extension_of_name(n: &[char]) -> (r: Option<Vec<char>>)
    ensures
        match r {
            Some(e) => name_extension(n@) == Some(e@),
            None => name_extension(n@) is None,
        },
{
    match rfind_char_in(n, '.') {
        Some(i) => if i == 0 {
            None
        } else {
            let nl = n.len();
            assert(i < nl);
            Some(sub_chars(n, i + 1, nl))
        },
        None => None,
    }
}

/// `Path::file_stem`.
pub fn file_stem_of(v: &[char]) -> (r: Option<Vec<char>>)
    ensures
        match r {
            Some(n) => file_stem_spec(v@) == Some(n@),
            None => file_stem_spec(v@) is None,
        },
{
    match file_name_of(v) {
        Some(n) => Some(stem_of_name(n.as_slice())),
        None => None,
    }
}

/// `Path::extension`.
pub fn extension_of(v: &[char]) -> (r: Option<Vec<char>>)
    ensures
        match r {
            Some(n) => extension_spec(v@) == Some(n@),
            None => extension_spec(v@) is None,
        },
{
    match file_name_of(v) {
        Some(n) => extension_of_name(n.as_slice()),
        None => None,
    }
}

/// A path through its first `k` named components.
pub fn leading_path_of(v: &[char], k: usize) -> (r: Vec<char>)
    ensures
        r@ == leading_path(v@, k as nat),
{
    let d = drive_len_of(v);
    let b = path_body_of(v);
    let t = raw_leading_of(b.as_slice(), k);
    let mut r = sub_chars(v, 0, d);
    extend_chars(&mut r, t.as_slice());
    r
}

/// Text with no drive prefix through its first `k` components.
fn raw_leading_of(v: &[char], k: usize) -> (r: Vec<char>)
    ensures
        r@ == raw_leading(v@, k as nat),
{
    if k == 0 {
        if v.len() > 0 && (v[0] == '/' || v[0] == '\\') {
            return sub_chars(v, 0, 1);
        }
        return Vec::new();
    }
    let ps = path_pieces(v);
    let ghost pv = ps@.map_values(|x: Vec<char>| x@);
    let mut pos: usize = 0;
    let mut left: usize = k;
    let mut t: usize = 0;
    proof {
        assert(pv.skip(0) == pv);
        lemma_pieces_total(v@);
        lemma_pieces_len(v@);
    }
    loop
        invariant
            pv == ps@.map_values(|x: Vec<char>| x@),
            pv == pieces(v@),
            pv.len() == ps@.len(),
            t < pv.len(),
            1 <= left <= k,
            cut_len(pv, k as nat) == pos + cut_len(pv.skip(t as int), left as nat),
            pos + total_len(pv.skip(t as int)) == total_len(pv),
            total_len(pv) == v@.len(),
        decreases pv.len() - t,
    {
        let ghost rest = pv.skip(t as int);
        assert(rest[0] == pv[t as int]);
        assert(rest.drop_first() == pv.skip(t + 1));
        assert(pv[t as int] == ps@[t as int]@);
        proof {
            lemma_total_len_first(rest);
        }
        let plen = ps[t].len();
        assert(rest[0].len() == plen);
        let vl = v.len();
        assert(pos + plen <= vl);
        let comp = piece_is_component(ps[t].as_slice());
        assert(t < ps@.len());
        if t == ps.len() - 1 || (comp && left == 1) {
            return sub_chars(v, 0, pos + plen);
        }
        if comp {
            left = left - 1;
        }
        pos = pos + plen + 1;
        t = t + 1;
    }
}

/// The number of characters that the pieces take up, separators included.
pub open spec fn total_len(p: Seq<Seq<char>>) -> int
    decreases p.len(),
{
    if p.len() == 0 {
        -1
    } else {
        p[0].len() + 1 + total_len(p.drop_first())
    }
}

proof fn lemma_total_len_first(p: Seq<Seq<char>>)
    requires
        p.len() > 0,
    ensures
        total_len(p) == p[0].len() + 1 + total_len(p.drop_first()),
        total_len(p.drop_first()) >= -1,
        p.len() > 1 ==> total_len(p.drop_first()) >= 0,
{
    lemma_total_len_lower(p.drop_first());
}

proof fn lemma_total_len_lower(p: Seq<Seq<char>>)
    ensures
        total_len(p) >= -1,
        p.len() > 0 ==> total_len(p) >= p[0].len(),
    decreases p.len(),
{
    if p.len() > 0 {
        lemma_total_len_lower(p.drop_first());
    }
}

/// The pieces of a path, with one separator between each two, make up the path.
proof fn lemma_pieces_total(s: Seq<char>)
    ensures
        total_len(pieces(s)) == s.len(),
{
    lemma_split_total(normalize_seps(s), '/');
}

proof fn lemma_split_total(s: Seq<char>, d: char)
    ensures
        total_len(split_spec(s, d)) == s.len(),
    decreases s.len(),
{
    if s.len() == 0 {
        let q = split_spec(s, d);
        assert(q.drop_first().len() == 0);
        assert(total_len(q) == q[0].len() + 1 + total_len(q.drop_first()));
    } else {
        lemma_split_total(s.drop_last(), d);
        lemma_split_nonempty(s.drop_last(), d);
        let p = split_spec(s.drop_last(), d);
        assert(p.last() == p[p.len() - 1]);
        if s.last() == d {
            lemma_total_len_push(p, Seq::<char>::empty());
        } else {
            lemma_total_len_update_last(p, p.last().push(s.last()));
        }
    }
}

proof fn lemma_total_len_push(p: Seq<Seq<char>>, x: Seq<char>)
    requires
        p.len() > 0,
    ensures
        total_len(p.push(x)) == total_len(p) + x.len() + 1,
    decreases p.len(),
{
    assert(p.push(x).drop_first() == p.drop_first().push(x));
    assert(p.push(x)[0] == p[0]);
    if p.len() > 1 {
        lemma_total_len_push(p.drop_first(), x);
    } else {
        let q = p.drop_first().push(x);
        assert(q =~= seq![x]);
        assert(q.drop_first().len() == 0);
        assert(total_len(q) == x.len() + 1 + total_len(q.drop_first()));
        assert(p.drop_first().len() == 0);
    }
}

proof fn lemma_total_len_update_last(p: Seq<Seq<char>>, x: Seq<char>)
    requires
        p.len() > 0,
    ensures
        total_len(p.update(p.len() - 1, x)) == total_len(p) - p.last().len() + x.len(),
    decreases p.len(),
{
    let q = p.update(p.len() - 1, x);
    if p.len() > 1 {
        assert(q.drop_first() == p.drop_first().update(p.drop_first().len() - 1, x));
        lemma_total_len_update_last(p.drop_first(), x);
    } else {
        assert(q.drop_first().len() == 0);
        assert(p.drop_first().len() == 0);
    }
}


// ---------------------------------------------------------------------------
// Joining a name onto a path
// ---------------------------------------------------------------------------

/// A path component as a folder listing gives it: not empty, not `.` or
/// `..`, free of separators, and not starting with a drive prefix.
pub open spec fn plain_component(c: Seq<char>) -> bool {
    is_component(c) && !is_parent_dir(c) && !c.contains('/') && !c.contains('\\') && drive_len(c) == 0
}

/// Text with no drive prefix whose last piece is a component: it ends in
/// a name, not in a separator or `.`.
pub open spec fn raw_ends_in_name(p: Seq<char>) -> bool {
    p.len() > 0 && !is_sep(p.last()) && is_component(pieces(p).last())
}

/// A path whose last piece after its drive prefix is a component: it ends
/// in a name, not in a separator, `.` or a drive prefix.
pub open spec fn ends_in_name(p: Seq<char>) -> bool {
    raw_ends_in_name(path_body(p))
}

/// A path with its trailing separators and trailing `.` pieces taken off,
/// its drive prefix kept.
pub open spec fn strip_tail(s: Seq<char>) -> Seq<char> {
    s.take(drive_len(s)) + raw_strip_tail(path_body(s))
}

/// Joining a plain name onto a path that ends in a name adds one separator
/// and the name, and adds the name as the path's last piece.
pub proof fn lemma_raw_join_pieces(parent: Seq<char>, x: Seq<char>)
    requires
        raw_ends_in_name(parent),
        plain_component(x),
    ensures
        raw_join(parent, x) == parent.push('\\') + x,
        pieces(raw_join(parent, x)) == pieces(parent).push(x),
{
    assert(x[0] != '/' && x[0] != '\\') by {
        if x[0] == '/' || x[0] == '\\' {
            assert(x.contains(x[0]));
        }
    }
    let s = parent.push('\\') + x;
    let n = normalize_seps(parent);
    assert(normalize_seps(s) =~= n.push('/') + x) by {
        assert forall|k: int| 0 <= k < s.len() implies normalize_seps(s)[k] == (n.push('/') + x)[k] by {
            if k > parent.len() {
                let j = k - parent.len() - 1;
                assert(s[k] == x[j]);
                if x[j] == '\\' {
                    assert(x.contains('\\'));
                }
            }
        }
    }
    let a = n.push('/');
    assert(a.drop_last() =~= n);
    crate::logs::lemma_split_append(a, x, '/');
    assert(!x.contains('/'));
    crate::logs::lemma_split_single(x, '/');
    lemma_split_nonempty(n, '/');
    assert(split_spec(a, '/') == split_spec(n, '/').push(Seq::<char>::empty()));
    assert(split_spec(n, '/').push(Seq::<char>::empty()).drop_last() =~= split_spec(n, '/'));
    assert(pieces(s) =~= pieces(parent).push(x));
}

/// The leading path through the components of the first pieces of a path
/// ends where those pieces end, whatever pieces follow.
proof fn lemma_cut_len_prefix(p: Seq<Seq<char>>, q: Seq<Seq<char>>)
    requires
        p.len() > 0,
        is_component(p.last()),
    ensures
        p.filter(|c: Seq<char>| is_component(c)).len() >= 1,
        cut_len(p + q, p.filter(|c: Seq<char>| is_component(c)).len()) == total_len(p),
    decreases p.len(),
{
    let f = |c: Seq<char>| is_component(c);
    let r = p.drop_first();
    assert(p =~= seq![p[0]] + r);
    r.lemma_filter_prepend(p[0], f);
    assert((p + q).drop_first() =~= r + q);
    assert((p + q)[0] == p[0]);
    lemma_total_len_first(p);
    if p.len() == 1 {
        reveal(Seq::filter);
        assert(r.filter(f) =~= Seq::<Seq<char>>::empty());
        assert(r.len() == 0);
    } else {
        assert(r.last() == p.last());
        lemma_cut_len_prefix(r, q);
    }
}

/// Joining a plain name onto a path that ends in a name gives a path whose
/// parent is that path and whose name is that name.
pub proof fn lemma_raw_join_parent(parent: Seq<char>, x: Seq<char>)
    requires
        raw_ends_in_name(parent),
        plain_component(x),
    ensures
        raw_leading(raw_join(parent, x), raw_components(parent).len()) == parent,
        raw_components(raw_join(parent, x)) == raw_components(parent).push(x),
{
    let s = raw_join(parent, x);
    lemma_raw_join_pieces(parent, x);
    let p = pieces(parent);
    lemma_pieces_len(parent);
    let f = |q: Seq<char>| is_component(q);
    assert(raw_components(s) == p.push(x).filter(f));
    reveal(Seq::filter);
    assert(p.push(x).drop_last() =~= p);
    assert(raw_components(s) =~= raw_components(parent).push(x));
    assert(p.push(x) =~= p + seq![x]);
    lemma_cut_len_prefix(p, seq![x]);
    lemma_pieces_total(parent);
    assert(s.take(parent.len() as int) =~= parent);
}


// ---------------------------------------------------------------------------
// Paths that end in a separator or `.`
// ---------------------------------------------------------------------------

/// A path with its trailing separators and trailing `.` pieces taken off.
pub open spec fn raw_strip_tail(s: Seq<char>) -> Seq<char>
    decreases s.len(),
{
    if s.len() > 0 && (is_sep(s.last()) || (s.last() == '.' && (s.len() == 1 || is_sep(s[s.len() - 2])))) {
        raw_strip_tail(s.drop_last())
    } else {
        s
    }
}

/// The pieces of a path whose last character is not a separator: its last
/// piece holds that character.
proof fn lemma_pieces_last_char(s: Seq<char>)
    requires
        s.len() > 0,
        !is_sep(s.last()),
    ensures
        pieces(s) == pieces(s.drop_last()).update(
            pieces(s.drop_last()).len() - 1,
            pieces(s.drop_last()).last().push(s.last()),
        ),
        pieces(s).len() == pieces(s.drop_last()).len(),
        pieces(s).drop_last() == pieces(s.drop_last()).drop_last(),
        pieces(s).last() == pieces(s.drop_last()).last().push(s.last()),
{
    let n = normalize_seps(s);
    assert(n.drop_last() =~= normalize_seps(s.drop_last()));
    lemma_split_nonempty(n.drop_last(), '/');
    let p = pieces(s.drop_last());
    assert(p.update(p.len() - 1, p.last().push(s.last())).drop_last() =~= p.drop_last());
}

/// The pieces of a path that ends in a separator: an empty piece follows
/// those of the path without it.
proof fn lemma_pieces_last_sep(s: Seq<char>)
    requires
        s.len() > 0,
        is_sep(s.last()),
    ensures
        pieces(s) == pieces(s.drop_last()).push(Seq::<char>::empty()),
{
    let n = normalize_seps(s);
    assert(n.drop_last() =~= normalize_seps(s.drop_last()));
}

/// Whether the last piece of a path is empty.
proof fn lemma_last_piece_empty(s: Seq<char>)
    ensures
        pieces(s).len() >= 1,
        pieces(s).last().len() == 0 <==> (s.len() == 0 || is_sep(s.last())),
{
    lemma_pieces_len(s);
    if s.len() > 0 {
        if is_sep(s.last()) {
            lemma_pieces_last_sep(s);
        } else {
            lemma_pieces_len(s.drop_last());
            lemma_pieces_last_char(s);
        }
    }
}

/// Text after a separator splits into pieces of its own.
pub proof fn lemma_pieces_after_sep(a: Seq<char>, b: Seq<char>)
    requires
        a.len() > 0,
        is_sep(a.last()),
    ensures
        pieces(a + b) == pieces(a).drop_last() + pieces(b),
{
    let na = normalize_seps(a);
    assert(normalize_seps(a + b) =~= na + normalize_seps(b));
    crate::logs::lemma_split_append(na, normalize_seps(b), '/');
}

/// The components of a path are not changed by a trailing separator or a
/// trailing `.` piece.
proof fn lemma_raw_components_drop_tail(s: Seq<char>)
    requires
        s.len() > 0,
        is_sep(s.last()) || (s.last() == '.' && (s.len() == 1 || is_sep(s[s.len() - 2]))),
    ensures
        raw_components(s) == raw_components(s.drop_last()),
{
    reveal(Seq::filter);
    let s1 = s.drop_last();
    if is_sep(s.last()) {
        lemma_pieces_last_sep(s);
        assert(pieces(s).drop_last() =~= pieces(s1));
    } else {
        lemma_last_piece_empty(s1);
        lemma_pieces_last_char(s);
        assert(pieces(s).last() =~= seq!['.']);
        assert(pieces(s).drop_last() == pieces(s1).drop_last());
        if s1.len() == 0 {
            assert(pieces(s1) =~= seq![Seq::<char>::empty()]);
        } else {
            lemma_pieces_last_sep(s1);
            assert(pieces(s1).drop_last() =~= pieces(s1.drop_last()));
        }
        assert(pieces(s1) =~= pieces(s1).drop_last().push(Seq::<char>::empty()));
    }
}

/// A path with no text has no components.
proof fn lemma_raw_components_of_empty(s: Seq<char>)
    requires
        s.len() == 0,
    ensures
        raw_components(s).len() == 0,
{
    assert(normalize_seps(s) =~= Seq::<char>::empty());
    assert(pieces(s) =~= seq![Seq::<char>::empty()]);
    reveal(Seq::filter);
    assert(pieces(s).drop_last() =~= Seq::<Seq<char>>::empty());
    assert(pieces(s).drop_last().filter(|c: Seq<char>| is_component(c)) =~= Seq::<Seq<char>>::empty());
}

/// Joining a plain name onto any path with a component: the path with its
/// tail taken off ends in a name and has the same components, and the
/// joined path's pieces are its pieces, then pieces that are not
/// components, then the name.
pub proof fn lemma_raw_strip_tail(l: Seq<char>, x: Seq<char>)
    requires
        plain_component(x),
        raw_components(l).len() > 0,
    ensures
        raw_ends_in_name(raw_strip_tail(l)),
        raw_strip_tail(l).is_prefix_of(l),
        raw_components(raw_strip_tail(l)) == raw_components(l),
        exists|q: Seq<Seq<char>>|
            pieces(raw_join(l, x)) == pieces(raw_strip_tail(l)) + #[trigger] q.push(x) && q.filter(
                |c: Seq<char>| is_component(c),
            ).len() == 0,
    decreases l.len(),
{
    let f = |c: Seq<char>| is_component(c);
    assert(x[0] != '/' && x[0] != '\\') by {
        if x[0] == '/' || x[0] == '\\' {
            assert(x.contains(x[0]));
        }
    }
    if l.len() == 0 {
        lemma_raw_components_of_empty(l);
    }
    let l1 = l.drop_last();
    if is_sep(l.last()) || (l.last() == '.' && (l.len() == 1 || is_sep(l[l.len() - 2]))) {
        lemma_raw_components_drop_tail(l);
        if l.len() == 1 && !is_sep(l.last()) {
            lemma_raw_components_of_empty(l1);
        }
        lemma_raw_strip_tail(l1, x);
        let q1 = choose|q: Seq<Seq<char>>|
            pieces(raw_join(l1, x)) == pieces(raw_strip_tail(l1)) + #[trigger] q.push(x) && q.filter(f).len() == 0;
        let pp = pieces(raw_strip_tail(l1));
        assert(raw_strip_tail(l) == raw_strip_tail(l1));
        let d = raw_join(l, x);
        let d1 = raw_join(l1, x);
        assert(pieces(d1) == pp + q1.push(x));
        if is_sep(l.last()) {
            assert(d == l + x);
            if l1.len() > 0 && is_sep(l1.last()) {
                assert(d1 == l1 + x);
                lemma_pieces_after_sep(l1, x);
                lemma_pieces_after_sep(l, x);
                lemma_pieces_last_sep(l);
                lemma_pieces_last_sep(l1);
                crate::logs::lemma_split_single(x, '/');
                assert(normalize_seps(x) =~= x) by {
                    assert forall|k: int| 0 <= k < x.len() implies normalize_seps(x)[k] == x[k] by {
                        if x[k] == '\\' {
                            assert(x.contains('\\'));
                        }
                    }
                }
                assert(pieces(x) == seq![x]);
                // pieces(d1) = pieces(l1).drop_last() + [x]; pieces(d) = pieces(l1) + [x]
                assert(pieces(l).drop_last() =~= pieces(l1));
                assert(pieces(l1).drop_last() + seq![x] == pp + q1.push(x));
                assert(pieces(l1).drop_last() =~= pp + q1) by {
                    assert((pieces(l1).drop_last() + seq![x]).drop_last() =~= pieces(l1).drop_last());
                    assert((pp + q1.push(x)).drop_last() =~= pp + q1);
                }
                let q = q1.push(Seq::<char>::empty());
                assert(pieces(l1) =~= pieces(l1).drop_last().push(Seq::<char>::empty()));
                assert(pieces(d) =~= pp + q.push(x));
                reveal(Seq::filter);
                assert(q.filter(f) =~= q1.filter(f));
            } else {
                assert(l1.len() > 0) by {
                    if l1.len() == 0 {
                        lemma_raw_components_of_empty(l1);
                    }
                }
                assert(d1 == l1.push('\\') + x);
                assert(normalize_seps(d) =~= normalize_seps(d1));
                assert(pieces(d) == pieces(d1));
                assert(pieces(d) == pp + q1.push(x));
            }
        } else {
            // l = l1 + ".", with l1 ending in a separator
            assert(l1.len() > 0 && is_sep(l1.last()));
            assert(d == l.push('\\') + x);
            assert(d1 == l1 + x);
            lemma_pieces_after_sep(l1, x);
            lemma_pieces_after_sep(l.push('\\'), x);
            lemma_pieces_last_sep(l.push('\\'));
            assert(l.push('\\').drop_last() =~= l);
            lemma_pieces_last_char(l);
            lemma_pieces_last_sep(l1);
            crate::logs::lemma_split_single(x, '/');
            assert(normalize_seps(x) =~= x) by {
                assert forall|k: int| 0 <= k < x.len() implies normalize_seps(x)[k] == x[k] by {
                    if x[k] == '\\' {
                        assert(x.contains('\\'));
                    }
                }
            }
            assert(pieces(x) == seq![x]);
            assert(pieces(l1).drop_last() =~= pp + q1) by {
                assert((pieces(l1).drop_last() + seq![x]).drop_last() =~= pieces(l1).drop_last());
                assert((pp + q1.push(x)).drop_last() =~= pp + q1);
            }
            assert(pieces(l1).last() =~= Seq::<char>::empty());
            assert(pieces(l).last() =~= seq!['.']);
            assert(pieces(l) =~= pieces(l1).drop_last().push(seq!['.']));
            let q = q1.push(seq!['.']);
            assert(pieces(d) =~= pp + q.push(x));
            reveal(Seq::filter);
            assert(q.filter(f) =~= q1.filter(f));
        }
    } else {
        assert(raw_strip_tail(l) == l);
        lemma_last_piece_empty(l);
        lemma_pieces_last_char(l);
        lemma_last_piece_empty(l1);
        assert(pieces(l).last() != seq!['.']) by {
            if pieces(l).last() == seq!['.'] {
                assert(pieces(l).last().len() == 1);
                assert(pieces(l1).last().len() == 0);
                assert(pieces(l).last()[0] == l.last());
                if l1.len() > 0 {
                    assert(l1.last() == l[l.len() - 2]);
                }
            }
        }
        assert(raw_ends_in_name(l));
        lemma_raw_join_pieces(l, x);
        let q = Seq::<Seq<char>>::empty();
        assert(pieces(raw_join(l, x)) =~= pieces(l) + q.push(x));
        reveal(Seq::filter);
        assert(q.filter(f) =~= q);
    }
}

/// Joining a plain name onto any path with a component: the joined path's
/// parent is the path with its tail taken off, its name is the name, and it
/// lists the path's components and then the name.
pub proof fn lemma_raw_join_any_parent(l: Seq<char>, x: Seq<char>)
    requires
        plain_component(x),
        raw_components(l).len() > 0,
    ensures
        raw_ends_in_name(raw_strip_tail(l)),
        raw_leading(raw_join(l, x), raw_components(l).len()) == raw_strip_tail(l),
        raw_strip_tail(l).is_prefix_of(l),
        raw_components(raw_strip_tail(l)) == raw_components(l),
        raw_components(raw_join(l, x)) == raw_components(l).push(x),
        raw_lead(raw_strip_tail(l)) == raw_lead(l),
        raw_lead(raw_join(l, x)) == raw_lead(l),
{
    let f = |c: Seq<char>| is_component(c);
    lemma_raw_strip_tail(l, x);
    let p = raw_strip_tail(l);
    let d = raw_join(l, x);
    let q = choose|q: Seq<Seq<char>>|
        pieces(raw_join(l, x)) == pieces(raw_strip_tail(l)) + #[trigger] q.push(x) && q.filter(f).len() == 0;
    let pp = pieces(p);
    lemma_pieces_len(p);
    assert(pieces(d) == pp + q.push(x));
    assert(q.push(x) =~= q + seq![x]);
    assert(pp + q.push(x) =~= (pp + q) + seq![x]);
    reveal(Seq::filter);
    assert(seq![x].filter(f) =~= seq![x]);
    assert(q.filter(f) =~= Seq::<Seq<char>>::empty());
    assert(raw_components(d) =~= pp.filter(f) + seq![x]);
    assert(raw_components(d) =~= raw_components(l).push(x));
    lemma_cut_len_prefix(pp, q.push(x));
    lemma_pieces_total(p);
    assert(x[0] != '/' && x[0] != '\\') by {
        if x[0] == '/' || x[0] == '\\' {
            assert(x.contains(x[0]));
        }
    }
    assert(l.is_prefix_of(d));
    assert(d.take(p.len() as int) =~= p);
    assert(raw_leading(d, raw_components(l).len()) == p);
    // the leading component
    if l.len() == 1 {
        assert(d[0] == l[0]);
        if l[0] == '.' {
            assert(d[1] == '\\');
        }
    } else {
        assert(l.len() >= 2);
        assert(d[0] == l[0] && d[1] == l[1]);
    }
    if p.len() == 1 {
        lemma_pieces_last_char(p);
        assert(p.drop_last().len() == 0);
        assert(pieces(p.drop_last()) =~= seq![Seq::<char>::empty()]);
        assert(pieces(p).last() =~= seq![p[0]]);
        assert(p[0] == l[0]);
    } else {
        assert(p[0] == l[0] && p[1] == l[1]);
    }
}


// ---------------------------------------------------------------------------
// Joining onto a path with a drive prefix
// ---------------------------------------------------------------------------

/// Joining a relative name with no drive prefix keeps the base's drive
/// prefix and joins the name onto the rest.
pub proof fn lemma_join_body(base: Seq<char>, x: Seq<char>)
    requires
        drive_len(x) == 0,
        x.len() > 0 ==> !is_sep(x[0]),
    ensures
        join_spec(base, x) == base.take(drive_len(base)) + raw_join(path_body(base), x),
        drive_len(join_spec(base, x)) == drive_len(base),
        path_body(join_spec(base, x)) == raw_join(path_body(base), x),
        join_spec(base, x).take(drive_len(base)) == base.take(drive_len(base)),
{
    let d = drive_len(base);
    let j = join_spec(base, x);
    if d == 2 {
        assert(j[0] == base[0] && j[1] == base[1]);
    } else {
        assert(path_body(base) =~= base);
        if base.len() >= 2 {
            assert(j[0] == base[0] && j[1] == base[1]);
        } else if base.len() == 1 {
            if !is_sep(base[0]) {
                assert(j[1] == '\\');
            }
        } else {
            assert(j =~= x);
        }
    }
    assert(j.skip(d) =~= raw_join(path_body(base), x));
    assert(j.take(d) =~= base.take(d));
}

/// Joining a plain name onto a path that ends in a name gives a path whose
/// parent is that path and whose name is that name.
pub proof fn lemma_join_parent(parent: Seq<char>, x: Seq<char>)
    requires
        ends_in_name(parent),
        plain_component(x),
    ensures
        ancestor_spec(join_spec(parent, x), 1) == Some(parent),
        file_name_spec(join_spec(parent, x)) == Some(x),
        components(join_spec(parent, x)) == components(parent).push(x),
        join_spec(parent, x) == parent.push('\\') + x,
{
    assert(x[0] != '/' && x[0] != '\\') by {
        if x[0] == '/' || x[0] == '\\' {
            assert(x.contains(x[0]));
        }
    }
    let b = path_body(parent);
    let d = drive_len(parent);
    lemma_join_body(parent, x);
    lemma_raw_join_parent(b, x);
    lemma_raw_join_pieces(b, x);
    let j = join_spec(parent, x);
    assert(components(j) == raw_components(b).push(x));
    assert(leading_path(j, components(parent).len()) =~= parent);
    assert(j =~= parent.push('\\') + x);
}

/// Joining a plain name onto any path with a component: the joined path's
/// parent is the path with its tail taken off, its name is the name, and it
/// lists the path's components and then the name.
pub proof fn lemma_join_any_parent(l: Seq<char>, x: Seq<char>)
    requires
        plain_component(x),
        components(l).len() > 0,
    ensures
        ends_in_name(strip_tail(l)),
        ancestor_spec(join_spec(l, x), 1) == Some(strip_tail(l)),
        file_name_spec(join_spec(l, x)) == Some(x),
        components(strip_tail(l)) == components(l),
        components(join_spec(l, x)) == components(l).push(x),
        lead_components(strip_tail(l)) == lead_components(l),
        lead_components(join_spec(l, x)) == lead_components(l),
        all_components(join_spec(l, x)) == all_components(l).push(x),
{
    assert(x[0] != '/' && x[0] != '\\') by {
        if x[0] == '/' || x[0] == '\\' {
            assert(x.contains(x[0]));
        }
    }
    let b = path_body(l);
    let d = drive_len(l);
    lemma_join_body(l, x);
    lemma_raw_join_any_parent(b, x);
    let p = strip_tail(l);
    let rp = raw_strip_tail(b);
    assert(rp.len() > 0);
    // the stripped path keeps the drive prefix
    assert(p.is_prefix_of(l));
    if d == 0 {
        assert(b =~= l);
        assert(p =~= rp);
        if p.len() >= 2 {
            assert(p[0] == l[0] && p[1] == l[1]);
        }
    } else {
        assert(p[0] == l[0] && p[1] == l[1]);
    }
    assert(drive_len(p) == d);
    assert(path_body(p) =~= rp);
    assert(p.take(d) =~= l.take(d));
    let j = join_spec(l, x);
    assert(leading_path(j, components(l).len()) =~= p);
    assert(all_components(j) =~= all_components(l).push(x));
}

} // verus!
