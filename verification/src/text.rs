//! Character-level text handling: the string operations that the rest of the
//! library reasons about, each with a specification over `Seq<char>`.
use vstd::prelude::*;

verus! {

broadcast use vstd::seq_lib::group_seq_properties;

// ---------------------------------------------------------------------------
// Specifications
// ---------------------------------------------------------------------------

/// An ASCII decimal digit.
pub open spec fn is_ascii_digit(c: char) -> bool {
    '0' <= c && c <= '9'
}

/// Every character is an ASCII decimal digit.
pub open spec fn all_digits(s: Seq<char>) -> bool {
    forall|i: int| 0 <= i < s.len() ==> is_ascii_digit(#[trigger] s[i])
}

/// The numeric value of an ASCII digit.
pub open spec fn digit_value(c: char) -> nat {
    (c as int - '0' as int) as nat
}

/// The value of a string of decimal digits (0 for the empty string).
pub open spec fn digits_value(s: Seq<char>) -> nat
    decreases s.len(),
{
    if s.len() == 0 {
        0
    } else {
        digits_value(s.drop_last()) * 10 + digit_value(s.last())
    }
}

/// What `str::parse::<u64>` gives: an optional leading `+`, then one or more
/// ASCII digits whose value fits in a `u64`.
pub open spec fn parse_u64_spec(s: Seq<char>) -> Option<u64> {
    let t = if s.len() > 0 && s[0] == '+' {
        s.drop_first()
    } else {
        s
    };
    if t.len() > 0 && all_digits(t) && digits_value(t) <= u64::MAX {
        Some(digits_value(t) as u64)
    } else {
        None
    }
}

/// The ASCII character of a digit value below 10.
pub open spec fn digit_char(d: nat) -> char {
    (d + 48) as char
}

/// The decimal representation of `n`, without leading zeros.
pub open spec fn decimal(n: nat) -> Seq<char>
    decreases n,
{
    if n < 10 {
        seq![digit_char(n)]
    } else {
        decimal(n / 10).push(digit_char(n % 10))
    }
}

/// The pieces of `s` between occurrences of `d`, as `str::split(d)` yields
/// them (empty pieces included; there is always at least one piece).
pub open spec fn split_spec(s: Seq<char>, d: char) -> Seq<Seq<char>>
    decreases s.len(),
{
    if s.len() == 0 {
        seq![Seq::<char>::empty()]
    } else {
        let p = split_spec(s.drop_last(), d);
        if s.last() == d {
            p.push(Seq::<char>::empty())
        } else {
            p.update(p.len() - 1, p.last().push(s.last()))
        }
    }
}

/// The index of the first occurrence of `pat` in `s` (`str::find`).
pub open spec fn find_spec(s: Seq<char>, pat: Seq<char>) -> Option<int>
    decreases s.len(),
{
    if pat.is_prefix_of(s) {
        Some(0)
    } else if s.len() == 0 {
        None
    } else {
        match find_spec(s.drop_first(), pat) {
            Some(i) => Some(i + 1),
            None => None,
        }
    }
}

/// Unicode `White_Space`, as `char::is_whitespace` decides it.
pub open spec fn is_whitespace(c: char) -> bool {
    ||| ('\u{9}' <= c && c <= '\u{d}')
    ||| c == ' '
    ||| c == '\u{85}'
    ||| c == '\u{a0}'
    ||| c == '\u{1680}'
    ||| ('\u{2000}' <= c && c <= '\u{200a}')
    ||| c == '\u{2028}'
    ||| c == '\u{2029}'
    ||| c == '\u{202f}'
    ||| c == '\u{205f}'
    ||| c == '\u{3000}'
}

/// `str::trim_start`: leading whitespace removed.
pub open spec fn trim_start_spec(s: Seq<char>) -> Seq<char>
    decreases s.len(),
{
    if s.len() > 0 && is_whitespace(s[0]) {
        trim_start_spec(s.drop_first())
    } else {
        s
    }
}

/// `str::trim_end`: trailing whitespace removed.
pub open spec fn trim_end_spec(s: Seq<char>) -> Seq<char>
    decreases s.len(),
{
    if s.len() > 0 && is_whitespace(s.last()) {
        trim_end_spec(s.drop_last())
    } else {
        s
    }
}

/// `str::trim`: whitespace removed at both ends.
pub open spec fn trim_spec(s: Seq<char>) -> Seq<char> {
    trim_end_spec(trim_start_spec(s))
}

/// One trailing carriage return removed, if there is one.
pub open spec fn strip_cr(s: Seq<char>) -> Seq<char> {
    if s.len() > 0 && s.last() == '\r' {
        s.drop_last()
    } else {
        s
    }
}

/// `str::lines`: the pieces between `\n`, each that ended in `\n` without a
/// trailing `\r`, and with no empty piece after a final `\n`.
pub open spec fn lines_spec(s: Seq<char>) -> Seq<Seq<char>> {
    let p = split_spec(s, '\n');
    let n = if p.last().len() == 0 {
        p.len() - 1
    } else {
        p.len() as int
    };
    Seq::new(
        n as nat,
        |i: int|
            if i < p.len() - 1 {
                strip_cr(p[i])
            } else {
                p[i]
            },
    )
}

/// ASCII lowercase of one character.
pub open spec fn ascii_lower_char(c: char) -> char {
    if 'A' <= c && c <= 'Z' {
        ((c as int) + 32) as char
    } else {
        c
    }
}

/// ASCII lowercase of a string: only `A`-`Z` change.
pub open spec fn ascii_lower(s: Seq<char>) -> Seq<char> {
    s.map_values(|c: char| ascii_lower_char(c))
}

/// Every character of `s` is ASCII.
pub open spec fn all_ascii(s: Seq<char>) -> bool {
    forall|i: int| 0 <= i < s.len() ==> (s[i] as u32) < 128
}

/// `str::eq_ignore_ascii_case`.
pub open spec fn eq_ignore_ascii_case(a: Seq<char>, b: Seq<char>) -> bool {
    ascii_lower(a) == ascii_lower(b)
}

/// Every occurrence of `from` replaced by `to`.
pub open spec fn replace_char(s: Seq<char>, from: char, to: char) -> Seq<char> {
    s.map_values(|c: char| if c == from { to } else { c })
}

/// The first `Some` that `f` gives over the elements of `s`, in order.
pub open spec fn first_some<A, B>(s: Seq<A>, f: spec_fn(A) -> Option<B>) -> Option<B>
    decreases s.len(),
{
    if s.len() == 0 {
        None
    } else {
        match first_some(s.drop_last(), f) {
            Some(x) => Some(x),
            None => f(s.last()),
        }
    }
}

/// The text views of a sequence of strings.
pub open spec fn views(v: Seq<String>) -> Seq<Seq<char>> {
    v.map_values(|x: String| x@)
}

/// The text views of a sequence of optional strings.
pub open spec fn opt_views(v: Seq<Option<String>>) -> Seq<Option<Seq<char>>> {
    v.map_values(|x: Option<String>| opt_view(x))
}

/// The text view of an optional string.
pub open spec fn opt_view(x: Option<String>) -> Option<Seq<char>> {
    match x {
        Some(s) => Some(s@),
        None => None,
    }
}

/// The lowercase of `s` by the Unicode rules that `str::to_lowercase` applies.
pub uninterp spec fn unicode_lowercase(s: Seq<char>) -> Seq<char>;

// ---------------------------------------------------------------------------
// Lemmas
// ---------------------------------------------------------------------------

/// `split` always yields at least one piece.
pub proof fn lemma_split_nonempty(s: Seq<char>, d: char)
    ensures
        split_spec(s, d).len() >= 1,
    decreases s.len(),
{
    if s.len() > 0 {
        lemma_split_nonempty(s.drop_last(), d);
    }
}

/// No piece of a split contains the delimiter.
pub proof fn lemma_split_pieces_lack_delim(s: Seq<char>, d: char)
    ensures
        forall|i: int|
            0 <= i < split_spec(s, d).len() ==> !(#[trigger] split_spec(s, d)[i]).contains(d),
    decreases s.len(),
{
    lemma_split_nonempty(s, d);
    if s.len() > 0 {
        lemma_split_pieces_lack_delim(s.drop_last(), d);
        lemma_split_nonempty(s.drop_last(), d);
        let p = split_spec(s.drop_last(), d);
        if s.last() != d {
            assert forall|i: int| 0 <= i < split_spec(s, d).len() implies !(
            #[trigger] split_spec(s, d)[i]).contains(d) by {
                if i == p.len() - 1 {
                    let q = p.last().push(s.last());
                    assert forall|j: int| 0 <= j < q.len() implies q[j] != d by {
                        if j < p.last().len() {
                            assert(q[j] == p[p.len() - 1][j]);
                            if q[j] == d {
                                assert(p[p.len() - 1].contains(d));
                            }
                        }
                    }
                    assert(split_spec(s, d)[i] == q);
                } else {
                    assert(split_spec(s, d)[i] == p[i]);
                }
            }
        }
    }
}

/// The value of a digit string only grows when digits are appended.
pub proof fn lemma_digits_value_prefix(s: Seq<char>, k: int)
    requires
        0 <= k <= s.len(),
    ensures
        digits_value(s.take(k)) <= digits_value(s),
    decreases s.len(),
{
    if k < s.len() {
        assert(s.drop_last().take(k) == s.take(k));
        lemma_digits_value_prefix(s.drop_last(), k);
    } else {
        assert(s.take(k) == s);
    }
}

/// The digit characters are the ASCII digits, in order.
pub proof fn lemma_digit_char(d: nat)
    requires
        d < 10,
    ensures
        is_ascii_digit(digit_char(d)),
        digit_value(digit_char(d)) == d,
        digit_char(d) != '+',
{
    assert(digit_char(d) as int == d + 48);
}

/// `decimal(n)` is made of digits, has no leading `+`, and reads back as `n`.
pub proof fn lemma_decimal_digits(n: nat)
    ensures
        decimal(n).len() > 0,
        all_digits(decimal(n)),
        digits_value(decimal(n)) == n,
        decimal(n)[0] != '+',
    decreases n,
{
    lemma_digit_char(n % 10);
    if n >= 10 {
        lemma_decimal_digits(n / 10);
        assert((n / 10) * 10 + n % 10 == n) by (nonlinear_arith);
        let d = decimal(n / 10);
        assert(decimal(n).drop_last() == d);
        assert(decimal(n).last() == digit_char(n % 10));
        assert(digits_value(decimal(n)) == digits_value(d) * 10 + digit_value(digit_char(n % 10)));
        assert(decimal(n)[0] == d[0]);
        assert(all_digits(decimal(n))) by {
            assert forall|i: int| 0 <= i < decimal(n).len() implies is_ascii_digit(
                #[trigger] decimal(n)[i],
            ) by {
                if i < d.len() {
                    assert(decimal(n)[i] == d[i]);
                }
            }
        }
    } else {
        assert(n % 10 == n);
        assert(decimal(n).drop_last() =~= Seq::<char>::empty());
        assert(digits_value(decimal(n)) == digits_value(Seq::<char>::empty()) * 10 + digit_value(
            digit_char(n),
        ));
    }
}

/// Parsing the decimal representation of a `u64` gives it back.
pub proof fn lemma_parse_decimal(n: u64)
    ensures
        parse_u64_spec(decimal(n as nat)) == Some(n),
{
    lemma_decimal_digits(n as nat);
}

// ---------------------------------------------------------------------------
// Executable operations
// ---------------------------------------------------------------------------

/// The characters of `s`, in order.
pub fn chars_of(s: &str) -> (v: Vec<char>)
    ensures
        v@ == s@,
{
    let mut v: Vec<char> = Vec::new();
    for c in it: s.chars()
        invariant
            it.seq() == s@,
            v@ == s@.take(it.index() as int),
    {
        v.push(c);
    }
    v
}

/// Appends `c` to `s` (`String::push`).
#[verifier::external_body]
fn push_char(s: &mut String, c: char)
    ensures
        final(s)@ == old(s)@.push(c),
{
    s.push(c);
}

/// The string made of the characters of `v`.
pub fn string_from(v: &[char]) -> (s: String)
    ensures
        s@ == v@,
{
    let mut s = String::new();
    for i in 0..v.len()
        invariant
            s@ == v@.take(i as int),
    {
        push_char(&mut s, v[i]);
        assert(v@.take(i + 1) == v@.take(i as int).push(v@[i as int]));
    }
    assert(v@.take(v.len() as int) == v@);
    s
}

/// Appends the characters of `t` to `v`.
pub fn extend_chars(v: &mut Vec<char>, t: &[char])
    ensures
        final(v)@ == old(v)@ + t@,
{
    let ghost v0 = v@;
    for i in 0..t.len()
        invariant
            v@ == v0 + t@.take(i as int),
    {
        v.push(t[i]);
        assert(t@.take(i + 1) == t@.take(i as int).push(t@[i as int]));
    }
    assert(t@.take(t.len() as int) == t@);
}

/// Appends the characters of `t` to `v`.
pub fn extend_str(v: &mut Vec<char>, t: &str)
    ensures
        final(v)@ == old(v)@ + t@,
{
    let c = chars_of(t);
    extend_chars(v, c.as_slice());
}

/// The characters `v[from..to]`.
pub fn sub_chars(v: &[char], from: usize, to: usize) -> (r: Vec<char>)
    requires
        from <= to <= v@.len(),
    ensures
        r@ == v@.subrange(from as int, to as int),
{
    let mut r: Vec<char> = Vec::new();
    let mut i = from;
    while i < to
        invariant
            from <= i <= to <= v@.len(),
            r@ == v@.subrange(from as int, i as int),
        decreases to - i,
    {
        r.push(v[i]);
        assert(v@.subrange(from as int, i + 1) == v@.subrange(from as int, i as int).push(
            v@[i as int],
        ));
        i = i + 1;
    }
    r
}

/// Whether two character sequences are equal.
pub fn chars_eq(a: &[char], b: &[char]) -> (r: bool)
    ensures
        r == (a@ == b@),
{
    if a.len() != b.len() {
        return false;
    }
    for i in 0..a.len()
        invariant
            a@.len() == b@.len(),
            forall|j: int| 0 <= j < i ==> a@[j] == b@[j],
    {
        if a[i] != b[i] {
            return false;
        }
    }
    assert(a@ =~= b@);
    true
}

/// Whether `a` equals the text `b`.
pub fn chars_eq_str(a: &[char], b: &str) -> (r: bool)
    ensures
        r == (a@ == b@),
{
    let bv = chars_of(b);
    chars_eq(a, bv.as_slice())
}

/// Whether `pat` occurs in `v` starting at position `at`.
pub fn matches_at(v: &[char], at: usize, pat: &[char]) -> (r: bool)
    requires
        at <= v@.len(),
    ensures
        r == pat@.is_prefix_of(v@.skip(at as int)),
{
    if v.len() - at < pat.len() {
        return false;
    }
    assert(at + pat@.len() <= v@.len());
    for j in 0..pat.len()
        invariant
            at + pat@.len() <= v@.len(),
            v@.len() <= usize::MAX,
            forall|k: int| 0 <= k < j ==> v@[at + k] == pat@[k],
    {
        if v[at + j] != pat[j] {
            assert(v@.skip(at as int)[j as int] == v@[at + j]);
            return false;
        }
    }
    assert(pat@ =~= v@.skip(at as int).subrange(0, pat@.len() as int));
    true
}

/// Whether `v` starts with `pat`.
pub fn starts_with(v: &[char], pat: &[char]) -> (r: bool)
    ensures
        r == pat@.is_prefix_of(v@),
{
    assert(v@.skip(0) == v@);
    matches_at(v, 0, pat)
}

/// Whether `v` starts with the text `pat`.
pub fn starts_with_str(v: &[char], pat: &str) -> (r: bool)
    ensures
        r == pat@.is_prefix_of(v@),
{
    let p = chars_of(pat);
    starts_with(v, p.as_slice())
}

/// Whether `v` ends with `pat`.
pub fn ends_with(v: &[char], pat: &[char]) -> (r: bool)
    ensures
        r == pat@.is_suffix_of(v@),
{
    if v.len() < pat.len() {
        return false;
    }
    let at = v.len() - pat.len();
    let r = matches_at(v, at, pat);
    assert(v@.skip(at as int).subrange(0, pat@.len() as int) =~= v@.subrange(
        at as int,
        v@.len() as int,
    ));
    r
}

/// Whether `v` ends with the text `pat`.
pub fn ends_with_str(v: &[char], pat: &str) -> (r: bool)
    ensures
        r == pat@.is_suffix_of(v@),
{
    let p = chars_of(pat);
    ends_with(v, p.as_slice())
}

/// Whether `c` occurs in `v`.
pub fn contains_char(v: &[char], c: char) -> (r: bool)
    ensures
        r == v@.contains(c),
{
    for i in 0..v.len()
        invariant
            forall|j: int| 0 <= j < i ==> v@[j] != c,
    {
        if v[i] == c {
            return true;
        }
    }
    false
}

/// The position of the first occurrence of `pat` in `v` (`str::find`).
pub fn find_chars(v: &[char], pat: &[char]) -> (r: Option<usize>)
    ensures
        match r {
            Some(i) => find_spec(v@, pat@) == Some(i as int),
            None => find_spec(v@, pat@) is None,
        },
{
    let mut i: usize = 0;
    assert(v@.skip(0) == v@);
    while i < v.len()
        invariant
            i <= v@.len(),
            find_spec(v@, pat@) == (match find_spec(v@.skip(i as int), pat@) {
                Some(k) => Some(k + i),
                None => None::<int>,
            }),
        decreases v@.len() - i,
    {
        if matches_at(v, i, pat) {
            return Some(i);
        }
        assert(v@.skip(i as int).drop_first() == v@.skip(i + 1));
        i = i + 1;
    }
    assert(v@.skip(i as int).len() == 0);
    if matches_at(v, i, pat) {
        Some(i)
    } else {
        None
    }
}

/// The position of the first occurrence of the text `pat` in `v`.
pub fn find_str(v: &[char], pat: &str) -> (r: Option<usize>)
    ensures
        match r {
            Some(i) => find_spec(v@, pat@) == Some(i as int),
            None => find_spec(v@, pat@) is None,
        },
{
    let p = chars_of(pat);
    find_chars(v, p.as_slice())
}

/// The pieces of `v` between occurrences of `d` (`str::split`).
pub fn split_chars(v: &[char], d: char) -> (r: Vec<Vec<char>>)
    ensures
        r@.map_values(|x: Vec<char>| x@) == split_spec(v@, d),
{
    let mut out: Vec<Vec<char>> = Vec::new();
    let mut cur: Vec<char> = Vec::new();
    for i in 0..v.len()
        invariant
            out@.map_values(|x: Vec<char>| x@).push(cur@) == split_spec(v@.take(i as int), d),
    {
        let ghost prev = out@.map_values(|x: Vec<char>| x@).push(cur@);
        let ghost out0 = out@.map_values(|x: Vec<char>| x@);
        let ghost cur0 = cur@;
        assert(v@.take(i + 1).drop_last() == v@.take(i as int));
        assert(v@.take(i + 1).last() == v@[i as int]);
        if v[i] == d {
            let piece = cur;
            out.push(piece);
            assert(out@.map_values(|x: Vec<char>| x@) =~= out0.push(cur0));
            cur = Vec::new();
        } else {
            cur.push(v[i]);
            assert(prev.update(prev.len() - 1, prev.last().push(v@[i as int])) =~= out0.push(cur@));
        }
        assert(out@.map_values(|x: Vec<char>| x@).push(cur@) =~= split_spec(v@.take(i + 1), d));
    }
    out.push(cur);
    assert(v@.take(v.len() as int) == v@);
    out
}

/// Leading whitespace removed (`str::trim_start`).
pub fn trim_start(v: &[char]) -> (r: Vec<char>)
    ensures
        r@ == trim_start_spec(v@),
{
    let mut i: usize = 0;
    while i < v.len() && char_is_whitespace(v[i])
        invariant
            i <= v@.len(),
            trim_start_spec(v@) == trim_start_spec(v@.skip(i as int)),
        decreases v@.len() - i,
    {
        assert(v@.skip(i as int).drop_first() == v@.skip(i + 1));
        i = i + 1;
    }
    let r = sub_chars(v, i, v.len());
    assert(r@ == v@.skip(i as int));
    r
}

/// Trailing whitespace removed (`str::trim_end`).
pub fn trim_end(v: &[char]) -> (r: Vec<char>)
    ensures
        r@ == trim_end_spec(v@),
{
    let mut n: usize = v.len();
    while n > 0 && char_is_whitespace(v[n - 1])
        invariant
            n <= v@.len(),
            trim_end_spec(v@) == trim_end_spec(v@.take(n as int)),
        decreases n,
    {
        assert(v@.take(n as int).drop_last() == v@.take(n - 1));
        n = n - 1;
    }
    let r = sub_chars(v, 0, n);
    assert(r@ == v@.take(n as int));
    r
}

/// Whitespace removed at both ends (`str::trim`).
pub fn trim(v: &[char]) -> (r: Vec<char>)
    ensures
        r@ == trim_spec(v@),
{
    let a = trim_start(v);
    trim_end(a.as_slice())
}

/// `char::is_whitespace`.
pub fn char_is_whitespace(c: char) -> (r: bool)
    ensures
        r == is_whitespace(c),
{
    ('\u{9}' <= c && c <= '\u{d}') || c == ' ' || c == '\u{85}' || c == '\u{a0}' || c
        == '\u{1680}' || ('\u{2000}' <= c && c <= '\u{200a}') || c == '\u{2028}' || c
        == '\u{2029}' || c == '\u{202f}' || c == '\u{205f}' || c == '\u{3000}'
}

/// The lines of `v` (`str::lines`).
pub fn lines_of(v: &[char]) -> (r: Vec<Vec<char>>)
    ensures
        r@.map_values(|x: Vec<char>| x@) == lines_spec(v@),
{
    let p = split_chars(v, '\n');
    proof {
        lemma_split_nonempty(v@, '\n');
    }
    let np = p.len();
    let n = if p[np - 1].len() == 0 {
        np - 1
    } else {
        np
    };
    let mut out: Vec<Vec<char>> = Vec::new();
    for i in 0..n
        invariant
            np == p@.map_values(|x: Vec<char>| x@).len(),
            p@.map_values(|x: Vec<char>| x@) == split_spec(v@, '\n'),
            n <= np,
            out@.map_values(|x: Vec<char>| x@) =~= lines_spec(v@).take(i as int),
            n == lines_spec(v@).len(),
    {
        let piece = &p[i];
        assert(piece@ == p@.map_values(|x: Vec<char>| x@)[i as int]);
        let line = if i + 1 < np && piece.len() > 0 && piece[piece.len() - 1] == '\r' {
            sub_chars(piece.as_slice(), 0, piece.len() - 1)
        } else {
            sub_chars(piece.as_slice(), 0, piece.len())
        };
        assert(line@ == lines_spec(v@)[i as int]);
        let ghost out0 = out@.map_values(|x: Vec<char>| x@);
        out.push(line);
        assert(out@.map_values(|x: Vec<char>| x@) =~= out0.push(line@));
        assert(lines_spec(v@).take(i + 1) == lines_spec(v@).take(i as int).push(
            lines_spec(v@)[i as int],
        ));
    }
    out
}

/// The ASCII lowercase of one character.
pub fn to_ascii_lower_char(c: char) -> (r: char)
    ensures
        r == ascii_lower_char(c),
{
    if 'A' <= c && c <= 'Z' {
        let b = (c as u32) + 32;
        char_from_ascii(b)
    } else {
        c
    }
}

/// The character with an ASCII code below 128.
fn char_from_ascii(b: u32) -> (r: char)
    requires
        b < 128,
    ensures
        r == b as char,
{
    (b as u8) as char
}

/// The ASCII lowercase of `v`.
pub fn to_ascii_lower(v: &[char]) -> (r: Vec<char>)
    ensures
        r@ == ascii_lower(v@),
{
    let mut r: Vec<char> = Vec::new();
    for i in 0..v.len()
        invariant
            r@ =~= ascii_lower(v@.take(i as int)),
    {
        r.push(to_ascii_lower_char(v[i]));
    }
    assert(v@.take(v.len() as int) == v@);
    r
}

/// Whether `a` and `b` agree up to ASCII case (`str::eq_ignore_ascii_case`).
pub fn chars_eq_ignore_ascii_case(a: &[char], b: &[char]) -> (r: bool)
    ensures
        r == eq_ignore_ascii_case(a@, b@),
{
    let la = to_ascii_lower(a);
    let lb = to_ascii_lower(b);
    chars_eq(la.as_slice(), lb.as_slice())
}

/// Every `from` replaced by `to`.
pub fn replace_chars(v: &[char], from: char, to: char) -> (r: Vec<char>)
    ensures
        r@ == replace_char(v@, from, to),
{
    let mut r: Vec<char> = Vec::new();
    for i in 0..v.len()
        invariant
            r@ =~= replace_char(v@.take(i as int), from, to),
    {
        if v[i] == from {
            r.push(to);
        } else {
            r.push(v[i]);
        }
    }
    assert(v@.take(v.len() as int) == v@);
    r
}

/// `str::to_lowercase`. Its result is named by `unicode_lowercase`; on ASCII
/// text, as std documents, only `A`-`Z` change, each to its `a`-`z` letter.
/// What it gives for other characters is left to the name.
#[verifier::external_body]
pub(crate) fn to_lowercase(s: &str) -> (r: String)
    ensures
        r@ == unicode_lowercase(s@),
        all_ascii(s@) ==> r@ == ascii_lower(s@),
{
    s.to_lowercase()
}

/// The Unicode lowercase of the characters `v`.
pub fn lowercase_chars(v: &[char]) -> (r: Vec<char>)
    ensures
        r@ == unicode_lowercase(v@),
        all_ascii(v@) ==> r@ == ascii_lower(v@),
{
    let s = string_from(v);
    let l = to_lowercase(s.as_str());
    chars_of(l.as_str())
}

/// `str::parse::<u64>`.
pub fn parse_u64(v: &[char]) -> (r: Option<u64>)
    ensures
        r == parse_u64_spec(v@),
{
    let start: usize = if v.len() > 0 && v[0] == '+' {
        1
    } else {
        0
    };
    let ghost t = if v@.len() > 0 && v@[0] == '+' {
        v@.drop_first()
    } else {
        v@
    };
    assert(t == v@.skip(start as int));
    if start == v.len() {
        return None;
    }
    let mut acc: u64 = 0;
    let mut i = start;
    while i < v.len()
        invariant
            start <= i <= v@.len(),
            t == v@.skip(start as int),
            parse_u64_spec(v@) == (if t.len() > 0 && all_digits(t) && digits_value(t) <= u64::MAX {
                Some(digits_value(t) as u64)
            } else {
                None
            }),
            t.len() > 0,
            all_digits(t.take(i - start)),
            acc as nat == digits_value(t.take(i - start)),
        decreases v@.len() - i,
    {
        let c = v[i];
        let ghost k = i - start;
        assert(t[k] == c);
        if !('0' <= c && c <= '9') {
            assert(!all_digits(t));
            return None;
        }
        let d = (c as u32 - '0' as u32) as u64;
        proof {
            lemma_digits_step(t, k);
        }
        if acc > (u64::MAX - d) / 10 {
            proof {
                lemma_mul_add_exceeds(acc as int, d as int);
                lemma_digits_value_prefix(t, k + 1);
            }
            return None;
        }
        proof {
            lemma_mul_add_fits(acc as int, d as int);
        }
        acc = acc * 10 + d;
        i = i + 1;
    }
    assert(t.take(t.len() as int) == t);
    Some(acc)
}

proof fn lemma_digits_step(t: Seq<char>, k: int)
    requires
        0 <= k < t.len(),
        all_digits(t.take(k)),
        is_ascii_digit(t[k]),
    ensures
        all_digits(t.take(k + 1)),
        digits_value(t.take(k + 1)) == digits_value(t.take(k)) * 10 + digit_value(t[k]),
{
    assert(t.take(k + 1).drop_last() == t.take(k));
    assert forall|i: int| 0 <= i < k + 1 implies is_ascii_digit(#[trigger] t.take(k + 1)[i]) by {
        if i < k {
            assert(t.take(k + 1)[i] == t.take(k)[i]);
        }
    }
}

proof fn lemma_mul_add_exceeds(acc: int, d: int)
    requires
        0 <= d <= 9,
        acc > (u64::MAX - d) / 10,
    ensures
        acc * 10 + d > u64::MAX,
{
    assert(acc * 10 + d > u64::MAX) by (nonlinear_arith)
        requires
            0 <= d <= 9,
            acc > (u64::MAX - d) / 10,
    ;
}

proof fn lemma_mul_add_fits(acc: int, d: int)
    requires
        0 <= d <= 9,
        0 <= acc <= (u64::MAX - d) / 10,
    ensures
        acc * 10 + d <= u64::MAX,
{
    assert(acc * 10 + d <= u64::MAX) by (nonlinear_arith)
        requires
            0 <= d <= 9,
            0 <= acc <= (u64::MAX - d) / 10,
    ;
}

/// The decimal characters of `n` (`u64::to_string`).
pub fn decimal_chars(n: u64) -> (r: Vec<char>)
    ensures
        r@ == decimal(n as nat),
    decreases n,
{
    let d = (n % 10) as u32 + 48;
    let c = char_from_ascii(d);
    if n < 10 {
        let mut r: Vec<char> = Vec::new();
        r.push(c);
        r
    } else {
        let mut r = decimal_chars(n / 10);
        r.push(c);
        r
    }
}

/// Appends the decimal characters of `n` to `v`.
pub fn extend_decimal(v: &mut Vec<char>, n: u64)
    ensures
        final(v)@ == old(v)@ + decimal(n as nat),
{
    let d = decimal_chars(n);
    extend_chars(v, d.as_slice());
}

} // verus!
