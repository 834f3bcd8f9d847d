//! The activity log: one line `timestamp|LEVEL|message` per event, read back
//! newest first.
use vstd::prelude::*;
use crate::model::LogLine;
use crate::text::{
    chars_of, decimal, extend_chars, extend_decimal, extend_str, find_chars, find_spec,
    lemma_parse_decimal, lemma_decimal_digits, all_digits, lemma_split_nonempty, lines_of, lines_spec, parse_u64,
    parse_u64_spec, split_spec, string_from, strip_cr, sub_chars,
};

verus! {

broadcast use vstd::seq_lib::group_seq_properties;

/// The text of one log line, with its line ending.
pub open spec fn log_line_text(ts: u64, level: Seq<char>, message: Seq<char>) -> Seq<char> {
    decimal(ts as nat) + seq!['|'] + level + seq!['|'] + message + seq!['\n']
}

/// What one line of the log reads as: a timestamp before the first `|`, a
/// level up to the next `|`, and the rest as the message.
pub open spec fn parse_log_line_spec(l: Seq<char>) -> Option<(u64, Seq<char>, Seq<char>)> {
    match find_spec(l, seq!['|']) {
        Some(i) => {
            let rest = l.skip(i + 1);
            match find_spec(rest, seq!['|']) {
                Some(j) => match parse_u64_spec(l.take(i)) {
                    Some(ts) => Some((ts, rest.take(j), rest.skip(j + 1))),
                    None => None,
                },
                None => None,
            }
        },
        None => None,
    }
}

/// The entries of a log file, oldest first; lines that do not parse are skipped.
pub open spec fn log_entries(content: Seq<char>) -> Seq<(u64, Seq<char>, Seq<char>)> {
    lines_spec(content).filter_map(|l: Seq<char>| parse_log_line_spec(l))
}

/// The most entries that a read of the log gives.
pub open spec fn log_read_limit() -> nat {
    500
}

/// What a read of the log gives: its entries newest first, at most 500.
pub open spec fn log_read_spec(content: Seq<char>) -> Seq<(u64, Seq<char>, Seq<char>)> {
    let e = log_entries(content).reverse();
    if e.len() > log_read_limit() {
        e.take(log_read_limit() as int)
    } else {
        e
    }
}

/// The fields of a log entry.
pub open spec fn log_line_view(l: LogLine) -> (u64, Seq<char>, Seq<char>) {
    (l.ts, l.level@, l.message@)
}

/// The line that records one event in the log.
pub fn format_log_line(ts: u64, level: &str, message: &str) -> (r: String)
    ensures
        r@ == log_line_text(ts, level@, message@),
{
    let mut v: Vec<char> = Vec::new();
    extend_decimal(&mut v, ts);
    v.push('|');
    extend_str(&mut v, level);
    v.push('|');
    extend_str(&mut v, message);
    v.push('\n');
    string_from(v.as_slice())
}

/// Reads one line of the log.
pub fn parse_log_line(l: &[char]) -> (r: Option<LogLine>)
    ensures
        match r {
            Some(e) => parse_log_line_spec(l@) == Some(log_line_view(e)),
            None => parse_log_line_spec(l@) is None,
        },
{
    let bar = vec!['|'];
    assert(bar@ =~= seq!['|']);
    let i = match find_chars(l, bar.as_slice()) {
        Some(i) => i,
        None => return None,
    };
    proof {
        lemma_find_in_range(l@, seq!['|']);
    }
    let ll = l.len();
    assert(i + 1 <= ll);
    let rest = sub_chars(l, i + 1, ll);
    assert(rest@ == l@.skip(i + 1));
    let j = match find_chars(rest.as_slice(), bar.as_slice()) {
        Some(j) => j,
        None => return None,
    };
    proof {
        lemma_find_in_range(rest@, seq!['|']);
    }
    let head = sub_chars(l, 0, i);
    assert(head@ == l@.take(i as int));
    let ts = match parse_u64(head.as_slice()) {
        Some(t) => t,
        None => return None,
    };
    let level = sub_chars(rest.as_slice(), 0, j);
    let message = sub_chars(rest.as_slice(), j + 1, rest.len());
    assert(message@ == rest@.skip(j + 1));
    Some(LogLine { ts, level: string_from(level.as_slice()), message: string_from(message.as_slice()) })
}

/// A found position lies inside the text.
pub proof fn lemma_find_in_range(s: Seq<char>, pat: Seq<char>)
    ensures
        find_spec(s, pat) matches Some(i) ==> 0 <= i && i + pat.len() <= s.len(),
    decreases s.len(),
{
    if !pat.is_prefix_of(s) && s.len() > 0 {
        lemma_find_in_range(s.drop_first(), pat);
    }
}

/// The log entries in `content`, newest first, at most 500 of them.
pub fn read_log(content: &str) -> (r: Vec<LogLine>)
    ensures
        r@.map_values(|l: LogLine| log_line_view(l)) == log_read_spec(content@),
{
    let v = chars_of(content);
    let ls = lines_of(v.as_slice());
    let ghost lv = ls@.map_values(|x: Vec<char>| x@);
    let mut parsed: Vec<LogLine> = Vec::new();
    for i in 0..ls.len()
        invariant
            lv == ls@.map_values(|x: Vec<char>| x@),
            lv == lines_spec(content@),
            parsed@.map_values(|l: LogLine| log_line_view(l)) == lv.take(i as int).filter_map(
                |l: Seq<char>| parse_log_line_spec(l),
            ),
    {
        let ghost before = parsed@.map_values(|l: LogLine| log_line_view(l));
        assert(lv.take(i + 1).drop_last() == lv.take(i as int));
        assert(lv.take(i + 1).last() == ls@[i as int]@);
        match parse_log_line(ls[i].as_slice()) {
            Some(e) => {
                parsed.push(e);
                assert(parsed@.map_values(|l: LogLine| log_line_view(l)) =~= before + seq![
                    log_line_view(e),
                ]);
            },
            None => {},
        }
    }
    assert(lv.take(ls.len() as int) == lv);
    let ghost all = parsed@.map_values(|l: LogLine| log_line_view(l));
    let n = parsed.len();
    let keep = if n > 500 {
        500
    } else {
        n
    };
    let mut out: Vec<LogLine> = Vec::new();
    let mut k: usize = 0;
    while k < keep
        invariant
            keep <= n,
            keep == (if n > 500 { 500 } else { n }),
            all.len() == n,
            k <= keep,
            parsed@.len() == n - k,
            parsed@.map_values(|l: LogLine| log_line_view(l)) == all.take(n - k),
            out@.map_values(|l: LogLine| log_line_view(l)) == all.reverse().take(k as int),
        decreases keep - k,
    {
        let ghost before = out@.map_values(|l: LogLine| log_line_view(l));
        let ghost rest = parsed@.map_values(|l: LogLine| log_line_view(l));
        let e = parsed.pop().unwrap();
        assert(log_line_view(e) == rest.last());
        assert(rest.last() == all[n - k - 1]);
        assert(parsed@.map_values(|l: LogLine| log_line_view(l)) =~= all.take(n - k - 1));
        out.push(e);
        assert(out@.map_values(|l: LogLine| log_line_view(l)) =~= before.push(log_line_view(e)));
        assert(all.reverse()[k as int] == all[n - 1 - k]);
        assert(all.reverse().take(k + 1) =~= all.reverse().take(k as int).push(all.reverse()[k as int]));
        k = k + 1;
    }
    assert(all.reverse().len() == n);
    if n <= 500 {
        assert(all.reverse().take(n as int) == all.reverse());
    }
    out
}

// ---------------------------------------------------------------------------
// Writing and reading back
// ---------------------------------------------------------------------------

/// A text without the delimiter splits into itself alone.
pub proof fn lemma_split_single(x: Seq<char>, d: char)
    requires
        !x.contains(d),
    ensures
        split_spec(x, d) == seq![x],
    decreases x.len(),
{
    if x.len() > 0 {
        assert(!x.drop_last().contains(d)) by {
            if x.drop_last().contains(d) {
                let k = choose|k: int| 0 <= k < x.drop_last().len() && x.drop_last()[k] == d;
                assert(x[k] == d);
            }
        }
        lemma_split_single(x.drop_last(), d);
        assert(x.last() != d) by {
            assert(x[x.len() - 1] == x.last());
        }
        assert(x.drop_last().push(x.last()) =~= x);
        assert(seq![x.drop_last()].update(0, x.drop_last().push(x.last())) =~= seq![x]);
    } else {
        assert(x =~= Seq::<char>::empty());
    }
}

/// Splitting text that follows a delimiter continues the pieces before it.
pub proof fn lemma_split_append(a: Seq<char>, b: Seq<char>, d: char)
    requires
        a.len() > 0,
        a.last() == d,
    ensures
        split_spec(a + b, d) == split_spec(a, d).drop_last() + split_spec(b, d),
    decreases b.len(),
{
    lemma_split_nonempty(a.drop_last(), d);
    assert(a.drop_last() + seq![d] =~= a);
    if b.len() == 0 {
        assert(a + b =~= a);
        assert(split_spec(a, d) == split_spec(a.drop_last(), d).push(Seq::<char>::empty()));
        assert(split_spec(a, d).drop_last() + split_spec(b, d) =~= split_spec(a, d));
    } else {
        let b0 = b.drop_last();
        lemma_split_append(a, b0, d);
        lemma_split_nonempty(b0, d);
        assert((a + b).drop_last() =~= a + b0);
        assert((a + b).last() == b.last());
        let pa = split_spec(a, d).drop_last();
        let q = split_spec(b0, d);
        if b.last() == d {
            assert((pa + q).push(Seq::<char>::empty()) =~= pa + q.push(Seq::<char>::empty()));
        } else {
            let pq = pa + q;
            assert(pq.update(pq.len() - 1, pq.last().push(b.last())) =~= pa + q.update(
                q.len() - 1,
                q.last().push(b.last()),
            ));
        }
    }
}

/// A single-character pattern is found where it first occurs.
pub proof fn lemma_find_single(p: Seq<char>, c: char, q: Seq<char>)
    requires
        !p.contains(c),
    ensures
        find_spec(p + seq![c] + q, seq![c]) == Some(p.len() as int),
    decreases p.len(),
{
    let s = p + seq![c] + q;
    if p.len() == 0 {
        assert(s[0] == c);
        assert(seq![c].is_prefix_of(s));
    } else {
        assert(s[0] == p[0]);
        assert(!seq![c].is_prefix_of(s)) by {
            if seq![c].is_prefix_of(s) {
                assert(s.subrange(0, 1)[0] == c);
                assert(p[0] == c);
            }
        }
        assert(!p.drop_first().contains(c)) by {
            if p.drop_first().contains(c) {
                let k = choose|k: int| 0 <= k < p.drop_first().len() && p.drop_first()[k] == c;
                assert(p[k + 1] == c);
            }
        }
        lemma_find_single(p.drop_first(), c, q);
        assert(s.drop_first() =~= p.drop_first() + seq![c] + q);
    }
}

/// A formatted entry reads back as itself.
pub proof fn lemma_parse_formatted(ts: u64, level: Seq<char>, message: Seq<char>)
    requires
        !level.contains('|'),
    ensures
        parse_log_line_spec(decimal(ts as nat) + seq!['|'] + level + seq!['|'] + message) == Some(
            (ts, level, message),
        ),
{
    let d = decimal(ts as nat);
    lemma_decimal_digits(ts as nat);
    lemma_parse_decimal(ts);
    assert(!d.contains('|')) by {
        if d.contains('|') {
            let k = choose|k: int| 0 <= k < d.len() && d[k] == '|';
            assert(crate::text::is_ascii_digit(d[k]));
        }
    }
    let rest = level + seq!['|'] + message;
    let l = d + seq!['|'] + rest;
    assert(l =~= d + seq!['|'] + level + seq!['|'] + message);
    lemma_find_single(d, '|', rest);
    assert(l.skip(d.len() + 1int) =~= rest);
    lemma_find_single(level, '|', message);
    assert(l.take(d.len() as int) =~= d);
    assert(rest.take(level.len() as int) =~= level);
    assert(rest.skip(level.len() + 1int) =~= message);
}

/// Appending one terminated line to terminated text adds one line.
pub proof fn lemma_lines_append(c: Seq<char>, x: Seq<char>)
    requires
        c.len() == 0 || c.last() == '\n',
        !x.contains('\n'),
    ensures
        lines_spec(c + x + seq!['\n']) == lines_spec(c).push(strip_cr(x)),
{
    let t = x + seq!['\n'];
    lemma_split_single(x, '\n');
    assert(t.drop_last() =~= x);
    assert(split_spec(t, '\n') =~= seq![x, Seq::<char>::empty()]);
    let sc = if c.len() == 0 {
        Seq::<Seq<char>>::empty()
    } else {
        split_spec(c, '\n').drop_last()
    };
    if c.len() == 0 {
        assert(c + t =~= t);
    } else {
        lemma_split_append(c, t, '\n');
        assert(c + t =~= c + x + seq!['\n']);
        lemma_split_nonempty(c.drop_last(), '\n');
        assert(c.drop_last() + seq!['\n'] =~= c);
    }
    let p = split_spec(c + x + seq!['\n'], '\n');
    assert(c + x + seq!['\n'] =~= c + t);
    assert(p =~= sc + seq![x, Seq::<char>::empty()]);
    let pc = split_spec(c, '\n');
    assert(pc =~= sc.push(Seq::<char>::empty()));
    assert(lines_spec(c + x + seq!['\n']) =~= lines_spec(c).push(strip_cr(x)));
}

/// Writing an event to the log and reading the log back gives that event
/// first, after the entries that were there; a line written to a log whose
/// text ends at a line break is the last entry.
pub proof fn law_log_write_then_read(
    content: Seq<char>,
    ts: u64,
    level: Seq<char>,
    message: Seq<char>,
)
    requires
        content.len() == 0 || content.last() == '\n',
        !level.contains('|'),
        !level.contains('\n'),
        !message.contains('\n'),
        message.len() == 0 || message.last() != '\r',
    ensures
        log_entries(content + log_line_text(ts, level, message)) == log_entries(content).push(
            (ts, level, message),
        ),
        log_read_spec(content + log_line_text(ts, level, message))[0] == (ts, level, message),
{
    let d = decimal(ts as nat);
    let x = d + seq!['|'] + level + seq!['|'] + message;
    lemma_decimal_digits(ts as nat);
    assert(!x.contains('\n')) by {
        if x.contains('\n') {
            let k = choose|k: int| 0 <= k < x.len() && x[k] == '\n';
            if k < d.len() {
                assert(crate::text::is_ascii_digit(d[k]));
            } else if k == d.len() {
            } else if k < d.len() + 1 + level.len() {
                assert(level[k - d.len() - 1] == '\n');
            } else if k == d.len() + 1 + level.len() {
            } else {
                assert(message[k - d.len() - 2 - level.len()] == '\n');
            }
        }
    }
    assert(strip_cr(x) == x) by {
        assert(x.last() != '\r') by {
            if message.len() > 0 {
                assert(x.last() == message.last());
            } else {
                assert(x.last() == '|');
            }
        }
    }
    assert(log_line_text(ts, level, message) =~= x + seq!['\n']);
    assert(content + log_line_text(ts, level, message) =~= content + x + seq!['\n']);
    lemma_lines_append(content, x);
    lemma_parse_formatted(ts, level, message);
    let ls = lines_spec(content);
    assert(ls.push(x).drop_last() =~= ls);
    assert(ls.push(x).last() == x);
    let all = log_entries(content + log_line_text(ts, level, message));
    assert(all =~= log_entries(content).push((ts, level, message)));
    assert(all.reverse()[0] == all[all.len() - 1]);
}

} // verus!
