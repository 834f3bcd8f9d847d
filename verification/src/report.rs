//! Reports: the diagnostic report a user exports, the tail of the loader's
//! log, and the activity log entries that a diagnostics run leaves.
use vstd::prelude::*;
use crate::diagnostics::{issue_view, issues_view, join_spec_seq, join_with, setup_issue_spec};
use crate::model::{Config, DiagIssue};
use crate::paths::{ancestor_spec, join_path_str, join_spec, leading_path_of, path_components};
use crate::text::{chars_eq_str, chars_of, extend_chars, extend_decimal, extend_str, lines_of, lines_spec, string_from, trim, trim_spec, views, decimal, opt_view};

verus! {

broadcast use vstd::seq_lib::group_seq_properties;

/// Lines written out, each followed by a newline.
pub open spec fn unlines(ls: Seq<Seq<char>>) -> Seq<char>
    decreases ls.len(),
{
    if ls.len() == 0 {
        Seq::empty()
    } else {
        unlines(ls.drop_last()) + ls.last() + seq!['\n']
    }
}

/// The last `n` lines of a text (all of them when it has fewer).
pub open spec fn last_lines(content: Seq<char>, n: nat) -> Seq<Seq<char>> {
    let ls = lines_spec(content);
    if ls.len() > n {
        ls.skip(ls.len() - n)
    } else {
        ls
    }
}

/// The last `n` lines of a text.
fn last_lines_exec(content: &str, n: usize) -> (r: Vec<String>)
    ensures
        views(r@) == last_lines(content@, n as nat),
{
    let v = chars_of(content);
    let ls = lines_of(v.as_slice());
    let ghost lv = ls@.map_values(|x: Vec<char>| x@);
    let start: usize = if ls.len() > n {
        ls.len() - n
    } else {
        0
    };
    let mut out: Vec<String> = Vec::new();
    for i in start..ls.len()
        invariant
            lv == ls@.map_values(|x: Vec<char>| x@),
            lv == lines_spec(content@),
            start <= i <= ls@.len(),
            views(out@) == lv.subrange(start as int, i as int),
    {
        let ghost o0 = views(out@);
        out.push(string_from(ls[i].as_slice()));
        assert(lv[i as int] == ls@[i as int]@);
        assert(views(out@) =~= o0.push(lv[i as int]));
        assert(views(out@) =~= lv.subrange(start as int, i + 1));
    }
    assert(lv.subrange(start as int, ls.len() as int) =~= last_lines(content@, n as nat));
    out
}

/// The text of lines, each followed by a newline.
fn unlines_exec(ls: &Vec<String>) -> (r: String)
    ensures
        r@ == unlines(views(ls@)),
{
    let ghost lv = views(ls@);
    let mut out: Vec<char> = Vec::new();
    for i in 0..ls.len()
        invariant
            lv == views(ls@),
            out@ == unlines(lv.take(i as int)),
    {
        assert(lv.take(i + 1).drop_last() == lv.take(i as int));
        assert(lv.take(i + 1).last() == ls@[i as int]@);
        let s = chars_of(ls[i].as_str());
        extend_chars(&mut out, s.as_slice());
        out.push('\n');
    }
    assert(lv.take(ls.len() as int) == lv);
    string_from(out.as_slice())
}

// ---------------------------------------------------------------------------
// The loader's log
// ---------------------------------------------------------------------------

/// The loader's log next to the mods folder: `UE4SS.log` in its parent.
pub open spec fn ue4ss_log_spec(mods_folder: Seq<char>) -> Option<Seq<char>> {
    match ancestor_spec(mods_folder, 1) {
        Some(p) => Some(join_spec(p, "UE4SS.log"@)),
        None => None,
    }
}

/// The loader's log next to a mods folder, when the folder has a parent.
pub fn ue4ss_log_path(mods_folder: &str) -> (r: Option<String>)
    ensures
        match r {
            Some(p) => ue4ss_log_spec(mods_folder@) == Some(p@),
            None => ue4ss_log_spec(mods_folder@) is None,
        },
{
    let v = chars_of(mods_folder);
    let cs = path_components(v.as_slice());
    assert(cs@.map_values(|x: Vec<char>| x@).len() == cs@.len());
    if cs.len() < 1 {
        return None;
    }
    let parent = leading_path_of(v.as_slice(), cs.len() - 1);
    let p = join_path_str(parent.as_slice(), "UE4SS.log");
    Some(string_from(p.as_slice()))
}

/// The loader's log of a configuration, or why there is none.
pub open spec fn ue4ss_log_location_spec(config: Option<&Config>) -> Result<Seq<char>, Seq<char>> {
    match config {
        None => Err("No config"@),
        Some(c) => match c.mods_folder {
            None => Err("No mods folder configured"@),
            Some(f) => match ue4ss_log_spec(f@) {
                Some(p) => Ok(p),
                None => Err("Invalid mods folder path"@),
            },
        },
    }
}

/// The loader's log of a configuration (`get_ue4ss_log`).
pub fn ue4ss_log_location(config: Option<&Config>) -> (r: Result<String, String>)
    ensures
        match r {
            Ok(p) => ue4ss_log_location_spec(config) == Ok::<Seq<char>, Seq<char>>(p@),
            Err(e) => ue4ss_log_location_spec(config) == Err::<Seq<char>, Seq<char>>(e@),
        },
{
    let c = match config {
        Some(c) => c,
        None => return Err("No config".to_owned()),
    };
    let f = match &c.mods_folder {
        Some(f) => f,
        None => return Err("No mods folder configured".to_owned()),
    };
    match ue4ss_log_path(f.as_str()) {
        Some(p) => Ok(p),
        None => Err("Invalid mods folder path".to_owned()),
    }
}

/// The message when the loader's log does not exist.
pub open spec fn ue4ss_log_missing_message() -> Seq<char> {
    "UE4SS.log not found. Run the game at least once with UE4SS installed to generate it."@
}

/// The message when the loader's log does not exist.
pub fn ue4ss_log_missing() -> (r: String)
    ensures
        r@ == ue4ss_log_missing_message(),
{
    "UE4SS.log not found. Run the game at least once with UE4SS installed to generate it.".to_owned()
}

/// What is shown of the loader's log: its last 400 lines, joined by newlines.
pub fn ue4ss_log_tail(content: &str) -> (r: String)
    ensures
        r@ == join_spec_seq(last_lines(content@, 400), "\n"@),
{
    let t = last_lines_exec(content, 400);
    let j = join_with(&t, "\n");
    string_from(j.as_slice())
}

// ---------------------------------------------------------------------------
// The diagnostic report
// ---------------------------------------------------------------------------

/// The configuration section's lines.
pub open spec fn config_lines(config: Option<&Config>) -> Seq<Seq<char>> {
    match config {
        None => seq!["(no configuration found)"@],
        Some(c) => seq![
            "Mods folder : "@ + match c.mods_folder {
                Some(f) => f@,
                None => "(not set)"@,
            },
            "Nexus API   : "@ + if c.nexus_api_key is Some {
                "configured"@
            } else {
                "(not set)"@
            },
        ],
    }
}

/// The tag of an issue's severity.
pub open spec fn severity_tag(severity: Seq<char>) -> Seq<char> {
    if severity == "error"@ {
        "[ERROR]"@
    } else if severity == "warning"@ {
        "[WARN] "@
    } else {
        "[OK]   "@
    }
}

/// The lines of one issue: its tag and title, then (unless it is `ok`) its
/// detail, indented.
pub open spec fn issue_lines(i: (Seq<char>, Seq<char>, Seq<char>)) -> Seq<Seq<char>> {
    let head = severity_tag(i.0) + seq![' '] + i.1;
    if i.0 != "ok"@ {
        seq![head, "        "@ + i.2]
    } else {
        seq![head]
    }
}

/// The lines of the issues, one after another.
pub open spec fn issues_lines(s: Seq<(Seq<char>, Seq<char>, Seq<char>)>) -> Seq<Seq<char>>
    decreases s.len(),
{
    if s.len() == 0 {
        Seq::empty()
    } else {
        issues_lines(s.drop_last()) + issue_lines(s.last())
    }
}

/// The activity log section's body: its last 100 lines, or a note when the
/// log could not be read or holds only whitespace.
pub open spec fn activity_lines(log: Option<Seq<char>>) -> Seq<Seq<char>> {
    match log {
        None => seq!["(log file not found)"@],
        Some(s) => if trim_spec(s).len() == 0 {
            seq!["(empty)"@]
        } else {
            last_lines(s, 100)
        },
    }
}

/// The loader's log section's body: its last 400 lines, or a note when it
/// could not be read.
pub open spec fn ue4ss_lines(log: Option<Seq<char>>) -> Seq<Seq<char>> {
    match log {
        None => seq!["(UE4SS.log not found \u{2014} run the game once with UE4SS installed)"@],
        Some(s) => last_lines(s, 400),
    }
}

/// The lines of the diagnostic report.
pub open spec fn report_lines(
    generated_at: Seq<char>,
    config: Option<&Config>,
    issues: Seq<(Seq<char>, Seq<char>, Seq<char>)>,
    activity: Option<Seq<char>>,
    ue4ss: Option<Seq<char>>,
) -> Seq<Seq<char>> {
    seq!["=== Tidekeeper Diagnostic Report ==="@, "Generated : "@ + generated_at, Seq::empty(), "--- Configuration ---"@]
        + config_lines(config) + seq![Seq::empty(), "--- System Checks ---"@] + issues_lines(issues)
        + seq![
        Seq::empty(),
        "--- Tidekeeper Activity Log (last 100 entries) ---"@,
        "(format: unix_timestamp | LEVEL | message)"@,
    ] + activity_lines(activity) + seq![Seq::empty(), "--- UE4SS Log (last 400 lines) ---"@]
        + ue4ss_lines(ue4ss)
}

/// No secret reaches the report: two configurations with the same mods
/// folder, and each with or without an API key alike, give the same report
/// lines and the same outcome of the setup check that precedes the
/// diagnostics, whatever their keys, tokens, user names and profiles hold.
pub proof fn law_report_ignores_secrets(
    generated_at: Seq<char>,
    c1: Config,
    c2: Config,
    issues: Seq<(Seq<char>, Seq<char>, Seq<char>)>,
    activity: Option<Seq<char>>,
    ue4ss: Option<Seq<char>>,
)
    requires
        opt_view(c1.mods_folder) == opt_view(c2.mods_folder),
        (c1.nexus_api_key is Some) == (c2.nexus_api_key is Some),
    ensures
        report_lines(generated_at, Some(&c1), issues, activity, ue4ss) == report_lines(
            generated_at,
            Some(&c2),
            issues,
            activity,
            ue4ss,
        ),
        setup_issue_spec(Some(&c1)) == setup_issue_spec(Some(&c2)),
{
    assert(config_lines(Some(&c1)) == config_lines(Some(&c2)));
}

/// The text of an optional string.
pub open spec fn opt_text(s: Option<&str>) -> Option<Seq<char>> {
    match s {
        Some(t) => Some(t@),
        None => None,
    }
}

/// Appends lines to a list.
fn push_lines(out: &mut Vec<String>, more: Vec<String>)
    ensures
        views(final(out)@) == views(old(out)@) + views(more@),
{
    let ghost o0 = out@;
    let ghost m0 = more@;
    let mut more = more;
    out.append(&mut more);
    assert(views(o0 + m0) =~= views(o0) + views(m0));
}

/// The lines of the issues.
fn issue_report_lines(issues: &Vec<DiagIssue>) -> (r: Vec<String>)
    ensures
        views(r@) == issues_lines(issues_view(issues@)),
{
    let ghost iv = issues_view(issues@);
    let mut out: Vec<String> = Vec::new();
    for i in 0..issues.len()
        invariant
            iv == issues_view(issues@),
            views(out@) == issues_lines(iv.take(i as int)),
    {
        assert(iv.take(i + 1).drop_last() == iv.take(i as int));
        assert(iv.take(i + 1).last() == issue_view(issues@[i as int]));
        let ghost o0 = views(out@);
        let it = &issues[i];
        let sv = chars_of(it.severity.as_str());
        let mut head: Vec<char> = if chars_eq_str(sv.as_slice(), "error") {
            chars_of("[ERROR]")
        } else if chars_eq_str(sv.as_slice(), "warning") {
            chars_of("[WARN] ")
        } else {
            chars_of("[OK]   ")
        };
        assert(head@ == severity_tag(it.severity@));
        head.push(' ');
        extend_str(&mut head, it.title.as_str());
        assert(head@ == severity_tag(it.severity@) + seq![' '] + it.title@);
        out.push(string_from(head.as_slice()));
        if !chars_eq_str(sv.as_slice(), "ok") {
            let mut d = chars_of("        ");
            extend_str(&mut d, it.detail.as_str());
            out.push(string_from(d.as_slice()));
            assert(views(out@) =~= o0 + seq![head@, "        "@ + it.detail@]);
        } else {
            assert(views(out@) =~= o0 + seq![head@]);
        }
        assert(views(out@) =~= o0 + issue_lines(issue_view(issues@[i as int])));
    }
    assert(iv.take(issues.len() as int) == iv);
    out
}

/// The diagnostic report (`export_report`), given when it was made, the
/// configuration, the diagnostics' findings, and the contents of the
/// activity log and of the loader's log (`None` where one could not be
/// read).
pub fn report_text(
    generated_at: &str,
    config: Option<&Config>,
    issues: &Vec<DiagIssue>,
    activity: Option<&str>,
    ue4ss: Option<&str>,
) -> (r: String)
    ensures
        r@ == unlines(
            report_lines(generated_at@, config, issues_view(issues@), opt_text(activity), opt_text(ue4ss)),
        ),
{
    let mut ls: Vec<String> = Vec::new();
    ls.push("=== Tidekeeper Diagnostic Report ===".to_owned());
    let mut g = chars_of("Generated : ");
    extend_str(&mut g, generated_at);
    ls.push(string_from(g.as_slice()));
    ls.push(String::new());
    ls.push("--- Configuration ---".to_owned());
    let ghost s1 = views(ls@);
    match config {
        None => {
            ls.push("(no configuration found)".to_owned());
        },
        Some(c) => {
            let mut m = chars_of("Mods folder : ");
            match &c.mods_folder {
                Some(f) => extend_str(&mut m, f.as_str()),
                None => extend_str(&mut m, "(not set)"),
            }
            ls.push(string_from(m.as_slice()));
            let mut k = chars_of("Nexus API   : ");
            if c.nexus_api_key.is_some() {
                extend_str(&mut k, "configured");
            } else {
                extend_str(&mut k, "(not set)");
            }
            ls.push(string_from(k.as_slice()));
        },
    }
    assert(views(ls@) =~= s1 + config_lines(config));
    ls.push(String::new());
    ls.push("--- System Checks ---".to_owned());
    let il = issue_report_lines(issues);
    let ghost sa = views(ls@);
    assert(sa =~= s1 + config_lines(config) + seq![Seq::<char>::empty(), "--- System Checks ---"@]);
    push_lines(&mut ls, il);
    let ghost sb = views(ls@);
    assert(sb == sa + issues_lines(issues_view(issues@)));
    ls.push(String::new());
    ls.push("--- Tidekeeper Activity Log (last 100 entries) ---".to_owned());
    ls.push("(format: unix_timestamp | LEVEL | message)".to_owned());
    let ghost s2 = views(ls@);
    assert(s2 =~= sb + seq![
        Seq::<char>::empty(),
        "--- Tidekeeper Activity Log (last 100 entries) ---"@,
        "(format: unix_timestamp | LEVEL | message)"@,
    ]);
    match activity {
        None => {
            ls.push("(log file not found)".to_owned());
            assert(views(ls@) =~= s2 + activity_lines(opt_text(activity)));
        },
        Some(s) => {
            let sv = chars_of(s);
            let t = trim(sv.as_slice());
            if t.len() == 0 {
                ls.push("(empty)".to_owned());
                assert(views(ls@) =~= s2 + activity_lines(opt_text(activity)));
            } else {
                let tail = last_lines_exec(s, 100);
                push_lines(&mut ls, tail);
            }
        },
    }
    ls.push(String::new());
    ls.push("--- UE4SS Log (last 400 lines) ---".to_owned());
    let ghost s3 = views(ls@);
    assert(s3 == s2 + activity_lines(opt_text(activity)) + seq![Seq::<char>::empty(), "--- UE4SS Log (last 400 lines) ---"@]);
    match ue4ss {
        None => {
            ls.push("(UE4SS.log not found \u{2014} run the game once with UE4SS installed)".to_owned());
            assert(views(ls@) =~= s3 + ue4ss_lines(opt_text(ue4ss)));
        },
        Some(s) => {
            let tail = last_lines_exec(s, 400);
            push_lines(&mut ls, tail);
        },
    }
    assert(views(ls@) == s3 + ue4ss_lines(opt_text(ue4ss)));
    assert(s1 =~= seq![
        "=== Tidekeeper Diagnostic Report ==="@,
        "Generated : "@ + generated_at@,
        Seq::<char>::empty(),
        "--- Configuration ---"@,
    ]);
    assert(views(ls@) =~= report_lines(
        generated_at@,
        config,
        issues_view(issues@),
        opt_text(activity),
        opt_text(ue4ss),
    ));
    unlines_exec(&ls)
}

// ---------------------------------------------------------------------------
// Logging a diagnostics run
// ---------------------------------------------------------------------------

/// The number of findings that are not `ok`.
pub open spec fn problem_count(s: Seq<(Seq<char>, Seq<char>, Seq<char>)>) -> nat
    decreases s.len(),
{
    if s.len() == 0 {
        0
    } else {
        problem_count(s.drop_last()) + if s.last().0 != "ok"@ {
            1nat
        } else {
            0nat
        }
    }
}

/// The log entry of one finding: errors and warnings are logged with their
/// title, other findings are not.
pub open spec fn finding_entry(i: (Seq<char>, Seq<char>, Seq<char>)) -> Seq<(Seq<char>, Seq<char>)> {
    if i.0 == "error"@ {
        seq![("ERROR"@, "Diagnostic: "@ + i.1)]
    } else if i.0 == "warning"@ {
        seq![("WARN"@, "Diagnostic: "@ + i.1)]
    } else {
        Seq::empty()
    }
}

/// The log entries of the findings, in order.
pub open spec fn finding_entries(s: Seq<(Seq<char>, Seq<char>, Seq<char>)>) -> Seq<(Seq<char>, Seq<char>)>
    decreases s.len(),
{
    if s.len() == 0 {
        Seq::empty()
    } else {
        finding_entries(s.drop_last()) + finding_entry(s.last())
    }
}

/// The log entries of a diagnostics run, as (level, message): a summary
/// with the number of findings that are not `ok`, then one per error or
/// warning.
pub open spec fn diagnostics_log_spec(s: Seq<(Seq<char>, Seq<char>, Seq<char>)>) -> Seq<(Seq<char>, Seq<char>)> {
    seq![("INFO"@, "Diagnostics ran \u{2014} "@ + decimal(problem_count(s)) + " issue(s) found"@)]
        + finding_entries(s)
}

/// The log entries of a diagnostics run (`run_diagnostics`).
pub fn diagnostics_log_entries(issues: &Vec<DiagIssue>) -> (r: Vec<(String, String)>)
    ensures
        r@.map_values(|e: (String, String)| (e.0@, e.1@)) == diagnostics_log_spec(issues_view(issues@)),
{
    let ghost iv = issues_view(issues@);
    let mut count: usize = 0;
    let mut entries: Vec<(String, String)> = Vec::new();
    for i in 0..issues.len()
        invariant
            iv == issues_view(issues@),
            count == problem_count(iv.take(i as int)),
            count <= i,
            entries@.map_values(|e: (String, String)| (e.0@, e.1@)) == finding_entries(iv.take(i as int)),
    {
        assert(iv.take(i + 1).drop_last() == iv.take(i as int));
        assert(iv.take(i + 1).last() == issue_view(issues@[i as int]));
        let ghost e0 = entries@.map_values(|e: (String, String)| (e.0@, e.1@));
        let it = &issues[i];
        let sv = chars_of(it.severity.as_str());
        if !chars_eq_str(sv.as_slice(), "ok") {
            count = count + 1;
        }
        if chars_eq_str(sv.as_slice(), "error") {
            let mut m = chars_of("Diagnostic: ");
            extend_str(&mut m, it.title.as_str());
            entries.push(("ERROR".to_owned(), string_from(m.as_slice())));
        } else if chars_eq_str(sv.as_slice(), "warning") {
            let mut m = chars_of("Diagnostic: ");
            extend_str(&mut m, it.title.as_str());
            entries.push(("WARN".to_owned(), string_from(m.as_slice())));
        }
        assert(entries@.map_values(|e: (String, String)| (e.0@, e.1@)) =~= e0 + finding_entry(
            issue_view(issues@[i as int]),
        ));
    }
    assert(iv.take(issues.len() as int) == iv);
    let mut summary = chars_of("Diagnostics ran \u{2014} ");
    extend_decimal(&mut summary, count as u64);
    extend_str(&mut summary, " issue(s) found");
    let mut out: Vec<(String, String)> = Vec::new();
    out.push(("INFO".to_owned(), string_from(summary.as_slice())));
    let ghost o0 = out@;
    let ghost e0 = entries@;
    let mut rest = entries;
    out.append(&mut rest);
    assert((o0 + e0).map_values(|e: (String, String)| (e.0@, e.1@)) =~= o0.map_values(
        |e: (String, String)| (e.0@, e.1@),
    ) + e0.map_values(|e: (String, String)| (e.0@, e.1@)));
    out
}

} // verus!
