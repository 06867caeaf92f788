use tellme::analysis::{Call, FunctionFlow, VarEvent, VarEventKind, VarFlow};
use tellme::blame::{Entry, WhyResult};
use tellme::commands::decision::{
    decision_body, decision_template, decision_text, find_anchor, first_event_line, line_source,
    LineSource,
};
use tellme::commands::flow::{
    function_text, history_label, history_marker, history_span, history_text, subject, var_text,
    Subject,
};
use tellme::commands::hook::{dry_run_report, installed_message};
use tellme::commands::init::{gitignore_addition, init_report};
use tellme::commands::prompt::{
    check_prompt_text, list_summary, manual_session, prompt_location, prompt_touches,
    recorded_message, session_name, status_list, Row,
};
use tellme::commands::why::{short_commit, why_text};
use tellme::error::Error;
use tellme::store::{Anchor, PendingEdit};

fn anchor(id: i64, file: &str, s: i64, e: i64, commit: &str) -> Anchor {
    Anchor { id, file: file.into(), line_start: s, line_end: e, commit_id: commit.into() }
}

fn pending(file: &str, s: i64, e: i64) -> PendingEdit {
    PendingEdit { id: 1, prompt_id: 1, file: file.into(), line_start: s, line_end: e, created_at: 0 }
}

fn other(r: Result<impl std::fmt::Debug, Error>) -> String {
    match r {
        Err(Error::Other(m)) => m,
        _ => panic!("expected Error::Other"),
    }
}

#[test]
fn resolve_anchor_creates_then_reuses() {
    let anchors = vec![anchor(1, "checkout.py", 1, 2, "abc"), anchor(2, "checkout.py", 3, 5, "def")];
    assert_eq!(find_anchor(&anchors, 4, "def"), Some(1));
    assert_eq!(find_anchor(&anchors, 2, "abc"), Some(0));
    assert_eq!(find_anchor(&anchors, 4, "abc"), None);
    assert_eq!(find_anchor(&vec![], 1, "abc"), None);
}

#[test]
fn decision_line_sources() {
    assert_eq!(line_source(Some(7), Some("total")).unwrap(), LineSource::Line(7));
    assert_eq!(line_source(None, Some("total")).unwrap(), LineSource::Var("total".into()));
    assert_eq!(other(line_source(None, None)), "pass --line <N> or --var <name>");
    let flow = VarFlow {
        name: "x".into(),
        function: None,
        events: vec![VarEvent { kind: VarEventKind::Initialized, line: 3, text: "x = 1".into() }],
    };
    assert_eq!(first_event_line(&flow, "x").unwrap(), 3);
    let empty = VarFlow { name: "y".into(), function: None, events: vec![] };
    assert_eq!(other(first_event_line(&empty, "y")), "no occurrences of `y`");
}

#[test]
fn decision_editor_buffer() {
    assert_eq!(
        decision_template("a.py", 7),
        "\n# Write the decision (why) for a.py:7.\n# Lines starting with # are ignored; an empty file aborts.\n"
    );
    assert_eq!(decision_text("  # note\nkeep this\n\n  and this  \n# end\n"), "keep this\n\n  and this");
    assert_eq!(decision_text(&decision_template("a.py", 7)), "");
    assert_eq!(decision_body("  why  ").unwrap(), "why");
    assert_eq!(other(decision_body(" \n ")), "aborted: empty decision");
}

#[test]
fn gitignore_gets_the_cache_once() {
    assert_eq!(gitignore_addition("").as_deref(), Some(".tellme/cache/\n"));
    assert_eq!(gitignore_addition("target").as_deref(), Some("\n.tellme/cache/\n"));
    assert_eq!(gitignore_addition("target\n").as_deref(), Some(".tellme/cache/\n"));
    assert_eq!(gitignore_addition("x\n .tellme/cache \n"), None);
    let once = format!("target{}", gitignore_addition("target").unwrap());
    assert_eq!(gitignore_addition(&once), None);
    let (status, msg) = init_report(true, "/r/.tellme");
    assert_eq!(status, "already-initialized");
    assert_eq!(msg, "tellme is already initialized at /r/.tellme");
    assert_eq!(init_report(false, "/r/.tellme").1, "Initialized tellme store at /r/.tellme");
}

#[test]
fn prompt_rows() {
    let a = vec![anchor(1, "checkout.py", 2, 4, "c")];
    let p = vec![pending("other.py", 1, 1)];
    assert_eq!(prompt_location(&a, &p), (true, "checkout.py:2-4".to_string()));
    assert_eq!(prompt_location(&vec![], &p), (false, "other.py:1-1".to_string()));
    assert_eq!(prompt_location(&vec![], &vec![]), (false, "(no location yet)".to_string()));
    assert!(prompt_touches(&a, &p, "other.py"));
    assert!(prompt_touches(&a, &p, "checkout.py"));
    assert!(!prompt_touches(&a, &p, "nope.py"));
    assert_eq!(session_name(Some("l".into()), Some("e".into())), "l");
    assert_eq!(session_name(None, Some("e".into())), "e");
    assert_eq!(session_name(None, None), "?");
    assert_eq!(list_summary(2, 1), "2 committed, 1 pending");
    assert!(check_prompt_text("hi").is_ok());
    assert_eq!(other(check_prompt_text("  ")), "prompt text is empty");
    assert_eq!(manual_session(None), "manual");
    assert_eq!(manual_session(Some("s")), "s");
    assert_eq!(
        recorded_message("a.py", 3, 4, "manual"),
        "Recorded prompt for a.py:3-4 (session \"manual\")"
    );
}

#[test]
fn status_list_groups_committed_then_pending() {
    assert_eq!(status_list(&vec![], false, false), vec!["No prompts recorded yet."]);
    let rows = vec![
        Row { committed: false, session: "s1".into(), location: "b.py:1-1".into(), text: "second\nmore".into() },
        Row { committed: true, session: "s2".into(), location: "a.py:2-3".into(), text: "first".into() },
    ];
    assert_eq!(
        status_list(&rows, false, false),
        vec![
            "Committed prompts:",
            "  ● a.py:2-3  [s2]  first",
            "",
            "Pending prompts (not yet committed — commit to anchor):",
            "  ○ b.py:1-1  [s1]  second",
            "",
            "1 committed, 1 pending",
        ]
    );
    let full = status_list(&rows[..1].to_vec(), true, true);
    assert_eq!(
        full,
        vec![
            "Pending prompts (not yet committed — commit to anchor):",
            "\x1b[31m  ○ b.py:1-1  [s1]\x1b[0m",
            "      second",
            "      more",
            "",
            "",
            "0 committed, 1 pending",
        ]
    );
}

fn entry(id: &str, summary: &str, session: Option<&str>, prompt: &str, decisions: &[&str]) -> Entry {
    Entry {
        commit_id: id.into(),
        commit_summary: summary.into(),
        author: "Ada".into(),
        time: 0,
        session: session.map(String::from),
        prompt: prompt.into(),
        decisions: decisions.iter().map(|d| d.to_string()).collect(),
    }
}

fn result(committed: bool, entries: Vec<Entry>) -> WhyResult {
    WhyResult {
        file: "checkout.py".into(),
        line_start: 2,
        line_end: 2,
        code: Some("ship = 0".into()),
        committed,
        entries,
    }
}

#[test]
fn why_listing() {
    assert_eq!(short_commit("0123456789abcdef"), "01234567");
    assert_eq!(short_commit("abc"), "abc");
    assert_eq!(
        why_text(&result(false, vec![])),
        vec!["checkout.py:2  ship = 0", "", "  This line isn't committed yet — no prompt history to show."]
    );
    assert_eq!(
        why_text(&result(true, vec![]))[2..],
        ["  No recorded prompts for this line.", "  (record one with `tellme prompt add` or install capture hooks)"]
    );
    let r = result(true, vec![entry("0123456789", "add shipping", Some("v1"), "free shipping", &["exclusive"])]);
    assert_eq!(
        why_text(&r),
        vec![
            "checkout.py:2  ship = 0",
            "",
            "Prompt history for this line:",
            "",
            "  ● 01234567  add shipping  — session \"v1\"",
            "    YOU: free shipping",
            "    ▸ decision: exclusive",
            "",
        ]
    );
    let mut range = result(true, vec![]);
    range.line_end = 5;
    range.code = None;
    assert_eq!(why_text(&range)[0], "checkout.py:2-5");
}

#[test]
fn flow_subjects_and_spans() {
    assert_eq!(subject(Some("x"), None).unwrap(), Subject::Var("x".into()));
    assert_eq!(subject(None, Some("f")).unwrap(), Subject::Function("f".into()));
    assert_eq!(other(subject(Some("x"), Some("f"))), "pass only one of --var or --function");
    assert_eq!(other(subject(None, None)), "pass --var <name> or --function <name>");
    assert_eq!(history_span(&vec![]), (1, 1));
    assert_eq!(history_span(&vec![7, 3, 9, 4]), (3, 9));
    assert_eq!(history_label(&Subject::Var("x".into())), "variable x");
    assert_eq!(history_label(&Subject::Function("f".into())), "function f");
    assert_eq!(history_marker(0, 2), "CREATED      ");
    assert_eq!(history_marker(1, 2), "MODIFIED     ");
    assert_eq!(history_marker(2, 2), "LAST MODIFIED");
}

#[test]
fn flow_listings() {
    let v = VarFlow {
        name: "total".into(),
        function: Some("calc".into()),
        events: vec![VarEvent { kind: VarEventKind::Used, line: 12, text: "return total".into() }],
    };
    assert_eq!(
        var_text(&v),
        vec!["Variable: total   (function calc)", "", "  ▸ USED          line 12   return total"]
    );
    let f = FunctionFlow {
        name: "calc".into(),
        line: 1,
        params: vec!["a".into(), "b".into()],
        returns: None,
        callers: vec![],
        callees: vec![Call { name: "sum".into(), line: 2 }],
    };
    assert_eq!(
        function_text(&f),
        vec![
            "Function: calc   (line 1)",
            "",
            "  CALLED BY",
            "    (no callers in this file)",
            "",
            "  CALLS",
            "    • sum (line 2)",
            "",
            "  SIGNATURE",
            "    in:  a, b",
            "    out: (unannotated)",
        ]
    );
    let r = result(
        true,
        vec![entry("aaaaaaaaa1", "create", None, "p1", &[]), entry("bbb", "change", Some("s"), "p2", &["d"])],
    );
    assert_eq!(
        history_text("variable x", "checkout.py", &r),
        vec![
            "History: variable x   (checkout.py)",
            "",
            "  ● CREATED        aaaaaaaa  create  [-]",
            "    PROMPT:   p1",
            "  ● LAST MODIFIED  bbb  change  [s]",
            "    PROMPT:   p2",
            "    DECISION: d",
        ]
    );
    assert_eq!(history_text("x", "f", &result(false, vec![]))[2], "  These lines aren't committed yet — no history.");
}

#[test]
fn hook_reports() {
    assert_eq!(
        dry_run_report(true, "a/settings.json", false, ".git/hooks/post-commit"),
        "Would update a/settings.json\nWould leave .git/hooks/post-commit"
    );
    assert_eq!(installed_message(false), "Capture hooks installed (settings: unchanged, post-commit: updated).");
}
