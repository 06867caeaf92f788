use tellme::blame::{anchor_commit, why, AnchorRecord, PromptRecord};
use tellme::git::CommitInfo;
use tellme::store::Anchor;

fn commit(id: &str, time: i64) -> CommitInfo {
    CommitInfo {
        id: id.to_string(),
        summary: "initial".to_string(),
        author_name: "Ada".to_string(),
        author_email: "ada@example.com".to_string(),
        time,
    }
}

fn anchor(id: i64, file: &str, start: i64, end: i64, commit_id: &str) -> Anchor {
    Anchor { id, file: file.to_string(), line_start: start, line_end: end, commit_id: commit_id.to_string() }
}

#[test]
fn returns_prompt_and_decision_for_anchored_line() {
    let records = vec![AnchorRecord {
        anchor: anchor(1, "checkout.py", 2, 2, "c1"),
        decisions: vec!["threshold is exclusive".to_string()],
        prompts: vec![PromptRecord {
            session: Some("checkout-v1".to_string()),
            text: "add free shipping over $50".to_string(),
        }],
    }];
    let r = why(
        "checkout.py".to_string(),
        2,
        2,
        Some("ship = 0 if x else 7.99".to_string()),
        Some(vec![commit("c1", 1_700_000_000)]),
        records,
    );
    assert!(r.committed);
    assert_eq!(r.entries.len(), 1);
    assert_eq!(r.entries[0].prompt, "add free shipping over $50");
    assert_eq!(r.entries[0].session.as_deref(), Some("checkout-v1"));
    assert_eq!(r.entries[0].decisions, vec!["threshold is exclusive"]);
    assert_eq!(r.code.as_deref(), Some("ship = 0 if x else 7.99"));
}

#[test]
fn unanchored_line_has_empty_history() {
    let r = why("f.py".to_string(), 1, 1, Some("x".to_string()), Some(vec![commit("c1", 1)]), vec![]);
    assert!(r.committed);
    assert!(r.entries.is_empty());
}

#[test]
fn uncommitted_line_has_no_history() {
    let records = vec![AnchorRecord {
        anchor: anchor(1, "f.py", 1, 1, "c1"),
        decisions: vec![],
        prompts: vec![PromptRecord { session: None, text: "p".to_string() }],
    }];
    let r = why("f.py".to_string(), 1, 1, None, None, records);
    assert!(!r.committed);
    assert!(r.entries.is_empty());
}

#[test]
fn history_is_oldest_first_and_skips_other_commits_and_ranges() {
    let records = vec![
        AnchorRecord {
            anchor: anchor(1, "f.py", 1, 3, "new"),
            decisions: vec![],
            prompts: vec![PromptRecord { session: None, text: "second".to_string() }],
        },
        AnchorRecord {
            anchor: anchor(2, "f.py", 2, 2, "old"),
            decisions: vec![],
            prompts: vec![PromptRecord { session: None, text: "first".to_string() }],
        },
        AnchorRecord {
            anchor: anchor(3, "f.py", 9, 9, "old"),
            decisions: vec![],
            prompts: vec![PromptRecord { session: None, text: "elsewhere".to_string() }],
        },
        AnchorRecord {
            anchor: anchor(4, "f.py", 2, 2, "unrelated"),
            decisions: vec![],
            prompts: vec![PromptRecord { session: None, text: "gone".to_string() }],
        },
    ];
    let r = why("f.py".to_string(), 2, 2, None, Some(vec![commit("new", 20), commit("old", 10)]), records);
    let texts: Vec<_> = r.entries.iter().map(|e| e.prompt.as_str()).collect();
    assert_eq!(texts, vec!["first", "second"]);
}

#[test]
fn anchor_commit_needs_overlap_and_touching_commit() {
    let cs = vec![commit("c1", 1)];
    assert_eq!(anchor_commit(&anchor(1, "f", 1, 2, "c1"), 2, 5, &cs).map(|c| c.id), Some("c1".to_string()));
    assert!(anchor_commit(&anchor(1, "f", 1, 2, "c1"), 3, 5, &cs).is_none());
    assert!(anchor_commit(&anchor(1, "f", 1, 2, "c2"), 1, 1, &cs).is_none());
}
