use serde_json::Value;
use tellme::commands::hook::{
    add_reconcile, has_settings_text, install_plan, managed_events, merge_settings,
    merge_settings_doc, remove_reconcile, strip_settings, strip_settings_doc, uninstall_plan,
    yes_no,
};
use tellme::error::Error;
use tellme::json::Json;

fn to_json(v: &Value) -> Json {
    match v {
        Value::Null => Json::Null,
        Value::Bool(b) => Json::Bool(*b),
        Value::Number(n) => Json::Number(n.to_string()),
        Value::String(s) => Json::Str(s.clone()),
        Value::Array(a) => Json::Array(a.iter().map(to_json).collect()),
        Value::Object(m) => Json::Object(m.iter().map(|(k, v)| (k.clone(), to_json(v))).collect()),
    }
}

fn parse(s: &str) -> Json {
    to_json(&serde_json::from_str::<Value>(s).unwrap())
}


fn has_cmd(arr: &Value, command: &str) -> bool {
    arr.as_array().unwrap().iter().any(|e| {
        e.get("hooks")
            .and_then(Value::as_array)
            .map(|hs| hs.iter().any(|h| h.get("command").and_then(Value::as_str) == Some(command)))
            .unwrap_or(false)
    })
}

#[test]
fn merge_adds_both_events_and_is_idempotent() {
    let once = merge_settings(None, "tellme capture").unwrap();
    let v: Value = serde_json::from_str(&once).unwrap();
    assert!(has_cmd(&v["hooks"]["UserPromptSubmit"], "tellme capture"));
    assert!(has_cmd(&v["hooks"]["PostToolUse"], "tellme capture"));
    assert_eq!(v["hooks"]["PostToolUse"][0]["matcher"], "Edit|MultiEdit|Write");

    // Running again must not duplicate entries.
    let twice = merge_settings(Some(&once), "tellme capture").unwrap();
    let v2: Value = serde_json::from_str(&twice).unwrap();
    assert_eq!(v2["hooks"]["UserPromptSubmit"].as_array().unwrap().len(), 1);
}

#[test]
fn merge_preserves_unrelated_settings() {
    let existing = r#"{"model":"opus","hooks":{"UserPromptSubmit":[{"hooks":[{"type":"command","command":"other"}]}]}}"#;
    let merged = merge_settings(Some(existing), "tellme capture").unwrap();
    let v: Value = serde_json::from_str(&merged).unwrap();
    assert_eq!(v["model"], "opus");
    assert_eq!(v["hooks"]["UserPromptSubmit"].as_array().unwrap().len(), 2);
}

#[test]
fn strip_removes_only_our_hooks() {
    let existing = r#"{"hooks":{"UserPromptSubmit":[{"hooks":[{"type":"command","command":"other"}]},{"hooks":[{"type":"command","command":"tellme capture"}]}]}}"#;
    let stripped = strip_settings(existing, "tellme capture").unwrap();
    let v: Value = serde_json::from_str(&stripped).unwrap();
    let arr = &v["hooks"]["UserPromptSubmit"];
    assert_eq!(arr.as_array().unwrap().len(), 1);
    assert!(has_cmd(arr, "other"));
}

#[test]
fn merged_settings_are_printed_pretty_and_newline_terminated() {
    let out = merge_settings(Some("  \n"), "t capture").unwrap();
    assert!(out.ends_with("}\n"));
    assert!(out.starts_with("{\n  \"hooks\": {"));
}

#[test]
fn unparsable_settings_are_a_configuration_error() {
    match merge_settings(Some("{nope"), "t capture") {
        Err(Error::Config(m)) => assert!(m.starts_with("settings.json: ")),
        other => panic!("unexpected {:?}", other.is_ok()),
    }
    match strip_settings("[", "t capture") {
        Err(Error::Config(m)) => assert!(m.starts_with("settings.json: ")),
        other => panic!("unexpected {:?}", other.is_ok()),
    }
}

#[test]
fn install_plan_writes_only_what_changes() {
    let first = install_plan(None, None, "t", "s.json", "post-commit", false).unwrap();
    let settings = first.settings_write.clone().unwrap();
    let hook = first.hook_write.clone().unwrap();
    assert_eq!(first.status, "installed");
    assert_eq!(first.message, "Capture hooks installed (settings: updated, post-commit: updated).");
    assert!(hook.contains("t reconcile"));
    let again = install_plan(Some(&settings), Some(&hook), "t", "s.json", "post-commit", false).unwrap();
    assert_eq!(again.settings_write, None);
    assert_eq!(again.hook_write, None);
    assert_eq!(again.message, "Capture hooks installed (settings: unchanged, post-commit: updated).");
}

#[test]
fn dry_runs_write_nothing_and_report() {
    let plan = install_plan(None, None, "t", "s.json", "post-commit", true).unwrap();
    assert_eq!(plan.settings_write, None);
    assert_eq!(plan.hook_write, None);
    assert_eq!(plan.status, "dry-run");
    assert_eq!(plan.message, "Would update s.json\nWould update post-commit");
    let un = uninstall_plan(None, None, "t", "s.json", "post-commit", true).unwrap();
    assert_eq!(un.message, "Would leave s.json\nWould leave post-commit");
}

#[test]
fn uninstall_plan_reverses_install() {
    let inst = install_plan(None, Some("#!/bin/sh\necho hi\n"), "t", "s.json", "h", false).unwrap();
    let settings = inst.settings_write.unwrap();
    let hook = inst.hook_write.unwrap();
    let un = uninstall_plan(Some(&settings), Some(&hook), "t", "s.json", "h", false).unwrap();
    assert_eq!(un.hook_write.as_deref(), Some("#!/bin/sh\necho hi\n"));
    let left: Value = serde_json::from_str(un.settings_write.as_deref().unwrap()).unwrap();
    assert_eq!(left, serde_json::from_str::<Value>(r#"{"hooks":{}}"#).unwrap());
    assert_eq!(un.status, "uninstalled");
    assert_eq!(un.message, "Capture hooks removed.");
}

#[test]
fn install_refuses_settings_that_are_not_an_object() {
    match install_plan(Some("[1]"), None, "t", "s.json", "h", false) {
        Err(Error::Config(m)) => assert_eq!(m, "settings.json is not an object"),
        other => panic!("unexpected {:?}", other.is_ok()),
    }
}

#[test]
fn strip_after_merge_drops_emptied_events() {
    let merged = merge_settings_doc(None, "tellme capture").unwrap();
    let stripped = strip_settings_doc(merged, "tellme capture");
    let hooks = stripped.member("hooks").unwrap();
    assert!(hooks.member("UserPromptSubmit").is_none());
    assert!(hooks.member("PostToolUse").is_none());
}

#[test]
fn merge_rejects_non_object_settings() {
    match merge_settings_doc(Some(parse("[1, 2]")), "tellme capture") {
        Err(Error::Config(m)) => assert_eq!(m, "settings.json is not an object"),
        other => panic!("unexpected {:?}", other.is_ok()),
    }
    match merge_settings_doc(Some(parse(r#"{"hooks": 3}"#)), "tellme capture") {
        Err(Error::Config(m)) => assert_eq!(m, "settings.hooks is not an object"),
        other => panic!("unexpected {:?}", other.is_ok()),
    }
    match merge_settings_doc(Some(parse(r#"{"hooks": {"PostToolUse": {}}}"#)), "tellme capture") {
        Err(Error::Config(m)) => assert_eq!(m, "settings.hooks.PostToolUse is not an array"),
        other => panic!("unexpected {:?}", other.is_ok()),
    }
}

#[test]
fn blank_settings_are_merged_as_empty() {
    assert!(!has_settings_text(None));
    assert!(!has_settings_text(Some("  \n\t")));
    assert!(has_settings_text(Some("{}")));
}

#[test]
fn post_commit_create_append_remove() {
    // Create fresh.
    let created = add_reconcile(None, "tellme reconcile").unwrap();
    assert!(created.starts_with("#!/bin/sh"));
    assert!(created.contains("tellme reconcile"));
    // Idempotent.
    assert!(add_reconcile(Some(&created), "tellme reconcile").is_none());
    // Append to an existing hook.
    let appended = add_reconcile(Some("#!/bin/sh\necho hi\n"), "tellme reconcile").unwrap();
    assert!(appended.contains("echo hi"));
    assert!(appended.contains("tellme reconcile"));
    // Remove.
    let removed = remove_reconcile(&appended).unwrap();
    assert!(removed.contains("echo hi"));
    assert!(!removed.contains("reconcile"));
}

#[test]
fn remove_reconcile_drops_file_when_only_ours() {
    let only_ours = add_reconcile(None, "tellme reconcile").unwrap();
    assert_eq!(remove_reconcile(&only_ours), Some(String::new()));
}

#[test]
fn add_reconcile_exact_text() {
    assert_eq!(
        add_reconcile(None, "t reconcile").unwrap(),
        "#!/bin/sh\n# added by tellme\nt reconcile >/dev/null 2>&1 || true\n"
    );
    assert_eq!(
        add_reconcile(Some("#!/bin/sh\necho hi"), "t reconcile").unwrap(),
        "#!/bin/sh\necho hi\n# added by tellme\nt reconcile >/dev/null 2>&1 || true\n"
    );
}

#[test]
fn remove_reconcile_keeps_other_lines_and_ignores_unrelated_scripts() {
    assert_eq!(remove_reconcile("#!/bin/sh\necho hi\n"), None);
    assert_eq!(
        remove_reconcile("#!/bin/sh\necho hi\n# added by tellme\nt reconcile || true\necho bye\n"),
        Some("#!/bin/sh\necho hi\necho bye\n".to_string())
    );
}

#[test]
fn remove_reconcile_keeps_the_users_own_reconcile_step() {
    let users = "#!/bin/sh\nmake reconcile\necho done\n";
    let installed = add_reconcile(Some(users), "tellme reconcile").unwrap();
    assert_eq!(remove_reconcile(&installed), Some(users.to_string()));
}

#[test]
fn uninstall_restores_the_script_before_install() {
    let s = "#!/bin/sh\necho hi\n";
    let installed = add_reconcile(Some(s), "tellme reconcile").unwrap();
    assert_eq!(remove_reconcile(&installed), Some(s.to_string()));
}

#[test]
fn managed_events_and_labels() {
    let ev = managed_events();
    assert_eq!(ev[0], ("UserPromptSubmit", None));
    assert_eq!(ev[1], ("PostToolUse", Some("Edit|MultiEdit|Write")));
    assert_eq!(yes_no(true), "updated");
    assert_eq!(yes_no(false), "unchanged");
}
