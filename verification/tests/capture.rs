use tellme::capture::{plan_edits, route, EditPlan, HookEvent, LineRange, Route, ToolInput};

fn event(session: Option<&str>, name: &str) -> HookEvent {
    HookEvent {
        session_id: session.map(String::from),
        hook_event_name: name.to_string(),
        prompt: None,
        tool_name: None,
        tool_input: None,
    }
}

#[test]
fn event_without_session_is_ignored() {
    let mut e = event(None, "UserPromptSubmit");
    e.prompt = Some("hi".to_string());
    assert!(matches!(route(&e), Route::Ignore(_)));
    let mut e2 = event(Some(""), "UserPromptSubmit");
    e2.prompt = Some("hi".to_string());
    assert_eq!(route(&e2), Route::Ignore("no session_id".to_string()));
}

#[test]
fn prompt_routes_to_record_unless_blank() {
    let mut e = event(Some("s1"), "UserPromptSubmit");
    e.prompt = Some("add target".to_string());
    assert_eq!(
        route(&e),
        Route::RecordPrompt { session: "s1".to_string(), text: "add target".to_string() }
    );
    e.prompt = Some("   \n".to_string());
    assert_eq!(route(&e), Route::Ignore("empty prompt".to_string()));
    e.prompt = None;
    assert_eq!(route(&e), Route::Ignore("empty prompt".to_string()));
}

#[test]
fn tool_use_routes_to_edits_of_the_named_file() {
    let mut e = event(Some("s1"), "PostToolUse");
    assert_eq!(route(&e), Route::Ignore("no tool_input".to_string()));
    e.tool_input = Some(ToolInput { file_path: None, new_string: None, edits: None });
    assert_eq!(route(&e), Route::Ignore("no file_path".to_string()));
    e.tool_name = Some("Edit".to_string());
    e.tool_input = Some(ToolInput {
        file_path: Some("/r/checkout.py".to_string()),
        new_string: Some("TARGET".to_string()),
        edits: None,
    });
    assert_eq!(
        route(&e),
        Route::RecordEdits {
            session: "s1".to_string(),
            tool: "Edit".to_string(),
            file_path: "/r/checkout.py".to_string()
        }
    );
}

#[test]
fn other_events_are_ignored_by_name() {
    assert_eq!(route(&event(Some("s"), "Stop")), Route::Ignore("unhandled event Stop".to_string()));
}

#[test]
fn edit_without_prior_prompt_is_ignored() {
    let input = ToolInput { file_path: Some("f.py".into()), new_string: None, edits: None };
    assert_eq!(
        plan_edits(None, None, "Write", &input, "x\n"),
        EditPlan::Ignore("no session for edit".to_string())
    );
    assert_eq!(
        plan_edits(Some(1), None, "Write", &input, "x\n"),
        EditPlan::Ignore("no prompt to attribute edit to".to_string())
    );
}

#[test]
fn edit_with_prompt_records_its_spans() {
    let input = ToolInput { file_path: Some("checkout.py".into()), new_string: Some("TARGET".into()), edits: None };
    assert_eq!(
        plan_edits(Some(1), Some(7), "Edit", &input, "a\nTARGET\nb\n"),
        EditPlan::Record { prompt: 7, ranges: vec![LineRange::new(2, 2)] }
    );
    assert_eq!(
        plan_edits(Some(1), Some(7), "Bash", &input, "a\n"),
        EditPlan::Ignore("no ranges for tool Bash".to_string())
    );
}

#[test]
fn prompt_then_edit_records_prompt_and_pending_edit() {
    let mut prompt = event(Some("s1"), "UserPromptSubmit");
    prompt.prompt = Some("add target".to_string());
    assert_eq!(
        route(&prompt),
        Route::RecordPrompt { session: "s1".to_string(), text: "add target".to_string() }
    );
    let mut edit = event(Some("s1"), "PostToolUse");
    edit.tool_name = Some("Edit".to_string());
    let input = ToolInput { file_path: Some("checkout.py".into()), new_string: Some("TARGET".into()), edits: None };
    edit.tool_input = Some(input.clone());
    assert_eq!(
        route(&edit),
        Route::RecordEdits { session: "s1".into(), tool: "Edit".into(), file_path: "checkout.py".into() }
    );
    match plan_edits(Some(1), Some(1), "Edit", &input, "a\nTARGET\nb\n") {
        EditPlan::Record { ranges, .. } => {
            assert_eq!(ranges.len(), 1);
            assert_eq!((ranges[0].start, ranges[0].end), (2, 2));
        }
        other => panic!("unexpected {:?}", other),
    }
}
