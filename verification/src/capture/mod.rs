//! Ingest the coding agent's hook events.
//!
//! `UserPromptSubmit` appends a prompt to the session; `PostToolUse` for an
//! edit tool records pending edits linked to the session's latest prompt.
//! The decisions are pure: `route` says what an event asks for, and
//! `plan_edits` says what an edit event records once the store has answered.

pub mod ranges;

use vstd::prelude::*;

use crate::capture::ranges::spec_edit_ranges;
use crate::text::{chars_of, owned, push_str, str_eq, trim, trim_range};

pub use ranges::{edit_ranges, LineRange, ToolInput};

verus! {

/// A coding-agent hook event (the fields capture reads).
#[derive(Debug, Clone, PartialEq, Eq)]
pub struct HookEvent {
    /// Agent session id; becomes the store session's external id.
    pub session_id: Option<String>,
    /// Which hook fired.
    pub hook_event_name: String,
    /// The submitted prompt text (`UserPromptSubmit`).
    pub prompt: Option<String>,
    /// The tool that ran (`PostToolUse`).
    pub tool_name: Option<String>,
    /// The tool's input payload (`PostToolUse`).
    pub tool_input: Option<ToolInput>,
}

/// What an ingest call did, for logging.
#[derive(Debug, PartialEq, Eq)]
pub enum Outcome {
    /// A prompt was appended to a session.
    PromptRecorded {
        /// Session external id.
        session: String,
    },
    /// Pending edits were recorded for a file.
    EditsRecorded {
        /// Repo-relative file.
        file: String,
        /// How many ranges.
        count: usize,
    },
    /// Nothing actionable in this event.
    Ignored {
        /// Why it was ignored.
        reason: String,
    },
}

/// What an event asks of the store.
#[derive(Debug, PartialEq, Eq)]
pub enum Route {
    /// Nothing to do, and why.
    Ignore(String),
    /// Append `text` as the next prompt of `session`.
    RecordPrompt {
        /// Session external id.
        session: String,
        /// The prompt text, as submitted.
        text: String,
    },
    /// Record the spans `tool` touched in `file_path` against the session's
    /// latest prompt.
    RecordEdits {
        /// Session external id.
        session: String,
        /// The tool's name (empty when the event names none).
        tool: String,
        /// The edited file, as the tool named it.
        file_path: String,
    },
}

/// A route with its strings taken by their characters.
pub enum RouteView {
    /// Nothing to do, and why.
    Ignore(Seq<char>),
    /// Append a prompt.
    RecordPrompt { session: Seq<char>, text: Seq<char> },
    /// Record an edit's spans.
    RecordEdits { session: Seq<char>, tool: Seq<char>, file_path: Seq<char> },
}

impl View for Route {
    type V = RouteView;

    open spec fn view(&self) -> RouteView {
        match self {
            Route::Ignore(r) => RouteView::Ignore(r@),
            Route::RecordPrompt { session, text } => RouteView::RecordPrompt {
                session: session@,
                text: text@,
            },
            Route::RecordEdits { session, tool, file_path } => RouteView::RecordEdits {
                session: session@,
                tool: tool@,
                file_path: file_path@,
            },
        }
    }
}

/// The route of a `UserPromptSubmit` event of `session`: a prompt that is
/// not blank is recorded as it was submitted.
pub open spec fn spec_prompt_route(e: HookEvent, session: Seq<char>) -> RouteView {
    match e.prompt {
        Some(t) => if trim(t@).len() > 0 {
            RouteView::RecordPrompt { session, text: t@ }
        } else {
            RouteView::Ignore("empty prompt"@)
        },
        None => RouteView::Ignore("empty prompt"@),
    }
}

/// The route of a `PostToolUse` event of `session`: an edit of the file its
/// input names.
pub open spec fn spec_tool_route(e: HookEvent, session: Seq<char>) -> RouteView {
    match e.tool_input {
        None => RouteView::Ignore("no tool_input"@),
        Some(input) => match input.file_path {
            None => RouteView::Ignore("no file_path"@),
            Some(p) => RouteView::RecordEdits {
                session,
                tool: match e.tool_name {
                    Some(t) => t@,
                    None => Seq::empty(),
                },
                file_path: p@,
            },
        },
    }
}

/// `route`'s result: events without a session are ignored; prompts and
/// tool uses go their ways; other events are ignored by name.
pub open spec fn spec_route(e: HookEvent) -> RouteView {
    match e.session_id {
        Some(s) => if s@.len() == 0 {
            RouteView::Ignore("no session_id"@)
        } else if e.hook_event_name@ == "UserPromptSubmit"@ {
            spec_prompt_route(e, s@)
        } else if e.hook_event_name@ == "PostToolUse"@ {
            spec_tool_route(e, s@)
        } else {
            RouteView::Ignore("unhandled event "@ + e.hook_event_name@)
        },
        None => RouteView::Ignore("no session_id"@),
    }
}

/// Decide what a hook event asks for.
pub fn route(event: &HookEvent) -> (r: Route)
    ensures
        r@ == spec_route(*event),
{
    let session = match &event.session_id {
        Some(s) => {
            if s.as_str().unicode_len() == 0 {
                return Route::Ignore(owned("no session_id"));
            }
            s
        },
        None => {
            return Route::Ignore(owned("no session_id"));
        },
    };
    let name = event.hook_event_name.as_str();
    if str_eq(name, "UserPromptSubmit") {
        match &event.prompt {
            Some(t) => {
                let v = chars_of(t.as_str());
                let (a, b) = trim_range(&v, 0, v.len());
                assert(v@.subrange(0, v@.len() as int) =~= v@);
                if b > a {
                    Route::RecordPrompt { session: owned(session.as_str()), text: owned(t.as_str()) }
                } else {
                    Route::Ignore(owned("empty prompt"))
                }
            },
            None => Route::Ignore(owned("empty prompt")),
        }
    } else if str_eq(name, "PostToolUse") {
        match &event.tool_input {
            None => Route::Ignore(owned("no tool_input")),
            Some(input) => match &input.file_path {
                None => Route::Ignore(owned("no file_path")),
                Some(p) => {
                    let tool = match &event.tool_name {
                        Some(t) => owned(t.as_str()),
                        None => String::new(),
                    };
                    Route::RecordEdits {
                        session: owned(session.as_str()),
                        tool,
                        file_path: owned(p.as_str()),
                    }
                },
            },
        }
    } else {
        let mut reason = owned("unhandled event ");
        push_str(&mut reason, name);
        Route::Ignore(reason)
    }
}

/// What an edit event records, once the store has said which session row
/// has the event's session id and which prompt of it is the latest.
#[derive(Debug, PartialEq, Eq)]
pub enum EditPlan {
    /// Nothing to record, and why.
    Ignore(String),
    /// Record each range as a pending edit of `prompt`.
    Record {
        /// The prompt the edit is attributed to.
        prompt: i64,
        /// The touched line spans.
        ranges: Vec<LineRange>,
    },
}

/// Plan an edit event: it needs a known session with a prompt to attribute
/// the edit to, and some span the tool touched in the edited `content`.
pub fn plan_edits(
    session: Option<i64>,
    latest_prompt: Option<i64>,
    tool_name: &str,
    input: &ToolInput,
    content: &str,
) -> (r: EditPlan)
    requires
        content@.len() < usize::MAX,
    ensures
        match r {
            EditPlan::Ignore(reason) => if session is None {
                reason@ == "no session for edit"@
            } else if latest_prompt is None {
                reason@ == "no prompt to attribute edit to"@
            } else {
                spec_edit_ranges(tool_name@, *input, content@).len() == 0 && reason@
                    == "no ranges for tool "@ + tool_name@
            },
            EditPlan::Record { prompt, ranges } => session is Some && latest_prompt == Some(prompt)
                && ranges@ == spec_edit_ranges(tool_name@, *input, content@) && ranges@.len() > 0,
        },
{
    if session.is_none() {
        return EditPlan::Ignore(owned("no session for edit"));
    }
    let prompt = match latest_prompt {
        Some(p) => p,
        None => {
            return EditPlan::Ignore(owned("no prompt to attribute edit to"));
        },
    };
    let ranges = edit_ranges(tool_name, input, content);
    if ranges.len() == 0 {
        let mut reason = owned("no ranges for tool ");
        push_str(&mut reason, tool_name);
        return EditPlan::Ignore(reason);
    }
    EditPlan::Record { prompt, ranges }
}

} // verus!
