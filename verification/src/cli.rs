//! The command surface: global flags plus a subcommand, as parsed values,
//! and whether a run may take over the terminal.

use vstd::prelude::*;

use crate::config::OutputFormat;

verus! {

/// Top-level command line: global flags plus a subcommand.
#[derive(Debug, Clone, PartialEq, Eq)]
pub struct Cli {
    /// Log verbosity (`-v` count).
    pub verbose: u8,
    /// Operate on the repository at this path instead of the current directory.
    pub repo: Option<String>,
    /// Output format.
    pub format: Option<OutputFormat>,
    /// Never open the interactive browser.
    pub plain: bool,
    /// The subcommand to run.
    pub command: Command,
}

/// All tellme subcommands.
#[derive(Debug, Clone, PartialEq, Eq)]
pub enum Command {
    /// Initialize the `.tellme/` store in the current repository.
    Init,
    /// Show the prompts that shaped a line.
    Why {
        /// Source file.
        file: String,
        /// Line selector, e.g. `#line4` or `4`.
        target: Option<String>,
    },
    /// Trace data flow of a variable or function within a file.
    Flow {
        /// Source file.
        file: String,
        /// Trace a variable's lifecycle.
        var: Option<String>,
        /// Trace a function's callers/callees.
        function: Option<String>,
        /// Render a graph instead of a list.
        graph: bool,
        /// Include the timeline of changes.
        history: bool,
    },
    /// Trace a piece of data across architectural layers.
    Journey {
        /// Source file containing the endpoint.
        file: String,
        /// Endpoint/controller name.
        endpoint: String,
    },
    /// Record decisions.
    Decision {
        /// Decision subcommand.
        command: DecisionCommand,
    },
    /// Record or inspect captured prompts.
    Prompt {
        /// Prompt subcommand.
        command: PromptCommand,
    },
    /// Ingest one agent hook event from stdin.
    Capture,
    /// Promote captured edits to anchors once committed.
    Reconcile,
    /// Install or remove the capture hooks.
    Hook {
        /// Hook subcommand.
        command: HookCommand,
    },
}

/// `tellme decision ...`
#[derive(Debug, Clone, PartialEq, Eq)]
pub enum DecisionCommand {
    /// Attach a written decision to a line or variable.
    Add {
        /// Source file.
        file: String,
        /// Attach to a variable.
        var: Option<String>,
        /// Attach to a line number.
        line: Option<usize>,
        /// The decision text; the editor opens when absent.
        message: Option<String>,
    },
}

/// `tellme prompt ...`
#[derive(Debug, Clone, PartialEq, Eq)]
pub enum PromptCommand {
    /// Manually record a prompt for a line range.
    Add {
        /// Source file.
        file: String,
        /// Line selector.
        line: String,
        /// Session label.
        session: Option<String>,
        /// Prompt text; read from stdin when absent.
        message: Option<String>,
    },
    /// List recorded prompts.
    List {
        /// Only prompts that touched this file.
        file: Option<String>,
        /// Print the complete prompt text.
        full: bool,
    },
}

/// `tellme hook ...`
#[derive(Debug, Clone, Copy, PartialEq, Eq)]
pub enum HookCommand {
    /// Add the capture hooks.
    Install {
        /// Report without writing.
        dry_run: bool,
    },
    /// Remove the capture hooks.
    Uninstall {
        /// Report without writing.
        dry_run: bool,
    },
}

/// Per-invocation context shared by all handlers.
#[derive(Debug, Clone, PartialEq, Eq)]
pub struct Ctx {
    /// Directory to start repository discovery from.
    pub start_dir: String,
    /// How to render output.
    pub format: OutputFormat,
    /// Whether handlers may take over the terminal with an interactive UI.
    pub interactive: bool,
}

impl Ctx {
    /// The context of a run: discovery starts at `--repo` when given, else at
    /// the current directory; the format defaults to text; the browser may
    /// open only when not opted out, for text output, on a terminal.
    pub fn from_cli(cli: &Cli, current_dir: String, stdout_is_terminal: bool) -> (r: Ctx)
        ensures
            r.start_dir@ == match cli.repo {
                Some(p) => p@,
                None => current_dir@,
            },
            r.format == match cli.format {
                Some(f) => f,
                None => OutputFormat::Text,
            },
            r.interactive == (!cli.plain && r.format == OutputFormat::Text && stdout_is_terminal),
    {
        let start_dir = match &cli.repo {
            Some(p) => crate::text::owned(p.as_str()),
            None => current_dir,
        };
        let format = match cli.format {
            Some(f) => f,
            None => OutputFormat::Text,
        };
        let text = match format {
            OutputFormat::Text => true,
            _ => false,
        };
        Ctx { start_dir, format, interactive: !cli.plain && text && stdout_is_terminal }
    }
}

} // verus!
