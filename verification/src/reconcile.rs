//! Promote pending edits to committed, git-derived anchors.
//!
//! During an agent session edits are captured as pending edits with no
//! commit. Once the code is committed, each pending edit whose file is clean
//! and whose first line blames to a commit becomes an anchor at that commit
//! plus an edit, and the pending row is dropped; the rest stay pending.

use vstd::prelude::*;

use crate::store::PendingEdit;
use crate::text::{dec, push_dec, push_str};

verus! {

/// Summary of a reconcile run.
#[derive(Debug, Clone, Copy, PartialEq, Eq, Structural)]
pub struct Report {
    /// Pending edits turned into anchors.
    pub reconciled: usize,
    /// Pending edits left in place (file still dirty or lines not committed).
    pub skipped: usize,
}

/// What git says about a pending edit's file and first line.
#[derive(Debug, Clone, PartialEq, Eq)]
pub enum Probe {
    /// The file has uncommitted changes (or its status is unknown).
    Dirty,
    /// The file is clean and the edit's first line blames to this commit.
    Blamed(String),
    /// The file is clean but the line has no blame (not committed, out of range).
    Unblamed,
}

/// What to do with a pending edit.
#[derive(Debug, Clone, PartialEq, Eq)]
pub enum Action {
    /// Leave it pending.
    Keep,
    /// Record an anchor for `file` lines `line_start..=line_end` at
    /// `commit_id`, link `prompt_id` to it, and delete pending edit `pending_id`.
    Promote {
        /// Pending edit to delete.
        pending_id: i64,
        /// Prompt that produced the edit.
        prompt_id: i64,
        /// Repo-relative file.
        file: String,
        /// First line.
        line_start: i64,
        /// Last line.
        line_end: i64,
        /// Commit the lines blame to.
        commit_id: String,
    },
}

/// The decision for one pending edit and the report after it.
pub open spec fn spec_step(report: Report, pe: PendingEdit, probe: Probe) -> (Report, Action) {
    match probe {
        Probe::Blamed(c) => (
            Report { reconciled: (report.reconciled + 1) as usize, ..report },
            Action::Promote {
                pending_id: pe.id,
                prompt_id: pe.prompt_id,
                file: pe.file,
                line_start: pe.line_start,
                line_end: pe.line_end,
                commit_id: c,
            },
        ),
        _ => (Report { skipped: (report.skipped + 1) as usize, ..report }, Action::Keep),
    }
}

/// Decide one pending edit: a clean file whose line blames to a commit is
/// promoted; anything else is kept and counted as skipped.
pub fn step(report: Report, pe: &PendingEdit, probe: Probe) -> (r: (Report, Action))
    requires
        report.reconciled < usize::MAX,
        report.skipped < usize::MAX,
    ensures
        r.0 == spec_step(report, *pe, probe).0,
        r.1 == spec_step(report, *pe, probe).1,
{
    match probe {
        Probe::Blamed(c) => (
            Report { reconciled: report.reconciled + 1, ..report },
            Action::Promote {
                pending_id: pe.id,
                prompt_id: pe.prompt_id,
                file: pe.file.clone(),
                line_start: pe.line_start,
                line_end: pe.line_end,
                commit_id: c,
            },
        ),
        _ => (Report { skipped: report.skipped + 1, ..report }, Action::Keep),
    }
}

/// Number of probes that found a blamed commit.
pub open spec fn count_blamed(probes: Seq<Probe>) -> nat
    decreases probes.len(),
{
    if probes.len() == 0 {
        0
    } else {
        count_blamed(probes.drop_last()) + if probes.last() is Blamed {
            1nat
        } else {
            0nat
        }
    }
}

/// Decide every pending edit (`probes[i]` is what git said about
/// `pending[i]`): the actions in order, and the report.
pub fn reconcile(pending: &Vec<PendingEdit>, probes: Vec<Probe>) -> (r: (Vec<Action>, Report))
    requires
        pending@.len() == probes@.len(),
    ensures
        r.0@.len() == pending@.len(),
        forall|i: int|
            0 <= i < pending@.len() ==> #[trigger] r.0@[i] == spec_step(
                Report::default_spec(),
                pending@[i],
                probes@[i],
            ).1,
        r.1.reconciled == count_blamed(probes@),
        r.1.reconciled + r.1.skipped == pending@.len(),
{
    let ghost all = probes@;
    let mut rest = probes;
    let mut actions: Vec<Action> = Vec::new();
    let mut report = Report { reconciled: 0, skipped: 0 };
    let mut i: usize = 0;
    while i < pending.len()
        invariant
            i <= pending@.len() == all.len(),
            rest@ == all.subrange(i as int, all.len() as int),
            actions@.len() == i,
            forall|j: int|
                0 <= j < i ==> #[trigger] actions@[j] == spec_step(
                    Report::default_spec(),
                    pending@[j],
                    all[j],
                ).1,
            report.reconciled == count_blamed(all.subrange(0, i as int)),
            report.reconciled + report.skipped == i,
        decreases pending@.len() - i,
    {
        let probe = rest.remove(0);
        assert(all.subrange(0, i + 1).drop_last() =~= all.subrange(0, i as int));
        assert(probe == all[i as int]);
        let (next, action) = step(report, &pending[i], probe);
        assert(action == spec_step(Report::default_spec(), pending@[i as int], all[i as int]).1);
        report = next;
        actions.push(action);
        assert(rest@ =~= all.subrange(i + 1, all.len() as int));
        i += 1;
    }
    assert(all.subrange(0, i as int) =~= all);
    (actions, report)
}

impl Report {
    /// The empty report.
    pub open spec fn default_spec() -> Report {
        Report { reconciled: 0, skipped: 0 }
    }
}

impl Default for Report {
    /// The empty report: nothing reconciled, nothing skipped.
    fn default() -> (r: Self)
        ensures
            r == Report::default_spec(),
    {
        Report { reconciled: 0, skipped: 0 }
    }
}

/// Every pending edit is accounted for exactly once: each step counts its
/// edit as reconciled or skipped, and promotes it exactly when its line
/// blames to a commit.
pub proof fn law_reconcile_accounts_for_every_edit(report: Report, pe: PendingEdit, probe: Probe)
    requires
        report.reconciled < usize::MAX,
        report.skipped < usize::MAX,
    ensures
        spec_step(report, pe, probe).0.reconciled + spec_step(report, pe, probe).0.skipped
            == report.reconciled + report.skipped + 1,
        spec_step(report, pe, probe).1 is Promote <==> probe is Blamed,
        spec_step(report, pe, probe).1 is Promote ==> spec_step(report, pe, probe).0.reconciled
            == report.reconciled + 1,
{
}

/// A committed edit is promoted as itself: the anchor covers exactly the
/// pending edit's file and lines, at the commit its lines blame to, and links
/// the edit's own prompt while dropping that very pending edit.
pub proof fn law_promote_keeps_the_edit(report: Report, pe: PendingEdit, commit: String)
    ensures
        spec_step(report, pe, Probe::Blamed(commit)).1 matches Action::Promote {
            pending_id,
            prompt_id,
            file,
            line_start,
            line_end,
            commit_id,
        } && pending_id == pe.id && prompt_id == pe.prompt_id && file == pe.file && line_start
            == pe.line_start && line_end == pe.line_end && commit_id == commit,
{
}

/// A whole run promotes each committed pending edit as itself: wherever the
/// probe found a commit, the action is the promotion of that edit's own file,
/// lines and prompt at that commit; everywhere else the edit is kept.
pub proof fn law_reconcile_promotes_each_edit_as_itself(pending: Seq<PendingEdit>, probes: Seq<Probe>, i: int)
    requires
        0 <= i < pending.len(),
        pending.len() == probes.len(),
    ensures
        match probes[i] {
            Probe::Blamed(c) => spec_step(Report::default_spec(), pending[i], probes[i]).1 matches Action::Promote {
                pending_id,
                prompt_id,
                file,
                line_start,
                line_end,
                commit_id,
            } && pending_id == pending[i].id && prompt_id == pending[i].prompt_id && file
                == pending[i].file && line_start == pending[i].line_start && line_end
                == pending[i].line_end && commit_id == c,
            _ => spec_step(Report::default_spec(), pending[i], probes[i]).1 is Keep,
        },
{
    match probes[i] {
        Probe::Blamed(c) => law_promote_keeps_the_edit(Report::default_spec(), pending[i], c),
        _ => {},
    }
}

/// What a reconcile run reports.
pub fn summary(report: &Report) -> (r: String)
    ensures
        r@ == "Reconciled "@ + dec(report.reconciled as nat) + " edit(s); "@ + dec(
            report.skipped as nat,
        ) + " still pending."@,
{
    let mut r = String::new();
    push_str(&mut r, "Reconciled ");
    push_dec(&mut r, report.reconciled);
    push_str(&mut r, " edit(s); ");
    push_dec(&mut r, report.skipped);
    push_str(&mut r, " still pending.");
    r
}

} // verus!
