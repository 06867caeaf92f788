use tellme::reconcile::{reconcile, step, Action, Probe, Report};
use tellme::store::PendingEdit;

fn pending(id: i64, file: &str) -> PendingEdit {
    PendingEdit { id, prompt_id: 10 + id, file: file.to_string(), line_start: 2, line_end: 2, created_at: 0 }
}

#[test]
fn reconciles_committed_pending_edit() {
    let pe = pending(1, "checkout.py");
    let (report, action) = step(Report::default(), &pe, Probe::Blamed("abc".to_string()));
    assert_eq!(report, Report { reconciled: 1, skipped: 0 });
    assert_eq!(
        action,
        Action::Promote {
            pending_id: 1,
            prompt_id: 11,
            file: "checkout.py".to_string(),
            line_start: 2,
            line_end: 2,
            commit_id: "abc".to_string()
        }
    );
}

#[test]
fn skips_dirty_file() {
    let pe = pending(1, "f.py");
    let (report, action) = step(Report::default(), &pe, Probe::Dirty);
    assert_eq!(report, Report { reconciled: 0, skipped: 1 });
    assert_eq!(action, Action::Keep);
    let (report, action) = step(report, &pe, Probe::Unblamed);
    assert_eq!(report, Report { reconciled: 0, skipped: 2 });
    assert_eq!(action, Action::Keep);
}

#[test]
fn plan_accounts_for_every_edit() {
    let edits = vec![pending(1, "a.py"), pending(2, "b.py"), pending(3, "c.py")];
    let (actions, report) = reconcile(&edits, vec![Probe::Blamed("c".into()), Probe::Dirty, Probe::Unblamed]);
    assert_eq!(report, Report { reconciled: 1, skipped: 2 });
    assert_eq!(actions.len(), 3);
    assert!(matches!(actions[0], Action::Promote { pending_id: 1, .. }));
    assert_eq!(actions[1], Action::Keep);
}
