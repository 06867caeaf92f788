use tellme::reconcile::{summary, Report};
use tellme::store::schema::migrations_after;

#[test]
fn migrate_sets_user_version_and_is_idempotent() {
    assert_eq!(migrations_after(0), vec![1, 2]);
    assert_eq!(migrations_after(2), Vec::<i64>::new());
}

#[test]
fn migrates_v1_db_up_to_v2() {
    assert_eq!(migrations_after(1), vec![2]);
    assert_eq!(migrations_after(-3), vec![1, 2]);
    assert_eq!(migrations_after(9), Vec::<i64>::new());
}

#[test]
fn reconcile_summary_text() {
    assert_eq!(summary(&Report { reconciled: 2, skipped: 0 }), "Reconciled 2 edit(s); 0 still pending.");
}

#[test]
fn v2_adds_pending_edit() {
    assert!(migrations_after(0).contains(&2));
}
