use tellme::git::{commits_newest_first, touching_commits, CommitInfo};

fn commit(id: &str, time: i64) -> CommitInfo {
    CommitInfo {
        id: id.to_string(),
        summary: "initial commit".to_string(),
        author_name: "Ada".to_string(),
        author_email: "ada@example.com".to_string(),
        time,
    }
}

#[test]
fn commits_touching_range_dedups() {
    let c = commit("c1", 1_700_000_000);
    assert_eq!(commits_newest_first(vec![c.clone(), c.clone(), c]).len(), 1);
}

#[test]
fn commits_are_newest_first() {
    let out = commits_newest_first(vec![commit("a", 1), commit("b", 3), commit("a", 1), commit("c", 2)]);
    let ids: Vec<_> = out.iter().map(|c| c.id.as_str()).collect();
    assert_eq!(ids, vec!["b", "c", "a"]);
}

#[test]
fn lines_without_a_commit_are_not_committed() {
    assert_eq!(touching_commits(None), None);
    assert_eq!(touching_commits(Some(vec![None])), None);
    assert_eq!(touching_commits(Some(vec![])), None);
    let c = commit("a", 1);
    assert_eq!(touching_commits(Some(vec![None, Some(c.clone()), Some(c.clone())])), Some(vec![c]));
}
