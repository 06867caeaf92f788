use tellme::error::Error;
use tellme::paths::{join, repo_relative, Layout};

#[test]
fn layout_paths() {
    let l = Layout::new("/r");
    assert_eq!(l.repo_root(), "/r");
    assert_eq!(l.tellme_dir(), "/r/.tellme");
    assert_eq!(l.index_db(), "/r/.tellme/index.db");
    assert_eq!(l.blobs_dir(), "/r/.tellme/blobs");
    assert_eq!(l.config_path(), "/r/.tellme/config.json");
    assert_eq!(l.cache_dir(), "/r/.tellme/cache");
    assert_eq!(l.gitignore_path(), "/r/.gitignore");
}

#[test]
fn join_like_path_join() {
    assert_eq!(join("a", "b"), "a/b");
    assert_eq!(join("a/", "b"), "a/b");
    assert_eq!(join("", "b"), "b");
    assert_eq!(join("a", "/b"), "/b");
}

#[test]
fn repo_relative_paths() {
    assert_eq!(repo_relative("/r", "/r/sub", "x.py").unwrap(), "sub/x.py");
    assert_eq!(repo_relative("/r/", "/elsewhere", "/r/a/b.py").unwrap(), "a/b.py");
    match repo_relative("/r", "/other", "x.py") {
        Err(Error::Other(m)) => assert_eq!(m, "x.py is not inside the repository"),
        _ => panic!("expected an error"),
    }
    assert!(repo_relative("/r", "/r", "").is_err());
}
