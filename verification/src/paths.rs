//! Filesystem layout of the committed `.tellme/` sidecar store.
//!
//! ```text
//! <repo>/.tellme/
//!   ├── index.db        SQLite index           (committed)
//!   ├── blobs/          content-addressed text  (committed)
//!   ├── config.json     local configuration     (committed)
//!   └── cache/          derived/scratch data     (gitignored)
//! ```

use vstd::prelude::*;

use crate::error::Error;
use crate::text::{chars_of, has_prefix, matches_at, owned, push_char, push_str, string_of};

verus! {

/// `base` joined with the relative `name` as `Path::join` does: a `/` between
/// them unless `base` is empty or already ends in `/`; an absolute `name`
/// replaces `base`.
pub open spec fn spec_join(base: Seq<char>, name: Seq<char>) -> Seq<char> {
    if name.len() > 0 && name[0] == '/' {
        name
    } else if base.len() == 0 || base.last() == '/' {
        base + name
    } else {
        base + seq!['/'] + name
    }
}

/// `base` joined with `name` (see `spec_join`).
pub fn join(base: &str, name: &str) -> (r: String)
    ensures
        r@ == spec_join(base@, name@),
{
    let b = chars_of(base);
    let n = chars_of(name);
    if n.len() > 0 && n[0] == '/' {
        return owned(name);
    }
    let mut r = owned(base);
    if !(b.len() == 0 || b[b.len() - 1] == '/') {
        push_char(&mut r, '/');
    }
    push_str(&mut r, name);
    r
}

/// Resolved paths for a repository's `.tellme/` store.
#[derive(Debug, Clone)]
pub struct Layout {
    root: String,
    tellme: String,
}

impl Layout {
    /// The repository working directory as laid out.
    pub closed spec fn spec_root(&self) -> Seq<char> {
        self.root@
    }

    /// The `.tellme/` directory as laid out.
    pub closed spec fn spec_tellme(&self) -> Seq<char> {
        self.tellme@
    }

    /// Build a layout rooted at a repository working directory.
    pub fn new(repo_root: &str) -> (r: Self)
        ensures
            r.spec_root() == repo_root@,
            r.spec_tellme() == spec_join(repo_root@, ".tellme"@),
    {
        let root = owned(repo_root);
        let tellme = join(repo_root, ".tellme");
        Layout { root, tellme }
    }

    /// The repository working directory.
    pub fn repo_root(&self) -> (r: &str)
        ensures
            r@ == self.spec_root(),
    {
        self.root.as_str()
    }

    /// The `.tellme/` directory itself.
    pub fn tellme_dir(&self) -> (r: &str)
        ensures
            r@ == self.spec_tellme(),
    {
        self.tellme.as_str()
    }

    /// SQLite index database (committed).
    pub fn index_db(&self) -> (r: String)
        ensures
            r@ == spec_join(self.spec_tellme(), "index.db"@),
    {
        join(self.tellme.as_str(), "index.db")
    }

    /// Content-addressed blob directory (committed).
    pub fn blobs_dir(&self) -> (r: String)
        ensures
            r@ == spec_join(self.spec_tellme(), "blobs"@),
    {
        join(self.tellme.as_str(), "blobs")
    }

    /// Configuration file (committed).
    pub fn config_path(&self) -> (r: String)
        ensures
            r@ == spec_join(self.spec_tellme(), "config.json"@),
    {
        join(self.tellme.as_str(), "config.json")
    }

    /// Derived/scratch cache (gitignored).
    pub fn cache_dir(&self) -> (r: String)
        ensures
            r@ == spec_join(self.spec_tellme(), "cache"@),
    {
        join(self.tellme.as_str(), "cache")
    }

    /// The `.gitignore` path at the repo root.
    pub fn gitignore_path(&self) -> (r: String)
        ensures
            r@ == spec_join(self.spec_root(), ".gitignore"@),
    {
        join(self.root.as_str(), ".gitignore")
    }
}

/// `root` as a directory prefix: ending in `/`.
pub open spec fn dir_prefix(root: Seq<char>) -> Seq<char> {
    if root.len() > 0 && root.last() == '/' {
        root
    } else {
        root.push('/')
    }
}

/// `file` (relative to `cwd` unless absolute) relative to the repository
/// root, when it lies strictly inside it.
pub open spec fn spec_repo_relative(root: Seq<char>, cwd: Seq<char>, file: Seq<char>) -> Option<
    Seq<char>,
> {
    let p = spec_join(cwd, file);
    let r = dir_prefix(root);
    if has_prefix(p, r) && p.len() > r.len() {
        Some(p.subrange(r.len() as int, p.len() as int))
    } else {
        None
    }
}

/// A file named on the command line (or by an agent), relative to `cwd`
/// unless absolute, as a path relative to the repository root. The paths
/// are compared as written: callers hand in canonical ones.
pub fn repo_relative(root: &str, cwd: &str, file: &str) -> (r: Result<String, Error>)
    ensures
        match r {
            Ok(rel) => spec_repo_relative(root@, cwd@, file@) == Some(rel@),
            Err(e) => spec_repo_relative(root@, cwd@, file@) is None && (e matches Error::Other(m)
                && m@ == file@ + " is not inside the repository"@),
        },
{
    let full = join(cwd, file);
    let mut prefix = owned(root);
    let rv = chars_of(root);
    if !(rv.len() > 0 && rv[rv.len() - 1] == '/') {
        push_char(&mut prefix, '/');
    }
    let p = chars_of(full.as_str());
    let q = chars_of(prefix.as_str());
    if matches_at(&p, &q, 0) && p.len() > q.len() {
        Ok(string_of(&p, q.len(), p.len()))
    } else {
        let mut m = owned(file);
        push_str(&mut m, " is not inside the repository");
        Err(Error::Other(m))
    }
}

/// A repo-relative path names the same file: appended to the root it gives
/// back the path as named, and it is never empty.
pub proof fn law_repo_relative_rejoins(root: Seq<char>, cwd: Seq<char>, file: Seq<char>)
    ensures
        spec_repo_relative(root, cwd, file) matches Some(rel) ==> dir_prefix(root) + rel
            == spec_join(cwd, file) && rel.len() > 0,
{
    match spec_repo_relative(root, cwd, file) {
        Some(rel) => {
            let p = spec_join(cwd, file);
            let r = dir_prefix(root);
            assert(p.subrange(0, r.len() as int) =~= r);
            assert(r + rel =~= p);
        },
        None => {},
    }
}

} // verus!
