//! `tellme hook install|uninstall`: the agent's project settings entries we
//! manage (on the document and on the settings file's text), the
//! `post-commit` script edits, and the plan each command carries out — what
//! to write, what `--dry-run` reports instead, and what is reported after.
//! Both directions are idempotent, and uninstall reverses install.

use vstd::prelude::*;

use crate::error::Error;
use crate::json::{
    distinct_keys, field, find, get, json_parse, lemma_get_filter, items_view, lemma_find, lemma_put,
    lemma_put_same, member_index, members_view, parse_json, pretty_json, print_json, put, Json,
    JsonView, Members,
};
use crate::text::{
    chars_of, contains, contains_chars, has_prefix, lemma_lines_step, line_end, lines,
    matches_at, next_char, owned, push_char, push_str, str_eq, string_of, strip_cr, sub_vec, trim,
    trim_range,
};

verus! {

/// The hooks we manage, as `(event, optional matcher)`.
pub fn managed_events() -> (r: [(&'static str, Option<&'static str>); 2])
    ensures
        r[0].0@ == "UserPromptSubmit"@,
        r[0].1 is None,
        r[1].0@ == "PostToolUse"@,
        r[1].1 matches Some(m) && m@ == "Edit|MultiEdit|Write"@,
{
    [("UserPromptSubmit", None), ("PostToolUse", Some("Edit|MultiEdit|Write"))]
}

/// How a changed/unchanged file is reported.
pub fn yes_no(b: bool) -> (r: &'static str)
    ensures
        r@ == if b {
            "updated"@
        } else {
            "unchanged"@
        },
{
    if b {
        "updated"
    } else {
        "unchanged"
    }
}

/// An optional string by its characters.
pub open spec fn opt_view(o: Option<String>) -> Option<Seq<char>> {
    match o {
        Some(s) => Some(s@),
        None => None,
    }
}

/// An optional string slice by its characters.
pub open spec fn opt_str_view(o: Option<&str>) -> Option<Seq<char>> {
    match o {
        Some(s) => Some(s@),
        None => None,
    }
}

/// The marker comment we add above our line.
pub open spec fn marker() -> Seq<char> {
    "# added by tellme"@
}

/// The script line that runs reconcile quietly.
pub open spec fn reconcile_line(cmd: Seq<char>) -> Seq<char> {
    cmd + " >/dev/null 2>&1 || true"@
}

/// `add_reconcile`'s result: `None` when the script already mentions the
/// command; otherwise the script (newline-terminated) with the marker and our
/// line appended, or a fresh `#!/bin/sh` script holding them.
pub open spec fn spec_add_reconcile(existing: Option<Seq<char>>, cmd: Seq<char>) -> Option<Seq<char>> {
    match existing {
        Some(s) => if contains(s, cmd) {
            None
        } else {
            let base = if s.len() > 0 && s.last() == '\n' {
                s
            } else {
                s.push('\n')
            };
            Some(base + marker() + seq!['\n'] + reconcile_line(cmd) + seq!['\n'])
        },
        None => Some("#!/bin/sh\n"@ + marker() + seq!['\n'] + reconcile_line(cmd) + seq!['\n']),
    }
}

/// Return an updated post-commit script that runs reconcile, or `None` if it
/// already does.
pub fn add_reconcile(existing: Option<&str>, reconcile_cmd: &str) -> (r: Option<String>)
    ensures
        opt_view(r) == spec_add_reconcile(opt_str_view(existing), reconcile_cmd@),
        r matches Some(out) ==> contains(out@, reconcile_cmd@),
{
    let mut line = owned(reconcile_cmd);
    push_str(&mut line, " >/dev/null 2>&1 || true");
    let r = match existing {
        Some(s) => {
            if crate::text::str_contains(s, reconcile_cmd) {
                return None;
            }
            let mut out = owned(s);
            let v = chars_of(s);
            if v.len() == 0 || v[v.len() - 1] != '\n' {
                push_char(&mut out, '\n');
            }
            push_str(&mut out, "# added by tellme\n");
            push_str(&mut out, line.as_str());
            push_char(&mut out, '\n');
            out
        },
        None => {
            let mut out = owned("#!/bin/sh\n# added by tellme\n");
            push_str(&mut out, line.as_str());
            push_char(&mut out, '\n');
            out
        },
    };
    proof {
        reveal_strlit("# added by tellme\n");
        reveal_strlit("# added by tellme");
        reveal_strlit("#!/bin/sh\n# added by tellme\n");
        reveal_strlit("#!/bin/sh\n");
        lemma_added_runs(opt_str_view(existing), reconcile_cmd@);
    }
    Some(r)
}

/// What `add_reconcile` adds runs the command.
proof fn lemma_added_runs(existing: Option<Seq<char>>, cmd: Seq<char>)
    ensures
        spec_add_reconcile(existing, cmd) matches Some(t) ==> contains(t, cmd),
{
    match spec_add_reconcile(existing, cmd) {
        Some(t) => {
            let i = t.len() - 1 - " >/dev/null 2>&1 || true"@.len() - cmd.len();
            assert(t.subrange(i, i + cmd.len()) =~= cmd);
            assert(crate::text::occurs_at(t, cmd, i));
        },
        None => {},
    }
}

/// Installing the post-commit hook is idempotent: once added, adding again
/// changes nothing.
pub proof fn law_add_reconcile_idempotent(existing: Option<Seq<char>>, cmd: Seq<char>)
    ensures
        spec_add_reconcile(existing, cmd) matches Some(t) ==> spec_add_reconcile(Some(t), cmd)
            is None,
{
    lemma_added_runs(existing, cmd);
}

/// A line that is our marker comment (surrounding whitespace aside).
pub open spec fn is_marker_line(l: Seq<char>) -> bool {
    trim(l) == marker()
}

/// Whether line `i` of a `post-commit` script is one `add_reconcile` wrote:
/// our marker, or the reconcile command on the line right after a marker.
pub open spec fn ours(ls: Seq<Seq<char>>, i: int) -> bool {
    is_marker_line(ls[i]) || (i > 0 && is_marker_line(ls[i - 1]) && contains(ls[i], "reconcile"@))
}

/// The lines removal keeps, in order: every line that is not ours.
pub open spec fn kept(ls: Seq<Seq<char>>) -> Seq<Seq<char>>
    decreases ls.len(),
{
    if ls.len() == 0 {
        seq![]
    } else if ours(ls, ls.len() - 1) {
        kept(ls.drop_last())
    } else {
        kept(ls.drop_last()).push(ls.last())
    }
}

/// A line that makes a script worth keeping: not blank, not a shebang.
pub open spec fn meaningful_line(l: Seq<char>) -> bool {
    trim(l).len() > 0 && !has_prefix(l, "#!"@)
}

/// Some line of `ls` is meaningful.
pub open spec fn any_meaningful(ls: Seq<Seq<char>>) -> bool {
    exists|i: int| 0 <= i < ls.len() && meaningful_line(#[trigger] ls[i])
}

/// Lines joined with `\n` between them.
pub open spec fn join_lines(ls: Seq<Seq<char>>) -> Seq<char>
    decreases ls.len(),
{
    if ls.len() == 0 {
        seq![]
    } else if ls.len() == 1 {
        ls[0]
    } else {
        join_lines(ls.drop_last()) + seq!['\n'] + ls.last()
    }
}

/// `remove_reconcile`'s result: `None` when the script never mentions
/// reconcile; otherwise the lines that are not ours (our marker and the
/// reconcile command after it) joined and newline-terminated, or the
/// empty text (meaning "delete the file") when nothing meaningful is left.
pub open spec fn spec_remove_reconcile(s: Seq<char>) -> Option<Seq<char>> {
    if !contains(s, "reconcile"@) {
        None
    } else {
        let k = kept(lines(s));
        if any_meaningful(k) {
            Some(join_lines(k) + seq!['\n'])
        } else {
            Some(seq![])
        }
    }
}

/// Strip our reconcile line from a post-commit script, or `None` if the
/// script never mentions reconcile: the marker line and the reconcile command
/// right after it go, every other line stays.
pub fn remove_reconcile(existing: &str) -> (r: Option<String>)
    ensures
        opt_view(r) == spec_remove_reconcile(existing@),
{
    if !crate::text::str_contains(existing, "reconcile") {
        return None;
    }
    let v = chars_of(existing);
    let n = v.len();
    let word = chars_of("reconcile");
    let mark = chars_of("# added by tellme");
    let bang = chars_of("#!");
    let mut out = String::new();
    let mut count: usize = 0;
    let mut meaningful = false;
    let mut prev_mark = false;
    let ghost mut done: Seq<Seq<char>> = seq![];
    let mut i: usize = 0;
    assert(v@.subrange(0, n as int) =~= v@);
    while i < n
        invariant
            i <= n == v@.len(),
            word@ == "reconcile"@,
            mark@ == marker(),
            bang@ == "#!"@,
            lines(v@) == done + lines(v@.subrange(i as int, n as int)),
            out@ == join_lines(kept(done)),
            count == kept(done).len(),
            count <= i,
            meaningful == any_meaningful(kept(done)),
            prev_mark == (done.len() > 0 && is_marker_line(done.last())),
        decreases n - i,
    {
        let k = next_char(&v, i, n, '\n');
        let e = line_end(&v, i, k);
        proof {
            lemma_lines_step(v@, i as int, k as int);
        }
        let line = sub_vec(&v, i, e);
        let ghost l = line@;
        let has_word = contains_chars(&line, &word);
        let (ta, tb) = trim_range(&line, 0, line.len());
        assert(line@.subrange(0, line@.len() as int) =~= l);
        let is_mark = tb - ta == mark.len() && matches_at(&line, &mark, ta);
        let keep = !is_mark && !(prev_mark && has_word);
        assert(is_mark == is_marker_line(l)) by {
            let t = line@.subrange(ta as int, tb as int);
            if tb - ta == mark@.len() {
                assert(line@.subrange(ta as int, ta + mark@.len()) =~= t);
            }
            if t == mark@ {
                assert(tb - ta == mark@.len());
            }
        }
        assert((done.push(l)).drop_last() =~= done);
        assert(keep == !ours(done.push(l), done.len() as int)) by {
            if done.len() > 0 {
                assert(done.push(l)[done.len() - 1] == done.last());
            }
        }
        if keep {
            if count > 0 {
                push_char(&mut out, '\n');
            }
            let ls = string_of(&line, 0, line.len());
            push_str(&mut out, ls.as_str());
            let nonblank = tb > ta;
            let shebang = matches_at(&line, &bang, 0);
            proof {
                let kd = kept(done);
                assert(kept(done.push(l)) == kd.push(l));
                assert(any_meaningful(kd.push(l)) == (any_meaningful(kd) || meaningful_line(l)))
                    by {
                    if meaningful_line(l) {
                        assert(kd.push(l)[kd.len() as int] == l);
                    }
                    if any_meaningful(kd) {
                        let j = choose|j: int|
                            0 <= j < kd.len() && meaningful_line(#[trigger] kd[j]);
                        assert(kd.push(l)[j] == kd[j]);
                    }
                    if any_meaningful(kd.push(l)) {
                        let j = choose|j: int|
                            0 <= j < kd.len() + 1 && meaningful_line(#[trigger] kd.push(l)[j]);
                        if j < kd.len() {
                            assert(kd.push(l)[j] == kd[j]);
                        }
                    }
                }
                if kd.len() > 0 {
                    assert(kd.push(l).drop_last() =~= kd);
                }
            }
            meaningful = meaningful || (nonblank && !shebang);
            count += 1;
        }
        proof {
            done = done.push(l);
        }
        prev_mark = is_mark;
        if k < n {
            i = k + 1;
        } else {
            i = n;
            assert(lines(v@.subrange(n as int, n as int)) =~= Seq::<Seq<char>>::empty());
        }
    }
    assert(done + lines(v@.subrange(n as int, n as int)) =~= done);
    if meaningful {
        push_char(&mut out, '\n');
        Some(out)
    } else {
        Some(String::new())
    }
}


// ---- the agent's project settings ------------------------------------------

/// Whether a settings body has anything to parse: present and not blank.
/// A missing or blank body is merged into as the empty object.
pub fn has_settings_text(existing: Option<&str>) -> (b: bool)
    ensures
        b == (existing matches Some(s) && trim(s@).len() > 0),
{
    match existing {
        Some(s) => {
            let v = chars_of(s);
            let (a, b) = trim_range(&v, 0, v.len());
            assert(v@.subrange(0, v@.len() as int) =~= v@);
            b > a
        },
        None => false,
    }
}

/// An optional JSON value by its view.
pub open spec fn opt_json_view(o: Option<Json>) -> Option<JsonView> {
    match o {
        Some(j) => Some(j@),
        None => None,
    }
}

/// The entry we add under an event: one hook running `cmd`, and the matcher
/// where one is given.
pub open spec fn command_entry(cmd: Seq<char>, matcher: Option<Seq<char>>) -> JsonView {
    let hook = JsonView::Object(
        seq![("type"@, JsonView::Str("command"@)), ("command"@, JsonView::Str(cmd))],
    );
    let inner: Members = seq![("hooks"@, JsonView::Array(seq![hook]))];
    match matcher {
        Some(m) => JsonView::Object(inner.push(("matcher"@, JsonView::Str(m)))),
        None => JsonView::Object(inner),
    }
}

/// A hook object whose `command` is the string `cmd`.
pub open spec fn runs_command(h: JsonView, cmd: Seq<char>) -> bool {
    field(h, "command"@) == Some(JsonView::Str(cmd))
}

/// An event entry whose `hooks` array holds a hook running `cmd`.
pub open spec fn entry_has_command(e: JsonView, cmd: Seq<char>) -> bool {
    match field(e, "hooks"@) {
        Some(JsonView::Array(hs)) => exists|i: int|
            0 <= i < hs.len() && runs_command(#[trigger] hs[i], cmd),
        _ => false,
    }
}

/// Some entry of an event array runs `cmd`.
pub open spec fn contains_command(a: Seq<JsonView>, cmd: Seq<char>) -> bool {
    exists|i: int| 0 <= i < a.len() && entry_has_command(#[trigger] a[i], cmd)
}

/// The hooks object after adding our entry under `event`: unchanged when an
/// entry already runs `cmd`, none when the event's member is not an array.
pub open spec fn spec_merge_event(
    h: Members,
    event: Seq<char>,
    matcher: Option<Seq<char>>,
    cmd: Seq<char>,
) -> Option<Members> {
    match get(h, event) {
        None => Some(put(h, event, JsonView::Array(seq![command_entry(cmd, matcher)]))),
        Some(JsonView::Array(a)) => if contains_command(a, cmd) {
            Some(h)
        } else {
            Some(put(h, event, JsonView::Array(a.push(command_entry(cmd, matcher)))))
        },
        Some(_) => None,
    }
}

/// The matcher of the `PostToolUse` entry.
pub open spec fn post_tool_matcher() -> Seq<char> {
    "Edit|MultiEdit|Write"@
}

/// `merge_settings`'s result: the settings with our entries under both
/// managed events, or the message of the configuration error.
pub open spec fn spec_merge_settings(existing: Option<JsonView>, cmd: Seq<char>) -> Result<
    JsonView,
    Seq<char>,
> {
    let root = match existing {
        Some(v) => v,
        None => JsonView::Object(seq![]),
    };
    match root {
        JsonView::Object(fs) => {
            let hooks = match get(fs, "hooks"@) {
                None => Some(Seq::<(Seq<char>, JsonView)>::empty()),
                Some(JsonView::Object(h)) => Some(h),
                Some(_) => None,
            };
            match hooks {
                None => Err("settings.hooks is not an object"@),
                Some(h) => match spec_merge_event(h, "UserPromptSubmit"@, None, cmd) {
                    None => Err("settings.hooks.UserPromptSubmit is not an array"@),
                    Some(h1) => match spec_merge_event(
                        h1,
                        "PostToolUse"@,
                        Some(post_tool_matcher()),
                        cmd,
                    ) {
                        None => Err("settings.hooks.PostToolUse is not an array"@),
                        Some(h2) => Ok(JsonView::Object(put(fs, "hooks"@, JsonView::Object(h2)))),
                    },
                },
            }
        },
        _ => Err("settings.json is not an object"@),
    }
}

/// Our entry under an event, as a value.
fn command_entry_json(cmd: &str, matcher: Option<&str>) -> (j: Json)
    ensures
        j@ == command_entry(cmd@, opt_str_view(matcher)),
{
    let mut hook: Vec<(String, Json)> = Vec::new();
    hook.push((owned("type"), Json::Str(owned("command"))));
    hook.push((owned("command"), Json::Str(owned(cmd))));
    let ghost hv = members_view(hook@);
    assert(hv =~= seq![("type"@, JsonView::Str("command"@)), ("command"@, JsonView::Str(cmd@))]);
    let mut hooks: Vec<Json> = Vec::new();
    let hook_json = Json::Object(hook);
    hooks.push(hook_json);
    assert(items_view(hooks@) =~= seq![hook_json@]);
    let mut inner: Vec<(String, Json)> = Vec::new();
    inner.push((owned("hooks"), Json::Array(hooks)));
    let ghost iv = members_view(inner@);
    assert(iv =~= seq![("hooks"@, JsonView::Array(seq![hook_json@]))]);
    match matcher {
        Some(m) => {
            inner.push((owned("matcher"), Json::Str(owned(m))));
            assert(members_view(inner@) =~= iv.push(("matcher"@, JsonView::Str(m@))));
        },
        None => {},
    }
    Json::Object(inner)
}

/// Whether a hook object runs `cmd`.
fn hook_runs(h: &Json, cmd: &str) -> (b: bool)
    ensures
        b == runs_command(h@, cmd@),
{
    match h {
        Json::Object(fs) => match member_index(fs, "command") {
            Some(i) => match &fs[i].1 {
                Json::Str(s) => str_eq(s.as_str(), cmd),
                _ => false,
            },
            None => false,
        },
        _ => false,
    }
}

/// Whether an event entry runs `cmd`.
fn entry_runs(e: &Json, cmd: &str) -> (b: bool)
    ensures
        b == entry_has_command(e@, cmd@),
{
    match e {
        Json::Object(fs) => match member_index(fs, "hooks") {
            Some(i) => match &fs[i].1 {
                Json::Array(hs) => {
                    let ghost hv = items_view(hs@);
                    assert(members_view(fs@)[i as int].1 == JsonView::Array(hv));
                    assert(field(e@, "hooks"@) == Some(JsonView::Array(hv)));
                    let mut j: usize = 0;
                    while j < hs.len()
                        invariant
                            j <= hs@.len(),
                            hv == items_view(hs@),
                            field(e@, "hooks"@) == Some(JsonView::Array(hv)),
                            forall|k: int| 0 <= k < j ==> !runs_command(#[trigger] hv[k], cmd@),
                        decreases hs@.len() - j,
                    {
                        if hook_runs(&hs[j], cmd) {
                            assert(field(e@, "hooks"@)->Some_0->Array_0 == hv);
                            assert(runs_command(
                                field(e@, "hooks"@)->Some_0->Array_0[j as int],
                                cmd@,
                            ));
                            return true;
                        }
                        j = j + 1;
                    }
                    false
                },
                _ => false,
            },
            None => false,
        },
        _ => false,
    }
}

/// Whether some entry of an event array runs `cmd`.
pub fn has_command(a: &Vec<Json>, cmd: &str) -> (b: bool)
    ensures
        b == contains_command(items_view(a@), cmd@),
{
    let ghost av = items_view(a@);
    let mut j: usize = 0;
    while j < a.len()
        invariant
            j <= a@.len(),
            av == items_view(a@),
            forall|k: int| 0 <= k < j ==> !entry_has_command(#[trigger] av[k], cmd@),
        decreases a@.len() - j,
    {
        if entry_runs(&a[j], cmd) {
            assert(entry_has_command(av[j as int], cmd@));
            return true;
        }
        j = j + 1;
    }
    false
}

/// Add our entry under `event` of a hooks object; false when the event's
/// member is not an array.
fn merge_event(h: &mut Vec<(String, Json)>, event: &str, matcher: Option<&str>, cmd: &str) -> (ok:
    bool)
    ensures
        ok == spec_merge_event(members_view(old(h)@), event@, opt_str_view(matcher), cmd@) is Some,
        ok ==> Some(members_view(final(h)@)) == spec_merge_event(
            members_view(old(h)@),
            event@,
            opt_str_view(matcher),
            cmd@,
        ),
{
    let ghost hv = members_view(h@);
    let ghost old_h = h@;
    proof {
        lemma_find(hv, event@);
    }
    match member_index(h, event) {
        None => {
            let e = command_entry_json(cmd, matcher);
            let mut a: Vec<Json> = Vec::new();
            a.push(e);
            assert(items_view(a@) =~= seq![e@]);
            h.push((owned(event), Json::Array(a)));
            assert(members_view(h@) =~= hv.push((event@, JsonView::Array(seq![e@]))));
            true
        },
        Some(i) => {
            let (k, v) = h.remove(i);
            match v {
                Json::Array(mut a) => {
                    let ghost av = items_view(a@);
                    if !has_command(&a, cmd) {
                        let e = command_entry_json(cmd, matcher);
                        a.push(e);
                        assert(items_view(a@) =~= av.push(e@));
                    }
                    h.insert(i, (k, Json::Array(a)));
                    assert(h@ =~= old_h.update(i as int, (k, Json::Array(a))));
                    assert(members_view(h@) =~= hv.update(
                        i as int,
                        (event@, JsonView::Array(items_view(a@))),
                    ));
                    proof {
                        if contains_command(av, cmd@) {
                            assert(members_view(h@) =~= hv);
                        }
                    }
                    true
                },
                other => {
                    h.insert(i, (k, other));
                    false
                },
            }
        },
    }
}

/// Add our capture hooks to the agent's project settings document, idempotently.
/// `existing` is none where there is no settings body (or only a blank one).
pub fn merge_settings_doc(existing: Option<Json>, command: &str) -> (r: Result<Json, Error>)
    ensures
        match r {
            Ok(j) => spec_merge_settings(opt_json_view(existing), command@) == Ok::<
                JsonView,
                Seq<char>,
            >(j@),
            Err(e) => e matches Error::Config(m) && spec_merge_settings(
                opt_json_view(existing),
                command@,
            ) == Err::<JsonView, Seq<char>>(m@),
        },
{
    let ghost ev = opt_json_view(existing);
    let root = match existing {
        Some(j) => j,
        None => {
            let empty: Vec<(String, Json)> = Vec::new();
            assert(members_view(empty@) =~= Seq::<(Seq<char>, JsonView)>::empty());
            Json::Object(empty)
        },
    };
    let mut fs = match root {
        Json::Object(fs) => fs,
        _ => {
            return Err(Error::Config(owned("settings.json is not an object")));
        },
    };
    let ghost fv = members_view(fs@);
    let ghost old_fs = fs@;
    proof {
        lemma_find(fv, "hooks"@);
    }
    let (hooks_key, mut hooks, at) = match member_index(&fs, "hooks") {
        None => {
            let h: Vec<(String, Json)> = Vec::new();
            assert(members_view(h@) =~= Seq::<(Seq<char>, JsonView)>::empty());
            (owned("hooks"), h, None)
        },
        Some(i) => {
            let (k, v) = fs.remove(i);
            match v {
                Json::Object(h) => (k, h, Some(i)),
                _ => {
                    return Err(Error::Config(owned("settings.hooks is not an object")));
                },
            }
        },
    };
    if !merge_event(&mut hooks, "UserPromptSubmit", None, command) {
        return Err(Error::Config(owned("settings.hooks.UserPromptSubmit is not an array")));
    }
    if !merge_event(&mut hooks, "PostToolUse", Some("Edit|MultiEdit|Write"), command) {
        return Err(Error::Config(owned("settings.hooks.PostToolUse is not an array")));
    }
    let ghost h2 = members_view(hooks@);
    let ghost hooks_json = Json::Object(hooks);
    match at {
        Some(i) => {
            fs.insert(i, (hooks_key, Json::Object(hooks)));
            assert(fs@ =~= old_fs.update(i as int, (hooks_key, hooks_json)));
            assert(members_view(fs@) =~= fv.update(i as int, ("hooks"@, JsonView::Object(h2))));
        },
        None => {
            fs.push((hooks_key, Json::Object(hooks)));
            assert(members_view(fs@) =~= fv.push(("hooks"@, JsonView::Object(h2))));
        },
    }
    Ok(Json::Object(fs))
}

/// Entries that stay when stripping: those not running `cmd`.
pub open spec fn keep_entry(cmd: Seq<char>) -> spec_fn(JsonView) -> bool {
    |e: JsonView| !entry_has_command(e, cmd)
}

/// Hooks members that stay after stripping: all but empty arrays.
pub open spec fn keep_member() -> spec_fn((Seq<char>, JsonView)) -> bool {
    |m: (Seq<char>, JsonView)| !(m.1 matches JsonView::Array(a) && a.len() == 0)
}

/// The hooks object with the entries running `cmd` dropped from `event`'s
/// array; unchanged when that member is not an array.
pub open spec fn spec_strip_event(h: Members, event: Seq<char>, cmd: Seq<char>) -> Members {
    match get(h, event) {
        Some(JsonView::Array(a)) => put(h, event, JsonView::Array(a.filter(keep_entry(cmd)))),
        _ => h,
    }
}

/// `strip_settings`'s result: when the document is an object whose `hooks`
/// is an object, our entries leave both managed events and every hooks
/// member left an empty array goes; otherwise the document is unchanged.
pub open spec fn spec_strip_settings(root: JsonView, cmd: Seq<char>) -> JsonView {
    match root {
        JsonView::Object(fs) => match get(fs, "hooks"@) {
            Some(JsonView::Object(h)) => {
                let h1 = spec_strip_event(h, "UserPromptSubmit"@, cmd);
                let h2 = spec_strip_event(h1, "PostToolUse"@, cmd);
                JsonView::Object(put(fs, "hooks"@, JsonView::Object(h2.filter(keep_member()))))
            },
            _ => root,
        },
        _ => root,
    }
}

/// The entries of an event array that do not run `cmd`, in order.
fn retain_entries(a: Vec<Json>, cmd: &str) -> (r: Vec<Json>)
    ensures
        items_view(r@) == items_view(a@).filter(keep_entry(cmd@)),
{
    let ghost orig = a@;
    let ghost n = a@.len();
    let mut rest = a;
    let mut out: Vec<Json> = Vec::new();
    let ghost mut i: int = 0;
    assert(items_view(orig.subrange(0, 0)) =~= Seq::<JsonView>::empty());
    assert(orig.subrange(0, n as int) =~= orig);
    while rest.len() > 0
        invariant
            0 <= i <= n == orig.len(),
            rest@ == orig.subrange(i, n as int),
            items_view(out@) == items_view(orig.subrange(0, i)).filter(keep_entry(cmd@)),
        decreases rest@.len(),
    {
        let e = rest.remove(0);
        let keep = !entry_runs(&e, cmd);
        let ghost before = items_view(orig.subrange(0, i));
        let ghost ev = e@;
        assert(e == orig[i]);
        assert(items_view(orig.subrange(0, i + 1)) =~= before.push(ev));
        proof {
            before.lemma_filter_push(ev, keep_entry(cmd@));
        }
        if keep {
            let ghost ov = items_view(out@);
            out.push(e);
            assert(items_view(out@) =~= ov.push(ev));
        }
        proof {
            i = i + 1;
        }
        assert(rest@ =~= orig.subrange(i, n as int));
    }
    out
}

/// Whether a member holds an empty array.
fn is_empty_array(j: &Json) -> (b: bool)
    ensures
        b == (j@ matches JsonView::Array(a) && a.len() == 0),
{
    match j {
        Json::Array(a) => a.len() == 0,
        _ => false,
    }
}

/// The members of a hooks object that are not empty arrays, in order.
fn drop_empty_arrays(h: Vec<(String, Json)>) -> (r: Vec<(String, Json)>)
    ensures
        members_view(r@) == members_view(h@).filter(keep_member()),
{
    let ghost orig = h@;
    let ghost n = h@.len();
    let mut rest = h;
    let mut out: Vec<(String, Json)> = Vec::new();
    let ghost mut i: int = 0;
    assert(members_view(orig.subrange(0, 0)) =~= Seq::<(Seq<char>, JsonView)>::empty());
    assert(orig.subrange(0, n as int) =~= orig);
    while rest.len() > 0
        invariant
            0 <= i <= n == orig.len(),
            rest@ == orig.subrange(i, n as int),
            members_view(out@) == members_view(orig.subrange(0, i)).filter(keep_member()),
        decreases rest@.len(),
    {
        let m = rest.remove(0);
        let keep = !is_empty_array(&m.1);
        let ghost before = members_view(orig.subrange(0, i));
        let ghost mv = (m.0@, m.1@);
        assert(m == orig[i]);
        assert(members_view(orig.subrange(0, i + 1)) =~= before.push(mv));
        proof {
            before.lemma_filter_push(mv, keep_member());
        }
        if keep {
            let ghost ov = members_view(out@);
            out.push(m);
            assert(members_view(out@) =~= ov.push(mv));
        }
        proof {
            i = i + 1;
        }
        assert(rest@ =~= orig.subrange(i, n as int));
    }
    out
}

/// Drop the entries running `cmd` from `event`'s array of a hooks object.
fn strip_event(h: &mut Vec<(String, Json)>, event: &str, cmd: &str)
    ensures
        members_view(final(h)@) == spec_strip_event(members_view(old(h)@), event@, cmd@),
{
    let ghost hv = members_view(h@);
    let ghost old_h = h@;
    proof {
        lemma_find(hv, event@);
    }
    match member_index(h, event) {
        None => {},
        Some(i) => {
            let (k, v) = h.remove(i);
            match v {
                Json::Array(a) => {
                    let kept = retain_entries(a, cmd);
                    let ghost kv = items_view(kept@);
                    h.insert(i, (k, Json::Array(kept)));
                    assert(members_view(h@) =~= hv.update(i as int, (event@, JsonView::Array(kv))));
                },
                other => {
                    h.insert(i, (k, other));
                    assert(h@ =~= old_h);
                },
            }
        },
    }
}

/// Remove our capture hooks from a settings document.
pub fn strip_settings_doc(root: Json, command: &str) -> (r: Json)
    ensures
        r@ == spec_strip_settings(root@, command@),
{
    match root {
        Json::Object(mut fs) => {
            let ghost fv = members_view(fs@);
            let ghost old_fs = fs@;
            proof {
                lemma_find(fv, "hooks"@);
            }
            match member_index(&fs, "hooks") {
                Some(i) => {
                    let (k, v) = fs.remove(i);
                    match v {
                        Json::Object(mut h) => {
                            strip_event(&mut h, "UserPromptSubmit", command);
                            strip_event(&mut h, "PostToolUse", command);
                            let h2 = drop_empty_arrays(h);
                            let ghost hv = members_view(h2@);
                            fs.insert(i, (k, Json::Object(h2)));
                            assert(members_view(fs@) =~= fv.update(
                                i as int,
                                ("hooks"@, JsonView::Object(hv)),
                            ));
                            Json::Object(fs)
                        },
                        other => {
                            fs.insert(i, (k, other));
                            assert(fs@ =~= old_fs);
                            Json::Object(fs)
                        },
                    }
                },
                None => Json::Object(fs),
            }
        },
        other => other,
    }
}

/// The member `event` of a document's `hooks` object.
pub open spec fn hooks_member(v: JsonView, event: Seq<char>) -> Option<JsonView> {
    match field(v, "hooks"@) {
        Some(h) => field(h, event),
        None => None,
    }
}

/// Our entry runs `cmd`.
proof fn lemma_command_entry_runs(cmd: Seq<char>, matcher: Option<Seq<char>>)
    ensures
        entry_has_command(command_entry(cmd, matcher), cmd),
{
    reveal_strlit("type");
    reveal_strlit("command");
    reveal_strlit("hooks");
    reveal_strlit("matcher");
    let hook = JsonView::Object(
        seq![("type"@, JsonView::Str("command"@)), ("command"@, JsonView::Str(cmd))],
    );
    let hm: Members = seq![("type"@, JsonView::Str("command"@)), ("command"@, JsonView::Str(cmd))];
    assert("type"@ != "command"@) by {
        assert("type"@[0] != "command"@[0]);
    }
    crate::json::lemma_find_is(hm, "command"@, 1);
    assert(runs_command(hook, cmd));
    let inner: Members = seq![("hooks"@, JsonView::Array(seq![hook]))];
    crate::json::lemma_find_is(inner, "hooks"@, 0);
    match matcher {
        Some(m) => {
            crate::json::lemma_find_is(inner.push(("matcher"@, JsonView::Str(m))), "hooks"@, 0);
        },
        None => {},
    }
    let hs = field(command_entry(cmd, matcher), "hooks"@)->Some_0->Array_0;
    assert(hs =~= seq![hook]);
    assert(runs_command(hs[0], cmd));
}

/// After merging an event, its member is an array that runs `cmd`, holding
/// the old array's entries first; every other member is unchanged.
proof fn lemma_merge_event(
    h: Members,
    event: Seq<char>,
    matcher: Option<Seq<char>>,
    cmd: Seq<char>,
    other: Seq<char>,
)
    requires
        spec_merge_event(h, event, matcher, cmd) is Some,
    ensures
        ({
            let h2 = spec_merge_event(h, event, matcher, cmd)->Some_0;
            &&& get(h2, event) matches Some(JsonView::Array(b)) && contains_command(b, cmd)
                && (get(h, event) matches Some(JsonView::Array(a)) ==> b.subrange(0, a.len() as int) == a)
            &&& other != event ==> get(h2, other) == get(h, other)
        }),
{
    lemma_command_entry_runs(cmd, matcher);
    let e = command_entry(cmd, matcher);
    match get(h, event) {
        None => {
            lemma_put(h, event, JsonView::Array(seq![e]), other);
            assert(entry_has_command(seq![e][0], cmd));
        },
        Some(JsonView::Array(a)) => {
            if !contains_command(a, cmd) {
                lemma_put(h, event, JsonView::Array(a.push(e)), other);
                assert(entry_has_command(a.push(e)[a.len() as int], cmd));
                assert(a.push(e).subrange(0, a.len() as int) =~= a);
            } else {
                assert(a.subrange(0, a.len() as int) =~= a);
            }
        },
        Some(_) => {},
    }
}

/// Merging is idempotent: merging merged settings gives them back unchanged.
pub proof fn law_merge_idempotent(existing: Option<JsonView>, cmd: Seq<char>)
    requires
        spec_merge_settings(existing, cmd) is Ok,
    ensures
        spec_merge_settings(Some(spec_merge_settings(existing, cmd)->Ok_0), cmd)
            == spec_merge_settings(existing, cmd),
{
    reveal_strlit("UserPromptSubmit");
    reveal_strlit("PostToolUse");
    assert("UserPromptSubmit"@ != "PostToolUse"@) by {
        assert("UserPromptSubmit"@[0] != "PostToolUse"@[0]);
    }
    let root = match existing {
        Some(v) => v,
        None => JsonView::Object(seq![]),
    };
    let fs = root->Object_0;
    let h = match get(fs, "hooks"@) {
        Some(JsonView::Object(h)) => h,
        _ => Seq::<(Seq<char>, JsonView)>::empty(),
    };
    let ups = "UserPromptSubmit"@;
    let ptu = "PostToolUse"@;
    let m = Some(post_tool_matcher());
    let h1 = spec_merge_event(h, ups, None, cmd)->Some_0;
    let h2 = spec_merge_event(h1, ptu, m, cmd)->Some_0;
    lemma_merge_event(h, ups, None, cmd, ptu);
    lemma_merge_event(h1, ptu, m, cmd, ups);
    let out_fs = put(fs, "hooks"@, JsonView::Object(h2));
    lemma_put(fs, "hooks"@, JsonView::Object(h2), "hooks"@);
    assert(spec_merge_event(h2, ups, None, cmd) == Some(h2));
    assert(spec_merge_event(h2, ptu, m, cmd) == Some(h2));
    lemma_put_same(out_fs, "hooks"@, JsonView::Object(h2));
}

/// Merging leaves every other setting as it was, and every other hooks
/// member; under both managed events it keeps the entries there were, in
/// order, ahead of what it adds, and afterwards an entry runs `cmd` there.
pub proof fn law_merge_preserves_unrelated(
    existing: Option<JsonView>,
    cmd: Seq<char>,
    key: Seq<char>,
    event: Seq<char>,
)
    requires
        spec_merge_settings(existing, cmd) is Ok,
    ensures
        ({
            let root = match existing {
                Some(v) => v,
                None => JsonView::Object(seq![]),
            };
            let out = spec_merge_settings(existing, cmd)->Ok_0;
            &&& key != "hooks"@ ==> field(out, key) == field(root, key)
            &&& event != "UserPromptSubmit"@ && event != "PostToolUse"@ ==> hooks_member(out, event)
                == hooks_member(root, event)
            &&& hooks_member(out, "UserPromptSubmit"@) matches Some(JsonView::Array(b))
                && contains_command(b, cmd)
            &&& hooks_member(out, "PostToolUse"@) matches Some(JsonView::Array(b))
                && contains_command(b, cmd)
            &&& (event == "UserPromptSubmit"@ || event == "PostToolUse"@) ==> (hooks_member(
                root,
                event,
            ) matches Some(JsonView::Array(a)) ==> hooks_member(out, event) matches Some(
                JsonView::Array(b),
            ) && b.subrange(0, a.len() as int) == a)
        }),
{
    reveal_strlit("UserPromptSubmit");
    reveal_strlit("PostToolUse");
    assert("UserPromptSubmit"@ != "PostToolUse"@) by {
        assert("UserPromptSubmit"@[0] != "PostToolUse"@[0]);
    }
    let root = match existing {
        Some(v) => v,
        None => JsonView::Object(seq![]),
    };
    let fs = root->Object_0;
    let h = match get(fs, "hooks"@) {
        Some(JsonView::Object(h)) => h,
        _ => Seq::<(Seq<char>, JsonView)>::empty(),
    };
    let ups = "UserPromptSubmit"@;
    let ptu = "PostToolUse"@;
    let m = Some(post_tool_matcher());
    let h1 = spec_merge_event(h, ups, None, cmd)->Some_0;
    let h2 = spec_merge_event(h1, ptu, m, cmd)->Some_0;
    lemma_merge_event(h, ups, None, cmd, event);
    lemma_merge_event(h1, ptu, m, cmd, event);
    lemma_merge_event(h, ups, None, cmd, ptu);
    lemma_merge_event(h1, ptu, m, cmd, ups);
    lemma_put(fs, "hooks"@, JsonView::Object(h2), key);
    if get(fs, "hooks"@) is None {
        crate::json::lemma_find_none(Seq::<(Seq<char>, JsonView)>::empty(), event);
        crate::json::lemma_find_none(Seq::<(Seq<char>, JsonView)>::empty(), ups);
    }
}

/// What stripping leaves of a hooks member: an array loses the entries
/// running `cmd` when it is ours, and goes when it is left empty; anything
/// else stays.
pub open spec fn stripped_member(v: Option<JsonView>, ours: bool, cmd: Seq<char>) -> Option<
    JsonView,
> {
    match v {
        Some(JsonView::Array(a)) => {
            let b = if ours {
                a.filter(keep_entry(cmd))
            } else {
                a
            };
            if b.len() == 0 {
                None
            } else {
                Some(JsonView::Array(b))
            }
        },
        other => other,
    }
}

/// Stripping an event keeps the keys of the hooks object, so they stay
/// distinct, and changes no other event.
proof fn lemma_strip_event(h: Members, event: Seq<char>, cmd: Seq<char>, other: Seq<char>)
    requires
        distinct_keys(h),
    ensures
        distinct_keys(spec_strip_event(h, event, cmd)),
        get(spec_strip_event(h, event, cmd), event) == match get(h, event) {
            Some(JsonView::Array(a)) => Some(JsonView::Array(a.filter(keep_entry(cmd)))),
            v => v,
        },
        other != event ==> get(spec_strip_event(h, event, cmd), other) == get(h, other),
{
    lemma_find(h, event);
    match get(h, event) {
        Some(JsonView::Array(a)) => {
            let v = JsonView::Array(a.filter(keep_entry(cmd)));
            lemma_put(h, event, v, other);
            let t = put(h, event, v);
            assert forall|i: int, j: int| 0 <= i < j < t.len() implies #[trigger] t[i].0
                != #[trigger] t[j].0 by {
                assert(t[i].0 == h[i].0 && t[j].0 == h[j].0);
            }
        },
        _ => {},
    }
}

/// Stripping removes only our entries: every other setting stays, a hooks
/// member keeps what is not ours (and goes only when left an empty array),
/// and no entry under a managed event runs `cmd` afterwards. The hooks
/// object's keys are distinct, as in any parsed document.
pub proof fn law_strip_removes_only_ours(
    root: JsonView,
    cmd: Seq<char>,
    key: Seq<char>,
    event: Seq<char>,
)
    requires
        root matches JsonView::Object(fs) ==> (get(fs, "hooks"@) matches Some(
            JsonView::Object(h),
        ) ==> distinct_keys(h)),
    ensures
        ({
            let out = spec_strip_settings(root, cmd);
            let ours = event == "UserPromptSubmit"@ || event == "PostToolUse"@;
            &&& key != "hooks"@ ==> field(out, key) == field(root, key)
            &&& hooks_member(out, event) == stripped_member(hooks_member(root, event), ours, cmd)
            &&& ours ==> (hooks_member(out, event) matches Some(JsonView::Array(b))
                ==> !contains_command(b, cmd))
        }),
{
    reveal_strlit("UserPromptSubmit");
    reveal_strlit("PostToolUse");
    assert("UserPromptSubmit"@ != "PostToolUse"@) by {
        assert("UserPromptSubmit"@[0] != "PostToolUse"@[0]);
    }
    let ups = "UserPromptSubmit"@;
    let ptu = "PostToolUse"@;
    let ours = event == ups || event == ptu;
    match root {
        JsonView::Object(fs) => match get(fs, "hooks"@) {
            Some(JsonView::Object(h)) => {
                let h1 = spec_strip_event(h, ups, cmd);
                let h2 = spec_strip_event(h1, ptu, cmd);
                lemma_strip_event(h, ups, cmd, event);
                lemma_strip_event(h1, ptu, cmd, event);
                lemma_strip_event(h, ups, cmd, ptu);
                lemma_strip_event(h1, ptu, cmd, ups);
                let hf = h2.filter(keep_member());
                lemma_put(fs, "hooks"@, JsonView::Object(hf), key);
                lemma_get_filter(h2, keep_member(), event);
                match get(h, event) {
                    Some(JsonView::Array(a)) => {
                        if ours {
                            let b = a.filter(keep_entry(cmd));
                            a.filter_lemma(keep_entry(cmd));
                            assert forall|i: int| 0 <= i < b.len() implies !entry_has_command(
                                #[trigger] b[i],
                                cmd,
                            ) by {
                                assert(keep_entry(cmd)(b[i]));
                            }
                        }
                    },
                    _ => {},
                }
            },
            _ => {},
        },
        _ => {},
    }
}

/// No character of `s` is a newline.
pub open spec fn single_line(s: Seq<char>) -> bool {
    forall|j: int| 0 <= j < s.len() ==> s[j] != '\n'
}

/// Removal keeps every line of a script that holds no marker line.
proof fn lemma_kept_all(ls: Seq<Seq<char>>)
    requires
        forall|i: int| 0 <= i < ls.len() ==> !is_marker_line(#[trigger] ls[i]),
    ensures
        kept(ls) == ls,
    decreases ls.len(),
{
    if ls.len() > 0 {
        let d = ls.drop_last();
        assert forall|i: int| 0 <= i < d.len() implies !is_marker_line(#[trigger] d[i]) by {
            assert(d[i] == ls[i]);
        }
        lemma_kept_all(d);
        assert(!is_marker_line(ls[ls.len() - 1]));
        if ls.len() > 1 {
            assert(!is_marker_line(ls[ls.len() - 2]));
        }
        assert(!ours(ls, ls.len() - 1));
        assert(d.push(ls.last()) =~= ls);
    }
}

/// A pattern found in a part is found in the whole.
proof fn lemma_contains_within(a: Seq<char>, x: Seq<char>, b: Seq<char>, p: Seq<char>)
    requires
        contains(x, p),
    ensures
        contains(a + x + b, p),
{
    let i = choose|i: int| crate::text::occurs_at(x, p, i);
    let w = a + x + b;
    assert(w.subrange(a.len() + i, a.len() + i + p.len()) =~= x.subrange(i, i + p.len()));
    assert(crate::text::occurs_at(w, p, a.len() + i));
}

/// The lines of what `add_reconcile` appends: the marker and our line.
proof fn lemma_added_lines(cmd: Seq<char>)
    requires
        single_line(cmd),
    ensures
        lines(marker().push('\n') + reconcile_line(cmd).push('\n')) == seq![
            marker(),
            reconcile_line(cmd),
        ],
        marker() + seq!['\n'] + reconcile_line(cmd) + seq!['\n'] == marker().push('\n')
            + reconcile_line(cmd).push('\n'),
{
    reveal_strlit("# added by tellme");
    reveal_strlit(" >/dev/null 2>&1 || true");
    let m = marker();
    let rl = reconcile_line(cmd);
    let sfx = " >/dev/null 2>&1 || true"@;
    assert forall|j: int| 0 <= j < rl.len() implies rl[j] != '\n' by {
        if j >= cmd.len() {
            assert(rl[j] == sfx[j - cmd.len()]);
        }
    }
    crate::text::lemma_lines_one(m);
    crate::text::lemma_lines_one(rl);
    crate::text::lemma_lines_append(m.push('\n'), rl.push('\n'));
    assert(m + seq!['\n'] + rl + seq!['\n'] =~= m.push('\n') + rl.push('\n'));
}

/// Removal drops the marker and our line.
proof fn lemma_added_lines_dropped(ls: Seq<Seq<char>>, cmd: Seq<char>)
    requires
        contains(cmd, "reconcile"@),
    ensures
        kept(ls + seq![marker(), reconcile_line(cmd)]) == kept(ls),
{
    reveal_strlit("# added by tellme");
    let m = marker();
    let rl = reconcile_line(cmd);
    lemma_contains_within(Seq::empty(), cmd, " >/dev/null 2>&1 || true"@, "reconcile"@);
    assert(Seq::<char>::empty() + cmd + " >/dev/null 2>&1 || true"@ =~= rl);
    assert(crate::text::trim_start(m) == m);
    assert(crate::text::trim_end(m) == m);
    assert(trim(m) == m);
    let all = ls + seq![m, rl];
    assert(all.len() > 0 && all.last() == rl);
    assert(all[all.len() - 2] == m);
    assert(ours(all, all.len() - 1));
    assert(all.drop_last() =~= ls.push(m));
    assert(kept(all) == kept(all.drop_last()));
    assert(ls.push(m).last() == m);
    assert(ours(ls.push(m), ls.len() as int));
    assert(ls.push(m).drop_last() =~= ls);
    assert(kept(ls.push(m)) == kept(ls));
}

/// Uninstalling undoes installing the `post-commit` hook: the script we
/// create is removed entirely, and a script of the user's (one with no line
/// of its own that is our marker, and which does not end in a lone carriage
/// return) gets back all its own lines, newline-terminated, or is removed
/// when it holds nothing but a shebang and blank lines. Our command names
/// reconcile and is a single line.
pub proof fn law_remove_undoes_add(existing: Option<Seq<char>>, cmd: Seq<char>)
    requires
        contains(cmd, "reconcile"@),
        single_line(cmd),
        existing matches Some(s) ==> !contains(s, cmd) && (forall|i: int|
            0 <= i < lines(s).len() ==> !is_marker_line(#[trigger] lines(s)[i])) && (s.len() == 0
            || s.last() != '\r'),
    ensures
        spec_add_reconcile(existing, cmd) matches Some(t) && spec_remove_reconcile(t) == Some(
            match existing {
                Some(s) => if any_meaningful(lines(s)) {
                    join_lines(lines(s)) + seq!['\n']
                } else {
                    seq![]
                },
                None => seq![],
            },
        ),
{
    let m = marker();
    let rl = reconcile_line(cmd);
    let tail = m.push('\n') + rl.push('\n');
    lemma_added_lines(cmd);
    lemma_contains_within(Seq::empty(), cmd, " >/dev/null 2>&1 || true"@, "reconcile"@);
    assert(Seq::<char>::empty() + cmd + " >/dev/null 2>&1 || true"@ =~= rl);
    match existing {
        Some(s) => {
            let base = if s.len() > 0 && s.last() == '\n' {
                s
            } else {
                s.push('\n')
            };
            if !(s.len() > 0 && s.last() == '\n') && s.len() > 0 {
                crate::text::lemma_lines_push_newline(s);
            }
            if s.len() == 0 {
                assert(lines(seq!['\n']) =~= seq![Seq::<char>::empty()]) by {
                    crate::text::lemma_lines_one(Seq::<char>::empty());
                    assert(Seq::<char>::empty().push('\n') =~= seq!['\n']);
                }
            }
            let t = base + m + seq!['\n'] + rl + seq!['\n'];
            assert(t =~= base + tail);
            crate::text::lemma_lines_append(base, tail);
            lemma_contains_within(base + m + seq!['\n'], rl, seq!['\n'], "reconcile"@);
            lemma_added_lines_dropped(lines(base), cmd);
            assert(spec_add_reconcile(existing, cmd) == Some(t));
            assert(lines(t) == lines(base) + seq![m, rl]);
            assert(contains(t, "reconcile"@));
            assert(kept(lines(t)) == kept(lines(base)));
            if s.len() > 0 {
                lemma_kept_all(lines(s));
                assert(lines(base) == lines(s));
                assert(kept(lines(t)) == lines(s));
            } else {
                let k1 = seq![Seq::<char>::empty()];
                assert(!is_marker_line(Seq::<char>::empty())) by {
                    reveal_strlit("# added by tellme");
                }
                assert(k1.drop_last() =~= Seq::<Seq<char>>::empty());
                assert(k1.last() == Seq::<char>::empty());
                assert(kept(Seq::<Seq<char>>::empty()) == Seq::<Seq<char>>::empty());
                assert(kept(Seq::<Seq<char>>::empty()).push(Seq::<char>::empty()) =~= k1);
                assert(kept(k1) == k1);
                assert(base =~= seq!['\n']);
                assert(lines(base) == k1);
                assert(kept(lines(t)) == k1);
                assert(!any_meaningful(k1)) by {
                    assert(!meaningful_line(k1[0]));
                }
                assert(lines(s) =~= Seq::<Seq<char>>::empty());
                assert(!any_meaningful(lines(s)));
            }
            assert(spec_remove_reconcile(t) == Some(
                if any_meaningful(lines(s)) {
                    join_lines(lines(s)) + seq!['\n']
                } else {
                    Seq::<char>::empty()
                },
            ));
        },
        None => {
            reveal_strlit("#!/bin/sh\n");
            reveal_strlit("#!/bin/sh");
            reveal_strlit("#!");
            reveal_strlit("reconcile");
            reveal_strlit("# added by tellme");
            let sh = "#!/bin/sh"@;
            let t = "#!/bin/sh\n"@ + m + seq!['\n'] + rl + seq!['\n'];
            assert(spec_add_reconcile(existing, cmd) == Some(t));
            assert("#!/bin/sh\n"@ =~= sh.push('\n'));
            assert(t =~= sh.push('\n') + tail);
            crate::text::lemma_lines_one(sh);
            crate::text::lemma_lines_append(sh.push('\n'), tail);
            lemma_contains_within(sh.push('\n') + m + seq!['\n'], rl, seq!['\n'], "reconcile"@);
            assert(t =~= sh.push('\n') + m + seq!['\n'] + rl + seq!['\n']);
            lemma_added_lines_dropped(seq![sh], cmd);
            assert(lines(t) =~= seq![sh] + seq![m, rl]);
            assert(!contains(sh, "reconcile"@)) by {
                if contains(sh, "reconcile"@) {
                    let i = choose|i: int| crate::text::occurs_at(sh, "reconcile"@, i);
                    assert(i == 0);
                    assert(sh.subrange(0, 9)[0] == "reconcile"@[0]);
                }
            }
            assert(trim(sh) != marker()) by {
                assert(crate::text::trim_start(sh) == sh);
                assert(crate::text::trim_end(sh) == sh);
                assert(sh.len() != marker().len());
            }
            assert(!is_marker_line(sh));
            let k1 = seq![sh];
            assert(!ours(k1, 0));
            assert(k1.drop_last() =~= Seq::<Seq<char>>::empty());
            assert(k1.last() == sh);
            assert(kept(Seq::<Seq<char>>::empty()).push(sh) =~= k1);
            assert(kept(k1) == k1);
            assert(crate::text::has_prefix(sh, "#!"@)) by {
                assert(sh.subrange(0, 2) =~= "#!"@);
            }
            assert(!meaningful_line(k1[0]));
            assert(!any_meaningful(k1));
        },
    }
}

/// Joining a line before others puts a newline between them.
proof fn lemma_join_prepend(a: Seq<char>, ls: Seq<Seq<char>>)
    requires
        ls.len() > 0,
    ensures
        join_lines(seq![a] + ls) == a + seq!['\n'] + join_lines(ls),
    decreases ls.len(),
{
    let all = seq![a] + ls;
    assert(all.drop_last() =~= seq![a] + ls.drop_last());
    if ls.len() == 1 {
        assert(all.drop_last() =~= seq![a]);
        assert(join_lines(seq![a]) == a);
    } else {
        lemma_join_prepend(a, ls.drop_last());
        assert(a + seq!['\n'] + join_lines(ls.drop_last()) + seq!['\n'] + ls.last() =~= a + seq!['\n']
            + (join_lines(ls.drop_last()) + seq!['\n'] + ls.last()));
    }
}

/// A newline-terminated text without carriage returns is its lines joined,
/// newline-terminated.
proof fn lemma_join_lines_of(s: Seq<char>)
    requires
        s.len() > 0,
        s.last() == '\n',
        forall|j: int| 0 <= j < s.len() ==> s[j] != '\r',
    ensures
        join_lines(lines(s)) + seq!['\n'] == s,
    decreases s.len(),
{
    crate::text::lemma_index_of(s, '\n');
    let k = crate::text::index_of(s, '\n');
    let head = s.subrange(0, k);
    let rest = s.subrange(k + 1, s.len() as int);
    assert(strip_cr(head) == head) by {
        if head.len() > 0 {
            assert(head.last() == s[k - 1]);
        }
    }
    assert(lines(s) == seq![head] + lines(rest));
    if k + 1 == s.len() {
        assert(rest.len() == 0);
        assert(lines(s) =~= seq![head]);
        assert(head + seq!['\n'] =~= s);
    } else {
        assert(rest.last() == s.last());
        lemma_join_lines_of(rest);
        assert(lines(rest).len() > 0);
        lemma_join_prepend(head, lines(rest));
        assert(head + seq!['\n'] + join_lines(lines(rest)) + seq!['\n'] =~= head + seq!['\n'] + (
        join_lines(lines(rest)) + seq!['\n']));
        assert(head + seq!['\n'] + rest =~= s);
    }
}

/// Uninstalling after installing gives back the user's script exactly: a
/// newline-terminated script without carriage returns or a marker line of its
/// own, which holds more than a shebang, comes back unchanged, whatever other
/// lines mention reconcile. Our command names reconcile and is a single line.
pub proof fn law_remove_after_add_restores(s: Seq<char>, cmd: Seq<char>)
    requires
        contains(cmd, "reconcile"@),
        single_line(cmd),
        !contains(s, cmd),
        s.len() > 0,
        s.last() == '\n',
        forall|j: int| 0 <= j < s.len() ==> s[j] != '\r',
        forall|i: int| 0 <= i < lines(s).len() ==> !is_marker_line(#[trigger] lines(s)[i]),
        any_meaningful(lines(s)),
    ensures
        spec_add_reconcile(Some(s), cmd) matches Some(t) && spec_remove_reconcile(t) == Some(s),
{
    law_remove_undoes_add(Some(s), cmd);
    lemma_join_lines_of(s);
}

/// How a dry run reports a file: `update` when it would change, else `leave`.
pub open spec fn would(changed: bool) -> Seq<char> {
    if changed {
        "update"@
    } else {
        "leave"@
    }
}

/// What `--dry-run` reports: whether each of the settings file and the
/// `post-commit` hook would be updated or left.
pub open spec fn report_text(settings_changed: bool, settings_path: Seq<char>, hook_changed: bool, hook_path: Seq<char>) -> Seq<char> {
    "Would "@ + would(settings_changed) + " "@ + settings_path + "\nWould "@ + would(hook_changed) + " "@
        + hook_path
}

/// What `hook install` reports once done.
pub open spec fn installed_text(settings_changed: bool) -> Seq<char> {
    "Capture hooks installed (settings: "@ + (if settings_changed {
        "updated"@
    } else {
        "unchanged"@
    }) + ", post-commit: "@ + "updated"@ + ")."@
}

/// What `--dry-run` reports for the settings file and the `post-commit` hook.
pub fn dry_run_report(
    settings_changed: bool,
    settings_path: &str,
    hook_changed: bool,
    hook_path: &str,
) -> (r: String)
    ensures
        r@ == report_text(settings_changed, settings_path@, hook_changed, hook_path@),
{
    let mut r = owned("Would ");
    push_str(&mut r, if settings_changed { "update" } else { "leave" });
    push_str(&mut r, " ");
    push_str(&mut r, settings_path);
    push_str(&mut r, "\nWould ");
    push_str(&mut r, if hook_changed { "update" } else { "leave" });
    push_str(&mut r, " ");
    push_str(&mut r, hook_path);
    r
}

/// What `hook install` reports once done.
pub fn installed_message(settings_changed: bool) -> (r: String)
    ensures
        r@ == installed_text(settings_changed),
{
    let mut r = owned("Capture hooks installed (settings: ");
    push_str(&mut r, yes_no(settings_changed));
    push_str(&mut r, ", post-commit: ");
    push_str(&mut r, yes_no(true));
    push_str(&mut r, ").");
    r
}

// ---- settings text ---------------------------------------------------------

/// The document a settings body holds: none when it is absent or blank,
/// otherwise what it parses to, or the parse error under the file's name.
pub open spec fn settings_doc(existing: Option<Seq<char>>) -> Result<Option<JsonView>, Seq<char>> {
    match existing {
        Some(s) => if trim(s).len() > 0 {
            match json_parse(s) {
                Ok(v) => Ok(Some(v)),
                Err(m) => Err("settings.json: "@ + m),
            }
        } else {
            Ok(None)
        },
        None => Ok(None),
    }
}

/// `merge_settings`'s result: the merged document pretty-printed and
/// newline-terminated, or the message of the configuration error.
pub open spec fn spec_merge_settings_text(existing: Option<Seq<char>>, cmd: Seq<char>) -> Result<Seq<char>, Seq<char>> {
    match settings_doc(existing) {
        Err(m) => Err(m),
        Ok(d) => match spec_merge_settings(d, cmd) {
            Ok(v) => Ok(pretty_json(v) + "\n"@),
            Err(m) => Err(m),
        },
    }
}

/// `strip_settings`'s result: the stripped document pretty-printed and
/// newline-terminated, or the parse error under the file's name.
pub open spec fn spec_strip_settings_text(existing: Seq<char>, cmd: Seq<char>) -> Result<Seq<char>, Seq<char>> {
    match json_parse(existing) {
        Ok(v) => Ok(pretty_json(spec_strip_settings(v, cmd)) + "\n"@),
        Err(m) => Err("settings.json: "@ + m),
    }
}

/// A text result by its characters; a configuration error by its message.
pub open spec fn text_result(r: Result<String, Error>) -> Result<Seq<char>, Seq<char>> {
    match r {
        Ok(s) => Ok(s@),
        Err(Error::Config(m)) => Err(m@),
        Err(_) => Err(seq![]),
    }
}

fn settings_error(m: String) -> (e: Error)
    ensures
        e matches Error::Config(x) && x@ == "settings.json: "@ + m@,
{
    let mut x = owned("settings.json: ");
    push_str(&mut x, m.as_str());
    Error::Config(x)
}

/// Add our capture hooks to a settings body, idempotently, and print the
/// result: `existing` is the file's text, none when there is no file.
pub fn merge_settings(existing: Option<&str>, command: &str) -> (r: Result<String, Error>)
    ensures
        text_result(r) == spec_merge_settings_text(opt_str_view(existing), command@),
        r matches Err(e) ==> e is Config,
{
    let doc = if has_settings_text(existing) {
        match existing {
            Some(s) => match parse_json(s) {
                Ok(j) => Some(j),
                Err(m) => {
                    return Err(settings_error(m));
                },
            },
            None => None,
        }
    } else {
        None
    };
    let ghost dv = opt_json_view(doc);
    assert(settings_doc(opt_str_view(existing)) == Ok::<Option<JsonView>, Seq<char>>(dv));
    match merge_settings_doc(doc, command) {
        Ok(j) => {
            let mut out = print_json(&j);
            push_str(&mut out, "\n");
            Ok(out)
        },
        Err(e) => Err(e),
    }
}

/// Remove our capture hooks from a settings body and print the result.
pub fn strip_settings(existing: &str, command: &str) -> (r: Result<String, Error>)
    ensures
        text_result(r) == spec_strip_settings_text(existing@, command@),
        r matches Err(e) ==> e is Config,
{
    match parse_json(existing) {
        Ok(j) => {
            let stripped = strip_settings_doc(j, command);
            let mut out = print_json(&stripped);
            push_str(&mut out, "\n");
            Ok(out)
        },
        Err(m) => Err(settings_error(m)),
    }
}

// ---- install and uninstall ---------------------------------------------------

/// What `hook install` or `hook uninstall` does: the text to write to the
/// settings file and to the `post-commit` hook (none: leave it; empty: remove
/// it), and the status and message to report.
pub struct HookPlan {
    /// New settings text, if the file changes.
    pub settings_write: Option<String>,
    /// New hook script, if the hook changes.
    pub hook_write: Option<String>,
    /// The status word reported.
    pub status: String,
    /// The message reported.
    pub message: String,
}

/// A plan by its texts.
pub struct HookPlanView {
    /// New settings text.
    pub settings_write: Option<Seq<char>>,
    /// New hook script.
    pub hook_write: Option<Seq<char>>,
    /// Status.
    pub status: Seq<char>,
    /// Message.
    pub message: Seq<char>,
}

impl View for HookPlan {
    type V = HookPlanView;

    open spec fn view(&self) -> HookPlanView {
        HookPlanView {
            settings_write: opt_view(self.settings_write),
            hook_write: opt_view(self.hook_write),
            status: self.status@,
            message: self.message@,
        }
    }
}

/// A plan result by its views; a configuration error by its message.
pub open spec fn plan_result(r: Result<HookPlan, Error>) -> Result<HookPlanView, Seq<char>> {
    match r {
        Ok(p) => Ok(p@),
        Err(Error::Config(m)) => Err(m@),
        Err(_) => Err(seq![]),
    }
}

/// The plan once the new texts are known: under `--dry-run` nothing is
/// written and the report says what would change; otherwise the settings are
/// written when their text changed and the hook when it has a new script.
pub open spec fn spec_plan(
    settings_changed: bool,
    new_settings: Option<Seq<char>>,
    new_hook: Option<Seq<char>>,
    settings_path: Seq<char>,
    hook_path: Seq<char>,
    dry_run: bool,
    status: Seq<char>,
    message: Seq<char>,
) -> HookPlanView {
    if dry_run {
        HookPlanView {
            settings_write: None,
            hook_write: None,
            status: "dry-run"@,
            message: report_text(settings_changed, settings_path, new_hook is Some, hook_path),
        }
    } else {
        HookPlanView {
            settings_write: if settings_changed {
                new_settings
            } else {
                None
            },
            hook_write: new_hook,
            status,
            message,
        }
    }
}

/// `hook install`: merge our entries into the settings (written only when
/// the printed text differs from the file's) and add our line to the
/// `post-commit` hook (written when `add_reconcile` gives a script).
pub open spec fn spec_install_plan(
    settings: Option<Seq<char>>,
    hook: Option<Seq<char>>,
    exe: Seq<char>,
    settings_path: Seq<char>,
    hook_path: Seq<char>,
    dry_run: bool,
) -> Result<HookPlanView, Seq<char>> {
    match spec_merge_settings_text(settings, exe + " capture"@) {
        Err(m) => Err(m),
        Ok(new) => {
            let changed = settings != Some(new);
            Ok(
                spec_plan(
                    changed,
                    Some(new),
                    spec_add_reconcile(hook, exe + " reconcile"@),
                    settings_path,
                    hook_path,
                    dry_run,
                    "installed"@,
                    installed_text(changed),
                ),
            )
        },
    }
}

/// `hook uninstall`: strip our entries from the settings, if there is a
/// file (written only when the printed text differs from it), and our line
/// from the `post-commit` hook, if there is one.
pub open spec fn spec_uninstall_plan(
    settings: Option<Seq<char>>,
    hook: Option<Seq<char>>,
    exe: Seq<char>,
    settings_path: Seq<char>,
    hook_path: Seq<char>,
    dry_run: bool,
) -> Result<HookPlanView, Seq<char>> {
    let stripped: Result<Option<Seq<char>>, Seq<char>> = match settings {
        Some(s) => match spec_strip_settings_text(s, exe + " capture"@) {
            Ok(t) => Ok(Some(t)),
            Err(m) => Err(m),
        },
        None => Ok(None),
    };
    match stripped {
        Err(m) => Err(m),
        Ok(new) => Ok(
            spec_plan(
                new is Some && new != settings,
                new,
                match hook {
                    Some(h) => spec_remove_reconcile(h),
                    None => None,
                },
                settings_path,
                hook_path,
                dry_run,
                "uninstalled"@,
                "Capture hooks removed."@,
            ),
        ),
    }
}

fn make_plan(
    settings_changed: bool,
    new_settings: Option<String>,
    new_hook: Option<String>,
    settings_path: &str,
    hook_path: &str,
    dry_run: bool,
    status: &str,
    message: String,
) -> (p: HookPlan)
    ensures
        p@ == spec_plan(
            settings_changed,
            opt_view(new_settings),
            opt_view(new_hook),
            settings_path@,
            hook_path@,
            dry_run,
            status@,
            message@,
        ),
{
    if dry_run {
        let report = dry_run_report(settings_changed, settings_path, new_hook.is_some(), hook_path);
        HookPlan { settings_write: None, hook_write: None, status: owned("dry-run"), message: report }
    } else {
        let settings_write = if settings_changed {
            new_settings
        } else {
            None
        };
        HookPlan { settings_write, hook_write: new_hook, status: owned(status), message }
    }
}

fn with_suffix(exe: &str, suffix: &str) -> (r: String)
    ensures
        r@ == exe@ + suffix@,
{
    let mut r = owned(exe);
    push_str(&mut r, suffix);
    r
}

/// What `hook install` does, from the settings file's text and the hook's
/// (none where a file is absent), the executable the hooks run, and the two
/// files' paths.
pub fn install_plan(
    settings_text: Option<&str>,
    hook_text: Option<&str>,
    exe: &str,
    settings_path: &str,
    hook_path: &str,
    dry_run: bool,
) -> (r: Result<HookPlan, Error>)
    ensures
        plan_result(r) == spec_install_plan(
            opt_str_view(settings_text),
            opt_str_view(hook_text),
            exe@,
            settings_path@,
            hook_path@,
            dry_run,
        ),
        r matches Err(e) ==> e is Config,
{
    let capture = with_suffix(exe, " capture");
    let reconcile = with_suffix(exe, " reconcile");
    let new_settings = match merge_settings(settings_text, capture.as_str()) {
        Ok(s) => s,
        Err(e) => {
            return Err(e);
        },
    };
    let changed = match settings_text {
        Some(s) => !str_eq(s, new_settings.as_str()),
        None => true,
    };
    let new_hook = add_reconcile(hook_text, reconcile.as_str());
    let message = installed_message(changed);
    Ok(make_plan(changed, Some(new_settings), new_hook, settings_path, hook_path, dry_run, "installed", message))
}

/// What `hook uninstall` does, from the settings file's text and the hook's
/// (none where a file is absent), the executable the hooks run, and the two
/// files' paths.
pub fn uninstall_plan(
    settings_text: Option<&str>,
    hook_text: Option<&str>,
    exe: &str,
    settings_path: &str,
    hook_path: &str,
    dry_run: bool,
) -> (r: Result<HookPlan, Error>)
    ensures
        plan_result(r) == spec_uninstall_plan(
            opt_str_view(settings_text),
            opt_str_view(hook_text),
            exe@,
            settings_path@,
            hook_path@,
            dry_run,
        ),
        r matches Err(e) ==> e is Config,
{
    let capture = with_suffix(exe, " capture");
    let (new_settings, changed) = match settings_text {
        Some(s) => match strip_settings(s, capture.as_str()) {
            Ok(t) => {
                let changed = !str_eq(t.as_str(), s);
                (Some(t), changed)
            },
            Err(e) => {
                return Err(e);
            },
        },
        None => (None, false),
    };
    let new_hook = match hook_text {
        Some(h) => remove_reconcile(h),
        None => None,
    };
    Ok(make_plan(changed, new_settings, new_hook, settings_path, hook_path, dry_run, "uninstalled", owned("Capture hooks removed.")))
}

} // verus!
