//! Cross-layer data journey.
//!
//! Starting from an endpoint function, follow its call chain across the
//! project's Python functions and present the data's path through
//! architectural layers (DB → repository → service → controller → API),
//! noting where the shape changes. Layer detection and transformation hints
//! are heuristic (path naming + return-expression patterns).

use vstd::prelude::*;

use crate::analysis::{Call, FunctionDef};
use crate::error::{Error, Result};
use crate::order::{
    keys_sorted, law_sort_by_key_sorted, lemma_sort_map, lemma_values_map, map_vals, sort_by_key, stable_sort, strip_keys, values,
};
use crate::text::{
    chars_of, contains, lowercase, owned, push_char, push_str, str_contains, str_eq, to_lowercase,
};

verus! {

/// One layer box in the journey.
#[derive(Debug, Clone, PartialEq, Eq)]
pub struct Stage {
    /// Layer name (db / repository / service / controller / api).
    pub layer: String,
    /// Function (or table) at this layer.
    pub label: String,
    /// Repo-relative file, if any.
    pub file: Option<String>,
    /// A short note about what the data looks like here.
    pub note: String,
}

/// A stage by its contents.
pub struct StageView {
    /// Layer name.
    pub layer: Seq<char>,
    /// Function (or table) at this layer.
    pub label: Seq<char>,
    /// Repo-relative file, if any.
    pub file: Option<Seq<char>>,
    /// Note.
    pub note: Seq<char>,
}

impl View for Stage {
    type V = StageView;

    open spec fn view(&self) -> StageView {
        StageView {
            layer: self.layer@,
            label: self.label@,
            file: match self.file {
                Some(f) => Some(f@),
                None => None,
            },
            note: self.note@,
        }
    }
}

/// The full journey for an endpoint.
#[derive(Debug, Clone, PartialEq, Eq)]
pub struct Journey {
    /// Endpoint function name.
    pub endpoint: String,
    /// Stages ordered from data origin (DB) to the API response.
    pub stages: Vec<Stage>,
    /// Shape changes detected along the way.
    pub transformations: Vec<String>,
}

/// A function of the project with the file that defines it.
#[derive(Debug, Clone, PartialEq, Eq)]
pub struct Indexed {
    /// Repo-relative file (with `/` separators).
    pub file: String,
    /// The definition.
    pub def: FunctionDef,
}

// ---------------------------------------------------------------------------
// Heuristics
// ---------------------------------------------------------------------------

/// The `(rank, layer)` of a file path; lower rank is closer to the DB.
pub open spec fn spec_layer_of(path: Seq<char>) -> (u8, Seq<char>) {
    let p = lowercase(path);
    if contains(p, "model"@) || contains(p, "/db"@) || contains(p, "database"@) || contains(
        p,
        "schema"@,
    ) {
        (1, "db"@)
    } else if contains(p, "repositor"@) || contains(p, "/repo"@) || contains(p, "dao"@) {
        (2, "repository"@)
    } else if contains(p, "service"@) {
        (3, "service"@)
    } else if contains(p, "controller"@) || contains(p, "/api"@) || contains(p, "route"@)
        || contains(p, "view"@) {
        (4, "controller"@)
    } else {
        (3, "other"@)
    }
}

/// Classify a file path into a `(rank, layer)`; lower rank is closer to the DB.
pub fn layer_of(path: &str) -> (r: (u8, &'static str))
    ensures
        r.0 == spec_layer_of(path@).0,
        r.1@ == spec_layer_of(path@).1,
{
    let lp = to_lowercase(path);
    let p = lp.as_str();
    if str_contains(p, "model") || str_contains(p, "/db") || str_contains(p, "database")
        || str_contains(p, "schema") {
        (1, "db")
    } else if str_contains(p, "repositor") || str_contains(p, "/repo") || str_contains(p, "dao") {
        (2, "repository")
    } else if str_contains(p, "service") {
        (3, "service")
    } else if str_contains(p, "controller") || str_contains(p, "/api") || str_contains(p, "route")
        || str_contains(p, "view") {
        (4, "controller")
    } else {
        (3, "other")
    }
}

/// Text that looks like a database access.
pub open spec fn looks_like_db(s: Seq<char>) -> bool {
    let l = lowercase(s);
    contains(l, "query"@) || contains(l, "select "@) || contains(l, "db."@) || contains(
        l,
        "execute"@,
    )
}

fn hay(s: &str) -> (b: bool)
    ensures
        b == looks_like_db(s@),
{
    let lp = to_lowercase(s);
    let l = lp.as_str();
    str_contains(l, "query") || str_contains(l, "select ") || str_contains(l, "db.")
        || str_contains(l, "execute")
}

/// A function touches the database when a return expression or a callee
/// name looks like a database access.
pub open spec fn spec_touches_db(def: FunctionDef) -> bool {
    (exists|i: int| 0 <= i < def.returns@.len() && looks_like_db(#[trigger] def.returns@[i]@))
        || (exists|i: int|
        0 <= i < def.callees@.len() && looks_like_db(#[trigger] def.callees@[i].name@))
}

/// Whether a function appears to touch the database.
pub fn touches_db(def: &FunctionDef) -> (b: bool)
    ensures
        b == spec_touches_db(*def),
{
    let mut i: usize = 0;
    while i < def.returns.len()
        invariant
            i <= def.returns@.len(),
            forall|j: int| 0 <= j < i ==> !looks_like_db(#[trigger] def.returns@[j]@),
        decreases def.returns@.len() - i,
    {
        if hay(def.returns[i].as_str()) {
            return true;
        }
        i += 1;
    }
    let mut j: usize = 0;
    while j < def.callees.len()
        invariant
            j <= def.callees@.len(),
            forall|k: int| 0 <= k < def.returns@.len() ==> !looks_like_db(#[trigger] def.returns@[k]@),
            forall|k: int| 0 <= k < j ==> !looks_like_db(#[trigger] def.callees@[k].name@),
        decreases def.callees@.len() - j,
    {
        if hay(def.callees[j].name.as_str()) {
            return true;
        }
        j += 1;
    }
    false
}

/// Database access is recognized by its words: a text looks like one
/// exactly when its lowercase form mentions `query`, `select `, `db.` or
/// `execute`.
pub proof fn law_db_access_words(s: Seq<char>)
    ensures
        contains(lowercase(s), "query"@) ==> looks_like_db(s),
        contains(lowercase(s), "select "@) ==> looks_like_db(s),
        contains(lowercase(s), "db."@) ==> looks_like_db(s),
        contains(lowercase(s), "execute"@) ==> looks_like_db(s),
        looks_like_db(s) ==> contains(lowercase(s), "query"@) || contains(lowercase(s), "select "@)
            || contains(lowercase(s), "db."@) || contains(lowercase(s), "execute"@),
{
}

/// A function touches the database as soon as one of its return
/// expressions, or one of its callees' names, mentions a database word.
pub proof fn law_db_word_touches_db(def: FunctionDef, k: int, word: Seq<char>)
    requires
        word == "query"@ || word == "select "@ || word == "db."@ || word == "execute"@,
        (0 <= k < def.returns@.len() && contains(lowercase(def.returns@[k]@), word)) || (0 <= k
            < def.callees@.len() && contains(lowercase(def.callees@[k].name@), word)),
    ensures
        spec_touches_db(def),
{
    if 0 <= k < def.returns@.len() && contains(lowercase(def.returns@[k]@), word) {
        law_db_access_words(def.returns@[k]@);
        assert(looks_like_db(def.returns@[k]@));
    } else {
        law_db_access_words(def.callees@[k].name@);
        assert(looks_like_db(def.callees@[k].name@));
    }
}

/// The shape change a return expression shows, if recognizable.
pub open spec fn spec_transformation(ret: Seq<char>) -> Option<Seq<char>> {
    let l = lowercase(ret);
    if contains(l, "jsonify"@) || contains(l, "json("@) {
        Some("→ JSON response"@)
    } else if contains(l, "to_dto"@) || contains(l, ".dto"@) {
        Some("model → DTO"@)
    } else if contains(l, "(**"@) || contains(l, "[item("@) || contains(l, "model("@) {
        Some("rows → models"@)
    } else if contains(l, "query"@) || contains(l, "select "@) {
        Some("DB → rows"@)
    } else {
        None
    }
}

/// A transformation hint from a return expression, if recognizable.
pub fn transformation(ret: &str) -> (r: Option<&'static str>)
    ensures
        match r {
            Some(t) => spec_transformation(ret@) == Some(t@),
            None => spec_transformation(ret@) is None,
        },
{
    let lp = to_lowercase(ret);
    let l = lp.as_str();
    if str_contains(l, "jsonify") || str_contains(l, "json(") {
        Some("→ JSON response")
    } else if str_contains(l, "to_dto") || str_contains(l, ".dto") {
        Some("model → DTO")
    } else if str_contains(l, "(**") || str_contains(l, "[item(") || str_contains(l, "model(") {
        Some("rows → models")
    } else if str_contains(l, "query") || str_contains(l, "select ") {
        Some("DB → rows")
    } else {
        None
    }
}

/// `s` on one line: every `\n` replaced by a space.
pub open spec fn one_line(s: Seq<char>) -> Seq<char> {
    s.map_values(|c: char| if c == '\n' { ' ' } else { c })
}

/// `s` on one line, shortened to `max` characters with a final `…` when it
/// is longer.
pub open spec fn spec_truncate(s: Seq<char>, max: nat) -> Seq<char> {
    let t = one_line(s);
    if t.len() > max {
        t.subrange(0, max - 1).push('…')
    } else {
        t
    }
}

/// `s` on one line, at most `max` characters (the last one `…` when cut).
pub fn truncate(s: &str, max: usize) -> (r: String)
    requires
        max > 0 || s@.len() == 0,
    ensures
        r@ == spec_truncate(s@, max as nat),
{
    let v = chars_of(s);
    let mut t: Vec<char> = Vec::new();
    let mut i: usize = 0;
    while i < v.len()
        invariant
            i <= v@.len(),
            t@ == one_line(v@.subrange(0, i as int)),
        decreases v@.len() - i,
    {
        let c = v[i];
        t.push(if c == '\n' { ' ' } else { c });
        assert(one_line(v@.subrange(0, i + 1)) =~= one_line(v@.subrange(0, i as int)).push(
            if c == '\n' { ' ' } else { c },
        ));
        i += 1;
    }
    assert(v@.subrange(0, v@.len() as int) =~= v@);
    if t.len() > max {
        let mut r = crate::text::string_of(&t, 0, max - 1);
        push_char(&mut r, '…');
        r
    } else {
        crate::text::string_of(&t, 0, t.len())
    }
}

// ---------------------------------------------------------------------------
// The call-chain walk
// ---------------------------------------------------------------------------

/// Strings by their characters.
pub open spec fn names_view(v: Seq<String>) -> Seq<Seq<char>> {
    v.map_values(|s: String| s@)
}

/// The first index entry that defines `name` (first definition wins).
pub open spec fn spec_lookup(index: Seq<Indexed>, name: Seq<char>) -> Option<int>
    decreases index.len(),
{
    if index.len() == 0 {
        None
    } else {
        match spec_lookup(index.drop_last(), name) {
            Some(i) => Some(i),
            None => if index.last().def.name@ == name {
                Some(index.len() - 1)
            } else {
                None
            },
        }
    }
}

/// `spec_lookup` finds the first definition.
pub proof fn lemma_lookup(index: Seq<Indexed>, name: Seq<char>)
    ensures
        match spec_lookup(index, name) {
            Some(i) => 0 <= i < index.len() && index[i].def.name@ == name && forall|j: int|
                0 <= j < i ==> index[j].def.name@ != name,
            None => forall|j: int| 0 <= j < index.len() ==> index[j].def.name@ != name,
        },
    decreases index.len(),
{
    if index.len() > 0 {
        let d = index.drop_last();
        lemma_lookup(d, name);
        assert(forall|j: int| 0 <= j < d.len() ==> d[j] == index[j]);
    }
}

/// The first index entry defining `name`.
pub fn lookup(index: &Vec<Indexed>, name: &str) -> (r: Option<usize>)
    ensures
        match r {
            Some(i) => spec_lookup(index@, name@) == Some(i as int),
            None => spec_lookup(index@, name@) is None,
        },
{
    let mut i: usize = 0;
    while i < index.len()
        invariant
            i <= index@.len(),
            spec_lookup(index@.subrange(0, i as int), name@) is None,
        decreases index@.len() - i,
    {
        assert(index@.subrange(0, i + 1).drop_last() =~= index@.subrange(0, i as int));
        if str_eq(index[i].def.name.as_str(), name) {
            proof {
                lemma_lookup_prefix(index@, name@, i as int + 1);
            }
            return Some(i);
        }
        i += 1;
    }
    assert(index@.subrange(0, i as int) =~= index@);
    None
}

/// A hit in a prefix is the hit in the whole index.
proof fn lemma_lookup_prefix(index: Seq<Indexed>, name: Seq<char>, n: int)
    requires
        0 <= n <= index.len(),
        spec_lookup(index.subrange(0, n), name) is Some,
    ensures
        spec_lookup(index, name) == spec_lookup(index.subrange(0, n), name),
    decreases index.len() - n,
{
    if n < index.len() {
        assert(index.subrange(0, n + 1).drop_last() =~= index.subrange(0, n));
        lemma_lookup_prefix(index, name, n + 1);
    } else {
        assert(index.subrange(0, n) =~= index);
    }
}

/// The position of the last `.` in `s`, or -1.
pub open spec fn last_dot(s: Seq<char>) -> int
    decreases s.len(),
{
    if s.len() == 0 {
        -1
    } else if s.last() == '.' {
        s.len() - 1
    } else {
        last_dot(s.drop_last())
    }
}

/// The last dotted component of a callee name (`a.b.c` → `c`).
pub open spec fn spec_short_name(s: Seq<char>) -> Seq<char> {
    s.subrange(last_dot(s) + 1, s.len() as int)
}

/// The last dotted component of a callee name.
pub fn short_name(name: &str) -> (r: String)
    ensures
        r@ == spec_short_name(name@),
{
    let v = chars_of(name);
    let mut i = v.len();
    assert(v@.subrange(0, i as int) =~= v@);
    while i > 0 && v[i - 1] != '.'
        invariant
            i <= v@.len(),
            last_dot(v@) == last_dot(v@.subrange(0, i as int)),
        decreases i,
    {
        assert(v@.subrange(0, i as int).drop_last() =~= v@.subrange(0, i - 1));
        i -= 1;
    }
    proof {
        if i > 0 {
            assert(v@.subrange(0, i as int).last() == '.');
        }
    }
    crate::text::string_of(&v, i, v.len())
}

/// The walk's state: names still to visit (top last) and names visited.
pub struct Walk {
    /// Names still to visit; the last is visited next.
    pub stack: Seq<Seq<char>>,
    /// Names visited, in visiting order.
    pub order: Seq<Seq<char>>,
}

/// `stack` with the project callees of `calls` pushed in order: each short
/// callee name that the index defines and `order` does not hold yet.
pub open spec fn push_callees(
    index: Seq<Indexed>,
    calls: Seq<Call>,
    order: Seq<Seq<char>>,
    stack: Seq<Seq<char>>,
) -> Seq<Seq<char>>
    decreases calls.len(),
{
    if calls.len() == 0 {
        stack
    } else {
        let st = push_callees(index, calls.drop_last(), order, stack);
        let s = spec_short_name(calls.last().name@);
        if spec_lookup(index, s) is Some && !order.contains(s) {
            st.push(s)
        } else {
            st
        }
    }
}

/// One step of the depth-first walk: pop a name; if it is new, visit it and
/// push its project callees.
pub open spec fn walk_step(index: Seq<Indexed>, w: Walk) -> Walk {
    if w.stack.len() == 0 {
        w
    } else {
        let name = w.stack.last();
        let stack = w.stack.drop_last();
        if w.order.contains(name) {
            Walk { stack, order: w.order }
        } else {
            let order = w.order.push(name);
            match spec_lookup(index, name) {
                Some(i) => Walk {
                    stack: push_callees(index, index[i].def.callees@, order, stack),
                    order,
                },
                None => Walk { stack, order },
            }
        }
    }
}

/// The walk after `k` steps.
pub open spec fn walk_iter(index: Seq<Indexed>, w: Walk, k: nat) -> Walk
    decreases k,
{
    if k == 0 {
        w
    } else {
        walk_step(index, walk_iter(index, w, (k - 1) as nat))
    }
}

/// The walk's start: only the endpoint to visit.
pub open spec fn walk_start(endpoint: Seq<char>) -> Walk {
    Walk { stack: seq![endpoint], order: seq![] }
}

/// `order` is the order in which the walk from `endpoint` visits names once
/// nothing is left to visit.
pub open spec fn is_visit_order(index: Seq<Indexed>, endpoint: Seq<char>, order: Seq<Seq<char>>) -> bool {
    exists|k: nat|
        (#[trigger] walk_iter(index, walk_start(endpoint), k)).stack.len() == 0 && walk_iter(
            index,
            walk_start(endpoint),
            k,
        ).order == order
}

/// A name the index defines.
pub open spec fn known(index: Seq<Indexed>, name: Seq<char>) -> bool {
    spec_lookup(index, name) is Some
}

/// Distinct defined names are no more than the index entries.
proof fn lemma_order_bound(index: Seq<Indexed>, order: Seq<Seq<char>>)
    requires
        order.no_duplicates(),
        forall|j: int| 0 <= j < order.len() ==> known(index, #[trigger] order[j]),
    ensures
        order.len() <= index.len(),
{
    let names = index.map_values(|x: Indexed| x.def.name@);
    assert forall|x: Seq<char>| order.to_set().contains(x) implies names.to_set().contains(x) by {
        let j = choose|j: int| 0 <= j < order.len() && order[j] == x;
        assert(known(index, order[j]));
        lemma_lookup(index, x);
        let i = spec_lookup(index, x)->0;
        assert(names[i] == x);
    }
    order.unique_seq_to_set();
    names.lemma_cardinality_of_set();
    vstd::set_lib::lemma_len_subset(order.to_set(), names.to_set());
}

/// Whether `v` holds `name`.
fn holds_name(v: &Vec<String>, name: &str) -> (b: bool)
    ensures
        b == names_view(v@).contains(name@),
{
    let mut i: usize = 0;
    while i < v.len()
        invariant
            i <= v@.len(),
            forall|j: int| 0 <= j < i ==> v@[j]@ != name@,
        decreases v@.len() - i,
    {
        if str_eq(v[i].as_str(), name) {
            assert(names_view(v@)[i as int] == name@);
            return true;
        }
        i += 1;
    }
    proof {
        if names_view(v@).contains(name@) {
            let j = choose|j: int| 0 <= j < names_view(v@).len() && names_view(v@)[j] == name@;
            assert(v@[j]@ == name@);
        }
    }
    false
}

/// The names the call chain from `endpoint` reaches, in depth-first visiting
/// order (callees pushed in source order, so the last callee is followed
/// first).
pub fn visit_order(index: &Vec<Indexed>, endpoint: &str) -> (r: Vec<String>)
    requires
        known(index@, endpoint@),
    ensures
        is_visit_order(index@, endpoint@, names_view(r@)),
{
    let mut order: Vec<String> = Vec::new();
    let mut stack: Vec<String> = Vec::new();
    stack.push(owned(endpoint));
    let ghost mut k: nat = 0;
    assert(names_view(stack@) =~= seq![endpoint@]);
    assert(names_view(order@) =~= Seq::<Seq<char>>::empty());
    while stack.len() > 0
        invariant
            names_view(stack@) == walk_iter(index@, walk_start(endpoint@), k).stack,
            names_view(order@) == walk_iter(index@, walk_start(endpoint@), k).order,
            forall|j: int| 0 <= j < stack@.len() ==> known(index@, #[trigger] names_view(stack@)[j]),
            forall|j: int| 0 <= j < order@.len() ==> known(index@, #[trigger] names_view(order@)[j]),
            names_view(order@).no_duplicates(),
            order@.len() <= index@.len(),
        decreases index@.len() - order@.len(), stack@.len(),
    {
        let ghost w = walk_iter(index@, walk_start(endpoint@), k);
        let ghost before_stack = names_view(stack@);
        let name = stack.pop().unwrap();
        assert(names_view(stack@) =~= before_stack.drop_last());
        assert(name@ == before_stack.last());
        if holds_name(&order, name.as_str()) {
            proof {
                k = k + 1;
            }
        } else {
            let ghost before_order = names_view(order@);
            assert(known(index@, name@)) by {
                assert(known(index@, before_stack[before_stack.len() - 1]));
            }
            order.push(name.clone());
            assert(names_view(order@) =~= before_order.push(name@));
            proof {
                assert forall|j: int| 0 <= j < order@.len() implies known(index@, #[trigger] names_view(order@)[j]) by {
                    if j < before_order.len() {
                        assert(names_view(order@)[j] == before_order[j]);
                    }
                }
                assert(names_view(order@).no_duplicates()) by {
                    assert forall|a: int, b: int|
                        0 <= a < b < names_view(order@).len() implies names_view(order@)[a]
                        != names_view(order@)[b] by {
                        if b == before_order.len() {
                            assert(names_view(order@)[a] == before_order[a]);
                        } else {
                            assert(names_view(order@)[a] == before_order[a]);
                            assert(names_view(order@)[b] == before_order[b]);
                        }
                    }
                }
                lemma_order_bound(index@, names_view(order@));
            }
            match lookup(index, name.as_str()) {
                Some(i) => {
                    proof {
                        lemma_lookup(index@, name@);
                    }
                    let calls = &index[i].def.callees;
                    let ghost base = names_view(stack@);
                    let ghost ord = names_view(order@);
                    let mut j: usize = 0;
                    while j < calls.len()
                        invariant
                            j <= calls@.len(),
                            ord == names_view(order@),
                            names_view(stack@) == push_callees(index@, calls@.subrange(0, j as int), ord, base),
                            forall|q: int| 0 <= q < stack@.len() ==> known(index@, #[trigger] names_view(stack@)[q]),
                        decreases calls@.len() - j,
                    {
                        assert(calls@.subrange(0, j + 1).drop_last() =~= calls@.subrange(0, j as int));
                        let short = short_name(calls[j].name.as_str());
                        if lookup(index, short.as_str()).is_some() && !holds_name(&order, short.as_str()) {
                            let ghost prev = names_view(stack@);
                            stack.push(short);
                            assert(names_view(stack@) =~= prev.push(short@));
                            proof {
                                assert forall|q: int| 0 <= q < stack@.len() implies known(index@, #[trigger] names_view(stack@)[q]) by {
                                    if q < prev.len() {
                                        assert(names_view(stack@)[q] == prev[q]);
                                    }
                                }
                            }
                        }
                        j += 1;
                    }
                    assert(calls@.subrange(0, calls@.len() as int) =~= calls@);
                },
                None => {},
            }
            proof {
                k = k + 1;
            }
        }
    }
    order
}

// ---------------------------------------------------------------------------
// Stages and transformations
// ---------------------------------------------------------------------------

/// The stage a visited function contributes, keyed by its layer rank.
pub open spec fn stage_for(name: Seq<char>, item: Indexed) -> (i128, StageView) {
    let (rank, layer) = spec_layer_of(item.file@);
    (
        rank as i128,
        StageView {
            layer,
            label: name + "()"@,
            file: Some(item.file@),
            note: if item.def.returns@.len() > 0 {
                spec_truncate(item.def.returns@[0]@, 48)
            } else {
                "—"@
            },
        },
    )
}

/// The stages of the visited functions, in visiting order.
pub open spec fn stages_keyed(index: Seq<Indexed>, order: Seq<Seq<char>>) -> Seq<(i128, StageView)>
    decreases order.len(),
{
    if order.len() == 0 {
        seq![]
    } else {
        let prev = stages_keyed(index, order.drop_last());
        match spec_lookup(index, order.last()) {
            Some(i) => prev.push(stage_for(order.last(), index[i])),
            None => prev,
        }
    }
}

/// `acc` with `name: <hint>` added for each recognizable return expression,
/// skipping lines already present.
pub open spec fn add_transformations(acc: Seq<Seq<char>>, name: Seq<char>, rets: Seq<String>) -> Seq<Seq<char>>
    decreases rets.len(),
{
    if rets.len() == 0 {
        acc
    } else {
        let a = add_transformations(acc, name, rets.drop_last());
        match spec_transformation(rets.last()@) {
            Some(t) => {
                let line = name + ": "@ + t;
                if a.contains(line) {
                    a
                } else {
                    a.push(line)
                }
            },
            None => a,
        }
    }
}

/// The distinct shape changes along the visited functions, in order.
pub open spec fn transformations_of(index: Seq<Indexed>, order: Seq<Seq<char>>) -> Seq<Seq<char>>
    decreases order.len(),
{
    if order.len() == 0 {
        seq![]
    } else {
        let prev = transformations_of(index, order.drop_last());
        match spec_lookup(index, order.last()) {
            Some(i) => add_transformations(prev, order.last(), index[i].def.returns@),
            None => prev,
        }
    }
}

/// Some visited function touches the database.
pub open spec fn db_seen(index: Seq<Indexed>, order: Seq<Seq<char>>) -> bool {
    exists|j: int|
        0 <= j < order.len() && match spec_lookup(index, #[trigger] order[j]) {
            Some(i) => spec_touches_db(index[i].def),
            None => false,
        }
}

/// The database origin stage.
pub open spec fn db_stage() -> StageView {
    StageView { layer: "db"@, label: "database"@, file: None, note: "raw rows"@ }
}

/// The API response stage.
pub open spec fn api_stage() -> StageView {
    StageView { layer: "api"@, label: "API response"@, file: None, note: "serialized output"@ }
}

/// The journey's stages: the database first when a visited function touches
/// it, then the visited functions ordered by layer rank (visiting order among
/// equal ranks), then the API response.
pub open spec fn spec_stages(index: Seq<Indexed>, order: Seq<Seq<char>>) -> Seq<StageView> {
    (if db_seen(index, order) {
        seq![db_stage()]
    } else {
        seq![]
    }) + values(sort_by_key(stages_keyed(index, order))) + seq![api_stage()]
}

/// The message for an endpoint no Python file defines.
pub open spec fn missing_endpoint_message(endpoint: Seq<char>) -> Seq<char> {
    "endpoint `"@ + endpoint + "` not found in any Python file under the repo"@
}

fn make_stage(layer: &str, label: &str, note: &str) -> (r: Stage)
    ensures
        r@ == (StageView { layer: layer@, label: label@, file: None, note: note@ }),
{
    Stage { layer: owned(layer), label: owned(label), file: None, note: owned(note) }
}

/// Build the journey for `endpoint` over the project's function index
/// (`index` in discovery order; the first definition of a name wins).
pub fn journey(index: &Vec<Indexed>, endpoint: &str) -> (r: Result<Journey>)
    ensures
        !known(index@, endpoint@) ==> (r matches Err(Error::Other(m)) && m@
            == missing_endpoint_message(endpoint@)),
        known(index@, endpoint@) ==> (r matches Ok(j) && j.endpoint@ == endpoint@ && exists|
            order: Seq<Seq<char>>,
        |
            is_visit_order(index@, endpoint@, order) && j.stages@.map_values(|s: Stage| s@)
                == spec_stages(index@, order) && names_view(j.transformations@)
                == transformations_of(index@, order)),
{
    if lookup(index, endpoint).is_none() {
        let mut m = owned("endpoint `");
        push_str(&mut m, endpoint);
        push_str(&mut m, "` not found in any Python file under the repo");
        return Err(Error::Other(m));
    }
    let order = visit_order(index, endpoint);
    let ghost ov = names_view(order@);
    let mut keyed: Vec<(i128, Stage)> = Vec::new();
    let mut transformations: Vec<String> = Vec::new();
    let mut seen_db = false;
    let mut n: usize = 0;
    while n < order.len()
        invariant
            n <= order@.len(),
            ov == names_view(order@),
            map_vals(keyed@, |s: Stage| s@) == stages_keyed(index@, ov.subrange(0, n as int)),
            names_view(transformations@) == transformations_of(index@, ov.subrange(0, n as int)),
            seen_db == db_seen(index@, ov.subrange(0, n as int)),
        decreases order@.len() - n,
    {
        let name = order[n].as_str();
        let ghost sub = ov.subrange(0, n + 1);
        assert(sub.drop_last() =~= ov.subrange(0, n as int));
        assert(sub.last() == name@);
        match lookup(index, name) {
            Some(i) => {
                proof {
                    lemma_lookup(index@, name@);
                }
                let item = &index[i];
                let (rank, layer) = layer_of(item.file.as_str());
                let note = if item.def.returns.len() > 0 {
                    truncate(item.def.returns[0].as_str(), 48)
                } else {
                    owned("—")
                };
                let mut label = owned(name);
                push_str(&mut label, "()");
                let stage = Stage {
                    layer: owned(layer),
                    label,
                    file: Some(item.file.clone()),
                    note,
                };
                let ghost prev_keyed = keyed@;
                keyed.push((rank as i128, stage));
                assert(map_vals(keyed@, |s: Stage| s@) =~= map_vals(prev_keyed, |s: Stage| s@).push(
                    stage_for(name@, index@[i as int]),
                ));
                // transformations
                let rets = &item.def.returns;
                let ghost base = names_view(transformations@);
                let mut q: usize = 0;
                while q < rets.len()
                    invariant
                        q <= rets@.len(),
                        names_view(transformations@) == add_transformations(base, name@, rets@.subrange(0, q as int)),
                    decreases rets@.len() - q,
                {
                    assert(rets@.subrange(0, q + 1).drop_last() =~= rets@.subrange(0, q as int));
                    match transformation(rets[q].as_str()) {
                        Some(t) => {
                            let mut line = owned(name);
                            push_str(&mut line, ": ");
                            push_str(&mut line, t);
                            if !holds_name(&transformations, line.as_str()) {
                                let ghost prev = names_view(transformations@);
                                transformations.push(line);
                                assert(names_view(transformations@) =~= prev.push(line@));
                            }
                        },
                        None => {},
                    }
                    q += 1;
                }
                assert(rets@.subrange(0, rets@.len() as int) =~= rets@);
                let touches = touches_db(&item.def);
                proof {
                    let s0 = ov.subrange(0, n as int);
                    assert(db_seen(index@, sub) == (db_seen(index@, s0) || touches)) by {
                        if touches {
                            assert(sub[n as int] == name@);
                        }
                        if db_seen(index@, s0) {
                            let j = choose|j: int| 0 <= j < s0.len() && match spec_lookup(index@, #[trigger] s0[j]) {
                                Some(i) => spec_touches_db(index@[i].def),
                                None => false,
                            };
                            assert(sub[j] == s0[j]);
                        }
                        if db_seen(index@, sub) {
                            let j = choose|j: int| 0 <= j < sub.len() && match spec_lookup(index@, #[trigger] sub[j]) {
                                Some(i) => spec_touches_db(index@[i].def),
                                None => false,
                            };
                            if j < n {
                                assert(sub[j] == s0[j]);
                            }
                        }
                    }
                }
                seen_db = seen_db || touches;
            },
            None => {
                proof {
                    let s0 = ov.subrange(0, n as int);
                    assert(db_seen(index@, sub) == db_seen(index@, s0)) by {
                        if db_seen(index@, s0) {
                            let j = choose|j: int| 0 <= j < s0.len() && match spec_lookup(index@, #[trigger] s0[j]) {
                                Some(i) => spec_touches_db(index@[i].def),
                                None => false,
                            };
                            assert(sub[j] == s0[j]);
                        }
                        if db_seen(index@, sub) {
                            let j = choose|j: int| 0 <= j < sub.len() && match spec_lookup(index@, #[trigger] sub[j]) {
                                Some(i) => spec_touches_db(index@[i].def),
                                None => false,
                            };
                            if j < n {
                                assert(sub[j] == s0[j]);
                            }
                        }
                    }
                }
            },
        }
        n += 1;
    }
    assert(ov.subrange(0, order@.len() as int) =~= ov);
    let sorted = stable_sort(keyed);
    proof {
        lemma_sort_map(keyed@, |s: Stage| s@);
        lemma_values_map(sorted@, |s: Stage| s@);
    }
    let middle = strip_keys(sorted);
    let mut stages: Vec<Stage> = Vec::new();
    if seen_db {
        stages.push(make_stage("db", "database", "raw rows"));
    }
    let ghost head = stages@.map_values(|s: Stage| s@);
    let mut m = middle;
    let ghost mid = m@.map_values(|s: Stage| s@);
    stages.append(&mut m);
    stages.push(make_stage("api", "API response", "serialized output"));
    assert(stages@.map_values(|s: Stage| s@) =~= spec_stages(index@, ov));
    Ok(Journey { endpoint: owned(endpoint), stages, transformations })
}

// ---------------------------------------------------------------------------
// Building the index
// ---------------------------------------------------------------------------

/// Directories the project walk skips: version control, the store, build
/// output and virtual environments.
pub fn skip_dir(name: &str) -> (b: bool)
    ensures
        b == (name@ == ".git"@ || name@ == ".tellme"@ || name@ == "node_modules"@ || name@
            == "__pycache__"@ || name@ == "target"@ || name@ == ".venv"@ || name@ == "venv"@),
{
    str_eq(name, ".git") || str_eq(name, ".tellme") || str_eq(name, "node_modules") || str_eq(
        name,
        "__pycache__",
    ) || str_eq(name, "target") || str_eq(name, ".venv") || str_eq(name, "venv")
}

/// Append a file's definitions to the index, in order. Lookups take the
/// first definition of a name, so files indexed earlier win.
pub fn index_defs(index: &mut Vec<Indexed>, file: &str, defs: Vec<FunctionDef>)
    ensures
        final(index)@.len() == old(index)@.len() + defs@.len(),
        forall|i: int| 0 <= i < old(index)@.len() ==> #[trigger] final(index)@[i] == old(index)@[i],
        forall|j: int|
            0 <= j < defs@.len() ==> #[trigger] final(index)@[old(index)@.len() + j].file@ == file@
                && final(index)@[old(index)@.len() + j].def == defs@[j],
{
    let ghost orig = defs@;
    let ghost start = index@.len();
    let mut rest = defs;
    let ghost mut k: int = 0;
    while rest.len() > 0
        invariant
            0 <= k <= orig.len(),
            rest@ == orig.subrange(k, orig.len() as int),
            index@.len() == start + k,
            start == old(index)@.len(),
            forall|i: int| 0 <= i < start ==> #[trigger] index@[i] == old(index)@[i],
            forall|j: int|
                0 <= j < k ==> #[trigger] index@[start + j].file@ == file@ && index@[start
                    + j].def == orig[j],
        decreases rest@.len(),
    {
        let d = rest.remove(0);
        index.push(Indexed { file: owned(file), def: d });
        proof {
            k = k + 1;
        }
        assert(rest@ =~= orig.subrange(k, orig.len() as int));
    }
}

/// A journey runs from the data's origin to the API: it ends with the API
/// response, starts at the database whenever a visited function touches it,
/// and in between orders the visited functions by layer rank, DB-side first,
/// with one stage per visited function.
pub proof fn law_journey_runs_db_to_api(index: Seq<Indexed>, order: Seq<Seq<char>>)
    ensures
        spec_stages(index, order).last() == api_stage(),
        db_seen(index, order) ==> spec_stages(index, order)[0] == db_stage(),
        keys_sorted(sort_by_key(stages_keyed(index, order))),
        sort_by_key(stages_keyed(index, order)).len() == stages_keyed(index, order).len(),
{
    law_sort_by_key_sorted(stages_keyed(index, order));
}

/// Adding the shape changes of one function keeps the list free of repeats.
proof fn lemma_add_transformations_distinct(acc: Seq<Seq<char>>, name: Seq<char>, rets: Seq<String>)
    requires
        acc.no_duplicates(),
    ensures
        add_transformations(acc, name, rets).no_duplicates(),
    decreases rets.len(),
{
    if rets.len() > 0 {
        lemma_add_transformations_distinct(acc, name, rets.drop_last());
        let a = add_transformations(acc, name, rets.drop_last());
        match spec_transformation(rets.last()@) {
            Some(t) => {
                let line = name + ": "@ + t;
                if !a.contains(line) {
                    let b = a.push(line);
                    assert forall|i: int, j: int| 0 <= i < b.len() && 0 <= j < b.len() && i != j implies b[i]
                        != b[j] by {
                        if i < a.len() && j < a.len() {
                            assert(b[i] == a[i] && b[j] == a[j]);
                        } else if i < a.len() {
                            assert(b[i] == a[i]);
                        } else {
                            assert(b[j] == a[j]);
                        }
                    }
                }
            },
            None => {},
        }
    }
}

/// The shape changes along a journey hold no repeats.
proof fn lemma_transformations_distinct(index: Seq<Indexed>, order: Seq<Seq<char>>)
    ensures
        transformations_of(index, order).no_duplicates(),
    decreases order.len(),
{
    if order.len() > 0 {
        lemma_transformations_distinct(index, order.drop_last());
        match spec_lookup(index, order.last()) {
            Some(i) => lemma_add_transformations_distinct(
                transformations_of(index, order.drop_last()),
                order.last(),
                index[i].def.returns@,
            ),
            None => {},
        }
    }
}

/// Every stage of a visited function names its file.
proof fn lemma_stages_keyed_files(index: Seq<Indexed>, order: Seq<Seq<char>>)
    ensures
        forall|k: int|
            0 <= k < stages_keyed(index, order).len() ==> (#[trigger] stages_keyed(index, order)[k]).1.file
                is Some,
    decreases order.len(),
{
    if order.len() > 0 {
        lemma_stages_keyed_files(index, order.drop_last());
        let prev = stages_keyed(index, order.drop_last());
        match spec_lookup(index, order.last()) {
            Some(i) => {
                let cur = prev.push(stage_for(order.last(), index[i]));
                assert forall|k: int| 0 <= k < cur.len() implies (#[trigger] cur[k]).1.file is Some by {
                    if k < prev.len() {
                        assert(cur[k] == prev[k]);
                    }
                }
            },
            None => {},
        }
    }
}

/// A journey starts at the database exactly when a visited function touches
/// it, and its shape changes are listed once each.
pub proof fn law_journey_db_only_when_touched(index: Seq<Indexed>, order: Seq<Seq<char>>)
    ensures
        (spec_stages(index, order)[0] == db_stage()) == db_seen(index, order),
        transformations_of(index, order).no_duplicates(),
{
    lemma_transformations_distinct(index, order);
    if !db_seen(index, order) {
        let keyed = stages_keyed(index, order);
        let sorted = sort_by_key(keyed);
        law_sort_by_key_sorted(keyed);
        let st = spec_stages(index, order);
        if sorted.len() > 0 {
            assert(st[0] == sorted[0].1);
            sorted.to_multiset_ensures();
            keyed.to_multiset_ensures();
            assert(sorted.contains(sorted[0]));
            assert(keyed.to_multiset().count(sorted[0]) > 0);
            assert(keyed.contains(sorted[0]));
            let k = choose|k: int| 0 <= k < keyed.len() && keyed[k] == sorted[0];
            lemma_stages_keyed_files(index, order);
            assert(keyed[k].1.file is Some);
        } else {
            assert(st[0] == api_stage());
            reveal_strlit("api");
            reveal_strlit("db");
            assert("api"@.len() != "db"@.len());
            assert(api_stage().layer != db_stage().layer);
        }
    }
}

/// A journey through a function that reaches the database starts at the
/// database: when some visited function returns, or calls, something whose
/// lowercase text mentions `query`, `select `, `db.` or `execute`, the
/// journey's first stage is the database stage.
pub proof fn law_db_word_makes_db_origin(
    index: Seq<Indexed>,
    order: Seq<Seq<char>>,
    j: int,
    k: int,
    word: Seq<char>,
)
    requires
        0 <= j < order.len(),
        word == "query"@ || word == "select "@ || word == "db."@ || word == "execute"@,
        spec_lookup(index, order[j]) matches Some(i) && ((0 <= k < index[i].def.returns@.len()
            && contains(lowercase(index[i].def.returns@[k]@), word)) || (0 <= k
            < index[i].def.callees@.len() && contains(lowercase(index[i].def.callees@[k].name@), word))),
    ensures
        spec_stages(index, order)[0] == db_stage(),
{
    let i = spec_lookup(index, order[j])->Some_0;
    law_db_word_touches_db(index[i].def, k, word);
    assert(db_seen(index, order));
    law_journey_db_only_when_touched(index, order);
}

/// The place of a layer on the way from the data to the API: the database,
/// then repositories, then services (and code of no known layer), then
/// controllers, then the API response.
pub open spec fn layer_rank(l: Seq<char>) -> int {
    if l == "db"@ {
        1
    } else if l == "repository"@ {
        2
    } else if l == "service"@ || l == "other"@ {
        3
    } else if l == "controller"@ {
        4
    } else {
        5
    }
}

/// A file's rank is the place of its layer.
proof fn lemma_layer_rank(path: Seq<char>)
    ensures
        spec_layer_of(path).0 as int == layer_rank(spec_layer_of(path).1),
        1 <= spec_layer_of(path).0 <= 4,
{
    reveal_strlit("db");
    reveal_strlit("repository");
    reveal_strlit("service");
    reveal_strlit("other");
    reveal_strlit("controller");
    assert("repository"@.len() != "db"@.len());
    assert("service"@.len() != "db"@.len() && "service"@.len() != "repository"@.len());
    assert("other"@.len() != "db"@.len() && "other"@.len() != "repository"@.len());
    assert("controller"@.len() != "db"@.len() && "controller"@[0] != "repository"@[0]);
    assert("controller"@.len() != "service"@.len() && "controller"@.len() != "other"@.len());
}

/// Every stage of a visited function is keyed by the place of its layer,
/// between the database and the controllers.
proof fn lemma_stages_keyed_ranks(index: Seq<Indexed>, order: Seq<Seq<char>>)
    ensures
        forall|k: int|
            0 <= k < stages_keyed(index, order).len() ==> (#[trigger] stages_keyed(index, order)[k]).0
                == layer_rank(stages_keyed(index, order)[k].1.layer) && 1 <= stages_keyed(index, order)[k].0
                <= 4,
    decreases order.len(),
{
    if order.len() > 0 {
        lemma_stages_keyed_ranks(index, order.drop_last());
        let prev = stages_keyed(index, order.drop_last());
        match spec_lookup(index, order.last()) {
            Some(i) => {
                lemma_layer_rank(index[i].file@);
                let cur = prev.push(stage_for(order.last(), index[i]));
                assert forall|k: int| 0 <= k < cur.len() implies (#[trigger] cur[k]).0 == layer_rank(
                    cur[k].1.layer,
                ) && 1 <= cur[k].0 <= 4 by {
                    if k < prev.len() {
                        assert(cur[k] == prev[k]);
                    }
                }
            },
            None => {},
        }
    }
}

/// A journey's stages run from the data to the API: their layers come in
/// the order database, repository, service (or other), controller, API.
pub proof fn law_journey_layers_in_order(index: Seq<Indexed>, order: Seq<Seq<char>>)
    ensures
        forall|i: int, j: int|
            0 <= i <= j < spec_stages(index, order).len() ==> layer_rank(
                (#[trigger] spec_stages(index, order)[i]).layer,
            ) <= layer_rank((#[trigger] spec_stages(index, order)[j]).layer),
{
    let keyed = stages_keyed(index, order);
    let sorted = sort_by_key(keyed);
    let mid = values(sorted);
    let head = if db_seen(index, order) {
        seq![db_stage()]
    } else {
        seq![]
    };
    let st = spec_stages(index, order);
    assert(st == head + mid + seq![api_stage()]);
    law_sort_by_key_sorted(keyed);
    lemma_stages_keyed_ranks(index, order);
    sorted.to_multiset_ensures();
    keyed.to_multiset_ensures();
    assert forall|i: int| 0 <= i < sorted.len() implies (#[trigger] sorted[i]).0 == layer_rank(sorted[i].1.layer)
        && 1 <= sorted[i].0 <= 4 by {
        assert(sorted.contains(sorted[i]));
        assert(keyed.to_multiset().count(sorted[i]) > 0);
        assert(keyed.contains(sorted[i]));
        let k = choose|k: int| 0 <= k < keyed.len() && keyed[k] == sorted[i];
        assert(keyed[k].0 == layer_rank(keyed[k].1.layer));
    }
    reveal_strlit("db");
    reveal_strlit("api");
    reveal_strlit("repository");
    reveal_strlit("service");
    reveal_strlit("other");
    reveal_strlit("controller");
    assert(layer_rank("db"@) == 1);
    assert("api"@.len() != "db"@.len() && "api"@.len() != "repository"@.len() && "api"@.len()
        != "service"@.len() && "api"@.len() != "other"@.len() && "api"@.len() != "controller"@.len());
    assert(layer_rank("api"@) == 5);
    assert forall|i: int| 0 <= i < st.len() implies 1 <= layer_rank((#[trigger] st[i]).layer) <= 5 && (
    head.len() <= i < head.len() + mid.len() ==> layer_rank(st[i].layer) == sorted[i - head.len()].0)
        && (i < head.len() ==> layer_rank(st[i].layer) == 1) && (i == st.len() - 1 ==> layer_rank(
        st[i].layer,
    ) == 5) by {
        if i < head.len() {
            assert(st[i] == db_stage());
        } else if i < head.len() + mid.len() {
            assert(st[i] == mid[i - head.len()]);
            assert(mid[i - head.len()] == sorted[i - head.len()].1);
        } else {
            assert(st[i] == api_stage());
        }
    }
    assert forall|i: int, j: int| 0 <= i <= j < st.len() implies layer_rank((#[trigger] st[i]).layer)
        <= layer_rank((#[trigger] st[j]).layer) by {
        if head.len() <= i && j < head.len() + mid.len() {
            assert(sorted[i - head.len()].0 <= sorted[j - head.len()].0);
        }
    }
}

// ---------------------------------------------------------------------------
// Text listing
// ---------------------------------------------------------------------------

/// The lines of the `i`-th of `n` stages: its box header with the layer in
/// capitals and the file when there is one, its note, and an arrow to the
/// next stage unless it is the last.
pub open spec fn stage_lines(st: StageView, i: int, n: int) -> Seq<Seq<char>> {
    let suffix = match st.file {
        Some(f) => if f.len() == 0 {
            Seq::<char>::empty()
        } else {
            "  ["@ + f + "]"@
        },
        None => Seq::<char>::empty(),
    };
    seq![
        "  ┌─ "@ + crate::text::uppercase(st.layer) + " ─ "@ + st.label + suffix,
        "  │    "@ + st.note,
    ] + if i + 1 < n {
        seq!["  ▼"@]
    } else {
        seq![]
    }
}

/// The lines of the first `k` stages.
pub open spec fn stages_lines(ss: Seq<StageView>, k: nat) -> Seq<Seq<char>>
    decreases k,
{
    if k == 0 || k > ss.len() {
        seq![]
    } else {
        stages_lines(ss, (k - 1) as nat) + stage_lines(ss[k - 1], k - 1, ss.len() as int)
    }
}

/// The journey's text listing: a header, the stages top to bottom, then the
/// transformations found along the way, if any.
pub open spec fn spec_journey_text(j: Journey) -> Seq<Seq<char>> {
    let ss = j.stages@.map_values(|s: Stage| s@);
    let ts = crate::text::strings_view(j.transformations@);
    seq!["Data journey for endpoint: "@ + j.endpoint@ + "()"@, Seq::empty()] + stages_lines(
        ss,
        ss.len(),
    ) + if ts.len() == 0 {
        seq![]
    } else {
        seq![Seq::empty(), "Transformations along the way:"@] + crate::commands::why::prefixed(
            ts,
            "  • "@,
        )
    }
}

/// The journey's text listing, line by line.
pub fn journey_text(j: &Journey) -> (out: Vec<String>)
    ensures
        crate::text::strings_view(out@) == spec_journey_text(*j),
{
    let mut out: Vec<String> = Vec::new();
    let mut head = owned("Data journey for endpoint: ");
    push_str(&mut head, j.endpoint.as_str());
    push_str(&mut head, "()");
    crate::commands::why::push_line(&mut out, head);
    crate::commands::why::push_line(&mut out, String::new());
    let ghost top = crate::text::strings_view(out@);
    let ghost ss = j.stages@.map_values(|s: Stage| s@);
    let n = j.stages.len();
    let mut i: usize = 0;
    while i < n
        invariant
            i <= n == j.stages@.len(),
            ss == j.stages@.map_values(|s: Stage| s@),
            crate::text::strings_view(out@) == top + stages_lines(ss, i as nat),
        decreases n - i,
    {
        let st = &j.stages[i];
        let ghost before = crate::text::strings_view(out@);
        let mut l = owned("  ┌─ ");
        let up = crate::text::to_uppercase(st.layer.as_str());
        push_str(&mut l, up.as_str());
        push_str(&mut l, " ─ ");
        push_str(&mut l, st.label.as_str());
        match &st.file {
            Some(f) => {
                if f.as_str().unicode_len() > 0 {
                    push_str(&mut l, "  [");
                    push_str(&mut l, f.as_str());
                    push_str(&mut l, "]");
                }
            },
            None => {},
        }
        proof {
            let sv = st@;
            let suffix = match sv.file {
                Some(f) => if f.len() == 0 {
                    Seq::<char>::empty()
                } else {
                    "  ["@ + f + "]"@
                },
                None => Seq::<char>::empty(),
            };
            assert(l@ =~= "  ┌─ "@ + crate::text::uppercase(sv.layer) + " ─ "@ + sv.label + suffix);
        }
        crate::commands::why::push_line(&mut out, l);
        let mut note = owned("  │    ");
        push_str(&mut note, st.note.as_str());
        crate::commands::why::push_line(&mut out, note);
        if i + 1 < n {
            crate::commands::why::push_line(&mut out, owned("  ▼"));
        }
        assert(ss[i as int] == st@);
        assert(crate::text::strings_view(out@) =~= before + stage_lines(ss[i as int], i as int, n as int));
        assert(stages_lines(ss, (i + 1) as nat) == stages_lines(ss, i as nat) + stage_lines(ss[i as int], i as int, ss.len() as int));
        assert(crate::text::strings_view(out@) =~= top + stages_lines(ss, (i + 1) as nat));
        i += 1;
    }
    if j.transformations.len() > 0 {
        crate::commands::why::push_line(&mut out, String::new());
        crate::commands::why::push_line(&mut out, owned("Transformations along the way:"));
        crate::commands::why::push_prefixed(&mut out, &j.transformations, "  • ");
    }
    assert(crate::text::strings_view(out@) =~= spec_journey_text(*j));
    out
}

} // verus!
