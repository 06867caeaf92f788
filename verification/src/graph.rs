//! ASCII flow-graph rendering.
//!
//! `flow --graph` visualizes the structures from [`crate::analysis`]:
//! a function as `callers → function → callees`, and a variable as a
//! vertical lifecycle chain.

use vstd::prelude::*;

use crate::analysis::python::spec_source_line;
use crate::analysis::{spec_label, Call, FunctionFlow, VarFlow, VarEvent};
use petgraph::graph::{DiGraph, Graph, NodeIndex};
use petgraph::dot::{Config, Dot};
use petgraph::Directed;
use crate::text::{
    lemma_dec_len_usize,
    char_count, dec, join, join_strings, owned, push_char, push_dec, push_repeat, push_str,
    repeat_char, strings_view,
};

verus! {

/// `n` spaces.
pub open spec fn spaces(n: nat) -> Seq<char> {
    repeat_char(' ', n)
}

/// `s` centered in `width` columns (left padding rounds down); unchanged
/// when it is at least that wide.
pub open spec fn spec_center(s: Seq<char>, width: nat) -> Seq<char> {
    if s.len() >= width {
        s
    } else {
        let left = ((width - s.len()) / 2) as nat;
        let right = (width - s.len() - left) as nat;
        spaces(left) + s + spaces(right)
    }
}

/// Center `s` within `width` columns.
pub fn center(s: &str, width: usize) -> (r: String)
    ensures
        r@ == spec_center(s@, width as nat),
{
    let len = char_count(s);
    if len >= width {
        return owned(s);
    }
    let left = (width - len) / 2;
    let right = width - len - left;
    let mut r = String::new();
    push_repeat(&mut r, ' ', left);
    push_str(&mut r, s);
    push_repeat(&mut r, ' ', right);
    r
}

/// The widest line's length (0 for none).
pub open spec fn max_len(lines: Seq<Seq<char>>) -> nat
    decreases lines.len(),
{
    if lines.len() == 0 {
        0
    } else if max_len(lines.drop_last()) < lines.last().len() {
        lines.last().len()
    } else {
        max_len(lines.drop_last())
    }
}

/// Width of the widest line in a block.
pub fn block_width(lines: &Vec<String>) -> (w: usize)
    ensures
        w == max_len(strings_view(lines@)),
{
    let mut w: usize = 0;
    let mut i: usize = 0;
    while i < lines.len()
        invariant
            i <= lines@.len(),
            w == max_len(strings_view(lines@.subrange(0, i as int))),
        decreases lines@.len() - i,
    {
        assert(strings_view(lines@.subrange(0, i + 1)).drop_last() =~= strings_view(lines@.subrange(0, i as int)));
        let n = char_count(lines[i].as_str());
        if w < n {
            w = n;
        }
        i += 1;
    }
    assert(lines@.subrange(0, lines@.len() as int) =~= lines@);
    w
}

/// One boxed line: `│ ` + the line centered in `w` + ` │`.
pub open spec fn box_line(l: Seq<char>, w: nat) -> Seq<char> {
    seq!['│', ' '] + spec_center(l, w) + seq![' ', '│']
}

/// A box border: `left`, `w` times `─`, `right`.
pub open spec fn border(left: char, w: nat, right: char) -> Seq<char> {
    seq![left] + repeat_char('─', w) + seq![right]
}

/// A boxed label: a top border, each line centered between `│ ` and ` │`,
/// a bottom border, all as wide as the widest line plus padding.
pub open spec fn spec_boxed(lines: Seq<Seq<char>>) -> Seq<Seq<char>> {
    let inner = max_len(lines) + 2;
    seq![border('┌', inner, '┐')] + lines.map_values(
        |l: Seq<char>| box_line(l, (inner - 2) as nat),
    ) + seq![border('└', inner, '┘')]
}

/// A boxed label: `┌──┐ / │ x │ / └──┘`, sized to the widest line.
pub fn boxed(lines: &Vec<String>) -> (r: Vec<String>)
    requires
        max_len(strings_view(lines@)) + 2 <= usize::MAX,
    ensures
        strings_view(r@) == spec_boxed(strings_view(lines@)),
{
    let inner = block_width(lines) + 2;
    let mut out: Vec<String> = Vec::new();
    let mut top = String::new();
    push_char(&mut top, '┌');
    push_repeat(&mut top, '─', inner);
    push_char(&mut top, '┐');
    out.push(top);
    assert(top@ =~= border('┌', inner as nat, '┐'));
    let ghost lv = strings_view(lines@);
    assert(strings_view(out@) =~= seq![border('┌', inner as nat, '┐')] + lv.subrange(0, 0).map_values(
        |l: Seq<char>| box_line(l, (inner - 2) as nat),
    ));
    let mut i: usize = 0;
    while i < lines.len()
        invariant
            i <= lines@.len(),
            lv == strings_view(lines@),
            inner == max_len(lv) + 2,
            strings_view(out@) == seq![border('┌', inner as nat, '┐')] + lv.subrange(0, i as int).map_values(
                |l: Seq<char>| box_line(l, (inner - 2) as nat),
            ),
        decreases lines@.len() - i,
    {
        let mut l = String::new();
        push_char(&mut l, '│');
        push_char(&mut l, ' ');
        let c = center(lines[i].as_str(), inner - 2);
        push_str(&mut l, c.as_str());
        push_char(&mut l, ' ');
        push_char(&mut l, '│');
        assert(l@ =~= box_line(lv[i as int], (inner - 2) as nat));
        let ghost before = strings_view(out@);
        out.push(l);
        assert(strings_view(out@) =~= before.push(l@));
        assert(lv.subrange(0, i + 1).map_values(
            |l: Seq<char>| box_line(l, (inner - 2) as nat),
        ) =~= lv.subrange(0, i as int).map_values(
            |l: Seq<char>| box_line(l, (inner - 2) as nat),
        ).push(l@));
        i += 1;
    }
    let mut bottom = String::new();
    push_char(&mut bottom, '└');
    push_repeat(&mut bottom, '─', inner);
    push_char(&mut bottom, '┘');
    let ghost before = strings_view(out@);
    out.push(bottom);
    assert(bottom@ =~= border('└', inner as nat, '┘'));
    assert(strings_view(out@) =~= before.push(bottom@));
    assert(lv.subrange(0, lines@.len() as int) =~= lv);
    assert(strings_view(out@) =~= spec_boxed(lv));
    out
}

/// Render a block of lines centered to `width` into `out`.
pub fn push_centered(out: &mut Vec<String>, lines: &Vec<String>, width: usize)
    ensures
        strings_view(final(out)@) == strings_view(old(out)@) + strings_view(lines@).map_values(
            |l: Seq<char>| spec_center(l, width as nat),
        ),
{
    let ghost start = strings_view(out@);
    let mut i: usize = 0;
    while i < lines.len()
        invariant
            i <= lines@.len(),
            strings_view(out@) == start + strings_view(lines@.subrange(0, i as int)).map_values(
                |l: Seq<char>| spec_center(l, width as nat),
            ),
        decreases lines@.len() - i,
    {
        let c = center(lines[i].as_str(), width);
        let ghost before = strings_view(out@);
        out.push(c);
        assert(strings_view(out@) =~= before.push(c@));
        assert(strings_view(lines@.subrange(0, i + 1)).map_values(
            |l: Seq<char>| spec_center(l, width as nat),
        ) =~= strings_view(lines@.subrange(0, i as int)).map_values(
            |l: Seq<char>| spec_center(l, width as nat),
        ).push(spec_center(lines@[i as int]@, width as nat)));
        i += 1;
    }
    assert(lines@.subrange(0, lines@.len() as int) =~= lines@);
}

/// A horizontal row of names, eight spaces apart, or `empty` when there are none.
pub open spec fn spec_row(names: Seq<Seq<char>>, empty: Seq<char>) -> Seq<char> {
    if names.len() == 0 {
        empty
    } else {
        join(names, spaces(8))
    }
}

/// A horizontal row of names joined by spaces, or a placeholder if empty.
pub fn row(names: &Vec<String>, empty: &str) -> (r: String)
    ensures
        r@ == spec_row(strings_view(names@), empty@),
{
    if names.len() == 0 {
        owned(empty)
    } else {
        let sep = owned("        ");
        proof {
            reveal_strlit("        ");
            assert(sep@ =~= spaces(8));
        }
        join_strings(names, sep.as_str())
    }
}

/// The byte length of a text (what `str::len` counts).
pub open spec fn byte_len(s: Seq<char>) -> nat {
    vstd::utf8::encode_utf8(s).len()
}

/// Labels are short ASCII words.
pub proof fn lemma_label_bytes(k: crate::analysis::VarEventKind)
    ensures
        byte_len(spec_label(k)) == spec_label(k).len(),
        spec_label(k).len() <= 13,
{
    reveal_strlit("INITIALIZED");
    reveal_strlit("MODIFIED");
    reveal_strlit("USED");
    reveal_strlit("LIFECYCLE END");
    let l = spec_label(k);
    assert(vstd::utf8::is_ascii_chars(l));
    vstd::utf8::is_ascii_chars_encode_utf8(l);
}

/// The longest of two lines.
proof fn lemma_max_len_two(a: Seq<char>, b: Seq<char>)
    ensures
        max_len(seq![a, b]) == if a.len() < b.len() {
            b.len()
        } else {
            a.len()
        },
{
    reveal_with_fuel(max_len, 3);
    assert(seq![a, b].drop_last() =~= seq![a]);
    assert(seq![a].drop_last() =~= Seq::<Seq<char>>::empty());
}

/// An event's label line: `KIND (line N)`.
pub open spec fn event_label(kind: crate::analysis::VarEventKind, line: usize) -> Seq<char> {
    spec_label(kind) + " (line "@ + dec(line as nat) + ")"@
}

/// The column width of a variable graph: room for the widest label plus text
/// (by bytes), 20 when there are no events.
pub open spec fn graph_width(events: Seq<VarEvent>) -> nat
    decreases events.len(),
{
    if events.len() == 0 {
        20
    } else {
        let w = byte_len(spec_label(events.last().kind)) + byte_len(events.last().text@) + 12;
        if events.len() == 1 {
            w
        } else if graph_width(events.drop_last()) < w {
            w
        } else {
            graph_width(events.drop_last())
        }
    }
}

/// An event's box, each line centered in `width`.
pub open spec fn event_block(e: VarEvent, width: nat) -> Seq<Seq<char>> {
    spec_boxed(seq![event_label(e.kind, e.line), e.text@]).map_values(
        |l: Seq<char>| spec_center(l, width),
    )
}

/// The boxes of the events, a centered `│` between consecutive ones.
pub open spec fn event_blocks(events: Seq<VarEvent>, width: nat) -> Seq<Seq<char>>
    decreases events.len(),
{
    if events.len() == 0 {
        seq![]
    } else if events.len() == 1 {
        event_block(events[0], width)
    } else {
        event_blocks(events.drop_last(), width) + seq![spec_center("│"@, width)] + event_block(
            events.last(),
            width,
        )
    }
}

/// The heading of a variable graph.
pub open spec fn var_heading(v: VarFlow) -> Seq<char> {
    "Variable: "@ + v.name@ + match v.function {
        Some(f) => "  (in "@ + f@ + ")"@,
        None => seq![],
    }
}

/// A variable's lifecycle as a vertical chain of boxes under a heading and
/// a blank line, lines joined with `\n`.
pub open spec fn spec_var_graph(v: VarFlow) -> Seq<char> {
    join(
        seq![var_heading(v), seq![]] + event_blocks(v.events@, graph_width(v.events@)),
        seq!['\n'],
    )
}

/// Events whose texts fit the machine's width arithmetic.
pub open spec fn fits(events: Seq<VarEvent>) -> bool {
    forall|i: int|
        0 <= i < events.len() ==> byte_len(#[trigger] events[i].text@) < usize::MAX / 4
            && events[i].text@.len() < usize::MAX / 4
}

/// Render a variable's lifecycle as a vertical chain of small boxes.
pub fn var_graph(v: &VarFlow) -> (r: String)
    requires
        fits(v.events@),
    ensures
        r@ == spec_var_graph(*v),
{
    let mut heading = owned("Variable: ");
    push_str(&mut heading, v.name.as_str());
    match &v.function {
        Some(f) => {
            push_str(&mut heading, "  (in ");
            push_str(&mut heading, f.as_str());
            push_str(&mut heading, ")");
            assert(heading@ =~= var_heading(*v));
        },
        None => {
            assert(heading@ =~= var_heading(*v));
        },
    }
    let mut out: Vec<String> = Vec::new();
    out.push(heading);
    out.push(String::new());
    let ev = &v.events;
    let mut width: usize = 20;
    let mut i: usize = 0;
    while i < ev.len()
        invariant
            i <= ev@.len(),
            fits(ev@),
            width == graph_width(ev@.subrange(0, i as int)),
            width <= usize::MAX / 4 + 25,
        decreases ev@.len() - i,
    {
        let ghost pre = ev@.subrange(0, i + 1);
        assert(pre.drop_last() =~= ev@.subrange(0, i as int));
        assert(pre.last() == ev@[i as int]);
        let lab = ev[i].kind.label();
        let txt = ev[i].text.as_str();
        proof {
            lemma_label_bytes(ev@[i as int].kind);
            assert(byte_len(ev@[i as int].text@) < usize::MAX / 4);
            assert(byte_len(lab@) <= 13);
            assert(byte_len(txt@) < usize::MAX / 4);
        }
        let ll = lab.len();
        let tl = txt.len();
        assert(ll as nat == byte_len(lab@));
        assert(tl as nat == byte_len(txt@));
        let w = ll + tl + 12;
        if i == 0 || width < w {
            width = w;
        }
        i += 1;
    }
    assert(ev@.subrange(0, ev@.len() as int) =~= ev@);
    let ghost head = strings_view(out@);
    assert(head =~= seq![var_heading(*v), Seq::<char>::empty()]);
    let mut j: usize = 0;
    while j < ev.len()
        invariant
            j <= ev@.len(),
            fits(ev@),
            strings_view(out@) == head + event_blocks(ev@.subrange(0, j as int), width as nat),
            head == seq![var_heading(*v), Seq::<char>::empty()],
            width == graph_width(ev@),
            ev == &v.events,
        decreases ev@.len() - j,
    {
        let e = &ev[j];
        let mut label = owned(e.kind.label());
        push_str(&mut label, " (line ");
        push_dec(&mut label, e.line);
        push_str(&mut label, ")");
        let mut parts: Vec<String> = Vec::new();
        parts.push(label);
        parts.push(owned(e.text.as_str()));
        let ghost pv = seq![event_label(e.kind, e.line), e.text@];
        assert(strings_view(parts@) =~= pv);
        proof {
            lemma_label_bytes(e.kind);
            lemma_dec_len_usize(e.line);
            lemma_max_len_two(pv[0], pv[1]);
            assert(pv =~= seq![pv[0], pv[1]]);
            reveal_strlit(" (line ");
            reveal_strlit(")");
            assert(pv[0].len() <= 41);
            assert(e.text@.len() < usize::MAX / 4);
        }
        let ghost before = strings_view(out@);
        if j > 0 {
            let bar = center("│", width);
            out.push(bar);
            assert(strings_view(out@) =~= before.push(spec_center("│"@, width as nat)));
        }
        let lines = boxed(&parts);
        let ghost mid = strings_view(out@);
        push_centered(&mut out, &lines, width);
        assert(strings_view(lines@).map_values(|l: Seq<char>| spec_center(l, width as nat)) == event_block(ev@[j as int], width as nat));
        assert(strings_view(out@) == mid + event_block(ev@[j as int], width as nat));
        let ghost sub = ev@.subrange(0, j + 1);
        assert(sub.drop_last() =~= ev@.subrange(0, j as int));
        assert(sub.last() == ev@[j as int]);
        if j == 0 {
            assert(sub.len() == 1);
            assert(strings_view(out@) =~= head + event_blocks(sub, width as nat));
        } else {
            assert(event_blocks(sub, width as nat) == event_blocks(ev@.subrange(0, j as int), width as nat)
                + seq![spec_center("│"@, width as nat)] + event_block(ev@[j as int], width as nat));
            assert(strings_view(out@) =~= head + event_blocks(sub, width as nat));
        }
        j += 1;
    }
    assert(ev@.subrange(0, ev@.len() as int) =~= ev@);
    let nl = owned("\n");
    proof {
        reveal_strlit("\n");
        assert(nl@ =~= seq!['\n']);
    }
    join_strings(&out, nl.as_str())
}

// ---------------------------------------------------------------------------
// The graph model (petgraph)
// ---------------------------------------------------------------------------

/// A petgraph graph.
#[verifier::external_type_specification]
#[verifier::external_body]
#[verifier::reject_recursive_types(N)]
#[verifier::reject_recursive_types(E)]
#[verifier::reject_recursive_types(Ty)]
#[verifier::reject_recursive_types(Ix)]
pub struct ExGraph<N, E, Ty, Ix>(Graph<N, E, Ty, Ix>);

/// petgraph's directed edge type.
#[verifier::external_type_specification]
#[verifier::external_body]
pub struct ExDirected(Directed);

/// The flow graph: named nodes, edges labelled by what they mean.
pub type FlowGraph = DiGraph<String, &'static str>;

/// The node weights of a flow graph, by index.
pub uninterp spec fn graph_nodes(g: FlowGraph) -> Seq<Seq<char>>;

/// The edges of a flow graph as `(source, target)` node indices, in the
/// order they were added.
pub uninterp spec fn graph_edges(g: FlowGraph) -> Seq<(nat, nat)>;

/// The Graphviz DOT text petgraph writes for a directed graph with these
/// nodes and edges, edge labels omitted.
pub uninterp spec fn dot_text(nodes: Seq<Seq<char>>, edges: Seq<(nat, nat)>) -> Seq<char>;

/// The neighbors of `a` in one direction, most recently added edge first:
/// sources of edges into `a` when `incoming`, targets of edges out of `a`
/// otherwise.
pub open spec fn spec_neighbors(edges: Seq<(nat, nat)>, a: nat, incoming: bool) -> Seq<nat>
    decreases edges.len(),
{
    if edges.len() == 0 {
        seq![]
    } else {
        let rest = spec_neighbors(edges.drop_last(), a, incoming);
        let e = edges.last();
        if incoming && e.1 == a {
            seq![e.0] + rest
        } else if !incoming && e.0 == a {
            seq![e.1] + rest
        } else {
            rest
        }
    }
}

/// `DiGraph::new`: an empty graph.
#[verifier::external_body]
fn graph_new() -> (g: FlowGraph)
    ensures
        graph_nodes(g) == Seq::<Seq<char>>::empty(),
        graph_edges(g) == Seq::<(nat, nat)>::empty(),
{
    DiGraph::new()
}

/// `Graph::add_node`: appends a node and returns its index (it panics at
/// `u32::MAX` nodes, which `requires` rules out).
#[verifier::external_body]
fn graph_add_node(g: &mut FlowGraph, w: String) -> (i: usize)
    requires
        graph_nodes(*old(g)).len() < u32::MAX,
    ensures
        i == graph_nodes(*old(g)).len(),
        graph_nodes(*final(g)) == graph_nodes(*old(g)).push(w@),
        graph_edges(*final(g)) == graph_edges(*old(g)),
{
    g.add_node(w).index()
}

/// `Graph::add_edge`: appends an edge `a → b` (it panics on a missing node
/// or at `u32::MAX` edges, which `requires` rules out).
#[verifier::external_body]
fn graph_add_edge(g: &mut FlowGraph, a: usize, b: usize, w: &'static str)
    requires
        a < graph_nodes(*old(g)).len(),
        b < graph_nodes(*old(g)).len(),
        graph_edges(*old(g)).len() < u32::MAX,
    ensures
        graph_nodes(*final(g)) == graph_nodes(*old(g)),
        graph_edges(*final(g)) == graph_edges(*old(g)).push((a as nat, b as nat)),
{
    g.add_edge(NodeIndex::new(a), NodeIndex::new(b), w);
}

/// `Graph::neighbors_directed`: for a directed graph, the neighbors in the
/// given direction in reverse order of edge addition.
#[verifier::external_body]
fn graph_neighbors(g: &FlowGraph, a: usize, incoming: bool) -> (r: Vec<usize>)
    requires
        a < graph_nodes(*g).len(),
    ensures
        r@.map_values(|x: usize| x as nat) == spec_neighbors(graph_edges(*g), a as nat, incoming),
{
    let dir = if incoming { petgraph::Direction::Incoming } else { petgraph::Direction::Outgoing };
    g.neighbors_directed(NodeIndex::new(a), dir).map(|n| n.index()).collect()
}

/// Indexing a graph by node: the node's weight.
#[verifier::external_body]
fn graph_weight(g: &FlowGraph, i: usize) -> (r: String)
    requires
        i < graph_nodes(*g).len(),
    ensures
        r@ == graph_nodes(*g)[i as int],
{
    g[NodeIndex::new(i)].clone()
}

/// `Dot::with_config(g, &[Config::EdgeNoLabel])` rendered with `Display`.
#[verifier::external_body]
fn graph_dot(g: &FlowGraph) -> (r: String)
    ensures
        r@ == dot_text(graph_nodes(*g), graph_edges(*g)),
{
    format!("{}", Dot::with_config(g, &[Config::EdgeNoLabel]))
}

// ---------------------------------------------------------------------------
// Function graphs
// ---------------------------------------------------------------------------

/// Call names.
pub open spec fn call_names(cs: Seq<Call>) -> Seq<Seq<char>> {
    cs.map_values(|c: Call| c.name@)
}

/// A function's signature line: `(params) → return` (`?` when unannotated).
pub open spec fn spec_signature(f: FunctionFlow) -> Seq<char> {
    "("@ + join(strings_view(f.params@), ", "@) + ") → "@ + match f.returns {
        Some(r) => r@,
        None => "?"@,
    }
}

/// The widest of three widths.
pub open spec fn max3(a: nat, b: nat, c: nat) -> nat {
    let ab = if a < b {
        b
    } else {
        a
    };
    if ab < c {
        c
    } else {
        ab
    }
}

/// The function graph: the callers' row above a box holding the name and
/// signature, a `│ uses` connector, then the callees' row, all centered to
/// the widest part. Each row lists its calls most recent first (the order the
/// graph model returns neighbors in).
pub open spec fn spec_function_graph(f: FunctionFlow) -> Seq<char> {
    let bx = spec_boxed(seq![f.name@, spec_signature(f)]);
    let cr = spec_row(call_names(f.callers@).reverse(), "(no callers)"@);
    let ce = spec_row(call_names(f.callees@).reverse(), "(no callees)"@);
    let w = max3(max_len(bx), cr.len(), ce.len());
    join(
        seq![spec_center(cr, w), spec_center("│"@, w)] + bx.map_values(|l: Seq<char>| spec_center(l, w))
            + seq![spec_center("│ uses"@, w), spec_center(ce, w)],
        seq!['\n'],
    )
}

/// Lengths that the rendering arithmetic can hold.
pub open spec fn function_fits(f: FunctionFlow) -> bool {
    &&& f.callers@.len() + f.callees@.len() + 1 < u32::MAX
    &&& f.name@.len() < usize::MAX / 4
    &&& spec_signature(f).len() < usize::MAX / 4
    &&& spec_row(call_names(f.callers@).reverse(), "(no callers)"@).len() < usize::MAX / 4
    &&& spec_row(call_names(f.callees@).reverse(), "(no callees)"@).len() < usize::MAX / 4
}

fn signature(f: &FunctionFlow) -> (r: String)
    ensures
        r@ == spec_signature(*f),
{
    let mut sig = owned("(");
    let ps = join_strings(&f.params, ", ");
    push_str(&mut sig, ps.as_str());
    push_str(&mut sig, ") → ");
    match &f.returns {
        Some(r) => push_str(&mut sig, r.as_str()),
        None => push_str(&mut sig, "?"),
    }
    assert(sig@ =~= spec_signature(*f));
    sig
}

fn names_of(g: &FlowGraph, idx: &Vec<usize>) -> (r: Vec<String>)
    requires
        forall|i: int| 0 <= i < idx@.len() ==> idx@[i] < graph_nodes(*g).len(),
    ensures
        strings_view(r@) == idx@.map_values(|i: usize| graph_nodes(*g)[i as int]),
{
    let mut r: Vec<String> = Vec::new();
    let mut i: usize = 0;
    while i < idx.len()
        invariant
            i <= idx@.len(),
            forall|j: int| 0 <= j < idx@.len() ==> idx@[j] < graph_nodes(*g).len(),
            strings_view(r@) == idx@.subrange(0, i as int).map_values(|i: usize| graph_nodes(*g)[i as int]),
        decreases idx@.len() - i,
    {
        let w = graph_weight(g, idx[i]);
        let ghost before = strings_view(r@);
        r.push(w);
        assert(strings_view(r@) =~= before.push(w@));
        assert(idx@.subrange(0, i + 1).map_values(|i: usize| graph_nodes(*g)[i as int]) =~= idx@.subrange(0, i as int).map_values(|i: usize| graph_nodes(*g)[i as int]).push(w@));
        i += 1;
    }
    assert(idx@.subrange(0, idx@.len() as int) =~= idx@);
    r
}

/// The edges of a function graph: caller `i` (node `i + 1`) into node 0,
/// then node 0 into callee `j` (node `nc + 1 + j`).
pub open spec fn call_edges(nc: nat, nd: nat) -> Seq<(nat, nat)> {
    Seq::new(nc, |i: int| ((i + 1) as nat, 0nat)) + Seq::new(nd, |j: int| (0nat, (nc + 1 + j) as nat))
}

/// The graph of a function: node 0 is `label`, then one node per caller
/// with an edge into node 0, then one per callee with an edge from node 0.
fn build_call_graph(label: String, f: &FunctionFlow) -> (g: FlowGraph)
    requires
        f.callers@.len() + f.callees@.len() + 1 < u32::MAX,
    ensures
        graph_nodes(g) == seq![label@] + call_names(f.callers@) + call_names(f.callees@),
        spec_neighbors(graph_edges(g), 0, true) == Seq::new(
            f.callers@.len(),
            |k: int| (f.callers@.len() - k) as nat,
        ),
        spec_neighbors(graph_edges(g), 0, false) == Seq::new(
            f.callees@.len(),
            |k: int| (f.callers@.len() + f.callees@.len() - k) as nat,
        ),
        forall|k: int| 0 <= k < graph_edges(g).len() ==> #[trigger] graph_edges(g)[k].0 < graph_nodes(g).len() && graph_edges(g)[k].1 < graph_nodes(g).len(),
        graph_edges(g).len() == f.callers@.len() + f.callees@.len(),
        graph_edges(g) == call_edges(f.callers@.len(), f.callees@.len()),
{
    let mut g = graph_new();
    let ghost l = label@;
    let fnode = graph_add_node(&mut g, label);
    let nc = f.callers.len();
    let mut i: usize = 0;
    assert(call_names(f.callers@.subrange(0, 0)) =~= Seq::<Seq<char>>::empty());
    assert(Seq::new(0, |k: int| (0 - k) as nat) =~= spec_neighbors(graph_edges(g), 0, true));
    while i < nc
        invariant
            i <= nc == f.callers@.len(),
            nc + f.callees@.len() + 1 < u32::MAX,
            fnode == 0,
            graph_nodes(g) == seq![l] + call_names(f.callers@.subrange(0, i as int)),
            graph_edges(g).len() == i,
            graph_edges(g) == Seq::new(i as nat, |k: int| ((k + 1) as nat, 0nat)),
            spec_neighbors(graph_edges(g), 0, true) == Seq::new(i as nat, |k: int| (i - k) as nat),
            spec_neighbors(graph_edges(g), 0, false) == Seq::<nat>::empty(),
            forall|k: int| 0 <= k < graph_edges(g).len() ==> #[trigger] graph_edges(g)[k].0 < graph_nodes(g).len() && graph_edges(g)[k].1 < graph_nodes(g).len(),
        decreases nc - i,
    {
        let n = graph_add_node(&mut g, f.callers[i].name.clone());
        let ghost e0 = graph_edges(g);
        graph_add_edge(&mut g, n, fnode, "calls");
        assert(graph_edges(g).drop_last() =~= e0);
        assert(graph_edges(g) =~= Seq::new((i + 1) as nat, |k: int| ((k + 1) as nat, 0nat)));
        assert(call_names(f.callers@.subrange(0, i + 1)) =~= call_names(f.callers@.subrange(0, i as int)).push(f.callers@[i as int].name@));
        assert(Seq::new((i + 1) as nat, |k: int| (i + 1 - k) as nat) =~= seq![(i + 1) as nat] + Seq::new(i as nat, |k: int| (i - k) as nat));
        i += 1;
    }
    assert(f.callers@.subrange(0, nc as int) =~= f.callers@);
    let nd = f.callees.len();
    assert(graph_edges(g) =~= call_edges(nc as nat, 0));
    let mut j: usize = 0;
    assert(call_names(f.callees@.subrange(0, 0)) =~= Seq::<Seq<char>>::empty());
    assert(seq![l] + call_names(f.callers@) + call_names(f.callees@.subrange(0, 0)) =~= seq![l] + call_names(f.callers@));
    while j < nd
        invariant
            j <= nd == f.callees@.len(),
            nc == f.callers@.len(),
            nc + nd + 1 < u32::MAX,
            fnode == 0,
            graph_nodes(g) == seq![l] + call_names(f.callers@) + call_names(f.callees@.subrange(0, j as int)),
            graph_edges(g).len() == nc + j,
            graph_edges(g) == call_edges(nc as nat, j as nat),
            spec_neighbors(graph_edges(g), 0, true) == Seq::new(nc as nat, |k: int| (nc - k) as nat),
            spec_neighbors(graph_edges(g), 0, false) == Seq::new(j as nat, |k: int| (nc + j - k) as nat),
            forall|k: int| 0 <= k < graph_edges(g).len() ==> #[trigger] graph_edges(g)[k].0 < graph_nodes(g).len() && graph_edges(g)[k].1 < graph_nodes(g).len(),
        decreases nd - j,
    {
        let n = graph_add_node(&mut g, f.callees[j].name.clone());
        let ghost e0 = graph_edges(g);
        graph_add_edge(&mut g, fnode, n, "uses");
        assert(graph_edges(g).drop_last() =~= e0);
        assert(graph_edges(g) =~= call_edges(nc as nat, (j + 1) as nat));
        assert(call_names(f.callees@.subrange(0, j + 1)) =~= call_names(f.callees@.subrange(0, j as int)).push(f.callees@[j as int].name@));
        assert(Seq::new((j + 1) as nat, |k: int| (nc + j + 1 - k) as nat) =~= seq![(nc + j + 1) as nat] + Seq::new(j as nat, |k: int| (nc + j - k) as nat));
        j += 1;
    }
    assert(f.callees@.subrange(0, nd as int) =~= f.callees@);
    g
}

/// Render the function graph: callers above, the function box, callees below.
pub fn function_graph(f: &FunctionFlow) -> (r: String)
    requires
        function_fits(*f),
    ensures
        r@ == spec_function_graph(*f),
{
    let sig = signature(f);
    let mut label = owned(f.name.as_str());
    push_char(&mut label, '\n');
    push_str(&mut label, sig.as_str());
    let g = build_call_graph(label, f);
    let nc = f.callers.len();
    let nd = f.callees.len();
    let inc = graph_neighbors(&g, 0, true);
    let out_idx = graph_neighbors(&g, 0, false);
    proof {
        assert(inc@.map_values(|x: usize| x as nat).len() == nc as nat);
        assert(inc@.len() == nc);
        assert(out_idx@.map_values(|x: usize| x as nat).len() == nd as nat);
        assert(out_idx@.len() == nd);
        assert forall|i: int| 0 <= i < inc@.len() implies inc@[i] < graph_nodes(g).len() by {
            assert(inc@.map_values(|x: usize| x as nat)[i] == (nc - i) as nat);
        }
        assert forall|i: int| 0 <= i < out_idx@.len() implies out_idx@[i] < graph_nodes(g).len() by {
            assert(out_idx@.map_values(|x: usize| x as nat)[i] == (nc + nd - i) as nat);
        }
    }
    let callers = names_of(&g, &inc);
    let callees = names_of(&g, &out_idx);
    proof {
        let gn = graph_nodes(g);
        assert(strings_view(callers@) =~= call_names(f.callers@).reverse()) by {
            assert forall|i: int| 0 <= i < nc implies #[trigger] strings_view(callers@)[i] == call_names(f.callers@).reverse()[i] by {
                assert(inc@.map_values(|x: usize| x as nat)[i] == (nc - i) as nat);
                assert(gn[(nc - i) as int] == call_names(f.callers@)[nc - i - 1]);
            }
        }
        assert(strings_view(callees@) =~= call_names(f.callees@).reverse()) by {
            assert forall|i: int| 0 <= i < nd implies #[trigger] strings_view(callees@)[i] == call_names(f.callees@).reverse()[i] by {
                assert(out_idx@.map_values(|x: usize| x as nat)[i] == (nc + nd - i) as nat);
                assert(gn[(nc + nd - i) as int] == call_names(f.callees@)[nd - i - 1]);
            }
        }
    }
    let mut parts: Vec<String> = Vec::new();
    parts.push(owned(f.name.as_str()));
    parts.push(sig);
    let ghost pv = seq![f.name@, spec_signature(*f)];
    assert(strings_view(parts@) =~= pv);
    proof {
        lemma_max_len_two(pv[0], pv[1]);
        assert(pv =~= seq![pv[0], pv[1]]);
    }
    let box_lines = boxed(&parts);
    let callers_row = row(&callers, "(no callers)");
    let callees_row = row(&callees, "(no callees)");
    let bw = block_width(&box_lines);
    let crw = char_count(callers_row.as_str());
    let cew = char_count(callees_row.as_str());
    proof {
        let bx = spec_boxed(pv);
        assert(max_len(bx) < usize::MAX / 2) by {
            lemma_boxed_width(pv);
        }
    }
    let mut width = if bw < crw { crw } else { bw };
    if width < cew {
        width = cew;
    }
    let mut out: Vec<String> = Vec::new();
    let c1 = center(callers_row.as_str(), width);
    let c2 = center("│", width);
    out.push(c1);
    out.push(c2);
    let ghost s1 = strings_view(out@);
    assert(s1 =~= seq![c1@, c2@]);
    push_centered(&mut out, &box_lines, width);
    let ghost s2 = strings_view(out@);
    let c3 = center("│ uses", width);
    let c4 = center(callees_row.as_str(), width);
    out.push(c3);
    out.push(c4);
    assert(strings_view(out@) =~= s2.push(c3@).push(c4@));
    let nl = owned("\n");
    proof {
        reveal_strlit("\n");
        assert(nl@ =~= seq!['\n']);
    }
    assert(strings_view(out@) =~= seq![
        spec_center(callers_row@, width as nat),
        spec_center("│"@, width as nat),
    ] + strings_view(box_lines@).map_values(|l: Seq<char>| spec_center(l, width as nat)) + seq![
        spec_center("│ uses"@, width as nat),
        spec_center(callees_row@, width as nat),
    ]);
    join_strings(&out, nl.as_str())
}

/// The widest line of a box is its border: two wider than the widest line.
proof fn lemma_boxed_width(lines: Seq<Seq<char>>)
    requires
        lines.len() == 2,
        lines[0].len() < usize::MAX / 4,
        lines[1].len() < usize::MAX / 4,
    ensures
        max_len(spec_boxed(lines)) < usize::MAX / 2,
{
    let inner = max_len(lines) + 2;
    lemma_max_len_two(lines[0], lines[1]);
    assert(lines =~= seq![lines[0], lines[1]]);
    let bx = spec_boxed(lines);
    assert forall|i: int| 0 <= i < bx.len() implies #[trigger] bx[i].len() <= inner + 2 by {
        if 1 <= i < 3 {
            let l = lines[i - 1];
            assert(bx[i] == box_line(l, (inner - 2) as nat));
        }
    }
    lemma_max_len_le(bx, inner + 2);
}

/// Every line no longer than `b` bounds the widest.
proof fn lemma_max_len_le(s: Seq<Seq<char>>, b: nat)
    requires
        forall|i: int| 0 <= i < s.len() ==> #[trigger] s[i].len() <= b,
    ensures
        max_len(s) <= b,
    decreases s.len(),
{
    if s.len() > 0 {
        lemma_max_len_le(s.drop_last(), b);
    }
}

// ---------------------------------------------------------------------------
// DOT export
// ---------------------------------------------------------------------------

/// The DOT node label of a function: `name(params) -> return`.
pub open spec fn dot_label(f: FunctionFlow) -> Seq<char> {
    f.name@ + "("@ + join(strings_view(f.params@), ", "@) + ") -> "@ + match f.returns {
        Some(r) => r@,
        None => "?"@,
    }
}

/// Graphviz DOT for the function graph: the function node, its callers with
/// edges into it, its callees with edges out of it.
pub open spec fn spec_function_dot(f: FunctionFlow) -> Seq<char> {
    dot_text(
        seq![dot_label(f)] + call_names(f.callers@) + call_names(f.callees@),
        call_edges(f.callers@.len(), f.callees@.len()),
    )
}

/// Graphviz DOT for the function graph (pipe to `dot -Tsvg`).
pub fn function_dot(f: &FunctionFlow) -> (r: String)
    requires
        f.callers@.len() + f.callees@.len() + 1 < u32::MAX,
    ensures
        r@ == spec_function_dot(*f),
{
    let mut label = owned(f.name.as_str());
    push_str(&mut label, "(");
    let ps = join_strings(&f.params, ", ");
    push_str(&mut label, ps.as_str());
    push_str(&mut label, ") -> ");
    match &f.returns {
        Some(r) => push_str(&mut label, r.as_str()),
        None => push_str(&mut label, "?"),
    }
    assert(label@ =~= dot_label(*f));
    let g = build_call_graph(label, f);
    graph_dot(&g)
}

/// The lifecycle chain's node labels.
pub open spec fn event_labels(events: Seq<VarEvent>) -> Seq<Seq<char>> {
    events.map_values(|e: VarEvent| event_label(e.kind, e.line))
}

/// Chain edges `i → i + 1` over `n` nodes.
pub open spec fn chain_edges(n: nat) -> Seq<(nat, nat)> {
    if n == 0 {
        seq![]
    } else {
        Seq::new((n - 1) as nat, |i: int| (i as nat, (i + 1) as nat))
    }
}

/// Graphviz DOT for a variable's lifecycle chain.
pub open spec fn spec_var_dot(v: VarFlow) -> Seq<char> {
    dot_text(event_labels(v.events@), chain_edges(v.events@.len()))
}

/// Graphviz DOT for a variable's lifecycle chain.
pub fn var_dot(v: &VarFlow) -> (r: String)
    requires
        v.events@.len() < u32::MAX,
    ensures
        r@ == spec_var_dot(*v),
{
    let mut g = graph_new();
    let ev = &v.events;
    let mut i: usize = 0;
    assert(event_labels(ev@.subrange(0, 0)) =~= Seq::<Seq<char>>::empty());
    while i < ev.len()
        invariant
            i <= ev@.len() < u32::MAX,
            graph_nodes(g) == event_labels(ev@.subrange(0, i as int)),
            graph_edges(g) == chain_edges(i as nat),
        decreases ev@.len() - i,
    {
        let mut label = owned(ev[i].kind.label());
        push_str(&mut label, " (line ");
        push_dec(&mut label, ev[i].line);
        push_str(&mut label, ")");
        assert(label@ =~= event_label(ev@[i as int].kind, ev@[i as int].line));
        let n = graph_add_node(&mut g, label);
        assert(event_labels(ev@.subrange(0, i + 1)) =~= event_labels(ev@.subrange(0, i as int)).push(
            event_label(ev@[i as int].kind, ev@[i as int].line),
        ));
        if i > 0 {
            let ghost e0 = graph_edges(g);
            graph_add_edge(&mut g, n - 1, n, "");
            assert(graph_edges(g) =~= chain_edges((i + 1) as nat));
        } else {
            assert(graph_edges(g) =~= chain_edges(1));
        }
        i += 1;
    }
    assert(ev@.subrange(0, ev@.len() as int) =~= ev@);
    graph_dot(&g)
}

} // verus!
