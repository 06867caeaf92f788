//! Python syntax trees as plain values.
//!
//! tree-sitter parses the source; each node of the tree is then read, in
//! pre-order, into a [`PyNode`] of plain values: its kind, its byte span, its
//! start row, its depth below the root, the field it fills in its parent and
//! whether it is named. Every question the analyses ask of the tree (a
//! node's field child, its enclosing function, its subtree, its named
//! children) is answered here by verified code over those values, and stated
//! by the spec functions beside it.

use vstd::prelude::*;

use tree_sitter::{Parser, Tree};

use crate::text::{ascii_text, contains, str_eq};

verus! {

/// A parsed syntax tree.
#[verifier::external_type_specification]
#[verifier::external_body]
pub struct ExTree(Tree);

/// One node of a syntax tree, read into plain values.
pub struct PyNode {
    /// The grammar's name for the node's type (`identifier`, `call`, ...).
    pub kind: String,
    /// The byte offset of its first byte in the source.
    pub start: usize,
    /// The byte offset just past its last byte.
    pub end: usize,
    /// The zero-based row it starts on.
    pub row: usize,
    /// How many ancestors it has (the root has none).
    pub depth: usize,
    /// The field of its parent that it fills, if any.
    pub field: Option<String>,
    /// Whether the grammar names it (punctuation and keywords are unnamed).
    pub named: bool,
}

/// A node by its contents.
pub struct NodeView {
    /// Kind.
    pub kind: Seq<char>,
    /// Start byte.
    pub start: usize,
    /// End byte.
    pub end: usize,
    /// Start row.
    pub row: usize,
    /// Depth.
    pub depth: usize,
    /// Field in the parent.
    pub field: Option<Seq<char>>,
    /// Named.
    pub named: bool,
}

impl View for PyNode {
    type V = NodeView;

    open spec fn view(&self) -> NodeView {
        NodeView {
            kind: self.kind@,
            start: self.start,
            end: self.end,
            row: self.row,
            depth: self.depth,
            field: match self.field {
                Some(f) => Some(f@),
                None => None,
            },
            named: self.named,
        }
    }
}

/// A whole tree: its nodes in pre-order (a node before its children,
/// children left to right), so that node 0 is the root.
pub struct PyTree {
    /// The nodes, in pre-order.
    pub nodes: Vec<PyNode>,
}

impl View for PyTree {
    type V = Seq<NodeView>;

    open spec fn view(&self) -> Seq<NodeView> {
        self.nodes@.map_values(|n: PyNode| n@)
    }
}

/// The nodes a tree-sitter tree holds, in pre-order, as plain values.
pub uninterp spec fn tree_nodes(t: Tree) -> Seq<NodeView>;

/// The tree tree-sitter's Python grammar gives for a source text.
pub uninterp spec fn python_tree(src: Seq<char>) -> Seq<NodeView>;

/// The text of the bytes `start..end` of a text, as `str::get` gives it:
/// none where the range is out of bounds or cuts a character.
pub uninterp spec fn byte_range(s: Seq<char>, start: usize, end: usize) -> Option<Seq<char>>;

/// The nodes of a tree, if there is one.
pub open spec fn nodes_of(t: Option<Tree>) -> Option<Seq<NodeView>> {
    match t {
        Some(t) => Some(tree_nodes(t)),
        None => None,
    }
}

/// `Parser::new`, `Parser::set_language` with `tree_sitter_python::language`,
/// then `Parser::parse` of `src` with no previous tree. The grammar's ABI
/// version (14) is one this tree-sitter accepts (13 to 14), and no timeout
/// or cancellation flag is set, so a tree always comes back; which tree is
/// tree-sitter's to say, a function of the source alone.
#[verifier::external_body]
fn parse_source(src: &str) -> (r: Option<Tree>)
    ensures
        nodes_of(r) == Some(python_tree(src@)),
{
    let mut parser = Parser::new();
    parser.set_language(&tree_sitter_python::language()).ok()?;
    parser.parse(src, None)
}

/// `Node::descendant_count` of the root: the number of nodes of the tree,
/// the root included.
#[verifier::external_body]
fn node_count(t: &Tree) -> (r: usize)
    ensures
        r == tree_nodes(*t).len(),
{
    t.root_node().descendant_count()
}

/// Node `i` of the tree in pre-order: `TreeCursor::goto_descendant(i)` from
/// the root, then the node's `kind`, `start_byte`, `end_byte`,
/// `start_position().row` and `is_named`, with the cursor's `depth` and
/// `field_name`.
#[verifier::external_body]
fn node_at(t: &Tree, i: usize) -> (r: PyNode)
    requires
        i < tree_nodes(*t).len(),
    ensures
        r@ == tree_nodes(*t)[i as int],
{
    let mut c = t.walk();
    c.goto_descendant(i);
    let n = c.node();
    let field = c.field_name().map(String::from);
    PyNode {
        kind: n.kind().to_string(),
        start: n.start_byte(),
        end: n.end_byte(),
        row: n.start_position().row,
        depth: c.depth() as usize,
        field,
        named: n.is_named(),
    }
}

/// `str::get` with the byte range `start..end`, the slice copied out: it
/// never panics, and a slice it gives is text of `s`. On ASCII text a byte
/// is a character, so the slice is exactly the characters `start..end` when
/// `start <= end <= s.len()`.
#[verifier::external_body]
fn byte_slice(s: &str, start: usize, end: usize) -> (r: Option<String>)
    ensures
        opt_string_view(r) == byte_range(s@, start, end),
        r is Some ==> contains(s@, r.unwrap()@),
        ascii_text(s@) ==> (r is Some <==> start <= end <= s@.len()),
        ascii_text(s@) && start <= end <= s@.len() ==> opt_string_view(r) == Some(
            s@.subrange(start as int, end as int),
        ),
{
    s.get(start..end).map(String::from)
}

/// Parse `src` as Python: the nodes of its tree, in pre-order.
pub fn parse_tree(src: &str) -> (t: PyTree)
    ensures
        t@ == python_tree(src@),
{
    let parsed = parse_source(src);
    let tree = match parsed {
        Some(t) => t,
        None => {
            return PyTree { nodes: Vec::new() };
        },
    };
    let n = node_count(&tree);
    let mut nodes: Vec<PyNode> = Vec::new();
    let mut i: usize = 0;
    while i < n
        invariant
            i <= n == tree_nodes(tree).len(),
            nodes@.map_values(|x: PyNode| x@) == tree_nodes(tree).subrange(0, i as int),
        decreases n - i,
    {
        let node = node_at(&tree, i);
        let ghost before = nodes@;
        nodes.push(node);
        assert(nodes@.map_values(|x: PyNode| x@) =~= before.map_values(|x: PyNode| x@).push(node@));
        assert(tree_nodes(tree).subrange(0, i + 1) =~= tree_nodes(tree).subrange(0, i as int).push(
            tree_nodes(tree)[i as int],
        ));
        i += 1;
    }
    assert(tree_nodes(tree).subrange(0, n as int) =~= tree_nodes(tree));
    PyTree { nodes }
}

// ---------------------------------------------------------------------------
// Reading a node
// ---------------------------------------------------------------------------

/// A node's text: its byte span of the source, empty where the span cannot
/// be read (as `Node::utf8_text(..).unwrap_or("")` reads it, without the
/// panic on a span past the end).
pub open spec fn node_text(src: Seq<char>, n: NodeView) -> Seq<char> {
    match byte_range(src, n.start, n.end) {
        Some(x) => x,
        None => seq![],
    }
}

/// The one-based line a node starts on (its row where one more would not
/// fit).
pub open spec fn node_line(n: NodeView) -> usize {
    if n.row < usize::MAX {
        (n.row + 1) as usize
    } else {
        n.row
    }
}

/// The text of a node.
pub fn text_of(src: &str, n: &PyNode) -> (r: String)
    ensures
        r@ == node_text(src@, n@),
{
    match byte_slice(src, n.start, n.end) {
        Some(x) => x,
        None => String::new(),
    }
}

/// The line of a node.
pub fn line_of(n: &PyNode) -> (r: usize)
    ensures
        r == node_line(n@),
        r >= 1,
{
    if n.row < usize::MAX {
        n.row + 1
    } else {
        n.row
    }
}

// ---------------------------------------------------------------------------
// The shape of the tree
// ---------------------------------------------------------------------------

/// Whether node `i` is of kind `k`.
pub open spec fn is_kind(t: Seq<NodeView>, i: int, k: Seq<char>) -> bool {
    0 <= i < t.len() && t[i].kind == k
}

/// The first child of `j` filling field `f`, looking from node `k` on within
/// `j`'s subtree (`Node::child_by_field_name`).
pub open spec fn field_child_from(t: Seq<NodeView>, j: int, f: Seq<char>, k: int) -> Option<int>
    decreases t.len() - k,
{
    if k < 0 || k >= t.len() || j < 0 || j >= t.len() || t[k].depth <= t[j].depth {
        None
    } else if t[k].depth == t[j].depth + 1 && t[k].field == Some(f) {
        Some(k)
    } else {
        field_child_from(t, j, f, k + 1)
    }
}

/// The first child of `j` filling field `f`.
pub open spec fn field_child(t: Seq<NodeView>, j: int, f: Seq<char>) -> Option<int> {
    field_child_from(t, j, f, j + 1)
}

/// Where the subtree of `j` ends, looking from node `k` on: the first node
/// no deeper than `j`, or the end of the tree.
pub open spec fn subtree_end_from(t: Seq<NodeView>, j: int, k: int) -> int
    decreases t.len() - k,
{
    if k < 0 || k >= t.len() || j < 0 || j >= t.len() || t[k].depth <= t[j].depth {
        k
    } else {
        subtree_end_from(t, j, k + 1)
    }
}

/// The end of `j`'s subtree: its nodes are `j..subtree_end(t, j)`.
pub open spec fn subtree_end(t: Seq<NodeView>, j: int) -> int {
    subtree_end_from(t, j, j + 1)
}

/// The nearest `function_definition` among the nodes before `j` that are
/// shallower than `d` and than every node between them and `j`: the
/// nearest such ancestor of the node at `j` when `d` is its depth.
pub open spec fn enclosing_def_from(t: Seq<NodeView>, j: int, d: usize) -> Option<int>
    decreases j,
{
    if j <= 0 || j > t.len() {
        None
    } else if t[j - 1].depth < d {
        if t[j - 1].kind == "function_definition"@ {
            Some(j - 1)
        } else {
            enclosing_def_from(t, j - 1, t[j - 1].depth)
        }
    } else {
        enclosing_def_from(t, j - 1, d)
    }
}

/// The nearest `function_definition` enclosing node `k`.
pub open spec fn enclosing_def(t: Seq<NodeView>, k: int) -> Option<int> {
    if 0 <= k < t.len() {
        enclosing_def_from(t, k, t[k].depth)
    } else {
        None
    }
}

/// The name of the function enclosing node `k`: the text of the `name`
/// field of its nearest enclosing `function_definition`.
pub open spec fn enclosing_name(src: Seq<char>, t: Seq<NodeView>, k: int) -> Option<Seq<char>> {
    match enclosing_def(t, k) {
        Some(p) => match field_child(t, p, "name"@) {
            Some(q) => Some(node_text(src, t[q])),
            None => None,
        },
        None => None,
    }
}

/// The named children of `j` among the nodes before `k`, in order.
pub open spec fn named_children_upto(t: Seq<NodeView>, j: int, k: int) -> Seq<int>
    decreases k - j,
{
    if k <= j + 1 || j < 0 || k > t.len() {
        seq![]
    } else {
        let p = named_children_upto(t, j, k - 1);
        if t[k - 1].depth == t[j].depth + 1 && t[k - 1].named {
            p.push(k - 1)
        } else {
            p
        }
    }
}

/// The named children of `j`, in order (`Node::named_child`).
pub open spec fn named_children(t: Seq<NodeView>, j: int) -> Seq<int> {
    named_children_upto(t, j, subtree_end(t, j))
}

/// The callee name of a `call` node: the text of its `function` field when
/// that is an identifier or a dotted attribute.
pub open spec fn call_name_of(src: Seq<char>, t: Seq<NodeView>, k: int) -> Option<Seq<char>> {
    match field_child(t, k, "function"@) {
        Some(f) => if t[f].kind == "identifier"@ || t[f].kind == "attribute"@ {
            Some(node_text(src, t[f]))
        } else {
            None
        },
        None => None,
    }
}

/// An index as an integer.
pub open spec fn opt_int(o: Option<usize>) -> Option<int> {
    match o {
        Some(k) => Some(k as int),
        None => None,
    }
}

impl PyTree {
    /// The first child of `j` filling field `f`.
    pub fn field_child(&self, j: usize, f: &str) -> (r: Option<usize>)
        requires
            j < self@.len(),
        ensures
            opt_int(r) == field_child(self@, j as int, f@),
            r matches Some(k) ==> j < k < self@.len(),
    {
        let t = &self.nodes;
        let ghost v = self@;
        assert(v.len() == t@.len());
        let len = t.len();
        assert(j < len);
        let mut k = j + 1;
        while k < t.len() && t[k].depth > t[j].depth
            invariant
                j < k <= t@.len(),
                v == self@,
                v == t@.map_values(|n: PyNode| n@),
                field_child(v, j as int, f@) == field_child_from(v, j as int, f@, k as int),
            decreases t@.len() - k,
        {
            assert(v[k as int] == t@[k as int]@);
            assert(v[j as int] == t@[j as int]@);
            if t[k].depth == t[j].depth + 1 {
                match &t[k].field {
                    Some(name) => {
                        if str_eq(name.as_str(), f) {
                            return Some(k);
                        }
                    },
                    None => {},
                }
            }
            k += 1;
        }
        if k < t.len() {
            assert(v[k as int] == t@[k as int]@);
            assert(v[j as int] == t@[j as int]@);
        }
        None
    }

    /// The end of `j`'s subtree.
    pub fn subtree_end(&self, j: usize) -> (r: usize)
        requires
            j < self@.len(),
        ensures
            r == subtree_end(self@, j as int),
            j < r <= self@.len(),
    {
        let t = &self.nodes;
        let ghost v = self@;
        assert(v.len() == t@.len());
        let len = t.len();
        assert(j < len);
        let mut k = j + 1;
        while k < t.len() && t[k].depth > t[j].depth
            invariant
                j < k <= t@.len(),
                v == t@.map_values(|n: PyNode| n@),
                subtree_end(v, j as int) == subtree_end_from(v, j as int, k as int),
            decreases t@.len() - k,
        {
            assert(v[k as int] == t@[k as int]@);
            assert(v[j as int] == t@[j as int]@);
            k += 1;
        }
        if k < t.len() {
            assert(v[k as int] == t@[k as int]@);
            assert(v[j as int] == t@[j as int]@);
        }
        k
    }

    /// The name of the function enclosing node `k`.
    pub fn enclosing_name(&self, src: &str, k: usize) -> (r: Option<String>)
        requires
            k < self@.len(),
        ensures
            opt_string_view(r) == enclosing_name(src@, self@, k as int),
    {
        let t = &self.nodes;
        let ghost v = self@;
        assert(v.len() == t@.len());
        let mut j = k;
        let mut d = t[k].depth;
        assert(v[k as int] == t@[k as int]@);
        while j > 0
            invariant
                j <= k < t@.len(),
                v == self@,
                t == &self.nodes,
                v == t@.map_values(|n: PyNode| n@),
                enclosing_def(v, k as int) == enclosing_def_from(v, j as int, d),
            decreases j,
        {
            assert(v[j - 1] == t@[j - 1]@);
            if t[j - 1].depth < d {
                if str_eq(t[j - 1].kind.as_str(), "function_definition") {
                    let p = j - 1;
                    return match self.field_child(p, "name") {
                        Some(q) => Some(text_of(src, &t[q])),
                        None => None,
                    };
                }
                d = t[j - 1].depth;
            }
            j -= 1;
        }
        None
    }

    /// The named children of `j`, in order.
    pub fn named_children(&self, j: usize) -> (r: Vec<usize>)
        requires
            j < self@.len(),
        ensures
            r@.map_values(|k: usize| k as int) == named_children(self@, j as int),
            forall|i: int| 0 <= i < r@.len() ==> j < #[trigger] r@[i] < self@.len(),
    {
        let t = &self.nodes;
        let ghost v = self@;
        assert(v.len() == t@.len());
        let end = self.subtree_end(j);
        let mut r: Vec<usize> = Vec::new();
        let mut k = j + 1;
        assert(r@.map_values(|k: usize| k as int) =~= named_children_upto(v, j as int, k as int));
        while k < end
            invariant
                j < k <= end <= t@.len(),
                v == t@.map_values(|n: PyNode| n@),
                end == subtree_end(v, j as int),
                r@.map_values(|k: usize| k as int) == named_children_upto(v, j as int, k as int),
                forall|i: int| 0 <= i < r@.len() ==> j < #[trigger] r@[i] < t@.len(),
            decreases end - k,
        {
            assert(v[k as int] == t@[k as int]@);
            assert(v[j as int] == t@[j as int]@);
            if t[k].depth == t[j].depth + 1 && t[k].named {
                let ghost before = r@;
                r.push(k);
                assert(r@.map_values(|k: usize| k as int) =~= before.map_values(|k: usize| k as int).push(
                    k as int,
                ));
            }
            k += 1;
        }
        r
    }

    /// The callee name of a `call` node.
    pub fn call_name(&self, src: &str, k: usize) -> (r: Option<String>)
        requires
            k < self@.len(),
        ensures
            opt_string_view(r) == call_name_of(src@, self@, k as int),
    {
        let t = &self.nodes;
        let ghost v = self@;
        assert(v.len() == t@.len());
        match self.field_child(k, "function") {
            Some(f) => {
                assert(v[f as int] == t@[f as int]@);
                if str_eq(t[f].kind.as_str(), "identifier") || str_eq(t[f].kind.as_str(), "attribute") {
                    Some(text_of(src, &t[f]))
                } else {
                    None
                }
            },
            None => None,
        }
    }
}

/// An optional string by its characters.
pub open spec fn opt_string_view(o: Option<String>) -> Option<Seq<char>> {
    match o {
        Some(s) => Some(s@),
        None => None,
    }
}

} // verus!
