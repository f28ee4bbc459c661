//! Graph inputs for the knowledge space: the tiers, node and edge kinds,
//! and the builders that turn notes, snippets and knots into edges and node
//! plans. Positions and glyphs (floating point) are attached by the caller.

use vstd::prelude::*;
use vstd::string::*;
use crate::decimal::{decimal, push_decimal};

verus! {

/// The tier of the knowledge space that is on display.
#[derive(Clone, Copy, Debug, PartialEq, Eq, Structural)]
pub enum SpaceTier {
    Snippet,
    Note,
    KnotIntermediate,
    KnotRoot,
}

/// What a graph node stands for.
#[derive(Clone, Copy, Debug, PartialEq, Eq, Structural)]
pub enum NodeKind {
    Snippet,
    Note,
    Knot,
}

/// The mesh a node is drawn with.
#[derive(Clone, Copy, Debug, PartialEq, Eq, Structural)]
pub enum MeshKind {
    Sphere,
    Cube,
    Capsule,
}

/// Why two nodes are linked.
#[derive(Clone, Copy, Debug, PartialEq, Eq, Structural)]
pub enum EdgeKind {
    NoteMembership,
    KnotMembership,
    ParentChild,
}

/// An edge between two nodes, named by their ids.
#[derive(Clone, Debug, PartialEq)]
pub struct GraphEdgeInput {
    pub from: String,
    pub to: String,
    pub kind: EdgeKind,
    pub visible: bool,
}

/// The mathematical value of an edge.
pub struct EdgeView {
    pub from: Seq<char>,
    pub to: Seq<char>,
    pub kind: EdgeKind,
    pub visible: bool,
}

impl View for GraphEdgeInput {
    type V = EdgeView;

    open spec fn view(&self) -> EdgeView {
        EdgeView { from: self.from@, to: self.to@, kind: self.kind, visible: self.visible }
    }
}

/// The views of a sequence of strings.
pub open spec fn strs(s: Seq<String>) -> Seq<Seq<char>> {
    s.map_values(|x: String| x@)
}

/// The views of a sequence of edges.
pub open spec fn edges_view(s: Seq<GraphEdgeInput>) -> Seq<EdgeView> {
    s.map_values(|e: GraphEdgeInput| e@)
}

/// The edges from `ids[i]` to every later id, in order.
pub open spec fn pair_row(ids: Seq<Seq<char>>, i: int, kind: EdgeKind, visible: bool) -> Seq<EdgeView> {
    ids.subrange(i + 1, ids.len() as int).map_values(
        |to: Seq<char>| EdgeView { from: ids[i], to, kind, visible },
    )
}

/// The rows of the first `n` ids, concatenated.
pub open spec fn pair_rows(ids: Seq<Seq<char>>, n: nat, kind: EdgeKind, visible: bool) -> Seq<EdgeView>
    decreases n,
{
    if n == 0 {
        Seq::empty()
    } else {
        pair_rows(ids, (n - 1) as nat, kind, visible) + pair_row(ids, n - 1, kind, visible)
    }
}

/// One edge for every pair `i < j` of positions in `ids`, ordered by `i` then `j`.
pub open spec fn pairwise_spec(ids: Seq<Seq<char>>, kind: EdgeKind, visible: bool) -> Seq<EdgeView> {
    pair_rows(ids, ids.len(), kind, visible)
}

/// Builds one edge for every pair of ids `(ids[i], ids[j])` with `i < j`,
/// ordered by `i` and then by `j`, all of the given kind and visibility.
pub fn pairwise_edges(ids: &[String], kind: EdgeKind, visible: bool) -> (edges: Vec<GraphEdgeInput>)
    ensures
        edges_view(edges@) == pairwise_spec(strs(ids@), kind, visible),
{
    let ghost v = strs(ids@);
    let n = ids.len();
    let mut edges: Vec<GraphEdgeInput> = Vec::new();
    let mut i: usize = 0;
    while i < n
        invariant
            0 <= i <= n,
            n == ids@.len(),
            v == strs(ids@),
            edges_view(edges@) == pair_rows(v, i as nat, kind, visible),
        decreases n - i,
    {
        let mut j: usize = i + 1;
        while j < n
            invariant
                i < n,
                i + 1 <= j <= n,
                n == ids@.len(),
                v == strs(ids@),
                edges_view(edges@) == pair_rows(v, i as nat, kind, visible) + pair_row(
                    v,
                    i as int,
                    kind,
                    visible,
                ).take(j - i - 1),
            decreases n - j,
        {
            let ghost before = edges@;
            edges.push(GraphEdgeInput { from: ids[i].clone(), to: ids[j].clone(), kind, visible });
            assert(pair_row(v, i as int, kind, visible).take(j - i) =~= pair_row(
                v,
                i as int,
                kind,
                visible,
            ).take(j - i - 1).push(EdgeView { from: v[i as int], to: v[j as int], kind, visible }));
            assert(edges_view(edges@) =~= edges_view(before).push(edges@.last()@));
            j = j + 1;
        }
        assert(pair_row(v, i as int, kind, visible).take(n - i - 1) =~= pair_row(
            v,
            i as int,
            kind,
            visible,
        ));
        i = i + 1;
    }
    edges
}

/// A knot as the graph builders read it: its id, optional label, the ids of
/// its child knots and the ids of the notes it gathers.
#[derive(Clone, Debug, PartialEq)]
pub struct KnotInput {
    pub id: String,
    pub label: Option<String>,
    pub child_knot_ids: Vec<String>,
    pub note_ids: Vec<String>,
}

/// A note as the graph builders read it.
#[derive(Clone, Debug, PartialEq)]
pub struct NoteInput {
    pub id: String,
    pub snippet_count: usize,
}

/// The snippets of one note as the graph builders read them.
#[derive(Clone, Debug, PartialEq)]
pub struct SnippetInput {
    pub note_id: String,
    pub snippet_count: usize,
}

/// The membership edges of the first `n` knots: every pair of notes of a knot.
pub open spec fn knot_note_edges(knots: Seq<KnotInput>, n: nat) -> Seq<EdgeView>
    decreases n,
{
    if n == 0 {
        Seq::empty()
    } else {
        knot_note_edges(knots, (n - 1) as nat) + pairwise_spec(
            strs(knots[n - 1].note_ids@),
            EdgeKind::KnotMembership,
            true,
        )
    }
}

/// For every knot, in order, a visible `KnotMembership` edge between every
/// pair of its notes (see `pairwise_edges`).
pub fn build_note_edges(knot_inputs: &[KnotInput]) -> (edges: Vec<GraphEdgeInput>)
    ensures
        edges_view(edges@) == knot_note_edges(knot_inputs@, knot_inputs@.len()),
{
    let mut edges: Vec<GraphEdgeInput> = Vec::new();
    let n = knot_inputs.len();
    let mut k: usize = 0;
    while k < n
        invariant
            k <= n,
            n == knot_inputs@.len(),
            edges_view(edges@) == knot_note_edges(knot_inputs@, k as nat),
        decreases n - k,
    {
        let mut row = pairwise_edges(knot_inputs[k].note_ids.as_slice(), EdgeKind::KnotMembership, true);
        let ghost before = edges@;
        let ghost r = row@;
        edges.append(&mut row);
        assert(edges_view(edges@) =~= edges_view(before) + edges_view(r));
        k = k + 1;
    }
    edges
}

/// The parent-to-child edges of one knot, in the order of its children.
pub open spec fn child_row(knot: KnotInput) -> Seq<EdgeView> {
    strs(knot.child_knot_ids@).map_values(
        |c: Seq<char>| EdgeView { from: knot.id@, to: c, kind: EdgeKind::ParentChild, visible: true },
    )
}

/// The parent-to-child edges of the first `n` knots.
pub open spec fn knot_child_edges(knots: Seq<KnotInput>, n: nat) -> Seq<EdgeView>
    decreases n,
{
    if n == 0 {
        Seq::empty()
    } else {
        knot_child_edges(knots, (n - 1) as nat) + child_row(knots[n - 1])
    }
}

/// For every knot, in order, a visible `ParentChild` edge from the knot to
/// each of its children, in order.
pub fn build_knot_intermediate_edges(knot_inputs: &[KnotInput]) -> (edges: Vec<GraphEdgeInput>)
    ensures
        edges_view(edges@) == knot_child_edges(knot_inputs@, knot_inputs@.len()),
{
    let mut edges: Vec<GraphEdgeInput> = Vec::new();
    let n = knot_inputs.len();
    let mut k: usize = 0;
    while k < n
        invariant
            k <= n,
            n == knot_inputs@.len(),
            edges_view(edges@) == knot_child_edges(knot_inputs@, k as nat),
        decreases n - k,
    {
        let input = &knot_inputs[k];
        let m = input.child_knot_ids.len();
        let mut c: usize = 0;
        while c < m
            invariant
                k < n,
                n == knot_inputs@.len(),
                *input == knot_inputs@[k as int],
                m == input.child_knot_ids@.len(),
                c <= m,
                edges_view(edges@) == knot_child_edges(knot_inputs@, k as nat) + child_row(*input).take(c as int),
            decreases m - c,
        {
            let ghost before = edges@;
            edges.push(
                GraphEdgeInput {
                    from: input.id.clone(),
                    to: input.child_knot_ids[c].clone(),
                    kind: EdgeKind::ParentChild,
                    visible: true,
                },
            );
            assert(child_row(*input).take(c + 1) =~= child_row(*input).take(c as int).push(edges@.last()@));
            assert(edges_view(edges@) =~= edges_view(before).push(edges@.last()@));
            c = c + 1;
        }
        assert(child_row(*input).take(m as int) =~= child_row(*input));
        k = k + 1;
    }
    edges
}

/// The text that opens every synthetic snippet id.
pub open spec fn snippet_prefix() -> Seq<char> {
    seq!['s', 'n', 'i', 'p', 'p', 'e', 't', ':']
}

/// The synthetic id of the `index`-th snippet of a note: `snippet:{note_id}:{index}`.
pub open spec fn snippet_id(note_id: Seq<char>, index: nat) -> Seq<char> {
    snippet_prefix() + note_id + seq![':'] + decimal(index)
}

/// The synthetic ids of the first `count` snippets of a note.
pub open spec fn snippet_ids_spec(note_id: Seq<char>, count: nat) -> Seq<Seq<char>> {
    Seq::new(count, |i: int| snippet_id(note_id, i as nat))
}

/// Renders `snippet:{note_id}:{index}`.
pub fn snippet_id_string(note_id: &String, index: usize) -> (s: String)
    ensures
        s@ == snippet_id(note_id@, index as nat),
{
    proof {
        reveal_strlit("snippet:");
        reveal_strlit(":");
    }
    let mut s = String::from_str("snippet:");
    s.append(note_id.as_str());
    s.append(":");
    push_decimal(&mut s, index as u64);
    assert(s@ =~= snippet_id(note_id@, index as nat));
    s
}

/// The synthetic ids of the first `count` snippets of a note, in order.
pub fn snippet_ids(note_id: &String, count: usize) -> (ids: Vec<String>)
    ensures
        strs(ids@) == snippet_ids_spec(note_id@, count as nat),
{
    let mut ids: Vec<String> = Vec::new();
    let mut i: usize = 0;
    while i < count
        invariant
            i <= count,
            strs(ids@) == snippet_ids_spec(note_id@, i as nat),
        decreases count - i,
    {
        let id = snippet_id_string(note_id, i);
        let ghost before = ids@;
        ids.push(id);
        assert(strs(ids@) =~= strs(before).push(ids@.last()@));
        assert(snippet_ids_spec(note_id@, (i + 1) as nat) =~= snippet_ids_spec(note_id@, i as nat).push(
            snippet_id(note_id@, i as nat),
        ));
        i = i + 1;
    }
    ids
}

/// The membership edges of the snippets of the first `n` notes.
pub open spec fn snippet_edges_spec(inputs: Seq<SnippetInput>, n: nat) -> Seq<EdgeView>
    decreases n,
{
    if n == 0 {
        Seq::empty()
    } else {
        snippet_edges_spec(inputs, (n - 1) as nat) + pairwise_spec(
            snippet_ids_spec(inputs[n - 1].note_id@, inputs[n - 1].snippet_count as nat),
            EdgeKind::NoteMembership,
            false,
        )
    }
}

/// For every note, in order, a hidden `NoteMembership` edge between every
/// pair of its snippets, named by their synthetic ids.
pub fn build_snippet_edges(inputs: &[SnippetInput]) -> (edges: Vec<GraphEdgeInput>)
    ensures
        edges_view(edges@) == snippet_edges_spec(inputs@, inputs@.len()),
{
    let mut edges: Vec<GraphEdgeInput> = Vec::new();
    let n = inputs.len();
    let mut k: usize = 0;
    while k < n
        invariant
            k <= n,
            n == inputs@.len(),
            edges_view(edges@) == snippet_edges_spec(inputs@, k as nat),
        decreases n - k,
    {
        let ids = snippet_ids(&inputs[k].note_id, inputs[k].snippet_count);
        let mut row = pairwise_edges(ids.as_slice(), EdgeKind::NoteMembership, false);
        let ghost before = edges@;
        let ghost r = row@;
        edges.append(&mut row);
        assert(edges_view(edges@) =~= edges_view(before) + edges_view(r));
        k = k + 1;
    }
    edges
}

/// Colour of note nodes.
pub const NOTE_COLOR: [u8; 4] = [120, 210, 165, 255];

/// Colour of snippet nodes.
pub const SNIPPET_COLOR: [u8; 4] = [118, 167, 255, 255];

/// Colour of knot nodes in the intermediate tier.
pub const KNOT_INTERMEDIATE_COLOR: [u8; 4] = [252, 200, 114, 255];

/// Colour of knot nodes in the root tier.
pub const KNOT_ROOT_COLOR: [u8; 4] = [250, 186, 120, 255];

/// Everything about a graph node except where it stands and its glyph:
/// `layout_index` is its slot in the layout (its index in the batch whose
/// positions are computed, or its cell in a grid).
#[derive(Clone, Debug, PartialEq)]
pub struct NodePlan {
    pub id: String,
    pub kind: NodeKind,
    pub group_id: Option<String>,
    pub mesh_kind: MeshKind,
    pub color: [u8; 4],
    pub layout_index: usize,
}

/// The mathematical value of a node plan, without its layout slot.
pub struct NodeView {
    pub id: Seq<char>,
    pub kind: NodeKind,
    pub group_id: Option<Seq<char>>,
    pub mesh_kind: MeshKind,
    pub color: [u8; 4],
}

/// The view of an optional string.
pub open spec fn opt_str(o: Option<String>) -> Option<Seq<char>> {
    match o {
        Some(s) => Some(s@),
        None => None,
    }
}

impl View for NodePlan {
    type V = NodeView;

    open spec fn view(&self) -> NodeView {
        NodeView {
            id: self.id@,
            kind: self.kind,
            group_id: opt_str(self.group_id),
            mesh_kind: self.mesh_kind,
            color: self.color,
        }
    }
}

/// The views of a sequence of node plans.
pub open spec fn nodes_view(s: Seq<NodePlan>) -> Seq<NodeView> {
    s.map_values(|n: NodePlan| n@)
}

/// Node `k` of a batch occupies layout slot `k`.
pub open spec fn slots_in_order(s: Seq<NodePlan>) -> bool {
    forall|k: int| 0 <= k < s.len() ==> #[trigger] s[k].layout_index == k
}

/// The node of a note.
pub open spec fn note_node(input: NoteInput) -> NodeView {
    NodeView {
        id: input.id@,
        kind: NodeKind::Note,
        group_id: None,
        mesh_kind: MeshKind::Cube,
        color: NOTE_COLOR,
    }
}

/// One `Note` node per note, in order: a cube in the note colour, with no
/// group, in layout slot `k` for the `k`-th note.
pub fn plan_note_nodes(inputs: &[NoteInput]) -> (plans: Vec<NodePlan>)
    ensures
        nodes_view(plans@) == inputs@.map_values(|i: NoteInput| note_node(i)),
        slots_in_order(plans@),
{
    let mut plans: Vec<NodePlan> = Vec::new();
    let n = inputs.len();
    let mut k: usize = 0;
    while k < n
        invariant
            k <= n,
            n == inputs@.len(),
            nodes_view(plans@) == inputs@.take(k as int).map_values(|i: NoteInput| note_node(i)),
            slots_in_order(plans@),
        decreases n - k,
    {
        let ghost before = plans@;
        plans.push(
            NodePlan {
                id: inputs[k].id.clone(),
                kind: NodeKind::Note,
                group_id: None,
                mesh_kind: MeshKind::Cube,
                color: NOTE_COLOR,
                layout_index: k,
            },
        );
        assert(inputs@.take(k + 1) =~= inputs@.take(k as int).push(inputs@[k as int]));
        assert(nodes_view(plans@) =~= nodes_view(before).push(plans@.last()@));
        assert(nodes_view(plans@) =~= inputs@.take(k + 1).map_values(|i: NoteInput| note_node(i)));
        k = k + 1;
    }
    assert(inputs@.take(n as int) =~= inputs@);
    plans
}

/// The node of the `index`-th snippet of a note.
pub open spec fn snippet_node(note_id: Seq<char>, index: nat) -> NodeView {
    NodeView {
        id: snippet_id(note_id, index),
        kind: NodeKind::Snippet,
        group_id: Some(note_id),
        mesh_kind: MeshKind::Sphere,
        color: SNIPPET_COLOR,
    }
}

/// The snippet nodes of one note.
pub open spec fn snippet_row(input: SnippetInput) -> Seq<NodeView> {
    Seq::new(input.snippet_count as nat, |i: int| snippet_node(input.note_id@, i as nat))
}

/// The snippet nodes of the first `n` notes.
pub open spec fn snippet_nodes_spec(inputs: Seq<SnippetInput>, n: nat) -> Seq<NodeView>
    decreases n,
{
    if n == 0 {
        Seq::empty()
    } else {
        snippet_nodes_spec(inputs, (n - 1) as nat) + snippet_row(inputs[n - 1])
    }
}

/// One `Snippet` node per snippet, note after note: a sphere in the snippet
/// colour, grouped under its note, with its synthetic id, in layout slot `k`
/// for the `k`-th snippet overall.
pub fn plan_snippet_nodes(inputs: &[SnippetInput]) -> (plans: Vec<NodePlan>)
    ensures
        nodes_view(plans@) == snippet_nodes_spec(inputs@, inputs@.len()),
        slots_in_order(plans@),
{
    let mut plans: Vec<NodePlan> = Vec::new();
    let n = inputs.len();
    let mut k: usize = 0;
    while k < n
        invariant
            k <= n,
            n == inputs@.len(),
            nodes_view(plans@) == snippet_nodes_spec(inputs@, k as nat),
            slots_in_order(plans@),
        decreases n - k,
    {
        let input = &inputs[k];
        let count = input.snippet_count;
        let mut i: usize = 0;
        while i < count
            invariant
                k < n,
                n == inputs@.len(),
                *input == inputs@[k as int],
                count == input.snippet_count,
                i <= count,
                nodes_view(plans@) == snippet_nodes_spec(inputs@, k as nat) + snippet_row(*input).take(i as int),
                slots_in_order(plans@),
            decreases count - i,
        {
            let ghost before = plans@;
            let slot = plans.len();
            plans.push(
                NodePlan {
                    id: snippet_id_string(&input.note_id, i),
                    kind: NodeKind::Snippet,
                    group_id: Some(input.note_id.clone()),
                    mesh_kind: MeshKind::Sphere,
                    color: SNIPPET_COLOR,
                    layout_index: slot,
                },
            );
            assert(snippet_row(*input).take(i + 1) =~= snippet_row(*input).take(i as int).push(
                snippet_node(input.note_id@, i as nat),
            ));
            assert(nodes_view(plans@) =~= nodes_view(before).push(plans@.last()@));
            i = i + 1;
        }
        assert(snippet_row(*input).take(count as int) =~= snippet_row(*input));
        k = k + 1;
    }
    plans
}

/// The node of a knot in the given colour.
pub open spec fn knot_node(id: Seq<char>, color: [u8; 4]) -> NodeView {
    NodeView { id, kind: NodeKind::Knot, group_id: None, mesh_kind: MeshKind::Capsule, color }
}

/// One `Knot` node per knot, in order: a capsule in the intermediate colour,
/// with no group, in grid slot `k` for the `k`-th knot.
pub fn plan_knot_intermediate_nodes(knot_inputs: &[KnotInput]) -> (plans: Vec<NodePlan>)
    ensures
        nodes_view(plans@) == knot_inputs@.map_values(
            |k: KnotInput| knot_node(k.id@, KNOT_INTERMEDIATE_COLOR),
        ),
        slots_in_order(plans@),
{
    let mut plans: Vec<NodePlan> = Vec::new();
    let n = knot_inputs.len();
    let mut k: usize = 0;
    while k < n
        invariant
            k <= n,
            n == knot_inputs@.len(),
            nodes_view(plans@) == knot_inputs@.take(k as int).map_values(
                |k: KnotInput| knot_node(k.id@, KNOT_INTERMEDIATE_COLOR),
            ),
            slots_in_order(plans@),
        decreases n - k,
    {
        let ghost before = plans@;
        plans.push(
            NodePlan {
                id: knot_inputs[k].id.clone(),
                kind: NodeKind::Knot,
                group_id: None,
                mesh_kind: MeshKind::Capsule,
                color: KNOT_INTERMEDIATE_COLOR,
                layout_index: k,
            },
        );
        assert(knot_inputs@.take(k + 1) =~= knot_inputs@.take(k as int).push(knot_inputs@[k as int]));
        assert(nodes_view(plans@) =~= nodes_view(before).push(plans@.last()@));
        assert(nodes_view(plans@) =~= knot_inputs@.take(k + 1).map_values(
            |k: KnotInput| knot_node(k.id@, KNOT_INTERMEDIATE_COLOR),
        ));
        k = k + 1;
    }
    assert(knot_inputs@.take(n as int) =~= knot_inputs@);
    plans
}

/// Some knot of `knots` names `id` among its children.
pub open spec fn is_child_id(knots: Seq<KnotInput>, id: Seq<char>) -> bool {
    exists|k: int, c: int|
        0 <= k < knots.len() && 0 <= c < knots[k].child_knot_ids@.len() && #[trigger] knots[k].child_knot_ids@[c]@
            == id
}

/// The ids of the first `n` knots of `knots` that are nobody's child, in order.
pub open spec fn root_ids(knots: Seq<KnotInput>, n: nat) -> Seq<Seq<char>>
    decreases n,
{
    if n == 0 {
        Seq::empty()
    } else if is_child_id(knots, knots[n - 1].id@) {
        root_ids(knots, (n - 1) as nat)
    } else {
        root_ids(knots, (n - 1) as nat).push(knots[n - 1].id@)
    }
}

/// Whether some knot of `knot_inputs` lists `id` as a child.
pub fn has_parent(knot_inputs: &[KnotInput], id: &String) -> (found: bool)
    ensures
        found == is_child_id(knot_inputs@, id@),
{
    let n = knot_inputs.len();
    let mut k: usize = 0;
    while k < n
        invariant
            k <= n,
            n == knot_inputs@.len(),
            forall|kk: int, c: int|
                0 <= kk < k && 0 <= c < knot_inputs@[kk].child_knot_ids@.len()
                    ==> #[trigger] knot_inputs@[kk].child_knot_ids@[c]@ != id@,
        decreases n - k,
    {
        let children = &knot_inputs[k].child_knot_ids;
        let m = children.len();
        let mut c: usize = 0;
        while c < m
            invariant
                k < n,
                n == knot_inputs@.len(),
                *children == knot_inputs@[k as int].child_knot_ids,
                m == children@.len(),
                c <= m,
                forall|kk: int, cc: int|
                    0 <= kk < k && 0 <= cc < knot_inputs@[kk].child_knot_ids@.len()
                        ==> #[trigger] knot_inputs@[kk].child_knot_ids@[cc]@ != id@,
                forall|cc: int| 0 <= cc < c ==> #[trigger] children@[cc]@ != id@,
            decreases m - c,
        {
            if children[c] == *id {
                assert(knot_inputs@[k as int].child_knot_ids@[c as int]@ == id@);
                return true;
            }
            c = c + 1;
        }
        k = k + 1;
    }
    false
}

/// One `Knot` node per knot that no knot lists as a child, in input order: a
/// capsule in the root colour, with no group, in grid slot `k` for the
/// `k`-th root.
pub fn plan_knot_root_nodes(knot_inputs: &[KnotInput]) -> (plans: Vec<NodePlan>)
    ensures
        nodes_view(plans@) == root_ids(knot_inputs@, knot_inputs@.len()).map_values(
            |id: Seq<char>| knot_node(id, KNOT_ROOT_COLOR),
        ),
        slots_in_order(plans@),
{
    let mut plans: Vec<NodePlan> = Vec::new();
    let n = knot_inputs.len();
    let mut k: usize = 0;
    while k < n
        invariant
            k <= n,
            n == knot_inputs@.len(),
            nodes_view(plans@) == root_ids(knot_inputs@, k as nat).map_values(
                |id: Seq<char>| knot_node(id, KNOT_ROOT_COLOR),
            ),
            slots_in_order(plans@),
        decreases n - k,
    {
        if !has_parent(knot_inputs, &knot_inputs[k].id) {
            let ghost before = plans@;
            let slot = plans.len();
            plans.push(
                NodePlan {
                    id: knot_inputs[k].id.clone(),
                    kind: NodeKind::Knot,
                    group_id: None,
                    mesh_kind: MeshKind::Capsule,
                    color: KNOT_ROOT_COLOR,
                    layout_index: slot,
                },
            );
            assert(nodes_view(plans@) =~= nodes_view(before).push(plans@.last()@));
            assert(nodes_view(plans@) =~= root_ids(knot_inputs@, (k + 1) as nat).map_values(
                |id: Seq<char>| knot_node(id, KNOT_ROOT_COLOR),
            ));
        }
        k = k + 1;
    }
    plans
}

/// The root tier shows exactly the knots that no knot lists as a child: an
/// id is among the roots if and only if some knot has it and no knot names
/// it as a child.
pub proof fn lemma_root_ids_exact(knots: Seq<KnotInput>, id: Seq<char>)
    ensures
        root_ids(knots, knots.len()).contains(id) <==> (exists|k: int|
            0 <= k < knots.len() && #[trigger] knots[k].id@ == id) && !is_child_id(knots, id),
{
    lemma_root_ids_upto(knots, knots.len(), id);
}

proof fn lemma_root_ids_upto(knots: Seq<KnotInput>, n: nat, id: Seq<char>)
    requires
        n <= knots.len(),
    ensures
        root_ids(knots, n).contains(id) <==> (exists|k: int| 0 <= k < n && #[trigger] knots[k].id@ == id)
            && !is_child_id(knots, id),
    decreases n,
{
    if n > 0 {
        lemma_root_ids_upto(knots, (n - 1) as nat, id);
        let prev = root_ids(knots, (n - 1) as nat);
        let last = knots[n - 1].id@;
        if is_child_id(knots, last) {
            if (exists|k: int| 0 <= k < n && #[trigger] knots[k].id@ == id) && !is_child_id(knots, id) {
                let k = choose|k: int| 0 <= k < n && #[trigger] knots[k].id@ == id;
                assert(k != n - 1);
            }
        } else {
            assert(root_ids(knots, n) == prev.push(last));
            if root_ids(knots, n).contains(id) {
                let i = choose|i: int| 0 <= i < root_ids(knots, n).len() && root_ids(knots, n)[i] == id;
                if i == prev.len() {
                    assert(knots[n - 1].id@ == id);
                } else {
                    assert(prev[i] == id);
                }
            }
            if (exists|k: int| 0 <= k < n && #[trigger] knots[k].id@ == id) && !is_child_id(knots, id) {
                let k = choose|k: int| 0 <= k < n && #[trigger] knots[k].id@ == id;
                if k == n - 1 {
                    assert(root_ids(knots, n)[prev.len() as int] == id);
                } else {
                    let i = choose|i: int| 0 <= i < prev.len() && prev[i] == id;
                    assert(root_ids(knots, n)[i] == id);
                }
            }
        }
    }
}

/// The row and column of grid slot `index` in a grid of `per_row` columns.
pub fn grid_cell(index: usize, per_row: usize) -> (cell: (usize, usize))
    requires
        per_row > 0,
    ensures
        cell.0 == index / per_row,
        cell.1 == index % per_row,
{
    (index / per_row, index % per_row)
}

/// A line to draw between two nodes, named by their indices in the node list.
#[derive(Clone, Copy, Debug, PartialEq, Eq)]
pub struct EdgeDraw {
    pub from_node: usize,
    pub to_node: usize,
    pub color: [u8; 3],
}

/// The colour an edge of the given kind is drawn in.
pub open spec fn edge_color_spec(kind: EdgeKind) -> [u8; 3] {
    match kind {
        EdgeKind::NoteMembership => [120, 168, 255],
        EdgeKind::KnotMembership => [120, 210, 165],
        EdgeKind::ParentChild => [252, 200, 114],
    }
}

impl EdgeKind {
    /// The colour an edge of this kind is drawn in.
    pub fn color(&self) -> (c: [u8; 3])
        ensures
            c == edge_color_spec(*self),
    {
        match self {
            EdgeKind::NoteMembership => [120, 168, 255],
            EdgeKind::KnotMembership => [120, 210, 165],
            EdgeKind::ParentChild => [252, 200, 114],
        }
    }
}

/// The index of the last id in `ids` equal to `id`, if any: a later node
/// with the same id shadows an earlier one.
pub open spec fn last_index(ids: Seq<Seq<char>>, id: Seq<char>) -> Option<int>
    decreases ids.len(),
{
    if ids.len() == 0 {
        None
    } else if ids.last() == id {
        Some(ids.len() - 1)
    } else {
        last_index(ids.drop_last(), id)
    }
}

proof fn lemma_last_index_bounds(ids: Seq<Seq<char>>, id: Seq<char>)
    ensures
        last_index(ids, id) matches Some(i) ==> 0 <= i < ids.len() && ids[i] == id,
    decreases ids.len(),
{
    if ids.len() > 0 && ids.last() != id {
        lemma_last_index_bounds(ids.drop_last(), id);
    }
}

/// The lines for the first `n` edges: each visible edge whose two ends are
/// both among the nodes, in the colour of its kind.
pub open spec fn draws_upto(ids: Seq<Seq<char>>, edges: Seq<EdgeView>, n: nat) -> Seq<EdgeDraw>
    decreases n,
{
    if n == 0 {
        Seq::empty()
    } else {
        let prev = draws_upto(ids, edges, (n - 1) as nat);
        let e = edges[n - 1];
        if e.visible && last_index(ids, e.from) is Some && last_index(ids, e.to) is Some {
            prev.push(
                EdgeDraw {
                    from_node: last_index(ids, e.from)->0 as usize,
                    to_node: last_index(ids, e.to)->0 as usize,
                    color: edge_color_spec(e.kind),
                },
            )
        } else {
            prev
        }
    }
}

/// The lines to draw for a tier: none in the root tier, otherwise those of
/// `draws_upto` over all edges.
pub open spec fn edge_draws_spec(tier: SpaceTier, ids: Seq<Seq<char>>, edges: Seq<EdgeView>) -> Seq<EdgeDraw> {
    if tier == SpaceTier::KnotRoot {
        Seq::empty()
    } else {
        draws_upto(ids, edges, edges.len())
    }
}

/// The position of the last node id equal to `id`, if any.
pub fn find_last(node_ids: &[String], id: &String) -> (found: Option<usize>)
    ensures
        match found {
            Some(i) => last_index(strs(node_ids@), id@) == Some(i as int),
            None => last_index(strs(node_ids@), id@) is None,
        },
{
    let ghost v = strs(node_ids@);
    let mut k: usize = node_ids.len();
    assert(v.take(k as int) =~= v);
    while k > 0
        invariant
            k <= node_ids@.len(),
            v == strs(node_ids@),
            last_index(v, id@) == last_index(v.take(k as int), id@),
        decreases k,
    {
        let ghost t = v.take(k as int);
        assert(t.drop_last() =~= v.take(k - 1));
        if node_ids[k - 1] == *id {
            return Some(k - 1);
        }
        k = k - 1;
    }
    assert(v.take(0) =~= Seq::<Seq<char>>::empty());
    None
}

/// The lines the scene draws between nodes for the given tier: in the root
/// tier none; otherwise, for each visible edge whose two ids both name a
/// node (the last node with that id), a line between those nodes in the
/// colour of the edge's kind, in edge order.
pub fn edges_to_draw(tier: SpaceTier, node_ids: &[String], edges: &[GraphEdgeInput]) -> (draws: Vec<EdgeDraw>)
    ensures
        draws@ == edge_draws_spec(tier, strs(node_ids@), edges_view(edges@)),
{
    let mut draws: Vec<EdgeDraw> = Vec::new();
    if tier == SpaceTier::KnotRoot {
        return draws;
    }
    let ghost ids = strs(node_ids@);
    let ghost ev = edges_view(edges@);
    let n = edges.len();
    let mut k: usize = 0;
    while k < n
        invariant
            k <= n,
            n == edges@.len(),
            ids == strs(node_ids@),
            ev == edges_view(edges@),
            draws@ == draws_upto(ids, ev, k as nat),
        decreases n - k,
    {
        let edge = &edges[k];
        assert(ev[k as int] == edge@);
        if edge.visible {
            let from = find_last(node_ids, &edge.from);
            let to = find_last(node_ids, &edge.to);
            match (from, to) {
                (Some(f), Some(t)) => {
                    draws.push(EdgeDraw { from_node: f, to_node: t, color: edge.kind.color() });
                },
                _ => {},
            }
        }
        k = k + 1;
    }
    draws
}

proof fn lemma_pair_rows_len(ids: Seq<Seq<char>>, n: nat, kind: EdgeKind, visible: bool)
    requires
        n <= ids.len(),
    ensures
        2 * pair_rows(ids, n, kind, visible).len() == 2 * n * ids.len() - n * (n + 1),
    decreases n,
{
    if n > 0 {
        lemma_pair_rows_len(ids, (n - 1) as nat, kind, visible);
        let m = (n - 1) as int;
        let l = ids.len() as int;
        assert(pair_row(ids, m, kind, visible).len() == l - m - 1);
        let prev = pair_rows(ids, (n - 1) as nat, kind, visible).len() as int;
        assert(pair_rows(ids, n, kind, visible).len() == prev + (l - m - 1));
        assert(2 * prev == 2 * m * l - m * (m + 1));
        let cur = pair_rows(ids, n, kind, visible).len() as int;
        let nn = n as int;
        assert(2 * cur == 2 * nn * l - nn * (nn + 1)) by (nonlinear_arith)
            requires
                nn == m + 1,
                cur == prev + (l - m - 1),
                2 * prev == 2 * m * l - m * (m + 1),
        ;
        assert(2 * pair_rows(ids, n, kind, visible).len() == 2 * n * ids.len() - n * (n + 1));
    } else {
        assert(pair_rows(ids, n, kind, visible).len() == 0);
        assert(2 * n * ids.len() - n * (n + 1) == 0) by (nonlinear_arith)
            requires
                n == 0,
        ;
    }
}

/// `pairwise_edges` on `n` ids yields `n * (n - 1) / 2` edges.
pub proof fn lemma_pairwise_count(ids: Seq<Seq<char>>, kind: EdgeKind, visible: bool)
    ensures
        pairwise_spec(ids, kind, visible).len() == ids.len() * (ids.len() - 1) / 2,
{
    let l = ids.len() as int;
    lemma_pair_rows_len(ids, ids.len(), kind, visible);
    let c = pairwise_spec(ids, kind, visible).len() as int;
    assert(2 * c == l * (l - 1)) by (nonlinear_arith)
        requires
            2 * c == 2 * l * l - l * (l + 1),
    ;
}

proof fn lemma_pair_rows_prefix(ids: Seq<Seq<char>>, m: nat, n: nat, kind: EdgeKind, visible: bool)
    requires
        m <= n,
    ensures
        pair_rows(ids, m, kind, visible).len() <= pair_rows(ids, n, kind, visible).len(),
        pair_rows(ids, n, kind, visible).subrange(0, pair_rows(ids, m, kind, visible).len() as int)
            == pair_rows(ids, m, kind, visible),
    decreases n,
{
    if m < n {
        lemma_pair_rows_prefix(ids, m, (n - 1) as nat, kind, visible);
        let a = pair_rows(ids, m, kind, visible);
        let b = pair_rows(ids, (n - 1) as nat, kind, visible);
        let c = pair_rows(ids, n, kind, visible);
        assert(c.subrange(0, a.len() as int) =~= b.subrange(0, a.len() as int));
    } else {
        let a = pair_rows(ids, m, kind, visible);
        assert(a.subrange(0, a.len() as int) =~= a);
    }
}

/// Every pair `i < j` of positions in `ids` has its edge in `pairwise_edges`.
pub proof fn lemma_pairwise_covers(ids: Seq<Seq<char>>, kind: EdgeKind, visible: bool, i: int, j: int)
    requires
        0 <= i < j < ids.len(),
    ensures
        pairwise_spec(ids, kind, visible).contains(EdgeView { from: ids[i], to: ids[j], kind, visible }),
{
    let e = EdgeView { from: ids[i], to: ids[j], kind, visible };
    let upto = pair_rows(ids, (i + 1) as nat, kind, visible);
    let before = pair_rows(ids, i as nat, kind, visible);
    let row = pair_row(ids, i, kind, visible);
    assert(row[j - i - 1] == e);
    assert(upto[before.len() + j - i - 1] == e);
    lemma_pair_rows_prefix(ids, (i + 1) as nat, ids.len(), kind, visible);
    let all = pairwise_spec(ids, kind, visible);
    assert(all.subrange(0, upto.len() as int)[before.len() + j - i - 1] == e);
    assert(all[before.len() + j - i - 1] == e);
}

/// Every edge of `pairwise_edges` joins `ids[i]` to `ids[j]` for some `i < j`.
pub proof fn lemma_pairwise_sound(ids: Seq<Seq<char>>, kind: EdgeKind, visible: bool, k: int)
    requires
        0 <= k < pairwise_spec(ids, kind, visible).len(),
    ensures
        exists|i: int, j: int|
            0 <= i < j < ids.len() && #[trigger] pairwise_spec(ids, kind, visible)[k] == (EdgeView {
                from: ids[i],
                to: ids[j],
                kind,
                visible,
            }),
{
    lemma_pair_rows_sound(ids, ids.len(), kind, visible, k);
}

proof fn lemma_pair_rows_sound(ids: Seq<Seq<char>>, n: nat, kind: EdgeKind, visible: bool, k: int)
    requires
        n <= ids.len(),
        0 <= k < pair_rows(ids, n, kind, visible).len(),
    ensures
        exists|i: int, j: int|
            0 <= i < j < ids.len() && #[trigger] pair_rows(ids, n, kind, visible)[k] == (EdgeView {
                from: ids[i],
                to: ids[j],
                kind,
                visible,
            }),
    decreases n,
{
    let before = pair_rows(ids, (n - 1) as nat, kind, visible);
    if k < before.len() {
        lemma_pair_rows_sound(ids, (n - 1) as nat, kind, visible, k);
        let (i, j) = choose|i: int, j: int|
            0 <= i < j < ids.len() && #[trigger] before[k] == (EdgeView {
                from: ids[i],
                to: ids[j],
                kind,
                visible,
            });
        assert(pair_rows(ids, n, kind, visible)[k] == before[k]);
    } else {
        let i = n - 1;
        let j = i + 1 + (k - before.len());
        assert(pair_rows(ids, n, kind, visible)[k] == pair_row(ids, i, kind, visible)[k - before.len()]);
        assert(pair_rows(ids, n, kind, visible)[k] == (EdgeView { from: ids[i], to: ids[j], kind, visible }));
    }
}

/// Every line drawn joins the nodes named by the two ends of a visible
/// edge, in the colour of that edge's kind; the root tier draws none.
pub proof fn lemma_draws_sound(tier: SpaceTier, ids: Seq<Seq<char>>, edges: Seq<EdgeView>, k: int)
    requires
        ids.len() <= usize::MAX,
        0 <= k < edge_draws_spec(tier, ids, edges).len(),
    ensures
        tier != SpaceTier::KnotRoot,
        exists|e: int|
            0 <= e < edges.len() && #[trigger] edges[e].visible && ({
                let d = edge_draws_spec(tier, ids, edges)[k];
                &&& d.from_node < ids.len()
                &&& d.to_node < ids.len()
                &&& ids[d.from_node as int] == edges[e].from
                &&& ids[d.to_node as int] == edges[e].to
                &&& d.color == edge_color_spec(edges[e].kind)
            }),
{
    lemma_draws_upto_sound(ids, edges, edges.len(), k);
}

proof fn lemma_draws_upto_sound(ids: Seq<Seq<char>>, edges: Seq<EdgeView>, n: nat, k: int)
    requires
        ids.len() <= usize::MAX,
        n <= edges.len(),
        0 <= k < draws_upto(ids, edges, n).len(),
    ensures
        exists|e: int|
            0 <= e < edges.len() && #[trigger] edges[e].visible && ({
                let d = draws_upto(ids, edges, n)[k];
                &&& d.from_node < ids.len()
                &&& d.to_node < ids.len()
                &&& ids[d.from_node as int] == edges[e].from
                &&& ids[d.to_node as int] == edges[e].to
                &&& d.color == edge_color_spec(edges[e].kind)
            }),
    decreases n,
{
    let prev = draws_upto(ids, edges, (n - 1) as nat);
    let e = edges[n - 1];
    if k < prev.len() {
        lemma_draws_upto_sound(ids, edges, (n - 1) as nat, k);
        if e.visible && last_index(ids, e.from) is Some && last_index(ids, e.to) is Some {
            assert(draws_upto(ids, edges, n)[k] == prev[k]);
        }
    } else {
        lemma_last_index_bounds(ids, e.from);
        lemma_last_index_bounds(ids, e.to);
        assert(edges[n - 1].visible);
    }
}

/// Every edge of the note tier joins two notes of one knot, the earlier
/// one first.
pub proof fn lemma_note_edges_sound(knots: Seq<KnotInput>, n: nat, k: int)
    requires
        n <= knots.len(),
        0 <= k < knot_note_edges(knots, n).len(),
    ensures
        exists|m: int, i: int, j: int|
            0 <= m < n && 0 <= i < j < knots[m].note_ids@.len() && #[trigger] knot_note_edges(knots, n)[k]
                == (EdgeView {
                from: knots[m].note_ids@[i]@,
                to: knots[m].note_ids@[j]@,
                kind: EdgeKind::KnotMembership,
                visible: true,
            }),
    decreases n,
{
    let prev = knot_note_edges(knots, (n - 1) as nat);
    let ids = strs(knots[n - 1].note_ids@);
    if k < prev.len() {
        lemma_note_edges_sound(knots, (n - 1) as nat, k);
        let (m, i, j) = choose|m: int, i: int, j: int|
            0 <= m < n - 1 && 0 <= i < j < knots[m].note_ids@.len() && #[trigger] prev[k] == (EdgeView {
                from: knots[m].note_ids@[i]@,
                to: knots[m].note_ids@[j]@,
                kind: EdgeKind::KnotMembership,
                visible: true,
            });
        assert(knot_note_edges(knots, n)[k] == prev[k]);
    } else {
        let r = k - prev.len();
        lemma_pairwise_sound(ids, EdgeKind::KnotMembership, true, r);
        let (i, j) = choose|i: int, j: int|
            0 <= i < j < ids.len() && #[trigger] pairwise_spec(ids, EdgeKind::KnotMembership, true)[r]
                == (EdgeView { from: ids[i], to: ids[j], kind: EdgeKind::KnotMembership, visible: true });
        assert(knot_note_edges(knots, n)[k] == pairwise_spec(ids, EdgeKind::KnotMembership, true)[r]);
        assert(ids[i] == knots[n - 1].note_ids@[i]@);
        assert(ids[j] == knots[n - 1].note_ids@[j]@);
    }
}

/// The membership edges of a prefix of a list of knots do not depend on
/// what follows it.
proof fn lemma_note_edges_prefix(a: Seq<KnotInput>, b: Seq<KnotInput>, n: nat)
    requires
        n <= a.len(),
    ensures
        knot_note_edges(a + b, n) == knot_note_edges(a, n),
    decreases n,
{
    if n > 0 {
        lemma_note_edges_prefix(a, b, (n - 1) as nat);
        assert((a + b)[n - 1] == a[n - 1]);
    }
}

proof fn lemma_note_edges_concat_upto(a: Seq<KnotInput>, b: Seq<KnotInput>, m: nat)
    requires
        m <= b.len(),
    ensures
        knot_note_edges(a + b, a.len() + m) == knot_note_edges(a, a.len()) + knot_note_edges(b, m),
    decreases m,
{
    if m == 0 {
        lemma_note_edges_prefix(a, b, a.len());
        assert(knot_note_edges(a, a.len()) + Seq::<EdgeView>::empty() =~= knot_note_edges(a, a.len()));
    } else {
        lemma_note_edges_concat_upto(a, b, (m - 1) as nat);
        assert((a + b)[a.len() + m - 1] == b[m - 1]);
        assert(((a.len() + m - 1) as nat) == a.len() + (m - 1) as nat);
        let row = pairwise_spec(strs(b[m - 1].note_ids@), EdgeKind::KnotMembership, true);
        assert(knot_note_edges(a, a.len()) + knot_note_edges(b, (m - 1) as nat) + row =~= knot_note_edges(a, a.len())
            + (knot_note_edges(b, (m - 1) as nat) + row));
    }
}

/// Building the membership edges of two lists of knots one after the other
/// gives the edges of each list, in order: the edges of `a + b` are those
/// of `a` followed by those of `b`.
pub proof fn lemma_note_edges_concat(a: Seq<KnotInput>, b: Seq<KnotInput>)
    ensures
        knot_note_edges(a + b, (a + b).len()) == knot_note_edges(a, a.len()) + knot_note_edges(b, b.len()),
{
    lemma_note_edges_concat_upto(a, b, b.len());
}

/// The parent-child edges of a prefix of a list of knots do not depend on
/// what follows it.
proof fn lemma_child_edges_prefix(a: Seq<KnotInput>, b: Seq<KnotInput>, n: nat)
    requires
        n <= a.len(),
    ensures
        knot_child_edges(a + b, n) == knot_child_edges(a, n),
    decreases n,
{
    if n > 0 {
        lemma_child_edges_prefix(a, b, (n - 1) as nat);
        assert((a + b)[n - 1] == a[n - 1]);
    }
}

proof fn lemma_child_edges_concat_upto(a: Seq<KnotInput>, b: Seq<KnotInput>, m: nat)
    requires
        m <= b.len(),
    ensures
        knot_child_edges(a + b, a.len() + m) == knot_child_edges(a, a.len()) + knot_child_edges(b, m),
    decreases m,
{
    if m == 0 {
        lemma_child_edges_prefix(a, b, a.len());
        assert(knot_child_edges(a, a.len()) + Seq::<EdgeView>::empty() =~= knot_child_edges(a, a.len()));
    } else {
        lemma_child_edges_concat_upto(a, b, (m - 1) as nat);
        assert((a + b)[a.len() + m - 1] == b[m - 1]);
        assert(((a.len() + m - 1) as nat) == a.len() + (m - 1) as nat);
        let row = child_row(b[m - 1]);
        assert(knot_child_edges(a, a.len()) + knot_child_edges(b, (m - 1) as nat) + row =~= knot_child_edges(a, a.len())
            + (knot_child_edges(b, (m - 1) as nat) + row));
    }
}

/// The parent-child edges of `a + b` are those of `a` followed by those of
/// `b`.
pub proof fn lemma_child_edges_concat(a: Seq<KnotInput>, b: Seq<KnotInput>)
    ensures
        knot_child_edges(a + b, (a + b).len()) == knot_child_edges(a, a.len()) + knot_child_edges(b, b.len()),
{
    lemma_child_edges_concat_upto(a, b, b.len());
}

proof fn lemma_last_index_found(ids: Seq<Seq<char>>, id: Seq<char>, i: int)
    requires
        0 <= i < ids.len(),
        ids[i] == id,
    ensures
        last_index(ids, id) matches Some(j) && i <= j < ids.len() && ids[j] == id
            && forall|m: int| j < m < ids.len() ==> #[trigger] ids[m] != id,
    decreases ids.len(),
{
    if ids.last() != id {
        lemma_last_index_found(ids.drop_last(), id, i);
        let j = last_index(ids.drop_last(), id)->0;
        assert forall|m: int| j < m < ids.len() implies #[trigger] ids[m] != id by {
            if m < ids.len() - 1 {
                assert(ids[m] == ids.drop_last()[m]);
            }
        }
    }
}

proof fn lemma_draws_upto_complete(ids: Seq<Seq<char>>, edges: Seq<EdgeView>, n: nat, e: int)
    requires
        0 <= e < n <= edges.len(),
        edges[e].visible,
        last_index(ids, edges[e].from) is Some,
        last_index(ids, edges[e].to) is Some,
    ensures
        exists|k: int|
            0 <= k < draws_upto(ids, edges, n).len() && #[trigger] draws_upto(ids, edges, n)[k] == (EdgeDraw {
                from_node: last_index(ids, edges[e].from)->0 as usize,
                to_node: last_index(ids, edges[e].to)->0 as usize,
                color: edge_color_spec(edges[e].kind),
            }),
    decreases n,
{
    let prev = draws_upto(ids, edges, (n - 1) as nat);
    if e < n - 1 {
        lemma_draws_upto_complete(ids, edges, (n - 1) as nat, e);
        let k = choose|k: int| 0 <= k < prev.len() && #[trigger] prev[k] == (EdgeDraw {
            from_node: last_index(ids, edges[e].from)->0 as usize,
            to_node: last_index(ids, edges[e].to)->0 as usize,
            color: edge_color_spec(edges[e].kind),
        });
        assert(draws_upto(ids, edges, n)[k] == prev[k]);
    } else {
        assert(draws_upto(ids, edges, n)[prev.len() as int] == (EdgeDraw {
            from_node: last_index(ids, edges[e].from)->0 as usize,
            to_node: last_index(ids, edges[e].to)->0 as usize,
            color: edge_color_spec(edges[e].kind),
        }));
    }
}

/// In every tier but the root one, each visible edge whose two ids both name
/// a node is drawn: some line joins the last node with its `from` id to the
/// last node with its `to` id, in the colour of its kind (note membership
/// `[120, 168, 255]`, knot membership `[120, 210, 165]`, parent-child
/// `[252, 200, 114]`).
pub proof fn lemma_draws_complete(tier: SpaceTier, ids: Seq<Seq<char>>, edges: Seq<EdgeView>, e: int, i: int, j: int)
    requires
        ids.len() <= usize::MAX,
        tier != SpaceTier::KnotRoot,
        0 <= e < edges.len(),
        edges[e].visible,
        0 <= i < ids.len(),
        ids[i] == edges[e].from,
        0 <= j < ids.len(),
        ids[j] == edges[e].to,
    ensures
        exists|k: int|
            0 <= k < edge_draws_spec(tier, ids, edges).len() && {
                let d = #[trigger] edge_draws_spec(tier, ids, edges)[k];
                &&& i <= d.from_node < ids.len()
                &&& j <= d.to_node < ids.len()
                &&& ids[d.from_node as int] == edges[e].from
                &&& ids[d.to_node as int] == edges[e].to
                &&& forall|m: int| d.from_node < m < ids.len() ==> #[trigger] ids[m] != edges[e].from
                &&& forall|m: int| d.to_node < m < ids.len() ==> #[trigger] ids[m] != edges[e].to
                &&& d.color == match edges[e].kind {
                    EdgeKind::NoteMembership => [120u8, 168u8, 255u8],
                    EdgeKind::KnotMembership => [120u8, 210u8, 165u8],
                    EdgeKind::ParentChild => [252u8, 200u8, 114u8],
                }
            },
{
    lemma_last_index_found(ids, edges[e].from, i);
    lemma_last_index_found(ids, edges[e].to, j);
    lemma_draws_upto_complete(ids, edges, edges.len(), e);
    let fi = last_index(ids, edges[e].from)->0;
    let ti = last_index(ids, edges[e].to)->0;
    let want = EdgeDraw { from_node: fi as usize, to_node: ti as usize, color: edge_color_spec(edges[e].kind) };
    let all = edge_draws_spec(tier, ids, edges);
    assert(all == draws_upto(ids, edges, edges.len()));
    let k = choose|k: int| 0 <= k < all.len() && #[trigger] all[k] == want;
    assert(fi as usize == fi);
    assert(ti as usize == ti);
    let d = all[k];
    assert(d == want);
    assert(i <= d.from_node < ids.len());
    assert(forall|m: int| d.from_node < m < ids.len() ==> #[trigger] ids[m] != edges[e].from);
    assert(forall|m: int| d.to_node < m < ids.len() ==> #[trigger] ids[m] != edges[e].to);
}

} // verus!
