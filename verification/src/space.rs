//! The knowledge space view: the inputs the graph builders get from the
//! note and knot caches, and the graph shown for each tier.

use vstd::prelude::*;
use crate::graph::{GraphEdgeInput, KNOT_INTERMEDIATE_COLOR, KNOT_ROOT_COLOR, KnotInput, NodePlan, NoteInput, SnippetInput, SpaceTier, build_knot_intermediate_edges, build_note_edges, build_snippet_edges, edges_view, knot_child_edges, knot_node, knot_note_edges, note_node, nodes_view, opt_str, plan_knot_intermediate_nodes, plan_knot_root_nodes, plan_note_nodes, plan_snippet_nodes, root_ids, slots_in_order, snippet_edges_spec, snippet_nodes_spec, strs};
use crate::knot_store::{KnotState, KnotVm};
use crate::notes_store::{NoteVm, NotesState};
use crate::schema::{Knot, Note};

verus! {

/// The id a cached item is shown under: its server id, or its local key
/// while it has none.
pub open spec fn shown_id(id: Option<String>, local_key: String) -> Seq<char> {
    match id {
        Some(s) => s@,
        None => local_key@,
    }
}

fn shown_id_exec(id: &Option<String>, local_key: &String) -> (s: String)
    ensures
        s@ == shown_id(*id, *local_key),
{
    match id {
        Some(s) => s.clone(),
        None => local_key.clone(),
    }
}

/// `inputs` are the snippet inputs of the cached notes `items`.
pub open spec fn snippet_inputs_of(inputs: Seq<SnippetInput>, items: Seq<NoteVm>) -> bool {
    &&& inputs.len() == items.len()
    &&& forall|k: int|
        0 <= k < inputs.len() ==> #[trigger] inputs[k].note_id@ == shown_id(items[k].id, items[k].local_key)
            && inputs[k].snippet_count == items[k].snippet_count
}

/// `inputs` are the note inputs of the cached notes `items`.
pub open spec fn note_inputs_of(inputs: Seq<NoteInput>, items: Seq<NoteVm>) -> bool {
    &&& inputs.len() == items.len()
    &&& forall|k: int|
        0 <= k < inputs.len() ==> #[trigger] inputs[k].id@ == shown_id(items[k].id, items[k].local_key)
            && inputs[k].snippet_count == items[k].snippet_count
}

/// The snippet inputs of the cached notes, one per note, in order.
pub fn snippet_inputs(state: &NotesState) -> (inputs: Vec<SnippetInput>)
    ensures
        snippet_inputs_of(inputs@, state.items@),
{
    let mut inputs: Vec<SnippetInput> = Vec::new();
    let n = state.items.len();
    let mut k: usize = 0;
    while k < n
        invariant
            k <= n,
            n == state.items@.len(),
            inputs@.len() == k,
            forall|j: int|
                0 <= j < k ==> #[trigger] inputs@[j].note_id@ == shown_id(
                    state.items@[j].id,
                    state.items@[j].local_key,
                ) && inputs@[j].snippet_count == state.items@[j].snippet_count,
        decreases n - k,
    {
        let vm: &NoteVm = &state.items[k];
        inputs.push(
            SnippetInput { note_id: shown_id_exec(&vm.id, &vm.local_key), snippet_count: vm.snippet_count },
        );
        k = k + 1;
    }
    inputs
}

/// The note inputs of the cached notes, one per note, in order.
pub fn note_inputs(state: &NotesState) -> (inputs: Vec<NoteInput>)
    ensures
        note_inputs_of(inputs@, state.items@),
{
    let mut inputs: Vec<NoteInput> = Vec::new();
    let n = state.items.len();
    let mut k: usize = 0;
    while k < n
        invariant
            k <= n,
            n == state.items@.len(),
            inputs@.len() == k,
            forall|j: int|
                0 <= j < k ==> #[trigger] inputs@[j].id@ == shown_id(state.items@[j].id, state.items@[j].local_key)
                    && inputs@[j].snippet_count == state.items@[j].snippet_count,
        decreases n - k,
    {
        let vm: &NoteVm = &state.items[k];
        inputs.push(NoteInput { id: shown_id_exec(&vm.id, &vm.local_key), snippet_count: vm.snippet_count });
        k = k + 1;
    }
    inputs
}

/// The ids the first `n` notes carry, in order, skipping those without one.
pub open spec fn note_ids_of(notes: Seq<Note>, n: nat) -> Seq<Seq<char>>
    decreases n,
{
    if n == 0 {
        Seq::empty()
    } else {
        match notes[n - 1].id_ {
            Some(id) => note_ids_of(notes, (n - 1) as nat).push(id@),
            None => note_ids_of(notes, (n - 1) as nat),
        }
    }
}

/// The ids the first `n` knots carry, in order, skipping those without one.
pub open spec fn knot_ids_of(knots: Seq<Knot>, n: nat) -> Seq<Seq<char>>
    decreases n,
{
    if n == 0 {
        Seq::empty()
    } else {
        match knots[n - 1].id_ {
            Some(id) => knot_ids_of(knots, (n - 1) as nat).push(id@),
            None => knot_ids_of(knots, (n - 1) as nat),
        }
    }
}

fn note_ids_exec(notes: &Vec<Note>) -> (ids: Vec<String>)
    ensures
        strs(ids@) == note_ids_of(notes@, notes@.len()),
{
    let mut ids: Vec<String> = Vec::new();
    let n = notes.len();
    let mut k: usize = 0;
    while k < n
        invariant
            k <= n,
            n == notes@.len(),
            strs(ids@) == note_ids_of(notes@, k as nat),
        decreases n - k,
    {
        match &notes[k].id_ {
            Some(id) => {
                let ghost before = ids@;
                ids.push(id.clone());
                assert(strs(ids@) =~= strs(before).push(id@));
            },
            None => {},
        }
        k = k + 1;
    }
    ids
}

fn knot_ids_exec(knots: &Vec<Knot>) -> (ids: Vec<String>)
    ensures
        strs(ids@) == knot_ids_of(knots@, knots@.len()),
{
    let mut ids: Vec<String> = Vec::new();
    let n = knots.len();
    let mut k: usize = 0;
    while k < n
        invariant
            k <= n,
            n == knots@.len(),
            strs(ids@) == knot_ids_of(knots@, k as nat),
        decreases n - k,
    {
        match &knots[k].id_ {
            Some(id) => {
                let ghost before = ids@;
                ids.push(id.clone());
                assert(strs(ids@) =~= strs(before).push(id@));
            },
            None => {},
        }
        k = k + 1;
    }
    ids
}

/// `input` is what the graph builders get of the cached knot `vm`: its shown
/// id and, once its record is known, its label and the ids of its child
/// knots and of its notes (nothing of those before).
pub open spec fn is_knot_input_of(input: KnotInput, vm: KnotVm) -> bool {
    &&& input.id@ == shown_id(vm.id, vm.local_key)
    &&& match vm.knot {
        Some(knot) => {
            &&& opt_str(input.label) == Some(knot.label@)
            &&& strs(input.child_knot_ids@) == knot_ids_of(knot.knots@, knot.knots@.len())
            &&& strs(input.note_ids@) == note_ids_of(knot.notes@, knot.notes@.len())
        },
        None => {
            &&& input.label is None
            &&& input.child_knot_ids@.len() == 0
            &&& input.note_ids@.len() == 0
        },
    }
}

/// `inputs` are the knot inputs of the cached knots `items`.
pub open spec fn knot_inputs_of(inputs: Seq<KnotInput>, items: Seq<KnotVm>) -> bool {
    &&& inputs.len() == items.len()
    &&& forall|k: int| 0 <= k < inputs.len() ==> #[trigger] is_knot_input_of(inputs[k], items[k])
}

/// The knot inputs of the cached knots, one per knot, in order.
pub fn knot_inputs(state: &KnotState) -> (inputs: Vec<KnotInput>)
    ensures
        knot_inputs_of(inputs@, state.items@),
{
    let mut inputs: Vec<KnotInput> = Vec::new();
    let n = state.items.len();
    let mut k: usize = 0;
    while k < n
        invariant
            k <= n,
            n == state.items@.len(),
            inputs@.len() == k,
            forall|j: int| 0 <= j < k ==> #[trigger] is_knot_input_of(inputs@[j], state.items@[j]),
        decreases n - k,
    {
        let vm: &KnotVm = &state.items[k];
        let input = match &vm.knot {
            Some(knot) => KnotInput {
                id: shown_id_exec(&vm.id, &vm.local_key),
                label: Some(knot.label.clone()),
                child_knot_ids: knot_ids_exec(&knot.knots),
                note_ids: note_ids_exec(&knot.notes),
            },
            None => KnotInput {
                id: shown_id_exec(&vm.id, &vm.local_key),
                label: None,
                child_knot_ids: Vec::new(),
                note_ids: Vec::new(),
            },
        };
        inputs.push(input);
        k = k + 1;
    }
    inputs
}

/// The graph shown for a tier, as nodes (without positions) and edges:
/// the snippets of the cached notes with their membership edges; the
/// cached notes with the edges between notes of a knot; the cached knots
/// with their parent-child edges; or the root knots alone.
pub open spec fn tier_graph_spec(
    tier: SpaceTier,
    notes: Seq<NoteVm>,
    knots: Seq<KnotVm>,
    nodes: Seq<crate::graph::NodeView>,
    edges: Seq<crate::graph::EdgeView>,
) -> bool {
    match tier {
        SpaceTier::Snippet => exists|i: Seq<SnippetInput>|
            #![trigger snippet_inputs_of(i, notes)]
            snippet_inputs_of(i, notes) && nodes == snippet_nodes_spec(i, i.len()) && edges
                == snippet_edges_spec(i, i.len()),
        SpaceTier::Note => exists|ni: Seq<NoteInput>, ki: Seq<KnotInput>|
            #![trigger note_inputs_of(ni, notes), knot_inputs_of(ki, knots)]
            note_inputs_of(ni, notes) && knot_inputs_of(ki, knots) && nodes == ni.map_values(
                |i: NoteInput| note_node(i),
            ) && edges == knot_note_edges(ki, ki.len()),
        SpaceTier::KnotIntermediate => exists|ki: Seq<KnotInput>|
            #![trigger knot_inputs_of(ki, knots)]
            knot_inputs_of(ki, knots) && nodes == ki.map_values(
                |k: KnotInput| knot_node(k.id@, KNOT_INTERMEDIATE_COLOR),
            ) && edges == knot_child_edges(ki, ki.len()),
        SpaceTier::KnotRoot => exists|ki: Seq<KnotInput>|
            #![trigger knot_inputs_of(ki, knots)]
            knot_inputs_of(ki, knots) && nodes == root_ids(ki, ki.len()).map_values(
                |id: Seq<char>| knot_node(id, KNOT_ROOT_COLOR),
            ) && edges.len() == 0,
    }
}

/// The graph shown for a tier (see `tier_graph_spec`); node `k` takes
/// layout slot `k`.
pub fn tier_graph(tier: SpaceTier, notes: &NotesState, knots: &KnotState) -> (graph: (Vec<NodePlan>, Vec<GraphEdgeInput>))
    ensures
        slots_in_order(graph.0@),
        tier_graph_spec(tier, notes.items@, knots.items@, nodes_view(graph.0@), edges_view(graph.1@)),
{
    match tier {
        SpaceTier::Snippet => {
            let inputs = snippet_inputs(notes);
            let nodes = plan_snippet_nodes(inputs.as_slice());
            let edges = build_snippet_edges(inputs.as_slice());
            assert(snippet_inputs_of(inputs@, notes.items@));
            (nodes, edges)
        },
        SpaceTier::Note => {
            let note_in = note_inputs(notes);
            let knot_in = knot_inputs(knots);
            let nodes = plan_note_nodes(note_in.as_slice());
            let edges = build_note_edges(knot_in.as_slice());
            assert(note_inputs_of(note_in@, notes.items@) && knot_inputs_of(knot_in@, knots.items@));
            (nodes, edges)
        },
        SpaceTier::KnotIntermediate => {
            let knot_in = knot_inputs(knots);
            let nodes = plan_knot_intermediate_nodes(knot_in.as_slice());
            let edges = build_knot_intermediate_edges(knot_in.as_slice());
            assert(knot_inputs_of(knot_in@, knots.items@));
            (nodes, edges)
        },
        SpaceTier::KnotRoot => {
            let knot_in = knot_inputs(knots);
            let nodes = plan_knot_root_nodes(knot_in.as_slice());
            let edges: Vec<GraphEdgeInput> = Vec::new();
            assert(knot_inputs_of(knot_in@, knots.items@));
            (nodes, edges)
        },
    }
}

} // verus!
