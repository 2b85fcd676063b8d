//! What holds of every graph: the laws that relate edits and frames.

use crate::generator::Generator;
use crate::graph::Graph;
use crate::model::{contribution, contribution_term, sample, sample_term, GraphView};
use crate::instruction::{bus_id, Instruction};
use crate::sums::{lemma_sum_over_singleton, lemma_sum_over_zero, sum_over, toward_zero};
use vstd::prelude::*;

verus! {

/// `count` frames of silence.
pub open spec fn silence(count: nat) -> Seq<int> {
    Seq::new(count, |i: int| 0int)
}

/// Frames change neither the set of nodes, nor whom a node listens to, nor
/// the outputs: they only move generators on.
pub proof fn lemma_frames_keep_structure<G: Generator>(
    graph: GraphView<G>,
    sample_rate: u32,
    count: nat,
)
    ensures
        graph.after_frames(sample_rate, count).outputs == graph.outputs,
        graph.after_frames(sample_rate, count).nodes.dom() == graph.nodes.dom(),
        forall|id: Seq<char>| #[trigger]
            graph.nodes.contains_key(id) ==> graph.after_frames(
                sample_rate,
                count,
            ).nodes[id].dependencies == graph.nodes[id].dependencies,
        graph.valid() ==> graph.after_frames(sample_rate, count).valid(),
    decreases count,
{
    if count > 0 {
        let before = graph.after_frames(sample_rate, (count - 1) as nat);
        lemma_frames_keep_structure(graph, sample_rate, (count - 1) as nat);
        assert(before.after_frame(sample_rate).nodes.dom() =~= before.nodes.dom());
    }
}

/// There is one mixed sample for each frame.
pub proof fn lemma_frames_len<G: Generator>(graph: GraphView<G>, sample_rate: u32, count: nat)
    ensures
        graph.frames(sample_rate, count).len() == count,
    decreases count,
{
    if count > 0 {
        lemma_frames_len(graph, sample_rate, (count - 1) as nat);
    }
}

/// A stream yields one mixed sample for each of its frames.
pub proof fn lemma_stream_samples_len<G: Generator>(
    graph: GraphView<G>,
    batches: Seq<Seq<Instruction<G>>>,
    sample_rate: u32,
)
    ensures
        graph.stream_samples(batches, sample_rate).len() == batches.len(),
    decreases batches.len(),
{
    if batches.len() > 0 {
        lemma_stream_samples_len(graph, batches.drop_last(), sample_rate);
    }
}

/// Rendering is deterministic: the frames are a function of the edits, the
/// sample rate and the number of frames. Two graphs that have taken the same
/// edits, starting empty, render the same samples and end in the same state,
/// however they store their nodes.
pub proof fn lemma_same_edits_same_frames<G: Generator>(
    first: Graph<G>,
    second: Graph<G>,
    edits: Seq<Instruction<G>>,
    sample_rate: u32,
    count: nat,
)
    requires
        first@ == GraphView::<G>::empty().apply_all(edits),
        second@ == GraphView::<G>::empty().apply_all(edits),
    ensures
        first@.frames(sample_rate, count) == second@.frames(sample_rate, count),
        first@.after_frames(sample_rate, count) == second@.after_frames(sample_rate, count),
{
}

/// A stream in which no edit arrives renders the frames of the graph it
/// started with.
pub proof fn lemma_quiet_stream<G: Generator>(
    graph: GraphView<G>,
    batches: Seq<Seq<Instruction<G>>>,
    sample_rate: u32,
)
    requires
        forall|f: int| 0 <= f < batches.len() ==> #[trigger] batches[f].len() == 0,
    ensures
        graph.streamed(batches, sample_rate) == graph.after_frames(sample_rate, batches.len()),
        graph.stream_samples(batches, sample_rate) == graph.frames(sample_rate, batches.len()),
    decreases batches.len(),
{
    if batches.len() > 0 {
        let earlier = batches.drop_last();
        assert forall|f: int| 0 <= f < earlier.len() implies #[trigger] earlier[f].len() == 0 by {
            assert(earlier[f] == batches[f]);
        }
        lemma_quiet_stream(graph, earlier, sample_rate);
        assert(batches.last().len() == 0);
    }
}

/// A graph without outputs renders silence.
pub proof fn lemma_no_outputs_silent<G: Generator>(
    graph: GraphView<G>,
    sample_rate: u32,
    count: nat,
)
    requires
        graph.outputs == Set::<Seq<char>>::empty(),
    ensures
        graph.frames(sample_rate, count) == silence(count),
    decreases count,
{
    if count > 0 {
        lemma_no_outputs_silent(graph, sample_rate, (count - 1) as nat);
        lemma_frames_keep_structure(graph, sample_rate, (count - 1) as nat);
        lemma_frames_len(graph, sample_rate, (count - 1) as nat);
    }
    assert(graph.frames(sample_rate, count) =~= silence(count));
}

/// A node that listens to nothing contributes nothing.
pub proof fn lemma_no_dependencies_silent<G: Generator>(
    graph: GraphView<G>,
    id: Seq<char>,
    sample_rate: u32,
)
    requires
        graph.valid(),
        graph.nodes.contains_key(id),
        graph.nodes[id].dependencies == Set::<Seq<char>>::empty(),
    ensures
        contribution(graph.nodes, id, sample_rate) == 0,
{
    crate::sums::lemma_sum_over_empty(sample_term(graph.nodes, sample_rate));
    let width = graph.nodes.len() as int;
    assert(graph.nodes.dom().contains(id));
    assert(0int / width == 0) by (nonlinear_arith)
        requires
            width > 0,
    ;
}

/// Outputs that name no node add nothing: where no output names a node, the
/// frame is silent.
pub proof fn lemma_unresolved_outputs_mix<G: Generator>(graph: GraphView<G>, sample_rate: u32)
    requires
        graph.valid(),
        forall|id: Seq<char>| graph.outputs.contains(id) ==> !graph.nodes.contains_key(id),
    ensures
        graph.mix(sample_rate) == 0,
{
    lemma_sum_over_zero(graph.outputs, contribution_term(graph.nodes, sample_rate));
}

/// A graph whose outputs name no node renders silence, frame after frame.
pub proof fn lemma_unresolved_outputs_silent<G: Generator>(
    graph: GraphView<G>,
    sample_rate: u32,
    count: nat,
)
    requires
        graph.valid(),
        forall|id: Seq<char>| graph.outputs.contains(id) ==> !graph.nodes.contains_key(id),
    ensures
        graph.frames(sample_rate, count) == silence(count),
    decreases count,
{
    if count > 0 {
        let before = graph.after_frames(sample_rate, (count - 1) as nat);
        lemma_unresolved_outputs_silent(graph, sample_rate, (count - 1) as nat);
        lemma_frames_keep_structure(graph, sample_rate, (count - 1) as nat);
        lemma_frames_len(graph, sample_rate, (count - 1) as nat);
        assert forall|id: Seq<char>| before.outputs.contains(id) implies !before.nodes.contains_key(
            id,
        ) by {
            assert(before.nodes.dom().contains(id) == graph.nodes.dom().contains(id));
        }
        lemma_unresolved_outputs_mix(before, sample_rate);
    }
    assert(graph.frames(sample_rate, count) =~= silence(count));
}

/// Binding a name that no node bears to the bus of a graph without outputs
/// renders what the graph rendered before: silence.
pub proof fn lemma_ghost_output_silent<G: Generator>(
    graph: GraphView<G>,
    ghost_id: String,
    sink: String,
    sample_rate: u32,
    count: nat,
)
    requires
        graph.valid(),
        graph.outputs == Set::<Seq<char>>::empty(),
        !graph.nodes.contains_key(ghost_id@),
        sink@ == bus_id(),
    ensures
        graph.apply(Instruction::BindGenerator(ghost_id, sink)).frames(sample_rate, count)
            == graph.frames(sample_rate, count),
{
    let bound = graph.apply(Instruction::BindGenerator(ghost_id, sink));
    lemma_no_outputs_silent(graph, sample_rate, count);
    lemma_unresolved_outputs_silent(bound, sample_rate, count);
}

/// A node that an output listens to moves on by exactly one step in a frame,
/// however many outputs listen to it, and a node that no output listens to
/// does not move.
pub proof fn lemma_one_step_per_frame<G: Generator>(
    graph: GraphView<G>,
    id: Seq<char>,
    sample_rate: u32,
)
    requires
        graph.nodes.contains_key(id),
    ensures
        graph.after_frame(sample_rate).nodes.contains_key(id),
        graph.heard(id) ==> graph.after_frame(sample_rate).nodes[id].generator
            == graph.nodes[id].generator.advanced(sample_rate),
        !graph.heard(id) ==> graph.after_frame(sample_rate).nodes[id].generator
            == graph.nodes[id].generator,
{
}

/// Two outputs that listen to the same node both hear its one sample of the
/// frame, and the node moves on by one step.
pub proof fn lemma_shared_source<G: Generator>(
    graph: GraphView<G>,
    source: Seq<char>,
    left: Seq<char>,
    right: Seq<char>,
    sample_rate: u32,
)
    requires
        graph.nodes.contains_key(source),
        graph.nodes.contains_key(left),
        graph.nodes.contains_key(right),
        graph.outputs.contains(left),
        graph.outputs.contains(right),
        graph.nodes[left].dependencies.contains(source),
        graph.nodes[right].dependencies.contains(source),
    ensures
        graph.heard(source),
        sample_term(graph.nodes, sample_rate)(source) == graph.nodes[source].generator.upcoming(
            sample_rate,
        ),
        graph.after_frame(sample_rate).nodes[source].generator
            == graph.nodes[source].generator.advanced(sample_rate),
{
    assert(graph.outputs.contains(left));
}

/// Deleting a node a second time changes nothing.
pub proof fn lemma_delete_idempotent<G: Generator>(graph: GraphView<G>, id: String)
    ensures
        graph.apply(Instruction::DeleteGenerator(id)).apply(Instruction::DeleteGenerator(id))
            == graph.apply(Instruction::DeleteGenerator(id)),
{
    assert(graph.nodes.remove(id@).remove(id@) =~= graph.nodes.remove(id@));
}

/// A deleted node is heard no more: its name adds nothing to any sum, though
/// the nodes that listened to it still list it.
pub proof fn lemma_deleted_source_drops_out<G: Generator>(
    graph: GraphView<G>,
    id: String,
    sample_rate: u32,
)
    ensures
        sample(graph.apply(Instruction::DeleteGenerator(id)).nodes, id@, sample_rate) == 0,
        forall|sink: Seq<char>|
            sink != id@ && #[trigger] graph.nodes.contains_key(sink) ==> graph.apply(
                Instruction::DeleteGenerator(id),
            ).nodes[sink] == graph.nodes[sink],
        graph.apply(Instruction::DeleteGenerator(id)).outputs == graph.outputs,
{
}

/// With a single output, the mixed sample is that output's contribution.
pub proof fn lemma_single_output<G: Generator>(
    graph: GraphView<G>,
    output: Seq<char>,
    sample_rate: u32,
)
    requires
        graph.outputs == Set::<Seq<char>>::empty().insert(output),
    ensures
        graph.mix(sample_rate) == contribution(graph.nodes, output, sample_rate),
{
    lemma_sum_over_singleton(output, contribution_term(graph.nodes, sample_rate));
    assert(graph.outputs.len() == 1);
}

/// Edits keep a graph finite.
pub proof fn lemma_apply_valid<G: Generator>(graph: GraphView<G>, instruction: Instruction<G>)
    requires
        graph.valid(),
    ensures
        graph.apply(instruction).valid(),
{
}

} // verus!
