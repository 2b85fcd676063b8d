//! The graph as a mathematical value, and what a frame of it is.

use crate::generator::{Generator, NodeView};
use crate::instruction::{bus_id, Instruction};
use crate::sums::{sum_over, toward_zero};
use vstd::prelude::*;

verus! {

/// The graph as a mathematical value: the nodes by identifier, and the
/// identifiers that feed the output bus.
pub struct GraphView<G> {
    pub nodes: Map<Seq<char>, NodeView<G>>,
    pub outputs: Set<Seq<char>>,
}

/// What the identifier `id` adds to a sum in the present frame: the next
/// sample of the node of that name, or nothing where there is no such node.
pub open spec fn sample<G: Generator>(
    nodes: Map<Seq<char>, NodeView<G>>,
    id: Seq<char>,
    sample_rate: u32,
) -> int {
    if nodes.contains_key(id) {
        nodes[id].generator.upcoming(sample_rate) as int
    } else {
        0
    }
}

/// `sample`, as a function of the identifier.
pub open spec fn sample_term<G: Generator>(
    nodes: Map<Seq<char>, NodeView<G>>,
    sample_rate: u32,
) -> spec_fn(Seq<char>) -> int {
    |id: Seq<char>| sample(nodes, id, sample_rate)
}

/// The contribution of the node `id`: the samples of the nodes it listens to,
/// summed and divided by the number of nodes in the graph. An identifier
/// without a node contributes nothing.
pub open spec fn contribution<G: Generator>(
    nodes: Map<Seq<char>, NodeView<G>>,
    id: Seq<char>,
    sample_rate: u32,
) -> int {
    if nodes.contains_key(id) {
        toward_zero(
            sum_over(nodes[id].dependencies, sample_term(nodes, sample_rate)),
            nodes.len() as int,
        )
    } else {
        0
    }
}

/// `contribution`, as a function of the identifier.
pub open spec fn contribution_term<G: Generator>(
    nodes: Map<Seq<char>, NodeView<G>>,
    sample_rate: u32,
) -> spec_fn(Seq<char>) -> int {
    |id: Seq<char>| contribution(nodes, id, sample_rate)
}

/// Whether evaluating the contributions of `sinks` asks the node `id` for a
/// sample: it exists, and a node among `sinks` listens to it.
pub open spec fn heard_from<G>(
    nodes: Map<Seq<char>, NodeView<G>>,
    sinks: Set<Seq<char>>,
    id: Seq<char>,
) -> bool {
    nodes.contains_key(id) && exists|sink: Seq<char>|
        #![trigger sinks.contains(sink)]
        sinks.contains(sink) && nodes.contains_key(sink) && nodes[sink].dependencies.contains(id)
}

impl<G: Generator> GraphView<G> {
    /// The graph without nodes and without outputs.
    pub open spec fn empty() -> Self {
        GraphView { nodes: Map::empty(), outputs: Set::empty() }
    }

    /// Every collection in the graph is finite.
    pub open spec fn valid(self) -> bool {
        &&& self.nodes.dom().finite()
        &&& self.outputs.finite()
        &&& forall|id: Seq<char>| #[trigger]
            self.nodes.contains_key(id) ==> self.nodes[id].dependencies.finite()
    }

    /// The graph after one edit.
    pub open spec fn apply(self, instruction: Instruction<G>) -> Self {
        match instruction {
            Instruction::NewGenerator(id, generator) => GraphView {
                nodes: self.nodes.insert(
                    id@,
                    NodeView { dependencies: Set::empty(), generator },
                ),
                outputs: self.outputs,
            },
            Instruction::DeleteGenerator(id) => GraphView {
                nodes: self.nodes.remove(id@),
                outputs: self.outputs,
            },
            Instruction::BindGenerator(source, sink) => if sink@ == bus_id() {
                GraphView { nodes: self.nodes, outputs: self.outputs.insert(source@) }
            } else if self.nodes.contains_key(sink@) {
                GraphView {
                    nodes: self.nodes.insert(
                        sink@,
                        NodeView {
                            dependencies: self.nodes[sink@].dependencies.insert(source@),
                            generator: self.nodes[sink@].generator,
                        },
                    ),
                    outputs: self.outputs,
                }
            } else {
                self
            },
        }
    }

    /// The graph after a sequence of edits, applied in order.
    pub open spec fn apply_all(self, instructions: Seq<Instruction<G>>) -> Self
        decreases instructions.len(),
    {
        if instructions.len() == 0 {
            self
        } else {
            self.apply_all(instructions.drop_last()).apply(instructions.last())
        }
    }

    /// The mixed sample of the present frame: the contributions of the
    /// outputs, summed and divided by the number of outputs; silence where
    /// there is no output.
    pub open spec fn mix(self, sample_rate: u32) -> int {
        if self.outputs.len() == 0 {
            0
        } else {
            toward_zero(
                sum_over(self.outputs, contribution_term(self.nodes, sample_rate)),
                self.outputs.len() as int,
            )
        }
    }

    /// Whether the present frame asks the node `id` for a sample.
    pub open spec fn heard(self, id: Seq<char>) -> bool {
        heard_from(self.nodes, self.outputs, id)
    }

    /// The graph after one frame: every node that was asked for a sample has
    /// moved on by exactly one step, and nothing else has changed.
    pub open spec fn after_frame(self, sample_rate: u32) -> Self {
        GraphView {
            nodes: Map::new(
                |id: Seq<char>| self.nodes.contains_key(id),
                |id: Seq<char>|
                    NodeView {
                        dependencies: self.nodes[id].dependencies,
                        generator: if self.heard(id) {
                            self.nodes[id].generator.advanced(sample_rate)
                        } else {
                            self.nodes[id].generator
                        },
                    },
            ),
            outputs: self.outputs,
        }
    }

    /// The graph after `count` frames without edits.
    pub open spec fn after_frames(self, sample_rate: u32, count: nat) -> Self
        decreases count,
    {
        if count == 0 {
            self
        } else {
            self.after_frames(sample_rate, (count - 1) as nat).after_frame(sample_rate)
        }
    }

    /// The mixed samples of the next `count` frames, when no edit intervenes.
    pub open spec fn frames(self, sample_rate: u32, count: nat) -> Seq<int>
        decreases count,
    {
        if count == 0 {
            Seq::empty()
        } else {
            self.frames(sample_rate, (count - 1) as nat).push(
                self.after_frames(sample_rate, (count - 1) as nat).mix(sample_rate),
            )
        }
    }

    /// The graph after one frame for each batch of edits: a frame first takes
    /// its batch of edits, then is rendered.
    pub open spec fn streamed(self, batches: Seq<Seq<Instruction<G>>>, sample_rate: u32) -> Self
        decreases batches.len(),
    {
        if batches.len() == 0 {
            self
        } else {
            self.streamed(batches.drop_last(), sample_rate).apply_all(batches.last()).after_frame(
                sample_rate,
            )
        }
    }

    /// The mixed samples of those frames.
    pub open spec fn stream_samples(
        self,
        batches: Seq<Seq<Instruction<G>>>,
        sample_rate: u32,
    ) -> Seq<int>
        decreases batches.len(),
    {
        if batches.len() == 0 {
            Seq::empty()
        } else {
            self.stream_samples(batches.drop_last(), sample_rate).push(
                self.streamed(batches.drop_last(), sample_rate).apply_all(batches.last()).mix(
                    sample_rate,
                ),
            )
        }
    }
}

} // verus!
