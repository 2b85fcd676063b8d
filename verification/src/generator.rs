//! The sample-producing capability that nodes wrap, and the node itself.

use crate::id_set::IdSet;
use vstd::prelude::*;

verus! {

/// A stateful source of samples.
///
/// Samples and control values are fixed-point integers, and the sample rate
/// is in hertz. A generator is a deterministic machine: its next sample and
/// its next state are functions of its present state and of the sample rate.
/// The three spec functions name those functions. A verified implementation
/// defines them and proves its methods against them; for an implementation
/// that is not verified they stay unspecified, and what the graph states of
/// its samples holds as far as it is such a machine.
pub trait Generator: Send + Sized {
    /// The sample that the next call of `next_sample` yields.
    open spec fn upcoming(&self, sample_rate: u32) -> i32 {
        arbitrary()
    }

    /// The generator as that call leaves it.
    open spec fn advanced(&self, sample_rate: u32) -> Self {
        arbitrary()
    }

    /// The generator as `input_control` leaves it.
    open spec fn controlled(&self, inputs: Seq<i32>) -> Self {
        arbitrary()
    }

    /// Yields one sample and moves on by one step. It is called at audio
    /// rate: it should neither allocate nor block.
    fn next_sample(&mut self, sample_rate: u32) -> (sample: i32)
        ensures
            sample == old(self).upcoming(sample_rate),
            *final(self) == old(self).advanced(sample_rate),
    ;

    /// Takes control values, whose meaning each generator defines for itself.
    /// Values that it cannot use are to be ignored.
    fn input_control(&mut self, inputs: Vec<i32>)
        ensures
            *final(self) == old(self).controlled(inputs@),
    ;
}

/// What a node is to the graph: the identifiers it listens to, and its
/// generator.
pub struct NodeView<G> {
    pub dependencies: Set<Seq<char>>,
    pub generator: G,
}

/// A node: a generator under a fixed identifier, with the identifiers of the
/// nodes whose samples it sums.
pub struct GeneratorWrapper<G> {
    pub id: String,
    pub dependencies: IdSet,
    pub generator: G,
}

impl<G> GeneratorWrapper<G> {
    pub open spec fn view(&self) -> NodeView<G> {
        NodeView { dependencies: self.dependencies@, generator: self.generator }
    }

    /// A node named `id` that listens to nothing yet.
    pub fn new(id: &str, generator: G) -> (node: Self)
        ensures
            node.id@ == id@,
            node.dependencies@ == Set::<Seq<char>>::empty(),
            node.generator == generator,
    {
        GeneratorWrapper { id: id.to_owned(), dependencies: IdSet::new(), generator }
    }

    /// A copy of the node's identifier.
    pub fn get_id(&self) -> (id: String)
        ensures
            id@ == self.id@,
    {
        self.id.clone()
    }
}

} // verus!
