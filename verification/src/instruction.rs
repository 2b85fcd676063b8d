//! The structural edits that travel from the control side to the renderer.

use vstd::prelude::*;

verus! {

/// The identifier of the output bus: binding a node to it puts the node into
/// the final mix.
pub open spec fn bus_id() -> Seq<char> {
    "out"@
}

/// One edit of the graph.
pub enum Instruction<G> {
    /// Put a node of this name and with this generator into the graph, in
    /// place of any node of the same name. The new node listens to nothing.
    NewGenerator(String, G),
    /// Take the node of this name out of the graph.
    DeleteGenerator(String),
    /// Let the second node, or the output bus, listen to the first.
    BindGenerator(String, String),
}

} // verus!
