//! The graph of nodes, its edits, and its evaluation one frame at a time.

use crate::generator::{Generator, GeneratorWrapper, NodeView};
use crate::id_set::IdSet;
use crate::instruction::{bus_id, Instruction};
use crate::model::{contribution, contribution_term, heard_from, sample_term, GraphView};
use crate::sums::{
    lemma_sum_over_bounds, lemma_sum_whole_is_sum_over, lemma_take_one_more,
    lemma_toward_zero_bounds, sum_prefix,
};
use vstd::prelude::*;

verus! {

/// The nodes of a vector as a map from identifier to node.
spec fn node_map<G>(nodes: Seq<GeneratorWrapper<G>>) -> Map<Seq<char>, NodeView<G>> {
    Map::new(
        |id: Seq<char>| exists|i: int| 0 <= i < nodes.len() && #[trigger] nodes[i].id@ == id,
        |id: Seq<char>| nodes[index_of(nodes, id)]@,
    )
}

/// The place of the node named `id` in a vector of nodes.
spec fn index_of<G>(nodes: Seq<GeneratorWrapper<G>>, id: Seq<char>) -> int {
    choose|i: int| 0 <= i < nodes.len() && #[trigger] nodes[i].id@ == id
}

/// No two nodes of the vector have the same identifier, and no node lists an
/// identifier twice.
spec fn distinct_nodes<G>(nodes: Seq<GeneratorWrapper<G>>) -> bool {
    &&& forall|i: int, j: int|
        0 <= i < nodes.len() && 0 <= j < nodes.len() && i != j ==> #[trigger] nodes[i].id@
            != #[trigger] nodes[j].id@
    &&& forall|i: int| 0 <= i < nodes.len() ==> #[trigger] nodes[i].dependencies.inv()
}

/// The identifiers of a vector of nodes, in order.
spec fn node_ids<G>(nodes: Seq<GeneratorWrapper<G>>) -> Seq<Seq<char>> {
    Seq::new(nodes.len(), |i: int| nodes[i].id@)
}

/// In a vector of distinct nodes, each node is what the map holds under its
/// identifier.
proof fn lemma_node_map_at<G>(nodes: Seq<GeneratorWrapper<G>>, i: int)
    requires
        distinct_nodes(nodes),
        0 <= i < nodes.len(),
    ensures
        node_map(nodes).contains_key(nodes[i].id@),
        node_map(nodes)[nodes[i].id@] == nodes[i]@,
        index_of(nodes, nodes[i].id@) == i,
{
    let j = index_of(nodes, nodes[i].id@);
    assert(nodes[j].id@ == nodes[i].id@);
}

/// The map of a vector of distinct nodes has one key for each node.
proof fn lemma_node_map_size<G>(nodes: Seq<GeneratorWrapper<G>>)
    requires
        distinct_nodes(nodes),
    ensures
        node_map(nodes).dom().finite(),
        node_map(nodes).len() == nodes.len(),
        node_map(nodes).dom() == node_ids(nodes).to_set(),
{
    let ids = node_ids(nodes);
    assert(node_map(nodes).dom() =~= ids.to_set()) by {
        assert forall|id: Seq<char>| node_map(nodes).dom().contains(id) implies ids.to_set().contains(
            id,
        ) by {
            let i = index_of(nodes, id);
            assert(ids[i] == id);
        }
        assert forall|id: Seq<char>| ids.to_set().contains(id) implies node_map(nodes).dom().contains(
            id,
        ) by {
            let i = choose|i: int| 0 <= i < ids.len() && #[trigger] ids[i] == id;
            assert(nodes[i].id@ == id);
        }
    }
    assert(ids.no_duplicates()) by {
        assert forall|i: int, j: int| 0 <= i < ids.len() && 0 <= j < ids.len() && i != j implies ids[i]
            != ids[j] by {
            assert(nodes[i].id@ != nodes[j].id@);
        }
    }
    vstd::seq_lib::seq_to_set_is_finite(ids);
    ids.unique_seq_to_set();
}

/// Appending a node with a new identifier inserts it into the map.
proof fn lemma_node_map_push<G>(nodes: Seq<GeneratorWrapper<G>>, node: GeneratorWrapper<G>)
    requires
        distinct_nodes(nodes),
        node.dependencies.inv(),
        forall|i: int| 0 <= i < nodes.len() ==> #[trigger] nodes[i].id@ != node.id@,
    ensures
        distinct_nodes(nodes.push(node)),
        node_map(nodes.push(node)) == node_map(nodes).insert(node.id@, node@),
{
    let longer = nodes.push(node);
    let last = nodes.len() as int;
    assert(longer[last] == node);
    assert(distinct_nodes(longer)) by {
        assert forall|i: int, j: int|
            0 <= i < longer.len() && 0 <= j < longer.len() && i != j implies #[trigger] longer[i].id@
            != #[trigger] longer[j].id@ by {
            if i < last {
                assert(longer[i] == nodes[i]);
            }
            if j < last {
                assert(longer[j] == nodes[j]);
            }
        }
        assert forall|i: int| 0 <= i < longer.len() implies #[trigger] longer[i].dependencies.inv() by {
            if i < last {
                assert(longer[i] == nodes[i]);
            }
        }
    }
    let wanted = node_map(nodes).insert(node.id@, node@);
    assert forall|id: Seq<char>| node_map(longer).contains_key(id) <==> wanted.contains_key(id) by {
        if node_map(longer).contains_key(id) {
            let i = index_of(longer, id);
            if i < last {
                assert(nodes[i].id@ == id);
            }
        }
        if wanted.contains_key(id) && id != node.id@ {
            let i = index_of(nodes, id);
            assert(longer[i].id@ == id);
        }
        if id == node.id@ {
            assert(longer[last].id@ == id);
        }
    }
    assert forall|id: Seq<char>| node_map(longer).contains_key(id) implies node_map(longer)[id]
        == wanted[id] by {
        let i = index_of(longer, id);
        lemma_node_map_at(longer, i);
        if i < last {
            assert(longer[i] == nodes[i]);
            lemma_node_map_at(nodes, i);
        }
    }
    assert(node_map(longer) =~= wanted);
}

/// Putting a node in the place of one with the same identifier overwrites
/// that identifier's entry in the map.
proof fn lemma_node_map_update<G>(
    nodes: Seq<GeneratorWrapper<G>>,
    at: int,
    node: GeneratorWrapper<G>,
)
    requires
        distinct_nodes(nodes),
        node.dependencies.inv(),
        0 <= at < nodes.len(),
        nodes[at].id@ == node.id@,
    ensures
        distinct_nodes(nodes.update(at, node)),
        node_map(nodes.update(at, node)) == node_map(nodes).insert(node.id@, node@),
{
    let changed = nodes.update(at, node);
    assert(distinct_nodes(changed)) by {
        assert forall|i: int, j: int|
            0 <= i < changed.len() && 0 <= j < changed.len() && i != j implies #[trigger] changed[i].id@
            != #[trigger] changed[j].id@ by {
            assert(changed[i].id@ == nodes[i].id@);
            assert(changed[j].id@ == nodes[j].id@);
        }
        assert forall|i: int| 0 <= i < changed.len() implies #[trigger] changed[i].dependencies.inv() by {
            if i != at {
                assert(changed[i] == nodes[i]);
            }
        }
    }
    let wanted = node_map(nodes).insert(node.id@, node@);
    assert forall|id: Seq<char>| node_map(changed).contains_key(id) <==> wanted.contains_key(id) by {
        if node_map(changed).contains_key(id) {
            let i = index_of(changed, id);
            assert(nodes[i].id@ == id);
        }
        if wanted.contains_key(id) && id != node.id@ {
            let i = index_of(nodes, id);
            assert(changed[i].id@ == id);
        }
        if id == node.id@ {
            assert(changed[at].id@ == id);
        }
    }
    assert forall|id: Seq<char>| node_map(changed).contains_key(id) implies node_map(changed)[id]
        == wanted[id] by {
        let i = index_of(changed, id);
        lemma_node_map_at(changed, i);
        if i != at {
            assert(changed[i] == nodes[i]);
            lemma_node_map_at(nodes, i);
        }
    }
    assert(node_map(changed) =~= wanted);
}

/// Taking a node out of the vector removes its identifier from the map.
proof fn lemma_node_map_remove<G>(nodes: Seq<GeneratorWrapper<G>>, at: int)
    requires
        distinct_nodes(nodes),
        0 <= at < nodes.len(),
    ensures
        distinct_nodes(nodes.remove(at)),
        node_map(nodes.remove(at)) == node_map(nodes).remove(nodes[at].id@),
{
    let fewer = nodes.remove(at);
    let back = |i: int| if i < at { i } else { i + 1 };
    assert forall|i: int| 0 <= i < fewer.len() implies #[trigger] fewer[i] == nodes[back(i)] by {}
    assert(distinct_nodes(fewer)) by {
        assert forall|i: int, j: int|
            0 <= i < fewer.len() && 0 <= j < fewer.len() && i != j implies #[trigger] fewer[i].id@
            != #[trigger] fewer[j].id@ by {
            assert(fewer[i] == nodes[back(i)]);
            assert(fewer[j] == nodes[back(j)]);
        }
        assert forall|i: int| 0 <= i < fewer.len() implies #[trigger] fewer[i].dependencies.inv() by {
            assert(fewer[i] == nodes[back(i)]);
        }
    }
    let wanted = node_map(nodes).remove(nodes[at].id@);
    assert forall|id: Seq<char>| node_map(fewer).contains_key(id) <==> wanted.contains_key(id) by {
        if node_map(fewer).contains_key(id) {
            let i = index_of(fewer, id);
            assert(fewer[i] == nodes[back(i)]);
            assert(nodes[back(i)].id@ == id);
        }
        if wanted.contains_key(id) {
            let i = index_of(nodes, id);
            assert(i != at);
            let j = if i < at { i } else { i - 1 };
            assert(fewer[j] == nodes[back(j)]);
            assert(fewer[j].id@ == id);
        }
    }
    assert forall|id: Seq<char>| node_map(fewer).contains_key(id) implies node_map(fewer)[id]
        == wanted[id] by {
        let i = index_of(fewer, id);
        lemma_node_map_at(fewer, i);
        assert(fewer[i] == nodes[back(i)]);
        lemma_node_map_at(nodes, back(i));
    }
    assert(node_map(fewer) =~= wanted);
}

/// The place of the node named `id`, if there is one.
fn find<G>(nodes: &Vec<GeneratorWrapper<G>>, id: &String) -> (place: Option<usize>)
    ensures
        match place {
            Some(i) => i < nodes.len() && nodes[i as int].id@ == id@,
            None => forall|i: int| 0 <= i < nodes.len() ==> #[trigger] nodes[i].id@ != id@,
        },
        place.is_some() == node_map(nodes@).contains_key(id@),
{
    let mut i: usize = 0;
    while i < nodes.len()
        invariant
            i <= nodes.len(),
            forall|k: int| 0 <= k < i ==> #[trigger] nodes[k].id@ != id@,
        decreases nodes.len() - i,
    {
        if nodes[i].id == *id {
            return Some(i);
        }
        i += 1;
    }
    None
}

/// A node in the course of a frame, beside the same node as the frame found
/// it: it has a cached sample, and has moved on by one step, exactly if its
/// identifier has been asked for a sample.
spec fn in_step<G: Generator>(
    node: GeneratorWrapper<G>,
    cached: Option<i32>,
    first: GeneratorWrapper<G>,
    drawn: Set<Seq<char>>,
    sample_rate: u32,
) -> bool {
    &&& node.id == first.id
    &&& node.dependencies == first.dependencies
    &&& match cached {
        Some(kept) => {
            &&& drawn.contains(first.id@)
            &&& kept == first.generator.upcoming(sample_rate)
            &&& node.generator == first.generator.advanced(sample_rate)
        },
        None => !drawn.contains(first.id@) && node.generator == first.generator,
    }
}

/// An evaluation in progress. `origin` holds the nodes as the frame found
/// them and `drawn` the identifiers already asked for a sample.
spec fn mid_frame<G: Generator>(
    nodes: Seq<GeneratorWrapper<G>>,
    cache: Seq<Option<i32>>,
    origin: Seq<GeneratorWrapper<G>>,
    drawn: Set<Seq<char>>,
    sample_rate: u32,
) -> bool {
    &&& nodes.len() == origin.len()
    &&& cache.len() == origin.len()
    &&& forall|j: int|
        0 <= j < origin.len() ==> in_step(
            nodes[j],
            cache[j],
            #[trigger] origin[j],
            drawn,
            sample_rate,
        )
}

/// The existing nodes that the node at place `at` listens to.
spec fn listened<G>(origin: Seq<GeneratorWrapper<G>>, at: int) -> Set<Seq<char>> {
    Set::new(
        |id: Seq<char>|
            node_map(origin).contains_key(id) && origin[at].dependencies@.contains(id),
    )
}

/// An identifier that no node of the vector bears is no key of the map.
proof fn lemma_node_map_absent<G>(nodes: Seq<GeneratorWrapper<G>>, id: Seq<char>)
    requires
        forall|i: int| 0 <= i < nodes.len() ==> #[trigger] nodes[i].id@ != id,
    ensures
        !node_map(nodes).contains_key(id),
{
}

/// Taking one more sink into account adds what that sink listens to.
proof fn lemma_heard_from_step<G>(
    nodes: Map<Seq<char>, NodeView<G>>,
    sinks: Seq<Seq<char>>,
    k: int,
    id: Seq<char>,
)
    requires
        0 <= k < sinks.len(),
    ensures
        heard_from(nodes, sinks.take(k + 1).to_set(), id) <==> heard_from(
            nodes,
            sinks.take(k).to_set(),
            id,
        ) || (nodes.contains_key(id) && nodes.contains_key(sinks[k])
            && nodes[sinks[k]].dependencies.contains(id)),
{
    let fewer = sinks.take(k).to_set();
    let more = sinks.take(k + 1).to_set();
    assert forall|sink: Seq<char>| more.contains(sink) <==> fewer.contains(sink) || sink
        == sinks[k] by {
        lemma_take_one_more(sinks, k, sink);
    }
    if heard_from(nodes, more, id) {
        let sink = choose|sink: Seq<char>|
            #![trigger more.contains(sink)]
            more.contains(sink) && nodes.contains_key(sink) && nodes[sink].dependencies.contains(
                id,
            );
        if sink != sinks[k] {
            assert(fewer.contains(sink));
        }
    }
    if heard_from(nodes, fewer, id) {
        let sink = choose|sink: Seq<char>|
            #![trigger fewer.contains(sink)]
            fewer.contains(sink) && nodes.contains_key(sink) && nodes[sink].dependencies.contains(
                id,
            );
        assert(more.contains(sink));
    }
    if nodes.contains_key(id) && nodes.contains_key(sinks[k]) && nodes[sinks[k]].dependencies.contains(
        id,
    ) {
        assert(more.contains(sinks[k]));
    }
}

/// The contribution of the node at place `at`, drawing a sample from each
/// node it listens to that has not been asked in this frame yet.
fn draw_contribution<G: Generator>(
    nodes: &mut Vec<GeneratorWrapper<G>>,
    cache: &mut Vec<Option<i32>>,
    at: usize,
    sample_rate: u32,
    Ghost(origin): Ghost<Seq<GeneratorWrapper<G>>>,
    Ghost(drawn): Ghost<Set<Seq<char>>>,
) -> (share: i32)
    requires
        distinct_nodes(origin),
        mid_frame(old(nodes)@, old(cache)@, origin, drawn, sample_rate),
        at < origin.len(),
    ensures
        mid_frame(
            final(nodes)@,
            final(cache)@,
            origin,
            drawn.union(listened(origin, at as int)),
            sample_rate,
        ),
        share == contribution(node_map(origin), origin[at as int].id@, sample_rate),
{
    let ghost all = node_map(origin);
    let ghost wanted = origin[at as int].dependencies.seq();
    let ghost term = sample_term(all, sample_rate);
    let count = nodes[at].dependencies.len();
    let mut total: i128 = 0;
    let mut t: usize = 0;
    let ghost mut seen = drawn;
    proof {
        assert(nodes[at as int].dependencies == origin[at as int].dependencies);
        origin[at as int].dependencies.lemma_view();
    }
    while t < count
        invariant
            distinct_nodes(origin),
            at < origin.len(),
            all == node_map(origin),
            wanted == origin[at as int].dependencies.seq(),
            wanted.no_duplicates(),
            term == sample_term(all, sample_rate),
            count == wanted.len(),
            t <= count,
            mid_frame(nodes@, cache@, origin, seen, sample_rate),
            forall|id: Seq<char>|
                seen.contains(id) <==> drawn.contains(id) || (all.contains_key(id) && wanted.take(
                    t as int,
                ).contains(id)),
            total == sum_prefix(wanted, t as int, term),
            -(t * 0x8000_0000) <= total <= t * 0x8000_0000,
        decreases count - t,
    {
        assert(nodes[at as int].dependencies == origin[at as int].dependencies);
        let ghost listened_id = wanted[t as int];
        let place = find(nodes, nodes[at].dependencies.get(t));
        proof {
            assert(sum_prefix(wanted, t as int + 1, term) == sum_prefix(wanted, t as int, term)
                + term(listened_id));
        }
        match place {
            Some(j) => {
                proof {
                    assert(nodes[j as int].id == origin[j as int].id);
                    lemma_node_map_at(origin, j as int);
                }
                let drawn_sample = match cache[j] {
                    Some(kept) => kept,
                    None => {
                        let fresh = nodes[j].generator.next_sample(sample_rate);
                        cache[j] = Some(fresh);
                        fresh
                    },
                };
                total = total + drawn_sample as i128;
                proof {
                    let ghost next_seen = seen.insert(listened_id);
                    assert forall|id: Seq<char>|
                        next_seen.contains(id) <==> drawn.contains(id) || (all.contains_key(id)
                            && wanted.take(t as int + 1).contains(id)) by {
                        lemma_take_one_more(wanted, t as int, id);
                    }
                    assert forall|i: int| 0 <= i < origin.len() implies in_step(
                        nodes@[i],
                        cache@[i],
                        #[trigger] origin[i],
                        next_seen,
                        sample_rate,
                    ) by {
                        if i != j {
                            assert(origin[i].id@ != origin[j as int].id@);
                        }
                    }
                    seen = next_seen;
                }
            },
            None => {
                proof {
                    assert forall|i: int| 0 <= i < origin.len() implies #[trigger] origin[i].id@
                        != listened_id by {
                        assert(nodes[i].id == origin[i].id);
                    }
                    lemma_node_map_absent(origin, listened_id);
                    assert forall|id: Seq<char>|
                        seen.contains(id) <==> drawn.contains(id) || (all.contains_key(id)
                            && wanted.take(t as int + 1).contains(id)) by {
                        lemma_take_one_more(wanted, t as int, id);
                    }
                }
            },
        }
        t += 1;
    }
    let width = nodes.len();
    proof {
        let members = origin[at as int].dependencies@;
        assert(wanted.take(count as int) =~= wanted);
        lemma_sum_whole_is_sum_over(wanted, term);
        lemma_node_map_size(origin);
        lemma_node_map_at(origin, at as int);
        assert forall|id: Seq<char>| members.contains(id) && all.dom().contains(id) implies i32::MIN
            <= #[trigger] term(id) <= i32::MAX by {}
        assert forall|id: Seq<char>| members.contains(id) && !all.dom().contains(id) implies #[trigger] term(
            id,
        ) == 0 by {}
        lemma_sum_over_bounds(members, term, all.dom(), i32::MIN as int, i32::MAX as int);
        let live = members.intersect(all.dom());
        assert(live.subset_of(all.dom()));
        vstd::set_lib::lemma_len_subset(live, all.dom());
        lemma_toward_zero_bounds(
            total as int,
            live.len() as int,
            width as int,
            i32::MIN as int,
            i32::MAX as int,
        );
        assert forall|id: Seq<char>|
            seen.contains(id) <==> drawn.union(listened(origin, at as int)).contains(id) by {}
        assert(mid_frame(
            nodes@,
            cache@,
            origin,
            drawn.union(listened(origin, at as int)),
            sample_rate,
        ));
    }
    (total / (width as i128)) as i32
}

/// The graph: nodes under unique identifiers, and the set of identifiers that
/// feed the output bus.
pub struct Graph<G> {
    nodes: Vec<GeneratorWrapper<G>>,
    outputs: IdSet,
    /// The samples already drawn in the present frame, by the node's place.
    cache: Vec<Option<i32>>,
    bus: String,
}

impl<G: Generator> Graph<G> {
    /// Identifiers are unique, within the graph and within each set.
    pub closed spec fn wf(&self) -> bool {
        &&& distinct_nodes(self.nodes@)
        &&& self.outputs.inv()
        &&& self.bus@ == bus_id()
    }

    pub closed spec fn view(&self) -> GraphView<G> {
        GraphView { nodes: node_map(self.nodes@), outputs: self.outputs@ }
    }

    /// The view of a well-formed graph is finite throughout.
    pub proof fn lemma_view_valid(&self)
        requires
            self.wf(),
        ensures
            self@.valid(),
    {
        lemma_node_map_size(self.nodes@);
        self.outputs.lemma_view();
        assert forall|id: Seq<char>| #[trigger]
            self@.nodes.contains_key(id) implies self@.nodes[id].dependencies.finite() by {
            let i = index_of(self.nodes@, id);
            lemma_node_map_at(self.nodes@, i);
            self.nodes@[i].dependencies.lemma_view();
        }
    }

    /// A graph without nodes and without outputs.
    pub fn new() -> (graph: Self)
        ensures
            graph.wf(),
            graph@ == GraphView::<G>::empty(),
    {
        let outputs = IdSet::new();
        let graph = Graph { nodes: Vec::new(), outputs, cache: Vec::new(), bus: "out".to_owned() };
        assert(graph@.nodes =~= Map::<Seq<char>, NodeView<G>>::empty());
        graph
    }

    /// The number of nodes.
    pub fn node_count(&self) -> (count: usize)
        requires
            self.wf(),
        ensures
            count == self@.nodes.len(),
    {
        proof {
            lemma_node_map_size(self.nodes@);
        }
        self.nodes.len()
    }

    /// The number of identifiers bound to the output bus.
    pub fn output_count(&self) -> (count: usize)
        ensures
            count == self@.outputs.len(),
    {
        self.outputs.len()
    }

    /// Whether a node named `id` exists.
    pub fn contains(&self, id: &String) -> (found: bool)
        ensures
            found == self@.nodes.contains_key(id@),
    {
        find(&self.nodes, id).is_some()
    }

    /// The node named `id`, if it exists.
    pub fn node(&self, id: &String) -> (found: Option<&GeneratorWrapper<G>>)
        requires
            self.wf(),
        ensures
            match found {
                Some(node) => self@.nodes.contains_key(id@) && node.id@ == id@ && node@
                    == self@.nodes[id@],
                None => !self@.nodes.contains_key(id@),
            },
    {
        match find(&self.nodes, id) {
            Some(i) => {
                proof {
                    lemma_node_map_at(self.nodes@, i as int);
                }
                Some(&self.nodes[i])
            },
            None => None,
        }
    }

    /// Whether `id` is bound to the output bus.
    pub fn is_output(&self, id: &String) -> (bound: bool)
        ensures
            bound == self@.outputs.contains(id@),
    {
        self.outputs.contains(id)
    }

    /// Whether the node `sink` exists and listens to `source`.
    pub fn listens_to(&self, sink: &String, source: &String) -> (bound: bool)
        requires
            self.wf(),
        ensures
            bound == (self@.nodes.contains_key(sink@) && self@.nodes[sink@].dependencies.contains(
                source@,
            )),
    {
        match find(&self.nodes, sink) {
            Some(i) => {
                proof {
                    lemma_node_map_at(self.nodes@, i as int);
                }
                self.nodes[i].dependencies.contains(source)
            },
            None => false,
        }
    }

    /// Applies one edit.
    ///
    /// A new node takes the place of any node of the same name; deleting
    /// leaves the references to the deleted name where they are; binding to
    /// the bus name adds an output, and binding to a name without a node does
    /// nothing.
    pub fn apply(&mut self, instruction: Instruction<G>)
        requires
            old(self).wf(),
        ensures
            final(self).wf(),
            final(self)@ == old(self)@.apply(instruction),
    {
        match instruction {
            Instruction::NewGenerator(id, generator) => {
                let node = GeneratorWrapper { id, dependencies: IdSet::new(), generator };
                match find(&self.nodes, &node.id) {
                    Some(i) => {
                        proof {
                            lemma_node_map_update(self.nodes@, i as int, node);
                        }
                        self.nodes[i] = node;
                    },
                    None => {
                        proof {
                            lemma_node_map_push(self.nodes@, node);
                        }
                        self.nodes.push(node);
                    },
                }
            },
            Instruction::DeleteGenerator(id) => {
                match find(&self.nodes, &id) {
                    Some(i) => {
                        proof {
                            lemma_node_map_remove(self.nodes@, i as int);
                        }
                        self.nodes.remove(i);
                    },
                    None => {
                        assert(self@.nodes.remove(id@) =~= self@.nodes);
                    },
                }
            },
            Instruction::BindGenerator(source, sink) => {
                if sink == self.bus {
                    self.outputs.insert(source);
                } else {
                    match find(&self.nodes, &sink) {
                        Some(i) => {
                            let ghost before = self.nodes@;
                            self.nodes[i].dependencies.insert(source);
                            proof {
                                lemma_node_map_at(before, i as int);
                                assert(self.nodes@ =~= before.update(i as int, self.nodes@[i as int]));
                                lemma_node_map_update(before, i as int, self.nodes@[i as int]);
                            }
                        },
                        None => {},
                    }
                }
            },
        }
    }

    /// Renders one frame: returns the mixed sample and moves every node that
    /// was asked for a sample on by one step.
    ///
    /// A node is asked at most once, however many nodes listen to it; an
    /// identifier without a node adds nothing; without outputs the frame is
    /// silent.
    pub fn render_frame(&mut self, sample_rate: u32) -> (mixed: i32)
        requires
            old(self).wf(),
        ensures
            final(self).wf(),
            mixed == old(self)@.mix(sample_rate),
            final(self)@ == old(self)@.after_frame(sample_rate),
    {
        let ghost origin = self.nodes@;
        let ghost all = node_map(origin);
        let ghost sinks = self.outputs.seq();
        let ghost term = contribution_term(all, sample_rate);
        let width = self.nodes.len();
        self.cache.clear();
        let mut j: usize = 0;
        while j < width
            invariant
                j <= width,
                self.cache@.len() == j,
                forall|i: int| 0 <= i < j ==> self.cache@[i] == None::<i32>,
                self.nodes@ == origin,
                self.outputs == old(self).outputs,
                self.bus == old(self).bus,
            decreases width - j,
        {
            self.cache.push(None);
            j += 1;
        }
        let count = self.outputs.len();
        let mut total: i128 = 0;
        let mut k: usize = 0;
        let ghost mut drawn = Set::<Seq<char>>::empty();
        proof {
            self.outputs.lemma_view();
            assert(sinks.take(0).to_set() =~= Set::<Seq<char>>::empty());
        }
        while k < count
            invariant
                distinct_nodes(origin),
                all == node_map(origin),
                sinks == self.outputs.seq(),
                sinks.no_duplicates(),
                term == contribution_term(all, sample_rate),
                count == sinks.len(),
                k <= count,
                self.outputs == old(self).outputs,
                self.bus == old(self).bus,
                mid_frame(self.nodes@, self.cache@, origin, drawn, sample_rate),
                forall|id: Seq<char>|
                    drawn.contains(id) <==> heard_from(all, sinks.take(k as int).to_set(), id),
                total == sum_prefix(sinks, k as int, term),
                k * i32::MIN <= total <= k * i32::MAX,
            decreases count - k,
        {
            let ghost sink = sinks[k as int];
            let place = find(&self.nodes, self.outputs.get(k));
            proof {
                assert(sum_prefix(sinks, k as int + 1, term) == sum_prefix(sinks, k as int, term)
                    + term(sink));
                assert forall|id: Seq<char>|
                    heard_from(all, sinks.take(k as int + 1).to_set(), id) <==> heard_from(
                        all,
                        sinks.take(k as int).to_set(),
                        id,
                    ) || (all.contains_key(id) && all.contains_key(sink)
                        && all[sink].dependencies.contains(id)) by {
                    lemma_heard_from_step(all, sinks, k as int, id);
                }
            }
            match place {
                Some(i) => {
                    proof {
                        assert(self.nodes@[i as int].id == origin[i as int].id);
                        lemma_node_map_at(origin, i as int);
                    }
                    let share = draw_contribution(
                        &mut self.nodes,
                        &mut self.cache,
                        i,
                        sample_rate,
                        Ghost(origin),
                        Ghost(drawn),
                    );
                    total = total + share as i128;
                    proof {
                        drawn = drawn.union(listened(origin, i as int));
                    }
                },
                None => {
                    proof {
                        assert forall|i: int| 0 <= i < origin.len() implies #[trigger] origin[i].id@
                            != sink by {
                            assert(self.nodes@[i].id == origin[i].id);
                        }
                        lemma_node_map_absent(origin, sink);
                    }
                },
            }
            k += 1;
        }
        proof {
            assert(sinks.take(count as int) =~= sinks);
            lemma_sum_whole_is_sum_over(sinks, term);
            if count > 0 {
                lemma_toward_zero_bounds(
                    total as int,
                    count as int,
                    count as int,
                    i32::MIN as int,
                    i32::MAX as int,
                );
            }
            assert(distinct_nodes(self.nodes@)) by {
                assert forall|a: int, b: int|
                    0 <= a < origin.len() && 0 <= b < origin.len() && a != b implies #[trigger] self.nodes@[a].id@
                    != #[trigger] self.nodes@[b].id@ by {
                    assert(origin[a].id@ != origin[b].id@);
                }
                assert forall|a: int| 0 <= a < origin.len() implies #[trigger] self.nodes@[a].dependencies.inv() by {
                    assert(origin[a].dependencies.inv());
                }
            }
            let wanted = old(self)@.after_frame(sample_rate).nodes;
            let got = node_map(self.nodes@);
            assert forall|id: Seq<char>| got.contains_key(id) <==> wanted.contains_key(id) by {
                if got.contains_key(id) {
                    let i = index_of(self.nodes@, id);
                    assert(origin[i].id@ == id);
                }
                if wanted.contains_key(id) {
                    let i = index_of(origin, id);
                    assert(self.nodes@[i].id@ == id);
                }
            }
            assert forall|id: Seq<char>| got.contains_key(id) implies got[id] == wanted[id] by {
                let i = index_of(self.nodes@, id);
                lemma_node_map_at(self.nodes@, i);
                lemma_node_map_at(origin, i);
            }
            assert(got =~= wanted);
        }
        if count == 0 {
            0
        } else {
            (total / (count as i128)) as i32
        }
    }
}

} // verus!
