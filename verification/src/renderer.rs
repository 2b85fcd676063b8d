//! The renderer: the consuming end of the edit queue, the graph it edits, and
//! the loop that fills a buffer frame by frame.

use crate::generator::Generator;
use crate::graph::Graph;
use crate::instruction::Instruction;
use crate::laws::{lemma_quiet_stream, lemma_stream_samples_len};
use crate::model::GraphView;
use crate::queue::{take_next, waiting};
use crossbeam_channel::Receiver;
use vstd::prelude::*;

verus! {

/// Where a renderer stands in the life of its stream.
#[derive(Clone, Copy, Debug, PartialEq, Eq, Structural)]
pub enum RendererState {
    /// The stream has not started.
    Idle,
    /// Frames are being rendered.
    Streaming,
    /// The stream has been torn down.
    Stopped,
}

/// The renderer as a mathematical value.
pub struct RendererView<G> {
    pub graph: GraphView<G>,
    pub state: RendererState,
    pub sample_rate: u32,
    pub channels: usize,
}

/// The number of frames in a buffer of `len` samples: one for each started
/// group of `channels` samples.
pub open spec fn frame_count(len: int, channels: int) -> int {
    (len + channels - 1) / channels
}

/// The frame that the sample at place `i` of a buffer belongs to.
pub open spec fn frame_of(i: int, channels: int) -> int {
    i / channels
}

/// Every one of the first `upto` samples of `data` holds the mixed sample of
/// the frame it belongs to.
pub open spec fn frames_written(data: Seq<i32>, mixed: Seq<int>, channels: int, upto: int) -> bool {
    forall|i: int|
        0 <= i < upto ==> 0 <= #[trigger] frame_of(i, channels) < mixed.len() && data[i]
            == mixed[frame_of(i, channels)]
}

/// Writing a frame's sample at the next place extends what is written by one
/// sample.
proof fn lemma_written_one_more(
    data: Seq<i32>,
    mixed: Seq<int>,
    channels: int,
    upto: int,
    frame: int,
)
    requires
        frames_written(data, mixed, channels, upto),
        0 < channels,
        0 <= frame < mixed.len(),
        frame * channels <= upto < frame * channels + channels,
        upto < data.len(),
        i32::MIN <= mixed[frame] <= i32::MAX,
    ensures
        frames_written(data.update(upto, mixed[frame] as i32), mixed, channels, upto + 1),
{
    vstd::arithmetic::div_mod::lemma_fundamental_div_mod_converse(
        upto,
        channels,
        frame,
        upto - frame * channels,
    );
}

/// The single owner of a graph. It takes edits from the queue and renders
/// frames only while it is streaming.
#[verifier::reject_recursive_types(G)]
pub struct Renderer<G> {
    graph: Graph<G>,
    receiver: Receiver<Instruction<G>>,
    sample_rate: u32,
    channels: usize,
    state: RendererState,
}

impl<G: Generator> Renderer<G> {
    /// The graph is well formed and a frame has at least one channel.
    pub closed spec fn wf(&self) -> bool {
        self.graph.wf() && self.channels > 0
    }

    pub closed spec fn view(&self) -> RendererView<G> {
        RendererView {
            graph: self.graph@,
            state: self.state,
            sample_rate: self.sample_rate,
            channels: self.channels,
        }
    }

    /// An idle renderer with an empty graph, fed by `receiver`.
    pub fn new(receiver: Receiver<Instruction<G>>, sample_rate: u32, channels: usize) -> (renderer:
        Self)
        requires
            channels > 0,
        ensures
            renderer.wf(),
            renderer@ == (RendererView {
                graph: GraphView::<G>::empty(),
                state: RendererState::Idle,
                sample_rate,
                channels,
            }),
    {
        Renderer { graph: Graph::new(), receiver, sample_rate, channels, state: RendererState::Idle }
    }

    /// Where the renderer stands.
    pub fn state(&self) -> (state: RendererState)
        ensures
            state == self@.state,
    {
        self.state
    }

    /// The sample rate, in hertz.
    pub fn sample_rate(&self) -> (sample_rate: u32)
        ensures
            sample_rate == self@.sample_rate,
    {
        self.sample_rate
    }

    /// The number of channels in a frame.
    pub fn channels(&self) -> (channels: usize)
        requires
            self.wf(),
        ensures
            channels == self@.channels,
            channels > 0,
    {
        self.channels
    }

    /// The graph, to look at.
    pub fn graph(&self) -> (graph: &Graph<G>)
        requires
            self.wf(),
        ensures
            graph.wf(),
            graph@ == self@.graph,
    {
        &self.graph
    }

    /// Starts the stream. A stopped stream stays stopped.
    pub fn start(&mut self) -> (streaming: bool)
        requires
            old(self).wf(),
        ensures
            final(self).wf(),
            streaming == !(old(self)@.state is Stopped),
            final(self)@ == (RendererView {
                state: if streaming {
                    RendererState::Streaming
                } else {
                    RendererState::Stopped
                },
                ..old(self)@
            }),
    {
        match self.state {
            RendererState::Stopped => false,
            _ => {
                self.state = RendererState::Streaming;
                true
            },
        }
    }

    /// Tears the stream down.
    pub fn stop(&mut self)
        requires
            old(self).wf(),
        ensures
            final(self).wf(),
            final(self)@ == (RendererView { state: RendererState::Stopped, ..old(self)@ }),
    {
        self.state = RendererState::Stopped;
    }

    /// Takes up to `limit` edits from the queue and applies them in order,
    /// stopping early where the queue has no more. Returns how many were
    /// applied. Outside of streaming it leaves the queue alone.
    pub fn drain_at_most(&mut self, limit: usize) -> (applied: usize)
        requires
            old(self).wf(),
        ensures
            final(self).wf(),
            applied <= limit,
            !(old(self)@.state is Streaming) ==> applied == 0,
            exists|batch: Seq<Instruction<G>>|
                batch.len() == applied
                    && #[trigger] old(self)@.graph.apply_all(batch) == final(self)@.graph,
            final(self)@ == (RendererView { graph: final(self)@.graph, ..old(self)@ }),
    {
        let mut applied: usize = 0;
        let ghost mut batch = Seq::<Instruction<G>>::empty();
        match self.state {
            RendererState::Streaming => {
                while applied < limit
                    invariant
                        self.wf(),
                        applied <= limit,
                        batch.len() == applied,
                        old(self)@.graph.apply_all(batch) == self@.graph,
                        self@ == (RendererView { graph: self@.graph, ..old(self)@ }),
                    decreases limit - applied,
                {
                    match take_next(&self.receiver) {
                        Some(instruction) => {
                            proof {
                                assert(batch.push(instruction).drop_last() =~= batch);
                                batch = batch.push(instruction);
                            }
                            self.graph.apply(instruction);
                            applied += 1;
                        },
                        None => {
                            break ;
                        },
                    }
                }
            },
            _ => {},
        }
        assert(old(self)@.graph.apply_all(batch) == self@.graph);
        applied
    }

    /// Takes the edits that wait in the queue and applies them in order,
    /// without waiting for more: at most as many as the queue holds when the
    /// call begins, so that edits sent meanwhile wait for the next call.
    /// Returns how many were applied. Outside of streaming it leaves the
    /// queue alone.
    pub fn drain(&mut self) -> (applied: usize)
        requires
            old(self).wf(),
        ensures
            final(self).wf(),
            !(old(self)@.state is Streaming) ==> applied == 0,
            exists|batch: Seq<Instruction<G>>|
                batch.len() == applied
                    && #[trigger] old(self)@.graph.apply_all(batch) == final(self)@.graph,
            final(self)@ == (RendererView { graph: final(self)@.graph, ..old(self)@ }),
    {
        let pending = waiting(&self.receiver);
        self.drain_at_most(pending)
    }

    /// Renders the next frame: first takes the waiting edits, then evaluates
    /// the graph. Outside of streaming the frame is silent and nothing
    /// changes.
    pub fn next_frame(&mut self) -> (mixed: i32)
        requires
            old(self).wf(),
        ensures
            final(self).wf(),
            final(self)@ == (RendererView { graph: final(self)@.graph, ..old(self)@ }),
            old(self)@.state is Streaming ==> exists|batch: Seq<Instruction<G>>|
                #![trigger old(self)@.graph.apply_all(batch)]
                {
                    &&& mixed == old(self)@.graph.apply_all(batch).mix(old(self)@.sample_rate)
                    &&& final(self)@.graph == old(self)@.graph.apply_all(batch).after_frame(
                        old(self)@.sample_rate,
                    )
                },
            !(old(self)@.state is Streaming) ==> mixed == 0 && final(self)@.graph == old(
                self,
            )@.graph,
    {
        match self.state {
            RendererState::Streaming => {
                self.drain();
                self.graph.render_frame(self.sample_rate)
            },
            _ => 0,
        }
    }

    /// Fills `data` frame by frame: each group of `channels` samples is one
    /// frame, and every sample of a frame gets the frame's mixed sample. A
    /// last group that is shorter is a frame too. Before each frame the
    /// waiting edits are applied. Says whether any edit was applied.
    ///
    /// Outside of streaming the buffer is filled with silence and nothing
    /// else happens.
    pub fn process(&mut self, data: &mut [i32]) -> (edited: bool)
        requires
            old(self).wf(),
        ensures
            final(self).wf(),
            final(self)@ == (RendererView { graph: final(self)@.graph, ..old(self)@ }),
            final(data)@.len() == old(data)@.len(),
            old(self)@.state is Streaming ==> exists|batches: Seq<Seq<Instruction<G>>>|
                #![trigger old(self)@.graph.streamed(batches, old(self)@.sample_rate)]
                {
                    &&& batches.len() == frame_count(
                        old(data)@.len() as int,
                        old(self)@.channels as int,
                    )
                    &&& final(self)@.graph == old(self)@.graph.streamed(
                        batches,
                        old(self)@.sample_rate,
                    )
                    &&& frames_written(
                        final(data)@,
                        old(self)@.graph.stream_samples(batches, old(self)@.sample_rate),
                        old(self)@.channels as int,
                        final(data)@.len() as int,
                    )
                    &&& edited == exists|f: int| 0 <= f < batches.len() && #[trigger] batches[f].len() > 0
                },
            old(self)@.state is Streaming && !edited ==> {
                let count = frame_count(old(data)@.len() as int, old(self)@.channels as int) as nat;
                &&& final(self)@.graph == old(self)@.graph.after_frames(
                    old(self)@.sample_rate,
                    count,
                )
                &&& frames_written(
                    final(data)@,
                    old(self)@.graph.frames(old(self)@.sample_rate, count),
                    old(self)@.channels as int,
                    final(data)@.len() as int,
                )
            },
            !(old(self)@.state is Streaming) ==> {
                &&& !edited
                &&& final(self)@.graph == old(self)@.graph
                &&& forall|i: int| 0 <= i < final(data)@.len() ==> final(data)@[i] == 0
            },
    {
        let len = data.len();
        let channels = self.channels;
        let sample_rate = self.sample_rate;
        let ghost start = self@.graph;
        let ghost mut batches = Seq::<Seq<Instruction<G>>>::empty();
        let mut edited = false;
        let mut base: usize = 0;
        proof {
            if len == 0 {
                vstd::arithmetic::div_mod::lemma_fundamental_div_mod_converse(
                    channels as int - 1,
                    channels as int,
                    0,
                    channels as int - 1,
                );
            }
        }
        match self.state {
            RendererState::Streaming => {
                while base < len
                    invariant
                        self.wf(),
                        self@ == (RendererView { graph: self@.graph, ..old(self)@ }),
                        self@.state is Streaming,
                        channels == self@.channels,
                        sample_rate == self@.sample_rate,
                        channels > 0,
                        start == old(self)@.graph,
                        len == data@.len(),
                        len == old(data)@.len(),
                        base <= len,
                        base < len ==> base == batches.len() * channels,
                        base == len ==> batches.len() == frame_count(len as int, channels as int),
                        self@.graph == start.streamed(batches, sample_rate),
                        frames_written(
                            data@,
                            start.stream_samples(batches, sample_rate),
                            channels as int,
                            base as int,
                        ),
                        edited == exists|f: int|
                            0 <= f < batches.len() && #[trigger] batches[f].len() > 0,
                    decreases len - base,
                {
                    let ghost done = batches.len() as int;
                    let ghost before = self@.graph;
                    let applied = self.drain();
                    let ghost batch = choose|batch: Seq<Instruction<G>>|
                        batch.len() == applied && #[trigger] before.apply_all(batch) == self@.graph;
                    let mixed = self.graph.render_frame(sample_rate);
                    let end = if len - base < channels {
                        len
                    } else {
                        base + channels
                    };
                    proof {
                        let longer = batches.push(batch);
                        assert(longer.drop_last() =~= batches);
                        lemma_stream_samples_len(start, batches, sample_rate);
                        lemma_stream_samples_len(start, longer, sample_rate);
                        assert(start.stream_samples(longer, sample_rate) == start.stream_samples(
                            batches,
                            sample_rate,
                        ).push(mixed as int));
                        assert(done * channels + channels == (done + 1) * channels)
                            by (nonlinear_arith);
                        if end == len {
                            vstd::arithmetic::div_mod::lemma_fundamental_div_mod_converse(
                                len as int + channels as int - 1,
                                channels as int,
                                done + 1,
                                len as int - done * channels - 1,
                            );
                        }
                        if applied > 0 {
                            assert(longer[done].len() > 0);
                        } else {
                            assert forall|f: int| 0 <= f < longer.len() && #[trigger] longer[f].len()
                                > 0 implies 0 <= f < batches.len() && batches[f].len() > 0 by {
                                assert(f != done);
                                assert(longer[f] == batches[f]);
                            }
                        }
                        if edited {
                            let f = choose|f: int|
                                0 <= f < batches.len() && #[trigger] batches[f].len() > 0;
                            assert(longer[f].len() > 0);
                        }
                        batches = longer;
                    }
                    edited = edited || applied > 0;
                    let mut i: usize = base;
                    while i < end
                        invariant
                            base <= i <= end <= len,
                            len == data@.len(),
                            len == old(data)@.len(),
                            channels > 0,
                            end - base <= channels,
                            batches.len() > 0,
                            base == (batches.len() - 1) * channels,
                            start.stream_samples(batches, sample_rate).len() == batches.len(),
                            start.stream_samples(batches, sample_rate)[batches.len() - 1] == mixed,
                            frames_written(
                                data@,
                                start.stream_samples(batches, sample_rate),
                                channels as int,
                                i as int,
                            ),
                        decreases end - i,
                    {
                        proof {
                            lemma_written_one_more(
                                data@,
                                start.stream_samples(batches, sample_rate),
                                channels as int,
                                i as int,
                                batches.len() - 1,
                            );
                        }
                        data[i] = mixed;
                        i += 1;
                    }
                    base = end;
                }
                proof {
                    if !edited {
                        assert forall|f: int| 0 <= f < batches.len() implies #[trigger] batches[f].len()
                            == 0 by {}
                        lemma_quiet_stream(start, batches, sample_rate);
                    }
                }
                assert(old(self)@.graph.streamed(batches, old(self)@.sample_rate) == self@.graph);
            },
            _ => {
                while base < len
                    invariant
                        len == data@.len(),
                        len == old(data)@.len(),
                        base <= len,
                        forall|i: int| 0 <= i < base ==> data@[i] == 0,
                    decreases len - base,
                {
                    data[base] = 0;
                    base += 1;
                }
            },
        }
        edited
    }
}

} // verus!
