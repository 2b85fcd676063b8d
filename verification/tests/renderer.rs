use patchbay::generator::Generator;
use patchbay::instruction::Instruction;
use patchbay::queue::{edit_queue, EDIT_QUEUE_CAPACITY};
use patchbay::renderer::{Renderer, RendererState};

/// Yields `start`, `start + step`, `start + 2 * step`, ...
struct Steps {
    next: i32,
    step: i32,
}

impl Generator for Steps {
    fn next_sample(&mut self, _sample_rate: u32) -> i32 {
        let sample = self.next;
        self.next += self.step;
        sample
    }

    fn input_control(&mut self, _inputs: Vec<i32>) {}
}

fn text(id: &str) -> String {
    id.to_string()
}

fn node(id: &str, start: i32, step: i32) -> Instruction<Steps> {
    Instruction::NewGenerator(text(id), Steps { next: start, step })
}

fn wire(source: &str, sink: &str) -> Instruction<Steps> {
    Instruction::BindGenerator(text(source), text(sink))
}

fn remove(id: &str) -> Instruction<Steps> {
    Instruction::DeleteGenerator(text(id))
}

/// Source `a` heard through `b` on the bus: the frames are (start + k step) / 2.
fn patch(start: i32, step: i32) -> Vec<Instruction<Steps>> {
    vec![node("a", start, step), node("b", 0, 0), wire("a", "b"), wire("b", "out")]
}

#[test]
fn renderer_starts_idle_and_empty() {
    let (_sender, receiver) = edit_queue::<Steps>();
    let renderer = Renderer::new(receiver, 44_100, 2);
    assert_eq!(renderer.state(), RendererState::Idle);
    assert_eq!(renderer.sample_rate(), 44_100);
    assert_eq!(renderer.channels(), 2);
    assert_eq!(renderer.graph().node_count(), 0);
    assert_eq!(renderer.graph().output_count(), 0);
}

#[test]
fn start_and_stop_move_through_the_states() {
    let (_sender, receiver) = edit_queue::<Steps>();
    let mut renderer = Renderer::new(receiver, 48_000, 1);
    assert!(renderer.start());
    assert_eq!(renderer.state(), RendererState::Streaming);
    assert!(renderer.start());
    assert_eq!(renderer.state(), RendererState::Streaming);
    renderer.stop();
    assert_eq!(renderer.state(), RendererState::Stopped);
    assert!(!renderer.start());
    assert_eq!(renderer.state(), RendererState::Stopped);
    renderer.stop();
    assert_eq!(renderer.state(), RendererState::Stopped);
}

#[test]
fn idle_renderer_can_be_stopped() {
    let (_sender, receiver) = edit_queue::<Steps>();
    let mut renderer = Renderer::new(receiver, 48_000, 1);
    renderer.stop();
    assert_eq!(renderer.state(), RendererState::Stopped);
    assert!(!renderer.start());
}

#[test]
fn idle_renderer_fills_silence_and_leaves_the_queue() {
    let (sender, receiver) = edit_queue::<Steps>();
    for edit in patch(100, 2) {
        assert!(sender.send(edit).is_ok());
    }
    let mut renderer = Renderer::new(receiver, 48_000, 2);
    let mut data = vec![7; 6];
    assert!(!renderer.process(&mut data));
    assert_eq!(data, vec![0; 6]);
    assert_eq!(renderer.drain(), 0);
    assert_eq!(renderer.next_frame(), 0);
    assert_eq!(sender.len(), 4);
    assert_eq!(renderer.graph().node_count(), 0);
}

#[test]
fn stopped_renderer_fills_silence_and_leaves_the_queue() {
    let (sender, receiver) = edit_queue::<Steps>();
    let mut renderer = Renderer::new(receiver, 48_000, 2);
    renderer.start();
    for edit in patch(100, 2) {
        assert!(sender.send(edit).is_ok());
    }
    let mut data = vec![7; 4];
    assert!(renderer.process(&mut data));
    assert_eq!(data, vec![50, 50, 51, 51]);
    renderer.stop();
    assert!(sender.send(remove("a")).is_ok());
    let mut later = vec![7; 4];
    assert!(!renderer.process(&mut later));
    assert_eq!(later, vec![0; 4]);
    assert_eq!(sender.len(), 1);
    assert!(renderer.graph().contains(&text("a")));
}

#[test]
fn edits_sent_before_the_start_apply_with_the_first_frame() {
    let (sender, receiver) = edit_queue::<Steps>();
    for edit in patch(1000, 10) {
        assert!(sender.send(edit).is_ok());
    }
    let mut renderer = Renderer::new(receiver, 48_000, 1);
    renderer.start();
    assert_eq!(renderer.next_frame(), 500);
    assert_eq!(sender.len(), 0);
    assert_eq!(renderer.graph().node_count(), 2);
    assert!(renderer.graph().is_output(&text("b")));
    assert!(renderer.graph().listens_to(&text("b"), &text("a")));
    assert_eq!(renderer.next_frame(), 505);
}

#[test]
fn drain_applies_edits_in_the_order_sent() {
    let (sender, receiver) = edit_queue::<Steps>();
    let mut renderer = Renderer::new(receiver, 48_000, 1);
    renderer.start();
    assert!(sender.send(node("a", 1, 0)).is_ok());
    assert!(sender.send(remove("a")).is_ok());
    assert!(sender.send(remove("b")).is_ok());
    assert!(sender.send(node("b", 2, 0)).is_ok());
    assert_eq!(renderer.drain(), 4);
    assert!(!renderer.graph().contains(&text("a")));
    assert!(renderer.graph().contains(&text("b")));
    assert_eq!(renderer.drain(), 0);
}

#[test]
fn drain_at_most_stops_at_the_limit_or_at_the_end_of_the_queue() {
    let (sender, receiver) = edit_queue::<Steps>();
    let mut renderer = Renderer::new(receiver, 48_000, 1);
    assert!(sender.send(node("a", 1, 0)).is_ok());
    assert_eq!(renderer.drain_at_most(1), 0);
    assert_eq!(sender.len(), 1);
    renderer.start();
    for id in ["b", "c", "d"] {
        assert!(sender.send(node(id, 1, 0)).is_ok());
    }
    assert_eq!(renderer.drain_at_most(0), 0);
    assert_eq!(renderer.graph().node_count(), 0);
    assert_eq!(renderer.drain_at_most(3), 3);
    assert_eq!(sender.len(), 1);
    assert!(renderer.graph().contains(&text("c")));
    assert!(!renderer.graph().contains(&text("d")));
    assert_eq!(renderer.drain_at_most(10), 1);
    assert!(renderer.graph().contains(&text("d")));
    assert_eq!(renderer.drain_at_most(10), 0);
}

#[test]
fn every_channel_of_a_frame_gets_the_same_sample() {
    let (sender, receiver) = edit_queue::<Steps>();
    for edit in patch(100, 2) {
        assert!(sender.send(edit).is_ok());
    }
    let mut renderer = Renderer::new(receiver, 48_000, 3);
    renderer.start();
    let mut data = vec![-1; 12];
    assert!(renderer.process(&mut data));
    assert_eq!(data, vec![50, 50, 50, 51, 51, 51, 52, 52, 52, 53, 53, 53]);
    let mut more = vec![-1; 6];
    assert!(!renderer.process(&mut more));
    assert_eq!(more, vec![54, 54, 54, 55, 55, 55]);
}

#[test]
fn short_last_frame_is_a_frame_too() {
    let (sender, receiver) = edit_queue::<Steps>();
    for edit in patch(100, 2) {
        assert!(sender.send(edit).is_ok());
    }
    let mut renderer = Renderer::new(receiver, 48_000, 3);
    renderer.start();
    let mut data = vec![-1; 7];
    renderer.process(&mut data);
    assert_eq!(data, vec![50, 50, 50, 51, 51, 51, 52]);
    let mut next = vec![-1; 2];
    renderer.process(&mut next);
    assert_eq!(next, vec![53, 53]);
}

#[test]
fn empty_buffer_renders_no_frame() {
    let (sender, receiver) = edit_queue::<Steps>();
    for edit in patch(100, 2) {
        assert!(sender.send(edit).is_ok());
    }
    let mut renderer = Renderer::new(receiver, 48_000, 2);
    renderer.start();
    let mut data: Vec<i32> = Vec::new();
    assert!(!renderer.process(&mut data));
    assert_eq!(sender.len(), 4);
    assert_eq!(renderer.graph().node_count(), 0);
}

#[test]
fn edit_between_buffers_shows_in_the_next_frame() {
    let (sender, receiver) = edit_queue::<Steps>();
    for edit in patch(1000, 10) {
        assert!(sender.send(edit).is_ok());
    }
    let mut renderer = Renderer::new(receiver, 48_000, 1);
    renderer.start();
    let mut data = vec![0; 3];
    assert!(renderer.process(&mut data));
    assert_eq!(data, vec![500, 505, 510]);
    assert!(sender.send(remove("a")).is_ok());
    assert!(renderer.process(&mut data));
    assert_eq!(data, vec![0, 0, 0]);
    assert!(renderer.graph().listens_to(&text("b"), &text("a")));
    assert!(sender.send(node("a", 8, 0)).is_ok());
    assert!(renderer.process(&mut data));
    assert_eq!(data, vec![4, 4, 4]);
    assert!(!renderer.process(&mut data));
}

#[test]
fn same_edits_give_the_same_buffers() {
    let mut buffers = Vec::new();
    for _ in 0..2 {
        let (sender, receiver) = edit_queue::<Steps>();
        for edit in patch(-3000, 17) {
            assert!(sender.send(edit).is_ok());
        }
        assert!(sender.send(node("c", 250, -3)).is_ok());
        assert!(sender.send(wire("c", "b")).is_ok());
        assert!(sender.send(wire("c", "out")).is_ok());
        let mut renderer = Renderer::new(receiver, 44_100, 2);
        renderer.start();
        let mut data = vec![0; 512];
        renderer.process(&mut data);
        buffers.push(data);
    }
    assert_eq!(buffers[0], buffers[1]);
    // b hears a and c over three nodes; c hears nothing; two outputs.
    let expected: Vec<i32> = (0..512).map(|i| ((-2750 + 14 * (i / 2)) / 3) / 2).collect();
    assert_eq!(buffers[0], expected);
}

#[test]
fn renderer_outlives_its_senders() {
    let (sender, receiver) = edit_queue::<Steps>();
    for edit in patch(100, 2) {
        assert!(sender.send(edit).is_ok());
    }
    drop(sender);
    let mut renderer = Renderer::new(receiver, 48_000, 1);
    renderer.start();
    let mut data = vec![0; 3];
    assert!(renderer.process(&mut data));
    assert_eq!(data, vec![50, 51, 52]);
    assert_eq!(renderer.drain(), 0);
    assert!(!renderer.process(&mut data));
    assert_eq!(data, vec![53, 54, 55]);
}

#[test]
fn edit_queue_holds_its_capacity_and_no_more() {
    let (sender, receiver) = edit_queue::<Steps>();
    assert_eq!(EDIT_QUEUE_CAPACITY, 1024);
    assert_eq!(sender.capacity(), Some(1024));
    for i in 0..1024 {
        assert!(sender.try_send(node(&format!("n{}", i), i, 0)).is_ok());
    }
    assert!(sender.is_full());
    assert!(sender.try_send(remove("n0")).is_err());
    let mut renderer = Renderer::new(receiver, 48_000, 1);
    renderer.start();
    assert_eq!(renderer.drain(), 1024);
    assert_eq!(renderer.graph().node_count(), 1024);
    assert!(sender.try_send(remove("n0")).is_ok());
    assert_eq!(renderer.drain(), 1);
    assert_eq!(renderer.graph().node_count(), 1023);
}

#[test]
fn several_producers_feed_one_renderer() {
    let (sender, receiver) = edit_queue::<Steps>();
    let other = sender.clone();
    assert!(sender.send(node("a", 10, 0)).is_ok());
    assert!(other.send(node("b", 20, 0)).is_ok());
    assert!(sender.send(wire("a", "b")).is_ok());
    assert!(other.send(wire("b", "out")).is_ok());
    let mut renderer = Renderer::new(receiver, 48_000, 1);
    renderer.start();
    assert_eq!(renderer.next_frame(), 5);
}
