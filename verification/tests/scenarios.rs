use patchbay::generator::Generator;
use patchbay::graph::Graph;
use patchbay::instruction::Instruction;

/// The fixed-point value of the sample 1.0.
const UNITY: f32 = 1_073_741_824.0;

/// A falling sawtooth computed in floating point and handed on in fixed point.
struct Saw {
    frequency: f32,
    count: i32,
    val: f32,
}

impl Saw {
    fn new(frequency: f32) -> Self {
        Saw { frequency, count: 0, val: 0.0 }
    }
}

impl Generator for Saw {
    fn next_sample(&mut self, sample_rate: u32) -> i32 {
        let period = sample_rate as f32 / self.frequency;
        if self.count >= period as i32 {
            self.count = 0;
            self.val = 1.0;
        } else {
            self.count += 1;
            self.val -= 1.0 / period;
        }
        ((self.val - 0.5) * UNITY).round() as i32
    }

    fn input_control(&mut self, _inputs: Vec<i32>) {}
}

fn oscillator(id: &str, frequency: f32) -> Instruction<Saw> {
    Instruction::NewGenerator(id.to_string(), Saw::new(frequency))
}

fn bind(source: &str, sink: &str) -> Instruction<Saw> {
    Instruction::BindGenerator(source.to_string(), sink.to_string())
}

fn half() -> i32 {
    (0.5 * UNITY) as i32
}

#[test]
fn concrete_scenario() {
    let mut graph = Graph::new();
    graph.apply(oscillator("a", 440.0));
    graph.apply(bind("a", "out"));
    let second: Vec<i32> = (0..48_000).map(|_| graph.render_frame(48_000)).collect();
    assert_eq!(second.len(), 48_000);
    assert!(second.iter().all(|sample| -half() <= *sample && *sample <= half()));
    let period = 48_000 / 440 + 1;
    assert!((0..48_000 - period).all(|i| second[i] == second[i + period]));
}

#[test]
fn oscillator_heard_through_a_listener_is_periodic_and_bounded() {
    let mut graph = Graph::new();
    graph.apply(oscillator("a", 440.0));
    graph.apply(oscillator("b", 1.0));
    graph.apply(bind("a", "b"));
    graph.apply(bind("b", "out"));
    let second: Vec<i32> = (0..48_000).map(|_| graph.render_frame(48_000)).collect();
    // The oscillator counts 109 whole samples and one more for the reset.
    let period = 110;
    // From its first reset on, the saw repeats exactly and stays in its range,
    // which two nodes halve.
    let settled = &second[period - 1..];
    assert!((0..settled.len() - period).all(|i| settled[i] == settled[i + period]));
    assert!(settled.iter().all(|sample| -half() / 2 <= *sample && *sample <= half() / 2));
    assert_eq!(settled[0], half() / 2);
    assert!(settled[1] < settled[0]);
    assert!((1..period - 1).all(|i| settled[i + 1] < settled[i]));
    assert!(settled[period - 1] < -half() / 2 + half() / 50);
    assert_eq!(settled[period], half() / 2);
    // It is the listener's oscillator that stays silent.
    let b = graph.node(&"b".to_string()).unwrap();
    assert_eq!(b.generator.count, 0);
    assert_eq!(graph.node(&"a".to_string()).unwrap().generator.count, (48_000 - 110) % 110);
}

#[test]
fn deleting_the_source_mid_stream_leaves_silence() {
    let mut graph = Graph::new();
    graph.apply(oscillator("a", 440.0));
    graph.apply(oscillator("b", 220.0));
    graph.apply(bind("a", "b"));
    graph.apply(bind("b", "out"));
    let before: Vec<i32> = (0..256).map(|_| graph.render_frame(48_000)).collect();
    assert!(before.iter().any(|sample| *sample != 0));
    graph.apply(Instruction::DeleteGenerator("a".to_string()));
    let after: Vec<i32> = (0..256).map(|_| graph.render_frame(48_000)).collect();
    assert_eq!(after, vec![0; 256]);
    assert!(graph.listens_to(&"b".to_string(), &"a".to_string()));
    assert!(graph.is_output(&"b".to_string()));
}
