use patchbay::generator::{Generator, GeneratorWrapper};
use patchbay::id_set::IdSet;

struct Silent;

impl Generator for Silent {
    fn next_sample(&mut self, _sample_rate: u32) -> i32 {
        0
    }

    fn input_control(&mut self, _inputs: Vec<i32>) {}
}

#[test]
fn new_wrapper_has_its_id_and_no_dependencies() {
    let node = GeneratorWrapper::new("lead", Silent);
    assert_eq!(node.get_id(), "lead");
    assert_eq!(node.id, "lead");
    assert_eq!(node.dependencies.len(), 0);
    assert!(!node.dependencies.contains(&"lead".to_string()));
}

#[test]
fn wrapper_accepts_empty_and_unicode_ids() {
    assert_eq!(GeneratorWrapper::new("", Silent).get_id(), "");
    assert_eq!(GeneratorWrapper::new("b\u{e4}ss \u{266b}", Silent).get_id(), "b\u{e4}ss \u{266b}");
}

#[test]
fn id_set_starts_empty() {
    let set = IdSet::new();
    assert_eq!(set.len(), 0);
    assert!(!set.contains(&"a".to_string()));
}

#[test]
fn id_set_insert_reports_new_members() {
    let mut set = IdSet::new();
    assert!(set.insert("a".to_string()));
    assert!(set.insert("b".to_string()));
    assert!(!set.insert("a".to_string()));
    assert_eq!(set.len(), 2);
    assert!(set.contains(&"a".to_string()));
    assert!(set.contains(&"b".to_string()));
    assert!(!set.contains(&"c".to_string()));
}

#[test]
fn id_set_keeps_insertion_order() {
    let mut set = IdSet::new();
    set.insert("x".to_string());
    set.insert("y".to_string());
    set.insert("x".to_string());
    set.insert("z".to_string());
    assert_eq!(set.len(), 3);
    assert_eq!(set.get(0), "x");
    assert_eq!(set.get(1), "y");
    assert_eq!(set.get(2), "z");
}

#[test]
fn id_set_tells_prefixes_apart() {
    let mut set = IdSet::new();
    set.insert("out".to_string());
    assert!(!set.contains(&"ou".to_string()));
    assert!(!set.contains(&"outs".to_string()));
    assert!(!set.contains(&"".to_string()));
    assert!(set.insert("".to_string()));
    assert!(set.contains(&"".to_string()));
}
