use yggdrasil::{
    Error, EventGroups, SinkRef, SourceRef, SubTree, Tree, TreeBuilder, TreeSink, TreeSource,
    Value,
};

/// A sink that remembers every batch it was handed.
struct Recorder {
    batches: Vec<Vec<(String, Value)>>,
    paths: Vec<String>,
    ready: usize,
}

impl Recorder {
    fn new() -> Recorder {
        Recorder { batches: Vec::new(), paths: Vec::new(), ready: 0 }
    }
}

impl TreeSink for Recorder {
    fn add_path(&mut self, path: &str, _tree: &SubTree) -> Result<(), Error> {
        self.paths.push(path.to_owned());
        Ok(())
    }
    fn values_updated(&mut self, values: &[(String, Value)]) -> Result<(), Error> {
        self.batches.push(values.to_vec());
        Ok(())
    }
    fn on_ready(&mut self, _tree: &SubTree) -> Result<(), Error> {
        self.ready += 1;
        Ok(())
    }
}

/// A source that remembers the paths it was given.
struct Probe {
    paths: Vec<String>,
}

impl TreeSource for Probe {
    fn add_path(&mut self, path: &str, _tree: &SubTree) -> Result<(), Error> {
        self.paths.push(path.to_owned());
        Ok(())
    }
    fn handle_event(&mut self, _path: &str, _value: Value, _tree: &SubTree) -> Result<(), Error> {
        Ok(())
    }
    fn get_value(&self, _path: &str, _tree: &SubTree) -> Option<Value> {
        Some(Value::from_integer(7))
    }
}

fn build(program: &str) -> Tree {
    TreeBuilder::default().build_from_str(program).unwrap()
}

fn batch_for<'a>(groups: &'a EventGroups, name: &str) -> Vec<(String, Value)> {
    groups.get(name).cloned().unwrap_or_default()
}

#[test]
fn direct_dependent_gets_value_and_batch() {
    // A tree with node A, and node B bound to A via a pull binding; the
    // event value lands on both, and the batch holds B's path because B
    // carries a sink annotation.
    let mut tree = build("A\nB\n    $lamp\n    <-/A\n");
    let groups = tree.handle_event("/A", Value::from_integer(4)).unwrap();
    assert_eq!(tree.lookup("/A").unwrap().value, Some(Value::from_integer(4)));
    assert_eq!(tree.lookup("/B").unwrap().value, Some(Value::from_integer(4)));
    assert_eq!(
        batch_for(&groups, "lamp"),
        vec![("/B".to_owned(), Value::from_integer(4))]
    );
}

#[test]
fn direct_dependent_without_sink_is_not_reported() {
    let mut tree = build("A\nB\n    <-/A\n");
    let groups = tree.handle_event("/A", Value::from_integer(4)).unwrap();
    assert_eq!(tree.lookup("/B").unwrap().value, Some(Value::from_integer(4)));
    assert!(groups.get("lamp").is_none());
    assert!(groups.groups.is_empty());
}

#[test]
fn find_sources_and_sinks_exact_and_ordered() {
    let program = "a\n    ^x\nb\n    $x\n    c\n        ^x\nd\n    $y\n";
    let tree = build(program);
    assert_eq!(tree.find_sources("x"), vec!["/a".to_owned(), "/b/c".to_owned()]);
    assert_eq!(tree.find_sinks("x"), vec!["/b".to_owned()]);
    assert_eq!(tree.find_sinks("y"), vec!["/d".to_owned()]);
    assert_eq!(tree.find_sources("nope"), Vec::<String>::new());
    assert_eq!(tree.find_sinks("nope"), Vec::<String>::new());
}

#[test]
fn unmatched_handler_builds_and_gets_no_calls() {
    let sink = SinkRef::new(Box::new(Recorder::new()));
    let src = SourceRef::new(Box::new(Probe { paths: Vec::new() }));
    let tree = TreeBuilder::default()
        .add_source_handler("ghost", &src)
        .unwrap()
        .add_sink_handler("phantom", &sink)
        .unwrap()
        .build_from_str("room\n    light\n        $lamp\n")
        .unwrap();
    assert_eq!(tree.find_sinks("lamp"), vec!["/room/light".to_owned()]);
    let calls = src.inspect_as::<Probe, usize, _>(|p| p.paths.len()).unwrap();
    assert_eq!(calls, 0);
    let sink_calls = sink
        .inspect_as::<Recorder, (usize, usize), _>(|r| (r.paths.len(), r.ready))
        .unwrap();
    assert_eq!(sink_calls, (0, 0));
}

#[test]
fn eager_wiring_calls_add_path_and_on_ready() {
    let sink = SinkRef::new(Box::new(Recorder::new()));
    let src = SourceRef::new(Box::new(Probe { paths: Vec::new() }));
    let _tree = TreeBuilder::default()
        .add_source_handler("switch", &src)
        .unwrap()
        .add_sink_handler("lamp", &sink)
        .unwrap()
        .build_from_str("room\n    light\n        $lamp\n    switch\n        ^switch\n")
        .unwrap();
    let src_paths = src.inspect_as::<Probe, Vec<String>, _>(|p| p.paths.clone()).unwrap();
    assert_eq!(src_paths, vec!["/room/switch".to_owned()]);
    let (sink_paths, ready) = sink
        .inspect_as::<Recorder, (Vec<String>, usize), _>(|r| (r.paths.clone(), r.ready))
        .unwrap();
    assert_eq!(sink_paths, vec!["/room/light".to_owned()]);
    assert_eq!(ready, 1);
}

#[test]
fn dangling_binding_fails_at_build_time() {
    let r = TreeBuilder::default().build_from_str("B\n    <-/A\n");
    assert!(matches!(r, Err(Error::UnresolvedBinding)));
}

#[test]
fn self_loop_binding_fails_at_build_time() {
    let r = TreeBuilder::default().build_from_str("A\n    <-/A\n");
    assert!(matches!(r, Err(Error::BindingCycle)));
}

#[test]
fn mutual_pull_fails_at_build_time() {
    let r = TreeBuilder::default().build_from_str("A\n    <-/B\nB\n    <-/A\n");
    assert!(matches!(r, Err(Error::BindingCycle)));
}

#[test]
fn inspect_as_wrong_type_is_capability_mismatch() {
    let sink = SinkRef::new(Box::new(Recorder::new()));
    let r = sink.inspect_as::<Vec<String>, usize, _>(|v| v.len());
    assert!(matches!(r, Err(Error::CapabilityMismatch)));
    let r2 = sink.mutate_as::<Vec<String>, usize, _>(|v| v.len());
    assert!(matches!(r2, Err(Error::CapabilityMismatch)));
    // The failed recovery mutated nothing: the adapter still answers as a
    // fresh Recorder under its real type.
    let (batches, ready) = sink
        .inspect_as::<Recorder, (usize, usize), _>(|r| (r.batches.len(), r.ready))
        .unwrap();
    assert_eq!((batches, ready), (0, 0));
}

#[test]
fn end_to_end_switch_to_light() {
    let program = "room\n    light\n        $light\n        <-/room/switch\n    switch\n        ^switch\n";
    let sink = SinkRef::new(Box::new(Recorder::new()));
    let mut tree = TreeBuilder::default()
        .add_sink_handler("light", &sink)
        .unwrap()
        .build_from_str(program)
        .unwrap();
    let groups = tree
        .handle_event("/room/switch", Value::new_str("foo"))
        .unwrap();
    let batch = groups.get("light").unwrap();
    sink.values_updated(batch).unwrap();
    let batches = sink
        .inspect_as::<Recorder, Vec<Vec<(String, Value)>>, _>(|r| r.batches.clone())
        .unwrap();
    assert_eq!(
        batches,
        vec![vec![("/room/light".to_owned(), Value::new_str("foo"))]]
    );
}

#[test]
fn same_event_twice_is_idempotent() {
    let program = "room\n    light\n        $light\n        <-/room/switch\n    switch\n        ^switch\n";
    let mut tree = build(program);
    let groups1 = tree.handle_event("/room/switch", Value::new_str("on")).unwrap();
    let values1 = (
        tree.lookup("/room/switch").unwrap().value.clone(),
        tree.lookup("/room/light").unwrap().value.clone(),
    );
    let groups2 = tree.handle_event("/room/switch", Value::new_str("on")).unwrap();
    let values2 = (
        tree.lookup("/room/switch").unwrap().value.clone(),
        tree.lookup("/room/light").unwrap().value.clone(),
    );
    assert_eq!(values1, values2);
    assert_eq!(batch_for(&groups1, "light"), batch_for(&groups2, "light"));
    assert_eq!(groups1.groups, groups2.groups);
}

#[test]
fn transitive_propagation_follows_chains() {
    let program = "a\nb\n    <-/a\nc\n    $end\n    <-/b\n";
    let mut tree = build(program);
    let groups = tree.handle_event("/a", Value::from_boolean(true)).unwrap();
    assert_eq!(tree.lookup("/b").unwrap().value, Some(Value::from_boolean(true)));
    assert_eq!(tree.lookup("/c").unwrap().value, Some(Value::from_boolean(true)));
    assert_eq!(
        batch_for(&groups, "end"),
        vec![("/c".to_owned(), Value::from_boolean(true))]
    );
}

#[test]
fn diamond_dependency_reports_each_node_once() {
    let program = "a\nb\n    <-/a\nc\n    <-/a\nd\n    $end\n    <-/b\n    <-/c\n";
    let mut tree = build(program);
    let groups = tree.handle_event("/a", Value::from_integer(1)).unwrap();
    assert_eq!(
        batch_for(&groups, "end"),
        vec![("/d".to_owned(), Value::from_integer(1))]
    );
}

#[test]
fn unresolved_event_path_is_an_error_and_changes_nothing() {
    let mut tree = build("a\nb\n    <-/a\n");
    let r = tree.handle_event("/missing", Value::from_integer(1));
    assert!(matches!(r, Err(Error::NoSuchPath)));
    assert_eq!(tree.lookup("/a").unwrap().value, None);
    assert_eq!(tree.lookup("/b").unwrap().value, None);
}

#[test]
fn parse_error_variants() {
    let b = || TreeBuilder::default();
    assert!(matches!(b().build_from_str("a\n   b\n"), Err(Error::BadIndent)));
    assert!(matches!(b().build_from_str("a\n        b\n"), Err(Error::BadIndent)));
    assert!(matches!(b().build_from_str("%odd\n"), Err(Error::UnknownSigil)));
    assert!(matches!(b().build_from_str("a\na\n"), Err(Error::DuplicatePath)));
    assert!(matches!(
        b().build_from_str("a\n    $x\n    $y\n"),
        Err(Error::DuplicateAnnotation)
    ));
    assert!(matches!(
        b().build_from_str("a\n    ^x\n    ^y\n"),
        Err(Error::DuplicateAnnotation)
    ));
    assert!(matches!(b().build_from_str("a\n    $\n"), Err(Error::Malformed)));
    assert!(matches!(b().build_from_str("a\n    <-x\n"), Err(Error::Malformed)));
    assert!(matches!(b().build_from_str("a\n    <#\n"), Err(Error::UnknownSigil)));
    assert!(matches!(b().build_from_str("a b\n"), Err(Error::Malformed)));
}

#[test]
fn duplicate_handler_name_is_rejected() {
    let src = SourceRef::new(Box::new(Probe { paths: Vec::new() }));
    let r = TreeBuilder::default()
        .add_source_handler("x", &src)
        .unwrap()
        .add_source_handler("x", &src);
    assert!(matches!(r, Err(Error::DuplicateHandler)));
    let sink = SinkRef::new(Box::new(Recorder::new()));
    let r2 = TreeBuilder::default()
        .add_sink_handler("x", &sink)
        .unwrap()
        .add_sink_handler("x", &sink);
    assert!(matches!(r2, Err(Error::DuplicateHandler)));
}

#[test]
fn deferred_wiring_matches_eager() {
    let program = "room\n    light\n        $lamp\n    switch\n        ^sw\n";
    let tree = build(program);
    let sink = SinkRef::new(Box::new(Recorder::new()));
    let src = SourceRef::new(Box::new(Probe { paths: Vec::new() }));
    for path in &tree.find_sinks("lamp") {
        let st = tree.subtree_at(tree.lookup(path).unwrap()).unwrap();
        sink.add_path(path, &st).unwrap();
    }
    let root_view = tree.subtree_at(tree.root()).unwrap();
    sink.on_ready(&root_view).unwrap();
    for path in &tree.find_sources("sw") {
        let st = tree.subtree_at(tree.lookup(path).unwrap()).unwrap();
        src.add_path(path, &st).unwrap();
    }
    let (paths, ready) = sink
        .inspect_as::<Recorder, (Vec<String>, usize), _>(|r| (r.paths.clone(), r.ready))
        .unwrap();
    assert_eq!(paths, vec!["/room/light".to_owned()]);
    assert_eq!(ready, 1);
    let sp = src.inspect_as::<Probe, Vec<String>, _>(|p| p.paths.clone()).unwrap();
    assert_eq!(sp, vec!["/room/switch".to_owned()]);
}

#[test]
fn source_handle_forwards_and_pulls() {
    let src = SourceRef::new(Box::new(Probe { paths: Vec::new() }));
    let tree = build("a\n    ^probe\n");
    let st = tree.subtree_at(tree.lookup("/a").unwrap()).unwrap();
    src.handle_event("/a", Value::from_integer(3), &st).unwrap();
    assert_eq!(src.get_value("/a", &st), Some(Value::from_integer(7)));
}

#[test]
fn mutate_as_reaches_adapter_state() {
    let src = SourceRef::new(Box::new(Probe { paths: Vec::new() }));
    src.mutate_as::<Probe, (), _>(|p| p.paths.push("/by/hand".to_owned()))
        .unwrap();
    let paths = src.inspect_as::<Probe, Vec<String>, _>(|p| p.paths.clone()).unwrap();
    assert_eq!(paths, vec!["/by/hand".to_owned()]);
}

#[test]
fn subtree_view_is_scoped_to_its_root() {
    let program = "room\n    light\n        bulb\n    switch\nhall\n";
    let tree = build(program);
    let st = tree.subtree_at(tree.lookup("/room/light").unwrap()).unwrap();
    let paths: Vec<String> = st.nodes.iter().map(|n| n.path.clone()).collect();
    assert_eq!(paths, vec!["/room/light".to_owned(), "/room/light/bulb".to_owned()]);
    assert_eq!(st.root_path, "/room/light");
    let whole = tree.subtree_at(tree.root()).unwrap();
    assert_eq!(whole.nodes.len(), 6);
}

#[test]
fn lookup_reports_missing_paths() {
    let tree = build("a\n");
    assert!(tree.lookup("/a").is_ok());
    assert!(matches!(tree.lookup("/b"), Err(Error::NoSuchPath)));
    assert!(matches!(tree.lookup("a"), Err(Error::NoSuchPath)));
}

#[test]
fn value_constructors_and_equality() {
    assert_eq!(Value::new_str("x"), Value::new_str("x"));
    assert_ne!(Value::new_str("x"), Value::new_str("y"));
    assert_eq!(Value::from_integer(-3), Value::from_integer(-3));
    assert_ne!(Value::from_integer(3), Value::from_integer(4));
    assert_eq!(Value::from_boolean(true), Value::from_boolean(true));
    assert_ne!(Value::from_boolean(true), Value::from_boolean(false));
    assert_eq!(Value::from_float_bits(0x3ff0000000000000), Value::from_float_bits(0x3ff0000000000000));
    assert_ne!(Value::from_float_bits(1), Value::from_float_bits(2));
    assert_ne!(Value::from_integer(1), Value::new_str("1"));
    let v = Value::new_str("copy");
    assert_eq!(v.clone(), v);
}

#[test]
fn adapter_failure_aborts_eager_build() {
    struct Grumpy {}
    impl TreeSink for Grumpy {
        fn add_path(&mut self, _path: &str, _tree: &SubTree) -> Result<(), Error> {
            Err(Error::Adapter("refused".to_owned()))
        }
        fn values_updated(&mut self, _values: &[(String, Value)]) -> Result<(), Error> {
            Ok(())
        }
        fn on_ready(&mut self, _tree: &SubTree) -> Result<(), Error> {
            Ok(())
        }
    }
    let sink = SinkRef::new(Box::new(Grumpy {}));
    let r = TreeBuilder::default()
        .add_sink_handler("lamp", &sink)
        .unwrap()
        .build_from_str("a\n    $lamp\n");
    assert!(matches!(r, Err(Error::Adapter(_))));
}

#[test]
fn text_without_trailing_newline_and_blank_lines() {
    let mut tree = build("\n\na\n\nb\n    $s\n    <-/a");
    let groups = tree.handle_event("/a", Value::from_integer(9)).unwrap();
    assert_eq!(
        batch_for(&groups, "s"),
        vec![("/b".to_owned(), Value::from_integer(9))]
    );
}

#[test]
fn later_event_overwrites_earlier_value() {
    let mut tree = build("a\nb\n    <-/a\n");
    tree.handle_event("/a", Value::from_integer(1)).unwrap();
    tree.handle_event("/a", Value::from_integer(2)).unwrap();
    assert_eq!(tree.lookup("/a").unwrap().value, Some(Value::from_integer(2)));
    assert_eq!(tree.lookup("/b").unwrap().value, Some(Value::from_integer(2)));
}

#[test]
fn sigil_at_shallower_level_annotates_the_ancestor() {
    // The annotation line sits at the children level of `room`, after the
    // deeper `light` chain was closed, so it annotates `room` itself.
    let tree = build("room\n    light\n    $top\n");
    assert_eq!(tree.find_sinks("top"), vec!["/room".to_owned()]);
}

#[test]
fn display_forms_are_exact() {
    assert_eq!(Value::new_str("warm white").to_display_string(), "warm white");
    assert_eq!(Value::from_boolean(true).to_display_string(), "true");
    assert_eq!(Value::from_boolean(false).to_display_string(), "false");
    assert_eq!(Value::from_integer(0).to_display_string(), "0");
    assert_eq!(Value::from_integer(4071).to_display_string(), "4071");
    assert_eq!(Value::from_integer(-250).to_display_string(), "-250");
    assert_eq!(Value::from_integer(i64::MIN).to_display_string(), "-9223372036854775808");
    assert_eq!(Value::from_float_bits(1023).to_display_string(), "float:1023");
    assert_eq!(Value::from_float_bits(u64::MAX).to_display_string(), "float:18446744073709551615");
}

#[test]
fn error_descriptions_are_stable() {
    assert_eq!(Error::NoSuchPath.describe(), "no such path");
    assert_eq!(Error::UnresolvedBinding.describe(), "unresolved binding target");
    assert_eq!(Error::CapabilityMismatch.describe(), "capability mismatch");
    assert_eq!(Error::Adapter("boom".to_owned()).describe(), "adapter failure");
}
