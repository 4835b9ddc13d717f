use ffgraph::{
    compile, filter, filter_multi, get_args, input, output, output_multi, topo_sort, Edge, Graph,
    GraphError, Node, NodeKind, Stream,
};

fn kw(pairs: &[(&str, &str)]) -> Vec<(String, String)> {
    pairs.iter().map(|(k, v)| (k.to_string(), v.to_string())).collect()
}

#[test]
fn scale_pipeline_compiles_exactly() {
    let s = input("a.mp4", &kw(&[]));
    let f = filter(&s, "scale", &kw(&[("w", "320"), ("h", "240")]));
    let o = output(&f, "out.mp4", &kw(&[]));
    let args = compile(&o, "ffmpeg", true).unwrap();
    assert_eq!(
        args,
        vec![
            "ffmpeg",
            "-i",
            "a.mp4",
            "-filter_complex",
            "[0]scale=h=240:w=320[s0]",
            "-map",
            "[s0]",
            "out.mp4",
            "-y"
        ]
    );
}

#[test]
fn two_inputs_one_output() {
    let a = input("a.mp4", &kw(&[]));
    let b = input("b.mp4", &kw(&[]));
    let o = output_multi(&vec![a, b], "out.mp4", &kw(&[]));
    let args = compile(&o, "ffmpeg", false).unwrap();
    assert_eq!(
        args,
        vec!["ffmpeg", "-i", "a.mp4", "-i", "b.mp4", "-map", "0", "-map", "1", "out.mp4"]
    );
}

#[test]
fn single_input_output_uses_implicit_map() {
    let a = input("a.mp4", &kw(&[]));
    let o = output(&a, "out.mp4", &kw(&[]));
    let args = compile(&o, "ffmpeg", false).unwrap();
    assert_eq!(args, vec!["ffmpeg", "-i", "a.mp4", "out.mp4"]);
}

#[test]
fn fanout_same_pin_is_rejected() {
    let i = input("a.mp4", &kw(&[]));
    let f = filter(&i, "split", &kw(&[]));
    let c1 = filter(&f, "scale", &kw(&[("w", "320")]));
    let c2 = filter(&f, "crop", &kw(&[("h", "100")]));
    let o = output_multi(&vec![c1, c2], "out.mp4", &kw(&[]));
    assert_eq!(compile(&o, "ffmpeg", false), Err(GraphError::FanoutViolation));
}

#[test]
fn fanout_distinct_pins_compiles() {
    let i = input("a.mp4", &kw(&[]));
    let f = filter(&i, "split", &kw(&[]));
    let p0 = Stream::new(f.graph.clone(), f.index, "0".to_string(), None);
    let p1 = Stream::new(f.graph.clone(), f.index, "1".to_string(), None);
    let c1 = filter(&p0, "scale", &kw(&[("w", "320")]));
    let c2 = filter(&p1, "crop", &kw(&[("h", "100")]));
    let o = output_multi(&vec![c1, c2], "out.mp4", &kw(&[]));
    let args = compile(&o, "ffmpeg", false).unwrap();
    assert_eq!(
        args,
        vec![
            "ffmpeg",
            "-i",
            "a.mp4",
            "-filter_complex",
            "[0]split[s0][s1];[s0]scale=w=320[s2];[s1]crop=h=100[s3]",
            "-map",
            "[s2]",
            "-map",
            "[s3]",
            "out.mp4"
        ]
    );
}

#[test]
fn two_input_filter_compiles() {
    let a = input("a.mp4", &kw(&[]));
    let b = input("b.mp4", &kw(&[]));
    let f = filter_multi(&vec![a, b], "overlay", &kw(&[("x", "10")]));
    let o = output(&f, "out.mp4", &kw(&[]));
    let args = compile(&o, "ffmpeg", false).unwrap();
    assert_eq!(
        args,
        vec![
            "ffmpeg",
            "-i",
            "a.mp4",
            "-i",
            "b.mp4",
            "-filter_complex",
            "[0][1]overlay=x=10[s0]",
            "-map",
            "[s0]",
            "out.mp4"
        ]
    );
}

#[test]
fn selecting_twice_is_rejected() {
    let s = input("a.mp4", &kw(&[]));
    let a1 = s.audio().unwrap();
    assert_eq!(a1.audio().map(|_| ()), Err(GraphError::InvalidSelector));
    assert_eq!(a1.video().map(|_| ()), Err(GraphError::InvalidSelector));
    assert_eq!(a1.get("a").map(|_| ()), Err(GraphError::InvalidSelector));
}

#[test]
fn unknown_selector_is_rejected() {
    let s = input("a.mp4", &kw(&[]));
    assert_eq!(s.get("x").map(|_| ()), Err(GraphError::InvalidSelector));
}

#[test]
fn selector_is_rendered_in_map() {
    let s = input("a.mp4", &kw(&[]));
    let a = s.audio().unwrap();
    let o = output(&a, "out.mp4", &kw(&[]));
    let args = compile(&o, "ffmpeg", false).unwrap();
    assert_eq!(args, vec!["ffmpeg", "-i", "a.mp4", "-map", "0:a", "out.mp4"]);
}

#[test]
fn identical_builds_hash_equal() {
    let f1 = filter(&input("a.mp4", &kw(&[])), "scale", &kw(&[("w", "320")]));
    let f2 = filter(&input("a.mp4", &kw(&[])), "scale", &kw(&[("w", "320")]));
    assert!(f1.eq(&f2));
}

#[test]
fn changed_option_changes_hash() {
    let f1 = filter(&input("a.mp4", &kw(&[])), "scale", &kw(&[("w", "320")]));
    let f2 = filter(&input("a.mp4", &kw(&[])), "scale", &kw(&[("w", "321")]));
    let f3 = filter(&input("b.mp4", &kw(&[])), "scale", &kw(&[("w", "320")]));
    assert!(!f1.eq(&f2));
    assert!(!f1.eq(&f3));
}

#[test]
fn identical_subgraphs_collapse() {
    let a = input("a.mp4", &kw(&[]));
    let b = input("a.mp4", &kw(&[]));
    let o = output_multi(&vec![a, b], "out.mp4", &kw(&[]));
    let args = compile(&o, "ffmpeg", false).unwrap();
    assert_eq!(args, vec!["ffmpeg", "-i", "a.mp4", "-map", "0", "-map", "0", "out.mp4"]);
}

#[test]
fn compiling_twice_is_deterministic() {
    let s = input("a.mp4", &kw(&[("ss", "3"), ("t", "5")]));
    let f = filter(&s, "scale", &kw(&[("w", "320"), ("h", "240")]));
    let o = output(&f, "out.mp4", &kw(&[("preset", "fast")]));
    let first = compile(&o, "ffmpeg", true).unwrap();
    let second = compile(&o, "ffmpeg", true).unwrap();
    assert_eq!(first, second);
}

#[test]
fn options_are_emitted_in_lexicographic_order() {
    let s = input("a.mp4", &kw(&[("t", "5"), ("ss", "3")]));
    let o = output(&s, "out.mp4", &kw(&[]));
    let args = compile(&o, "ffmpeg", false).unwrap();
    assert_eq!(args, vec!["ffmpeg", "-ss", "3", "-t", "5", "-i", "a.mp4", "out.mp4"]);
}

#[test]
fn later_option_binding_wins() {
    let s = input("a.mp4", &kw(&[("t", "5"), ("t", "7")]));
    let o = output(&s, "out.mp4", &kw(&[]));
    let args = compile(&o, "ffmpeg", false).unwrap();
    assert_eq!(args, vec!["ffmpeg", "-t", "7", "-i", "a.mp4", "out.mp4"]);
}

#[test]
fn hash_cycle_is_not_a_dag() {
    let n0 = Node {
        kind: NodeKind::Filter,
        name: "a".to_string(),
        kwargs: vec![],
        incoming: vec![],
        h: 42,
    };
    let n1 = Node {
        kind: NodeKind::Filter,
        name: "b".to_string(),
        kwargs: vec![],
        incoming: vec![Edge { upstream: 0, label: String::new(), selector: None }],
        h: 42,
    };
    let g = Graph { nodes: vec![n0, n1] };
    assert_eq!(topo_sort(&g, 1).map(|_| ()), Err(GraphError::NotADag));
}

#[test]
fn topological_order_is_dependency_first() {
    let mk = |h: u64, ups: Vec<usize>| Node {
        kind: NodeKind::Filter,
        name: "f".to_string(),
        kwargs: vec![],
        incoming: ups
            .into_iter()
            .map(|u| Edge { upstream: u, label: String::new(), selector: None })
            .collect(),
        h,
    };
    let g = Graph { nodes: vec![mk(1, vec![]), mk(2, vec![0]), mk(3, vec![0]), mk(4, vec![1, 2])] };
    let order = topo_sort(&g, 3).unwrap();
    assert_eq!(order, vec![0, 1, 2, 3]);
}

#[test]
fn missing_filename_is_reported() {
    let n0 = Node {
        kind: NodeKind::Input,
        name: "input".to_string(),
        kwargs: vec![],
        incoming: vec![],
        h: 1,
    };
    let g = Graph { nodes: vec![n0] };
    assert_eq!(get_args(&g, 0, false).map(|_| ()), Err(GraphError::MissingRequiredOption));
}

#[test]
fn overwrite_without_outputs_is_defensive() {
    let s = input("a.mp4", &kw(&[]));
    let f = filter(&s, "scale", &kw(&[]));
    let args = compile(&f, "ffmpeg", true).unwrap();
    assert_eq!(
        args,
        vec!["ffmpeg", "-i", "a.mp4", "-filter_complex", "[0]scale", "-y", "-y"]
    );
}
