use ffgraph::{get_stream_spec_node, input, FilterableStream, GraphError, NodeKind, OutputNode};
use ffgraph::strutil::{str_lt, usize_to_string};

fn kw(pairs: &[(&str, &str)]) -> Vec<(String, String)> {
    pairs.iter().map(|(k, v)| (k.to_string(), v.to_string())).collect()
}

#[test]
fn handle_chain_compiles() {
    let fs = FilterableStream::new(input("a.mp4", &kw(&[])));
    let scaled = fs.filter("scale", &kw(&[("w", "320"), ("h", "240")]));
    let out = scaled.output("out.mp4", &kw(&[]));
    let args = out.compile("ffmpeg", true).unwrap();
    assert_eq!(
        args,
        vec![
            "ffmpeg",
            "-i",
            "a.mp4",
            "-filter_complex",
            "[0]scale=h=240:w=320[s0]",
            "-map",
            "[s0]",
            "out.mp4",
            "-y"
        ]
    );
}

#[test]
fn output_node_builds_output_stage() {
    let s = input("a.mp4", &kw(&[]));
    let node = OutputNode::new(&s, "out.mp4", &kw(&[]));
    let out = node.stream(String::new(), None);
    let args = out.compile("ffmpeg", false).unwrap();
    assert_eq!(args, vec!["ffmpeg", "-i", "a.mp4", "out.mp4"]);
}

#[test]
fn stream_spec_node_is_the_terminal() {
    let s = input("a.mp4", &kw(&[]));
    let nodes = get_stream_spec_node(&s);
    assert_eq!(nodes.len(), 1);
    assert_eq!(nodes[0].kind, NodeKind::Input);
    assert_eq!(nodes[0].name, "input");
    assert_eq!(
        nodes[0].kwargs,
        vec![("filename".to_string(), "a.mp4".to_string())]
    );
}

#[test]
fn filterable_stream_selector_errors_propagate() {
    let s = input("a.mp4", &kw(&[]));
    let narrowed = s.video().unwrap();
    assert_eq!(narrowed.get("v").map(|_| ()), Err(GraphError::InvalidSelector));
}

#[test]
fn decimal_rendering_is_exact() {
    assert_eq!(usize_to_string(0), "0");
    assert_eq!(usize_to_string(9), "9");
    assert_eq!(usize_to_string(10), "10");
    assert_eq!(usize_to_string(3507), "3507");
}

#[test]
fn string_order_is_lexicographic() {
    assert!(str_lt("abc", "abd"));
    assert!(str_lt("ab", "abc"));
    assert!(!str_lt("abc", "abc"));
    assert!(!str_lt("b", "abc"));
    assert!(str_lt("", "a"));
}
