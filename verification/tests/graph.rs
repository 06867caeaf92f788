use tellme::analysis::{Call, FunctionFlow, VarEvent, VarEventKind, VarFlow};
use tellme::graph::{block_width, boxed, center, function_dot, function_graph, row, var_dot, var_graph};

fn sample_fn() -> FunctionFlow {
    FunctionFlow {
        name: "calculate_total".into(),
        line: 1,
        params: vec!["cart".into(), "user".into()],
        returns: None,
        callers: vec![Call { name: "checkout".into(), line: 10 }],
        callees: vec![Call { name: "sum".into(), line: 2 }, Call { name: "round".into(), line: 7 }],
    }
}

fn sample_var() -> VarFlow {
    VarFlow {
        name: "total".into(),
        function: Some("calculate_total".into()),
        events: vec![
            VarEvent { kind: VarEventKind::Initialized, line: 4, text: "total = a".into() },
            VarEvent { kind: VarEventKind::Used, line: 7, text: "return total".into() },
        ],
    }
}

#[test]
fn function_graph_contains_node_and_neighbors() {
    let g = function_graph(&sample_fn());
    assert!(g.contains("calculate_total"));
    assert!(g.contains("checkout"));
    assert!(g.contains("sum"));
    assert!(g.contains("round"));
    assert!(g.contains("uses"));
}

#[test]
fn var_graph_lists_events_in_order() {
    let out = var_graph(&sample_var());
    let init = out.find("INITIALIZED").unwrap();
    let used = out.find("USED").unwrap();
    assert!(init < used);
    assert!(out.contains("total"));
}

#[test]
fn center_pads_both_sides() {
    assert_eq!(center("ab", 6), "  ab  ");
    assert_eq!(center("abc", 6), " abc  ");
    assert_eq!(center("abcdef", 3), "abcdef");
}

#[test]
fn boxes_lines_to_the_widest() {
    let lines = vec!["a".to_string(), "abc".to_string()];
    assert_eq!(block_width(&lines), 3);
    let b = boxed(&lines);
    assert_eq!(b.len(), 4);
    assert_eq!(b[1].chars().count(), b[0].chars().count());
}

#[test]
fn row_joins_names_or_shows_empty() {
    assert_eq!(row(&vec![], "(none)"), "(none)");
    assert!(row(&vec!["a".to_string(), "b".to_string()], "-").contains('a'));
}

#[test]
fn dot_output_names_the_nodes() {
    let d = function_dot(&sample_fn());
    assert!(d.contains("calculate_total"));
    assert!(d.contains("checkout"));
    let v = var_dot(&sample_var());
    assert!(v.contains("INITIALIZED"));
}
