use tellme::analysis::for_path;
use tellme::analysis::python::{callers_of, CallSite};
use tellme::analysis::python::Python;
use tellme::analysis::{Analyzer, VarEventKind};
use tellme::error::Error;

const SRC: &str = "def calculate_total(cart, user):
    subtotal = sum(item.price for item in cart.items)
    tax = subtotal * 0.08
    total = subtotal + tax
    if user.is_premium:
        total = total * 0.9
    return round(total, 2)

def checkout():
    return calculate_total(cart, user)
";

#[test]
fn var_flow_tracks_total() {
    let py = Python::new().unwrap();
    let flow = py.var_flow(SRC, "total").unwrap();
    assert_eq!(flow.function.as_deref(), Some("calculate_total"));
    let kinds: Vec<_> = flow.events.iter().map(|e| e.kind).collect();
    assert_eq!(kinds.first(), Some(&VarEventKind::Initialized));
    assert!(kinds.contains(&VarEventKind::Modified));
    assert!(kinds.contains(&VarEventKind::Used));
    assert_eq!(kinds.last(), Some(&VarEventKind::LifecycleEnd));
    // Initialized on line 4.
    assert_eq!(flow.events[0].line, 4);
}

#[test]
fn function_flow_signature_callers_callees() {
    let py = Python::new().unwrap();
    let f = py.function_flow(SRC, "calculate_total").unwrap();
    assert_eq!(f.line, 1);
    assert_eq!(f.params, vec!["cart", "user"]);
    let callee_names: Vec<_> = f.callees.iter().map(|c| c.name.as_str()).collect();
    assert!(callee_names.contains(&"round"));
    assert!(callee_names.contains(&"sum"));
    assert_eq!(f.callers.len(), 1);
    assert_eq!(f.callers[0].name, "checkout");
}

#[test]
fn missing_symbols_error() {
    let py = Python::new().unwrap();
    assert!(py.var_flow(SRC, "nope").is_err());
    assert!(py.function_flow(SRC, "nope").is_err());
}

#[test]
fn functions_lists_returns_and_calls() {
    let py = Python::new().unwrap();
    let defs = py.functions(SRC).unwrap();
    let names: Vec<_> = defs.iter().map(|d| d.name.as_str()).collect();
    assert_eq!(names, vec!["calculate_total", "checkout"]);
    assert_eq!(defs[1].returns, vec!["calculate_total(cart, user)".to_string()]);
    assert!(defs[1].callees.iter().any(|c| c.name == "calculate_total"));
}

#[test]
fn var_flow_events_carry_source_lines() {
    let py = Python::new().unwrap();
    let flow = py.var_flow(SRC, "total").unwrap();
    assert_eq!(flow.name, "total");
    assert_eq!(flow.events[0].text, "total = subtotal + tax");
    assert_eq!(flow.events.last().unwrap().kind.label(), "LIFECYCLE END");
}

#[test]
fn callers_are_matched_by_last_name_component() {
    let sites = vec![
        CallSite { name: "self.calc".into(), line: 3, caller: Some("run".into()) },
        CallSite { name: "calc".into(), line: 9, caller: None },
        CallSite { name: "calculate".into(), line: 10, caller: None },
    ];
    let c = callers_of(&sites, "calc");
    assert_eq!(c.len(), 2);
    assert_eq!((c[0].name.as_str(), c[0].line), ("run", 3));
    assert_eq!((c[1].name.as_str(), c[1].line), ("<module>", 9));
}

#[test]
fn analyzer_is_chosen_by_extension() {
    assert!(for_path("pkg/a.py").is_ok());
    match for_path("main.rs") {
        Err(tellme::error::Error::Other(m)) => assert_eq!(m, "no analyzer for rs files yet (v1 supports Python)"),
        _ => panic!("expected an error"),
    }
}

#[test]
fn var_flow_events_are_exact() {
    let py = Python::new().unwrap();
    let flow = py.var_flow(SRC, "total").unwrap();
    let got: Vec<(VarEventKind, usize, &str)> =
        flow.events.iter().map(|e| (e.kind, e.line, e.text.as_str())).collect();
    assert_eq!(
        got,
        vec![
            (VarEventKind::Initialized, 4, "total = subtotal + tax"),
            (VarEventKind::Modified, 6, "total = total * 0.9"),
            (VarEventKind::Used, 6, "total = total * 0.9"),
            (VarEventKind::Used, 7, "return round(total, 2)"),
            (VarEventKind::LifecycleEnd, 7, "return round(total, 2)"),
        ]
    );
}

#[test]
fn function_flow_is_exact() {
    let py = Python::new().unwrap();
    let f = py.function_flow(SRC, "calculate_total").unwrap();
    assert_eq!(f.name, "calculate_total");
    assert_eq!(f.returns, None);
    let callees: Vec<(&str, usize)> = f.callees.iter().map(|c| (c.name.as_str(), c.line)).collect();
    assert_eq!(callees, vec![("sum", 2), ("round", 7)]);
    let callers: Vec<(&str, usize)> = f.callers.iter().map(|c| (c.name.as_str(), c.line)).collect();
    assert_eq!(callers, vec![("checkout", 10)]);
}

#[test]
fn function_flow_reads_return_annotations_and_module_callers() {
    let src = "def f(a: int, b=2) -> str:\n    return g(a)\n\nf(1)\n";
    let py = Python::new().unwrap();
    let f = py.function_flow(src, "f").unwrap();
    assert_eq!(f.params, vec!["a: int", "b=2"]);
    assert_eq!(f.returns.as_deref(), Some("str"));
    let callers: Vec<(&str, usize)> = f.callers.iter().map(|c| (c.name.as_str(), c.line)).collect();
    assert_eq!(callers, vec![("<module>", 4)]);
}

#[test]
fn missing_symbols_give_their_messages() {
    let py = Python::new().unwrap();
    match py.var_flow(SRC, "nope") {
        Err(Error::Other(m)) => assert_eq!(m, "variable `nope` not found in this file"),
        _ => panic!("expected an error"),
    }
    match py.function_flow(SRC, "nope") {
        Err(Error::Other(m)) => assert_eq!(m, "function `nope` not found in this file"),
        _ => panic!("expected an error"),
    }
}

#[test]
fn var_flow_at_module_level_has_no_function() {
    let py = Python::new().unwrap();
    let flow = py.var_flow("x = 1\nx += 2\nprint(x)\n", "x").unwrap();
    assert_eq!(flow.function, None);
    let got: Vec<(VarEventKind, usize)> = flow.events.iter().map(|e| (e.kind, e.line)).collect();
    assert_eq!(
        got,
        vec![
            (VarEventKind::Initialized, 1),
            (VarEventKind::Modified, 2),
            (VarEventKind::Used, 3),
            (VarEventKind::LifecycleEnd, 3),
        ]
    );
}

#[test]
fn functions_of_an_empty_source_are_none() {
    let py = Python::new().unwrap();
    assert_eq!(py.functions("").unwrap().len(), 0);
}
