use tellme::journey::{journey_text, Journey, Stage};
use tellme::analysis::python::Python;
use tellme::analysis::{Analyzer, FunctionDef};
use tellme::journey::{
    index_defs, journey, layer_of, short_name, skip_dir, transformation, truncate, Indexed,
};

fn index(files: &[(&str, &str)]) -> Vec<Indexed> {
    let py = Python::new().unwrap();
    let mut idx = Vec::new();
    for (rel, body) in files {
        let defs: Vec<FunctionDef> = py.functions(body).unwrap();
        index_defs(&mut idx, rel, defs);
    }
    idx
}

#[test]
fn traces_endpoint_across_layers() {
    let idx = index(&[
        ("repository/items.py", "def fetch_all():\n    return db.query(\"SELECT * FROM items\")\n"),
        (
            "service/items.py",
            "def list_items():\n    rows = fetch_all()\n    return [Item(**r) for r in rows]\n",
        ),
        (
            "controller/items.py",
            "def items():\n    models = list_items()\n    return jsonify([i.to_dto() for i in models])\n",
        ),
    ]);
    let j = journey(&idx, "items").unwrap();
    let layers: Vec<&str> = j.stages.iter().map(|s| s.layer.as_str()).collect();
    assert_eq!(layers.first(), Some(&"db"));
    assert_eq!(layers.last(), Some(&"api"));
    assert!(layers.contains(&"repository"));
    assert!(layers.contains(&"service"));
    assert!(layers.contains(&"controller"));
    assert!(j.transformations.iter().any(|t| t.contains("JSON")));
    assert!(j.transformations.iter().any(|t| t.contains("rows → models")));
}

#[test]
fn missing_endpoint_errors() {
    let idx = index(&[("a.py", "def x():\n    return 1\n")]);
    assert!(journey(&idx, "nope").is_err());
}

#[test]
fn layers_and_hints() {
    assert_eq!(layer_of("app/models/user.py"), (1, "db"));
    assert_eq!(layer_of("Repository/x.py"), (2, "repository"));
    assert_eq!(layer_of("svc/service.py"), (3, "service"));
    assert_eq!(layer_of("web/routes.py"), (4, "controller"));
    assert_eq!(layer_of("main.py"), (3, "other"));
    assert_eq!(transformation("jsonify(x)"), Some("→ JSON response"));
    assert_eq!(transformation("u.to_dto()"), Some("model → DTO"));
    assert_eq!(transformation("SELECT 1"), Some("DB → rows"));
    assert_eq!(transformation("x + 1"), None);
}

#[test]
fn truncation_and_names() {
    assert_eq!(truncate("abcdef", 4), "abc…");
    assert_eq!(truncate("a\nb", 10), "a b");
    assert_eq!(short_name("self.repo.fetch"), "fetch");
    assert_eq!(short_name("plain"), "plain");
    assert!(skip_dir(".git") && skip_dir("venv") && !skip_dir("src"));
}

#[test]
fn first_definition_wins() {
    let idx = index(&[
        ("controller/a.py", "def items():\n    return jsonify(1)\n"),
        ("service/b.py", "def items():\n    return 2\n"),
    ]);
    assert_eq!(idx.len(), 2);
    let j = journey(&idx, "items").unwrap();
    assert_eq!(j.stages[0].file.as_deref(), Some("controller/a.py"));
}

#[test]
fn journey_listing() {
    let j = Journey {
        endpoint: "items".into(),
        stages: vec![
            Stage { layer: "db".into(), label: "database".into(), file: None, note: "raw rows".into() },
            Stage { layer: "api".into(), label: "API response".into(), file: Some("c.py".into()), note: "out".into() },
        ],
        transformations: vec!["items: → JSON response".into()],
    };
    assert_eq!(
        journey_text(&j),
        vec![
            "Data journey for endpoint: items()",
            "",
            "  ┌─ DB ─ database",
            "  │    raw rows",
            "  ▼",
            "  ┌─ API ─ API response  [c.py]",
            "  │    out",
            "",
            "Transformations along the way:",
            "  • items: → JSON response",
        ]
    );
}

#[test]
fn journey_without_database_access_starts_at_the_code() {
    let idx = index(&[
        ("service/calc.py", "def total(a):\n    return helper(a)\n\ndef helper(a):\n    return jsonify(a)\n"),
    ]);
    let j = journey(&idx, "total").unwrap();
    let layers: Vec<&str> = j.stages.iter().map(|s| s.layer.as_str()).collect();
    assert_eq!(layers, vec!["service", "service", "api"]);
    assert_eq!(j.transformations, vec!["helper: → JSON response".to_string()]);
}
