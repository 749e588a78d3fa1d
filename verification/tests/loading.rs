use openscad_part_maker::loader::{corpus_of, resolve_order, scan_directive_paths};
use openscad_part_maker::CorpusBuilder;
use openscad_part_maker::ScadDoc;

fn doc(name: &str, text: &str) -> ScadDoc {
    ScadDoc { name: name.to_string(), text: text.to_string() }
}

#[test]
fn directive_paths_are_found_in_order() {
    let text = "use <a.scad>;\nA = 1;\n  use   < b.scad > ;\nuse<c.scad>;\n";
    assert_eq!(scan_directive_paths(text), vec!["a.scad", "b.scad", "c.scad"]);
}

#[test]
fn malformed_directives_are_not_directives() {
    let text = "used <a.scad>;\nuse <a.scad>\nuse <>;\nX use <b.scad>;\n";
    assert!(scan_directive_paths(text).is_empty());
}

#[test]
fn cyclic_tree_terminates_with_each_document_once() {
    let docs = vec![
        doc("a.scad", "use <b.scad>;\nA = 1;"),
        doc("b.scad", "use <a.scad>;\nB = 2;"),
    ];
    let order = resolve_order(&docs, 0);
    assert_eq!(order, vec![0, 1]);

    let corpus = corpus_of(&docs, &order);
    assert_eq!(corpus.matches("A = 1;").count(), 1);
    assert_eq!(corpus.matches("B = 2;").count(), 1);
}

#[test]
fn missing_reference_is_silently_skipped() {
    let docs = vec![doc("a.scad", "use <gone.scad>;\nuse <b.scad>;\nA = 1;"), doc("b.scad", "B = 2;")];
    let order = resolve_order(&docs, 0);
    assert_eq!(order, vec![0, 1]);
}

#[test]
fn traversal_is_depth_first_in_directive_order() {
    let docs = vec![
        doc("root.scad", "use <mid.scad>;\nuse <leaf2.scad>;"),
        doc("mid.scad", "use <leaf1.scad>;"),
        doc("leaf1.scad", "L1 = 1;"),
        doc("leaf2.scad", "L2 = 2;"),
    ];
    let order = resolve_order(&docs, 0);
    assert_eq!(order, vec![0, 1, 2, 3]);
}

#[test]
fn builder_takes_each_canonical_path_once() {
    let mut b = CorpusBuilder::new();
    assert!(b.begin_document("/tree/a.scad"));
    let next = b.add_document_text("use <b.scad>;\nA = 1;");
    assert_eq!(next, vec!["b.scad"]);

    assert!(b.begin_document("/tree/b.scad"));
    let back = b.add_document_text("use <a.scad>;\nB = 2;");
    assert_eq!(back, vec!["a.scad"]);

    assert!(!b.begin_document("/tree/a.scad"));

    let corpus = b.into_corpus();
    assert_eq!(corpus, "use <b.scad>;\nA = 1;\nuse <a.scad>;\nB = 2;\n");
    assert_eq!(corpus.matches("A = 1;").count(), 1);
}

#[test]
fn resolved_corpus_feeds_the_extractor() {
    let docs = vec![
        doc("main.scad", "use <lib.scad>;\nMODE = \"base\";"),
        doc("lib.scad", "COASTER_D = 101.6;"),
    ];
    let order = resolve_order(&docs, 0);
    let corpus = corpus_of(&docs, &order);
    let tmpl = openscad_part_maker::ScadParamTemplate::from_corpus(corpus.as_str());
    assert_eq!(tmpl.user_param_names(), vec!["COASTER_D", "MODE"]);
}
