use graveyard::graph::reachability::find_reachable;
use graveyard::graph::{build_graph, find_dead_candidates, find_dead_cycles, find_test_only};
use graveyard::parse::types::{Reference, Symbol, SymbolKind};

fn symbol(name: &str, is_test: bool) -> Symbol {
    Symbol {
        fqn: format!("src/main.rs::{name}"),
        name: name.to_string(),
        kind: SymbolKind::Function,
        language: "rust".to_string(),
        file: "src/main.rs".to_string(),
        line_start: 1,
        line_end: 1,
        is_exported: false,
        is_test,
    }
}

fn reference(source_fqn: &str, target_name: &str) -> Reference {
    Reference {
        source_fqn: source_fqn.to_string(),
        target_name: target_name.to_string(),
        file: "src/main.rs".to_string(),
        line: 1,
    }
}

#[test]
fn build_graph_connects_references_by_name() {
    let main = symbol("main", false);
    let helper = symbol("helper", false);
    let main_fqn = main.fqn.clone();
    let helper_fqn = helper.fqn.clone();

    let graph = build_graph(vec![main, helper], vec![reference(&main_fqn, "helper")]);

    let main_idx = graph.index_of_fqn(&main_fqn).expect("main should be indexed");
    let helper_idx = graph.index_of_fqn(&helper_fqn).expect("helper should be indexed");

    assert_eq!(graph.node_count(), 2);
    assert!(graph.has_edge(main_idx, helper_idx));
}

#[test]
fn dead_candidates_filter_reachable_and_track_test_only_callers() {
    let main = symbol("main", false);
    let helper = symbol("helper", false);
    let orphan = symbol("orphan", false);
    let test_helper = symbol("test_helper", true);
    let only_test = symbol("only_test", false);

    let main_fqn = main.fqn.clone();
    let helper_fqn = helper.fqn.clone();
    let test_helper_fqn = test_helper.fqn.clone();
    let orphan_fqn = orphan.fqn.clone();
    let only_test_fqn = only_test.fqn.clone();

    let graph = build_graph(
        vec![main, helper, orphan, test_helper, only_test],
        vec![reference(&main_fqn, "helper"), reference(&test_helper_fqn, "only_test")],
    );
    let idx = |fqn: &str| graph.index_of_fqn(fqn).expect("symbol should be indexed");

    let reachable = find_reachable(&graph, &vec![String::from("main")]);
    let dead = find_dead_candidates(&graph, &reachable);

    assert!(dead.contains(&idx(&orphan_fqn)));
    assert!(dead.contains(&idx(&only_test_fqn)));
    assert!(!dead.contains(&idx(&main_fqn)));
    assert!(!dead.contains(&idx(&helper_fqn)));

    let test_only = find_test_only(&graph, &dead);

    assert!(test_only[idx(&only_test_fqn)]);
    assert!(!test_only[idx(&orphan_fqn)]);
}

#[test]
fn dead_cycles_detect_mutual_recursion_without_external_callers() {
    let alpha = symbol("alpha", false);
    let beta = symbol("beta", false);
    let alpha_fqn = alpha.fqn.clone();
    let beta_fqn = beta.fqn.clone();

    let graph = build_graph(
        vec![alpha, beta],
        vec![reference(&alpha_fqn, "beta"), reference(&beta_fqn, "alpha")],
    );

    let nothing_reachable = vec![false; graph.node_count()];
    let cycles = find_dead_cycles(&graph, &nothing_reachable);

    assert!(cycles[graph.index_of_fqn(&alpha_fqn).unwrap()]);
    assert!(cycles[graph.index_of_fqn(&beta_fqn).unwrap()]);
}

#[test]
fn reachable_walks_from_entry_points() {
    let main = symbol("main", false);
    let helper = symbol("helper", false);
    let deep = symbol("deep", false);
    let main_fqn = main.fqn.clone();
    let helper_fqn = helper.fqn.clone();
    let deep_fqn = deep.fqn.clone();

    let graph = build_graph(
        vec![main, helper, deep],
        vec![reference(&main_fqn, "helper"), reference(&helper_fqn, "deep")],
    );

    let reachable = find_reachable(&graph, &vec![String::from("main")]);

    assert!(reachable[graph.index_of_fqn(&main_fqn).unwrap()]);
    assert!(reachable[graph.index_of_fqn(&helper_fqn).unwrap()]);
    assert!(reachable[graph.index_of_fqn(&deep_fqn).unwrap()]);
}

#[test]
fn unreached_symbols_in_a_cycle_with_an_outside_caller_are_not_a_dead_cycle() {
    let outside = symbol("outside", false);
    let alpha = symbol("alpha", false);
    let beta = symbol("beta", false);
    let outside_fqn = outside.fqn.clone();
    let alpha_fqn = alpha.fqn.clone();
    let beta_fqn = beta.fqn.clone();

    let graph = build_graph(
        vec![outside, alpha, beta],
        vec![
            reference(&outside_fqn, "alpha"),
            reference(&alpha_fqn, "beta"),
            reference(&beta_fqn, "alpha"),
        ],
    );
    let nothing_reachable = vec![false; graph.node_count()];
    let cycles = find_dead_cycles(&graph, &nothing_reachable);

    assert!(cycles.iter().all(|member| !member));
}

#[test]
fn reachable_symbols_are_never_dead_candidates() {
    let main = symbol("main", false);
    let helper = symbol("helper", false);
    let main_fqn = main.fqn.clone();

    let graph = build_graph(vec![main, helper], vec![reference(&main_fqn, "helper")]);
    let reachable = find_reachable(&graph, &vec![String::from("main")]);
    let dead = find_dead_candidates(&graph, &reachable);

    assert!(dead.iter().all(|idx| !reachable[*idx]));
    assert!(dead.is_empty());
}

#[test]
fn duplicate_references_add_one_edge() {
    let main = symbol("main", false);
    let helper = symbol("helper", false);
    let main_fqn = main.fqn.clone();

    let graph = build_graph(
        vec![main, helper],
        vec![reference(&main_fqn, "helper"), reference(&main_fqn, "helper")],
    );

    assert_eq!(graph.edge_list(), vec![(0, 1)]);
}
