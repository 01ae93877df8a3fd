use move_clippy::cross_module::{
    descriptors, find_descriptor, lint_flashloan_without_repay, lint_transitive_capability_leak,
    run_cross_module_lints, Call, CallGraph, FunctionFacts, FunctionKey, ResourceKind,
};

fn key(module: u64, function: u64) -> FunctionKey {
    FunctionKey { module, function }
}

fn plain(k: FunctionKey, calls: Vec<(FunctionKey, u64)>) -> FunctionFacts {
    FunctionFacts {
        key: k,
        returns_hot_potato: false,
        takes_hot_potato: false,
        returns_key_store: false,
        is_public: false,
        takes_key_store: false,
        calls,
    }
}

fn sorted(mut v: Vec<FunctionKey>) -> Vec<(u64, u64)> {
    let mut out: Vec<(u64, u64)> = v.drain(..).map(|k| (k.module, k.function)).collect();
    out.sort();
    out
}

#[test]
fn test_resource_kind() {
    assert_eq!(ResourceKind::FlashLoan, ResourceKind::FlashLoan);
    assert_ne!(ResourceKind::FlashLoan, ResourceKind::Capability);
}

/// a -> b -> c, and d -> b.
fn chain() -> Vec<FunctionFacts> {
    vec![
        plain(key(1, 1), vec![(key(1, 2), 10)]),
        plain(key(1, 2), vec![(key(2, 3), 20)]),
        plain(key(2, 3), vec![]),
        plain(key(2, 4), vec![(key(1, 2), 30)]),
    ]
}

#[test]
fn callees_follow_calls_transitively() {
    let g = CallGraph::build(&chain());
    assert_eq!(sorted(g.transitive_callees(key(1, 1))), vec![(1, 1), (1, 2), (2, 3)]);
    assert_eq!(sorted(g.transitive_callees(key(2, 3))), vec![(2, 3)]);
}

#[test]
fn callers_follow_calls_backwards() {
    let g = CallGraph::build(&chain());
    assert_eq!(sorted(g.transitive_callers(key(2, 3))), vec![(1, 1), (1, 2), (2, 3), (2, 4)]);
    assert_eq!(sorted(g.transitive_callers(key(1, 1))), vec![(1, 1)]);
}

#[test]
fn callers_and_callees_are_inverse() {
    let g = CallGraph::build(&chain());
    let all = [key(1, 1), key(1, 2), key(2, 3), key(2, 4)];
    for t in all {
        for x in all {
            let is_caller = g.transitive_callers(t).contains(&x);
            let is_callee = g.transitive_callees(x).contains(&t);
            assert_eq!(is_caller, is_callee);
        }
    }
}

#[test]
fn cycles_terminate() {
    let fs = vec![
        plain(key(1, 1), vec![(key(1, 2), 1)]),
        plain(key(1, 2), vec![(key(1, 1), 2), (key(1, 2), 3)]),
    ];
    let g = CallGraph::build(&fs);
    assert_eq!(sorted(g.transitive_callees(key(1, 2))), vec![(1, 1), (1, 2)]);
}

#[test]
fn scoped_graph_drops_calls_leaving_the_package() {
    let roots = vec![1];
    let g = CallGraph::build_scoped(&chain(), Some(&roots));
    assert_eq!(sorted(g.transitive_callees(key(1, 1))), vec![(1, 1), (1, 2)]);
    assert_eq!(sorted(g.transitive_callers(key(1, 2))), vec![(1, 1), (1, 2)]);
    assert_eq!(g.calls.len(), 1);
}

#[test]
fn callers_map_lists_each_incoming_call() {
    let g = CallGraph::build(&chain());
    let into_b = g
        .callers
        .iter()
        .find(|(k, _)| *k == key(1, 2))
        .map(|(_, v)| v.clone())
        .unwrap();
    assert_eq!(
        into_b,
        vec![
            Call { caller: key(1, 1), callee: key(1, 2), loc: 10 },
            Call { caller: key(2, 4), callee: key(1, 2), loc: 30 },
        ]
    );
}

#[test]
fn no_function_is_a_capability_handler() {
    let g = CallGraph::build(&chain());
    assert!(g.capability_handlers.is_empty());
    assert!(!g.has_capability_flow(key(1, 1), key(2, 3)));
}

fn flashloan_package(borrow_calls_repay: bool) -> Vec<FunctionFacts> {
    let mut borrow = plain(key(1, 1), vec![]);
    borrow.returns_hot_potato = true;
    borrow.takes_hot_potato = true;
    if borrow_calls_repay {
        borrow.calls.push((key(1, 2), 5));
    }
    let mut repay = plain(key(1, 2), vec![]);
    repay.takes_hot_potato = true;
    vec![borrow, repay]
}

#[test]
fn flashloan_creator_counts_as_its_own_repayment() {
    // A creator takes a hot potato by value, so it is a consumer too, and the
    // functions it reaches include itself.
    let roots = vec![1];
    assert!(lint_flashloan_without_repay(&flashloan_package(false), &roots).is_empty());
    assert!(lint_flashloan_without_repay(&flashloan_package(true), &roots).is_empty());
}

#[test]
fn flashloan_graph_records_creators_and_consumers() {
    let g = CallGraph::build(&flashloan_package(false));
    assert_eq!(g.resource_creators, vec![(key(1, 1), ResourceKind::FlashLoan)]);
    assert_eq!(
        g.resource_consumers,
        vec![(key(1, 1), ResourceKind::FlashLoan), (key(1, 2), ResourceKind::FlashLoan)]
    );
}

#[test]
fn key_store_return_makes_a_capability_creator() {
    let mut f = plain(key(3, 1), vec![]);
    f.returns_key_store = true;
    let g = CallGraph::build(&vec![f]);
    assert_eq!(g.resource_creators, vec![(key(3, 1), ResourceKind::Capability)]);
    assert!(g.resource_consumers.is_empty());
}

fn leak_package(callee_public: bool, callee_module: u64) -> Vec<FunctionFacts> {
    let caller = plain(key(1, 1), vec![(key(callee_module, 2), 7)]);
    let mut callee = plain(key(callee_module, 2), vec![]);
    callee.is_public = callee_public;
    callee.takes_key_store = true;
    vec![caller, callee]
}

#[test]
fn capability_passed_to_public_function_of_other_module_is_reported() {
    let roots = vec![1, 2];
    let found = lint_transitive_capability_leak(&leak_package(true, 2), &roots);
    assert_eq!(found, vec![Call { caller: key(1, 1), callee: key(2, 2), loc: 7 }]);
}

#[test]
fn capability_leak_needs_public_callee_in_another_package_module() {
    let roots = vec![1, 2];
    assert!(lint_transitive_capability_leak(&leak_package(false, 2), &roots).is_empty());
    assert!(lint_transitive_capability_leak(&leak_package(true, 1), &roots).is_empty());
    let only_caller = vec![1];
    assert!(lint_transitive_capability_leak(&leak_package(true, 2), &only_caller).is_empty());
}

#[test]
fn both_cross_module_lints_run_together() {
    let roots = vec![1, 2];
    let mut fs = leak_package(true, 2);
    fs.extend(flashloan_package(false).into_iter().map(|mut f| {
        f.key.function += 10;
        f
    }));
    let found = run_cross_module_lints(&fs, &roots);
    assert_eq!(found.capability_leaks, vec![Call { caller: key(1, 1), callee: key(2, 2), loc: 7 }]);
    assert!(found.unrepaid_flashloans.is_empty());
}

#[test]
fn cross_module_descriptors_are_found_by_name() {
    let all = descriptors();
    assert_eq!(all.len(), 2);
    assert_eq!(all[0].name, "transitive_capability_leak");
    assert_eq!(all[1].name, "flashloan_without_repay");
    assert_eq!(find_descriptor("flashloan_without_repay").unwrap().name, "flashloan_without_repay");
    assert!(find_descriptor("price_manipulation_window").is_none());
}

#[test]
fn leaks_come_caller_by_caller_in_key_order() {
    let roots = vec![1, 2, 3];
    let mut public_sink = plain(key(3, 1), vec![]);
    public_sink.is_public = true;
    public_sink.takes_key_store = true;
    let fs = vec![
        plain(key(2, 5), vec![(key(3, 1), 40), (key(3, 1), 41)]),
        plain(key(1, 9), vec![(key(3, 1), 30)]),
        public_sink,
    ];
    let found = lint_transitive_capability_leak(&fs, &roots);
    assert_eq!(
        found,
        vec![
            Call { caller: key(1, 9), callee: key(3, 1), loc: 30 },
            Call { caller: key(2, 5), callee: key(3, 1), loc: 40 },
            Call { caller: key(2, 5), callee: key(3, 1), loc: 41 },
        ]
    );
}

#[test]
fn transitive_results_come_in_key_order() {
    let fs = vec![
        plain(key(5, 1), vec![(key(2, 2), 1), (key(9, 0), 2)]),
        plain(key(2, 2), vec![(key(1, 7), 3)]),
    ];
    let g = CallGraph::build(&fs);
    assert_eq!(g.transitive_callees(key(5, 1)), vec![key(1, 7), key(2, 2), key(5, 1), key(9, 0)]);
    assert_eq!(g.transitive_callers(key(1, 7)), vec![key(1, 7), key(2, 2), key(5, 1)]);
}
