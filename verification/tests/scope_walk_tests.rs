use completion_resolver::ast::{Expr, Span, Spanned};
use completion_resolver::candidates::{CandidateMap, ImCompleteCompletionItem};
use completion_resolver::completion::{get_completion_of, scope_walk};

fn sp(expr: Expr, start: usize, end: usize) -> Spanned {
    Spanned { expr, span: Span { start, end } }
}

/// `let x = 1 then x`: binder `x` 4..5, `1` 8..9, final `x` 15..16.
fn let_chain() -> Spanned {
    sp(
        Expr::Let(
            "x".to_string(),
            Box::new(sp(Expr::Value, 8, 9)),
            Box::new(sp(Expr::Local("x".to_string()), 15, 16)),
            Span { start: 4, end: 5 },
        ),
        0,
        16,
    )
}

fn has_variable(map: &CandidateMap, key: &str) -> bool {
    matches!(map.get(&key.to_string()), Some(ImCompleteCompletionItem::Variable(_)))
}

#[test]
fn walk_reports_target_reached_on_occurrence() {
    let e = let_chain();
    let mut map = CandidateMap::new();
    let keep_searching = get_completion_of(&e, &mut map, 15);
    assert!(!keep_searching);
    assert!(has_variable(&map, "x"));
}

#[test]
fn walk_continues_when_offset_hits_no_occurrence() {
    let e = let_chain();
    let mut map = CandidateMap::new();
    let keep_searching = get_completion_of(&e, &mut map, 2);
    assert!(keep_searching);
    // Default policy: the binding is collected although the cursor sits
    // before the binder span.
    assert!(has_variable(&map, "x"));
}

#[test]
fn strict_walk_excludes_binding_before_its_binder() {
    let e = let_chain();
    let mut map = CandidateMap::new();
    let keep_searching = scope_walk(&e, &mut map, 2, true);
    assert!(keep_searching);
    assert!(!has_variable(&map, "x"));
    assert_eq!(map.len(), 0);
}

#[test]
fn strict_walk_includes_binding_at_or_after_its_binder() {
    let e = let_chain();
    let mut map = CandidateMap::new();
    let keep_searching = scope_walk(&e, &mut map, 15, true);
    assert!(!keep_searching);
    assert!(has_variable(&map, "x"));
}

#[test]
fn call_arguments_walked_in_order_and_pruned() {
    // f(a, let y = 1 in 2): cursor on `a` stops the walk before the
    // argument that binds `y`.
    let call = sp(
        Expr::Call(
            Box::new(sp(Expr::Local("f".to_string()), 0, 1)),
            vec![
                sp(Expr::Local("a".to_string()), 2, 3),
                sp(
                    Expr::Let(
                        "y".to_string(),
                        Box::new(sp(Expr::Value, 12, 13)),
                        Box::new(sp(Expr::Value, 17, 18)),
                        Span { start: 9, end: 10 },
                    ),
                    5,
                    18,
                ),
            ],
        ),
        0,
        19,
    );
    let mut map = CandidateMap::new();
    let keep_searching = get_completion_of(&call, &mut map, 2);
    assert!(!keep_searching);
    assert!(!has_variable(&map, "y"));

    let mut map_past = CandidateMap::new();
    let keep_searching_past = get_completion_of(&call, &mut map_past, 100);
    assert!(keep_searching_past);
    assert!(has_variable(&map_past, "y"));
}

#[test]
fn if_branches_walked_left_to_right() {
    // if t { let p = 1 } else { q }: cursor on the `q` occurrence sees the
    // binding from the branch walked before it.
    let e = sp(
        Expr::If(
            Box::new(sp(Expr::Local("t".to_string()), 3, 4)),
            Box::new(sp(
                Expr::Let(
                    "p".to_string(),
                    Box::new(sp(Expr::Value, 15, 16)),
                    Box::new(sp(Expr::Value, 17, 18)),
                    Span { start: 11, end: 12 },
                ),
                7,
                18,
            )),
            Box::new(sp(Expr::Local("q".to_string()), 28, 29)),
        ),
        0,
        30,
    );
    let mut map = CandidateMap::new();
    let keep_searching = get_completion_of(&e, &mut map, 28);
    assert!(!keep_searching);
    assert!(has_variable(&map, "p"));
}

#[test]
fn error_and_value_nodes_have_no_scope_effect() {
    let e = sp(Expr::List(vec![sp(Expr::Error, 0, 3), sp(Expr::Value, 4, 5)]), 0, 5);
    let mut map = CandidateMap::new();
    let keep_searching = get_completion_of(&e, &mut map, 1);
    assert!(keep_searching);
    assert_eq!(map.len(), 0);
}
