use completion_resolver::ast::{Contract, Expr, Param, Predicate, Span, Spanned, StorageVar, Variable};
use completion_resolver::candidates::{CompletionKind, ImCompleteCompletionItem};
use completion_resolver::candidates::sort_bucket;
use completion_resolver::completion::{completion, harvest};

fn sp(expr: Expr, start: usize, end: usize) -> Spanned {
    Spanned { expr, span: Span { start, end } }
}

fn empty_contract() -> Contract {
    Contract { storage: Vec::new(), predicates: Vec::new() }
}

/// The expression `let x = 1 then x`, with spans laid out over the text:
/// `let` 0..3, binder `x` 4..5, `1` 8..9, final `x` 15..16.
fn let_chain() -> Spanned {
    sp(
        Expr::Let(
            "x".to_string(),
            Box::new(sp(Expr::Value, 8, 9)),
            Box::new(sp(Expr::Local("x".to_string()), 15, 16)),
            Span { start: 4, end: 5 },
        ),
        0,
        16,
    )
}

fn contract_with_body(body: Spanned) -> Contract {
    Contract {
        storage: Vec::new(),
        predicates: vec![Predicate {
            name: "Main".to_string(),
            params: Vec::new(),
            variables: vec![Variable { name: "v_out".to_string(), body }],
        }],
    }
}

fn get_owned(
    map: &completion_resolver::candidates::CandidateMap,
    key: &str,
) -> Option<ImCompleteCompletionItem> {
    map.get(&key.to_string()).map(|item| match item {
        ImCompleteCompletionItem::Variable(s) => ImCompleteCompletionItem::Variable(s.clone()),
        ImCompleteCompletionItem::Type(s) => ImCompleteCompletionItem::Type(s.clone()),
        ImCompleteCompletionItem::Keyword(s) => ImCompleteCompletionItem::Keyword(s.clone()),
        ImCompleteCompletionItem::StorageVariable(s) => {
            ImCompleteCompletionItem::StorageVariable(s.clone())
        }
    })
}

#[test]
fn determinism_same_inputs_same_table() {
    let c1 = contract_with_body(let_chain());
    let c2 = contract_with_body(let_chain());
    let r1 = completion(&c1, 15);
    let r2 = completion(&c2, 15);
    assert_eq!(r1.len(), r2.len());
    for key in ["let", "if", "int", "bool", "x", "Main::v_out"] {
        assert_eq!(get_owned(&r1, key), get_owned(&r2, key));
    }
    let r3 = completion(&c1, 15);
    assert_eq!(r1.len(), r3.len());
}

#[test]
fn global_symbols_always_present() {
    let empty = empty_contract();
    let with_body = contract_with_body(let_chain());
    for offset in [0usize, 3, 15, 9999] {
        for c in [&empty, &with_body] {
            let r = completion(c, offset);
            for kw in ["predicate", "storage", "constraint", "let", "if", "else", "true", "false"]
            {
                assert_eq!(
                    get_owned(&r, kw),
                    Some(ImCompleteCompletionItem::Keyword(kw.to_string()))
                );
            }
            for ty in ["int", "bool", "b256", "string"] {
                assert_eq!(
                    get_owned(&r, ty),
                    Some(ImCompleteCompletionItem::Type(ty.to_string()))
                );
            }
        }
    }
}

#[test]
fn harvest_of_empty_contract_holds_exactly_the_vocabulary() {
    let r = harvest(&empty_contract());
    assert_eq!(r.len(), 12);
}

#[test]
fn empty_predicate_is_valid_input() {
    let c = Contract {
        storage: Vec::new(),
        predicates: vec![Predicate {
            name: "Empty".to_string(),
            params: Vec::new(),
            variables: Vec::new(),
        }],
    };
    let r = completion(&c, 7);
    assert_eq!(r.len(), 12);
}

#[test]
fn storage_visible_at_every_offset() {
    let c = Contract {
        storage: vec![
            StorageVar { name: "owner".to_string(), span: Span { start: 10, end: 15 } },
            StorageVar { name: "balance".to_string(), span: Span { start: 20, end: 27 } },
        ],
        predicates: Vec::new(),
    };
    for offset in [0usize, 12, 100, 100000] {
        let r = completion(&c, offset);
        assert!(get_owned(&r, "owner").is_some());
        assert!(get_owned(&r, "balance").is_some());
    }
}

#[test]
fn storage_field_qualification() {
    let c = Contract {
        storage: vec![StorageVar { name: "owner".to_string(), span: Span { start: 10, end: 15 } }],
        predicates: Vec::new(),
    };
    let r = completion(&c, 0);
    assert_eq!(
        get_owned(&r, "owner"),
        Some(ImCompleteCompletionItem::StorageVariable("storage::owner".to_string()))
    );
}

#[test]
fn predicate_scoped_qualification() {
    let c = Contract {
        storage: Vec::new(),
        predicates: vec![Predicate {
            name: "Transfer".to_string(),
            params: vec![Param { name: "r_from".to_string(), span: Span { start: 30, end: 36 } }],
            variables: Vec::new(),
        }],
    };
    let r = completion(&c, 0);
    assert_eq!(
        get_owned(&r, "Transfer::r_from"),
        Some(ImCompleteCompletionItem::Variable("from".to_string()))
    );
}

#[test]
fn local_variable_qualification() {
    let c = Contract {
        storage: Vec::new(),
        predicates: vec![Predicate {
            name: "Transfer".to_string(),
            params: Vec::new(),
            variables: vec![Variable {
                name: "v_total".to_string(),
                body: sp(Expr::Value, 50, 52),
            }],
        }],
    };
    let r = completion(&c, 0);
    assert_eq!(
        get_owned(&r, "Transfer::v_total"),
        Some(ImCompleteCompletionItem::Variable("total".to_string()))
    );
}

#[test]
fn short_name_keeps_its_label_whole() {
    let c = Contract {
        storage: Vec::new(),
        predicates: vec![Predicate {
            name: "P".to_string(),
            params: vec![Param { name: "x".to_string(), span: Span { start: 5, end: 6 } }],
            variables: Vec::new(),
        }],
    };
    let r = completion(&c, 0);
    assert_eq!(
        get_owned(&r, "P::x"),
        Some(ImCompleteCompletionItem::Variable("x".to_string()))
    );
}

#[test]
fn let_binding_visible_inside_sequel() {
    let c = contract_with_body(let_chain());
    for offset in [15usize, 16] {
        let r = completion(&c, offset);
        assert_eq!(
            get_owned(&r, "x"),
            Some(ImCompleteCompletionItem::Variable("x".to_string()))
        );
    }
}

#[test]
fn let_binding_included_even_before_binder_by_default() {
    // Default policy: a `let` introduces its name for the whole walked
    // region, so an offset strictly before the binder still sees it.
    let c = contract_with_body(let_chain());
    let r = completion(&c, 2);
    assert_eq!(
        get_owned(&r, "x"),
        Some(ImCompleteCompletionItem::Variable("x".to_string()))
    );
}

#[test]
fn scope_monotonic_along_a_let_chain() {
    // let a = 1 then let b = 2 then a + b, with occurrence spans in
    // source order: `a` at 30..31, `b` at 34..35.
    let body = sp(
        Expr::Let(
            "a".to_string(),
            Box::new(sp(Expr::Value, 8, 9)),
            Box::new(sp(
                Expr::Let(
                    "b".to_string(),
                    Box::new(sp(Expr::Value, 23, 24)),
                    Box::new(sp(
                        Expr::Binary(
                            Box::new(sp(Expr::Local("a".to_string()), 30, 31)),
                            completion_resolver::ast::BinaryOp::Add,
                            Box::new(sp(Expr::Local("b".to_string()), 34, 35)),
                        ),
                        30,
                        35,
                    )),
                    Span { start: 19, end: 20 },
                ),
                15,
                35,
            )),
            Span { start: 4, end: 5 },
        ),
        0,
        35,
    );
    let c = contract_with_body(body);
    let r_early = completion(&c, 30);
    let r_late = completion(&c, 34);
    // Every binding visible at the earlier offset is visible at the later.
    for key in ["a", "b"] {
        if get_owned(&r_early, key).is_some() {
            assert!(get_owned(&r_late, key).is_some());
        }
    }
    assert!(get_owned(&r_early, "a").is_some());
    assert!(get_owned(&r_late, "b").is_some());
}

#[test]
fn walk_stops_at_target_occurrence() {
    // [x, let y = 1, 2]: with the cursor on `x`, the later `let y` must
    // not leak into the suggestions; past the list, it does.
    let list = sp(
        Expr::List(vec![
            sp(Expr::Local("x".to_string()), 5, 6),
            sp(
                Expr::Let(
                    "y".to_string(),
                    Box::new(sp(Expr::Value, 16, 17)),
                    Box::new(sp(Expr::Value, 18, 19)),
                    Span { start: 12, end: 13 },
                ),
                8,
                19,
            ),
            sp(Expr::Value, 21, 22),
        ]),
        0,
        23,
    );
    let c = contract_with_body(list);
    let on_x = completion(&c, 5);
    assert!(get_owned(&on_x, "y").is_none());
    let past_everything = completion(&c, 500);
    assert!(get_owned(&past_everything, "y").is_some());
}

#[test]
fn last_write_wins_on_key_collision() {
    // A storage field named like a built-in type overwrites the earlier
    // vocabulary entry instead of duplicating the key.
    let c = Contract {
        storage: vec![StorageVar { name: "int".to_string(), span: Span { start: 3, end: 6 } }],
        predicates: Vec::new(),
    };
    let r = completion(&c, 0);
    assert_eq!(r.len(), 12);
    assert_eq!(
        get_owned(&r, "int"),
        Some(ImCompleteCompletionItem::StorageVariable("storage::int".to_string()))
    );
}

#[test]
fn classify_and_sort_buckets() {
    let kw = ImCompleteCompletionItem::Keyword("let".to_string());
    let ty = ImCompleteCompletionItem::Type("int".to_string());
    let var = ImCompleteCompletionItem::Variable("x".to_string());
    let st = ImCompleteCompletionItem::StorageVariable("storage::owner".to_string());
    assert_eq!(kw.classify(), CompletionKind::Keyword);
    assert_eq!(ty.classify(), CompletionKind::Type);
    assert_eq!(var.classify(), CompletionKind::Variable);
    assert_eq!(st.classify(), CompletionKind::StorageVariable);
    assert_eq!(sort_bucket(CompletionKind::Keyword), 'a');
    assert_eq!(sort_bucket(CompletionKind::Type), 'b');
    assert_eq!(sort_bucket(CompletionKind::Variable), 'c');
    assert_eq!(sort_bucket(CompletionKind::StorageVariable), 'd');
    assert!(
        sort_bucket(CompletionKind::Keyword) < sort_bucket(CompletionKind::Type)
            && sort_bucket(CompletionKind::Type) < sort_bucket(CompletionKind::Variable)
            && sort_bucket(CompletionKind::Variable)
                < sort_bucket(CompletionKind::StorageVariable)
    );
}

#[test]
fn all_resolved_keys_are_nonempty_and_classified() {
    let c = Contract {
        storage: vec![StorageVar { name: "owner".to_string(), span: Span { start: 10, end: 15 } }],
        predicates: vec![Predicate {
            name: "Transfer".to_string(),
            params: vec![Param { name: "r_from".to_string(), span: Span { start: 30, end: 36 } }],
            variables: vec![Variable { name: "v_out".to_string(), body: let_chain() }],
        }],
    };
    let r = completion(&c, 15);
    assert!(r.len() > 0);
    for entry in &r.entries {
        assert!(!entry.key.is_empty());
        let bucket = sort_bucket(entry.item.classify());
        assert!(('a'..='d').contains(&bucket));
    }
}
