//! The completion resolver: harvesting of globally visible symbols,
//! span-pruned walking of expression trees for lexically local bindings,
//! and the request-level entry point combining the two.

use vstd::prelude::*;
use vstd::string::StrSliceExecFns;
use vstd::string::StringExecFns;

use crate::ast::{span_contains, Contract, Expr, Param, Predicate, Spanned, StorageVar, Variable};
use crate::candidates::{CandidateMap, CompletionKind, ImCompleteCompletionItem};

verus! {

/// The fixed reserved-keyword vocabulary.
pub open spec fn keywords() -> Seq<Seq<char>> {
    seq!["predicate"@, "storage"@, "constraint"@, "let"@, "if"@, "else"@, "true"@, "false"@]
}

/// The fixed built-in scalar type vocabulary.
pub open spec fn builtin_types() -> Seq<Seq<char>> {
    seq!["int"@, "bool"@, "b256"@, "string"@]
}

/// The candidate table holding exactly the fixed vocabularies: every
/// built-in type under its bare name, every keyword under its bare name.
pub open spec fn fixed_map() -> Map<Seq<char>, (CompletionKind, Seq<char>)> {
    Map::empty().insert("int"@, (CompletionKind::Type, "int"@)).insert(
        "bool"@,
        (CompletionKind::Type, "bool"@),
    ).insert("b256"@, (CompletionKind::Type, "b256"@)).insert(
        "string"@,
        (CompletionKind::Type, "string"@),
    ).insert("predicate"@, (CompletionKind::Keyword, "predicate"@)).insert(
        "storage"@,
        (CompletionKind::Keyword, "storage"@),
    ).insert("constraint"@, (CompletionKind::Keyword, "constraint"@)).insert(
        "let"@,
        (CompletionKind::Keyword, "let"@),
    ).insert("if"@, (CompletionKind::Keyword, "if"@)).insert(
        "else"@,
        (CompletionKind::Keyword, "else"@),
    ).insert("true"@, (CompletionKind::Keyword, "true"@)).insert(
        "false"@,
        (CompletionKind::Keyword, "false"@),
    )
}

/// The qualified key of a predicate-scoped symbol: `predicate::name`.
pub open spec fn qualify(pred: Seq<char>, name: Seq<char>) -> Seq<char> {
    pred + "::"@ + name
}

/// The display label of a predicate-scoped symbol: the name with its fixed
/// two-character role prefix stripped. A name shorter than two characters
/// carries no such prefix and is kept whole.
pub open spec fn strip_prefix(name: Seq<char>) -> Seq<char> {
    if name.len() >= 2 {
        name.subrange(2, name.len() as int)
    } else {
        name
    }
}

/// The label of a storage field: `storage::name`.
pub open spec fn storage_label(name: Seq<char>) -> Seq<char> {
    "storage::"@ + name
}

/// Folds the storage declarations from index `i` on into the table: each
/// field under its bare name, Kind=StorageVariable, label `storage::name`.
pub open spec fn storage_into(
    m: Map<Seq<char>, (CompletionKind, Seq<char>)>,
    storage: Seq<StorageVar>,
    i: int,
) -> Map<Seq<char>, (CompletionKind, Seq<char>)>
    decreases storage.len() - i,
{
    if i < 0 || i >= storage.len() {
        m
    } else {
        storage_into(
            m.insert(
                storage[i].name@,
                (CompletionKind::StorageVariable, storage_label(storage[i].name@)),
            ),
            storage,
            i + 1,
        )
    }
}

/// Folds the parameters of predicate `pred` from index `i` on into the
/// table: key `pred::name`, Kind=Variable, label with the prefix stripped.
pub open spec fn params_into(
    m: Map<Seq<char>, (CompletionKind, Seq<char>)>,
    pred: Seq<char>,
    params: Seq<Param>,
    i: int,
) -> Map<Seq<char>, (CompletionKind, Seq<char>)>
    decreases params.len() - i,
{
    if i < 0 || i >= params.len() {
        m
    } else {
        params_into(
            m.insert(
                qualify(pred, params[i].name@),
                (CompletionKind::Variable, strip_prefix(params[i].name@)),
            ),
            pred,
            params,
            i + 1,
        )
    }
}

/// Folds the named local variables of predicate `pred` from index `i` on
/// into the table, under the same qualification and stripping rules as
/// parameters.
pub open spec fn vars_into(
    m: Map<Seq<char>, (CompletionKind, Seq<char>)>,
    pred: Seq<char>,
    vars: Seq<Variable>,
    i: int,
) -> Map<Seq<char>, (CompletionKind, Seq<char>)>
    decreases vars.len() - i,
{
    if i < 0 || i >= vars.len() {
        m
    } else {
        vars_into(
            m.insert(
                qualify(pred, vars[i].name@),
                (CompletionKind::Variable, strip_prefix(vars[i].name@)),
            ),
            pred,
            vars,
            i + 1,
        )
    }
}

/// Folds every predicate from index `i` on into the table: first its
/// parameters, in order, and after them its local variables.
pub open spec fn preds_into(
    m: Map<Seq<char>, (CompletionKind, Seq<char>)>,
    preds: Seq<Predicate>,
    i: int,
) -> Map<Seq<char>, (CompletionKind, Seq<char>)>
    decreases preds.len() - i,
{
    if i < 0 || i >= preds.len() {
        m
    } else {
        preds_into(
            vars_into(
                params_into(m, preds[i].name@, preds[i].params@, 0),
                preds[i].name@,
                preds[i].variables@,
                0,
            ),
            preds,
            i + 1,
        )
    }
}

/// The full offset-independent harvest of a contract: the fixed
/// vocabularies, the storage fields, and the qualified predicate-scoped
/// symbols, in that insertion order.
pub open spec fn harvest_spec(c: Contract) -> Map<Seq<char>, (CompletionKind, Seq<char>)> {
    preds_into(storage_into(fixed_map(), c.storage@, 0), c.predicates@, 0)
}

/// Builds the key `pred::name`.
fn qualify_key(pred: &String, name: &String) -> (r: String)
    ensures
        r@ == qualify(pred@, name@),
{
    let mut k = pred.clone();
    k.append("::");
    k.append(name.as_str());
    k
}

/// Builds the display label of a predicate-scoped symbol, stripping the
/// two-character role prefix when the name is long enough to carry one.
fn strip_prefix_label(name: &String) -> (r: String)
    ensures
        r@ == strip_prefix(name@),
{
    let n = name.as_str().unicode_len();
    if n >= 2 {
        String::from_str(name.as_str().substring_char(2, n))
    } else {
        name.clone()
    }
}

/// Builds the display label `storage::name` of a storage field.
fn storage_field_label(name: &String) -> (r: String)
    ensures
        r@ == storage_label(name@),
{
    let mut label = String::from_str("storage::");
    label.append(name.as_str());
    label
}

/// Gathers every symbol that is visible regardless of the cursor offset:
/// the fixed keyword and built-in type vocabularies, the storage fields,
/// and every predicate's parameters and named local variables. Never
/// fails; absent storage or predicates simply contribute no entries.
pub fn harvest(ast: &Contract) -> (r: CandidateMap)
    ensures
        r.wf(),
        r@ == harvest_spec(*ast),
{
    let mut map = CandidateMap::new();
    map.insert(String::from_str("int"), ImCompleteCompletionItem::Type(String::from_str("int")));
    map.insert(String::from_str("bool"), ImCompleteCompletionItem::Type(String::from_str("bool")));
    map.insert(String::from_str("b256"), ImCompleteCompletionItem::Type(String::from_str("b256")));
    map.insert(
        String::from_str("string"),
        ImCompleteCompletionItem::Type(String::from_str("string")),
    );
    map.insert(
        String::from_str("predicate"),
        ImCompleteCompletionItem::Keyword(String::from_str("predicate")),
    );
    map.insert(
        String::from_str("storage"),
        ImCompleteCompletionItem::Keyword(String::from_str("storage")),
    );
    map.insert(
        String::from_str("constraint"),
        ImCompleteCompletionItem::Keyword(String::from_str("constraint")),
    );
    map.insert(
        String::from_str("let"),
        ImCompleteCompletionItem::Keyword(String::from_str("let")),
    );
    map.insert(String::from_str("if"), ImCompleteCompletionItem::Keyword(String::from_str("if")));
    map.insert(
        String::from_str("else"),
        ImCompleteCompletionItem::Keyword(String::from_str("else")),
    );
    map.insert(
        String::from_str("true"),
        ImCompleteCompletionItem::Keyword(String::from_str("true")),
    );
    map.insert(
        String::from_str("false"),
        ImCompleteCompletionItem::Keyword(String::from_str("false")),
    );
    assert(map@ == fixed_map());

    let ghost m_fixed = map@;
    let ns = ast.storage.len();
    let mut i: usize = 0;
    while i < ns
        invariant
            map.wf(),
            ns == ast.storage@.len(),
            i <= ns,
            storage_into(m_fixed, ast.storage@, 0) == storage_into(map@, ast.storage@, i as int),
        decreases ns - i,
    {
        let var = &ast.storage[i];
        let label = storage_field_label(&var.name);
        map.insert(var.name.clone(), ImCompleteCompletionItem::StorageVariable(label));
        i += 1;
    }
    let ghost m_storage = map@;
    assert(m_storage == storage_into(m_fixed, ast.storage@, 0));

    let np = ast.predicates.len();
    let mut pi: usize = 0;
    while pi < np
        invariant
            map.wf(),
            np == ast.predicates@.len(),
            pi <= np,
            preds_into(m_storage, ast.predicates@, 0) == preds_into(map@, ast.predicates@, pi as int),
        decreases np - pi,
    {
        let pred = &ast.predicates[pi];
        let ghost m_pred = map@;

        let nparams = pred.params.len();
        let mut j: usize = 0;
        while j < nparams
            invariant
                map.wf(),
                nparams == pred.params@.len(),
                j <= nparams,
                params_into(m_pred, pred.name@, pred.params@, 0) == params_into(
                    map@,
                    pred.name@,
                    pred.params@,
                    j as int,
                ),
        decreases nparams - j,
        {
            let key = qualify_key(&pred.name, &pred.params[j].name);
            let label = strip_prefix_label(&pred.params[j].name);
            map.insert(key, ImCompleteCompletionItem::Variable(label));
            j += 1;
        }
        let ghost m_params = map@;
        assert(m_params == params_into(m_pred, pred.name@, pred.params@, 0));

        let nvars = pred.variables.len();
        let mut k: usize = 0;
        while k < nvars
            invariant
                map.wf(),
                nvars == pred.variables@.len(),
                k <= nvars,
                vars_into(m_params, pred.name@, pred.variables@, 0) == vars_into(
                    map@,
                    pred.name@,
                    pred.variables@,
                    k as int,
                ),
        decreases nvars - k,
        {
            let key = qualify_key(&pred.name, &pred.variables[k].name);
            let label = strip_prefix_label(&pred.variables[k].name);
            map.insert(key, ImCompleteCompletionItem::Variable(label));
            k += 1;
        }
        assert(map@ == vars_into(m_params, pred.name@, pred.variables@, 0));
        pi += 1;
    }
    map
}

/// What one walk step does: the table after the walk, and whether the
/// search may continue into later siblings (`true`) or the target region
/// has been reached (`false`). With `only_before_cursor` set, a `let`
/// binding is collected only when the cursor offset is at or past the
/// start of its binder span; otherwise every `let` on the walked prefix
/// is collected unconditionally.
pub open spec fn walk_spec(
    e: Spanned,
    offset: int,
    m: Map<Seq<char>, (CompletionKind, Seq<char>)>,
    only_before_cursor: bool,
) -> (Map<Seq<char>, (CompletionKind, Seq<char>)>, bool)
    decreases e, 0int,
{
    match e.expr {
        Expr::Error => (m, true),
        Expr::Value => (m, true),
        Expr::Local(_) => (m, !span_contains(e.span, offset)),
        Expr::Let(name, init, body, binder) => {
            let m1 = if !only_before_cursor || binder.start <= offset {
                m.insert(name@, (CompletionKind::Variable, name@))
            } else {
                m
            };
            let r1 = walk_spec(*init, offset, m1, only_before_cursor);
            if r1.1 {
                walk_spec(*body, offset, r1.0, only_before_cursor)
            } else {
                r1
            }
        },
        Expr::Then(first, second) => {
            let r1 = walk_spec(*first, offset, m, only_before_cursor);
            if r1.1 {
                walk_spec(*second, offset, r1.0, only_before_cursor)
            } else {
                r1
            }
        },
        Expr::Binary(lhs, _, rhs) => {
            let r1 = walk_spec(*lhs, offset, m, only_before_cursor);
            if r1.1 {
                walk_spec(*rhs, offset, r1.0, only_before_cursor)
            } else {
                r1
            }
        },
        Expr::Call(callee, args) => {
            let r1 = walk_spec(*callee, offset, m, only_before_cursor);
            if r1.1 {
                walk_list_spec(args@, 0, offset, r1.0, only_before_cursor)
            } else {
                r1
            }
        },
        Expr::If(test, consequent, alternative) => {
            let r1 = walk_spec(*test, offset, m, only_before_cursor);
            if !r1.1 {
                r1
            } else {
                let r2 = walk_spec(*consequent, offset, r1.0, only_before_cursor);
                if !r2.1 {
                    r2
                } else {
                    walk_spec(*alternative, offset, r2.0, only_before_cursor)
                }
            }
        },
        Expr::Print(inner) => walk_spec(*inner, offset, m, only_before_cursor),
        Expr::List(items) => walk_list_spec(items@, 0, offset, m, only_before_cursor),
    }
}

/// Walks the items of a sequence from index `i` on, left to right,
/// stopping at the first item whose walk reports the target was reached.
pub open spec fn walk_list_spec(
    items: Seq<Spanned>,
    i: int,
    offset: int,
    m: Map<Seq<char>, (CompletionKind, Seq<char>)>,
    only_before_cursor: bool,
) -> (Map<Seq<char>, (CompletionKind, Seq<char>)>, bool)
    decreases items, items.len() - i,
{
    if i < 0 || i >= items.len() {
        (m, true)
    } else {
        let r1 = walk_spec(items[i], offset, m, only_before_cursor);
        if r1.1 {
            walk_list_spec(items, i + 1, offset, r1.0, only_before_cursor)
        } else {
            r1
        }
    }
}

/// Depth-first, left-to-right, short-circuiting scope walk. Collects into
/// `definition_map` the `let`-introduced names on the walked prefix of the
/// tree and returns whether the search may continue into later siblings:
/// `false` exactly when the walked region contains an identifier
/// occurrence whose span encloses `ident_offset`.
#[verifier::loop_isolation(false)]
pub fn scope_walk(
    expr: &Spanned,
    definition_map: &mut CandidateMap,
    ident_offset: usize,
    only_before_cursor: bool,
) -> (keep_searching: bool)
    requires
        old(definition_map).wf(),
    ensures
        final(definition_map).wf(),
        (final(definition_map)@, keep_searching) == walk_spec(
            *expr,
            ident_offset as int,
            old(definition_map)@,
            only_before_cursor,
        ),
    decreases *expr, 0int,
{
    match &expr.expr {
        Expr::Error => true,
        Expr::Value => true,
        Expr::Local(_) => !(ident_offset >= expr.span.start && ident_offset < expr.span.end),
        Expr::Let(name, init, body, binder) => {
            if !only_before_cursor || binder.start <= ident_offset {
                definition_map.insert(
                    name.clone(),
                    ImCompleteCompletionItem::Variable(name.clone()),
                );
            }
            if scope_walk(&**init, definition_map, ident_offset, only_before_cursor) {
                scope_walk(&**body, definition_map, ident_offset, only_before_cursor)
            } else {
                false
            }
        },
        Expr::Then(first, second) => {
            if scope_walk(&**first, definition_map, ident_offset, only_before_cursor) {
                scope_walk(&**second, definition_map, ident_offset, only_before_cursor)
            } else {
                false
            }
        },
        Expr::Binary(lhs, _, rhs) => {
            if scope_walk(&**lhs, definition_map, ident_offset, only_before_cursor) {
                scope_walk(&**rhs, definition_map, ident_offset, only_before_cursor)
            } else {
                false
            }
        },
        Expr::Call(callee, args) => {
            if !scope_walk(&**callee, definition_map, ident_offset, only_before_cursor) {
                return false;
            }
            let ghost m_args = definition_map@;
            let n = args.len();
            let mut i: usize = 0;
            while i < n
                invariant
                    definition_map.wf(),
                    n == args@.len(),
                    i <= n,
                    walk_list_spec(args@, 0, ident_offset as int, m_args, only_before_cursor)
                        == walk_list_spec(
                        args@,
                        i as int,
                        ident_offset as int,
                        definition_map@,
                        only_before_cursor,
                    ),
                decreases n - i,
            {
                proof {
                    assert(decreases_to!(*expr => args@[i as int]));
                }
                let ghost m_before = definition_map@;
                if !scope_walk(&args[i], definition_map, ident_offset, only_before_cursor) {
                    proof {
                        assert(walk_list_spec(
                            args@,
                            i as int,
                            ident_offset as int,
                            m_before,
                            only_before_cursor,
                        ) == (definition_map@, false));
                    }
                    return false;
                }
                i += 1;
            }
            true
        },
        Expr::If(test, consequent, alternative) => {
            if !scope_walk(&**test, definition_map, ident_offset, only_before_cursor) {
                return false;
            }
            if !scope_walk(&**consequent, definition_map, ident_offset, only_before_cursor) {
                return false;
            }
            scope_walk(&**alternative, definition_map, ident_offset, only_before_cursor)
        },
        Expr::Print(inner) => scope_walk(&**inner, definition_map, ident_offset, only_before_cursor),
        Expr::List(items) => {
            let ghost m_items = definition_map@;
            let n = items.len();
            let mut i: usize = 0;
            while i < n
                invariant
                    definition_map.wf(),
                    n == items@.len(),
                    i <= n,
                    walk_list_spec(items@, 0, ident_offset as int, m_items, only_before_cursor)
                        == walk_list_spec(
                        items@,
                        i as int,
                        ident_offset as int,
                        definition_map@,
                        only_before_cursor,
                    ),
                decreases n - i,
            {
                proof {
                    assert(decreases_to!(*expr => items@[i as int]));
                }
                let ghost m_before = definition_map@;
                if !scope_walk(&items[i], definition_map, ident_offset, only_before_cursor) {
                    proof {
                        assert(walk_list_spec(
                            items@,
                            i as int,
                            ident_offset as int,
                            m_before,
                            only_before_cursor,
                        ) == (definition_map@, false));
                    }
                    return false;
                }
                i += 1;
            }
            true
        },
    }
}

/// Scope walk with the default policy: a `let` introduces its name for the
/// walked region regardless of where exactly the cursor sits relative to
/// the binder itself.
pub fn get_completion_of(
    expr: &Spanned,
    definition_map: &mut CandidateMap,
    ident_offset: usize,
) -> (keep_searching: bool)
    requires
        old(definition_map).wf(),
    ensures
        final(definition_map).wf(),
        (final(definition_map)@, keep_searching) == walk_spec(
            *expr,
            ident_offset as int,
            old(definition_map)@,
            false,
        ),
{
    scope_walk(expr, definition_map, ident_offset, false)
}

/// Walks the bodies of the named local variables of one predicate from
/// index `i` on, short-circuiting once the target region is reached.
pub open spec fn walk_vars_spec(
    vars: Seq<Variable>,
    i: int,
    offset: int,
    m: Map<Seq<char>, (CompletionKind, Seq<char>)>,
) -> (Map<Seq<char>, (CompletionKind, Seq<char>)>, bool)
    decreases vars.len() - i,
{
    if i < 0 || i >= vars.len() {
        (m, true)
    } else {
        let r1 = walk_spec(vars[i].body, offset, m, false);
        if r1.1 {
            walk_vars_spec(vars, i + 1, offset, r1.0)
        } else {
            r1
        }
    }
}

/// Walks every predicate's variable bodies from index `i` on, in
/// declaration order, short-circuiting once the target region is reached.
pub open spec fn walk_preds_spec(
    preds: Seq<Predicate>,
    i: int,
    offset: int,
    m: Map<Seq<char>, (CompletionKind, Seq<char>)>,
) -> (Map<Seq<char>, (CompletionKind, Seq<char>)>, bool)
    decreases preds.len() - i,
{
    if i < 0 || i >= preds.len() {
        (m, true)
    } else {
        let r1 = walk_vars_spec(preds[i].variables@, 0, offset, m);
        if r1.1 {
            walk_preds_spec(preds, i + 1, offset, r1.0)
        } else {
            r1
        }
    }
}

/// The full candidate table at a cursor offset: the offset-independent
/// harvest, extended with the lexically local bindings the scope walk
/// collects from the predicates' variable bodies.
pub open spec fn resolve_spec(c: Contract, offset: int) -> Map<
    Seq<char>,
    (CompletionKind, Seq<char>),
> {
    walk_preds_spec(c.predicates@, 0, offset, harvest_spec(c)).0
}

/// Resolves the completion candidates valid at `ident_offset`: harvests
/// the globally visible symbols, and collects lexically local `let`
/// bindings from the predicates' variable bodies, pruned at the target
/// offset. Pure and request-scoped: the table is rebuilt from scratch on
/// every call and the contract is never mutated.
#[verifier::loop_isolation(false)]
pub fn completion(ast: &Contract, ident_offset: usize) -> (r: CandidateMap)
    ensures
        r.wf(),
        r@ == resolve_spec(*ast, ident_offset as int),
{
    let mut map = harvest(ast);
    let ghost h = map@;
    let np = ast.predicates.len();
    let mut pi: usize = 0;
    while pi < np
        invariant
            map.wf(),
            np == ast.predicates@.len(),
            pi <= np,
            walk_preds_spec(ast.predicates@, 0, ident_offset as int, h) == walk_preds_spec(
                ast.predicates@,
                pi as int,
                ident_offset as int,
                map@,
            ),
        decreases np - pi,
    {
        let pred = &ast.predicates[pi];
        let ghost m_pred = map@;
        let nv = pred.variables.len();
        let mut vi: usize = 0;
        while vi < nv
            invariant
                map.wf(),
                nv == pred.variables@.len(),
                vi <= nv,
                np == ast.predicates@.len(),
                pi < np,
                pred == &ast.predicates@[pi as int],
                walk_preds_spec(ast.predicates@, 0, ident_offset as int, h) == walk_preds_spec(
                    ast.predicates@,
                    pi as int,
                    ident_offset as int,
                    m_pred,
                ),
                walk_vars_spec(pred.variables@, 0, ident_offset as int, m_pred) == walk_vars_spec(
                    pred.variables@,
                    vi as int,
                    ident_offset as int,
                    map@,
                ),
            decreases nv - vi,
        {
            let ghost m_before = map@;
            if !scope_walk(&pred.variables[vi].body, &mut map, ident_offset, false) {
                proof {
                    assert(walk_vars_spec(
                        pred.variables@,
                        vi as int,
                        ident_offset as int,
                        m_before,
                    ) == (map@, false));
                    assert(walk_preds_spec(
                        ast.predicates@,
                        pi as int,
                        ident_offset as int,
                        m_pred,
                    ) == (map@, false));
                }
                return map;
            }
            vi += 1;
        }
        pi += 1;
    }
    map
}

} // verus!
