//! Properties of the resolver proved once and for all: determinism,
//! unconditional visibility of the fixed vocabularies and of storage
//! fields, classification of harvested symbols, and monotonicity of the
//! scope walk in the cursor offset.

use vstd::prelude::*;

use crate::ast::{Contract, Param, Predicate, Spanned, StorageVar, Variable};
use crate::candidates::CompletionKind;
use crate::completion::{
    builtin_types, fixed_map, harvest_spec, keywords, params_into, preds_into, qualify,
    resolve_spec, storage_into, storage_label, strip_prefix, vars_into, walk_list_spec,
    walk_preds_spec, walk_spec, walk_vars_spec,
};

verus! {

/// Determinism: the resolved candidate table is a function of the contract
/// and the offset alone, so two resolutions of identical inputs agree on
/// every key, kind, and label.
pub proof fn lemma_resolve_deterministic(
    m1: Map<Seq<char>, (CompletionKind, Seq<char>)>,
    m2: Map<Seq<char>, (CompletionKind, Seq<char>)>,
    c: Contract,
    offset: int,
)
    requires
        m1 == resolve_spec(c, offset),
        m2 == resolve_spec(c, offset),
    ensures
        m1 == m2,
{
}

/// The storage fold never removes a key.
pub proof fn lemma_storage_into_extends(
    m: Map<Seq<char>, (CompletionKind, Seq<char>)>,
    storage: Seq<StorageVar>,
    i: int,
    k: Seq<char>,
)
    requires
        m.contains_key(k),
    ensures
        storage_into(m, storage, i).contains_key(k),
    decreases storage.len() - i,
{
    if 0 <= i < storage.len() {
        lemma_storage_into_extends(
            m.insert(
                storage[i].name@,
                (CompletionKind::StorageVariable, storage_label(storage[i].name@)),
            ),
            storage,
            i + 1,
            k,
        );
    }
}

/// The parameter fold never removes a key.
pub proof fn lemma_params_into_extends(
    m: Map<Seq<char>, (CompletionKind, Seq<char>)>,
    pred: Seq<char>,
    params: Seq<Param>,
    i: int,
    k: Seq<char>,
)
    requires
        m.contains_key(k),
    ensures
        params_into(m, pred, params, i).contains_key(k),
    decreases params.len() - i,
{
    if 0 <= i < params.len() {
        lemma_params_into_extends(
            m.insert(
                qualify(pred, params[i].name@),
                (CompletionKind::Variable, strip_prefix(params[i].name@)),
            ),
            pred,
            params,
            i + 1,
            k,
        );
    }
}

/// The local-variable fold never removes a key.
pub proof fn lemma_vars_into_extends(
    m: Map<Seq<char>, (CompletionKind, Seq<char>)>,
    pred: Seq<char>,
    vars: Seq<Variable>,
    i: int,
    k: Seq<char>,
)
    requires
        m.contains_key(k),
    ensures
        vars_into(m, pred, vars, i).contains_key(k),
    decreases vars.len() - i,
{
    if 0 <= i < vars.len() {
        lemma_vars_into_extends(
            m.insert(
                qualify(pred, vars[i].name@),
                (CompletionKind::Variable, strip_prefix(vars[i].name@)),
            ),
            pred,
            vars,
            i + 1,
            k,
        );
    }
}

/// The predicate fold never removes a key.
pub proof fn lemma_preds_into_extends(
    m: Map<Seq<char>, (CompletionKind, Seq<char>)>,
    preds: Seq<Predicate>,
    i: int,
    k: Seq<char>,
)
    requires
        m.contains_key(k),
    ensures
        preds_into(m, preds, i).contains_key(k),
    decreases preds.len() - i,
{
    if 0 <= i < preds.len() {
        let m1 = params_into(m, preds[i].name@, preds[i].params@, 0);
        let m2 = vars_into(m1, preds[i].name@, preds[i].variables@, 0);
        lemma_params_into_extends(m, preds[i].name@, preds[i].params@, 0, k);
        lemma_vars_into_extends(m1, preds[i].name@, preds[i].variables@, 0, k);
        lemma_preds_into_extends(m2, preds, i + 1, k);
    }
}

/// The scope walk never removes a key.
pub proof fn lemma_walk_extends(
    e: Spanned,
    offset: int,
    m: Map<Seq<char>, (CompletionKind, Seq<char>)>,
    only_before_cursor: bool,
    k: Seq<char>,
)
    requires
        m.contains_key(k),
    ensures
        walk_spec(e, offset, m, only_before_cursor).0.contains_key(k),
    decreases e, 0int,
{
    match e.expr {
        crate::ast::Expr::Error => {},
        crate::ast::Expr::Value => {},
        crate::ast::Expr::Local(_) => {},
        crate::ast::Expr::Let(name, init, body, binder) => {
            let m1 = if !only_before_cursor || binder.start <= offset {
                m.insert(name@, (CompletionKind::Variable, name@))
            } else {
                m
            };
            lemma_walk_extends(*init, offset, m1, only_before_cursor, k);
            let r1 = walk_spec(*init, offset, m1, only_before_cursor);
            if r1.1 {
                lemma_walk_extends(*body, offset, r1.0, only_before_cursor, k);
            }
        },
        crate::ast::Expr::Then(first, second) => {
            lemma_walk_extends(*first, offset, m, only_before_cursor, k);
            let r1 = walk_spec(*first, offset, m, only_before_cursor);
            if r1.1 {
                lemma_walk_extends(*second, offset, r1.0, only_before_cursor, k);
            }
        },
        crate::ast::Expr::Binary(lhs, _, rhs) => {
            lemma_walk_extends(*lhs, offset, m, only_before_cursor, k);
            let r1 = walk_spec(*lhs, offset, m, only_before_cursor);
            if r1.1 {
                lemma_walk_extends(*rhs, offset, r1.0, only_before_cursor, k);
            }
        },
        crate::ast::Expr::Call(callee, args) => {
            lemma_walk_extends(*callee, offset, m, only_before_cursor, k);
            let r1 = walk_spec(*callee, offset, m, only_before_cursor);
            if r1.1 {
                lemma_walk_list_extends(args@, 0, offset, r1.0, only_before_cursor, k);
            }
        },
        crate::ast::Expr::If(test, consequent, alternative) => {
            lemma_walk_extends(*test, offset, m, only_before_cursor, k);
            let r1 = walk_spec(*test, offset, m, only_before_cursor);
            if r1.1 {
                lemma_walk_extends(*consequent, offset, r1.0, only_before_cursor, k);
                let r2 = walk_spec(*consequent, offset, r1.0, only_before_cursor);
                if r2.1 {
                    lemma_walk_extends(*alternative, offset, r2.0, only_before_cursor, k);
                }
            }
        },
        crate::ast::Expr::Print(inner) => {
            lemma_walk_extends(*inner, offset, m, only_before_cursor, k);
        },
        crate::ast::Expr::List(items) => {
            lemma_walk_list_extends(items@, 0, offset, m, only_before_cursor, k);
        },
    }
}

/// The scope walk over a list of siblings never removes a key.
pub proof fn lemma_walk_list_extends(
    items: Seq<Spanned>,
    i: int,
    offset: int,
    m: Map<Seq<char>, (CompletionKind, Seq<char>)>,
    only_before_cursor: bool,
    k: Seq<char>,
)
    requires
        m.contains_key(k),
    ensures
        walk_list_spec(items, i, offset, m, only_before_cursor).0.contains_key(k),
    decreases items, items.len() - i,
{
    if 0 <= i < items.len() {
        lemma_walk_extends(items[i], offset, m, only_before_cursor, k);
        let r1 = walk_spec(items[i], offset, m, only_before_cursor);
        if r1.1 {
            lemma_walk_list_extends(items, i + 1, offset, r1.0, only_before_cursor, k);
        }
    }
}

/// The walk over one predicate's variable bodies never removes a key.
pub proof fn lemma_walk_vars_extends(
    vars: Seq<Variable>,
    i: int,
    offset: int,
    m: Map<Seq<char>, (CompletionKind, Seq<char>)>,
    k: Seq<char>,
)
    requires
        m.contains_key(k),
    ensures
        walk_vars_spec(vars, i, offset, m).0.contains_key(k),
    decreases vars.len() - i,
{
    if 0 <= i < vars.len() {
        lemma_walk_extends(vars[i].body, offset, m, false, k);
        let r1 = walk_spec(vars[i].body, offset, m, false);
        if r1.1 {
            lemma_walk_vars_extends(vars, i + 1, offset, r1.0, k);
        }
    }
}

/// The walk over all predicates never removes a key.
pub proof fn lemma_walk_preds_extends(
    preds: Seq<Predicate>,
    i: int,
    offset: int,
    m: Map<Seq<char>, (CompletionKind, Seq<char>)>,
    k: Seq<char>,
)
    requires
        m.contains_key(k),
    ensures
        walk_preds_spec(preds, i, offset, m).0.contains_key(k),
    decreases preds.len() - i,
{
    if 0 <= i < preds.len() {
        lemma_walk_vars_extends(preds[i].variables@, 0, offset, m, k);
        let r1 = walk_vars_spec(preds[i].variables@, 0, offset, m);
        if r1.1 {
            lemma_walk_preds_extends(preds, i + 1, offset, r1.0, k);
        }
    }
}

/// The fixed vocabularies are in the fixed table, each under its bare name.
pub proof fn lemma_fixed_map_vocab(k: Seq<char>)
    requires
        keywords().contains(k) || builtin_types().contains(k),
    ensures
        fixed_map().contains_key(k),
{
    if keywords().contains(k) {
        let i = choose|i: int| 0 <= i < keywords().len() && keywords()[i] == k;
        assert(keywords()[i] == k);
    } else {
        let i = choose|i: int| 0 <= i < builtin_types().len() && builtin_types()[i] == k;
        assert(builtin_types()[i] == k);
    }
}

/// Global symbols are always present: every fixed keyword and built-in
/// type name is a key of the resolved table, whatever the offset and
/// whatever the contract holds.
pub proof fn lemma_global_symbols_present(c: Contract, offset: int, k: Seq<char>)
    requires
        keywords().contains(k) || builtin_types().contains(k),
    ensures
        resolve_spec(c, offset).contains_key(k),
{
    lemma_fixed_map_vocab(k);
    lemma_storage_into_extends(fixed_map(), c.storage@, 0, k);
    lemma_preds_into_extends(storage_into(fixed_map(), c.storage@, 0), c.predicates@, 0, k);
    lemma_walk_preds_extends(c.predicates@, 0, offset, harvest_spec(c), k);
}

/// Every storage fold entry is a key of the folded table.
pub proof fn lemma_storage_into_contains(
    m: Map<Seq<char>, (CompletionKind, Seq<char>)>,
    storage: Seq<StorageVar>,
    i: int,
    j: int,
)
    requires
        0 <= i <= j < storage.len(),
    ensures
        storage_into(m, storage, i).contains_key(storage[j].name@),
    decreases storage.len() - i,
{
    let m1 = m.insert(
        storage[i].name@,
        (CompletionKind::StorageVariable, storage_label(storage[i].name@)),
    );
    if i == j {
        lemma_storage_into_extends(m1, storage, i + 1, storage[j].name@);
    } else {
        lemma_storage_into_contains(m1, storage, i + 1, j);
    }
}

/// Storage independence from the offset: every storage-declared field is a
/// key of the resolved table for every offset value.
pub proof fn lemma_storage_always_visible(c: Contract, offset: int, j: int)
    requires
        0 <= j < c.storage@.len(),
    ensures
        resolve_spec(c, offset).contains_key(c.storage@[j].name@),
{
    let n = c.storage@[j].name@;
    lemma_storage_into_contains(fixed_map(), c.storage@, 0, j);
    lemma_preds_into_extends(storage_into(fixed_map(), c.storage@, 0), c.predicates@, 0, n);
    lemma_walk_preds_extends(c.predicates@, 0, offset, harvest_spec(c), n);
}

/// The name holds no colon character, as an ordinary identifier does.
pub open spec fn colon_free(s: Seq<char>) -> bool {
    forall|i: int| 0 <= i < s.len() ==> s[i] != ':'
}

/// Shape of a qualified key: its length, and the separator at the end of
/// the predicate-name prefix.
pub proof fn lemma_qualify_shape(pred: Seq<char>, name: Seq<char>)
    ensures
        qualify(pred, name).len() == pred.len() + 2 + name.len(),
        qualify(pred, name)[pred.len() as int] == ':',
        qualify(pred, name)[pred.len() as int + 1] == ':',
        forall|i: int| 0 <= i < pred.len() ==> qualify(pred, name)[i] == pred[i],
        forall|i: int| 0 <= i < name.len() ==> qualify(pred, name)[pred.len() as int + 2 + i] == name[i],
{
    reveal_strlit("::");
}

/// A qualified key never equals a colon-free name, so predicate-scoped
/// entries cannot collide with bare storage, keyword, or type keys.
pub proof fn lemma_qualify_not_plain(pred: Seq<char>, name: Seq<char>, n: Seq<char>)
    requires
        colon_free(n),
    ensures
        qualify(pred, name) != n,
{
    lemma_qualify_shape(pred, name);
    if qualify(pred, name) == n {
        assert(n[pred.len() as int] == ':');
    }
}

/// On colon-free predicate names, qualification is injective: equal keys
/// come from the same predicate and the same member name.
pub proof fn lemma_qualify_injective(p1: Seq<char>, x1: Seq<char>, p2: Seq<char>, x2: Seq<char>)
    requires
        colon_free(p1),
        colon_free(p2),
        qualify(p1, x1) == qualify(p2, x2),
    ensures
        p1 == p2,
        x1 == x2,
{
    let k = qualify(p1, x1);
    lemma_qualify_shape(p1, x1);
    lemma_qualify_shape(p2, x2);
    if p1.len() < p2.len() {
        assert(k[p1.len() as int] == ':');
        assert(k[p1.len() as int] == p2[p1.len() as int]);
        assert(false);
    }
    if p2.len() < p1.len() {
        assert(k[p2.len() as int] == ':');
        assert(k[p2.len() as int] == p1[p2.len() as int]);
        assert(false);
    }
    assert forall|i: int| 0 <= i < p1.len() implies p1[i] == p2[i] by {
        assert(k[i] == p1[i]);
        assert(k[i] == p2[i]);
    }
    assert(p1 =~= p2);
    assert(x1.len() == x2.len());
    assert forall|i: int| 0 <= i < x1.len() implies x1[i] == x2[i] by {
        assert(k[p1.len() as int + 2 + i] == x1[i]);
        assert(k[p2.len() as int + 2 + i] == x2[i]);
    }
    assert(x1 =~= x2);
}

/// A key no remaining storage declaration carries passes through the
/// storage fold untouched.
pub proof fn lemma_storage_into_preserve_val(
    m: Map<Seq<char>, (CompletionKind, Seq<char>)>,
    storage: Seq<StorageVar>,
    i: int,
    k: Seq<char>,
)
    requires
        forall|j: int| i <= j < storage.len() ==> storage[j].name@ != k,
    ensures
        storage_into(m, storage, i).contains_key(k) == m.contains_key(k),
        m.contains_key(k) ==> storage_into(m, storage, i)[k] == m[k],
    decreases storage.len() - i,
{
    if 0 <= i < storage.len() {
        lemma_storage_into_preserve_val(
            m.insert(
                storage[i].name@,
                (CompletionKind::StorageVariable, storage_label(storage[i].name@)),
            ),
            storage,
            i + 1,
            k,
        );
    }
}

/// A key no remaining parameter produces passes through the parameter
/// fold untouched.
pub proof fn lemma_params_into_preserve_val(
    m: Map<Seq<char>, (CompletionKind, Seq<char>)>,
    pred: Seq<char>,
    params: Seq<Param>,
    i: int,
    k: Seq<char>,
)
    requires
        forall|j: int| i <= j < params.len() ==> qualify(pred, params[j].name@) != k,
    ensures
        params_into(m, pred, params, i).contains_key(k) == m.contains_key(k),
        m.contains_key(k) ==> params_into(m, pred, params, i)[k] == m[k],
    decreases params.len() - i,
{
    if 0 <= i < params.len() {
        lemma_params_into_preserve_val(
            m.insert(
                qualify(pred, params[i].name@),
                (CompletionKind::Variable, strip_prefix(params[i].name@)),
            ),
            pred,
            params,
            i + 1,
            k,
        );
    }
}

/// A key no remaining local variable produces passes through the
/// local-variable fold untouched.
pub proof fn lemma_vars_into_preserve_val(
    m: Map<Seq<char>, (CompletionKind, Seq<char>)>,
    pred: Seq<char>,
    vars: Seq<Variable>,
    i: int,
    k: Seq<char>,
)
    requires
        forall|j: int| i <= j < vars.len() ==> qualify(pred, vars[j].name@) != k,
    ensures
        vars_into(m, pred, vars, i).contains_key(k) == m.contains_key(k),
        m.contains_key(k) ==> vars_into(m, pred, vars, i)[k] == m[k],
    decreases vars.len() - i,
{
    if 0 <= i < vars.len() {
        lemma_vars_into_preserve_val(
            m.insert(
                qualify(pred, vars[i].name@),
                (CompletionKind::Variable, strip_prefix(vars[i].name@)),
            ),
            pred,
            vars,
            i + 1,
            k,
        );
    }
}

/// A key no remaining predicate's members produce passes through the
/// predicate fold untouched.
pub proof fn lemma_preds_into_preserve_val(
    m: Map<Seq<char>, (CompletionKind, Seq<char>)>,
    preds: Seq<Predicate>,
    i: int,
    k: Seq<char>,
)
    requires
        forall|pj: int, j: int|
            i <= pj < preds.len() && 0 <= j < preds[pj].params@.len() ==> qualify(
                preds[pj].name@,
                preds[pj].params@[j].name@,
            ) != k,
        forall|pj: int, j: int|
            i <= pj < preds.len() && 0 <= j < preds[pj].variables@.len() ==> qualify(
                preds[pj].name@,
                preds[pj].variables@[j].name@,
            ) != k,
    ensures
        preds_into(m, preds, i).contains_key(k) == m.contains_key(k),
        m.contains_key(k) ==> preds_into(m, preds, i)[k] == m[k],
    decreases preds.len() - i,
{
    if 0 <= i < preds.len() {
        let m1 = params_into(m, preds[i].name@, preds[i].params@, 0);
        let m2 = vars_into(m1, preds[i].name@, preds[i].variables@, 0);
        lemma_params_into_preserve_val(m, preds[i].name@, preds[i].params@, 0, k);
        lemma_vars_into_preserve_val(m1, preds[i].name@, preds[i].variables@, 0, k);
        lemma_preds_into_preserve_val(m2, preds, i + 1, k);
    }
}

/// A storage field declared under `n` ends the storage fold classified as
/// a storage variable labeled `storage::n`.
pub proof fn lemma_storage_into_val(
    m: Map<Seq<char>, (CompletionKind, Seq<char>)>,
    storage: Seq<StorageVar>,
    i: int,
    n: Seq<char>,
)
    requires
        0 <= i,
        exists|j: int| i <= j < storage.len() && storage[j].name@ == n,
    ensures
        storage_into(m, storage, i).contains_key(n),
        storage_into(m, storage, i)[n] == (CompletionKind::StorageVariable, storage_label(n)),
    decreases storage.len() - i,
{
    let m1 = m.insert(
        storage[i].name@,
        (CompletionKind::StorageVariable, storage_label(storage[i].name@)),
    );
    if exists|j: int| i + 1 <= j < storage.len() && storage[j].name@ == n {
        lemma_storage_into_val(m1, storage, i + 1, n);
    } else {
        assert(storage[i].name@ == n);
        lemma_storage_into_preserve_val(m1, storage, i + 1, n);
    }
}

/// Qualification correctness for storage: a storage field named `n` yields
/// key `n`, Kind=StorageVariable, label `storage::n` in the harvested
/// table, for any colon-free field name.
pub proof fn lemma_storage_field_classification(c: Contract, j: int)
    requires
        0 <= j < c.storage@.len(),
        colon_free(c.storage@[j].name@),
    ensures
        harvest_spec(c).contains_key(c.storage@[j].name@),
        harvest_spec(c)[c.storage@[j].name@] == (
            CompletionKind::StorageVariable,
            storage_label(c.storage@[j].name@),
        ),
{
    let n = c.storage@[j].name@;
    lemma_storage_into_val(fixed_map(), c.storage@, 0, n);
    let m1 = storage_into(fixed_map(), c.storage@, 0);
    assert forall|pj: int, jj: int|
        0 <= pj < c.predicates@.len() && 0 <= jj < c.predicates@[pj].params@.len() implies qualify(
        c.predicates@[pj].name@,
        c.predicates@[pj].params@[jj].name@,
    ) != n by {
        lemma_qualify_not_plain(c.predicates@[pj].name@, c.predicates@[pj].params@[jj].name@, n);
    }
    assert forall|pj: int, jj: int|
        0 <= pj < c.predicates@.len() && 0 <= jj < c.predicates@[pj].variables@.len()
        implies qualify(c.predicates@[pj].name@, c.predicates@[pj].variables@[jj].name@) != n by {
        lemma_qualify_not_plain(
            c.predicates@[pj].name@,
            c.predicates@[pj].variables@[jj].name@,
            n,
        );
    }
    lemma_preds_into_preserve_val(m1, c.predicates@, 0, n);
}

/// A parameter whose key no later parameter reproduces ends the parameter
/// fold classified as a variable with the prefix-stripped label.
pub proof fn lemma_params_into_val(
    m: Map<Seq<char>, (CompletionKind, Seq<char>)>,
    pred: Seq<char>,
    params: Seq<Param>,
    i: int,
    xi: int,
)
    requires
        0 <= i <= xi < params.len(),
        forall|j: int|
            xi < j < params.len() ==> qualify(pred, params[j].name@) != qualify(
                pred,
                params[xi].name@,
            ),
    ensures
        params_into(m, pred, params, i).contains_key(qualify(pred, params[xi].name@)),
        params_into(m, pred, params, i)[qualify(pred, params[xi].name@)] == (
            CompletionKind::Variable,
            strip_prefix(params[xi].name@),
        ),
    decreases params.len() - i,
{
    let m1 = m.insert(
        qualify(pred, params[i].name@),
        (CompletionKind::Variable, strip_prefix(params[i].name@)),
    );
    if i == xi {
        lemma_params_into_preserve_val(m1, pred, params, i + 1, qualify(pred, params[xi].name@));
    } else {
        lemma_params_into_val(m1, pred, params, i + 1, xi);
    }
}

/// A local variable whose key no later local variable reproduces ends the
/// local-variable fold classified as a variable with the prefix-stripped
/// label.
pub proof fn lemma_vars_into_val(
    m: Map<Seq<char>, (CompletionKind, Seq<char>)>,
    pred: Seq<char>,
    vars: Seq<Variable>,
    i: int,
    vi: int,
)
    requires
        0 <= i <= vi < vars.len(),
        forall|j: int|
            vi < j < vars.len() ==> qualify(pred, vars[j].name@) != qualify(pred, vars[vi].name@),
    ensures
        vars_into(m, pred, vars, i).contains_key(qualify(pred, vars[vi].name@)),
        vars_into(m, pred, vars, i)[qualify(pred, vars[vi].name@)] == (
            CompletionKind::Variable,
            strip_prefix(vars[vi].name@),
        ),
    decreases vars.len() - i,
{
    let m1 = m.insert(
        qualify(pred, vars[i].name@),
        (CompletionKind::Variable, strip_prefix(vars[i].name@)),
    );
    if i == vi {
        lemma_vars_into_preserve_val(m1, pred, vars, i + 1, qualify(pred, vars[vi].name@));
    } else {
        lemma_vars_into_val(m1, pred, vars, i + 1, vi);
    }
}

/// Every predicate name of the contract is colon-free.
pub open spec fn pred_names_colon_free(c: Contract) -> bool {
    forall|pi: int|
        0 <= pi < c.predicates@.len() ==> colon_free(#[trigger] c.predicates@[pi].name@)
}

/// No other predicate of the contract reuses the name of predicate `pi`.
pub open spec fn pred_name_unique(c: Contract, pi: int) -> bool {
    forall|pj: int|
        0 <= pj < c.predicates@.len() && pj != pi ==> c.predicates@[pj].name@
            != c.predicates@[pi].name@
}

/// Predicates after index `i` never produce the key `qualify(p, x)` when
/// their names are colon-free and differ from `p`.
proof fn lemma_later_preds_preserve(
    m: Map<Seq<char>, (CompletionKind, Seq<char>)>,
    c: Contract,
    i: int,
    p: Seq<char>,
    x: Seq<char>,
)
    requires
        0 <= i,
        pred_names_colon_free(c),
        colon_free(p),
        forall|pj: int|
            i <= pj < c.predicates@.len() ==> c.predicates@[pj].name@ != p,
        m.contains_key(qualify(p, x)),
    ensures
        preds_into(m, c.predicates@, i).contains_key(qualify(p, x)),
        preds_into(m, c.predicates@, i)[qualify(p, x)] == m[qualify(p, x)],
{
    let k = qualify(p, x);
    let preds = c.predicates@;
    assert forall|pj: int, j: int|
        i <= pj < preds.len() && 0 <= j < preds[pj].params@.len() implies qualify(
        preds[pj].name@,
        preds[pj].params@[j].name@,
    ) != k by {
        assert(colon_free(c.predicates@[pj].name@));
        if qualify(preds[pj].name@, preds[pj].params@[j].name@) == k {
            lemma_qualify_injective(preds[pj].name@, preds[pj].params@[j].name@, p, x);
        }
    }
    assert forall|pj: int, j: int|
        i <= pj < preds.len() && 0 <= j < preds[pj].variables@.len() implies qualify(
        preds[pj].name@,
        preds[pj].variables@[j].name@,
    ) != k by {
        assert(colon_free(c.predicates@[pj].name@));
        if qualify(preds[pj].name@, preds[pj].variables@[j].name@) == k {
            lemma_qualify_injective(preds[pj].name@, preds[pj].variables@[j].name@, p, x);
        }
    }
    lemma_preds_into_preserve_val(m, preds, i, k);
}

/// Carries the classification of parameter `xi` of predicate `pi` through
/// the predicate fold from index `i` on.
proof fn lemma_preds_into_param_val(
    m: Map<Seq<char>, (CompletionKind, Seq<char>)>,
    c: Contract,
    i: int,
    pi: int,
    xi: int,
)
    requires
        pred_names_colon_free(c),
        pred_name_unique(c, pi),
        0 <= i <= pi < c.predicates@.len(),
        0 <= xi < c.predicates@[pi].params@.len(),
        forall|j: int|
            xi < j < c.predicates@[pi].params@.len() ==> c.predicates@[pi].params@[j].name@
                != c.predicates@[pi].params@[xi].name@,
        forall|v: int|
            0 <= v < c.predicates@[pi].variables@.len() ==> c.predicates@[pi].variables@[v].name@
                != c.predicates@[pi].params@[xi].name@,
    ensures
        preds_into(m, c.predicates@, i).contains_key(
            qualify(c.predicates@[pi].name@, c.predicates@[pi].params@[xi].name@),
        ),
        preds_into(m, c.predicates@, i)[qualify(
            c.predicates@[pi].name@,
            c.predicates@[pi].params@[xi].name@,
        )] == (CompletionKind::Variable, strip_prefix(c.predicates@[pi].params@[xi].name@)),
    decreases pi - i,
{
    let preds = c.predicates@;
    let p = preds[pi].name@;
    let x = preds[pi].params@[xi].name@;
    let k = qualify(p, x);
    if i < pi {
        let m2 = vars_into(
            params_into(m, preds[i].name@, preds[i].params@, 0),
            preds[i].name@,
            preds[i].variables@,
            0,
        );
        lemma_preds_into_param_val(m2, c, i + 1, pi, xi);
    } else {
        assert forall|j: int|
            xi < j < preds[pi].params@.len() implies qualify(p, preds[pi].params@[j].name@)
            != k by {
            if qualify(p, preds[pi].params@[j].name@) == k {
                lemma_qualify_injective(p, preds[pi].params@[j].name@, p, x);
            }
        }
        lemma_params_into_val(m, p, preds[pi].params@, 0, xi);
        let m1 = params_into(m, p, preds[pi].params@, 0);
        assert forall|v: int|
            0 <= v < preds[pi].variables@.len() implies qualify(p, preds[pi].variables@[v].name@)
            != k by {
            if qualify(p, preds[pi].variables@[v].name@) == k {
                lemma_qualify_injective(p, preds[pi].variables@[v].name@, p, x);
            }
        }
        lemma_vars_into_preserve_val(m1, p, preds[pi].variables@, 0, k);
        let m2 = vars_into(m1, p, preds[pi].variables@, 0);
        lemma_later_preds_preserve(m2, c, i + 1, p, x);
    }
}

/// Carries the classification of local variable `vi` of predicate `pi`
/// through the predicate fold from index `i` on.
proof fn lemma_preds_into_var_val(
    m: Map<Seq<char>, (CompletionKind, Seq<char>)>,
    c: Contract,
    i: int,
    pi: int,
    vi: int,
)
    requires
        pred_names_colon_free(c),
        pred_name_unique(c, pi),
        0 <= i <= pi < c.predicates@.len(),
        0 <= vi < c.predicates@[pi].variables@.len(),
        forall|j: int|
            vi < j < c.predicates@[pi].variables@.len() ==> c.predicates@[pi].variables@[j].name@
                != c.predicates@[pi].variables@[vi].name@,
    ensures
        preds_into(m, c.predicates@, i).contains_key(
            qualify(c.predicates@[pi].name@, c.predicates@[pi].variables@[vi].name@),
        ),
        preds_into(m, c.predicates@, i)[qualify(
            c.predicates@[pi].name@,
            c.predicates@[pi].variables@[vi].name@,
        )] == (CompletionKind::Variable, strip_prefix(c.predicates@[pi].variables@[vi].name@)),
    decreases pi - i,
{
    let preds = c.predicates@;
    let p = preds[pi].name@;
    let x = preds[pi].variables@[vi].name@;
    let k = qualify(p, x);
    if i < pi {
        let m2 = vars_into(
            params_into(m, preds[i].name@, preds[i].params@, 0),
            preds[i].name@,
            preds[i].variables@,
            0,
        );
        lemma_preds_into_var_val(m2, c, i + 1, pi, vi);
    } else {
        let m1 = params_into(m, p, preds[pi].params@, 0);
        assert forall|j: int|
            vi < j < preds[pi].variables@.len() implies qualify(p, preds[pi].variables@[j].name@)
            != k by {
            if qualify(p, preds[pi].variables@[j].name@) == k {
                lemma_qualify_injective(p, preds[pi].variables@[j].name@, p, x);
            }
        }
        lemma_vars_into_val(m1, p, preds[pi].variables@, 0, vi);
        let m2 = vars_into(m1, p, preds[pi].variables@, 0);
        lemma_later_preds_preserve(m2, c, i + 1, p, x);
    }
}

/// Predicate-scoped qualification: a predicate `p` with parameter `x`
/// yields key `p::x`, Kind=Variable, label `x` with its two-character
/// prefix stripped — provided predicate names are unique and colon-free,
/// no later parameter of `p` reuses the name, and no local variable of `p`
/// shadows it.
pub proof fn lemma_param_classification(c: Contract, pi: int, xi: int)
    requires
        pred_names_colon_free(c),
        pred_name_unique(c, pi),
        0 <= pi < c.predicates@.len(),
        0 <= xi < c.predicates@[pi].params@.len(),
        forall|j: int|
            xi < j < c.predicates@[pi].params@.len() ==> c.predicates@[pi].params@[j].name@
                != c.predicates@[pi].params@[xi].name@,
        forall|v: int|
            0 <= v < c.predicates@[pi].variables@.len() ==> c.predicates@[pi].variables@[v].name@
                != c.predicates@[pi].params@[xi].name@,
    ensures
        harvest_spec(c).contains_key(
            qualify(c.predicates@[pi].name@, c.predicates@[pi].params@[xi].name@),
        ),
        harvest_spec(c)[qualify(
            c.predicates@[pi].name@,
            c.predicates@[pi].params@[xi].name@,
        )] == (CompletionKind::Variable, strip_prefix(c.predicates@[pi].params@[xi].name@)),
{
    lemma_preds_into_param_val(storage_into(fixed_map(), c.storage@, 0), c, 0, pi, xi);
}

/// Predicate-scoped qualification for local variables: a predicate `p`
/// with local variable `x` yields key `p::x`, Kind=Variable, label `x`
/// with its two-character prefix stripped — provided predicate names are
/// unique and colon-free and no later local variable of `p` reuses the
/// name.
pub proof fn lemma_local_var_classification(c: Contract, pi: int, vi: int)
    requires
        pred_names_colon_free(c),
        pred_name_unique(c, pi),
        0 <= pi < c.predicates@.len(),
        0 <= vi < c.predicates@[pi].variables@.len(),
        forall|j: int|
            vi < j < c.predicates@[pi].variables@.len() ==> c.predicates@[pi].variables@[j].name@
                != c.predicates@[pi].variables@[vi].name@,
    ensures
        harvest_spec(c).contains_key(
            qualify(c.predicates@[pi].name@, c.predicates@[pi].variables@[vi].name@),
        ),
        harvest_spec(c)[qualify(
            c.predicates@[pi].name@,
            c.predicates@[pi].variables@[vi].name@,
        )] == (CompletionKind::Variable, strip_prefix(c.predicates@[pi].variables@[vi].name@)),
{
    lemma_preds_into_var_val(storage_into(fixed_map(), c.storage@, 0), c, 0, pi, vi);
}

/// Both offsets sit in the same stretch of the walk: every identifier
/// occurrence whose span contains the later offset begins at or before
/// the earlier offset. Without this, the walk at the later offset could
/// stop at an occurrence the earlier offset skips, and see fewer
/// bindings.
pub open spec fn covers(e: Spanned, o1: int, o2: int) -> bool
    decreases e, 0int,
{
    match e.expr {
        crate::ast::Expr::Error => true,
        crate::ast::Expr::Value => true,
        crate::ast::Expr::Local(_) => crate::ast::span_contains(e.span, o2) ==> e.span.start <= o1,
        crate::ast::Expr::Let(_, init, body, _) => covers(*init, o1, o2) && covers(*body, o1, o2),
        crate::ast::Expr::Then(first, second) => covers(*first, o1, o2) && covers(*second, o1, o2),
        crate::ast::Expr::Binary(lhs, _, rhs) => covers(*lhs, o1, o2) && covers(*rhs, o1, o2),
        crate::ast::Expr::Call(callee, args) => covers(*callee, o1, o2) && covers_list(
            args@,
            0,
            o1,
            o2,
        ),
        crate::ast::Expr::If(test, consequent, alternative) => covers(*test, o1, o2) && covers(
            *consequent,
            o1,
            o2,
        ) && covers(*alternative, o1, o2),
        crate::ast::Expr::Print(inner) => covers(*inner, o1, o2),
        crate::ast::Expr::List(items) => covers_list(items@, 0, o1, o2),
    }
}

/// `covers` over the items of a sequence from index `i` on.
pub open spec fn covers_list(items: Seq<Spanned>, i: int, o1: int, o2: int) -> bool
    decreases items, items.len() - i,
{
    if i < 0 || i >= items.len() {
        true
    } else {
        covers(items[i], o1, o2) && covers_list(items, i + 1, o1, o2)
    }
}

/// Scope monotonicity of one walk: on a covered expression, the walk at
/// the later offset keeps every key the walk at the earlier offset
/// collects, and stops no earlier.
pub proof fn lemma_walk_mono(
    e: Spanned,
    o1: int,
    o2: int,
    m1: Map<Seq<char>, (CompletionKind, Seq<char>)>,
    m2: Map<Seq<char>, (CompletionKind, Seq<char>)>,
    only_before_cursor: bool,
)
    requires
        o1 <= o2,
        covers(e, o1, o2),
        forall|k: Seq<char>| #[trigger] m1.contains_key(k) ==> m2.contains_key(k),
    ensures
        forall|k: Seq<char>| #[trigger]
            walk_spec(e, o1, m1, only_before_cursor).0.contains_key(k) ==> walk_spec(
                e,
                o2,
                m2,
                only_before_cursor,
            ).0.contains_key(k),
        walk_spec(e, o1, m1, only_before_cursor).1 ==> walk_spec(e, o2, m2, only_before_cursor).1,
    decreases e, 0int,
{
    let b = only_before_cursor;
    match e.expr {
        crate::ast::Expr::Error => {},
        crate::ast::Expr::Value => {},
        crate::ast::Expr::Local(_) => {},
        crate::ast::Expr::Let(name, init, body, binder) => {
            let m1a = if !b || binder.start <= o1 {
                m1.insert(name@, (CompletionKind::Variable, name@))
            } else {
                m1
            };
            let m2a = if !b || binder.start <= o2 {
                m2.insert(name@, (CompletionKind::Variable, name@))
            } else {
                m2
            };
            lemma_walk_mono(*init, o1, o2, m1a, m2a, b);
            let r1 = walk_spec(*init, o1, m1a, b);
            let r2 = walk_spec(*init, o2, m2a, b);
            if r1.1 {
                lemma_walk_mono(*body, o1, o2, r1.0, r2.0, b);
            } else if r2.1 {
                assert forall|k: Seq<char>| #[trigger] r1.0.contains_key(k) implies walk_spec(
                    *body,
                    o2,
                    r2.0,
                    b,
                ).0.contains_key(k) by {
                    lemma_walk_extends(*body, o2, r2.0, b, k);
                }
            }
        },
        crate::ast::Expr::Then(first, second) => {
            lemma_walk_mono(*first, o1, o2, m1, m2, b);
            let r1 = walk_spec(*first, o1, m1, b);
            let r2 = walk_spec(*first, o2, m2, b);
            if r1.1 {
                lemma_walk_mono(*second, o1, o2, r1.0, r2.0, b);
            } else if r2.1 {
                assert forall|k: Seq<char>| #[trigger] r1.0.contains_key(k) implies walk_spec(
                    *second,
                    o2,
                    r2.0,
                    b,
                ).0.contains_key(k) by {
                    lemma_walk_extends(*second, o2, r2.0, b, k);
                }
            }
        },
        crate::ast::Expr::Binary(lhs, _, rhs) => {
            lemma_walk_mono(*lhs, o1, o2, m1, m2, b);
            let r1 = walk_spec(*lhs, o1, m1, b);
            let r2 = walk_spec(*lhs, o2, m2, b);
            if r1.1 {
                lemma_walk_mono(*rhs, o1, o2, r1.0, r2.0, b);
            } else if r2.1 {
                assert forall|k: Seq<char>| #[trigger] r1.0.contains_key(k) implies walk_spec(
                    *rhs,
                    o2,
                    r2.0,
                    b,
                ).0.contains_key(k) by {
                    lemma_walk_extends(*rhs, o2, r2.0, b, k);
                }
            }
        },
        crate::ast::Expr::Call(callee, args) => {
            lemma_walk_mono(*callee, o1, o2, m1, m2, b);
            let r1 = walk_spec(*callee, o1, m1, b);
            let r2 = walk_spec(*callee, o2, m2, b);
            if r1.1 {
                lemma_walk_list_mono(args@, 0, o1, o2, r1.0, r2.0, b);
            } else if r2.1 {
                assert forall|k: Seq<char>| #[trigger] r1.0.contains_key(k) implies walk_list_spec(
                    args@,
                    0,
                    o2,
                    r2.0,
                    b,
                ).0.contains_key(k) by {
                    lemma_walk_list_extends(args@, 0, o2, r2.0, b, k);
                }
            }
        },
        crate::ast::Expr::If(test, consequent, alternative) => {
            lemma_walk_mono(*test, o1, o2, m1, m2, b);
            let r1t = walk_spec(*test, o1, m1, b);
            let r2t = walk_spec(*test, o2, m2, b);
            if r1t.1 {
                lemma_walk_mono(*consequent, o1, o2, r1t.0, r2t.0, b);
                let r1c = walk_spec(*consequent, o1, r1t.0, b);
                let r2c = walk_spec(*consequent, o2, r2t.0, b);
                if r1c.1 {
                    lemma_walk_mono(*alternative, o1, o2, r1c.0, r2c.0, b);
                } else if r2c.1 {
                    assert forall|k: Seq<char>| #[trigger] r1c.0.contains_key(k) implies walk_spec(
                        *alternative,
                        o2,
                        r2c.0,
                        b,
                    ).0.contains_key(k) by {
                        lemma_walk_extends(*alternative, o2, r2c.0, b, k);
                    }
                }
            } else if r2t.1 {
                let r2c = walk_spec(*consequent, o2, r2t.0, b);
                assert forall|k: Seq<char>| #[trigger] r1t.0.contains_key(k) implies walk_spec(
                    e,
                    o2,
                    m2,
                    b,
                ).0.contains_key(k) by {
                    lemma_walk_extends(*consequent, o2, r2t.0, b, k);
                    if r2c.1 {
                        lemma_walk_extends(*alternative, o2, r2c.0, b, k);
                    }
                }
            }
        },
        crate::ast::Expr::Print(inner) => {
            lemma_walk_mono(*inner, o1, o2, m1, m2, b);
        },
        crate::ast::Expr::List(items) => {
            lemma_walk_list_mono(items@, 0, o1, o2, m1, m2, b);
        },
    }
}

/// Scope monotonicity of the walk over a list of siblings.
pub proof fn lemma_walk_list_mono(
    items: Seq<Spanned>,
    i: int,
    o1: int,
    o2: int,
    m1: Map<Seq<char>, (CompletionKind, Seq<char>)>,
    m2: Map<Seq<char>, (CompletionKind, Seq<char>)>,
    only_before_cursor: bool,
)
    requires
        o1 <= o2,
        covers_list(items, i, o1, o2),
        forall|k: Seq<char>| #[trigger] m1.contains_key(k) ==> m2.contains_key(k),
    ensures
        forall|k: Seq<char>| #[trigger]
            walk_list_spec(items, i, o1, m1, only_before_cursor).0.contains_key(k)
                ==> walk_list_spec(items, i, o2, m2, only_before_cursor).0.contains_key(k),
        walk_list_spec(items, i, o1, m1, only_before_cursor).1 ==> walk_list_spec(
            items,
            i,
            o2,
            m2,
            only_before_cursor,
        ).1,
    decreases items, items.len() - i,
{
    let b = only_before_cursor;
    if 0 <= i < items.len() {
        lemma_walk_mono(items[i], o1, o2, m1, m2, b);
        let r1 = walk_spec(items[i], o1, m1, b);
        let r2 = walk_spec(items[i], o2, m2, b);
        if r1.1 {
            lemma_walk_list_mono(items, i + 1, o1, o2, r1.0, r2.0, b);
        } else if r2.1 {
            assert forall|k: Seq<char>| #[trigger] r1.0.contains_key(k) implies walk_list_spec(
                items,
                i + 1,
                o2,
                r2.0,
                b,
            ).0.contains_key(k) by {
                lemma_walk_list_extends(items, i + 1, o2, r2.0, b, k);
            }
        }
    }
}

/// `covers` over the variable bodies of one predicate from index `i` on.
pub open spec fn covers_vars(vars: Seq<Variable>, i: int, o1: int, o2: int) -> bool
    decreases vars.len() - i,
{
    if i < 0 || i >= vars.len() {
        true
    } else {
        covers(vars[i].body, o1, o2) && covers_vars(vars, i + 1, o1, o2)
    }
}

/// `covers` over every predicate's variable bodies from index `i` on.
pub open spec fn covers_preds(preds: Seq<Predicate>, i: int, o1: int, o2: int) -> bool
    decreases preds.len() - i,
{
    if i < 0 || i >= preds.len() {
        true
    } else {
        covers_vars(preds[i].variables@, 0, o1, o2) && covers_preds(preds, i + 1, o1, o2)
    }
}

/// Scope monotonicity over one predicate's variable bodies.
pub proof fn lemma_walk_vars_mono(
    vars: Seq<Variable>,
    i: int,
    o1: int,
    o2: int,
    m1: Map<Seq<char>, (CompletionKind, Seq<char>)>,
    m2: Map<Seq<char>, (CompletionKind, Seq<char>)>,
)
    requires
        o1 <= o2,
        covers_vars(vars, i, o1, o2),
        forall|k: Seq<char>| #[trigger] m1.contains_key(k) ==> m2.contains_key(k),
    ensures
        forall|k: Seq<char>| #[trigger]
            walk_vars_spec(vars, i, o1, m1).0.contains_key(k) ==> walk_vars_spec(
                vars,
                i,
                o2,
                m2,
            ).0.contains_key(k),
        walk_vars_spec(vars, i, o1, m1).1 ==> walk_vars_spec(vars, i, o2, m2).1,
    decreases vars.len() - i,
{
    if 0 <= i < vars.len() {
        lemma_walk_mono(vars[i].body, o1, o2, m1, m2, false);
        let r1 = walk_spec(vars[i].body, o1, m1, false);
        let r2 = walk_spec(vars[i].body, o2, m2, false);
        if r1.1 {
            lemma_walk_vars_mono(vars, i + 1, o1, o2, r1.0, r2.0);
        } else if r2.1 {
            assert forall|k: Seq<char>| #[trigger] r1.0.contains_key(k) implies walk_vars_spec(
                vars,
                i + 1,
                o2,
                r2.0,
            ).0.contains_key(k) by {
                lemma_walk_vars_extends(vars, i + 1, o2, r2.0, k);
            }
        }
    }
}

/// Scope monotonicity over all predicates' variable bodies.
pub proof fn lemma_walk_preds_mono(
    preds: Seq<Predicate>,
    i: int,
    o1: int,
    o2: int,
    m1: Map<Seq<char>, (CompletionKind, Seq<char>)>,
    m2: Map<Seq<char>, (CompletionKind, Seq<char>)>,
)
    requires
        o1 <= o2,
        covers_preds(preds, i, o1, o2),
        forall|k: Seq<char>| #[trigger] m1.contains_key(k) ==> m2.contains_key(k),
    ensures
        forall|k: Seq<char>| #[trigger]
            walk_preds_spec(preds, i, o1, m1).0.contains_key(k) ==> walk_preds_spec(
                preds,
                i,
                o2,
                m2,
            ).0.contains_key(k),
        walk_preds_spec(preds, i, o1, m1).1 ==> walk_preds_spec(preds, i, o2, m2).1,
    decreases preds.len() - i,
{
    if 0 <= i < preds.len() {
        lemma_walk_vars_mono(preds[i].variables@, 0, o1, o2, m1, m2);
        let r1 = walk_vars_spec(preds[i].variables@, 0, o1, m1);
        let r2 = walk_vars_spec(preds[i].variables@, 0, o2, m2);
        if r1.1 {
            lemma_walk_preds_mono(preds, i + 1, o1, o2, r1.0, r2.0);
        } else if r2.1 {
            assert forall|k: Seq<char>| #[trigger] r1.0.contains_key(k) implies walk_preds_spec(
                preds,
                i + 1,
                o2,
                r2.0,
            ).0.contains_key(k) by {
                lemma_walk_preds_extends(preds, i + 1, o2, r2.0, k);
            }
        }
    }
}

/// Scope monotonicity: for an earlier and a later offset in the same
/// covered stretch of the contract's expressions, every key resolved at
/// the earlier offset is also resolved at the later one — bindings only
/// accumulate as the cursor moves right.
pub proof fn lemma_scope_monotonic(c: Contract, o1: int, o2: int)
    requires
        o1 <= o2,
        covers_preds(c.predicates@, 0, o1, o2),
    ensures
        forall|k: Seq<char>| #[trigger]
            resolve_spec(c, o1).contains_key(k) ==> resolve_spec(c, o2).contains_key(k),
{
    lemma_walk_preds_mono(c.predicates@, 0, o1, o2, harvest_spec(c), harvest_spec(c));
}

} // verus!
