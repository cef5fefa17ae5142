//! What evaluation leaves alone: scopes are added and never removed, and only the scope
//! an expression is evaluated in can get new bindings.

use crate::env::{lookup, ScopeView};
use crate::eval::{
    apply_spec, eval_ast_spec, eval_bindings_spec, eval_call_spec, eval_def_spec, eval_do_spec,
    eval_if_spec, eval_items_spec, eval_let_spec, eval_spec,
};
use crate::types::Value;
use vstd::prelude::*;

verus! {

/// Every scope of `before` is in `after`, with the same outer scope, and with the same
/// bindings unless it is `scope`.
pub open spec fn extends(before: Seq<ScopeView>, after: Seq<ScopeView>, scope: nat) -> bool {
    &&& before.len() <= after.len()
    &&& forall|i: int|
        0 <= i < before.len() ==> (#[trigger] after[i]).outer == before[i].outer && (i != scope
            ==> after[i] == before[i])
}

/// Every scope of `before` is in `after` as it was.
pub open spec fn keeps(before: Seq<ScopeView>, after: Seq<ScopeView>) -> bool {
    &&& before.len() <= after.len()
    &&& forall|i: int| 0 <= i < before.len() ==> #[trigger] after[i] == before[i]
}

/// Evaluating an expression in a scope adds scopes and changes no other scope.
pub proof fn lemma_eval_extends(ast: Value, env: Seq<ScopeView>, scope: nat, depth: nat)
    requires
        scope < env.len(),
    ensures
        extends(env, eval_spec(ast, env, scope, depth).1, scope),
    decreases depth, 0nat, 0nat,
{
    if depth > 0 {
        let d = (depth - 1) as nat;
        match ast {
            Value::List(l) => {
                if l.len() > 0 {
                    lemma_def_extends(l, env, scope, d);
                    lemma_let_keeps(l, env, scope, d);
                    lemma_do_extends(l, env, scope, d);
                    lemma_if_extends(l, env, scope, d);
                    lemma_call_extends(l, env, scope, d);
                }
            },
            _ => {
                lemma_ast_extends(ast, env, scope, d);
            },
        }
    }
}

proof fn lemma_def_extends(l: Seq<Value>, env: Seq<ScopeView>, scope: nat, d: nat)
    requires
        scope < env.len(),
    ensures
        extends(env, eval_def_spec(l, env, scope, d).1, scope),
    decreases d, 3nat, 0nat,
{
    if l.len() == 3 && l[1] is Sym {
        lemma_eval_extends(l[2], env, scope, d);
    }
}

/// Evaluating a `let*` form leaves every scope that was there as it was.
pub proof fn lemma_let_keeps(l: Seq<Value>, env: Seq<ScopeView>, scope: nat, d: nat)
    requires
        scope < env.len(),
    ensures
        keeps(env, eval_let_spec(l, env, scope, d).1),
    decreases d, 3nat, 0nat,
{
    if l.len() == 3 && l[1] is List && l[1]->List_0.len() % 2 == 0 {
        let b = l[1]->List_0;
        let inner = env.len();
        let e0 = env.push(ScopeView { vars: Map::empty(), outer: Some(scope) });
        lemma_bindings_extends(b, b.len() / 2, e0, inner, d);
        let (r, e1) = eval_bindings_spec(b, b.len() / 2, e0, inner, d);
        if r is None {
            lemma_eval_extends(l[2], e1, inner, d);
        }
    }
}

proof fn lemma_bindings_extends(b: Seq<Value>, n: nat, env: Seq<ScopeView>, scope: nat, d: nat)
    requires
        scope < env.len(),
    ensures
        extends(env, eval_bindings_spec(b, n, env, scope, d).1, scope),
    decreases d, 1nat, n,
{
    if !(n == 0 || 2 * n > b.len()) {
        lemma_bindings_extends(b, (n - 1) as nat, env, scope, d);
        let (r, e1) = eval_bindings_spec(b, (n - 1) as nat, env, scope, d);
        if r is None && b[2 * n - 2] is Sym {
            lemma_eval_extends(b[2 * n - 1], e1, scope, d);
        }
    }
}

proof fn lemma_do_extends(l: Seq<Value>, env: Seq<ScopeView>, scope: nat, d: nat)
    requires
        scope < env.len(),
    ensures
        extends(env, eval_do_spec(l, env, scope, d).1, scope),
    decreases d, 3nat, 0nat,
{
    let rest = l.subrange(1, l.len() as int);
    lemma_items_extends(rest, rest.len(), env, scope, d);
}

proof fn lemma_if_extends(l: Seq<Value>, env: Seq<ScopeView>, scope: nat, d: nat)
    requires
        scope < env.len(),
    ensures
        extends(env, eval_if_spec(l, env, scope, d).1, scope),
    decreases d, 3nat, 0nat,
{
    if l.len() == 3 || l.len() == 4 {
        lemma_eval_extends(l[1], env, scope, d);
        let (c, e1) = eval_spec(l[1], env, scope, d);
        if c is Ok {
            lemma_eval_extends(l[2], e1, scope, d);
            if l.len() == 4 {
                lemma_eval_extends(l[3], e1, scope, d);
            }
        }
    }
}

proof fn lemma_call_extends(l: Seq<Value>, env: Seq<ScopeView>, scope: nat, d: nat)
    requires
        scope < env.len(),
    ensures
        extends(env, eval_call_spec(l, env, scope, d).1, scope),
    decreases d, 3nat, 0nat,
{
    lemma_ast_extends(Value::List(l), env, scope, d);
    let (r, e1) = eval_ast_spec(Value::List(l), env, scope, d);
    match r {
        Ok(Value::List(vs)) => {
            if vs.len() >= 1 {
                lemma_apply_keeps(vs[0], vs.subrange(1, vs.len() as int), e1, d);
            }
        },
        _ => {},
    }
}

/// Applying a function leaves every scope that was there as it was.
pub proof fn lemma_apply_keeps(f: Value, args: Seq<Value>, env: Seq<ScopeView>, d: nat)
    ensures
        keeps(env, apply_spec(f, args, env, d).1),
    decreases d, 1nat, 0nat,
{
    match f {
        Value::Closure { env: made_in, params, body } => {
            if made_in < env.len() && params.len() == args.len() {
                let e0 = crate::env::with_call_scope(env, made_in, params, args);
                lemma_eval_extends(*body, e0, env.len(), d);
            }
        },
        _ => {},
    }
}

proof fn lemma_ast_extends(ast: Value, env: Seq<ScopeView>, scope: nat, d: nat)
    requires
        scope < env.len(),
    ensures
        extends(env, eval_ast_spec(ast, env, scope, d).1, scope),
    decreases d, 2nat, 0nat,
{
    match ast {
        Value::List(l) => {
            lemma_items_extends(l, l.len(), env, scope, d);
        },
        _ => {},
    }
}

proof fn lemma_items_extends(items: Seq<Value>, n: nat, env: Seq<ScopeView>, scope: nat, d: nat)
    requires
        scope < env.len(),
    ensures
        extends(env, eval_items_spec(items, n, env, scope, d).1, scope),
    decreases d, 1nat, n,
{
    if !(n == 0 || n > items.len()) {
        lemma_items_extends(items, (n - 1) as nat, env, scope, d);
        let (r, e1) = eval_items_spec(items, (n - 1) as nat, env, scope, d);
        if r is Ok {
            lemma_eval_extends(items[n - 1], e1, scope, d);
        }
    }
}

/// A lookup from a scope depends on that scope and the scopes before it alone.
pub proof fn lemma_lookup_keeps(
    before: Seq<ScopeView>,
    after: Seq<ScopeView>,
    scope: nat,
    name: Seq<char>,
)
    requires
        keeps(before, after),
        scope < before.len(),
    ensures
        lookup(after, scope, name) == lookup(before, scope, name),
    decreases scope,
{
    assert(after[scope as int] == before[scope as int]);
    if !before[scope as int].vars.contains_key(name) {
        match before[scope as int].outer {
            Some(p) => {
                if p < scope {
                    lemma_lookup_keeps(before, after, p, name);
                }
            },
            None => {},
        }
    }
}

/// What a `let*` form binds does not leak: after the form, whether it gave a value or
/// an error, every name means in every scope that was there what it meant before.
pub proof fn lemma_let_does_not_leak(
    l: Seq<Value>,
    env: Seq<ScopeView>,
    scope: nat,
    d: nat,
    from: nat,
    name: Seq<char>,
)
    requires
        scope < env.len(),
        from < env.len(),
    ensures
        lookup(eval_let_spec(l, env, scope, d).1, from, name) == lookup(env, from, name),
{
    lemma_let_keeps(l, env, scope, d);
    lemma_lookup_keeps(env, eval_let_spec(l, env, scope, d).1, from, name);
}

/// A call does not leak either: after applying a function, every name means in every
/// scope that was there what it meant before.
pub proof fn lemma_call_does_not_leak(
    f: Value,
    args: Seq<Value>,
    env: Seq<ScopeView>,
    d: nat,
    from: nat,
    name: Seq<char>,
)
    requires
        from < env.len(),
    ensures
        lookup(apply_spec(f, args, env, d).1, from, name) == lookup(env, from, name),
{
    lemma_apply_keeps(f, args, env, d);
    lemma_lookup_keeps(env, apply_spec(f, args, env, d).1, from, name);
}

} // verus!
