//! The evaluator: what an expression is worth in a scope, and what it does to the scopes.

use crate::builtins::{apply, builtin_result};
use crate::env::{
    define, lemma_global_binds, lookup, new_session, with_call_scope, Env, ScopeView,
};
use crate::types::{
    clone_items, lemma_view_items, outcome, views, Builtin, MalErr, MalType, Value,
};
use itertools::Itertools;
use vstd::prelude::*;
use vstd::string::StringExecFns;

verus! {

/// What an evaluation gives: a value or an error, and the scopes as it leaves them.
pub type Outcome = (Result<Value, MalErr>, Seq<ScopeView>);

/// Whether a value counts as false in a condition: only `nil` and `false` do.
pub open spec fn falsy(v: Value) -> bool {
    v is Nil || v == Value::Bool(false)
}

/// What `ast` is worth in `scope`, with evaluations nested at most `depth` deep.
///
/// A symbol is looked up; an empty list and every other atom are worth themselves; a
/// list headed by the name of a special form is evaluated by that form's rule, whatever
/// the name is bound to; any other list is an application.
pub open spec fn eval_spec(ast: Value, env: Seq<ScopeView>, scope: nat, depth: nat) -> Outcome
    decreases depth, 0nat, 0nat,
{
    if depth == 0 {
        (Err(MalErr::DepthExceeded), env)
    } else {
        let d = (depth - 1) as nat;
        match ast {
            Value::List(l) => if l.len() == 0 {
                (Ok(ast), env)
            } else if l[0] == Value::Sym("def!"@) {
                eval_def_spec(l, env, scope, d)
            } else if l[0] == Value::Sym("let*"@) {
                eval_let_spec(l, env, scope, d)
            } else if l[0] == Value::Sym("do"@) {
                eval_do_spec(l, env, scope, d)
            } else if l[0] == Value::Sym("if"@) {
                eval_if_spec(l, env, scope, d)
            } else if l[0] == Value::Sym("fn*"@) {
                (closure_spec(l, scope), env)
            } else {
                eval_call_spec(l, env, scope, d)
            },
            _ => eval_ast_spec(ast, env, scope, d),
        }
    }
}

/// `(def! name expr)`: the worth of `expr`, which `name` is then bound to in `scope`.
pub open spec fn eval_def_spec(l: Seq<Value>, env: Seq<ScopeView>, scope: nat, d: nat) -> Outcome
    decreases d, 3nat, 0nat,
{
    if l.len() == 3 && l[1] is Sym {
        let (r, e1) = eval_spec(l[2], env, scope, d);
        match r {
            Ok(v) => (Ok(v), define(e1, scope, l[1]->Sym_0, v)),
            Err(e) => (Err(e), e1),
        }
    } else {
        (Err(MalErr::ArityOrTypeError), env)
    }
}

/// `(let* (k v ...) body)`: the worth of `body` in a new scope inside `scope` in which
/// each `k` is bound in turn to the worth of its `v` there.
pub open spec fn eval_let_spec(l: Seq<Value>, env: Seq<ScopeView>, scope: nat, d: nat) -> Outcome
    decreases d, 3nat, 0nat,
{
    if l.len() == 3 && l[1] is List && l[1]->List_0.len() % 2 == 0 {
        let b = l[1]->List_0;
        let inner = env.len();
        let e0 = env.push(ScopeView { vars: Map::empty(), outer: Some(scope) });
        let (r, e1) = eval_bindings_spec(b, b.len() / 2, e0, inner, d);
        match r {
            Some(e) => (Err(e), e1),
            None => eval_spec(l[2], e1, inner, d),
        }
    } else {
        (Err(MalErr::ArityOrTypeError), env)
    }
}

/// The first `n` pairs of a `let*` binding list, evaluated and bound in order in
/// `scope`: the first error, if any, and the scopes after it or after the last pair.
pub open spec fn eval_bindings_spec(
    b: Seq<Value>,
    n: nat,
    env: Seq<ScopeView>,
    scope: nat,
    d: nat,
) -> (Option<MalErr>, Seq<ScopeView>)
    decreases d, 1nat, n,
{
    if n == 0 || 2 * n > b.len() {
        (None, env)
    } else {
        let (r, e1) = eval_bindings_spec(b, (n - 1) as nat, env, scope, d);
        if r is Some {
            (r, e1)
        } else if !(b[2 * n - 2] is Sym) {
            (Some(MalErr::ArityOrTypeError), e1)
        } else {
            let (r2, e2) = eval_spec(b[2 * n - 1], e1, scope, d);
            match r2 {
                Ok(v) => (None, define(e2, scope, b[2 * n - 2]->Sym_0, v)),
                Err(e) => (Some(e), e2),
            }
        }
    }
}

/// `(do a b ...)`: each in turn; the worth of the last, or `nil` where there is none.
pub open spec fn eval_do_spec(l: Seq<Value>, env: Seq<ScopeView>, scope: nat, d: nat) -> Outcome
    decreases d, 3nat, 0nat,
{
    let rest = l.subrange(1, l.len() as int);
    let (r, e1) = eval_items_spec(rest, rest.len(), env, scope, d);
    match r {
        Ok(vs) => (
            Ok(
                if vs.len() == 0 {
                    Value::Nil
                } else {
                    vs.last()
                },
            ),
            e1,
        ),
        Err(e) => (Err(e), e1),
    }
}

/// `(if cond then [else])`: the worth of `else`, or `nil` where there is none, if
/// `cond` is worth `nil` or `false`; the worth of `then` otherwise.
pub open spec fn eval_if_spec(l: Seq<Value>, env: Seq<ScopeView>, scope: nat, d: nat) -> Outcome
    decreases d, 3nat, 0nat,
{
    if l.len() == 3 || l.len() == 4 {
        let (c, e1) = eval_spec(l[1], env, scope, d);
        match c {
            Ok(v) => if falsy(v) {
                if l.len() == 4 {
                    eval_spec(l[3], e1, scope, d)
                } else {
                    (Ok(Value::Nil), e1)
                }
            } else {
                eval_spec(l[2], e1, scope, d)
            },
            Err(e) => (Err(e), e1),
        }
    } else {
        (Err(MalErr::ArityOrTypeError), env)
    }
}

/// `(fn* (a b ...) body)`: a closure over `scope`.
pub open spec fn closure_spec(l: Seq<Value>, scope: nat) -> Result<Value, MalErr> {
    if l.len() == 3 && l[1] is List {
        Ok(Value::Closure { env: scope, params: l[1]->List_0, body: Box::new(l[2]) })
    } else {
        Err(MalErr::ArityOrTypeError)
    }
}

/// An application: every item is evaluated in order, then the first is applied to the
/// others.
pub open spec fn eval_call_spec(l: Seq<Value>, env: Seq<ScopeView>, scope: nat, d: nat) -> Outcome
    decreases d, 3nat, 0nat,
{
    let (r, e1) = eval_ast_spec(Value::List(l), env, scope, d);
    match r {
        Ok(Value::List(vs)) => if vs.len() >= 1 {
            apply_spec(vs[0], vs.subrange(1, vs.len() as int), e1, d)
        } else {
            (Err(MalErr::NotCallable), e1)
        },
        Ok(_) => (Err(MalErr::NotCallable), e1),
        Err(e) => (Err(e), e1),
    }
}

/// What `f` gives for `args`: a primitive's result; a closure's body in a new scope
/// inside the one it was made in, with its parameters bound to `args`.
pub open spec fn apply_spec(f: Value, args: Seq<Value>, env: Seq<ScopeView>, d: nat) -> Outcome
    decreases d, 1nat, 0nat,
{
    match f {
        Value::Func(b) => (builtin_result(b, args), env),
        Value::Closure { env: made_in, params, body } => if made_in >= env.len() {
            (Err(MalErr::NotCallable), env)
        } else if params.len() != args.len() {
            (Err(MalErr::ArityOrTypeError), env)
        } else {
            eval_spec(*body, with_call_scope(env, made_in, params, args), env.len(), d)
        },
        _ => (Err(MalErr::NotCallable), env),
    }
}

/// A symbol is worth what it is bound to; a list, the list of what its items are worth;
/// anything else, itself.
pub open spec fn eval_ast_spec(ast: Value, env: Seq<ScopeView>, scope: nat, d: nat) -> Outcome
    decreases d, 2nat, 0nat,
{
    match ast {
        Value::Sym(s) => match lookup(env, scope, s) {
            Some(v) => (Ok(v), env),
            None => (Err(MalErr::SymbolNotFound), env),
        },
        Value::List(l) => {
            let (r, e1) = eval_items_spec(l, l.len(), env, scope, d);
            match r {
                Ok(vs) => (Ok(Value::List(vs)), e1),
                Err(e) => (Err(e), e1),
            }
        },
        _ => (Ok(ast), env),
    }
}

/// The first `n` items evaluated in order: what they are worth, or the first error, and
/// the scopes after it or after the last item.
pub open spec fn eval_items_spec(
    items: Seq<Value>,
    n: nat,
    env: Seq<ScopeView>,
    scope: nat,
    d: nat,
) -> (Result<Seq<Value>, MalErr>, Seq<ScopeView>)
    decreases d, 1nat, n,
{
    if n == 0 || n > items.len() {
        (Ok(Seq::empty()), env)
    } else {
        let (r, e1) = eval_items_spec(items, (n - 1) as nat, env, scope, d);
        match r {
            Ok(vs) => {
                let (r2, e2) = eval_spec(items[n - 1], e1, scope, d);
                match r2 {
                    Ok(v) => (Ok(vs.push(v)), e2),
                    Err(e) => (Err(e), e2),
                }
            },
            Err(e) => (Err(e), e1),
        }
    }
}

/// Whether a value is worth itself as an expression: anything but a symbol and a list
/// with items.
pub open spec fn self_evaluating(v: Value) -> bool {
    !(v is Sym) && !(v is List && v->List_0.len() > 0)
}

/// The form `(if cond first second)`.
pub open spec fn if_form(cond: Value, first: Value, second: Value) -> Value {
    Value::List(seq![Value::Sym("if"@), cond, first, second])
}

/// The form `(/ a b)`.
pub open spec fn quotient_form(a: Value, b: Value) -> Value {
    Value::List(seq![Value::Sym("/"@), a, b])
}

/// A value that is worth itself is what evaluating it gives, and the scopes stay as
/// they are.
pub proof fn lemma_self_evaluating(v: Value, env: Seq<ScopeView>, scope: nat, depth: nat)
    requires
        self_evaluating(v),
        depth >= 1,
    ensures
        eval_spec(v, env, scope, depth) == (Ok::<Value, MalErr>(v), env),
{
}

/// An `if` form with both branches is worth its second branch where the condition is
/// worth `nil` or `false`, and its first branch where it is worth anything else; an
/// error in the condition is the form's error.
pub proof fn lemma_if_chooses(
    cond: Value,
    first: Value,
    second: Value,
    env: Seq<ScopeView>,
    scope: nat,
    depth: nat,
)
    requires
        depth >= 1,
    ensures
        eval_spec(if_form(cond, first, second), env, scope, depth) == ({
            let d = (depth - 1) as nat;
            let (c, e1) = eval_spec(cond, env, scope, d);
            match c {
                Ok(v) => if v is Nil || v == Value::Bool(false) {
                    eval_spec(second, e1, scope, d)
                } else {
                    eval_spec(first, e1, scope, d)
                },
                Err(e) => (Err(e), e1),
            }
        }),
{
    reveal_strlit("if");
    reveal_strlit("def!");
    reveal_strlit("let*");
    reveal_strlit("do");
    reveal_with_fuel(eval_spec, 2);
    reveal_with_fuel(eval_if_spec, 2);
    assert("if"@ != "def!"@) by {
        assert("if"@.len() == 2 && "def!"@.len() == 4);
    }
    assert("if"@ != "let*"@) by {
        assert("if"@.len() == 2 && "let*"@.len() == 4);
    }
    assert("if"@ != "do"@) by {
        assert("if"@[0] == 'i' && "do"@[0] == 'd');
    }
    let l = seq![Value::Sym("if"@), cond, first, second];
    assert(l.len() == 4 && l[0] == Value::Sym("if"@) && l[1] == cond && l[2] == first && l[3]
        == second);
    assert(eval_spec(Value::List(l), env, scope, depth) == eval_if_spec(
        l,
        env,
        scope,
        (depth - 1) as nat,
    ));
}

/// `(if v 1 2)` is worth 2 exactly when `v` is `nil` or `false`, and 1 for every other
/// value that is worth itself, zero and the empty string among them.
pub proof fn lemma_if_truthiness(v: Value, env: Seq<ScopeView>, scope: nat, depth: nat)
    requires
        self_evaluating(v),
        depth >= 2,
    ensures
        eval_spec(if_form(v, Value::Int(1), Value::Int(2)), env, scope, depth) == (
            Ok::<Value, MalErr>(
                if v is Nil || v == Value::Bool(false) {
                    Value::Int(2)
                } else {
                    Value::Int(1)
                },
            ),
            env,
        ),
{
    lemma_if_chooses(v, Value::Int(1), Value::Int(2), env, scope, depth);
    lemma_self_evaluating(v, env, scope, (depth - 1) as nat);
}

/// A symbol that no scope of the chain binds gives `SymbolNotFound`, and the scopes
/// stay as they are.
pub proof fn lemma_unbound_symbol(name: Seq<char>, env: Seq<ScopeView>, scope: nat, depth: nat)
    requires
        depth >= 1,
        lookup(env, scope, name) is None,
    ensures
        eval_spec(Value::Sym(name), env, scope, depth) == (
            Err::<Value, MalErr>(MalErr::SymbolNotFound),
            env,
        ),
{
}

/// Where `/` means division, `(/ a 0)` gives `DivisionByZero` for every integer `a`,
/// and the scopes stay as they are.
pub proof fn lemma_division_by_zero(a: i32, env: Seq<ScopeView>, scope: nat, depth: nat)
    requires
        depth >= 2,
        lookup(env, scope, "/"@) == Some(Value::Func(Builtin::Div)),
    ensures
        eval_spec(quotient_form(Value::Int(a), Value::Int(0)), env, scope, depth) == (
            Err::<Value, MalErr>(MalErr::DivisionByZero),
            env,
        ),
{
    reveal_strlit("/");
    reveal_strlit("if");
    reveal_strlit("def!");
    reveal_strlit("let*");
    reveal_strlit("do");
    reveal_strlit("fn*");
    reveal_with_fuel(eval_spec, 4);
    reveal_with_fuel(eval_call_spec, 4);
    reveal_with_fuel(eval_ast_spec, 4);
    reveal_with_fuel(eval_items_spec, 4);
    reveal_with_fuel(apply_spec, 4);
    let d = (depth - 1) as nat;
    let l = seq![Value::Sym("/"@), Value::Int(a), Value::Int(0)];
    assert(eval_items_spec(l, 0, env, scope, d) == (Ok::<Seq<Value>, MalErr>(Seq::empty()), env));
    let v1 = Seq::<Value>::empty().push(Value::Func(Builtin::Div));
    assert(eval_items_spec(l, 1, env, scope, d) == (Ok::<Seq<Value>, MalErr>(v1), env));
    let v2 = v1.push(Value::Int(a));
    assert(eval_items_spec(l, 2, env, scope, d) == (Ok::<Seq<Value>, MalErr>(v2), env));
    let v3 = v2.push(Value::Int(0));
    assert(eval_items_spec(l, 3, env, scope, d) == (Ok::<Seq<Value>, MalErr>(v3), env));
    let args = v3.subrange(1, 3);
    assert(args[0] == Value::Int(a) && args[1] == Value::Int(0) && args.len() == 2);
    assert("/"@.len() == 1 && "if"@.len() == 2 && "do"@.len() == 2 && "def!"@.len() == 4
        && "let*"@.len() == 4 && "fn*"@.len() == 3);
    assert(l[0] == Value::Sym("/"@) && l.len() == 3);
    assert(eval_spec(Value::List(l), env, scope, depth) == eval_call_spec(l, env, scope, d));
    assert(eval_ast_spec(Value::List(l), env, scope, d) == (
        Ok::<Value, MalErr>(Value::List(v3)),
        env,
    ));
    assert(v3[0] == Value::Func(Builtin::Div));
    assert(apply_spec(v3[0], args, env, d) == (builtin_result(Builtin::Div, args), env));
}

/// In a new session `(/ a 0)` gives `DivisionByZero` for every integer `a`, and the
/// session stays as it is.
pub proof fn lemma_new_session_division(a: i32)
    ensures
        eval_spec(
            quotient_form(Value::Int(a), Value::Int(0)),
            new_session(),
            0,
            MAX_DEPTH as nat,
        ) == (Err::<Value, MalErr>(MalErr::DivisionByZero), new_session()),
{
    lemma_global_binds(3);
    lemma_division_by_zero(a, new_session(), 0, MAX_DEPTH as nat);
}

/// Once an item has failed, the items after it are not evaluated.
pub proof fn lemma_items_error(
    items: Seq<Value>,
    i: nat,
    n: nat,
    env: Seq<ScopeView>,
    scope: nat,
    d: nat,
)
    requires
        i <= n <= items.len(),
        eval_items_spec(items, i, env, scope, d).0 is Err,
    ensures
        eval_items_spec(items, n, env, scope, d) == eval_items_spec(items, i, env, scope, d),
    decreases n,
{
    if i < n {
        lemma_items_error(items, i, (n - 1) as nat, env, scope, d);
    }
}

/// Once a pair of a binding list has failed, the pairs after it are not evaluated.
pub proof fn lemma_bindings_error(
    b: Seq<Value>,
    i: nat,
    n: nat,
    env: Seq<ScopeView>,
    scope: nat,
    d: nat,
)
    requires
        i <= n,
        2 * n <= b.len(),
        eval_bindings_spec(b, i, env, scope, d).0 is Some,
    ensures
        eval_bindings_spec(b, n, env, scope, d) == eval_bindings_spec(b, i, env, scope, d),
    decreases n,
{
    if i < n {
        lemma_bindings_error(b, i, (n - 1) as nat, env, scope, d);
    }
}

/// How deep `eval` lets evaluations nest.
pub const MAX_DEPTH: usize = 512;

/// The model of what evaluating a sequence gave.
pub open spec fn items_outcome(r: Result<Vec<MalType>, MalErr>) -> Result<Seq<Value>, MalErr> {
    match r {
        Ok(vs) => Ok(views(vs@)),
        Err(e) => Err(e),
    }
}

/// The items taken two by two, in order; a last item without a partner is left out.
/// This is what `Itertools::tuples` of itertools yields for pairs.
#[verifier::external_body]
fn pairs<'a>(items: &'a Vec<MalType>) -> (r: Vec<(&'a MalType, &'a MalType)>)
    ensures
        r@.len() == items@.len() / 2,
        forall|i: int|
            0 <= i < r@.len() ==> *(#[trigger] r@[i]).0 == items@[2 * i] && *r@[i].1 == items@[2
                * i + 1],
{
    items.iter().tuples().collect()
}

/// Whether `v` is the symbol `name`.
fn is_sym(v: &MalType, name: &str) -> (r: bool)
    ensures
        r == (v@ == Value::Sym(name@)),
{
    match v {
        MalType::Sym(s) => *s == String::from_str(name),
        _ => false,
    }
}

/// Copies of all items but the first.
fn tail(items: &Vec<MalType>) -> (r: Vec<MalType>)
    requires
        items@.len() >= 1,
    ensures
        views(r@) == views(items@).subrange(1, items@.len() as int),
{
    let mut out: Vec<MalType> = Vec::new();
    let mut i: usize = 1;
    while i < items.len()
        invariant
            1 <= i <= items@.len(),
            out@.len() == i - 1,
            forall|j: int| 0 <= j < out@.len() ==> out@[j]@ == items@[j + 1]@,
        decreases items@.len() - i,
    {
        out.push(items[i].clone());
        i += 1;
    }
    assert(views(out@) =~= views(items@).subrange(1, items@.len() as int));
    out
}

/// Evaluates `ast` in the global scope, with evaluations nested at most `MAX_DEPTH` deep.
pub fn eval(ast: MalType, env: &mut Env) -> (r: Result<MalType, MalErr>)
    requires
        old(env).wf(),
    ensures
        final(env).wf(),
        old(env)@.len() <= final(env)@.len(),
        (outcome(r), final(env)@) == eval_spec(ast@, old(env)@, 0, MAX_DEPTH as nat),
{
    proof {
        env.lemma_has_global();
    }
    eval_in(&ast, env, 0, MAX_DEPTH)
}

/// Evaluates `ast` in the scope `scope`, with evaluations nested at most `depth` deep.
pub fn eval_in(ast: &MalType, env: &mut Env, scope: usize, depth: usize) -> (r: Result<
    MalType,
    MalErr,
>)
    requires
        old(env).wf(),
        scope < old(env)@.len(),
    ensures
        final(env).wf(),
        old(env)@.len() <= final(env)@.len(),
        (outcome(r), final(env)@) == eval_spec(ast@, old(env)@, scope as nat, depth as nat),
    decreases depth, 0nat, 0nat,
{
    if depth == 0 {
        return Err(MalErr::DepthExceeded);
    }
    let d: usize = depth - 1;
    proof {
        lemma_view_items(*ast);
    }
    match ast {
        MalType::List(l) => {
            if l.len() == 0 {
                Ok(ast.clone())
            } else if is_sym(&l[0], "def!") {
                eval_def(l, env, scope, d)
            } else if is_sym(&l[0], "let*") {
                eval_let(l, env, scope, d)
            } else if is_sym(&l[0], "do") {
                eval_do(l, env, scope, d)
            } else if is_sym(&l[0], "if") {
                eval_if(l, env, scope, d)
            } else if is_sym(&l[0], "fn*") {
                make_closure(l, scope)
            } else {
                eval_call(l, env, scope, d)
            }
        },
        _ => eval_ast(ast, env, scope, d),
    }
}

/// Evaluates a `def!` form.
fn eval_def(l: &Vec<MalType>, env: &mut Env, scope: usize, d: usize) -> (r: Result<MalType, MalErr>)
    requires
        old(env).wf(),
        scope < old(env)@.len(),
    ensures
        final(env).wf(),
        old(env)@.len() <= final(env)@.len(),
        (outcome(r), final(env)@) == eval_def_spec(views(l@), old(env)@, scope as nat, d as nat),
    decreases d, 3nat, 0nat,
{
    if l.len() != 3 {
        return Err(MalErr::ArityOrTypeError);
    }
    match &l[1] {
        MalType::Sym(name) => match eval_in(&l[2], env, scope, d) {
            Ok(v) => {
                env.set_in(scope, name.as_str(), v.clone());
                Ok(v)
            },
            Err(e) => Err(e),
        },
        _ => Err(MalErr::ArityOrTypeError),
    }
}

/// Evaluates a `let*` form.
fn eval_let(l: &Vec<MalType>, env: &mut Env, scope: usize, d: usize) -> (r: Result<MalType, MalErr>)
    requires
        old(env).wf(),
        scope < old(env)@.len(),
    ensures
        final(env).wf(),
        old(env)@.len() <= final(env)@.len(),
        (outcome(r), final(env)@) == eval_let_spec(views(l@), old(env)@, scope as nat, d as nat),
    decreases d, 3nat, 0nat,
{
    if l.len() != 3 {
        return Err(MalErr::ArityOrTypeError);
    }
    proof {
        lemma_view_items(l@[1]);
    }
    match &l[1] {
        MalType::List(b) => {
            if b.len() % 2 != 0 {
                return Err(MalErr::ArityOrTypeError);
            }
            let inner = env.child(scope);
            match eval_bindings(b, env, inner, d) {
                Some(e) => Err(e),
                None => eval_in(&l[2], env, inner, d),
            }
        },
        _ => Err(MalErr::ArityOrTypeError),
    }
}

/// Evaluates the pairs of a `let*` binding list in order and binds each key in `scope`.
fn eval_bindings(b: &Vec<MalType>, env: &mut Env, scope: usize, d: usize) -> (r: Option<MalErr>)
    requires
        old(env).wf(),
        scope < old(env)@.len(),
        b@.len() % 2 == 0,
    ensures
        final(env).wf(),
        old(env)@.len() <= final(env)@.len(),
        (r, final(env)@) == eval_bindings_spec(
            views(b@),
            (b@.len() / 2) as nat,
            old(env)@,
            scope as nat,
            d as nat,
        ),
    decreases d, 1nat, 0nat,
{
    let two = pairs(b);
    let ghost n = (b@.len() / 2) as nat;
    let mut i: usize = 0;
    while i < two.len()
        invariant
            i <= two@.len(),
            two@.len() == n,
            2 * n == b@.len(),
            forall|j: int|
                0 <= j < two@.len() ==> *(#[trigger] two@[j]).0 == b@[2 * j] && *two@[j].1 == b@[2
                    * j + 1],
            env.wf(),
            scope < env@.len(),
            old(env)@.len() <= env@.len(),
            (None::<MalErr>, env@) == eval_bindings_spec(
                views(b@),
                i as nat,
                old(env)@,
                scope as nat,
                d as nat,
            ),
        decreases two@.len() - i,
    {
        let (key, expr) = two[i];
        assert(*key == b@[2 * i]);
        assert(*expr == b@[2 * i + 1]);
        match key {
            MalType::Sym(name) => match eval_in(expr, env, scope, d) {
                Ok(v) => {
                    env.set_in(scope, name.as_str(), v);
                },
                Err(e) => {
                    proof {
                        lemma_bindings_error(
                            views(b@),
                            (i + 1) as nat,
                            n,
                            old(env)@,
                            scope as nat,
                            d as nat,
                        );
                    }
                    return Some(e);
                },
            },
            _ => {
                proof {
                    lemma_bindings_error(
                        views(b@),
                        (i + 1) as nat,
                        n,
                        old(env)@,
                        scope as nat,
                        d as nat,
                    );
                }
                return Some(MalErr::ArityOrTypeError);
            },
        }
        i += 1;
    }
    None
}

/// Evaluates a `do` form.
fn eval_do(l: &Vec<MalType>, env: &mut Env, scope: usize, d: usize) -> (r: Result<MalType, MalErr>)
    requires
        old(env).wf(),
        scope < old(env)@.len(),
        l@.len() >= 1,
    ensures
        final(env).wf(),
        old(env)@.len() <= final(env)@.len(),
        (outcome(r), final(env)@) == eval_do_spec(views(l@), old(env)@, scope as nat, d as nat),
    decreases d, 3nat, 0nat,
{
    let rest = tail(l);
    match eval_items(&rest, env, scope, d) {
        Ok(mut vs) => match vs.pop() {
            Some(v) => Ok(v),
            None => Ok(MalType::Nil),
        },
        Err(e) => Err(e),
    }
}

/// Evaluates an `if` form.
fn eval_if(l: &Vec<MalType>, env: &mut Env, scope: usize, d: usize) -> (r: Result<MalType, MalErr>)
    requires
        old(env).wf(),
        scope < old(env)@.len(),
    ensures
        final(env).wf(),
        old(env)@.len() <= final(env)@.len(),
        (outcome(r), final(env)@) == eval_if_spec(views(l@), old(env)@, scope as nat, d as nat),
    decreases d, 3nat, 0nat,
{
    if l.len() != 3 && l.len() != 4 {
        return Err(MalErr::ArityOrTypeError);
    }
    match eval_in(&l[1], env, scope, d) {
        Ok(MalType::Nil) | Ok(MalType::Bool(false)) => {
            if l.len() == 4 {
                eval_in(&l[3], env, scope, d)
            } else {
                Ok(MalType::Nil)
            }
        },
        Ok(_) => eval_in(&l[2], env, scope, d),
        Err(e) => Err(e),
    }
}

/// Evaluates a `fn*` form.
fn make_closure(l: &Vec<MalType>, scope: usize) -> (r: Result<MalType, MalErr>)
    ensures
        outcome(r) == closure_spec(views(l@), scope as nat),
{
    if l.len() != 3 {
        return Err(MalErr::ArityOrTypeError);
    }
    proof {
        lemma_view_items(l@[1]);
    }
    match &l[1] {
        MalType::List(params) => {
            let f = MalType::MalFunc {
                env: scope,
                params: clone_items(params),
                body: Box::new(l[2].clone()),
            };
            proof {
                lemma_view_items(f);
            }
            Ok(f)
        },
        _ => Err(MalErr::ArityOrTypeError),
    }
}

/// Evaluates an application.
fn eval_call(l: &Vec<MalType>, env: &mut Env, scope: usize, d: usize) -> (r: Result<MalType, MalErr>)
    requires
        old(env).wf(),
        scope < old(env)@.len(),
    ensures
        final(env).wf(),
        old(env)@.len() <= final(env)@.len(),
        (outcome(r), final(env)@) == eval_call_spec(views(l@), old(env)@, scope as nat, d as nat),
    decreases d, 3nat, 0nat,
{
    match eval_items(l, env, scope, d) {
        Ok(vs) => {
            if vs.len() >= 1 {
                let args = tail(&vs);
                apply_value(&vs[0], &args, env, d)
            } else {
                Err(MalErr::NotCallable)
            }
        },
        Err(e) => Err(e),
    }
}

/// Applies `f` to `args`, with evaluations nested at most `d` deep.
pub fn apply_value(f: &MalType, args: &Vec<MalType>, env: &mut Env, d: usize) -> (r: Result<
    MalType,
    MalErr,
>)
    requires
        old(env).wf(),
    ensures
        final(env).wf(),
        old(env)@.len() <= final(env)@.len(),
        (outcome(r), final(env)@) == apply_spec(f@, views(args@), old(env)@, d as nat),
    decreases d, 1nat, 0nat,
{
    proof {
        lemma_view_items(*f);
    }
    match f {
        MalType::Func(b) => apply(*b, args),
        MalType::MalFunc { env: made_in, params, body } => {
            if *made_in >= env.len() {
                Err(MalErr::NotCallable)
            } else {
                match env.bind(*made_in, params, args) {
                    Ok(inner) => eval_in(body, env, inner, d),
                    Err(e) => Err(e),
                }
            }
        },
        _ => Err(MalErr::NotCallable),
    }
}

/// Looks a symbol up, evaluates the items of a list, and leaves anything else as it is.
pub fn eval_ast(ast: &MalType, env: &mut Env, scope: usize, d: usize) -> (r: Result<MalType, MalErr>)
    requires
        old(env).wf(),
        scope < old(env)@.len(),
    ensures
        final(env).wf(),
        old(env)@.len() <= final(env)@.len(),
        (outcome(r), final(env)@) == eval_ast_spec(ast@, old(env)@, scope as nat, d as nat),
    decreases d, 2nat, 0nat,
{
    proof {
        lemma_view_items(*ast);
    }
    match ast {
        MalType::Sym(s) => match env.find(scope, s.as_str()) {
            Some(v) => Ok(v),
            None => Err(MalErr::SymbolNotFound),
        },
        MalType::List(l) => match eval_items(l, env, scope, d) {
            Ok(vs) => {
                let r = MalType::List(vs);
                proof {
                    lemma_view_items(r);
                }
                Ok(r)
            },
            Err(e) => Err(e),
        },
        _ => Ok(ast.clone()),
    }
}

/// Evaluates the items in order and stops at the first error.
pub fn eval_items(items: &Vec<MalType>, env: &mut Env, scope: usize, d: usize) -> (r: Result<
    Vec<MalType>,
    MalErr,
>)
    requires
        old(env).wf(),
        scope < old(env)@.len(),
    ensures
        final(env).wf(),
        old(env)@.len() <= final(env)@.len(),
        (items_outcome(r), final(env)@) == eval_items_spec(
            views(items@),
            items@.len(),
            old(env)@,
            scope as nat,
            d as nat,
        ),
        r matches Ok(vs) ==> vs@.len() == items@.len(),
    decreases d, 1nat, 0nat,
{
    let mut out: Vec<MalType> = Vec::new();
    let mut i: usize = 0;
    assert(views(out@) =~= Seq::<Value>::empty());
    while i < items.len()
        invariant
            i <= items@.len(),
            out@.len() == i,
            env.wf(),
            scope < env@.len(),
            old(env)@.len() <= env@.len(),
            (Ok::<Seq<Value>, MalErr>(views(out@)), env@) == eval_items_spec(
                views(items@),
                i as nat,
                old(env)@,
                scope as nat,
                d as nat,
            ),
        decreases items@.len() - i,
    {
        let ghost before = views(out@);
        match eval_in(&items[i], env, scope, d) {
            Ok(v) => {
                out.push(v);
                assert(views(out@) =~= before.push(v@));
            },
            Err(e) => {
                proof {
                    lemma_items_error(
                        views(items@),
                        (i + 1) as nat,
                        items@.len(),
                        old(env)@,
                        scope as nat,
                        d as nat,
                    );
                }
                return Err(e);
            },
        }
        i += 1;
    }
    Ok(out)
}

} // verus!
