//! The tree of scopes in which symbols are bound and looked up.

use crate::builtins::{entry_names, entry_values, ns, ns_names, ns_values};
use crate::types::{printed, views, MalErr, MalType, Value};
use vstd::prelude::*;
use vstd::string::StringExecFns;

verus! {

/// The model of one scope: what it binds, and the scope around it.
pub struct ScopeView {
    pub vars: Map<Seq<char>, Value>,
    pub outer: Option<nat>,
}

/// One level of bindings. No name occurs twice.
struct Scope {
    names: Vec<String>,
    values: Vec<MalType>,
    outer: Option<usize>,
}

/// The scopes of one session. Scope 0 is the global one; every other scope was made
/// inside a scope that was there before it. Scopes are named by their index.
pub struct Env {
    scopes: Vec<Scope>,
}

/// The model of what a lookup found.
pub open spec fn found(r: Option<MalType>) -> Option<Value> {
    match r {
        Some(v) => Some(v@),
        None => None,
    }
}

/// What `name` is bound to, seen from `scope`: the binding of the nearest scope of the
/// chain that has one.
pub open spec fn lookup(env: Seq<ScopeView>, scope: nat, name: Seq<char>) -> Option<Value>
    decreases scope,
{
    if scope >= env.len() {
        None
    } else if env[scope as int].vars.contains_key(name) {
        Some(env[scope as int].vars[name])
    } else {
        match env[scope as int].outer {
            Some(p) => if p < scope {
                lookup(env, p, name)
            } else {
                None
            },
            None => None,
        }
    }
}

/// The scopes after `name` is bound to `v` in `scope`, and nowhere else.
pub open spec fn define(env: Seq<ScopeView>, scope: nat, name: Seq<char>, v: Value) -> Seq<
    ScopeView,
> {
    env.update(
        scope as int,
        ScopeView { vars: env[scope as int].vars.insert(name, v), outer: env[scope as int].outer },
    )
}

/// A name means in a scope what it was last bound to there.
pub proof fn lemma_define_lookup(env: Seq<ScopeView>, scope: nat, name: Seq<char>, v: Value)
    requires
        scope < env.len(),
    ensures
        lookup(define(env, scope, name, v), scope, name) == Some(v),
{
}

/// Binding a name in a scope changes what no other name means there.
pub proof fn lemma_define_other(
    env: Seq<ScopeView>,
    scope: nat,
    name: Seq<char>,
    v: Value,
    from: nat,
    other: Seq<char>,
)
    requires
        scope < env.len(),
        other != name,
    ensures
        lookup(define(env, scope, name, v), from, other) == lookup(env, from, other),
    decreases from,
{
    let after = define(env, scope, name, v);
    if from < env.len() && !env[from as int].vars.contains_key(other) {
        match env[from as int].outer {
            Some(p) => {
                if p < from {
                    lemma_define_other(env, scope, name, v, p, other);
                }
            },
            None => {},
        }
    }
}

/// The bindings after the first `n` names are bound to the first `n` values, in order.
pub open spec fn bind_all(
    vars: Map<Seq<char>, Value>,
    names: Seq<Seq<char>>,
    values: Seq<Value>,
    n: nat,
) -> Map<Seq<char>, Value>
    decreases n,
{
    if n == 0 || n > names.len() || n > values.len() {
        vars
    } else {
        bind_all(vars, names, values, (n - 1) as nat).insert(names[n - 1], values[n - 1])
    }
}

/// The names under which parameters are bound: their printed forms.
pub open spec fn param_names(params: Seq<Value>) -> Seq<Seq<char>> {
    Seq::new(params.len(), |i: int| printed(params[i]))
}

/// What the global scope of a new session binds: every primitive under its name.
pub open spec fn global_vars() -> Map<Seq<char>, Value> {
    bind_all(Map::empty(), ns_names(), ns_values(), ns_names().len())
}

/// A number that tells the names of the primitives apart: from the length and the
/// first character.
pub open spec fn name_code(name: Seq<char>) -> int {
    name.len() * 0x200000 + name[0] as int
}

/// The names of the primitives differ from one another.
pub proof fn lemma_names_distinct()
    ensures
        forall|i: int, j: int|
            0 <= i < j < ns_names().len() ==> ns_names()[i] != ns_names()[j],
{
    reveal_strlit("+");
    reveal_strlit("-");
    reveal_strlit("*");
    reveal_strlit("/");
    reveal_strlit("=");
    reveal_strlit("<");
    reveal_strlit("<=");
    reveal_strlit(">");
    reveal_strlit(">=");
    reveal_strlit("count");
    reveal_strlit("list");
    reveal_strlit("list?");
    reveal_strlit("empty?");
    let s = ns_names();
    assert(name_code(s[0]) == name_code("+"@));
    assert(name_code(s[1]) == name_code("-"@));
    assert(name_code(s[2]) == name_code("*"@));
    assert(name_code(s[3]) == name_code("/"@));
    assert(name_code(s[4]) == name_code("="@));
    assert(name_code(s[5]) == name_code("<"@));
    assert(name_code(s[6]) == name_code("<="@));
    assert(name_code(s[7]) == name_code(">"@));
    assert(name_code(s[8]) == name_code(">="@));
    assert(name_code(s[9]) == name_code("count"@));
    assert(name_code(s[10]) == name_code("list"@));
    assert(name_code(s[11]) == name_code("list?"@));
    assert(name_code(s[12]) == name_code("empty?"@));
    assert forall|i: int, j: int| 0 <= i < j < s.len() implies s[i] != s[j] by {
        assert(name_code(s[i]) != name_code(s[j]));
    }
}

/// The scopes of a new session: the global scope alone, binding the primitives.
pub open spec fn new_session() -> Seq<ScopeView> {
    seq![ScopeView { vars: global_vars(), outer: None }]
}

/// In a new session each name of the table means its primitive.
pub proof fn lemma_global_binds(i: int)
    requires
        0 <= i < ns_names().len(),
    ensures
        lookup(new_session(), 0, ns_names()[i]) == Some(ns_values()[i]),
{
    lemma_names_distinct();
    reveal_with_fuel(bind_all, 14);
}

/// The scopes after a scope is added inside `outer` that binds each parameter to its
/// argument.
pub open spec fn with_call_scope(
    env: Seq<ScopeView>,
    outer: nat,
    params: Seq<Value>,
    args: Seq<Value>,
) -> Seq<ScopeView> {
    env.push(
        ScopeView {
            vars: bind_all(Map::empty(), param_names(params), args, params.len()),
            outer: Some(outer),
        },
    )
}

impl Scope {
    /// The lengths agree and no name occurs twice.
    closed spec fn wf(&self) -> bool {
        &&& self.names@.len() == self.values@.len()
        &&& forall|i: int, j: int|
            0 <= i < j < self.names@.len() ==> self.names@[i]@ != self.names@[j]@
    }

    /// Whether `i` is a place at which `k` is bound.
    closed spec fn binds_at(&self, k: Seq<char>, i: int) -> bool {
        0 <= i < self.names@.len() && self.names@[i]@ == k
    }

    /// What the scope binds.
    closed spec fn vars(&self) -> Map<Seq<char>, Value> {
        Map::new(
            |k: Seq<char>| exists|i: int| self.binds_at(k, i),
            |k: Seq<char>| self.values@[choose|i: int| self.binds_at(k, i)]@,
        )
    }

    /// The scope around this one.
    closed spec fn outer(&self) -> Option<nat> {
        match self.outer {
            Some(p) => Some(p as nat),
            None => None,
        }
    }

    fn empty(outer: Option<usize>) -> (r: Scope)
        ensures
            r.wf(),
            r.vars() == Map::<Seq<char>, Value>::empty(),
            r.outer() == (match outer {
                Some(p) => Some(p as nat),
                None => None,
            }),
    {
        let r = Scope { names: Vec::new(), values: Vec::new(), outer };
        assert(r.vars() =~= Map::<Seq<char>, Value>::empty());
        r
    }

    fn position(&self, k: &String) -> (r: Option<usize>)
        ensures
            match r {
                Some(i) => self.binds_at(k@, i as int),
                None => forall|j: int| !self.binds_at(k@, j),
            },
    {
        let mut i: usize = 0;
        while i < self.names.len()
            invariant
                i <= self.names@.len(),
                forall|j: int| 0 <= j < i ==> self.names@[j]@ != k@,
            decreases self.names@.len() - i,
        {
            if self.names[i] == *k {
                return Some(i);
            }
            i += 1;
        }
        None
    }

    fn lookup(&self, k: &String) -> (r: Option<MalType>)
        requires
            self.wf(),
        ensures
            found(r) == (if self.vars().contains_key(k@) {
                Some(self.vars()[k@])
            } else {
                None
            }),
    {
        match self.position(k) {
            Some(i) => {
                assert(self.binds_at(k@, i as int));
                let ghost c = choose|c: int| self.binds_at(k@, c);
                assert(c == i);
                Some(self.values[i].clone())
            },
            None => None,
        }
    }

    fn put(&mut self, k: String, v: MalType)
        requires
            old(self).wf(),
        ensures
            final(self).wf(),
            final(self).vars() == old(self).vars().insert(k@, v@),
            final(self).outer() == old(self).outer(),
    {
        let ghost before = *self;
        match self.position(&k) {
            Some(i) => {
                self.values[i] = v;
                assert forall|name: Seq<char>| #[trigger]
                    self.vars().contains_key(name) == before.vars().insert(
                        k@,
                        v@,
                    ).contains_key(name) by {
                    if before.binds_at(k@, i as int) {
                        assert(self.binds_at(k@, i as int));
                    }
                    if exists|c: int| self.binds_at(name, c) {
                        let c = choose|c: int| self.binds_at(name, c);
                        assert(before.binds_at(name, c));
                    }
                    if exists|c: int| before.binds_at(name, c) {
                        let c = choose|c: int| before.binds_at(name, c);
                        assert(self.binds_at(name, c));
                    }
                }
                assert forall|name: Seq<char>| #[trigger]
                    self.vars().contains_key(name) implies self.vars()[name]
                    == before.vars().insert(k@, v@)[name] by {
                    let c = choose|c: int| self.binds_at(name, c);
                    assert(before.binds_at(name, c));
                    let d = choose|d: int| before.binds_at(name, d);
                    assert(c == d);
                    if name == k@ {
                        assert(self.binds_at(k@, i as int));
                        assert(c == i);
                    }
                }
                assert(self.vars() =~= before.vars().insert(k@, v@));
            },
            None => {
                self.names.push(k);
                self.values.push(v);
                let ghost last = before.names@.len() as int;
                assert(self.binds_at(k@, last));
                assert forall|i: int, j: int| 0 <= i < j < self.names@.len() implies self.names@[i]@
                    != self.names@[j]@ by {
                    if j == last {
                        assert(!before.binds_at(k@, i));
                    }
                }
                assert forall|name: Seq<char>| #[trigger]
                    self.vars().contains_key(name) == before.vars().insert(
                        k@,
                        v@,
                    ).contains_key(name) by {
                    if exists|c: int| self.binds_at(name, c) {
                        let c = choose|c: int| self.binds_at(name, c);
                        if c != last {
                            assert(before.binds_at(name, c));
                        }
                    }
                    if exists|c: int| before.binds_at(name, c) {
                        let c = choose|c: int| before.binds_at(name, c);
                        assert(self.binds_at(name, c));
                    }
                }
                assert forall|name: Seq<char>| #[trigger]
                    self.vars().contains_key(name) implies self.vars()[name]
                    == before.vars().insert(k@, v@)[name] by {
                    let c = choose|c: int| self.binds_at(name, c);
                    if name == k@ {
                        assert(!before.binds_at(k@, c));
                        assert(c == last);
                    } else {
                        assert(before.binds_at(name, c));
                        let d = choose|d: int| before.binds_at(name, d);
                        assert(c == d);
                    }
                }
                assert(self.vars() =~= before.vars().insert(k@, v@));
            },
        }
    }
}

impl View for Scope {
    type V = ScopeView;

    closed spec fn view(&self) -> ScopeView {
        ScopeView { vars: self.vars(), outer: self.outer() }
    }
}

/// Binds each parameter to its argument in `scope`, in order.
fn bind_into(scope: &mut Scope, binds: &Vec<MalType>, exprs: &Vec<MalType>)
    requires
        old(scope).wf(),
        binds@.len() == exprs@.len(),
    ensures
        final(scope).wf(),
        final(scope).outer() == old(scope).outer(),
        final(scope).vars() == bind_all(
            old(scope).vars(),
            param_names(views(binds@)),
            views(exprs@),
            binds@.len(),
        ),
{
    let mut i: usize = 0;
    while i < binds.len()
        invariant
            i <= binds@.len(),
            binds@.len() == exprs@.len(),
            scope.wf(),
            scope.outer() == old(scope).outer(),
            scope.vars() == bind_all(
                old(scope).vars(),
                param_names(views(binds@)),
                views(exprs@),
                i as nat,
            ),
        decreases binds@.len() - i,
    {
        let name = binds[i].pr_str();
        scope.put(name, exprs[i].clone());
        i += 1;
    }
}

/// A scope without an outer one that binds every primitive under its name.
fn global_scope() -> (r: Scope)
    ensures
        r.wf(),
        r@ == (ScopeView { vars: global_vars(), outer: None }),
{
    let table = ns();
    let mut scope = Scope::empty(None);
    let mut i: usize = 0;
    assert(entry_names(table@).len() == table@.len());
    assert(entry_values(table@).len() == table@.len());
    while i < table.len()
        invariant
            i <= table@.len(),
            entry_names(table@) == ns_names(),
            entry_values(table@) == ns_values(),
            ns_names().len() == table@.len(),
            ns_values().len() == table@.len(),
            scope.wf(),
            scope.outer() == None::<nat>,
            scope.vars() == bind_all(Map::empty(), ns_names(), ns_values(), i as nat),
        decreases table@.len() - i,
    {
        assert(entry_names(table@)[i as int] == table@[i as int].0@);
        assert(entry_values(table@)[i as int] == table@[i as int].1@);
        let name = String::from_str(table[i].0);
        scope.put(name, table[i].1.clone());
        i += 1;
    }
    scope
}

impl View for Env {
    type V = Seq<ScopeView>;

    closed spec fn view(&self) -> Seq<ScopeView> {
        Seq::new(self.scopes@.len(), |i: int| self.scopes@[i]@)
    }
}

impl Default for Env {
    /// The scopes of a new session.
    fn default() -> (r: Env)
        ensures
            r.wf(),
            r@ == new_session(),
    {
        let mut scopes: Vec<Scope> = Vec::new();
        scopes.push(global_scope());
        let r = Env { scopes };
        assert(r@ =~= new_session());
        r
    }
}

impl Env {
    /// There is a global scope, every scope is sound, and every scope but the global one
    /// lies inside a scope that was made before it.
    pub closed spec fn wf(&self) -> bool {
        &&& self.scopes@.len() >= 1
        &&& forall|i: int|
            0 <= i < self.scopes@.len() ==> (#[trigger] self.scopes@[i]).wf() && (
            self.scopes@[i].outer matches Some(p) ==> p < i)
    }

    /// There is a global scope, which lies in no other; every other scope lies in an
    /// earlier one.
    pub proof fn lemma_has_global(&self)
        requires
            self.wf(),
        ensures
            self@.len() >= 1,
            self@[0].outer is None,
            forall|i: int|
                0 <= i < self@.len() ==> ((#[trigger] self@[i]).outer matches Some(p) ==> p < i),
    {
        assert forall|i: int| 0 <= i < self@.len() implies ((#[trigger] self@[i]).outer matches Some(
            p,
        ) ==> p < i) by {
            assert(self.scopes@[i].wf());
        }
    }

    /// The scopes of a new session with one scope inside the global one, scope 1, that
    /// binds each of `binds` to the value at its place in `exprs`. The primitives are
    /// bound in the global scope alone. The two must be of one length.
    pub fn new(binds: Vec<MalType>, exprs: Vec<MalType>) -> (r: Result<Env, MalErr>)
        ensures
            binds@.len() != exprs@.len() ==> r == Err::<Env, MalErr>(MalErr::ArityOrTypeError),
            binds@.len() == exprs@.len() ==> r is Ok && r->Ok_0.wf() && r->Ok_0@
                == with_call_scope(new_session(), 0, views(binds@), views(exprs@)),
    {
        let mut env = Env::default();
        match env.bind(0, &binds, &exprs) {
            Ok(_) => Ok(env),
            Err(e) => Err(e),
        }
    }

    /// How many scopes there are.
    pub fn len(&self) -> (n: usize)
        ensures
            n == self@.len(),
    {
        self.scopes.len()
    }

    /// Binds `k` to `v` in the scope `scope`, over what `k` was bound to there.
    pub fn set_in(&mut self, scope: usize, k: &str, v: MalType)
        requires
            old(self).wf(),
            scope < old(self)@.len(),
        ensures
            final(self).wf(),
            final(self)@ == define(old(self)@, scope as nat, k@, v@),
    {
        let key = String::from_str(k);
        self.scopes[scope].put(key, v);
        assert(self@ =~= define(old(self)@, scope as nat, k@, v@));
    }

    /// Binds `k` to `v` in the global scope.
    pub fn set(&mut self, k: &str, v: MalType)
        requires
            old(self).wf(),
        ensures
            final(self).wf(),
            final(self)@ == define(old(self)@, 0, k@, v@),
    {
        self.set_in(0, k, v)
    }

    /// What `k` is bound to, seen from the scope `scope`.
    pub fn find(&self, scope: usize, k: &str) -> (r: Option<MalType>)
        requires
            self.wf(),
        ensures
            found(r) == lookup(self@, scope as nat, k@),
        decreases scope,
    {
        if scope >= self.scopes.len() {
            return None;
        }
        let key = String::from_str(k);
        match self.scopes[scope].lookup(&key) {
            Some(v) => Some(v),
            None => match self.scopes[scope].outer {
                Some(p) => self.find(p, k),
                None => None,
            },
        }
    }

    /// What `k` is bound to in the global scope.
    pub fn get(&self, k: &str) -> (r: Option<MalType>)
        requires
            self.wf(),
        ensures
            found(r) == lookup(self@, 0, k@),
    {
        self.find(0, k)
    }

    /// Adds an empty scope inside `outer` and returns its index.
    pub fn child(&mut self, outer: usize) -> (r: usize)
        requires
            old(self).wf(),
            outer < old(self)@.len(),
        ensures
            final(self).wf(),
            r == old(self)@.len(),
            final(self)@ == old(self)@.push(
                ScopeView { vars: Map::empty(), outer: Some(outer as nat) },
            ),
    {
        let r = self.scopes.len();
        self.scopes.push(Scope::empty(Some(outer)));
        assert(self@ =~= old(self)@.push(
            ScopeView { vars: Map::empty(), outer: Some(outer as nat) },
        ));
        r
    }

    /// Adds a scope inside `outer` that binds each of `binds` to the value at its place
    /// in `exprs`, and returns its index. The two must be of one length.
    pub fn bind(&mut self, outer: usize, binds: &Vec<MalType>, exprs: &Vec<MalType>) -> (r: Result<
        usize,
        MalErr,
    >)
        requires
            old(self).wf(),
            outer < old(self)@.len(),
        ensures
            final(self).wf(),
            binds@.len() != exprs@.len() ==> r == Err::<usize, MalErr>(MalErr::ArityOrTypeError)
                && final(self)@ == old(self)@,
            binds@.len() == exprs@.len() ==> r == Ok::<usize, MalErr>(old(self)@.len() as usize)
                && final(self)@ == with_call_scope(
                old(self)@,
                outer as nat,
                views(binds@),
                views(exprs@),
            ),
    {
        if binds.len() != exprs.len() {
            return Err(MalErr::ArityOrTypeError);
        }
        let r = self.scopes.len();
        let mut scope = Scope::empty(Some(outer));
        bind_into(&mut scope, binds, exprs);
        self.scopes.push(scope);
        assert(self@ =~= with_call_scope(
            old(self)@,
            outer as nat,
            views(binds@),
            views(exprs@),
        ));
        Ok(r)
    }
}

} // verus!
