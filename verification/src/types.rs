//! The values of the language, their mathematical model and their printed form.

use crate::numeral::{decimal, int_to_string};
use vstd::prelude::*;
use vstd::string::StringExecFns;

verus! {

/// Why reading or evaluating an expression failed.
#[derive(Clone, Copy, Debug, PartialEq, Eq, Structural)]
pub enum MalErr {
    /// The text holds no expression, or a malformed atom.
    ParseError,
    /// A list was opened and the input ended before it was closed.
    UnexpectedToken,
    /// A symbol is bound in no scope of the chain.
    SymbolNotFound,
    /// A primitive or a special form got arguments of the wrong number or type.
    ArityOrTypeError,
    /// The head of an application is neither a primitive nor a closure.
    NotCallable,
    /// An integer was divided by zero.
    DivisionByZero,
    /// Evaluation nested deeper than the limit it was given.
    DepthExceeded,
}

/// The primitives of the language, one per name of the table.
#[derive(Clone, Copy, Debug, PartialEq, Eq, Structural)]
pub enum Builtin {
    Add,
    Sub,
    Mul,
    Div,
    Equal,
    Less,
    LessEq,
    Greater,
    GreaterEq,
    Count,
    MakeList,
    IsList,
    IsEmpty,
}

/// A value of the language. Expressions are values too.
#[derive(Debug)]
pub enum MalType {
    Nil,
    Bool(bool),
    Int(i32),
    Str(String),
    Sym(String),
    Keyword(String),
    List(Vec<MalType>),
    Func(Builtin),
    /// A closure: the index of the scope it was made in, its parameters and its body.
    MalFunc { env: usize, params: Vec<MalType>, body: Box<MalType> },
}

/// The mathematical model of a value.
pub enum Value {
    Nil,
    Bool(bool),
    Int(i32),
    Str(Seq<char>),
    Sym(Seq<char>),
    Keyword(Seq<char>),
    List(Seq<Value>),
    Func(Builtin),
    Closure { env: nat, params: Seq<Value>, body: Box<Value> },
}

/// The model of a value.
pub open spec fn value_of(v: MalType) -> Value
    decreases v,
{
    match v {
        MalType::Nil => Value::Nil,
        MalType::Bool(b) => Value::Bool(b),
        MalType::Int(n) => Value::Int(n),
        MalType::Str(s) => Value::Str(s@),
        MalType::Sym(s) => Value::Sym(s@),
        MalType::Keyword(s) => Value::Keyword(s@),
        MalType::List(l) => Value::List(
            Seq::new(l@.len(), |i: int| if 0 <= i < l@.len() { value_of(l@[i]) } else { Value::Nil }),
        ),
        MalType::Func(f) => Value::Func(f),
        MalType::MalFunc { env, params, body } => Value::Closure {
            env: env as nat,
            params: Seq::new(
                params@.len(),
                |i: int| if 0 <= i < params@.len() { value_of(params@[i]) } else { Value::Nil },
            ),
            body: Box::new(value_of(*body)),
        },
    }
}

impl View for MalType {
    type V = Value;

    open spec fn view(&self) -> Value {
        value_of(*self)
    }
}

/// The models of a sequence of values, item by item.
pub open spec fn views(items: Seq<MalType>) -> Seq<Value> {
    Seq::new(items.len(), |i: int| items[i]@)
}

/// A list's model holds the models of its items, and so does a closure's parameter list.
pub proof fn lemma_view_items(v: MalType)
    ensures
        v matches MalType::List(l) ==> v@ == Value::List(views(l@)),
        v matches MalType::MalFunc { env, params, body } ==> v@ == (Value::Closure {
            env: env as nat,
            params: views(params@),
            body: Box::new(body@),
        }),
{
    match v {
        MalType::List(l) => {
            assert(v@->List_0 =~= views(l@));
        },
        MalType::MalFunc { env, params, body } => {
            assert(v@->Closure_params =~= views(params@));
        },
        _ => {},
    }
}

/// The model of an outcome: the value's model, or the error as it is.
pub open spec fn outcome(r: Result<MalType, MalErr>) -> Result<Value, MalErr> {
    match r {
        Ok(v) => Ok(v@),
        Err(e) => Err(e),
    }
}

impl Clone for MalType {
    /// A copy with the same model.
    fn clone(&self) -> (r: MalType)
        ensures
            r@ == self@,
        decreases self,
    {
        proof {
            lemma_view_items(*self);
        }
        let r = match self {
            MalType::Nil => MalType::Nil,
            MalType::Bool(b) => MalType::Bool(*b),
            MalType::Int(n) => MalType::Int(*n),
            MalType::Str(s) => MalType::Str(s.clone()),
            MalType::Sym(s) => MalType::Sym(s.clone()),
            MalType::Keyword(s) => MalType::Keyword(s.clone()),
            MalType::List(l) => MalType::List(clone_items(l)),
            MalType::Func(f) => MalType::Func(*f),
            MalType::MalFunc { env, params, body } => MalType::MalFunc {
                env: *env,
                params: clone_items(params),
                body: Box::new((&**body).clone()),
            },
        };
        proof {
            lemma_view_items(r);
        }
        r
    }
}

/// Copies of the items, in order.
pub fn clone_items(items: &Vec<MalType>) -> (r: Vec<MalType>)
    ensures
        views(r@) == views(items@),
    decreases items,
{
    let mut out: Vec<MalType> = Vec::new();
    let mut i: usize = 0;
    while i < items.len()
        invariant
            i <= items.len(),
            out@.len() == i,
            forall|j: int| 0 <= j < i ==> out@[j]@ == items@[j]@,
        decreases items.len() - i,
    {
        out.push(items[i].clone());
        i += 1;
    }
    assert(views(out@) =~= views(items@));
    out
}

/// The printed form of a value: `nil`, `true` or `false`; an integer in decimal; a
/// string, symbol or keyword as it was read; a list as its items' printed forms between
/// brackets, one space apart; a fixed tag for a primitive and another for a closure.
pub open spec fn printed(v: Value) -> Seq<char>
    decreases v, 0nat,
{
    match v {
        Value::Nil => "nil"@,
        Value::Bool(b) => if b {
            "true"@
        } else {
            "false"@
        },
        Value::Int(n) => decimal(n as int),
        Value::Str(s) => s,
        Value::Sym(s) => s,
        Value::Keyword(s) => s,
        Value::List(l) => "("@ + printed_items(l, l.len()) + ")"@,
        Value::Func(_) => "<std:fn>"@,
        Value::Closure { .. } => "<user:fn>"@,
    }
}

/// The printed forms of the first `n` items, one space apart.
pub open spec fn printed_items(items: Seq<Value>, n: nat) -> Seq<char>
    decreases items, n,
{
    if n == 0 || n > items.len() {
        Seq::empty()
    } else if n == 1 {
        printed(items[0])
    } else {
        printed_items(items, (n - 1) as nat) + " "@ + printed(items[n - 1])
    }
}

impl MalType {
    /// The printed form of the value.
    pub fn pr_str(&self) -> (r: String)
        ensures
            r@ == printed(self@),
        decreases self,
    {
        proof {
            lemma_view_items(*self);
        }
        match self {
            MalType::Nil => String::from_str("nil"),
            MalType::Bool(true) => String::from_str("true"),
            MalType::Bool(false) => String::from_str("false"),
            MalType::Int(n) => int_to_string(*n),
            MalType::Str(s) => s.clone(),
            MalType::Sym(s) => s.clone(),
            MalType::Keyword(s) => s.clone(),
            MalType::List(l) => {
                let mut out = String::from_str("(");
                let inner = print_items(l);
                out.append(inner.as_str());
                out.append(")");
                out
            },
            MalType::Func(_) => String::from_str("<std:fn>"),
            MalType::MalFunc { .. } => String::from_str("<user:fn>"),
        }
    }
}

/// The printed forms of the items, one space apart.
pub fn print_items(items: &Vec<MalType>) -> (r: String)
    ensures
        r@ == printed_items(views(items@), items@.len()),
    decreases items,
{
    let mut out = String::new();
    let mut i: usize = 0;
    while i < items.len()
        invariant
            i <= items.len(),
            out@ == printed_items(views(items@), i as nat),
        decreases items.len() - i,
    {
        if i > 0 {
            out.append(" ");
        }
        let piece = items[i].pr_str();
        out.append(piece.as_str());
        assert(out@ =~= printed_items(views(items@), (i + 1) as nat));
        i += 1;
    }
    out
}

} // verus!
