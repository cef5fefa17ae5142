//! The table of primitives and what each of them computes.

use crate::types::{clone_items, outcome, views, Builtin, MalErr, MalType, Value};
use vstd::prelude::*;

verus! {

/// The 32-bit two's complement integer that `x` wraps to.
pub open spec fn wrap32(x: int) -> i32 {
    let r = x % 0x1_0000_0000;
    if r > i32::MAX {
        (r - 0x1_0000_0000) as i32
    } else {
        r as i32
    }
}

/// The size of an integer without its sign.
pub open spec fn magnitude(a: int) -> int {
    if a < 0 {
        -a
    } else {
        a
    }
}

/// The quotient of `a` by a non-zero `b`, rounded toward zero.
pub open spec fn quotient(a: int, b: int) -> int {
    let q = magnitude(a) / magnitude(b);
    if (a < 0) != (b < 0) {
        -q
    } else {
        q
    }
}

/// Whether `=` holds of two values: nil, booleans, integers and strings by value,
/// lists item by item and of equal length; every other pairing is unequal.
pub open spec fn values_equal(a: Value, b: Value) -> bool
    decreases a,
{
    match a {
        Value::Nil => b is Nil,
        Value::Bool(x) => b == Value::Bool(x),
        Value::Int(x) => b == Value::Int(x),
        Value::Str(x) => b == Value::Str(x),
        Value::List(x) => match b {
            Value::List(y) => x.len() == y.len() && forall|i: int|
                0 <= i < x.len() ==> values_equal(#[trigger] x[i], y[i]),
            _ => false,
        },
        _ => false,
    }
}

/// Whether two values are of one type among those that `=` compares.
pub open spec fn comparable(a: Value, b: Value) -> bool {
    ||| a is Nil && b is Nil
    ||| a is Bool && b is Bool
    ||| a is Int && b is Int
    ||| a is Str && b is Str
    ||| a is List && b is List
}

/// `=` never holds across types: an integer equals no string, `nil` is not `false`, and
/// a list equals no atom.
pub proof fn lemma_equal_within_type(a: Value, b: Value)
    requires
        values_equal(a, b),
    ensures
        comparable(a, b),
{
}

/// What a primitive of arithmetic or comparison gives for two integers.
pub open spec fn int_op(f: Builtin, a: i32, b: i32) -> Result<Value, MalErr> {
    match f {
        Builtin::Add => Ok(Value::Int(wrap32(a + b))),
        Builtin::Sub => Ok(Value::Int(wrap32(a - b))),
        Builtin::Mul => Ok(Value::Int(wrap32(a * b))),
        Builtin::Div => if b == 0 {
            Err(MalErr::DivisionByZero)
        } else {
            Ok(Value::Int(wrap32(quotient(a as int, b as int))))
        },
        Builtin::Less => Ok(Value::Bool(a < b)),
        Builtin::LessEq => Ok(Value::Bool(a <= b)),
        Builtin::Greater => Ok(Value::Bool(a > b)),
        Builtin::GreaterEq => Ok(Value::Bool(a >= b)),
        _ => Err(MalErr::ArityOrTypeError),
    }
}

/// What a primitive gives for one argument.
pub open spec fn unary_op(f: Builtin, a: Value) -> Result<Value, MalErr> {
    match f {
        Builtin::Count => match a {
            Value::List(l) => Ok(Value::Int(wrap32(l.len() as int))),
            _ => Ok(Value::Int(1)),
        },
        Builtin::IsList => Ok(Value::Bool(a is List)),
        Builtin::IsEmpty => match a {
            Value::List(l) => Ok(Value::Bool(l.len() == 0)),
            _ => Ok(Value::Bool(false)),
        },
        _ => Err(MalErr::ArityOrTypeError),
    }
}

/// What applying a primitive to its evaluated arguments gives.
pub open spec fn builtin_result(f: Builtin, args: Seq<Value>) -> Result<Value, MalErr> {
    match f {
        Builtin::MakeList => Ok(Value::List(args)),
        Builtin::Equal => if args.len() == 2 {
            Ok(Value::Bool(values_equal(args[0], args[1])))
        } else {
            Err(MalErr::ArityOrTypeError)
        },
        Builtin::Count | Builtin::IsList | Builtin::IsEmpty => if args.len() == 1 {
            unary_op(f, args[0])
        } else {
            Err(MalErr::ArityOrTypeError)
        },
        _ => if args.len() == 2 {
            match (args[0], args[1]) {
                (Value::Int(a), Value::Int(b)) => int_op(f, a, b),
                _ => Err(MalErr::ArityOrTypeError),
            }
        } else {
            Err(MalErr::ArityOrTypeError)
        },
    }
}

/// The names of the primitives, in the order of the table.
pub open spec fn ns_names() -> Seq<Seq<char>> {
    seq![
        "+"@, "-"@, "*"@, "/"@, "="@, "<"@, "<="@, ">"@, ">="@, "count"@, "list"@, "list?"@,
        "empty?"@,
    ]
}

/// The primitives, in the order of the table.
pub open spec fn ns_values() -> Seq<Value> {
    seq![
        Value::Func(Builtin::Add),
        Value::Func(Builtin::Sub),
        Value::Func(Builtin::Mul),
        Value::Func(Builtin::Div),
        Value::Func(Builtin::Equal),
        Value::Func(Builtin::Less),
        Value::Func(Builtin::LessEq),
        Value::Func(Builtin::Greater),
        Value::Func(Builtin::GreaterEq),
        Value::Func(Builtin::Count),
        Value::Func(Builtin::MakeList),
        Value::Func(Builtin::IsList),
        Value::Func(Builtin::IsEmpty),
    ]
}

/// The names of a table's entries, in order.
pub open spec fn entry_names(table: Seq<(&'static str, MalType)>) -> Seq<Seq<char>> {
    Seq::new(table.len(), |i: int| table[i].0@)
}

/// The values of a table's entries, in order.
pub open spec fn entry_values(table: Seq<(&'static str, MalType)>) -> Seq<Value> {
    Seq::new(table.len(), |i: int| table[i].1@)
}

/// The table of primitives: each name with the primitive it stands for.
pub fn ns() -> (table: Vec<(&'static str, MalType)>)
    ensures
        entry_names(table@) == ns_names(),
        entry_values(table@) == ns_values(),
{
    let mut table: Vec<(&'static str, MalType)> = Vec::new();
    table.push(("+", MalType::Func(Builtin::Add)));
    table.push(("-", MalType::Func(Builtin::Sub)));
    table.push(("*", MalType::Func(Builtin::Mul)));
    table.push(("/", MalType::Func(Builtin::Div)));
    table.push(("=", MalType::Func(Builtin::Equal)));
    table.push(("<", MalType::Func(Builtin::Less)));
    table.push(("<=", MalType::Func(Builtin::LessEq)));
    table.push((">", MalType::Func(Builtin::Greater)));
    table.push((">=", MalType::Func(Builtin::GreaterEq)));
    table.push(("count", MalType::Func(Builtin::Count)));
    table.push(("list", MalType::Func(Builtin::MakeList)));
    table.push(("list?", MalType::Func(Builtin::IsList)));
    table.push(("empty?", MalType::Func(Builtin::IsEmpty)));
    assert(entry_names(table@) =~= ns_names());
    assert(entry_values(table@) =~= ns_values());
    table
}

/// Whether `=` holds of two values.
pub fn equal(a: &MalType, b: &MalType) -> (r: bool)
    ensures
        r == values_equal(a@, b@),
    decreases a,
{
    proof {
        crate::types::lemma_view_items(*a);
        crate::types::lemma_view_items(*b);
    }
    match a {
        MalType::Nil => match b {
            MalType::Nil => true,
            _ => false,
        },
        MalType::Bool(x) => match b {
            MalType::Bool(y) => *x == *y,
            _ => false,
        },
        MalType::Int(x) => match b {
            MalType::Int(y) => *x == *y,
            _ => false,
        },
        MalType::Str(x) => match b {
            MalType::Str(y) => *x == *y,
            _ => false,
        },
        MalType::List(x) => match b {
            MalType::List(y) => equal_items(x, y),
            _ => false,
        },
        _ => false,
    }
}

/// Whether two sequences have the same length and `=` holds of their items, place by place.
pub fn equal_items(x: &Vec<MalType>, y: &Vec<MalType>) -> (r: bool)
    ensures
        r == (x@.len() == y@.len() && forall|i: int|
            0 <= i < x@.len() ==> values_equal(#[trigger] views(x@)[i], views(y@)[i])),
    decreases x,
{
    if x.len() != y.len() {
        return false;
    }
    let mut i: usize = 0;
    while i < x.len()
        invariant
            i <= x.len(),
            x.len() == y.len(),
            forall|j: int| 0 <= j < i ==> values_equal(#[trigger] views(x@)[j], views(y@)[j]),
        decreases x.len() - i,
    {
        if !equal(&x[i], &y[i]) {
            assert(!values_equal(views(x@)[i as int], views(y@)[i as int]));
            return false;
        }
        i += 1;
    }
    true
}

/// Wrapping addition, subtraction and multiplication are the exact result wrapped to 32 bits.
proof fn lemma_wrapping(a: i32, b: i32)
    ensures
        a.wrapping_add(b) == wrap32(a + b),
        a.wrapping_sub(b) == wrap32(a - b),
        a.wrapping_mul(b) == wrap32(a * b),
{
}

/// Applies a primitive of arithmetic or comparison to two integers.
fn apply_int_op(f: Builtin, a: i32, b: i32) -> (r: Result<MalType, MalErr>)
    ensures
        outcome(r) == int_op(f, a, b),
{
    proof {
        lemma_wrapping(a, b);
        if b != 0 {
            vstd::arithmetic::div_mod::lemma_div_basics(magnitude(b as int));
        }
    }
    match f {
        Builtin::Add => Ok(MalType::Int(a.wrapping_add(b))),
        Builtin::Sub => Ok(MalType::Int(a.wrapping_sub(b))),
        Builtin::Mul => Ok(MalType::Int(a.wrapping_mul(b))),
        Builtin::Div => {
            if b == 0 {
                Err(MalErr::DivisionByZero)
            } else {
                match a.checked_div(b) {
                    Some(q) => Ok(MalType::Int(q)),
                    None => Ok(MalType::Int(a)),
                }
            }
        },
        Builtin::Less => Ok(MalType::Bool(a < b)),
        Builtin::LessEq => Ok(MalType::Bool(a <= b)),
        Builtin::Greater => Ok(MalType::Bool(a > b)),
        Builtin::GreaterEq => Ok(MalType::Bool(a >= b)),
        _ => Err(MalErr::ArityOrTypeError),
    }
}

/// A length as an integer of the language.
fn length_as_int(n: usize) -> (r: i32)
    ensures
        r == wrap32(n as int),
{
    let m: u64 = (n as u64) % 0x1_0000_0000u64;
    if m > 0x7fff_ffffu64 {
        ((m as i64) - 0x1_0000_0000i64) as i32
    } else {
        m as i32
    }
}

/// Applies a primitive to its evaluated arguments.
pub fn apply(f: Builtin, args: &Vec<MalType>) -> (r: Result<MalType, MalErr>)
    ensures
        outcome(r) == builtin_result(f, views(args@)),
{
    match f {
        Builtin::MakeList => {
            let items = clone_items(args);
            let r = MalType::List(items);
            proof {
                crate::types::lemma_view_items(r);
            }
            Ok(r)
        },
        Builtin::Equal => {
            if args.len() == 2 {
                Ok(MalType::Bool(equal(&args[0], &args[1])))
            } else {
                Err(MalErr::ArityOrTypeError)
            }
        },
        Builtin::Count | Builtin::IsList | Builtin::IsEmpty => {
            if args.len() == 1 {
                proof {
                    crate::types::lemma_view_items(args@[0]);
                }
                match (f, &args[0]) {
                    (Builtin::Count, MalType::List(l)) => Ok(MalType::Int(length_as_int(l.len()))),
                    (Builtin::Count, _) => Ok(MalType::Int(1)),
                    (Builtin::IsList, MalType::List(_)) => Ok(MalType::Bool(true)),
                    (Builtin::IsEmpty, MalType::List(l)) => Ok(MalType::Bool(l.len() == 0)),
                    _ => Ok(MalType::Bool(false)),
                }
            } else {
                Err(MalErr::ArityOrTypeError)
            }
        },
        _ => {
            if args.len() == 2 {
                match (&args[0], &args[1]) {
                    (MalType::Int(a), MalType::Int(b)) => apply_int_op(f, *a, *b),
                    _ => Err(MalErr::ArityOrTypeError),
                }
            } else {
                Err(MalErr::ArityOrTypeError)
            }
        },
    }
}

} // verus!
