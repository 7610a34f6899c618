//! The arithmetic, bitwise and comparison operator tables of the value
//! model: binary numeric operations with checked integer arithmetic, the
//! addition and multiplication special cases on text and arrays, slicing and
//! indexing, and the power / substring-search operator.

use vstd::prelude::*;

use core::cmp::Ordering;

use crate::cmp::spec_partial_cmp;
use crate::ops::BinaryOp;
use crate::error::res_model;
use crate::error::ErrVal;
use crate::error::RuntimeError;
use crate::strings::spec_byte_len;
use crate::strings::spec_find_from;
use crate::strings::spec_repeat;
use crate::strings::spec_split;
use crate::value::lemma_vals_of;
use crate::value::val_of;
use crate::value::vals_of;
use crate::value::Val;
use crate::value::Value;

verus! {

/// An invalid-operation error over two operands.
pub open spec fn err2(a: Val, b: Val, name: Seq<char>) -> Result<Val, ErrVal> {
    Err(ErrVal::InvalidOperation(seq![a, b], name))
}

/// Build the invalid-operation error over two operands.
pub fn op_err2(a: Value, b: Value, name: &'static str) -> (r: Result<Value, RuntimeError>)
    ensures
        res_model(r) == err2(a@, b@, name@),
{
    let ghost av = a@;
    let ghost bv = b@;
    let mut vs: Vec<Value> = Vec::new();
    vs.push(a);
    vs.push(b);
    proof {
        lemma_vals_of(vs@);
        assert(vals_of(vs@) =~= seq![av, bv]);
    }
    Err(RuntimeError::InvalidOperation(vs, name))
}

/// Concatenation of two character vectors.
pub fn concat_chars(a: Vec<char>, b: &Vec<char>) -> (r: Vec<char>)
    ensures
        r@ == a@ + b@,
{
    let mut a = a;
    crate::render::push_all(&mut a, b);
    a
}

/// Concatenation of two value vectors, models preserved.
pub fn concat_values(a: Vec<Value>, b: &Vec<Value>) -> (r: Vec<Value>)
    ensures
        vals_of(r@) == vals_of(a@) + vals_of(b@),
{
    let ghost av = a@;
    let mut out = a;
    let mut i: usize = 0;
    while i < b.len()
        invariant
            i <= b@.len(),
            out@.len() == av.len() + i,
            out@.subrange(0, av.len() as int) == av,
            forall|j: int| 0 <= j < i ==> val_of(out@[av.len() + j]) == val_of(b@[j]),
        decreases b@.len() - i,
    {
        let e = b[i].clone();
        out.push(e);
        proof {
            assert(out@.subrange(0, av.len() as int) =~= av);
        }
        i = i + 1;
    }
    proof {
        lemma_vals_of(out@);
        lemma_vals_of(av);
        lemma_vals_of(b@);
        assert(vals_of(out@) =~= vals_of(av) + vals_of(b@));
    }
    out
}

/// A value pushed at the front of a value vector, models preserved.
pub fn prepend_value(v: Value, b: Vec<Value>) -> (r: Vec<Value>)
    ensures
        vals_of(r@) == seq![v@] + vals_of(b@),
{
    let ghost vv = v@;
    let mut out: Vec<Value> = Vec::new();
    out.push(v);
    let r = concat_values(out, &b);
    proof {
        lemma_vals_of(out@);
        assert(vals_of(out@) =~= seq![vv]);
    }
    r
}

/// A value sequence repeated a number of times.
pub open spec fn spec_repeat_vals(s: Seq<Val>, n: int) -> Seq<Val>
    decreases n,
{
    if n <= 0 {
        Seq::empty()
    } else {
        spec_repeat_vals(s, n - 1) + s
    }
}

/// The repetition of a value vector, as `spec_repeat_vals` states it.
pub fn repeat_values(s: &Vec<Value>, n: u64) -> (r: Vec<Value>)
    ensures
        vals_of(r@) == spec_repeat_vals(vals_of(s@), n as int),
{
    let mut out: Vec<Value> = Vec::new();
    let mut k: u64 = 0;
    proof {
        lemma_vals_of(out@);
        assert(vals_of(out@) =~= Seq::<Val>::empty());
    }
    while k < n
        invariant
            k <= n,
            vals_of(out@) == spec_repeat_vals(vals_of(s@), k as int),
        decreases n - k,
    {
        let ghost before = out@;
        let piece = crate::value::clone_values(s);
        let next = concat_values(out, &piece);
        out = next;
        proof {
            assert(vals_of(out@) =~= spec_repeat_vals(vals_of(s@), k as int + 1));
        }
        k = k + 1;
    }
    out
}

/// How addition combines two values.
pub open spec fn spec_add(a: Val, b: Val) -> Result<Val, ErrVal> {
    match (a, b) {
        (Val::Integer(i1), Val::Integer(i2)) => match i1.checked_add(i2) {
            Some(v) => Ok(Val::Integer(v)),
            None => err2(a, b, "add"@),
        },
        (Val::Char(c0), Val::Char(c1)) => Ok(
            Val::Char(((c0 as u8).wrapping_add(c1 as u8)) as char),
        ),
        (Val::Char(c), Val::Integer(i)) => Ok(
            Val::Char(((c as u8).wrapping_add(i as u8)) as char),
        ),
        (Val::Str(s1), Val::Str(s2)) => Ok(Val::Str(s1 + s2)),
        (Val::Str(s), _) => match crate::casts::spec_to_str_chars(b) {
            Ok(t) => Ok(Val::Str(s + t)),
            Err(e) => Err(e),
        },
        (Val::Char(c), Val::Str(s)) => Ok(Val::Str(seq![c] + s)),
        (Val::Array(a1), Val::Array(a2)) => Ok(Val::Array(a1 + a2)),
        (Val::Array(a1), _) => Ok(Val::Array(a1.push(b))),
        (_, Val::Array(a1)) => Ok(Val::Array(seq![a] + a1)),
        _ => err2(a, b, "add"@),
    }
}

/// How subtraction combines two values.
pub open spec fn spec_sub(a: Val, b: Val) -> Result<Val, ErrVal> {
    match (a, b) {
        (Val::Integer(i1), Val::Integer(i2)) => match i1.checked_sub(i2) {
            Some(v) => Ok(Val::Integer(v)),
            None => err2(a, b, "sub"@),
        },
        (Val::Char(c), Val::Integer(i)) => Ok(
            Val::Char(((c as u8).wrapping_sub(i as u8)) as char),
        ),
        _ => err2(a, b, "sub"@),
    }
}

/// How multiplication combines two values; a block operand is the engine's
/// fold and never reaches this table.
pub open spec fn spec_mul(a: Val, b: Val) -> Result<Val, ErrVal> {
    match (a, b) {
        (Val::Integer(i1), Val::Integer(i2)) => match i1.checked_mul(i2) {
            Some(v) => Ok(Val::Integer(v)),
            None => err2(a, b, "mul"@),
        },
        (Val::Array(items), Val::Integer(i)) => Ok(
            Val::Array(spec_repeat_vals(items, if i < 0 { 0 } else { i as int })),
        ),
        (Val::Str(s), Val::Integer(i)) => Ok(
            Val::Str(spec_repeat(s, if i < 0 { 0 } else { i as int })),
        ),
        _ => err2(a, b, "mul"@),
    }
}

/// Text pieces as text values, elementwise.
pub open spec fn spec_str_pieces(ps: Seq<Seq<char>>) -> Seq<Val> {
    ps.map_values(|p: Seq<char>| Val::Str(p))
}

/// How division combines two values.
pub open spec fn spec_div(a: Val, b: Val) -> Result<Val, ErrVal> {
    match (a, b) {
        (Val::Integer(i1), Val::Integer(i2)) => match i1.checked_div(i2) {
            Some(v) => Ok(Val::Integer(v)),
            None => err2(a, b, "div"@),
        },
        (Val::Str(s), Val::Str(d)) => Ok(Val::Array(spec_str_pieces(spec_split(s, d)))),
        _ => err2(a, b, "div"@),
    }
}

/// How the remainder combines two values; a block operand is the engine's
/// map and never reaches this table.
pub open spec fn spec_rem(a: Val, b: Val) -> Result<Val, ErrVal> {
    match (a, b) {
        (Val::Integer(i1), Val::Integer(i2)) => match i1.checked_rem(i2) {
            Some(v) => Ok(Val::Integer(v)),
            None => err2(a, b, "rem"@),
        },
        _ => err2(a, b, "rem"@),
    }
}

/// How a bitwise operator combines two values: integers only.
pub open spec fn spec_bitand(a: Val, b: Val) -> Result<Val, ErrVal> {
    match (a, b) {
        (Val::Integer(i1), Val::Integer(i2)) => Ok(Val::Integer(i1 & i2)),
        _ => err2(a, b, "bitand"@),
    }
}

pub open spec fn spec_bitor(a: Val, b: Val) -> Result<Val, ErrVal> {
    match (a, b) {
        (Val::Integer(i1), Val::Integer(i2)) => Ok(Val::Integer(i1 | i2)),
        _ => err2(a, b, "bitor"@),
    }
}

pub open spec fn spec_bitxor(a: Val, b: Val) -> Result<Val, ErrVal> {
    match (a, b) {
        (Val::Integer(i1), Val::Integer(i2)) => Ok(Val::Integer(i1 ^ i2)),
        _ => err2(a, b, "bitxor"@),
    }
}

/// The short-circuit logical and at the value level: the second operand when
/// the first is truthy, else the first.
pub open spec fn spec_and(a: Val, b: Val) -> Val {
    if crate::value::spec_truthy(a) {
        b
    } else {
        a
    }
}

/// The short-circuit logical or at the value level: the first operand when
/// it is truthy, else the second.
pub open spec fn spec_or(a: Val, b: Val) -> Val {
    if crate::value::spec_truthy(a) {
        a
    } else {
        b
    }
}

/// The smaller operand under the value ordering; the first when they are
/// unordered or equal.
pub open spec fn spec_min(a: Val, b: Val) -> Val {
    if spec_partial_cmp(a, b) == Some(Ordering::Less) {
        a
    } else {
        b
    }
}

/// The larger operand under the value ordering; the first when they are
/// unordered or equal.
pub open spec fn spec_max(a: Val, b: Val) -> Val {
    if spec_partial_cmp(b, a) == Some(Ordering::Less) {
        a
    } else {
        b
    }
}

impl Value {
    /// Addition, as `spec_add` states it.
    pub fn add(self, other: Value) -> (r: Result<Value, RuntimeError>)
        ensures
            res_model(r) == spec_add(self@, other@),
    {
        match (self, other) {
            (Value::Integer(i1), Value::Integer(i2)) => match i1.checked_add(i2) {
                Some(v) => Ok(Value::Integer(v)),
                None => op_err2(Value::Integer(i1), Value::Integer(i2), "add"),
            },
            (Value::Char(c0), Value::Char(c1)) => {
                let x = ((c0 as u8).wrapping_add(c1 as u8)) as char;
                proof {
                    crate::value::lemma_char_value(x);
                }
                Ok(Value::Char(x))
            },
            (Value::Char(c), Value::Integer(i)) => {
                let x = ((c as u8).wrapping_add(i as u8)) as char;
                proof {
                    crate::value::lemma_char_value(x);
                }
                Ok(Value::Char(x))
            },
            (Value::Str(s1), Value::Str(s2)) => Ok(Value::Str(concat_chars(s1, &s2))),
            (Value::Str(s), any) => {
                let ghost anyv = any@;
                match any.to_str() {
                    Ok(t) => match t {
                        Value::Str(t) => Ok(Value::Str(concat_chars(s, &t))),
                        _ => {
                            proof {
                                assert(false);
                            }
                            Err(RuntimeError::StackEmpty)
                        },
                    },
                    Err(e) => Err(e),
                }
            },
            (Value::Char(c), Value::Str(s)) => {
                let mut out: Vec<char> = Vec::new();
                out.push(c);
                let r = concat_chars(out, &s);
                proof {
                    crate::value::lemma_char_value(c);
                    assert(r@ =~= seq![c] + s@);
                }
                Ok(Value::Str(r))
            },
            (Value::Array(a1), Value::Array(a2)) => {
                let r = concat_values(a1, &a2);
                assert(res_model(Ok::<Value, RuntimeError>(Value::Array(r)))
                    == spec_add(Value::Array(a1)@, Value::Array(a2)@));
                Ok(Value::Array(r))
            },
            (Value::Array(a1), any) => {
                let ghost a1v = vals_of(a1@);
                let ghost olds = a1@;
                let ghost anyg = any;
                let mut a1 = a1;
                a1.push(any);
                proof {
                    crate::value::lemma_vals_of_push(olds, anyg);
                    assert(a1@ == olds.push(anyg));
                    assert(vals_of(a1@) == a1v.push(anyg@));
                }
                Ok(Value::Array(a1))
            },
            (any, Value::Array(a1)) => {
                let ghost anyv = any@;
                let ghost a1v = vals_of(a1@);
                let r = prepend_value(any, a1);
                assert(vals_of(r@) == seq![anyv] + a1v);
                Ok(Value::Array(r))
            },
            (a, b) => op_err2(a, b, "add"),
        }
    }

    /// Subtraction, as `spec_sub` states it.
    pub fn sub(self, other: Value) -> (r: Result<Value, RuntimeError>)
        ensures
            res_model(r) == spec_sub(self@, other@),
    {
        match (self, other) {
            (Value::Integer(i1), Value::Integer(i2)) => match i1.checked_sub(i2) {
                Some(v) => Ok(Value::Integer(v)),
                None => op_err2(Value::Integer(i1), Value::Integer(i2), "sub"),
            },
            (Value::Char(c), Value::Integer(i)) => {
                let x = ((c as u8).wrapping_sub(i as u8)) as char;
                proof {
                    crate::value::lemma_char_value(x);
                }
                Ok(Value::Char(x))
            },
            (a, b) => op_err2(a, b, "sub"),
        }
    }

    /// Multiplication and repetition, as `spec_mul` states it.
    pub fn mul(self, other: Value) -> (r: Result<Value, RuntimeError>)
        ensures
            res_model(r) == spec_mul(self@, other@),
    {
        match (self, other) {
            (Value::Integer(i1), Value::Integer(i2)) => match i1.checked_mul(i2) {
                Some(v) => Ok(Value::Integer(v)),
                None => op_err2(Value::Integer(i1), Value::Integer(i2), "mul"),
            },
            (Value::Array(items), Value::Integer(i)) => {
                let n: u64 = if i < 0 {
                    0
                } else {
                    i as u64
                };
                Ok(Value::Array(repeat_values(&items, n)))
            },
            (Value::Str(s), Value::Integer(i)) => {
                let n: u64 = if i < 0 {
                    0
                } else {
                    i as u64
                };
                Ok(Value::Str(crate::strings::repeat_chars(&s, n)))
            },
            (a, b) => op_err2(a, b, "mul"),
        }
    }

    /// Division and text splitting, as `spec_div` states it.
    pub fn div(self, other: Value) -> (r: Result<Value, RuntimeError>)
        ensures
            res_model(r) == spec_div(self@, other@),
    {
        match (self, other) {
            (Value::Integer(i1), Value::Integer(i2)) => match i1.checked_div(i2) {
                Some(v) => Ok(Value::Integer(v)),
                None => op_err2(Value::Integer(i1), Value::Integer(i2), "div"),
            },
            (Value::Str(s), Value::Str(d)) => Ok(Value::Array(split_str(&s, &d))),
            (a, b) => op_err2(a, b, "div"),
        }
    }

    /// Integer remainder, as `spec_rem` states it.
    pub fn rem(self, other: Value) -> (r: Result<Value, RuntimeError>)
        ensures
            res_model(r) == spec_rem(self@, other@),
    {
        match (self, other) {
            (Value::Integer(i1), Value::Integer(i2)) => match i1.checked_rem(i2) {
                Some(v) => Ok(Value::Integer(v)),
                None => op_err2(Value::Integer(i1), Value::Integer(i2), "rem"),
            },
            (a, b) => op_err2(a, b, "rem"),
        }
    }

    /// Bitwise and, as `spec_bitand` states it.
    pub fn bitand(self, other: Value) -> (r: Result<Value, RuntimeError>)
        ensures
            res_model(r) == spec_bitand(self@, other@),
    {
        match (self, other) {
            (Value::Integer(i1), Value::Integer(i2)) => Ok(Value::Integer(i1 & i2)),
            (a, b) => op_err2(a, b, "bitand"),
        }
    }

    /// Bitwise or, as `spec_bitor` states it.
    pub fn bitor(self, other: Value) -> (r: Result<Value, RuntimeError>)
        ensures
            res_model(r) == spec_bitor(self@, other@),
    {
        match (self, other) {
            (Value::Integer(i1), Value::Integer(i2)) => Ok(Value::Integer(i1 | i2)),
            (a, b) => op_err2(a, b, "bitor"),
        }
    }

    /// Bitwise xor, as `spec_bitxor` states it.
    pub fn bitxor(self, other: Value) -> (r: Result<Value, RuntimeError>)
        ensures
            res_model(r) == spec_bitxor(self@, other@),
    {
        match (self, other) {
            (Value::Integer(i1), Value::Integer(i2)) => Ok(Value::Integer(i1 ^ i2)),
            (a, b) => op_err2(a, b, "bitxor"),
        }
    }

    /// The value-level logical and, as `spec_and` states it.
    pub fn and(self, other: Value) -> (r: Value)
        ensures
            r@ == spec_and(self@, other@),
    {
        if self.truthy() {
            other
        } else {
            self
        }
    }

    /// The value-level logical or, as `spec_or` states it.
    pub fn or(self, other: Value) -> (r: Value)
        ensures
            r@ == spec_or(self@, other@),
    {
        if self.truthy() {
            self
        } else {
            other
        }
    }

    /// The smaller operand, as `spec_min` states it.
    pub fn min(self, other: Value) -> (r: Result<Value, RuntimeError>)
        ensures
            res_model(r) == Ok::<Val, ErrVal>(spec_min(self@, other@)),
    {
        let c = self.partial_cmp(&other);
        match c {
            Some(Ordering::Less) => Ok(self),
            _ => Ok(other),
        }
    }

    /// The larger operand, as `spec_max` states it.
    pub fn max(self, other: Value) -> (r: Result<Value, RuntimeError>)
        ensures
            res_model(r) == Ok::<Val, ErrVal>(spec_max(self@, other@)),
    {
        let c = other.partial_cmp(&self);
        match c {
            Some(Ordering::Less) => Ok(self),
            _ => Ok(other),
        }
    }
}

/// Split text on a delimiter, pieces as text values, as `spec_split` states
/// it.
pub fn split_str(h: &Vec<char>, d: &Vec<char>) -> (r: Vec<Value>)
    ensures
        vals_of(r@) == spec_str_pieces(spec_split(h@, d@)),
{
    let mut out: Vec<Value> = Vec::new();
    if d.len() == 0 {
        let empty1: Vec<char> = Vec::new();
        out.push(Value::Str(empty1));
        let mut i: usize = 0;
        while i < h.len()
            invariant
                i <= h@.len(),
                out@.len() == i + 1,
                val_of(out@[0]) == Val::Str(Seq::<char>::empty()),
                forall|j: int| 0 <= j < i ==> val_of(out@[j + 1]) == Val::Str(seq![h@[j]]),
            decreases h@.len() - i,
        {
            let c = h[i];
            let mut piece: Vec<char> = Vec::new();
            piece.push(c);
            proof {
                assert(piece@ =~= seq![c]);
            }
            out.push(Value::Str(piece));
            i = i + 1;
        }
        let empty2: Vec<char> = Vec::new();
        out.push(Value::Str(empty2));
        proof {
            lemma_vals_of(out@);
            assert(vals_of(out@) =~= spec_str_pieces(spec_split(h@, d@)));
        }
        return out;
    }
    let hn = h.len();
    let mut cur: usize = 0;
    proof {
        lemma_vals_of(out@);
        assert(vals_of(out@) + spec_str_pieces(spec_split_tail(h@, d@, 0)) =~= spec_str_pieces(spec_split(h@, d@)));
    }
    loop
        invariant
            d@.len() > 0,
            cur <= h@.len(),
            hn == h@.len(),
            vals_of(out@) + spec_str_pieces(spec_split_tail(h@, d@, cur as int))
                == spec_str_pieces(spec_split(h@, d@)),
        decreases h@.len() - cur,
    {
        let found = crate::strings::find_sub_from(h, d, cur);
        let ghost tail_here = spec_split_tail(h@, d@, cur as int);
        match found {
            Some(i) => {
                proof {
                    crate::strings::lemma_find_from_bounds(h@, d@, cur as int);
                }
                let piece = copy_range(h, cur, i);
                let ghost before = out@;
                out.push(Value::Str(piece));
                proof {
                    lemma_vals_of(out@);
                    lemma_vals_of(before);
                    assert(out@.subrange(0, out@.len() - 1) =~= before);
                    assert(vals_of(out@) =~= vals_of(before).push(
                        Val::Str(h@.subrange(cur as int, i as int)),
                    ));
                    assert(tail_here == seq![h@.subrange(cur as int, i as int)]
                        + spec_split_tail(h@, d@, i + d@.len()));
                    assert(vals_of(out@) + spec_str_pieces(spec_split_tail(h@, d@, i + d@.len()))
                        =~= spec_str_pieces(spec_split(h@, d@)));
                }
                cur = i + d.len();
            },
            None => {
                let piece = copy_range(h, cur, hn);
                let ghost before = out@;
                out.push(Value::Str(piece));
                proof {
                    lemma_vals_of(out@);
                    lemma_vals_of(before);
                    assert(out@.subrange(0, out@.len() - 1) =~= before);
                    assert(vals_of(out@) =~= vals_of(before).push(
                        Val::Str(h@.subrange(cur as int, h@.len() as int)),
                    ));
                    assert(tail_here == seq![h@.subrange(cur as int, h@.len() as int)]);
                    assert(vals_of(out@) =~= spec_str_pieces(spec_split(h@, d@)));
                }
                return out;
            },
        }
    }
}

/// The pieces of the haystack from `start` on, as `spec_split_from` names
/// them; a bridge for loop reasoning.
pub open spec fn spec_split_tail(h: Seq<char>, d: Seq<char>, start: int) -> Seq<Seq<char>> {
    crate::strings::spec_split_from(h, d, start)
}

/// A copy of the characters between two indices.
pub fn copy_range(h: &Vec<char>, from: usize, to: usize) -> (r: Vec<char>)
    requires
        from <= to <= h@.len(),
    ensures
        r@ == h@.subrange(from as int, to as int),
{
    let mut out: Vec<char> = Vec::new();
    let mut i = from;
    while i < to
        invariant
            from <= i <= to <= h@.len(),
            out@ == h@.subrange(from as int, i as int),
        decreases to - i,
    {
        out.push(h[i]);
        assert(out@ =~= h@.subrange(from as int, i as int + 1));
        i = i + 1;
    }
    out
}

/// A boolean as the integer value the comparison operators push.
pub open spec fn bool_val(b: bool) -> Val {
    Val::Integer(
        if b {
            1
        } else {
            0
        },
    )
}

/// How `>` combines two values: keep the last elements of an array or text,
/// or compare.
pub open spec fn spec_gt(a: Val, b: Val) -> Result<Val, ErrVal> {
    match (a, b) {
        (Val::Array(arr), Val::Integer(i)) => if i > arr.len() || i < 0 {
            err2(a, b, "slice_begining"@)
        } else {
            Ok(Val::Array(arr.subrange(arr.len() - i, arr.len() as int)))
        },
        (Val::Str(t), Val::Integer(i)) => if i > t.len() || i < 0 {
            err2(a, b, "str_begining"@)
        } else {
            Ok(Val::Str(t.subrange(t.len() - i, t.len() as int)))
        },
        _ => Ok(bool_val(spec_partial_cmp(a, b) == Some(Ordering::Greater))),
    }
}

/// How `<` combines two values: keep the first elements of an array or text,
/// or compare.
pub open spec fn spec_lt(a: Val, b: Val) -> Result<Val, ErrVal> {
    match (a, b) {
        (Val::Array(arr), Val::Integer(i)) => if i > arr.len() || i < 0 {
            err2(a, b, "slice_end"@)
        } else {
            Ok(Val::Array(arr.subrange(0, i as int)))
        },
        (Val::Str(t), Val::Integer(i)) => if i > t.len() || i < 0 {
            err2(a, b, "str_end"@)
        } else {
            Ok(Val::Str(t.subrange(0, i as int)))
        },
        _ => Ok(bool_val(spec_partial_cmp(a, b) == Some(Ordering::Less))),
    }
}

/// How `=` combines two values: index an array or text, or compare for
/// equality.
pub open spec fn spec_eq_op(a: Val, b: Val) -> Result<Val, ErrVal> {
    match (a, b) {
        (Val::Array(arr), Val::Integer(i)) => if 0 <= i < arr.len() {
            Ok(arr[i as int])
        } else {
            err2(a, b, "index"@)
        },
        (Val::Str(t), Val::Integer(i)) => if 0 <= i < t.len() {
            Ok(Val::Char(t[i as int]))
        } else {
            err2(a, b, "index"@)
        },
        _ => Ok(bool_val(spec_partial_cmp(a, b) == Some(Ordering::Equal))),
    }
}

/// A copy of the values between two indices, models preserved.
pub fn copy_values_range(a: &Vec<Value>, from: usize, to: usize) -> (r: Vec<Value>)
    requires
        from <= to <= a@.len(),
    ensures
        vals_of(r@) == vals_of(a@).subrange(from as int, to as int),
{
    let mut out: Vec<Value> = Vec::new();
    let mut i = from;
    while i < to
        invariant
            from <= i <= to <= a@.len(),
            out@.len() == i - from,
            forall|j: int| 0 <= j < out@.len() ==> val_of(out@[j]) == val_of(a@[from + j]),
        decreases to - i,
    {
        let e = a[i].clone();
        out.push(e);
        i = i + 1;
    }
    proof {
        lemma_vals_of(out@);
        lemma_vals_of(a@);
        assert(vals_of(out@) =~= vals_of(a@).subrange(from as int, to as int));
    }
    out
}

/// Apply `>`, as `spec_gt` states it.
pub fn op_gt(a: Value, b: Value) -> (r: Result<Value, RuntimeError>)
    ensures
        res_model(r) == spec_gt(a@, b@),
{
    match (a, b) {
        (Value::Array(arr), Value::Integer(i)) => {
            proof {
                lemma_vals_of(arr@);
            }
            if i < 0 || i as u64 > arr.len() as u64 {
                op_err2(Value::Array(arr), Value::Integer(i), "slice_begining")
            } else {
                let kept = copy_values_range(&arr, arr.len() - i as usize, arr.len());
                Ok(Value::Array(kept))
            }
        },
        (Value::Str(t), Value::Integer(i)) => {
            if i < 0 || i as u64 > t.len() as u64 {
                op_err2(Value::Str(t), Value::Integer(i), "str_begining")
            } else {
                let kept = copy_range(&t, t.len() - i as usize, t.len());
                Ok(Value::Str(kept))
            }
        },
        (a, b) => {
            let c = a.partial_cmp(&b);
            match c {
                Some(Ordering::Greater) => Ok(Value::Integer(1)),
                _ => Ok(Value::Integer(0)),
            }
        },
    }
}

/// Apply `<`, as `spec_lt` states it.
pub fn op_lt(a: Value, b: Value) -> (r: Result<Value, RuntimeError>)
    ensures
        res_model(r) == spec_lt(a@, b@),
{
    match (a, b) {
        (Value::Array(arr), Value::Integer(i)) => {
            proof {
                lemma_vals_of(arr@);
            }
            if i < 0 || i as u64 > arr.len() as u64 {
                op_err2(Value::Array(arr), Value::Integer(i), "slice_end")
            } else {
                let kept = copy_values_range(&arr, 0, i as usize);
                Ok(Value::Array(kept))
            }
        },
        (Value::Str(t), Value::Integer(i)) => {
            if i < 0 || i as u64 > t.len() as u64 {
                op_err2(Value::Str(t), Value::Integer(i), "str_end")
            } else {
                let kept = copy_range(&t, 0, i as usize);
                Ok(Value::Str(kept))
            }
        },
        (a, b) => {
            let c = a.partial_cmp(&b);
            match c {
                Some(Ordering::Less) => Ok(Value::Integer(1)),
                _ => Ok(Value::Integer(0)),
            }
        },
    }
}

/// Apply `=`, as `spec_eq_op` states it.
pub fn op_eq(a: Value, b: Value) -> (r: Result<Value, RuntimeError>)
    ensures
        res_model(r) == spec_eq_op(a@, b@),
{
    match (a, b) {
        (Value::Array(arr), Value::Integer(i)) => {
            proof {
                lemma_vals_of(arr@);
            }
            if 0 <= i && (i as u64) < arr.len() as u64 {
                let e = arr[i as usize].clone();
                Ok(e)
            } else {
                op_err2(Value::Array(arr), Value::Integer(i), "index")
            }
        },
        (Value::Str(t), Value::Integer(i)) => {
            if 0 <= i && (i as u64) < t.len() as u64 {
                let c = t[i as usize];
                proof {
                    crate::value::lemma_char_value(c);
                }
                Ok(Value::Char(c))
            } else {
                op_err2(Value::Str(t), Value::Integer(i), "index")
            }
        },
        (a, b) => {
            let c = a.partial_cmp(&b);
            match c {
                Some(Ordering::Equal) => Ok(Value::Integer(1)),
                _ => Ok(Value::Integer(0)),
            }
        },
    }
}

/// The byte index of the first occurrence of the needle, or -1.
pub open spec fn spec_find_byte(h: Seq<char>, n: Seq<char>) -> i64 {
    match spec_find_from(h, n, 0) {
        Some(i) => spec_byte_len(h.subrange(0, i)) as i64,
        None => -1i64,
    }
}

/// The byte index of the first occurrence of the needle, or -1, as
/// `spec_find_byte` states it.
pub fn find_byte(h: &Vec<char>, n: &Vec<char>) -> (r: i64)
    ensures
        r == spec_find_byte(h@, n@),
{
    let found = crate::strings::find_sub_from(h, n, 0);
    match found {
        Some(i) => {
            proof {
                crate::strings::lemma_find_from_bounds(h@, n@, 0);
            }
            let b = crate::strings::byte_len_upto(h, i);
            #[verifier::truncate] (b as i64)
        },
        None => -1,
    }
}

/// How `#` combines two values: checked integer power, or substring search
/// in text, returning the byte index of the match or -1.
pub open spec fn spec_pow_val(a: Val, b: Val) -> Result<Val, ErrVal> {
    match (a, b) {
        (Val::Integer(i1), Val::Integer(i2)) => if i2 < 0 {
            err2(a, b, "pow_with_negative_number"@)
        } else if i2 > 0xFFFFFFFF {
            err2(a, b, "pow_too_large"@)
        } else if i64::MIN <= vstd::arithmetic::power::pow(i1 as int, i2 as nat) <= i64::MAX {
            Ok(Val::Integer(vstd::arithmetic::power::pow(i1 as int, i2 as nat) as i64))
        } else {
            err2(a, b, "pow"@)
        },
        (Val::Str(h), Val::Str(n)) => Ok(Val::Integer(spec_find_byte(h, n))),
        (Val::Str(h), Val::Char(c)) => Ok(Val::Integer(spec_find_byte(h, seq![c]))),
        _ => err2(a, b, "pow_substr"@),
    }
}

/// The magnitude of a power with a base of magnitude at least two is at
/// least one, and at least two from the first power on.
proof fn lemma_pow_abs_at_least(b: int, m: nat)
    requires
        b <= -2 || b >= 2,
    ensures
        vstd::arithmetic::power::pow(b, m) >= 1 || vstd::arithmetic::power::pow(b, m) <= -1,
        m >= 1 ==> (vstd::arithmetic::power::pow(b, m) >= 2 || vstd::arithmetic::power::pow(b, m)
            <= -2),
    decreases m,
{
    if m == 0 {
        vstd::arithmetic::power::lemma_pow0(b);
    } else {
        lemma_pow_abs_at_least(b, (m - 1) as nat);
        let prev = vstd::arithmetic::power::pow(b, (m - 1) as nat);
        reveal(vstd::arithmetic::power::pow);
        assert(vstd::arithmetic::power::pow(b, m) == b * prev);
        assert(b * prev >= 2 || b * prev <= -2) by (nonlinear_arith)
            requires (b <= -2 || b >= 2) && (prev >= 1 || prev <= -1);
    }
}

/// A power of a base between minus one and one stays between minus one and
/// one.
proof fn lemma_pow_small(b: int, m: nat)
    requires
        -1 <= b <= 1,
    ensures
        -1 <= vstd::arithmetic::power::pow(b, m) <= 1,
    decreases m,
{
    reveal(vstd::arithmetic::power::pow);
    if m >= 1 {
        lemma_pow_small(b, (m - 1) as nat);
        let prev = vstd::arithmetic::power::pow(b, (m - 1) as nat);
        assert(-1 <= b * prev <= 1) by (nonlinear_arith)
            requires -1 <= b <= 1 && -1 <= prev <= 1;
    }
}

/// Raise an integer to a power, exactly when the result fits the 64-bit
/// signed range.
pub fn pow_i64(base: i64, exp: u32) -> (r: Option<i64>)
    ensures
        match r {
            Some(v) => i64::MIN <= vstd::arithmetic::power::pow(base as int, exp as nat)
                <= i64::MAX && v == vstd::arithmetic::power::pow(base as int, exp as nat),
            None => !(i64::MIN <= vstd::arithmetic::power::pow(base as int, exp as nat)
                <= i64::MAX),
        },
{
    let mut acc: i128 = 1;
    let mut k: u32 = 0;
    proof {
        vstd::arithmetic::power::lemma_pow0(base as int);
    }
    while k < exp
        invariant
            k <= exp,
            acc == vstd::arithmetic::power::pow(base as int, k as nat),
            -0x8000000000000000i128 <= acc <= 0x7fffffffffffffffi128,
        decreases exp - k,
    {
        proof {
            assert(acc * (base as i128) <= 0x40000000000000000000000000000000i128 && acc * (
            base as i128) >= -0x40000000000000000000000000000000i128) by (nonlinear_arith)
                requires
                    -0x8000000000000000i128 <= acc <= 0x7fffffffffffffffi128,
                    -0x8000000000000000i128 <= (base as i128) <= 0x7fffffffffffffffi128;
        }
        let next: i128 = acc * (base as i128);
        proof {
            reveal(vstd::arithmetic::power::pow);
            assert(vstd::arithmetic::power::pow(base as int, (k + 1) as nat) == (base as int)
                * vstd::arithmetic::power::pow(base as int, k as nat));
            assert(next == acc * (base as i128));
            assert((next as int) == vstd::arithmetic::power::pow(base as int, (k + 1) as nat))
                by (nonlinear_arith)
                requires
                    next == acc * (base as i128),
                    acc == vstd::arithmetic::power::pow(base as int, k as nat),
                    vstd::arithmetic::power::pow(base as int, (k + 1) as nat) == (base as int)
                        * vstd::arithmetic::power::pow(base as int, k as nat);
        }
        if next > 0x7fffffffffffffffi128 || next < -0x8000000000000000i128 {
            if k + 1 < exp {
                proof {
                    let bi = base as int;
                    let m = (exp - k - 1) as nat;
                    if -1 <= base && base <= 1 {
                        lemma_pow_small(bi, k as nat);
                        assert(-1 <= acc <= 1);
                        assert(-1 <= next <= 1) by (nonlinear_arith)
                            requires
                                next == acc * (base as i128),
                                -1 <= acc <= 1,
                                -1 <= (base as i128) <= 1;
                    }
                    assert(base <= -2 || base >= 2);
                    lemma_pow_abs_at_least(bi, m);
                    vstd::arithmetic::power::lemma_pow_adds(bi, (k + 1) as nat, m);
                    let q = vstd::arithmetic::power::pow(bi, m);
                    let e = vstd::arithmetic::power::pow(bi, exp as nat);
                    assert(e == next * q);
                    assert(e > i64::MAX || e < i64::MIN) by (nonlinear_arith)
                        requires
                            e == (next as int) * q,
                            (next as int) > 0x7fffffffffffffff || (next as int)
                                < -0x8000000000000000,
                            q >= 2 || q <= -2;
                }
            }
            return None;
        }
        acc = next;
        k = k + 1;
    }
    Some(acc as i64)
}

impl Value {
    /// Apply `#`, as `spec_pow_val` states it.
    pub fn pow(self, other: Value) -> (r: Result<Value, RuntimeError>)
        ensures
            res_model(r) == spec_pow_val(self@, other@),
    {
        match (self, other) {
            (Value::Integer(i1), Value::Integer(i2)) => {
                if i2 < 0 {
                    op_err2(Value::Integer(i1), Value::Integer(i2), "pow_with_negative_number")
                } else if i2 > 0xFFFFFFFFi64 {
                    op_err2(Value::Integer(i1), Value::Integer(i2), "pow_too_large")
                } else {
                    proof {
                        assert(i2 as u32 == i2 as int) by (bit_vector)
                            requires 0 <= i2 <= 0xFFFFFFFFi64;
                    }
                    let p = pow_i64(i1, i2 as u32);
                    match p {
                        Some(v) => Ok(Value::Integer(v)),
                        None => op_err2(Value::Integer(i1), Value::Integer(i2), "pow"),
                    }
                }
            },
            (Value::Str(h), Value::Str(n)) => {
                let idx = find_byte(&h, &n);
                Ok(Value::Integer(idx))
            },
            (Value::Str(h), Value::Char(c)) => {
                let mut needle: Vec<char> = Vec::new();
                needle.push(c);
                proof {
                    assert(needle@ =~= seq![c]);
                }
                let idx = find_byte(&h, &needle);
                Ok(Value::Integer(idx))
            },
            (a, b) => op_err2(a, b, "pow_substr"),
        }
    }
}


/// Whether a binary operator, on these operands, works through the value
/// tables alone: a block second operand makes `*` a fold and `%` a map,
/// which run sub-programs instead.
pub open spec fn spec_binary_is_pure(b: BinaryOp, x: Val, y: Val) -> bool {
    &&& !(b == BinaryOp::Mul && x is Array && y is Block)
    &&& !(b == BinaryOp::Rem && (x is Array || x is Str) && y is Block)
}

/// What each pure binary operator yields on two operands.
pub open spec fn spec_binary_pure(b: BinaryOp, x: Val, y: Val) -> Result<Val, ErrVal> {
    match b {
        BinaryOp::Add => spec_add(x, y),
        BinaryOp::Sub => spec_sub(x, y),
        BinaryOp::Mul => spec_mul(x, y),
        BinaryOp::Div => spec_div(x, y),
        BinaryOp::BitAnd => spec_bitand(x, y),
        BinaryOp::BitOr => spec_bitor(x, y),
        BinaryOp::BitXor => spec_bitxor(x, y),
        BinaryOp::Rem => spec_rem(x, y),
        BinaryOp::EagerAnd => Ok(spec_and(x, y)),
        BinaryOp::EagerOr => Ok(spec_or(x, y)),
        BinaryOp::Min => Ok(spec_min(x, y)),
        BinaryOp::Max => Ok(spec_max(x, y)),
        BinaryOp::Greater => spec_gt(x, y),
        BinaryOp::Less => spec_lt(x, y),
        BinaryOp::Equal => spec_eq_op(x, y),
        BinaryOp::Pow => spec_pow_val(x, y),
    }
}

} // verus!
