//! The dynamic value model: the tagged union of runtime values, its
//! mathematical model, and its truthiness rule.  Coercions, ordering and
//! arithmetic live in the sibling modules.

use vstd::prelude::*;

use std::rc::Rc;

use crate::ops::Op;
use crate::ops::OpKind;

verus! {

/// A runtime value.  Blocks hold their operator list behind a shared,
/// reference-counted handle, so copying a block onto the stack never deep
/// clones the list and a block can be run many times without re-parsing.
#[derive(Debug, PartialEq, Eq)]
pub enum Value {
    /// A single code point.
    Char(char),
    /// A 64-bit signed integer.
    Integer(i64),
    /// Owned text, kept as its sequence of code points.
    Str(Vec<char>),
    /// An ordered, heterogeneous sequence of values.
    Array(Vec<Value>),
    /// A stored, unexecuted, shared list of resolved operators.
    Block(Rc<Vec<Op>>),
}

/// The mathematical model of an operator: its kind and its token text.
#[verifier::ext_equal]
pub ghost struct OpModel {
    pub kind: OpKind,
    pub text: Seq<char>,
}

/// The mathematical model of a runtime value.
#[verifier::ext_equal]
pub ghost enum Val {
    Char(char),
    Integer(i64),
    Str(Seq<char>),
    Array(Seq<Val>),
    Block(Seq<OpModel>),
}

/// The model of one operator.
pub open spec fn op_model(o: Op) -> OpModel {
    OpModel { kind: o.kind, text: o.text@ }
}

/// The model of an operator list.
pub open spec fn ops_model(s: Seq<Op>) -> Seq<OpModel> {
    s.map_values(|o: Op| op_model(o))
}

impl View for Op {
    type V = OpModel;

    open spec fn view(&self) -> OpModel {
        op_model(*self)
    }
}

/// The model of a value.
pub open spec fn val_of(v: Value) -> Val
    decreases v,
{
    match v {
        Value::Char(c) => Val::Char(c),
        Value::Integer(i) => Val::Integer(i),
        Value::Str(s) => Val::Str(s@),
        Value::Array(a) => Val::Array(vals_of(a@)),
        Value::Block(b) => Val::Block(ops_model(b@)),
    }
}

/// The model of a value sequence, elementwise.
pub open spec fn vals_of(s: Seq<Value>) -> Seq<Val>
    decreases s,
{
    if s.len() == 0 {
        Seq::empty()
    } else {
        vals_of(s.subrange(0, s.len() - 1)).push(val_of(s[s.len() - 1]))
    }
}

impl View for Value {
    type V = Val;

    open spec fn view(&self) -> Val {
        val_of(*self)
    }
}

/// The model of a value sequence has the same length and holds the models of
/// its elements.
pub broadcast proof fn lemma_vals_of(s: Seq<Value>)
    ensures
        (#[trigger] vals_of(s)).len() == s.len(),
        forall|i: int| 0 <= i < s.len() ==> vals_of(s)[i] == val_of(s[i]),
    decreases s,
{
    if s.len() > 0 {
        lemma_vals_of(s.subrange(0, s.len() - 1));
    }
}

/// Two value sequences with pointwise equal models have equal models.
pub proof fn lemma_vals_of_pointwise(s: Seq<Value>, t: Seq<Value>)
    requires
        s.len() == t.len(),
        forall|i: int| 0 <= i < s.len() ==> val_of(s[i]) == val_of(t[i]),
    ensures
        vals_of(s) == vals_of(t),
{
    broadcast use lemma_vals_of;

    assert(vals_of(s) =~= vals_of(t));
}

/// Appending to a value sequence appends to its model.
pub broadcast proof fn lemma_vals_of_push(s: Seq<Value>, v: Value)
    ensures
        #[trigger] vals_of(s.push(v)) == vals_of(s).push(val_of(v)),
{
    assert(s.push(v).subrange(0, s.push(v).len() - 1) =~= s);
    assert(s.push(v)[s.push(v).len() - 1] == v);
}

/// Dropping a value sequence's last element drops its model's last.
pub proof fn lemma_vals_of_drop_last(s: Seq<Value>)
    requires
        s.len() > 0,
    ensures
        vals_of(s.drop_last()) == vals_of(s).drop_last(),
        vals_of(s).last() == val_of(s.last()),
{
    broadcast use lemma_vals_of;

    assert(vals_of(s.drop_last()) =~= vals_of(s).drop_last());
}

/// A character always satisfies its type's invariant, so wrapping one read
/// out of a collection into a value is transparent to the model.
pub proof fn lemma_char_value(c: char)
    ensures
        val_of(Value::Char(c)) == Val::Char(c),
{
}

/// An integer always satisfies its type's invariant, so wrapping one into a
/// value is transparent to the model.
pub proof fn lemma_int_value(i: i64)
    ensures
        val_of(Value::Integer(i)) == Val::Integer(i),
{
}

/// Pushing a character value onto a ghost sequence behaves as pushing any
/// value does; stated for characters read out of ghost text.
pub proof fn lemma_char_val_push(c: char, s: Seq<Val>)
    ensures
        s.push(Val::Char(c)).len() == s.len() + 1,
        s.push(Val::Char(c))[s.len() as int] == Val::Char(c),
        s.push(Val::Char(c)).drop_last() == s,
{
}

/// Pushing a character onto ghost text behaves as pushing any character
/// does; stated for characters read out of ghost text.
pub proof fn lemma_char_push(c: char, s: Seq<char>)
    ensures
        s.push(c).len() == s.len() + 1,
        s.push(c)[s.len() as int] == c,
        s.push(c).drop_last() == s,
{
    assert(s.push(c).drop_last() =~= s);
}

/// The boolean reading of a value: zero-like and empty values are false,
/// everything else, including any block, is true.
pub open spec fn spec_truthy(v: Val) -> bool {
    match v {
        Val::Char(c) => c != '\0',
        Val::Integer(i) => i != 0,
        Val::Str(s) => s.len() != 0,
        Val::Array(a) => a.len() != 0,
        Val::Block(_) => true,
    }
}

/// Relies on `<Rc<T> as Clone>::clone`, which hands out a second owner of the
/// same shared list.
#[verifier::external_body]
fn clone_block(b: &Rc<Vec<Op>>) -> (r: Rc<Vec<Op>>)
    ensures
        r == *b,
{
    b.clone()
}

impl Value {
    /// The boolean reading of this value.
    pub fn truthy(&self) -> (r: bool)
        ensures
            r == spec_truthy(self@),
    {
        broadcast use lemma_vals_of;

        match self {
            Value::Char(c) => *c != '\0',
            Value::Integer(i) => *i != 0,
            Value::Str(s) => s.len() != 0,
            Value::Array(a) => a.len() != 0,
            Value::Block(_) => true,
        }
    }
}

impl Clone for Value {
    /// A copy whose model equals this value's model; blocks share their
    /// operator list instead of deep cloning it.
    fn clone(&self) -> (r: Self)
        ensures
            r@ == self@,
        decreases *self,
    {
        match self {
            Value::Char(c) => Value::Char(*c),
            Value::Integer(i) => Value::Integer(*i),
            Value::Str(s) => {
                let t = s.clone();
                proof {
                    assert(t@ =~= s@);
                }
                Value::Str(t)
            },
            Value::Array(a) => Value::Array(clone_values(a)),
            Value::Block(b) => Value::Block(clone_block(b)),
        }
    }
}

/// A copy of a character sequence.
pub fn clone_chars(s: &Vec<char>) -> (r: Vec<char>)
    ensures
        r@ == s@,
{
    let t = s.clone();
    proof {
        assert(t@ =~= s@);
    }
    t
}

/// A copy of a value sequence, elementwise, with an equal model.
pub fn clone_values(a: &Vec<Value>) -> (r: Vec<Value>)
    ensures
        r@.len() == a@.len(),
        forall|i: int| 0 <= i < a@.len() ==> val_of(r@[i]) == val_of(a@[i]),
        vals_of(r@) == vals_of(a@),
    decreases a@,
{
    let mut out: Vec<Value> = Vec::new();
    let mut i: usize = 0;
    while i < a.len()
        invariant
            i <= a@.len(),
            out@.len() == i,
            forall|j: int| 0 <= j < i ==> val_of(out@[j]) == val_of(a@[j]),
        decreases a@.len() - i,
    {
        let e = a[i].clone();
        out.push(e);
        i = i + 1;
    }
    proof {
        lemma_vals_of_pointwise(out@, a@);
    }
    out
}

} // verus!
