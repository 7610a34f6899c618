//! Ordering and equality between values.
//!
//! Ordering is defined per variant: characters, integers and text compare by
//! value, arrays compare lexicographically, and blocks only compare equal, by
//! their operator token texts pairwise.  Any other pairing is not ordered.

use vstd::prelude::*;

use core::cmp::Ordering;

use crate::value::OpModel;
use crate::value::Val;
use crate::value::Value;

verus! {

/// Lexicographic order on character sequences, by code point.
pub open spec fn spec_cmp_chars(x: Seq<char>, y: Seq<char>) -> Ordering
    decreases x.len(),
{
    if x.len() == 0 && y.len() == 0 {
        Ordering::Equal
    } else if x.len() == 0 {
        Ordering::Less
    } else if y.len() == 0 {
        Ordering::Greater
    } else if (x[0] as u32) < (y[0] as u32) {
        Ordering::Less
    } else if (x[0] as u32) > (y[0] as u32) {
        Ordering::Greater
    } else {
        spec_cmp_chars(x.subrange(1, x.len() as int), y.subrange(1, y.len() as int))
    }
}

/// Block equality: operator token texts are compared pairwise over the
/// shorter block's length.
pub open spec fn spec_block_eq(x: Seq<OpModel>, y: Seq<OpModel>) -> bool {
    forall|i: int| 0 <= i < x.len() && i < y.len() ==> x[i].text == y[i].text
}

/// Lexicographic order on value sequences; the first unordered pair of
/// elements makes the whole comparison unordered.
pub open spec fn spec_cmp_vals(x: Seq<Val>, y: Seq<Val>) -> Option<Ordering>
    decreases x,
{
    if x.len() == 0 && y.len() == 0 {
        Some(Ordering::Equal)
    } else if x.len() == 0 {
        Some(Ordering::Less)
    } else if y.len() == 0 {
        Some(Ordering::Greater)
    } else {
        match spec_partial_cmp(x[0], y[0]) {
            Some(Ordering::Equal) => spec_cmp_vals(
                x.subrange(1, x.len() as int),
                y.subrange(1, y.len() as int),
            ),
            r => r,
        }
    }
}

/// The partial order between two values.
pub open spec fn spec_partial_cmp(a: Val, b: Val) -> Option<Ordering>
    decreases a,
{
    match (a, b) {
        (Val::Char(c0), Val::Char(c1)) => Some(spec_cmp_u32(c0 as u32, c1 as u32)),
        (Val::Integer(i0), Val::Integer(i1)) => Some(spec_cmp_i64(i0, i1)),
        (Val::Str(s0), Val::Str(s1)) => Some(spec_cmp_chars(s0, s1)),
        (Val::Array(a0), Val::Array(a1)) => spec_cmp_vals(a0, a1),
        (Val::Block(b0), Val::Block(b1)) => if spec_block_eq(b0, b1) {
            Some(Ordering::Equal)
        } else {
            None
        },
        _ => None,
    }
}

/// Two values are equal when they compare as `Equal`.
pub open spec fn spec_value_eq(a: Val, b: Val) -> bool {
    spec_partial_cmp(a, b) == Some(Ordering::Equal)
}

pub open spec fn spec_cmp_u32(a: u32, b: u32) -> Ordering {
    if a < b {
        Ordering::Less
    } else if a > b {
        Ordering::Greater
    } else {
        Ordering::Equal
    }
}

pub open spec fn spec_cmp_i64(a: i64, b: i64) -> Ordering {
    if a < b {
        Ordering::Less
    } else if a > b {
        Ordering::Greater
    } else {
        Ordering::Equal
    }
}

/// Comparing two character sequences with an equal prefix compares their
/// remainders.
proof fn lemma_cmp_chars_skip(x: Seq<char>, y: Seq<char>, i: int)
    requires
        0 <= i <= x.len(),
        i <= y.len(),
        forall|j: int| 0 <= j < i ==> x[j] == y[j],
    ensures
        spec_cmp_chars(x, y) == spec_cmp_chars(
            x.subrange(i, x.len() as int),
            y.subrange(i, y.len() as int),
        ),
    decreases i,
{
    if i == 0 {
        assert(x.subrange(0, x.len() as int) =~= x);
        assert(y.subrange(0, y.len() as int) =~= y);
    } else {
        let x1 = x.subrange(1, x.len() as int);
        let y1 = y.subrange(1, y.len() as int);
        lemma_cmp_chars_skip(x1, y1, i - 1);
        assert(x1.subrange(i - 1, x1.len() as int) =~= x.subrange(i, x.len() as int));
        assert(y1.subrange(i - 1, y1.len() as int) =~= y.subrange(i, y.len() as int));
    }
}

/// Comparing two value sequences whose prefixes compare equal compares their
/// remainders.
proof fn lemma_cmp_vals_skip(x: Seq<Val>, y: Seq<Val>, i: int)
    requires
        0 <= i <= x.len(),
        i <= y.len(),
        forall|j: int| 0 <= j < i ==> spec_partial_cmp(x[j], y[j]) == Some(Ordering::Equal),
    ensures
        spec_cmp_vals(x, y) == spec_cmp_vals(
            x.subrange(i, x.len() as int),
            y.subrange(i, y.len() as int),
        ),
    decreases i,
{
    if i == 0 {
        assert(x.subrange(0, x.len() as int) =~= x);
        assert(y.subrange(0, y.len() as int) =~= y);
    } else {
        let x1 = x.subrange(1, x.len() as int);
        let y1 = y.subrange(1, y.len() as int);
        lemma_cmp_vals_skip(x1, y1, i - 1);
        assert(x1.subrange(i - 1, x1.len() as int) =~= x.subrange(i, x.len() as int));
        assert(y1.subrange(i - 1, y1.len() as int) =~= y.subrange(i, y.len() as int));
    }
}

/// Whether two character sequences are equal, by one pass.
pub fn chars_eq(a: &Vec<char>, b: &Vec<char>) -> (r: bool)
    ensures
        r <==> a@ == b@,
{
    broadcast use vstd::utf8::char_is_scalar, vstd::utf8::char_u32_cast;

    if a.len() != b.len() {
        return false;
    }
    let mut i: usize = 0;
    while i < a.len()
        invariant
            i <= a@.len(),
            a@.len() == b@.len(),
            forall|j: int| 0 <= j < i ==> a@[j] == b@[j],
        decreases a@.len() - i,
    {
        if a[i] as u32 != b[i] as u32 {
            return false;
        }
        proof {
            vstd::utf8::char_u32_cast(a@[i as int], a@[i as int] as u32);
            vstd::utf8::char_u32_cast(b@[i as int], b@[i as int] as u32);
        }
        i = i + 1;
    }
    proof {
        assert(a@ =~= b@);
    }
    true
}

/// Compare two character sequences lexicographically.
pub fn cmp_chars(a: &Vec<char>, b: &Vec<char>) -> (r: Ordering)
    ensures
        r == spec_cmp_chars(a@, b@),
{
    broadcast use vstd::utf8::char_is_scalar, vstd::utf8::char_u32_cast;

    let mut i: usize = 0;
    loop
        invariant
            i <= a@.len(),
            i <= b@.len(),
            forall|j: int| 0 <= j < i ==> a@[j] == b@[j],
        decreases a@.len() - i,
    {
        proof {
            lemma_cmp_chars_skip(a@, b@, i as int);
        }
        if i >= a.len() && i >= b.len() {
            return Ordering::Equal;
        }
        if i >= a.len() {
            return Ordering::Less;
        }
        if i >= b.len() {
            return Ordering::Greater;
        }
        let ca = a[i] as u32;
        let cb = b[i] as u32;
        if ca < cb {
            return Ordering::Less;
        }
        if ca > cb {
            return Ordering::Greater;
        }
        proof {
            vstd::utf8::char_u32_cast(a@[i as int], ca);
            vstd::utf8::char_u32_cast(b@[i as int], cb);
        }
        i = i + 1;
    }
}

impl Value {
    /// The partial order between this value and another, as
    /// `spec_partial_cmp` states it.
    pub fn partial_cmp(&self, other: &Value) -> (r: Option<Ordering>)
        ensures
            r == spec_partial_cmp(self@, other@),
        decreases *self,
    {
        broadcast use crate::value::lemma_vals_of;

        match (self, other) {
            (Value::Char(c0), Value::Char(c1)) => {
                let a = *c0 as u32;
                let b = *c1 as u32;
                if a < b {
                    Some(Ordering::Less)
                } else if a > b {
                    Some(Ordering::Greater)
                } else {
                    Some(Ordering::Equal)
                }
            },
            (Value::Integer(i0), Value::Integer(i1)) => {
                if *i0 < *i1 {
                    Some(Ordering::Less)
                } else if *i0 > *i1 {
                    Some(Ordering::Greater)
                } else {
                    Some(Ordering::Equal)
                }
            },
            (Value::Str(s0), Value::Str(s1)) => Some(cmp_chars(s0, s1)),
            (Value::Array(a0), Value::Array(a1)) => cmp_value_vecs(a0, a1),
            (Value::Block(b0), Value::Block(b1)) => {
                if blocks_eq(b0, b1) {
                    Some(Ordering::Equal)
                } else {
                    None
                }
            },
            _ => None,
        }
    }

    /// Whether this value equals another under the value ordering.
    pub fn eq_value(&self, other: &Value) -> (r: bool)
        ensures
            r == spec_value_eq(self@, other@),
    {
        let c = self.partial_cmp(other);
        match c {
            Some(Ordering::Equal) => true,
            _ => false,
        }
    }
}

/// Compare two value sequences lexicographically, elementwise.
fn cmp_value_vecs(a: &Vec<Value>, b: &Vec<Value>) -> (r: Option<Ordering>)
    ensures
        r == spec_cmp_vals(crate::value::vals_of(a@), crate::value::vals_of(b@)),
    decreases a@,
{
    broadcast use crate::value::lemma_vals_of;

    let ghost x = crate::value::vals_of(a@);
    let ghost y = crate::value::vals_of(b@);
    let mut i: usize = 0;
    loop
        invariant
            x == crate::value::vals_of(a@),
            y == crate::value::vals_of(b@),
            x.len() == a@.len(),
            y.len() == b@.len(),
            i <= a@.len(),
            i <= b@.len(),
            forall|j: int| 0 <= j < i ==> spec_partial_cmp(x[j], y[j]) == Some(Ordering::Equal),
        decreases a@.len() - i,
    {
        proof {
            lemma_cmp_vals_skip(x, y, i as int);
        }
        if i >= a.len() && i >= b.len() {
            return Some(Ordering::Equal);
        }
        if i >= a.len() {
            return Some(Ordering::Less);
        }
        if i >= b.len() {
            return Some(Ordering::Greater);
        }
        let c = a[i].partial_cmp(&b[i]);
        proof {
            crate::value::lemma_vals_of(a@);
            crate::value::lemma_vals_of(b@);
            assert(x[i as int] == crate::value::val_of(a@[i as int]));
            assert(y[i as int] == crate::value::val_of(b@[i as int]));
        }
        match c {
            Some(Ordering::Equal) => {
                i = i + 1;
            },
            r => {
                return r;
            },
        }
    }
}

/// Whether two blocks are equal: operator token texts pairwise over the
/// shorter length.
fn blocks_eq(a: &std::rc::Rc<Vec<crate::ops::Op>>, b: &std::rc::Rc<Vec<crate::ops::Op>>) -> (r:
    bool)
    ensures
        r == spec_block_eq(crate::value::ops_model(a@), crate::value::ops_model(b@)),
{
    let av: &Vec<crate::ops::Op> = &**a;
    let bv: &Vec<crate::ops::Op> = &**b;
    let ghost x = crate::value::ops_model(a@);
    let ghost y = crate::value::ops_model(b@);
    let n: usize = if av.len() < bv.len() {
        av.len()
    } else {
        bv.len()
    };
    let mut i: usize = 0;
    while i < n
        invariant
            x == crate::value::ops_model(a@),
            y == crate::value::ops_model(b@),
            x == crate::value::ops_model(av@),
            y == crate::value::ops_model(bv@),
            x.len() == av@.len(),
            y.len() == bv@.len(),
            n == if av@.len() < bv@.len() { av@.len() } else { bv@.len() },
            i <= n,
            forall|j: int| 0 <= j < i ==> x[j].text == y[j].text,
        decreases n - i,
    {
        proof {
            assert(x[i as int] == crate::value::op_model(av@[i as int]));
            assert(y[i as int] == crate::value::op_model(bv@[i as int]));
        }
        if !chars_eq(&av[i].text, &bv[i].text) {
            assert(x[i as int].text != y[i as int].text);
            assert(!spec_block_eq(x, y));
            return false;
        }
        i = i + 1;
    }
    true
}

} // verus!
