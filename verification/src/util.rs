//! One value or several: what a collapsed sub-stack yields.

use vstd::prelude::*;

use crate::value::vals_of;
use crate::value::Val;
use crate::value::Value;

verus! {

/// One thing, or more of them.
#[derive(Debug)]
pub enum OneOrMore<T> {
    One(T),
    More(Vec<T>),
}

impl OneOrMore<Value> {
    /// One value stays itself; more become an array.
    pub fn into_value(self) -> (r: Value)
        ensures
            self matches OneOrMore::One(v) ==> r == v,
            self matches OneOrMore::More(vs) ==> r@ == Val::Array(vals_of(vs@)),
    {
        match self {
            OneOrMore::One(v) => v,
            OneOrMore::More(vs) => Value::Array(vs),
        }
    }
}

} // verus!
