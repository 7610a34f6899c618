//! The stack: an ordered value sequence, 26 named variable slots, an
//! in-memory input cursor, and the text collected by the print operator.
//! Variable slots, input and collected output are shared by all sub-stacks
//! spawned from one root stack; the value sequence is local to each.

use vstd::prelude::*;

use vstd::pervasive::VecAdditionalExecFns;

use crate::error::RuntimeError;
use crate::value::val_of;
use crate::value::vals_of;
use crate::value::Val;
use crate::value::Value;

verus! {

/// The 26 variable slots, addressed by uppercase letter.
#[derive(Debug)]
pub struct Variables {
    pub slots: Vec<Value>,
}

/// The pre-seeded variable values: `A`-`F` hold 10-15, `N` the newline,
/// `S` the space, `X`, `Y`, `Z` hold 0, 1, 2; every other slot holds 0.
pub open spec fn spec_default_vars() -> Seq<Val> {
    Seq::new(
        26,
        |i: int| if 0 <= i < 6 {
            Val::Integer((10 + i) as i64)
        } else if i == 13 {
            Val::Char('\n')
        } else if i == 18 {
            Val::Char(' ')
        } else if i == 23 {
            Val::Integer(0)
        } else if i == 24 {
            Val::Integer(1)
        } else if i == 25 {
            Val::Integer(2)
        } else {
            Val::Integer(0)
        },
    )
}

impl Variables {
    /// Whether the slot table is well formed: one slot per letter.
    pub open spec fn wf(&self) -> bool {
        self.slots@.len() == 26
    }

    /// The model of the slot table.
    pub open spec fn model(&self) -> Seq<Val> {
        vals_of(self.slots@)
    }
}

impl Default for Variables {
    /// The pre-seeded slot table.
    fn default() -> (r: Variables)
        ensures
            r.wf(),
            r.model() == spec_default_vars(),
    {
        let mut slots: Vec<Value> = Vec::new();
        let mut i: usize = 0;
        while i < 26
            invariant
                i <= 26,
                slots@.len() == i,
                forall|j: int| 0 <= j < i ==> val_of(slots@[j]) == spec_default_vars()[j],
            decreases 26 - i,
        {
            let v: Value = if i < 6 {
                Value::Integer(10 + i as i64)
            } else if i == 13 {
                Value::Char('\n')
            } else if i == 18 {
                Value::Char(' ')
            } else if i == 24 {
                Value::Integer(1)
            } else if i == 25 {
                Value::Integer(2)
            } else {
                Value::Integer(0)
            };
            slots.push(v);
            i = i + 1;
        }
        let r = Variables { slots };
        proof {
            crate::value::lemma_vals_of(r.slots@);
            assert(r.model() =~= spec_default_vars());
        }
        r
    }
}

/// The state one root stack shares with every sub-stack it spawns: the
/// variable slots, the input cursor and the collected print output.
#[derive(Debug)]
pub struct Shared {
    pub vars: Variables,
    pub input: Vec<char>,
    pub pos: usize,
    pub out: Vec<Vec<char>>,
}

/// The mathematical model of the shared state.
#[verifier::ext_equal]
pub ghost struct SharedModel {
    pub vars: Seq<Val>,
    pub input: Seq<char>,
    pub pos: int,
    pub out: Seq<Seq<char>>,
}

/// The texts of collected output lines, elementwise.
pub open spec fn outs_of(s: Seq<Vec<char>>) -> Seq<Seq<char>> {
    s.map_values(|l: Vec<char>| l@)
}

impl View for Shared {
    type V = SharedModel;

    open spec fn view(&self) -> SharedModel {
        SharedModel {
            vars: vals_of(self.vars.slots@),
            input: self.input@,
            pos: self.pos as int,
            out: outs_of(self.out@),
        }
    }
}

/// Whether the shared state is well formed.
pub open spec fn wf_shared(sh: Shared) -> bool {
    sh.vars.wf() && sh.pos <= sh.input@.len()
}

/// The model of a fresh shared state bound to the given input text.
pub open spec fn spec_fresh_shared(input: Seq<char>) -> SharedModel {
    SharedModel { vars: spec_default_vars(), input: input, pos: 0, out: Seq::empty() }
}

/// The ordered value sequence (top at the end) together with the shared
/// state.
#[derive(Debug)]
pub struct Stack {
    pub s: Vec<Value>,
    pub sh: Shared,
}

impl Stack {
    /// Whether the stack is well formed.
    pub open spec fn wf(&self) -> bool {
        wf_shared(self.sh)
    }

    /// The model of the value sequence, bottom to top.
    pub open spec fn model(&self) -> Seq<Val> {
        vals_of(self.s@)
    }

    /// A stack with no input.
    pub fn new() -> (r: Stack)
        ensures
            r.wf(),
            r.s@.len() == 0,
            r.model() == Seq::<Val>::empty(),
            r.sh.vars.model() == spec_default_vars(),
            r.sh.input@.len() == 0,
            r.sh.out@.len() == 0,
    {
        let s = Stack {
            s: Vec::new(),
            sh: Shared { vars: Variables::default(), input: Vec::new(), pos: 0, out: Vec::new() },
        };
        proof {
            crate::value::lemma_vals_of(s.s@);
            assert(s.model() =~= Seq::<Val>::empty());
        }
        s
    }

    /// A stack bound to the given input text.
    pub fn with_input(input: Vec<char>) -> (r: Stack)
        ensures
            r.wf(),
            r.s@.len() == 0,
            r.model() == Seq::<Val>::empty(),
            r.sh.vars.model() == spec_default_vars(),
            r.sh.input@ == input@,
            r.sh.pos == 0,
            r.sh.out@.len() == 0,
    {
        let s = Stack {
            s: Vec::new(),
            sh: Shared { vars: Variables::default(), input, pos: 0, out: Vec::new() },
        };
        proof {
            crate::value::lemma_vals_of(s.s@);
            assert(s.model() =~= Seq::<Val>::empty());
        }
        s
    }

    /// Push a value on top.
    pub fn push(&mut self, v: Value)
        ensures
            final(self).s@ == old(self).s@.push(v),
            final(self).sh == old(self).sh,
            final(self).model() == old(self).model().push(v@),
    {
        let ghost olds = self.s@;
        let ghost vg = v;
        self.s.push(v);
        proof {
            crate::value::lemma_vals_of_push(olds, vg);
        }
    }

    /// Pop the top value; an empty stack is a stack-empty error.
    pub fn pop(&mut self) -> (r: Result<Value, RuntimeError>)
        ensures
            final(self).sh == old(self).sh,
            old(self).s@.len() == 0 ==> (r == Err::<Value, RuntimeError>(
                RuntimeError::StackEmpty,
            ) && final(self).s@ == old(self).s@),
            old(self).s@.len() > 0 ==> (r matches Ok(v) && v == old(self).s@.last()
                && final(self).s@ == old(self).s@.drop_last()),
    {
        let r = self.s.pop();
        match r {
            Some(v) => {
                proof {
                    assert(self.s@ =~= old(self).s@.drop_last());
                }
                Ok(v)
            },
            None => Err(RuntimeError::StackEmpty),
        }
    }

    /// The number of values on the stack.
    pub fn len(&self) -> (r: usize)
        ensures
            r == self.s@.len(),
    {
        self.s.len()
    }

    /// Whether the stack holds no values.
    pub fn is_empty(&self) -> (r: bool)
        ensures
            r == (self.s@.len() == 0),
    {
        self.s.len() == 0
    }

    /// The values, bottom to top, consuming the stack.
    pub fn into_vec(self) -> (r: Vec<Value>)
        ensures
            r@ == self.s@,
    {
        self.s
    }

    /// The values, bottom to top, leaving the stack empty.
    pub fn take(&mut self) -> (r: Vec<Value>)
        ensures
            r@ == old(self).s@,
            final(self).s@.len() == 0,
            final(self).sh == old(self).sh,
    {
        let mut t: Vec<Value> = Vec::new();
        core::mem::swap(&mut t, &mut self.s);
        t
    }

    /// The top value, without removing it; an empty stack is a stack-empty
    /// error.
    pub fn top(&self) -> (r: Result<&Value, RuntimeError>)
        ensures
            self.s@.len() == 0 ==> (r matches Err(e) && e == RuntimeError::StackEmpty),
            self.s@.len() > 0 ==> (r matches Ok(v) && v@ == self.model().last()),
    {
        proof {
            if self.s@.len() > 0 {
                crate::value::lemma_vals_of_drop_last(self.s@);
            }
        }
        if self.s.len() == 0 {
            Err(RuntimeError::StackEmpty)
        } else {
            Ok(&self.s[self.s.len() - 1])
        }
    }

    /// Push a copy of the named variable slot (an uppercase letter).
    pub fn push_var(&mut self, var: char)
        requires
            old(self).wf(),
            65 <= (var as u32) <= 90,
        ensures
            final(self).wf(),
            final(self).sh == old(self).sh,
            final(self).model() == old(self).model().push(
                old(self).sh.vars.model()[(var as u32) - 65],
            ),
    {
        proof {
            crate::value::lemma_vals_of(self.sh.vars.slots@);
        }
        let idx = (var as u32 - 65) as usize;
        let v = self.sh.vars.slots[idx].clone();
        self.push(v);
    }

    /// Store a copy of the top value into the named variable slot, leaving
    /// the stack unchanged; an empty stack is a stack-empty error.
    pub fn pop_var(&mut self, var: char) -> (r: Result<(), RuntimeError>)
        requires
            old(self).wf(),
            65 <= (var as u32) <= 90,
        ensures
            final(self).wf(),
            final(self).s@ == old(self).s@,
            final(self).sh.input == old(self).sh.input,
            final(self).sh.pos == old(self).sh.pos,
            final(self).sh.out == old(self).sh.out,
            old(self).s@.len() == 0 ==> (r matches Err(e) && e == RuntimeError::StackEmpty
                && *final(self) == *old(self)),
            old(self).s@.len() > 0 ==> (r is Ok && final(self).sh.vars.model() == old(
                self,
            ).sh.vars.model().update((var as u32) - 65, old(self).model().last())),
    {
        proof {
            if self.s@.len() > 0 {
                crate::value::lemma_vals_of_drop_last(self.s@);
            }
        }
        if self.s.len() == 0 {
            return Err(RuntimeError::StackEmpty);
        }
        let v = self.s[self.s.len() - 1].clone();
        let idx = (var as u32 - 65) as usize;
        let ghost slots0 = self.sh.vars.slots@;
        self.sh.vars.slots.set(idx, v);
        proof {
            crate::value::lemma_vals_of(slots0);
            crate::value::lemma_vals_of(self.sh.vars.slots@);
            assert(vals_of(self.sh.vars.slots@) =~= vals_of(slots0).update(
                (var as u32) - 65,
                vals_of(old(self).s@).last(),
            ));
        }
        Ok(())
    }

    /// A copy of the value a number of positions below the top (0 is the
    /// top).
    pub fn get_from_end(&self, index: usize) -> (r: Option<Value>)
        ensures
            match r {
                Some(v) => index < self.s@.len() && v@ == val_of(
                    self.s@[self.s@.len() - 1 - index],
                ),
                None => index >= self.s@.len(),
            },
    {
        if index < self.s.len() {
            let v = self.s[self.s.len() - 1 - index].clone();
            Some(v)
        } else {
            None
        }
    }

    /// Collapse the stack to one value: empty is a stack-empty error, one
    /// value is returned as is, more are packed into an array in stack
    /// order.
    pub fn take_as_value(&mut self) -> (r: Result<Value, RuntimeError>)
        ensures
            final(self).sh == old(self).sh,
            final(self).s@.len() == 0,
            old(self).s@.len() == 0 ==> r == Err::<Value, RuntimeError>(
                RuntimeError::StackEmpty,
            ),
            old(self).s@.len() == 1 ==> (r matches Ok(v) && v@ == old(self).model()[0]),
            old(self).s@.len() > 1 ==> (r matches Ok(v) && v@ == Val::Array(old(self).model())),
    {
        broadcast use crate::value::lemma_vals_of;

        if self.s.len() == 0 {
            Err(RuntimeError::StackEmpty)
        } else if self.s.len() == 1 {
            let r = self.pop();
            match r {
                Ok(v) => {
                    proof {
                        assert(val_of(old(self).s@.last()) == old(self).model()[0]);
                    }
                    Ok(v)
                },
                Err(_) => {
                    proof {
                        assert(false);
                    }
                    Err(RuntimeError::StackEmpty)
                },
            }
        } else {
            let vs = self.take();
            Ok(Value::Array(vs))
        }
    }
}

} // verus!
