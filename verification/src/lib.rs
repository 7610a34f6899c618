//! A verified interpreter for a terse, stack-based, golf-style notation.
//!
//! Programs are whitespace-separated tokens evaluated left to right against a
//! single value stack.  The crate provides the tokenizer, the dynamic value
//! model with its coercion and ordering rules, the operator resolver, and the
//! stack machine together with the block-application semantics (fold, map,
//! filter, sort, while) that run sub-programs against isolated value stacks.
//!
//! Input is an in-memory text the stack reads from; what the print operator
//! emits is collected on the stack and handed back to the caller.

pub mod arith;
pub mod casts;
pub mod cmp;
pub mod engine;
pub mod error;
pub mod laws;
pub mod ops;
pub mod render;
pub mod stack;
pub mod strings;
pub mod tokens;
pub mod util;
pub mod value;

pub use crate::error::Error;
pub use crate::stack::Stack;
pub use crate::value::Value;

use vstd::prelude::*;

verus! {

/// A persistent interpreter session: lines are fed one at a time against
/// one long-lived stack, and an error in a line leaves the stack as the
/// failing line left it without ending the session.
pub struct Repl {
    stack: Stack,
}

impl Repl {
    /// Whether the session's stack is well formed.
    pub closed spec fn wf(&self) -> bool {
        self.stack.wf()
    }

    /// The model of the session's value stack, bottom to top.
    pub closed spec fn model(&self) -> Seq<crate::value::Val> {
        self.stack.model()
    }

    /// A session whose stack reads the given input text.
    pub fn new(input: &str) -> (r: Repl)
        ensures
            r.wf(),
            r.model() == Seq::<crate::value::Val>::empty(),
    {
        Repl { stack: Stack::with_input(crate::strings::str_to_chars(input)) }
    }

    /// Run one more line against the session's stack; an error is handed
    /// back for the caller to report, and the session continues.
    pub fn next_line(&mut self, line: &str) -> (r: Option<Error>)
        requires
            old(self).wf(),
        ensures
            final(self).wf(),
    {
        let chars = crate::strings::str_to_chars(line);
        let toks = crate::tokens::split_tokens(&chars);
        let r = crate::engine::parse_and_execute(&toks, &mut self.stack);
        match r {
            Ok(_) => None,
            Err(e) => Some(e),
        }
    }

    /// The lines the print operator has emitted so far, draining them.
    pub fn take_output(&mut self) -> (r: Vec<Vec<char>>)
        requires
            old(self).wf(),
        ensures
            final(self).wf(),
    {
        let mut t: Vec<Vec<char>> = Vec::new();
        core::mem::swap(&mut t, &mut self.stack.sh.out);
        t
    }

    /// The final stack contents, bottom to top, ending the session.
    pub fn into_vec(self) -> (r: Vec<Value>)
        ensures
            crate::value::vals_of(r@) == self.model(),
    {
        self.stack.into_vec()
    }
}

/// Run a program against an existing stack and return the final stack
/// contents in bottom-to-top order, or the first error.
pub fn run_on(s: &str, stack: Stack) -> (r: Result<Vec<Value>, Error>)
    requires
        stack.wf(),
    ensures
        crate::tokens::spec_tokens(s@).len() == 0 ==> (r matches Ok(v) && v@ == stack.s@),
{
    let chars = crate::strings::str_to_chars(s);
    let toks = crate::tokens::split_tokens(&chars);
    proof {
        if crate::tokens::spec_tokens(s@).len() == 0 {
            assert(toks@ =~= Seq::<Vec<char>>::empty());
        }
    }
    let mut st = stack;
    let r = crate::engine::parse_and_execute(&toks, &mut st);
    match r {
        Ok(_) => Ok(st.into_vec()),
        Err(e) => Err(e),
    }
}

/// Tokenize and execute a program against a fresh stack bound to the given
/// input text; the final stack contents come back bottom to top, or the
/// first error.  A program with no tokens leaves an empty stack.
pub fn run_with_input(s: &str, input: &str) -> (r: Result<Vec<Value>, Error>)
    ensures
        crate::tokens::spec_tokens(s@).len() == 0 ==> (r matches Ok(v) && v@.len() == 0),
{
    let stack = Stack::with_input(crate::strings::str_to_chars(input));
    run_on(s, stack)
}

} // verus!
