//! The stack machine: executes resolved operators against a value stack,
//! consulting the value model for data operations, and drives the
//! block-application semantics (fold, map, filter, sort, while) by running
//! sub-programs against isolated value stacks that share the parent's
//! variable slots, input cursor and collected output.
//!
//! Nested block applications carry an explicit depth budget; exceeding it is
//! a nesting error, where unbounded recursion would otherwise exhaust the
//! call stack.

use vstd::prelude::*;

use vstd::pervasive::VecAdditionalExecFns;

use crate::error::ErrorVal;
use crate::error::ErrVal;
use crate::error::Error;
use crate::error::RuntimeError;
use crate::error::SyntaxError;
use crate::ops::BinaryOp;
use crate::ops::Nullary;
use crate::ops::Op;
use crate::ops::OpKind;
use crate::ops::StackOp;
use crate::ops::UnaryOp;
use crate::stack::wf_shared;
use crate::stack::Shared;
use crate::value::lemma_vals_of;
use crate::value::lemma_vals_of_push;
use crate::value::val_of;
use crate::value::vals_of;
use crate::value::Val;
use crate::value::Value;

verus! {

/// How deep block applications may nest.
pub const MAX_DEPTH: u64 = 1000;

/// The values `n ,` produces for an integer: `0, 1, ..., n-1`, empty when
/// the integer is not positive.
pub open spec fn spec_range_vals(n: int) -> Seq<Val> {
    Seq::new(
        if n < 0 {
            0
        } else {
            n as nat
        },
        |k: int| Val::Integer(k as i64),
    )
}

/// The elements whose flag is set, in order.
pub open spec fn spec_keep(s: Seq<Val>, f: Seq<bool>) -> Seq<Val>
    decreases s.len(),
{
    if s.len() == 0 {
        Seq::empty()
    } else {
        spec_keep(s.drop_last(), f) + if 0 <= s.len() - 1 < f.len() && f[s.len() - 1] {
            seq![s.last()]
        } else {
            Seq::empty()
        }
    }
}

/// The characters whose flag is set, in order.
pub open spec fn spec_keep_chars(s: Seq<char>, f: Seq<bool>) -> Seq<char>
    decreases s.len(),
{
    if s.len() == 0 {
        Seq::empty()
    } else {
        spec_keep_chars(s.drop_last(), f) + if 0 <= s.len() - 1 < f.len() && f[s.len() - 1] {
            seq![s.last()]
        } else {
            Seq::empty()
        }
    }
}


/// An outcome of the spec-level machine: the first error if any, the value
/// stack after the run, and the shared state after the run.
#[verifier::ext_equal]
pub ghost struct StepOut {
    pub r: Result<(), ErrorVal>,
    pub vals: Seq<Val>,
    pub sh: crate::stack::SharedModel,
}

/// An outcome of a spec-level sub-program that yields one value (or text,
/// or a list), together with the shared state after it.
#[verifier::ext_equal]
pub ghost struct PartOut<T> {
    pub r: Result<T, ErrorVal>,
    pub sh: crate::stack::SharedModel,
}

/// A stack-empty outcome that leaves the given state.
pub open spec fn step_stack_empty(vals: Seq<Val>, sh: crate::stack::SharedModel) -> StepOut {
    StepOut { r: Err(ErrorVal::Runtime(ErrVal::StackEmpty)), vals: vals, sh: sh }
}

/// A nesting-budget outcome that leaves the given state.
pub open spec fn step_too_deep(vals: Seq<Val>, sh: crate::stack::SharedModel) -> StepOut {
    StepOut { r: Err(ErrorVal::Runtime(ErrVal::NestingTooDeep)), vals: vals, sh: sh }
}

/// An invalid-operation outcome over one operand.
pub open spec fn step_invalid1(
    x: Val,
    name: Seq<char>,
    vals: Seq<Val>,
    sh: crate::stack::SharedModel,
) -> StepOut {
    StepOut {
        r: Err(ErrorVal::Runtime(ErrVal::InvalidOperation(seq![x], name))),
        vals: vals,
        sh: sh,
    }
}

/// What one operator does to the machine state: the step semantics of the
/// engine, by the five operator kinds.
pub open spec fn spec_step(
    op: crate::value::OpModel,
    vals: Seq<Val>,
    sh: crate::stack::SharedModel,
    depth: nat,
) -> StepOut
    decreases depth, 2int, 0int,
{
    match op.kind {
        OpKind::Binary(b) => spec_step_binary(b, vals, sh, depth),
        OpKind::Unary(u) => spec_step_unary(u, vals, sh, depth),
        OpKind::Nullary(nl) => spec_step_nullary(nl, vals, sh),
        OpKind::Ternary(_) => spec_step_ternary(vals, sh),
        OpKind::Stack(k) => spec_step_stack(k, op.text, vals, sh, depth),
    }
}

/// The step semantics of a binary operator: pop the second then the first
/// operand; combine through the value tables, or fold (`*`) or map (`%`)
/// when the second operand is a block.
pub open spec fn spec_step_binary(
    b: BinaryOp,
    vals: Seq<Val>,
    sh: crate::stack::SharedModel,
    depth: nat,
) -> StepOut
    decreases depth, 1int, 2int,
{
    if vals.len() == 0 {
        step_stack_empty(vals, sh)
    } else if vals.len() == 1 {
        step_stack_empty(vals.drop_last(), sh)
    } else {
        let y = vals.last();
        let x = vals[vals.len() - 2];
        let base = vals.subrange(0, vals.len() - 2);
        if crate::arith::spec_binary_is_pure(b, x, y) {
            match crate::arith::spec_binary_pure(b, x, y) {
                Ok(v) => StepOut { r: Ok(()), vals: base.push(v), sh: sh },
                Err(e) => StepOut { r: Err(ErrorVal::Runtime(e)), vals: base, sh: sh },
            }
        } else if depth == 0 {
            step_too_deep(base, sh)
        } else if b == BinaryOp::Mul {
            let f = spec_fold(x->Array_0, y->Block_0, sh, (depth - 1) as nat);
            match f.r {
                Ok(v) => StepOut { r: Ok(()), vals: base.push(v), sh: f.sh },
                Err(e) => StepOut { r: Err(e), vals: base, sh: f.sh },
            }
        } else if x is Array {
            let m = spec_map(x->Array_0, y->Block_0, sh, (depth - 1) as nat);
            match m.r {
                Ok(items) => StepOut { r: Ok(()), vals: base.push(Val::Array(items)), sh: m.sh },
                Err(e) => StepOut { r: Err(e), vals: base, sh: m.sh },
            }
        } else {
            let m = spec_map_chars(x->Str_0, y->Block_0, sh, (depth - 1) as nat);
            match m.r {
                Ok(cs) => StepOut { r: Ok(()), vals: base.push(Val::Str(cs)), sh: m.sh },
                Err(e) => StepOut { r: Err(e), vals: base, sh: m.sh },
            }
        }
    }
}

/// The step semantics of a unary operator: `_` and `p` peek, the rest pop;
/// the pure table, the array spread, the in-place block run, and the
/// block-driven filter.
pub open spec fn spec_step_unary(
    u: UnaryOp,
    vals: Seq<Val>,
    sh: crate::stack::SharedModel,
    depth: nat,
) -> StepOut
    decreases depth, 1int, 2int,
{
    if vals.len() == 0 {
        step_stack_empty(vals, sh)
    } else if u == UnaryOp::Dup {
        StepOut { r: Ok(()), vals: vals.push(vals.last()), sh: sh }
    } else if u == UnaryOp::Print {
        StepOut {
            r: Ok(()),
            vals: vals,
            sh: crate::stack::SharedModel {
                out: sh.out.push(crate::render::spec_display(vals.last())),
                ..sh
            },
        }
    } else {
        let x = vals.last();
        let base = vals.drop_last();
        if spec_unary_is_pure(u, x) {
            match spec_unary_pure(u, x) {
                Ok(v) => StepOut { r: Ok(()), vals: base.push(v), sh: sh },
                Err(e) => StepOut { r: Err(ErrorVal::Runtime(e)), vals: base, sh: sh },
            }
        } else if u == UnaryOp::Spread {
            if x is Array {
                StepOut { r: Ok(()), vals: base + x->Array_0, sh: sh }
            } else if depth == 0 {
                step_too_deep(base, sh)
            } else {
                spec_exec_ops(x->Block_0, base, sh, (depth - 1) as nat)
            }
        } else {
            // `,` with a block on top: filter the value below it
            if base.len() == 0 {
                step_stack_empty(base, sh)
            } else {
                let target = base.last();
                let base2 = base.drop_last();
                if target is Array {
                    if depth == 0 {
                        step_too_deep(base2, sh)
                    } else {
                        let f = spec_filter_flags(
                            target->Array_0,
                            x->Block_0,
                            sh,
                            (depth - 1) as nat,
                        );
                        match f.r {
                            Ok(flags) => StepOut {
                                r: Ok(()),
                                vals: base2.push(Val::Array(spec_keep(target->Array_0, flags))),
                                sh: f.sh,
                            },
                            Err(e) => StepOut { r: Err(e), vals: base2, sh: f.sh },
                        }
                    }
                } else if target is Str {
                    if depth == 0 {
                        step_too_deep(base2, sh)
                    } else {
                        let f = spec_filter_flags_chars(
                            target->Str_0,
                            x->Block_0,
                            sh,
                            (depth - 1) as nat,
                        );
                        match f.r {
                            Ok(flags) => StepOut {
                                r: Ok(()),
                                vals: base2.push(
                                    Val::Str(spec_keep_chars(target->Str_0, flags)),
                                ),
                                sh: f.sh,
                            },
                            Err(e) => StepOut { r: Err(e), vals: base2, sh: f.sh },
                        }
                    }
                } else {
                    step_invalid1(target, "filter"@, base2, sh)
                }
            }
        }
    }
}

/// The characters of a text as character values, elementwise.
pub open spec fn chars_as_vals(s: Seq<char>) -> Seq<Val> {
    Seq::new(s.len(), |i: int| Val::Char(s[i]))
}

/// A character as a value.
pub open spec fn char_val(c: char) -> Val {
    Val::Char(c)
}

/// The step semantics of the input operators: read the rest of the input,
/// or one line with its newline consumed and stripped.
pub open spec fn spec_step_nullary(
    nl: Nullary,
    vals: Seq<Val>,
    sh: crate::stack::SharedModel,
) -> StepOut {
    match nl {
        Nullary::ReadAll => StepOut {
            r: Ok(()),
            vals: vals.push(Val::Str(sh.input.subrange(sh.pos, sh.input.len() as int))),
            sh: crate::stack::SharedModel { pos: sh.input.len() as int, ..sh },
        },
        Nullary::ReadLine => match crate::tokens::spec_find_char(sh.input, '\n', sh.pos) {
            Some(j) => StepOut {
                r: Ok(()),
                vals: vals.push(Val::Str(sh.input.subrange(sh.pos, j))),
                sh: crate::stack::SharedModel { pos: j + 1, ..sh },
            },
            None => StepOut {
                r: Ok(()),
                vals: vals.push(Val::Str(sh.input.subrange(sh.pos, sh.input.len() as int))),
                sh: crate::stack::SharedModel { pos: sh.input.len() as int, ..sh },
            },
        },
    }
}

/// The step semantics of `?`: pop the else branch, the then branch and the
/// condition, and push the branch the condition's truthiness selects.
pub open spec fn spec_step_ternary(vals: Seq<Val>, sh: crate::stack::SharedModel) -> StepOut {
    if vals.len() == 0 {
        step_stack_empty(vals, sh)
    } else if vals.len() < 3 {
        step_stack_empty(Seq::empty(), sh)
    } else {
        let n = vals.len();
        StepOut {
            r: Ok(()),
            vals: vals.subrange(0, n - 3).push(
                if crate::value::spec_truthy(vals[n - 3]) {
                    vals[n - 2]
                } else {
                    vals[n - 1]
                },
            ),
            sh: sh,
        }
    }
}

/// The step semantics of the stack and literal operators.
pub open spec fn spec_step_stack(
    k: StackOp,
    text: Seq<char>,
    vals: Seq<Val>,
    sh: crate::stack::SharedModel,
    depth: nat,
) -> StepOut
    decreases depth, 1int, u64::MAX as nat + 1,
{
    match k {
        StackOp::Drop => if vals.len() == 0 {
            step_stack_empty(vals, sh)
        } else {
            StepOut { r: Ok(()), vals: vals.drop_last(), sh: sh }
        },
        StackOp::Swap => if vals.len() < 2 {
            step_stack_empty(vals, sh)
        } else {
            let n = vals.len();
            StepOut {
                r: Ok(()),
                vals: vals.subrange(0, n - 2).push(vals[n - 1]).push(vals[n - 2]),
                sh: sh,
            }
        },
        StackOp::Rotate => if vals.len() < 3 {
            step_stack_empty(vals, sh)
        } else {
            let n = vals.len();
            StepOut {
                r: Ok(()),
                vals: vals.subrange(0, n - 3).push(vals[n - 2]).push(vals[n - 1]).push(
                    vals[n - 3],
                ),
                sh: sh,
            }
        },
        StackOp::Head => if vals.len() == 0 {
            step_stack_empty(vals, sh)
        } else {
            let x = vals.last();
            let base = vals.drop_last();
            if x is Array {
                let a = x->Array_0;
                if a.len() == 0 {
                    step_invalid1(x, "remove head"@, base, sh)
                } else {
                    StepOut {
                        r: Ok(()),
                        vals: base.push(Val::Array(a.drop_first())).push(a[0]),
                        sh: sh,
                    }
                }
            } else {
                match crate::arith::spec_sub(x, Val::Integer(1)) {
                    Ok(v) => StepOut { r: Ok(()), vals: base.push(v), sh: sh },
                    Err(e) => StepOut { r: Err(ErrorVal::Runtime(e)), vals: base, sh: sh },
                }
            }
        },
        StackOp::Tail => if vals.len() == 0 {
            step_stack_empty(vals, sh)
        } else {
            let x = vals.last();
            let base = vals.drop_last();
            if x is Array {
                let a = x->Array_0;
                if a.len() == 0 {
                    step_invalid1(x, "remove last"@, base, sh)
                } else {
                    StepOut {
                        r: Ok(()),
                        vals: base.push(Val::Array(a.drop_last())).push(a.last()),
                        sh: sh,
                    }
                }
            } else {
                match crate::arith::spec_add(x, Val::Integer(1)) {
                    Ok(v) => StepOut { r: Ok(()), vals: base.push(v), sh: sh },
                    Err(e) => StepOut { r: Err(ErrorVal::Runtime(e)), vals: base, sh: sh },
                }
            }
        },
        StackOp::While => if vals.len() == 0 {
            step_stack_empty(vals, sh)
        } else {
            let x = vals.last();
            let base = vals.drop_last();
            if !(x is Block) {
                step_invalid1(x, "while"@, base, sh)
            } else if depth == 0 {
                step_too_deep(base, sh)
            } else {
                spec_while(x->Block_0, base, sh, depth, u64::MAX as nat)
            }
        },
        StackOp::PushVar(i) => if i < 26 {
            StepOut { r: Ok(()), vals: vals.push(sh.vars[i as int]), sh: sh }
        } else {
            StepOut {
                r: Err(ErrorVal::Runtime(ErrVal::OutOfBounds(26, i as int))),
                vals: vals,
                sh: sh,
            }
        },
        StackOp::SetVar(i) => if vals.len() == 0 {
            step_stack_empty(vals, sh)
        } else if i < 26 {
            StepOut {
                r: Ok(()),
                vals: vals,
                sh: crate::stack::SharedModel {
                    vars: sh.vars.update(i as int, vals.last()),
                    ..sh
                },
            }
        } else {
            StepOut {
                r: Err(ErrorVal::Runtime(ErrVal::OutOfBounds(26, i as int))),
                vals: vals,
                sh: sh,
            }
        },
        StackOp::Dollar => if vals.len() == 0 {
            step_stack_empty(vals, sh)
        } else {
            let top = vals.last();
            let base = vals.drop_last();
            if top is Integer {
                let i = top->Integer_0;
                if 0 <= i < base.len() {
                    StepOut { r: Ok(()), vals: base.push(base[base.len() - 1 - i]), sh: sh }
                } else {
                    StepOut {
                        r: Err(
                            ErrorVal::Runtime(ErrVal::OutOfBounds(base.len() as int, i as int)),
                        ),
                        vals: base,
                        sh: sh,
                    }
                }
            } else if base.len() == 0 {
                step_stack_empty(base, sh)
            } else {
                let second = base.last();
                let base2 = base.drop_last();
                if second is Array && top is Block {
                    if depth == 0 {
                        step_too_deep(base2, sh)
                    } else {
                        let so = spec_sort(
                            second->Array_0,
                            top->Block_0,
                            sh,
                            (depth - 1) as nat,
                        );
                        match so.r {
                            Ok(items) => StepOut {
                                r: Ok(()),
                                vals: base2.push(Val::Array(items)),
                                sh: so.sh,
                            },
                            Err(e) => StepOut { r: Err(e), vals: base2, sh: so.sh },
                        }
                    }
                } else {
                    step_invalid1(top, "index_sort"@, base2, sh)
                }
            }
        },
        StackOp::Nth(nn) => if nn < vals.len() {
            StepOut { r: Ok(()), vals: vals.push(vals[vals.len() - 1 - nn]), sh: sh }
        } else {
            StepOut {
                r: Err(
                    ErrorVal::Runtime(
                        ErrVal::OutOfBounds(vals.len() as int, (nn as i64) as int),
                    ),
                ),
                vals: vals,
                sh: sh,
            }
        },
        StackOp::Push => spec_parse_push(text, vals, sh, depth),
    }
}

/// The step semantics of the `w` loop: while the top is truthy, run the
/// block in place; the iteration budget mirrors the executable one.
pub open spec fn spec_while(
    ops: Seq<crate::value::OpModel>,
    vals: Seq<Val>,
    sh: crate::stack::SharedModel,
    depth: nat,
    budget: nat,
) -> StepOut
    decreases depth, 1int, budget when depth >= 1
{
    if vals.len() == 0 {
        step_stack_empty(vals, sh)
    } else if !crate::value::spec_truthy(vals.last()) {
        StepOut { r: Ok(()), vals: vals, sh: sh }
    } else {
        let e = spec_exec_ops(ops, vals, sh, (depth - 1) as nat);
        if e.r is Err {
            e
        } else if budget == 0 {
            step_too_deep(e.vals, e.sh)
        } else {
            spec_while(ops, e.vals, e.sh, depth, (budget - 1) as nat)
        }
    }
}

/// The step semantics of a literal push: the literal forms are tried in
/// their fixed order, and a token of no literal form is a syntax error
/// carrying the token.
pub open spec fn spec_parse_push(
    t: Seq<char>,
    vals: Seq<Val>,
    sh: crate::stack::SharedModel,
    depth: nat,
) -> StepOut
    decreases depth, 1int, 0int,
{
    if spec_scalar_literal(t) is Some {
        StepOut { r: Ok(()), vals: vals.push(spec_scalar_literal(t)->Some_0), sh: sh }
    } else if t.len() >= 1 && t[0] == '[' && t[t.len() - 1] == ']' && spec_resolve_all(
        crate::tokens::spec_tokens(spec_trim_set(t, '[', ']')),
    ) is Some {
        let ops = spec_resolve_all(
            crate::tokens::spec_tokens(spec_trim_set(t, '[', ']')),
        )->Some_0;
        if ops.len() == 0 {
            StepOut { r: Ok(()), vals: vals.push(Val::Array(Seq::empty())), sh: sh }
        } else if depth == 0 {
            step_too_deep(vals, sh)
        } else {
            let it = spec_array_items(ops, sh, (depth - 1) as nat);
            match it.r {
                Ok(items) => StepOut {
                    r: Ok(()),
                    vals: vals.push(Val::Array(items)),
                    sh: it.sh,
                },
                Err(e) => StepOut { r: Err(e), vals: vals, sh: it.sh },
            }
        }
    } else if spec_block_literal(t) is Some {
        StepOut {
            r: Ok(()),
            vals: vals.push(Val::Block(spec_block_literal(t)->Some_0)),
            sh: sh,
        }
    } else {
        StepOut { r: Err(ErrorVal::Syntax(t)), vals: vals, sh: sh }
    }
}

/// The step semantics of an array literal's interior: each operator runs as
/// its own one-token program against a fresh sub-stack, and the one value
/// it leaves joins the array.
pub open spec fn spec_array_items(
    ops: Seq<crate::value::OpModel>,
    sh: crate::stack::SharedModel,
    depth: nat,
) -> PartOut<Seq<Val>>
    decreases depth, 5int, ops.len(),
{
    if ops.len() == 0 {
        PartOut { r: Ok(Seq::empty()), sh: sh }
    } else {
        let st = spec_step(ops[0], Seq::empty(), sh, depth);
        match st.r {
            Err(e) => PartOut { r: Err(e), sh: st.sh },
            Ok(_) => if st.vals.len() == 0 {
                PartOut { r: Err(ErrorVal::Runtime(ErrVal::StackEmpty)), sh: st.sh }
            } else {
                let rest = spec_array_items(ops.drop_first(), st.sh, depth);
                match rest.r {
                    Ok(items) => PartOut { r: Ok(seq![st.vals.last()] + items), sh: rest.sh },
                    Err(e) => PartOut { r: Err(e), sh: rest.sh },
                }
            },
        }
    }
}

/// Run a list of operators in order at the spec level, stopping at the
/// first error.
pub open spec fn spec_exec_ops(
    ops: Seq<crate::value::OpModel>,
    vals: Seq<Val>,
    sh: crate::stack::SharedModel,
    depth: nat,
) -> StepOut
    decreases depth, 3int, ops.len(),
{
    if ops.len() == 0 {
        StepOut { r: Ok(()), vals: vals, sh: sh }
    } else {
        let st = spec_step(ops[0], vals, sh, depth);
        if st.r is Err {
            st
        } else {
            spec_exec_ops(ops.drop_first(), st.vals, st.sh, depth)
        }
    }
}

/// Collapse a sub-program at the spec level: push the input onto the given
/// stack, run the block, then take one value (none is a stack-empty error,
/// several pack into an array); the values left behind stay as the run left
/// them only when it failed.
pub open spec fn spec_calculate(
    input: Val,
    ops: Seq<crate::value::OpModel>,
    base: Seq<Val>,
    sh: crate::stack::SharedModel,
    depth: nat,
) -> PartOut<Val>
    decreases depth, 4int, 0int,
{
    let e = spec_exec_ops(ops, base.push(input), sh, depth);
    match e.r {
        Err(err) => PartOut { r: Err(err), sh: e.sh },
        Ok(_) => if e.vals.len() == 0 {
            PartOut { r: Err(ErrorVal::Runtime(ErrVal::StackEmpty)), sh: e.sh }
        } else if e.vals.len() == 1 {
            PartOut { r: Ok(e.vals[0]), sh: e.sh }
        } else {
            PartOut { r: Ok(Val::Array(e.vals)), sh: e.sh }
        },
    }
}

/// The spec-level left fold: combine the accumulator with each element on a
/// fresh sub-stack holding the accumulator.
pub open spec fn spec_fold_from(
    acc: Val,
    items: Seq<Val>,
    ops: Seq<crate::value::OpModel>,
    sh: crate::stack::SharedModel,
    depth: nat,
) -> PartOut<Val>
    decreases depth, 5int, items.len(),
{
    if items.len() == 0 {
        PartOut { r: Ok(acc), sh: sh }
    } else {
        let c = spec_calculate(items[0], ops, seq![acc], sh, depth);
        match c.r {
            Ok(v) => spec_fold_from(v, items.drop_first(), ops, c.sh, depth),
            Err(e) => PartOut { r: Err(e), sh: c.sh },
        }
    }
}

/// The spec-level fold: an empty array is the empty-fold error; the first
/// element seeds the accumulator.
pub open spec fn spec_fold(
    items: Seq<Val>,
    ops: Seq<crate::value::OpModel>,
    sh: crate::stack::SharedModel,
    depth: nat,
) -> PartOut<Val>
    decreases depth, 6int, 0int,
{
    if items.len() == 0 {
        PartOut { r: Err(ErrorVal::Runtime(ErrVal::FoldingEmptyArray)), sh: sh }
    } else {
        spec_fold_from(items[0], items.drop_first(), ops, sh, depth)
    }
}

/// The spec-level map: each element through the block on a fresh sub-stack,
/// one result per element, in order.
pub open spec fn spec_map(
    items: Seq<Val>,
    ops: Seq<crate::value::OpModel>,
    sh: crate::stack::SharedModel,
    depth: nat,
) -> PartOut<Seq<Val>>
    decreases depth, 5int, items.len(),
{
    if items.len() == 0 {
        PartOut { r: Ok(Seq::empty()), sh: sh }
    } else {
        let c = spec_calculate(items[0], ops, Seq::empty(), sh, depth);
        match c.r {
            Ok(v) => {
                let rest = spec_map(items.drop_first(), ops, c.sh, depth);
                match rest.r {
                    Ok(vs) => PartOut { r: Ok(seq![v] + vs), sh: rest.sh },
                    Err(e) => PartOut { r: Err(e), sh: rest.sh },
                }
            },
            Err(e) => PartOut { r: Err(e), sh: c.sh },
        }
    }
}

/// The spec-level map over text: each character through the block, and each
/// result must be a single character.
pub open spec fn spec_map_chars(
    cs: Seq<char>,
    ops: Seq<crate::value::OpModel>,
    sh: crate::stack::SharedModel,
    depth: nat,
) -> PartOut<Seq<char>>
    decreases depth, 5int, cs.len(),
{
    if cs.len() == 0 {
        PartOut { r: Ok(Seq::empty()), sh: sh }
    } else {
        let c = spec_calculate(char_val(cs[0]), ops, Seq::empty(), sh, depth);
        match c.r {
            Ok(v) => if v is Char {
                let rest = spec_map_chars(cs.drop_first(), ops, c.sh, depth);
                match rest.r {
                    Ok(rs) => PartOut { r: Ok(seq![v->Char_0] + rs), sh: rest.sh },
                    Err(e) => PartOut { r: Err(e), sh: rest.sh },
                }
            } else {
                PartOut { r: Err(ErrorVal::Runtime(ErrVal::InvalidCast(v, "char"@))), sh: c.sh }
            },
            Err(e) => PartOut { r: Err(e), sh: c.sh },
        }
    }
}

/// The spec-level filter judging: the block judges the last element first,
/// and the flag sequence is indexed like the elements.
pub open spec fn spec_filter_flags(
    items: Seq<Val>,
    ops: Seq<crate::value::OpModel>,
    sh: crate::stack::SharedModel,
    depth: nat,
) -> PartOut<Seq<bool>>
    decreases depth, 5int, items.len(),
{
    if items.len() == 0 {
        PartOut { r: Ok(Seq::empty()), sh: sh }
    } else {
        let c = spec_calculate(items.last(), ops, Seq::empty(), sh, depth);
        match c.r {
            Ok(v) => {
                let rest = spec_filter_flags(items.drop_last(), ops, c.sh, depth);
                match rest.r {
                    Ok(fs) => PartOut {
                        r: Ok(fs.push(crate::value::spec_truthy(v))),
                        sh: rest.sh,
                    },
                    Err(e) => PartOut { r: Err(e), sh: rest.sh },
                }
            },
            Err(e) => PartOut { r: Err(e), sh: c.sh },
        }
    }
}

/// The spec-level filter judging over text: the block judges the last
/// character first, and the flag sequence is indexed like the characters.
pub open spec fn spec_filter_flags_chars(
    cs: Seq<char>,
    ops: Seq<crate::value::OpModel>,
    sh: crate::stack::SharedModel,
    depth: nat,
) -> PartOut<Seq<bool>>
    decreases depth, 5int, cs.len(),
{
    if cs.len() == 0 {
        PartOut { r: Ok(Seq::empty()), sh: sh }
    } else {
        let c = spec_calculate(char_val(cs.last()), ops, Seq::empty(), sh, depth);
        match c.r {
            Ok(v) => {
                let rest = spec_filter_flags_chars(cs.drop_last(), ops, c.sh, depth);
                match rest.r {
                    Ok(fs) => PartOut {
                        r: Ok(fs.push(crate::value::spec_truthy(v))),
                        sh: rest.sh,
                    },
                    Err(e) => PartOut { r: Err(e), sh: rest.sh },
                }
            },
            Err(e) => PartOut { r: Err(e), sh: c.sh },
        }
    }
}

/// The scan for the next element to select: the first element no later one
/// compares strictly below.
pub open spec fn spec_best(keys: Seq<Val>, j: int, best: int) -> int
    decreases keys.len() - j,
{
    if j < 1 || j >= keys.len() || best < 0 {
        best
    } else if crate::cmp::spec_partial_cmp(keys[j], keys[best]) == Some(
        core::cmp::Ordering::Less,
    ) {
        spec_best(keys, j + 1, j)
    } else {
        spec_best(keys, j + 1, best)
    }
}

/// The stable selection by keys: repeatedly take the scan's pick, keys and
/// elements in step.
pub open spec fn spec_select(elems: Seq<Val>, keys: Seq<Val>) -> Seq<Val>
    decreases elems.len(),
{
    if elems.len() == 0 || elems.len() != keys.len() {
        Seq::empty()
    } else {
        let b0 = spec_best(keys, 1, 0);
        let b = if 0 <= b0 < elems.len() {
            b0
        } else {
            0
        };
        seq![elems[b]] + spec_select(elems.remove(b), keys.remove(b))
    }
}

/// The spec-level sort-by-key: compute each element's key through the block
/// on a fresh sub-stack (sharing the parent's variable slots and input),
/// then select stably by the keys.
pub open spec fn spec_sort(
    items: Seq<Val>,
    ops: Seq<crate::value::OpModel>,
    sh: crate::stack::SharedModel,
    depth: nat,
) -> PartOut<Seq<Val>>
    decreases depth, 6int, 0int,
{
    let keys = spec_map(items, ops, sh, depth);
    match keys.r {
        Ok(ks) => PartOut { r: Ok(spec_select(items, ks)), sh: keys.sh },
        Err(e) => PartOut { r: Err(e), sh: keys.sh },
    }
}

/// Resolve and run each token in order at the spec level: a token that
/// resolves to nothing is a syntax error carrying its text, and the first
/// error stops the run.
pub open spec fn spec_run_tokens(
    ts: Seq<Seq<char>>,
    vals: Seq<Val>,
    sh: crate::stack::SharedModel,
    depth: nat,
) -> StepOut
    decreases depth, 7int, ts.len(),
{
    if ts.len() == 0 {
        StepOut { r: Ok(()), vals: vals, sh: sh }
    } else {
        match crate::ops::spec_classify(ts[0]) {
            None => StepOut { r: Err(ErrorVal::Syntax(ts[0])), vals: vals, sh: sh },
            Some(kind) => {
                let st = spec_step(
                    crate::value::OpModel { kind: kind, text: ts[0] },
                    vals,
                    sh,
                    depth,
                );
                if st.r is Err {
                    st
                } else {
                    spec_run_tokens(ts.drop_first(), st.vals, st.sh, depth)
                }
            },
        }
    }
}

/// Run a whole program at the spec level: tokenize, then resolve and run
/// each token against a fresh stack bound to the input text, at the
/// engine's full depth budget.
pub open spec fn spec_run(s: Seq<char>, input: Seq<char>) -> StepOut {
    spec_run_tokens(
        crate::tokens::spec_tokens(s),
        Seq::empty(),
        crate::stack::spec_fresh_shared(input),
        MAX_DEPTH as nat,
    )
}

/// Wrap a runtime result into an engine result.
fn rt(e: RuntimeError) -> (r: Error)
    ensures
        r@ == ErrorVal::Runtime(e@),
{
    Error::Runtime(e)
}

/// Pop the top of a raw value stack.
fn pop_val(vals: &mut Vec<Value>) -> (r: Result<Value, Error>)
    ensures
        old(vals)@.len() == 0 ==> (r matches Err(e) && e@ == ErrorVal::Runtime(ErrVal::StackEmpty)
            && final(vals)@ == old(vals)@),
        old(vals)@.len() > 0 ==> (r matches Ok(v) && v == old(vals)@.last() && final(vals)@ == old(
            vals,
        )@.drop_last()),
{
    let r = vals.pop();
    match r {
        Some(v) => {
            proof {
                assert(vals@ =~= old(vals)@.drop_last());
            }
            Ok(v)
        },
        None => Err(Error::Runtime(RuntimeError::StackEmpty)),
    }
}

/// Execute a list of operators in order against the given value stack,
/// stopping at the first error, exactly as `spec_exec_ops` states it.
pub fn execute(ops: &Vec<Op>, vals: &mut Vec<Value>, sh: &mut Shared, depth: u64) -> (r: Result<
    (),
    Error,
>)
    requires
        wf_shared(*old(sh)),
    ensures
        wf_shared(*final(sh)),
        ({
            let st = spec_exec_ops(
                crate::value::ops_model(ops@),
                vals_of(old(vals)@),
                old(sh)@,
                depth as nat,
            );
            (match st.r {
                Ok(_) => r is Ok,
                Err(e) => r matches Err(er) && er@ == e,
            }) && vals_of(final(vals)@) == st.vals && final(sh)@ == st.sh
        }),
        ops@.len() == 0 ==> (r is Ok && final(vals)@ == old(vals)@ && *final(sh) == *old(sh)),
    decreases depth, 2int, 0int,
{
    let ghost opsm = crate::value::ops_model(ops@);
    let ghost target = spec_exec_ops(opsm, vals_of(old(vals)@), old(sh)@, depth as nat);
    let mut i: usize = 0;
    proof {
        assert(opsm.subrange(0, opsm.len() as int) =~= opsm);
    }
    while i < ops.len()
        invariant
            i <= ops@.len(),
            wf_shared(*sh),
            opsm == crate::value::ops_model(ops@),
            opsm.len() == ops@.len(),
            target == spec_exec_ops(
                crate::value::ops_model(ops@),
                vals_of(old(vals)@),
                old(sh)@,
                depth as nat,
            ),
            target == spec_exec_ops(
                opsm.subrange(i as int, opsm.len() as int),
                vals_of(vals@),
                sh@,
                depth as nat,
            ),
            ops@.len() == 0 ==> (vals@ == old(vals)@ && *sh == *old(sh)),
        decreases ops@.len() - i,
    {
        let ghost pre_tail = opsm.subrange(i as int, opsm.len() as int);
        let r = run_op(&ops[i], vals, sh, depth);
        proof {
            assert(pre_tail[0] == crate::value::op_model(ops@[i as int]));
            assert(pre_tail.drop_first() =~= opsm.subrange(i as int + 1, opsm.len() as int));
        }
        match r {
            Ok(_) => {},
            Err(e) => {
                return Err(e);
            },
        }
        i = i + 1;
    }
    proof {
        assert(opsm.subrange(i as int, opsm.len() as int) =~= Seq::<
            crate::value::OpModel,
        >::empty());
    }
    Ok(())
}

/// Push the input onto the given stack, execute the block's operators, and
/// collapse the stack to one value, exactly as `spec_calculate` states it;
/// a failed run leaves the values as the run left them.
pub fn calculate(input: Value, ops: &Vec<Op>, vals: &mut Vec<Value>, sh: &mut Shared, depth: u64)
    -> (r: Result<Value, Error>)
    requires
        wf_shared(*old(sh)),
    ensures
        wf_shared(*final(sh)),
        ({
            let c = spec_calculate(
                input@,
                crate::value::ops_model(ops@),
                vals_of(old(vals)@),
                old(sh)@,
                depth as nat,
            );
            let eo = spec_exec_ops(
                crate::value::ops_model(ops@),
                vals_of(old(vals)@).push(input@),
                old(sh)@,
                depth as nat,
            );
            (match c.r {
                Ok(v) => r matches Ok(rv) && rv@ == v && final(vals)@.len() == 0,
                Err(e) => (r matches Err(er) && er@ == e) && vals_of(final(vals)@) == eo.vals,
            }) && final(sh)@ == c.sh
        }),
        ops@.len() == 0 && old(vals)@.len() == 0 ==> (r matches Ok(rv) && rv == input
            && *final(sh) == *old(sh)),
    decreases depth, 3int, 0int,
{
    push_traced(vals, input);
    let r = execute(ops, vals, sh, depth);
    match r {
        Ok(_) => {},
        Err(e) => {
            return Err(e);
        },
    }
    proof {
        lemma_vals_of(vals@);
        if vals@.len() == 1 {
            crate::value::lemma_vals_of_drop_last(vals@);
        }
    }
    let taken = take_one(vals);
    match taken {
        Ok(v) => Ok(v),
        Err(e) => Err(rt(e)),
    }
}

/// Collapse a raw value stack to one value, as `Stack::take_as_value` does.
fn take_one(vals: &mut Vec<Value>) -> (r: Result<Value, RuntimeError>)
    ensures
        final(vals)@.len() == 0,
        old(vals)@.len() == 0 ==> r == Err::<Value, RuntimeError>(RuntimeError::StackEmpty),
        old(vals)@.len() == 1 ==> (r matches Ok(v) && v == old(vals)@[0]),
        old(vals)@.len() > 1 ==> (r matches Ok(v) && v@ == Val::Array(vals_of(old(vals)@))),
{
    if vals.len() == 0 {
        Err(RuntimeError::StackEmpty)
    } else if vals.len() == 1 {
        let r = vals.pop();
        match r {
            Some(v) => {
                proof {
                    assert(vals@ =~= old(vals)@.drop_last());
                }
                Ok(v)
            },
            None => {
                proof {
                    assert(false);
                }
                Err(RuntimeError::StackEmpty)
            },
        }
    } else {
        let mut drained: Vec<Value> = Vec::new();
        core::mem::swap(&mut drained, vals);
        Ok(Value::Array(drained))
    }
}

/// The spec-level map over an empty block is the identity, elementwise.
proof fn lemma_spec_map_empty(
    items: Seq<Val>,
    sh: crate::stack::SharedModel,
    depth: nat,
)
    ensures
        spec_map(items, Seq::empty(), sh, depth) == (PartOut::<Seq<Val>> {
            r: Ok(items),
            sh: sh,
        }),
    decreases items.len(),
{
    let m = spec_map(items, Seq::empty(), sh, depth);
    if items.len() > 0 {
        lemma_spec_map_empty(items.drop_first(), sh, depth);
        let c = spec_calculate(items[0], Seq::empty(), Seq::empty(), sh, depth);
        assert(Seq::<Val>::empty().push(items[0]).len() == 1);
        assert(c.r == Ok::<Val, ErrorVal>(items[0]));
        assert(m.r is Ok);
        assert(m.r->Ok_0 =~= items);
        assert(m.r == Ok::<Seq<Val>, ErrorVal>(items));
        assert(m == (PartOut::<Seq<Val>> { r: Ok(items), sh: sh }));
    } else {
        assert(m.r->Ok_0 =~= items);
        assert(m.r == Ok::<Seq<Val>, ErrorVal>(items));
        assert(m == (PartOut::<Seq<Val>> { r: Ok(items), sh: sh }));
    }
}

/// Left-fold an array through a block/// Left-fold an array through a block, exactly as `spec_fold` states it:
/// the first element seeds the accumulator, and each further element is
/// combined on a fresh sub-stack holding the accumulator.  An empty array
/// is the empty-fold error; a single element comes back unchanged, whatever
/// the block.
pub fn fold_list(arr: Vec<Value>, ops: &Vec<Op>, sh: &mut Shared, depth: u64) -> (r: Result<
    Value,
    Error,
>)
    requires
        wf_shared(*old(sh)),
    ensures
        wf_shared(*final(sh)),
        ({
            let f = spec_fold(
                vals_of(arr@),
                crate::value::ops_model(ops@),
                old(sh)@,
                depth as nat,
            );
            (match f.r {
                Ok(v) => r matches Ok(rv) && rv@ == v,
                Err(e) => r matches Err(er) && er@ == e,
            }) && final(sh)@ == f.sh
        }),
        arr@.len() == 0 ==> (r matches Err(e) && e@ == ErrorVal::Runtime(
            ErrVal::FoldingEmptyArray,
        )),
        arr@.len() == 1 ==> (r matches Ok(v) && v@ == vals_of(arr@)[0] && final(sh)@ == old(
            sh,
        )@),
    decreases depth, 4int, 0int,
{
    proof {
        lemma_vals_of(arr@);
    }
    let ghost itemsm = vals_of(arr@);
    let ghost opsm = crate::value::ops_model(ops@);
    let ghost target = spec_fold(itemsm, opsm, old(sh)@, depth as nat);
    if arr.len() == 0 {
        return Err(Error::Runtime(RuntimeError::FoldingEmptyArray));
    }
    let mut acc = arr[0].clone();
    proof {
        assert(itemsm.drop_first() =~= itemsm.subrange(1, itemsm.len() as int));
    }
    let mut i: usize = 1;
    while i < arr.len()
        invariant
            1 <= i <= arr@.len(),
            wf_shared(*sh),
            itemsm == vals_of(arr@),
            itemsm.len() == arr@.len(),
            opsm == crate::value::ops_model(ops@),
            target == spec_fold(itemsm, opsm, old(sh)@, depth as nat),
            target == spec_fold_from(
                val_of(acc),
                itemsm.subrange(i as int, itemsm.len() as int),
                opsm,
                sh@,
                depth as nat,
            ),
        decreases arr@.len() - i,
    {
        let ghost tail = itemsm.subrange(i as int, itemsm.len() as int);
        let ghost accm = val_of(acc);
        let mut tmp: Vec<Value> = Vec::new();
        push_traced(&mut tmp, acc);
        proof {
            assert(vals_of(tmp@) =~= seq![accm]);
        }
        let e = arr[i].clone();
        proof {
            lemma_vals_of(arr@);
            assert(tail[0] == itemsm[i as int]);
            assert(tail.drop_first() =~= itemsm.subrange(i as int + 1, itemsm.len() as int));
        }
        let r = calculate(e, ops, &mut tmp, sh, depth);
        match r {
            Ok(v) => {
                acc = v;
            },
            Err(e) => {
                return Err(e);
            },
        }
        i = i + 1;
    }
    proof {
        assert(itemsm.subrange(i as int, itemsm.len() as int) =~= Seq::<Val>::empty());
    }
    Ok(acc)
}

/// Map a block over an array, exactly as `spec_map` states it: each element
/// is run through the block on a fresh sub-stack and replaced by the single
/// value that comes back.  An empty block returns an equal array.
pub fn map_list(arr: Vec<Value>, ops: &Vec<Op>, sh: &mut Shared, depth: u64) -> (r: Result<
    Vec<Value>,
    Error,
>)
    requires
        wf_shared(*old(sh)),
    ensures
        wf_shared(*final(sh)),
        ({
            let m = spec_map(
                vals_of(arr@),
                crate::value::ops_model(ops@),
                old(sh)@,
                depth as nat,
            );
            (match m.r {
                Ok(items) => r matches Ok(out) && vals_of(out@) == items,
                Err(e) => r matches Err(er) && er@ == e,
            }) && final(sh)@ == m.sh
        }),
        ops@.len() == 0 ==> (r matches Ok(out) && vals_of(out@) == vals_of(arr@) && final(sh)@
            == old(sh)@),
    decreases depth, 4int, 0int,
{
    proof {
        lemma_vals_of(arr@);
        if ops@.len() == 0 {
            assert(crate::value::ops_model(ops@) =~= Seq::<crate::value::OpModel>::empty());
            lemma_spec_map_empty(vals_of(arr@), old(sh)@, depth as nat);
        }
    }
    let ghost itemsm = vals_of(arr@);
    let ghost opsm = crate::value::ops_model(ops@);
    let ghost target = spec_map(itemsm, opsm, old(sh)@, depth as nat);
    let mut out: Vec<Value> = Vec::new();
    let mut i: usize = 0;
    proof {
        lemma_vals_of(out@);
        assert(itemsm.subrange(0, itemsm.len() as int) =~= itemsm);
        assert(vals_of(out@) =~= Seq::<Val>::empty());
    }
    while i < arr.len()
        invariant
            i <= arr@.len(),
            wf_shared(*sh),
            itemsm == vals_of(arr@),
            itemsm.len() == arr@.len(),
            opsm == crate::value::ops_model(ops@),
            target == spec_map(itemsm, opsm, old(sh)@, depth as nat),
            ({
                let inner = spec_map(
                    itemsm.subrange(i as int, itemsm.len() as int),
                    opsm,
                    sh@,
                    depth as nat,
                );
                target == (match inner.r {
                    Ok(vs) => PartOut::<Seq<Val>> { r: Ok(vals_of(out@) + vs), sh: inner.sh },
                    Err(e) => PartOut::<Seq<Val>> { r: Err(e), sh: inner.sh },
                })
            }),
        decreases arr@.len() - i,
    {
        let ghost tail = itemsm.subrange(i as int, itemsm.len() as int);
        let mut tmp: Vec<Value> = Vec::new();
        let e = arr[i].clone();
        proof {
            lemma_vals_of(arr@);
            lemma_vals_of(tmp@);
            assert(vals_of(tmp@) =~= Seq::<Val>::empty());
            assert(tail[0] == itemsm[i as int]);
            assert(tail.drop_first() =~= itemsm.subrange(i as int + 1, itemsm.len() as int));
        }
        let r = calculate(e, ops, &mut tmp, sh, depth);
        match r {
            Ok(v) => {
                let ghost outm = vals_of(out@);
                let ghost vm = v@;
                push_traced(&mut out, v);
                proof {
                    let inner2 = spec_map(
                        itemsm.subrange(i as int + 1, itemsm.len() as int),
                        opsm,
                        sh@,
                        depth as nat,
                    );
                    if inner2.r is Ok {
                        assert(outm.push(vm) + inner2.r->Ok_0 =~= outm + (seq![vm]
                            + inner2.r->Ok_0));
                    }
                }
            },
            Err(e) => {
                return Err(e);
            },
        }
        i = i + 1;
    }
    proof {
        assert(itemsm.subrange(i as int, itemsm.len() as int) =~= Seq::<Val>::empty());
        assert(vals_of(out@) + Seq::<Val>::empty() =~= vals_of(out@));
    }
    Ok(out)
}

/// Run one character through a block on a fresh sub-stack and collapse the
/// result, exactly as `spec_calculate` states it for that character.
fn calc_char(c: char, ops: &Vec<Op>, sh: &mut Shared, depth: u64) -> (r: Result<Value, Error>)
    requires
        wf_shared(*old(sh)),
    ensures
        wf_shared(*final(sh)),
        ({
            let cs = spec_calculate(
                char_val(c),
                crate::value::ops_model(ops@),
                Seq::empty(),
                old(sh)@,
                depth as nat,
            );
            &&& (cs.r is Ok ==> r is Ok && r->Ok_0@ == cs.r->Ok_0)
            &&& (cs.r is Err ==> r is Err && r->Err_0@ == cs.r->Err_0)
            &&& final(sh)@ == cs.sh
        }),
        crate::value::ops_model(ops@).len() == 0 ==> (r matches Ok(rv) && rv == Value::Char(c)
            && *final(sh) == *old(sh)),
    decreases depth, 3int, 1int,
{
    proof {
        crate::value::lemma_char_value(c);
    }
    let mut tmp: Vec<Value> = Vec::new();
    proof {
        lemma_vals_of(tmp@);
        assert(vals_of(tmp@) =~= Seq::<Val>::empty());
    }
    calculate(Value::Char(c), ops, &mut tmp, sh, depth)
}

/// Map a block over text, exactly as `spec_map_chars` states it: each
/// character runs through the block on a fresh sub-stack and must come back
/// as a single character.  An empty block returns equal text.
pub fn map_chars(text: Vec<char>, ops: &Vec<Op>, sh: &mut Shared, depth: u64) -> (r: Result<
    Vec<char>,
    Error,
>)
    requires
        wf_shared(*old(sh)),
    ensures
        wf_shared(*final(sh)),
        ({
            let m = spec_map_chars(
                text@,
                crate::value::ops_model(ops@),
                old(sh)@,
                depth as nat,
            );
            &&& (m.r is Ok ==> r is Ok && r->Ok_0@ == m.r->Ok_0)
            &&& (m.r is Err ==> r is Err && r->Err_0@ == m.r->Err_0)
            &&& final(sh)@ == m.sh
        }),
        ops@.len() == 0 ==> (r matches Ok(out) && out@ == text@ && final(sh)@ == old(sh)@),
    decreases depth, 4int, text@.len(),
{
    proof {
        if ops@.len() == 0 {
            assert(crate::value::ops_model(ops@) =~= Seq::<crate::value::OpModel>::empty());
        }
    }
    if text.len() == 0 {
        let out: Vec<char> = Vec::new();
        proof {
            assert(out@ =~= Seq::<char>::empty());
        }
        return Ok(out);
    }
    let c = text[0];
    let r = calc_char(c, ops, sh, depth);
    match r {
        Ok(v) => match v {
            Value::Char(rc) => {
                let rest = crate::arith::copy_range(&text, 1, text.len());
                proof {
                    assert(rest@ =~= text@.drop_first());
                }
                let tailr = map_chars(rest, ops, sh, depth);
                match tailr {
                    Ok(out2) => {
                        let mut out: Vec<char> = Vec::new();
                        out.push(rc);
                        crate::render::push_all(&mut out, &out2);
                        proof {
                            crate::value::lemma_char_value(c);
                            crate::value::lemma_char_value(rc);
                            assert(out@ =~= seq![rc] + out2@);
                            let m = spec_map_chars(
                                text@,
                                crate::value::ops_model(ops@),
                                old(sh)@,
                                depth as nat,
                            );
                            let hd = spec_calculate(
                                char_val(text@[0]),
                                crate::value::ops_model(ops@),
                                Seq::empty(),
                                old(sh)@,
                                depth as nat,
                            );
                            assert(hd.r == Ok::<Val, ErrorVal>(Val::Char(rc)));
                            assert(Val::Char(rc) is Char);
                            let rest2 = spec_map_chars(
                                text@.drop_first(),
                                crate::value::ops_model(ops@),
                                hd.sh,
                                depth as nat,
                            );
                            assert(rest2.r is Ok && rest2.r->Ok_0 == out2@);
                            assert(m == (PartOut::<Seq<char>> {
                                r: Ok(seq![rc] + rest2.r->Ok_0),
                                sh: rest2.sh,
                            }));
                            assert(m.r is Ok);
                            assert(m.r->Ok_0 =~= seq![rc] + spec_map_chars(
                                text@.drop_first(),
                                crate::value::ops_model(ops@),
                                hd.sh,
                                depth as nat,
                            ).r->Ok_0);
                            assert(out@ =~= m.r->Ok_0);
                            if ops@.len() == 0 {
                                assert(out@ =~= text@);
                            }
                        }
                        Ok(out)
                    },
                    Err(e) => Err(e),
                }
            },
            x => {
                proof {
                    match x {
                        Value::Char(_) => {
                            assert(false);
                        },
                        Value::Integer(_) => {},
                        Value::Str(_) => {},
                        Value::Array(_) => {},
                        Value::Block(_) => {},
                    }
                    assert(!(x@ is Char));
                }
                Err(rt(RuntimeError::InvalidCast(x, "char")))
            },
        },
        Err(e) => Err(e),
    }
}

/// Filter an array by a predicate block, exactly as `spec_filter_flags`
/// states the judging: the block judges each element on a fresh sub-stack,
/// from the last element to the first, and the kept elements stay in their
/// original order.
pub fn filter_list(arr: Vec<Value>, ops: &Vec<Op>, sh: &mut Shared, depth: u64) -> (r: Result<
    Vec<Value>,
    Error,
>)
    requires
        wf_shared(*old(sh)),
    ensures
        wf_shared(*final(sh)),
        ({
            let f = spec_filter_flags(
                vals_of(arr@),
                crate::value::ops_model(ops@),
                old(sh)@,
                depth as nat,
            );
            (match f.r {
                Ok(flags) => r matches Ok(out) && vals_of(out@) == spec_keep(
                    vals_of(arr@),
                    flags,
                ),
                Err(e) => r matches Err(er) && er@ == e,
            }) && final(sh)@ == f.sh
        }),
    decreases depth, 4int, 0int,
{
    proof {
        lemma_vals_of(arr@);
    }
    let ghost itemsm = vals_of(arr@);
    let ghost opsm = crate::value::ops_model(ops@);
    let ghost target = spec_filter_flags(itemsm, opsm, old(sh)@, depth as nat);
    let mut flags_rev: Vec<bool> = Vec::new();
    let mut i: usize = arr.len();
    proof {
        assert(itemsm.subrange(0, itemsm.len() as int) =~= itemsm);
        assert(suffix_flags(flags_rev@, itemsm.len() as int, itemsm.len() as int)
            =~= Seq::<bool>::empty());
    }
    while i > 0
        invariant
            i <= arr@.len(),
            wf_shared(*sh),
            itemsm == vals_of(arr@),
            itemsm.len() == arr@.len(),
            opsm == crate::value::ops_model(ops@),
            flags_rev@.len() == arr@.len() - i,
            target == spec_filter_flags(itemsm, opsm, old(sh)@, depth as nat),
            ({
                let inner = spec_filter_flags(
                    itemsm.subrange(0, i as int),
                    opsm,
                    sh@,
                    depth as nat,
                );
                target == (match inner.r {
                    Ok(fs) => PartOut::<Seq<bool>> {
                        r: Ok(fs + suffix_flags(flags_rev@, i as int, itemsm.len() as int)),
                        sh: inner.sh,
                    },
                    Err(e) => PartOut::<Seq<bool>> { r: Err(e), sh: inner.sh },
                })
            }),
        decreases i,
    {
        i = i - 1;
        let ghost pre = itemsm.subrange(0, i as int + 1);
        let mut tmp: Vec<Value> = Vec::new();
        let e = arr[i].clone();
        proof {
            lemma_vals_of(arr@);
            lemma_vals_of(tmp@);
            assert(vals_of(tmp@) =~= Seq::<Val>::empty());
            assert(pre.last() == itemsm[i as int]);
            assert(pre.drop_last() =~= itemsm.subrange(0, i as int));
        }
        let r = calculate(e, ops, &mut tmp, sh, depth);
        match r {
            Ok(v) => {
                let t = v.truthy();
                let ghost frm = flags_rev@;
                flags_rev.push(t);
                proof {
                    let inner2 = spec_filter_flags(
                        itemsm.subrange(0, i as int),
                        opsm,
                        sh@,
                        depth as nat,
                    );
                    if inner2.r is Ok {
                        assert(inner2.r->Ok_0.push(t) + suffix_flags(
                            frm,
                            i as int + 1,
                            itemsm.len() as int,
                        ) =~= inner2.r->Ok_0 + suffix_flags(
                            flags_rev@,
                            i as int,
                            itemsm.len() as int,
                        ));
                    }
                }
            },
            Err(e) => {
                return Err(e);
            },
        }
    }
    let ghost f = Seq::new(arr@.len(), |k: int| flags_rev@[arr@.len() - 1 - k]);
    proof {
        assert(itemsm.subrange(0, 0) =~= Seq::<Val>::empty());
        assert(Seq::<bool>::empty() + suffix_flags(flags_rev@, 0, itemsm.len() as int)
            =~= suffix_flags(flags_rev@, 0, itemsm.len() as int));
        assert(f =~= suffix_flags(flags_rev@, 0, itemsm.len() as int));
    }
    let n = arr.len();
    let mut out: Vec<Value> = Vec::new();
    let mut idx: usize = 0;
    while idx < n
        invariant
            idx <= n,
            n == arr@.len(),
            n == flags_rev@.len(),
            f == Seq::new(arr@.len(), |k: int| flags_rev@[arr@.len() - 1 - k]),
            vals_of(out@) == spec_keep(vals_of(arr@).subrange(0, idx as int), f),
        decreases n - idx,
    {
        proof {
            lemma_vals_of(arr@);
            lemma_vals_of(out@);
        }
        if flags_rev[n - 1 - idx] {
            let e = arr[idx].clone();
            let ghost before = out@;
            out.push(e);
            proof {
                lemma_vals_of_push(before, out@.last());
            }
        }
        proof {
            let p = vals_of(arr@).subrange(0, idx as int + 1);
            assert(p.drop_last() =~= vals_of(arr@).subrange(0, idx as int));
            assert(p.last() == vals_of(arr@)[idx as int]);
            assert(vals_of(out@) =~= spec_keep(p, f));
        }
        idx = idx + 1;
    }
    proof {
        assert(vals_of(arr@).subrange(0, n as int) =~= vals_of(arr@));
    }
    Ok(out)
}

/// The flags already judged, aligned to element positions from `i` on:
/// the flag for position p sits at reversed index.
pub open spec fn suffix_flags(frev: Seq<bool>, i: int, n: int) -> Seq<bool> {
    Seq::new(
        if i <= n {
            (n - i) as nat
        } else {
            0
        },
        |k: int| frev[n - 1 - i - k],
    )
}

/// Filter text by a predicate block, character by character, from the last
/// to the first, keeping original order, exactly as `spec_filter_flags`
/// states the judging.
pub fn filter_chars(text: Vec<char>, ops: &Vec<Op>, sh: &mut Shared, depth: u64) -> (r: Result<
    Vec<char>,
    Error,
>)
    requires
        wf_shared(*old(sh)),
    ensures
        wf_shared(*final(sh)),
        ({
            let f = spec_filter_flags_chars(
                text@,
                crate::value::ops_model(ops@),
                old(sh)@,
                depth as nat,
            );
            (match f.r {
                Ok(flags) => r matches Ok(out) && out@ == spec_keep_chars(text@, flags),
                Err(e) => r matches Err(er) && er@ == e,
            }) && final(sh)@ == f.sh
        }),
    decreases depth, 4int, 0int,
{
    let ghost itemsm = text@;
    let ghost opsm = crate::value::ops_model(ops@);
    let ghost target = spec_filter_flags_chars(itemsm, opsm, old(sh)@, depth as nat);
    let mut flags_rev: Vec<bool> = Vec::new();
    let mut i: usize = text.len();
    proof {
        assert(itemsm.subrange(0, itemsm.len() as int) =~= itemsm);
        assert(suffix_flags(flags_rev@, itemsm.len() as int, itemsm.len() as int)
            =~= Seq::<bool>::empty());
    }
    while i > 0
        invariant
            i <= text@.len(),
            wf_shared(*sh),
            itemsm == text@,
            opsm == crate::value::ops_model(ops@),
            flags_rev@.len() == text@.len() - i,
            target == spec_filter_flags_chars(itemsm, opsm, old(sh)@, depth as nat),
            ({
                let inner = spec_filter_flags_chars(
                    itemsm.subrange(0, i as int),
                    opsm,
                    sh@,
                    depth as nat,
                );
                target == (match inner.r {
                    Ok(fs) => PartOut::<Seq<bool>> {
                        r: Ok(fs + suffix_flags(flags_rev@, i as int, itemsm.len() as int)),
                        sh: inner.sh,
                    },
                    Err(e) => PartOut::<Seq<bool>> { r: Err(e), sh: inner.sh },
                })
            }),
        decreases i,
    {
        i = i - 1;
        let ghost pre = itemsm.subrange(0, i as int + 1);
        let ghost sh0 = sh@;
        let c = text[i];
        proof {
            assert(pre.last() == itemsm[i as int]);
            assert(pre.drop_last() =~= itemsm.subrange(0, i as int));
        }
        let r = calc_char(c, ops, sh, depth);
        match r {
            Ok(v) => {
                let t = v.truthy();
                let ghost frm = flags_rev@;
                flags_rev.push(t);
                proof {
                    let inner2 = spec_filter_flags_chars(
                        itemsm.subrange(0, i as int),
                        opsm,
                        sh@,
                        depth as nat,
                    );
                    if inner2.r is Ok {
                        assert(inner2.r->Ok_0.push(t) + suffix_flags(
                            frm,
                            i as int + 1,
                            itemsm.len() as int,
                        ) =~= inner2.r->Ok_0 + suffix_flags(
                            flags_rev@,
                            i as int,
                            itemsm.len() as int,
                        ));
                    }
                }
            },
            Err(e) => {
                return Err(e);
            },
        }
    }
    let ghost f = Seq::new(text@.len(), |k: int| flags_rev@[text@.len() - 1 - k]);
    proof {
        assert(itemsm.subrange(0, 0) =~= Seq::<char>::empty());
        assert(Seq::<bool>::empty() + suffix_flags(flags_rev@, 0, itemsm.len() as int)
            =~= suffix_flags(flags_rev@, 0, itemsm.len() as int));
        assert(f =~= suffix_flags(flags_rev@, 0, itemsm.len() as int));
    }
    let n = text.len();
    let mut out: Vec<char> = Vec::new();
    let mut idx: usize = 0;
    while idx < n
        invariant
            idx <= n,
            n == text@.len(),
            n == flags_rev@.len(),
            f == Seq::new(text@.len(), |k: int| flags_rev@[text@.len() - 1 - k]),
            out@ == spec_keep_chars(text@.subrange(0, idx as int), f),
        decreases n - idx,
    {
        if flags_rev[n - 1 - idx] {
            out.push(text[idx]);
        }
        proof {
            let p = text@.subrange(0, idx as int + 1);
            assert(p.drop_last() =~= text@.subrange(0, idx as int));
            assert(p.last() == text@[idx as int]);
            assert(out@ =~= spec_keep_chars(p, f));
        }
        idx = idx + 1;
    }
    proof {
        assert(text@.subrange(0, n as int) =~= text@);
    }
    Ok(out)
}

/// The models of a value sequence with one element removed.
/// The models of a value sequence with one element removed.
proof fn lemma_vals_of_remove(s: Seq<Value>, i: int)
    requires
        0 <= i < s.len(),
    ensures
        vals_of(s.remove(i)) == vals_of(s).remove(i),
{
    lemma_vals_of(s);
    lemma_vals_of(s.remove(i));
    assert(vals_of(s.remove(i)) =~= vals_of(s).remove(i));
}

/// Sort an array by the key each element maps to through the block,
/// exactly as `spec_sort` states it: the keys are computed on fresh
/// sub-stacks sharing the parent's variable slots and input, and the
/// elements are then selected stably by their keys.
pub fn sort_list(arr: Vec<Value>, ops: &Vec<Op>, sh: &mut Shared, depth: u64) -> (r: Result<
    Vec<Value>,
    Error,
>)
    requires
        wf_shared(*old(sh)),
    ensures
        wf_shared(*final(sh)),
        ({
            let so = spec_sort(
                vals_of(arr@),
                crate::value::ops_model(ops@),
                old(sh)@,
                depth as nat,
            );
            (match so.r {
                Ok(items) => r matches Ok(out) && vals_of(out@) == items,
                Err(e) => r matches Err(er) && er@ == e,
            }) && final(sh)@ == so.sh
        }),
    decreases depth, 4int, 0int,
{
    proof {
        lemma_vals_of(arr@);
    }
    let ghost itemsm = vals_of(arr@);
    let ghost opsm = crate::value::ops_model(ops@);
    let ghost target = spec_sort(itemsm, opsm, old(sh)@, depth as nat);
    let mut keys: Vec<Value> = Vec::new();
    let mut i: usize = 0;
    proof {
        lemma_vals_of(keys@);
        assert(itemsm.subrange(0, itemsm.len() as int) =~= itemsm);
        assert(vals_of(keys@) =~= Seq::<Val>::empty());
    }
    while i < arr.len()
        invariant
            i <= arr@.len(),
            wf_shared(*sh),
            itemsm == vals_of(arr@),
            itemsm.len() == arr@.len(),
            opsm == crate::value::ops_model(ops@),
            keys@.len() == i,
            target == spec_sort(itemsm, opsm, old(sh)@, depth as nat),
            ({
                let inner = spec_map(
                    itemsm.subrange(i as int, itemsm.len() as int),
                    opsm,
                    sh@,
                    depth as nat,
                );
                spec_map(itemsm, opsm, old(sh)@, depth as nat) == (match inner.r {
                    Ok(vs) => PartOut::<Seq<Val>> { r: Ok(vals_of(keys@) + vs), sh: inner.sh },
                    Err(e) => PartOut::<Seq<Val>> { r: Err(e), sh: inner.sh },
                })
            }),
        decreases arr@.len() - i,
    {
        let ghost tail = itemsm.subrange(i as int, itemsm.len() as int);
        let mut tmp: Vec<Value> = Vec::new();
        let e = arr[i].clone();
        proof {
            lemma_vals_of(arr@);
            lemma_vals_of(tmp@);
            assert(vals_of(tmp@) =~= Seq::<Val>::empty());
            assert(tail[0] == itemsm[i as int]);
            assert(tail.drop_first() =~= itemsm.subrange(i as int + 1, itemsm.len() as int));
        }
        let r = calculate(e, ops, &mut tmp, sh, depth);
        match r {
            Ok(k) => {
                let ghost km = vals_of(keys@);
                let ghost vm = k@;
                push_traced(&mut keys, k);
                proof {
                    let inner2 = spec_map(
                        itemsm.subrange(i as int + 1, itemsm.len() as int),
                        opsm,
                        sh@,
                        depth as nat,
                    );
                    if inner2.r is Ok {
                        assert(km.push(vm) + inner2.r->Ok_0 =~= km + (seq![vm]
                            + inner2.r->Ok_0));
                    }
                }
            },
            Err(e) => {
                return Err(e);
            },
        }
        i = i + 1;
    }
    proof {
        assert(itemsm.subrange(i as int, itemsm.len() as int) =~= Seq::<Val>::empty());
        assert(vals_of(keys@) + Seq::<Val>::empty() =~= vals_of(keys@));
    }
    let ghost ks = vals_of(keys@);
    let mut rem_e = arr;
    let mut rem_k = keys;
    let mut out: Vec<Value> = Vec::new();
    proof {
        lemma_vals_of(out@);
        assert(vals_of(out@) =~= Seq::<Val>::empty());
        assert(vals_of(out@) + spec_select(vals_of(rem_e@), vals_of(rem_k@)) =~= spec_select(
            itemsm,
            ks,
        ));
    }
    while rem_e.len() > 0
        invariant
            rem_k@.len() == rem_e@.len(),
            vals_of(out@) + spec_select(vals_of(rem_e@), vals_of(rem_k@)) == spec_select(
                itemsm,
                ks,
            ),
        decreases rem_e@.len(),
    {
        proof {
            lemma_vals_of(rem_e@);
            lemma_vals_of(rem_k@);
        }
        let ghost km = vals_of(rem_k@);
        let mut best: usize = 0;
        let mut j: usize = 1;
        while j < rem_k.len()
            invariant
                best < j,
                1 <= j,
                best < rem_k@.len(),
                rem_k@.len() == rem_e@.len(),
                km == vals_of(rem_k@),
                km.len() == rem_k@.len(),
                spec_best(km, 1, 0) == spec_best(km, j as int, best as int),
            decreases rem_k@.len() - j,
        {
            proof {
                lemma_vals_of(rem_k@);
            }
            let c = rem_k[j].partial_cmp(&rem_k[best]);
            let less = match c {
                Some(core::cmp::Ordering::Less) => true,
                _ => false,
            };
            if less {
                best = j;
            }
            j = j + 1;
        }
        proof {
            assert(spec_best(km, j as int, best as int) == best as int);
            assert(spec_best(km, 1, 0) == best as int);
        }
        let ghost rem_before = rem_e@;
        let ghost remk_before = rem_k@;
        let ghost out_before = out@;
        let e = rem_e.remove(best);
        let _k = rem_k.remove(best);
        let ghost ev = e;
        push_traced(&mut out, e);
        proof {
            lemma_vals_of_remove(rem_before, best as int);
            lemma_vals_of_remove(remk_before, best as int);
            lemma_vals_of(rem_before);
            assert(val_of(ev) == vals_of(rem_before)[best as int]);
            assert(vals_of(out@) + spec_select(vals_of(rem_e@), vals_of(rem_k@)) =~= spec_select(
                itemsm,
                ks,
            ));
        }
    }
    proof {
        lemma_vals_of(rem_e@);
        assert(vals_of(rem_e@) =~= Seq::<Val>::empty());
        assert(vals_of(out@) + spec_select(vals_of(rem_e@), vals_of(rem_k@)) =~= vals_of(out@));
    }
    Ok(out)
}

/// The first index at or after `i` that is neither trim character.
/// The first index at or after `i` that is neither trim character.
pub open spec fn spec_skip_set(t: Seq<char>, a: char, b: char, i: int) -> int
    decreases t.len() - i,
{
    if i < 0 || i >= t.len() {
        t.len() as int
    } else if t[i] == a || t[i] == b {
        spec_skip_set(t, a, b, i + 1)
    } else {
        i
    }
}

/// The last index at or before `i` that is neither trim character, or -1.
pub open spec fn spec_rskip_set(t: Seq<char>, a: char, b: char, i: int) -> int
    decreases i + 1,
{
    if i < 0 {
        -1
    } else if i >= t.len() {
        -1
    } else if t[i] == a || t[i] == b {
        spec_rskip_set(t, a, b, i - 1)
    } else {
        i
    }
}

/// A token with every leading and trailing occurrence of two characters
/// removed, as `str::trim_matches` trims.
pub open spec fn spec_trim_set(t: Seq<char>, a: char, b: char) -> Seq<char> {
    let s = spec_skip_set(t, a, b, 0);
    let e = spec_rskip_set(t, a, b, t.len() - 1);
    if s > e {
        Seq::empty()
    } else {
        t.subrange(s, e + 1)
    }
}

/// Trim every leading and trailing occurrence of two characters.
fn trim_set(t: &Vec<char>, a: char, b: char) -> (r: Vec<char>)
    ensures
        r@ == spec_trim_set(t@, a, b),
{
    let n = t.len();
    let mut s: usize = 0;
    while s < n && (t[s] == a || t[s] == b)
        invariant
            s <= n,
            n == t@.len(),
            spec_skip_set(t@, a, b, 0) == spec_skip_set(t@, a, b, s as int),
        decreases n - s,
    {
        s = s + 1;
    }
    proof {
        if s < n {
            assert(spec_skip_set(t@, a, b, s as int) == s);
        } else {
            assert(spec_skip_set(t@, a, b, s as int) == n as int);
        }
    }
    let mut e: usize = n;
    while e > s && (t[e - 1] == a || t[e - 1] == b)
        invariant
            s <= e <= n,
            n == t@.len(),
            s as int == spec_skip_set(t@, a, b, 0),
            s < n ==> !(t@[s as int] == a || t@[s as int] == b),
            s < n ==> e > s,
            spec_rskip_set(t@, a, b, n as int - 1) == spec_rskip_set(t@, a, b, e as int - 1),
        decreases e,
    {
        e = e - 1;
    }
    proof {
        if e > s {
            assert(spec_rskip_set(t@, a, b, e as int - 1) == e as int - 1);
        } else {
            assert(s == n);
            lemma_rskip_below(t@, a, b, e as int - 1);
        }
    }
    crate::arith::copy_range(t, s, e)
}

/// The last untrimmed index never exceeds where the scan starts.
proof fn lemma_rskip_below(t: Seq<char>, a: char, b: char, i: int)
    requires
        -1 <= i,
    ensures
        spec_rskip_set(t, a, b, i) <= i,
        spec_rskip_set(t, a, b, i) >= -1,
    decreases i + 1,
{
    if !(i < 0 || i >= t.len()) && (t[i] == a || t[i] == b) {
        lemma_rskip_below(t, a, b, i - 1);
    }
}

/// A scalar literal: a lowercase letter is a character, a decimal token an
/// integer, and a quoted token text with the quotes trimmed.  Array and
/// block literals are not scalars.
pub open spec fn spec_scalar_literal(t: Seq<char>) -> Option<Val> {
    if t.len() == 1 && 97 <= (t[0] as u32) <= 122 {
        Some(Val::Char(t[0]))
    } else if crate::strings::spec_parse_i64(t) is Some {
        Some(Val::Integer(crate::strings::spec_parse_i64(t)->Some_0))
    } else if t.len() >= 1 && t[0] == '[' && t[t.len() - 1] == ']' {
        None
    } else if t.len() >= 1 && t[0] == '"' && t[t.len() - 1] == '"' {
        Some(Val::Str(spec_trim_set(t, '"', '"')))
    } else {
        None
    }
}

/// The operators a token list resolves to, or nothing when some token
/// resolves to nothing.
pub open spec fn spec_resolve_all(ts: Seq<Seq<char>>) -> Option<Seq<crate::value::OpModel>>
    decreases ts.len(),
{
    if ts.len() == 0 {
        Some(Seq::empty())
    } else {
        match (crate::ops::spec_classify(ts[0]), spec_resolve_all(ts.drop_first())) {
            (Some(k), Some(rest)) => Some(
                seq![crate::value::OpModel { kind: k, text: ts[0] }] + rest,
            ),
            _ => None,
        }
    }
}

/// The model of a resolved prefix grows one operator at a time.
proof fn lemma_resolve_all_step(ts: Seq<Seq<char>>, i: int)
    requires
        0 <= i < ts.len(),
        spec_resolve_all(ts.subrange(0, i)) is Some,
        crate::ops::spec_classify(ts[i]) is Some,
    ensures
        spec_resolve_all(ts.subrange(0, i + 1)) == Some(
            spec_resolve_all(ts.subrange(0, i))->Some_0 + seq![
                crate::value::OpModel {
                    kind: crate::ops::spec_classify(ts[i])->Some_0,
                    text: ts[i],
                },
            ],
        ),
    decreases i,
{
    let p = ts.subrange(0, i + 1);
    if i == 0 {
        assert(p.drop_first() =~= Seq::<Seq<char>>::empty());
        assert(ts.subrange(0, 0) =~= Seq::<Seq<char>>::empty());
        assert(spec_resolve_all(p)->Some_0 =~= spec_resolve_all(ts.subrange(0, 0))->Some_0
            + seq![
            crate::value::OpModel { kind: crate::ops::spec_classify(ts[0])->Some_0, text: ts[0] },
        ]);
    } else {
        let q = ts.drop_first();
        assert(ts.subrange(0, i).drop_first() =~= q.subrange(0, i - 1));
        assert(p[0] == ts[0]);
        assert(p.drop_first() =~= q.subrange(0, i));
        assert(q[i - 1] == ts[i]);
        lemma_resolve_all_step(q, i - 1);
        assert(spec_resolve_all(ts.subrange(0, i)) is Some);
        assert(spec_resolve_all(q.subrange(0, i - 1)) is Some);
        assert(spec_resolve_all(p)->Some_0 =~= spec_resolve_all(ts.subrange(0, i))->Some_0
            + seq![
            crate::value::OpModel { kind: crate::ops::spec_classify(ts[i])->Some_0, text: ts[i] },
        ]);
    }
}

/// A token that resolves to nothing abandons the whole list.
proof fn lemma_resolve_all_fails(ts: Seq<Seq<char>>, i: int)
    requires
        0 <= i < ts.len(),
        crate::ops::spec_classify(ts[i]) is None,
    ensures
        spec_resolve_all(ts) is None,
    decreases i,
{
    if i > 0 {
        lemma_resolve_all_fails(ts.drop_first(), i - 1);
    }
}

/// Resolve every token to an operator, as `spec_resolve_all` states it;
/// any failure abandons the list.
fn resolve_all(tokens: &Vec<Vec<char>>) -> (r: Option<Vec<Op>>)
    ensures
        match r {
            Some(ops) => spec_resolve_all(crate::tokens::texts_of(tokens@)) == Some(
                crate::value::ops_model(ops@),
            ),
            None => spec_resolve_all(crate::tokens::texts_of(tokens@)) is None,
        },
{
    let ghost ts = crate::tokens::texts_of(tokens@);
    let mut out: Vec<Op> = Vec::new();
    let mut i: usize = 0;
    proof {
        assert(ts.subrange(0, 0) =~= Seq::<Seq<char>>::empty());
        assert(crate::value::ops_model(out@) =~= Seq::<crate::value::OpModel>::empty());
    }
    while i < tokens.len()
        invariant
            i <= tokens@.len(),
            ts == crate::tokens::texts_of(tokens@),
            ts.len() == tokens@.len(),
            spec_resolve_all(ts.subrange(0, i as int)) == Some(crate::value::ops_model(out@)),
            out@.len() == i,
        decreases tokens@.len() - i,
    {
        let r = crate::ops::resolve(&tokens[i]);
        proof {
            assert(ts[i as int] == tokens@[i as int]@);
        }
        match r {
            Ok(op) => {
                let ghost before = out@;
                out.push(op);
                proof {
                    lemma_resolve_all_step(ts, i as int);
                    assert(crate::value::ops_model(out@) =~= crate::value::ops_model(before)
                        + seq![crate::value::op_model(out@.last())]);
                }
            },
            Err(_) => {
                proof {
                    lemma_resolve_all_fails(ts, i as int);
                }
                return None;
            },
        }
        i = i + 1;
    }
    proof {
        assert(ts.subrange(0, ts.len() as int) =~= ts);
    }
    Some(out)
}

/// A block literal: a brace-delimited token whose trimmed interior
/// tokenizes and resolves completely, as the stored operator list.
pub open spec fn spec_block_literal(t: Seq<char>) -> Option<Seq<crate::value::OpModel>> {
    if spec_scalar_literal(t) is None && t.len() >= 1 && t[0] == '{' && t[t.len() - 1] == '}' {
        spec_resolve_all(crate::tokens::spec_tokens(spec_trim_set(t, '{', '}')))
    } else {
        None
    }
}

/// Parse a literal token and push its value: a lowercase letter, an
/// integer, an array literal whose inner operators each run as their own
/// one-token program against a fresh sub-stack, quoted text, or a block.
/// A token of no such form is a syntax error.
pub fn parse_push(t: &Vec<char>, vals: &mut Vec<Value>, sh: &mut Shared, depth: u64) -> (r: Result<
    (),
    Error,
>)
    requires
        wf_shared(*old(sh)),
    ensures
        wf_shared(*final(sh)),
        ({
            let st = spec_parse_push(t@, vals_of(old(vals)@), old(sh)@, depth as nat);
            (match st.r {
                Ok(_) => r is Ok,
                Err(e) => r matches Err(er) && er@ == e,
            }) && vals_of(final(vals)@) == st.vals && final(sh)@ == st.sh
        }),
    decreases depth, 0int, 1int,
{
    if t.len() == 1 && t[0] as u32 >= 97 && t[0] as u32 <= 122 {
        let c = t[0];
        proof {
            crate::value::lemma_char_value(c);
        }
        push_traced(vals, Value::Char(c));
        return Ok(());
    }
    let parsed = crate::strings::parse_i64(t);
    match parsed {
        Some(i) => {
            push_traced(vals, Value::Integer(i));
            return Ok(());
        },
        None => {},
    }
    let n = t.len();
    if n >= 1 && t[0] == '[' && t[n - 1] == ']' {
        let inner = trim_set(t, '[', ']');
        let toks = crate::tokens::split_tokens(&inner);
        let resolved = resolve_all(&toks);
        match resolved {
            Some(ops) => {
                let ghost opsm = crate::value::ops_model(ops@);
                proof {
                    assert(spec_scalar_literal(t@) is None);
                    assert(spec_resolve_all(
                        crate::tokens::spec_tokens(spec_trim_set(t@, '[', ']')),
                    ) == Some(opsm));
                }
                if ops.len() == 0 {
                    let items: Vec<Value> = Vec::new();
                    proof {
                        lemma_vals_of(items@);
                        assert(vals_of(items@) =~= Seq::<Val>::empty());
                    }
                    push_traced(vals, Value::Array(items));
                    return Ok(());
                }
                if depth == 0 {
                    return Err(Error::Runtime(RuntimeError::NestingTooDeep));
                }
                let ghost target = spec_array_items(opsm, old(sh)@, (depth - 1) as nat);
                let mut items: Vec<Value> = Vec::new();
                let mut i: usize = 0;
                proof {
                    lemma_vals_of(items@);
                    assert(opsm.subrange(0, opsm.len() as int) =~= opsm);
                    assert(vals_of(items@) =~= Seq::<Val>::empty());
                }
                while i < ops.len()
                    invariant
                        i <= ops@.len(),
                        wf_shared(*sh),
                        depth >= 1,
                        spec_scalar_literal(t@) is None,
                        t@.len() >= 1,
                        t@[0] == '[',
                        t@[t@.len() - 1] == ']',
                        spec_resolve_all(
                            crate::tokens::spec_tokens(spec_trim_set(t@, '[', ']')),
                        ) == Some(opsm),
                        opsm == crate::value::ops_model(ops@),
                        opsm.len() == ops@.len(),
                        opsm.len() > 0,
                        vals@ == old(vals)@,
                        target == spec_array_items(opsm, old(sh)@, (depth - 1) as nat),
                        ({
                            let part = spec_array_items(
                                opsm.subrange(i as int, opsm.len() as int),
                                sh@,
                                (depth - 1) as nat,
                            );
                            target == (match part.r {
                                Ok(vs) => PartOut::<Seq<Val>> {
                                    r: Ok(vals_of(items@) + vs),
                                    sh: part.sh,
                                },
                                Err(e) => PartOut::<Seq<Val>> { r: Err(e), sh: part.sh },
                            })
                        }),
                    decreases ops@.len() - i,
                {
                    let ghost tail = opsm.subrange(i as int, opsm.len() as int);
                    let mut tmp: Vec<Value> = Vec::new();
                    proof {
                        lemma_vals_of(tmp@);
                        assert(vals_of(tmp@) =~= Seq::<Val>::empty());
                        assert(tail[0] == crate::value::op_model(ops@[i as int]));
                        assert(tail.drop_first() =~= opsm.subrange(
                            i as int + 1,
                            opsm.len() as int,
                        ));
                    }
                    let r = run_op(&ops[i], &mut tmp, sh, depth - 1);
                    match r {
                        Ok(_) => {},
                        Err(e) => {
                            return Err(e);
                        },
                    }
                    proof {
                        if tmp@.len() > 0 {
                            crate::value::lemma_vals_of_drop_last(tmp@);
                        }
                    }
                    let popped = pop_val(&mut tmp);
                    match popped {
                        Ok(v) => {
                            let ghost im = vals_of(items@);
                            let ghost vm = v@;
                            push_traced(&mut items, v);
                            proof {
                                let part2 = spec_array_items(
                                    opsm.subrange(i as int + 1, opsm.len() as int),
                                    sh@,
                                    (depth - 1) as nat,
                                );
                                if part2.r is Ok {
                                    assert(im.push(vm) + part2.r->Ok_0 =~= im + (seq![vm]
                                        + part2.r->Ok_0));
                                }
                            }
                        },
                        Err(e) => {
                            return Err(e);
                        },
                    }
                    i = i + 1;
                }
                proof {
                    assert(opsm.subrange(i as int, opsm.len() as int) =~= Seq::<
                        crate::value::OpModel,
                    >::empty());
                    assert(vals_of(items@) + Seq::<Val>::empty() =~= vals_of(items@));
                }
                push_traced(vals, Value::Array(items));
                return Ok(());
            },
            None => {},
        }
    }
    if n >= 1 && t[0] == '"' && t[n - 1] == '"' {
        let inner = trim_set(t, '"', '"');
        push_traced(vals, Value::Str(inner));
        return Ok(());
    }
    if n >= 1 && t[0] == '{' && t[n - 1] == '}' {
        let inner = trim_set(t, '{', '}');
        let toks = crate::tokens::split_tokens(&inner);
        let resolved = resolve_all(&toks);
        match resolved {
            Some(ops) => {
                push_traced(vals, Value::Block(std::rc::Rc::new(ops)));
                return Ok(());
            },
            None => {},
        }
    }
    Err(Error::Syntax(SyntaxError(crate::value::clone_chars(t))))
}

/// Push one value, keeping the stack model in step.
fn push_traced(vals: &mut Vec<Value>, v: Value)
    ensures
        final(vals)@ == old(vals)@.push(v),
        vals_of(final(vals)@) == vals_of(old(vals)@).push(v@),
{
    let ghost before = vals@;
    let ghost vg = v;
    vals.push(v);
    proof {
        lemma_vals_of_push(before, vg);
    }
}

/// Run one operator against the stack, exactly as `spec_step` states it.
pub fn run_op(op: &Op, vals: &mut Vec<Value>, sh: &mut Shared, depth: u64) -> (r: Result<
    (),
    Error,
>)
    requires
        wf_shared(*old(sh)),
    ensures
        wf_shared(*final(sh)),
        ({
            let st = spec_step(op@, vals_of(old(vals)@), old(sh)@, depth as nat);
            (match st.r {
                Ok(_) => r is Ok,
                Err(e) => r matches Err(er) && er@ == e,
            }) && vals_of(final(vals)@) == st.vals && final(sh)@ == st.sh
        }),
    decreases depth, 1int, 0int,
{
    match op.kind {
        OpKind::Binary(b) => run_binary(b, vals, sh, depth),
        OpKind::Unary(u) => run_unary(u, vals, sh, depth),
        OpKind::Nullary(n) => run_nullary(n, vals, sh),
        OpKind::Ternary(_) => {
            proof {
                lemma_vals_of(old(vals)@);
                if old(vals)@.len() >= 1 {
                    crate::value::lemma_vals_of_drop_last(old(vals)@);
                }
            }
            run_ternary(vals)
        },
        OpKind::Stack(k) => run_stack(k, &op.text, vals, sh, depth),
    }
}

/// Run a binary operator, exactly as `spec_step_binary` states it: pop the
/// second then the first operand and combine them; a block second operand
/// makes `*` a fold and `%` a map.
pub fn run_binary(b: BinaryOp, vals: &mut Vec<Value>, sh: &mut Shared, depth: u64) -> (r: Result<
    (),
    Error,
>)
    requires
        wf_shared(*old(sh)),
    ensures
        wf_shared(*final(sh)),
        ({
            let st = spec_step_binary(b, vals_of(old(vals)@), old(sh)@, depth as nat);
            (match st.r {
                Ok(_) => r is Ok,
                Err(e) => r matches Err(er) && er@ == e,
            }) && vals_of(final(vals)@) == st.vals && final(sh)@ == st.sh
        }),
    decreases depth, 0int, 9int,
{
    proof {
        if old(vals)@.len() >= 1 {
            crate::value::lemma_vals_of_drop_last(old(vals)@);
        }
        if old(vals)@.len() >= 2 {
            crate::value::lemma_vals_of_drop_last(old(vals)@.drop_last());
            lemma_vals_of(old(vals)@);
            assert(vals_of(old(vals)@).subrange(0, old(vals)@.len() - 2) =~= vals_of(
                old(vals)@.drop_last().drop_last(),
            ));
            assert(vals_of(old(vals)@).drop_last().drop_last() =~= vals_of(
                old(vals)@,
            ).subrange(0, old(vals)@.len() - 2));
        }
    }
    let snd = match pop_val(vals) {
        Ok(v) => v,
        Err(e) => {
            return Err(e);
        },
    };
    let fst = match pop_val(vals) {
        Ok(v) => v,
        Err(e) => {
            return Err(e);
        },
    };
    let computed: Result<Value, Error> = match b {
        BinaryOp::Add => wrap_rt(fst.add(snd)),
        BinaryOp::Sub => wrap_rt(fst.sub(snd)),
        BinaryOp::Mul => match (fst, snd) {
            (Value::Array(a), Value::Block(blk)) => {
                if depth == 0 {
                    Err(Error::Runtime(RuntimeError::NestingTooDeep))
                } else {
                    fold_list(a, &*blk, sh, depth - 1)
                }
            },
            (f, s) => wrap_rt(f.mul(s)),
        },
        BinaryOp::Div => wrap_rt(fst.div(snd)),
        BinaryOp::BitAnd => wrap_rt(fst.bitand(snd)),
        BinaryOp::BitOr => wrap_rt(fst.bitor(snd)),
        BinaryOp::BitXor => wrap_rt(fst.bitxor(snd)),
        BinaryOp::Rem => match (fst, snd) {
            (Value::Array(a), Value::Block(blk)) => {
                if depth == 0 {
                    Err(Error::Runtime(RuntimeError::NestingTooDeep))
                } else {
                    let m = map_list(a, &*blk, sh, depth - 1);
                    match m {
                        Ok(items) => Ok(Value::Array(items)),
                        Err(e) => Err(e),
                    }
                }
            },
            (Value::Str(t), Value::Block(blk)) => {
                if depth == 0 {
                    Err(Error::Runtime(RuntimeError::NestingTooDeep))
                } else {
                    let m = map_chars(t, &*blk, sh, depth - 1);
                    match m {
                        Ok(cs) => Ok(Value::Str(cs)),
                        Err(e) => Err(e),
                    }
                }
            },
            (f, s) => wrap_rt(f.rem(s)),
        },
        BinaryOp::EagerAnd => Ok(fst.and(snd)),
        BinaryOp::EagerOr => Ok(fst.or(snd)),
        BinaryOp::Min => wrap_rt(fst.min(snd)),
        BinaryOp::Max => wrap_rt(fst.max(snd)),
        BinaryOp::Greater => wrap_rt(crate::arith::op_gt(fst, snd)),
        BinaryOp::Less => wrap_rt(crate::arith::op_lt(fst, snd)),
        BinaryOp::Equal => wrap_rt(crate::arith::op_eq(fst, snd)),
        BinaryOp::Pow => wrap_rt(fst.pow(snd)),
    };
    match computed {
        Ok(v) => {
            push_traced(vals, v);
            Ok(())
        },
        Err(e) => Err(e),
    }
}

/// Wrap a value-model result into an engine result.
fn wrap_rt(r: Result<Value, RuntimeError>) -> (res: Result<Value, Error>)
    ensures
        r matches Ok(v) ==> (res matches Ok(w) && w == v),
        r matches Err(e) ==> (res matches Err(w) && w@ == ErrorVal::Runtime(e@)),
{
    match r {
        Ok(v) => Ok(v),
        Err(e) => Err(Error::Runtime(e)),
    }
}

/// Whether a unary operator, on this operand, works through the value
/// tables alone: a block operand makes `,` a filter and `~` a block run,
/// both of which drive sub-programs, and an array operand makes `~` a
/// multi-value spread.
pub open spec fn spec_unary_is_pure(u: UnaryOp, x: Val) -> bool {
    match u {
        UnaryOp::Dup => false,
        UnaryOp::Print => false,
        UnaryOp::Comma => !(x is Block),
        UnaryOp::Spread => !(x is Block) && !(x is Array),
        _ => true,
    }
}

/// What each pure unary operator yields on its popped operand.
pub open spec fn spec_unary_pure(u: UnaryOp, x: Val) -> Result<Val, ErrVal> {
    match u {
        UnaryOp::Not => Ok(
            crate::arith::bool_val(!crate::value::spec_truthy(x)),
        ),
        UnaryOp::ToChar => crate::casts::spec_to_char(x),
        UnaryOp::ToFloat => crate::casts::spec_to_float(x),
        UnaryOp::ToInt => crate::casts::spec_to_int(x),
        UnaryOp::ToStr => crate::casts::spec_to_str(x),
        UnaryOp::Spread => match x {
            Val::Integer(i) => Ok(Val::Integer(!i)),
            _ => Err(ErrVal::InvalidOperation(seq![x], "bit_not_or_spread"@)),
        },
        UnaryOp::Comma => match x {
            Val::Integer(i) => Ok(Val::Array(spec_range_vals(i as int))),
            Val::Array(a) => Ok(Val::Integer(a.len() as i64)),
            Val::Str(t) => Ok(Val::Integer(crate::strings::spec_byte_len(t) as i64)),
            _ => Err(ErrVal::InvalidOperation(seq![x], "length_range"@)),
        },
        UnaryOp::SplitWhitespace => match x {
            Val::Str(t) => Ok(Val::Array(crate::arith::spec_str_pieces(spec_split_ws(t)))),
            _ => Err(ErrVal::InvalidOperation(seq![x], "split_whitespace"@)),
        },
        UnaryOp::SplitNewline => match x {
            Val::Str(t) => Ok(
                Val::Array(
                    crate::arith::spec_str_pieces(crate::strings::spec_split(t, seq!['\n'])),
                ),
            ),
            _ => Err(ErrVal::InvalidOperation(seq![x], "split_newline"@)),
        },
        _ => Err(ErrVal::StackEmpty),
    }
}

/// Run a unary operator, exactly as `spec_step_unary` states it: `_` and
/// `p` peek at the top, everything else pops it; the pure operators go
/// through the value tables, `~` spreads an array or runs a block in
/// place, and `,` with a block filters the value below it.
pub fn run_unary(u: UnaryOp, vals: &mut Vec<Value>, sh: &mut Shared, depth: u64) -> (r: Result<
    (),
    Error,
>)
    requires
        wf_shared(*old(sh)),
    ensures
        wf_shared(*final(sh)),
        ({
            let st = spec_step_unary(u, vals_of(old(vals)@), old(sh)@, depth as nat);
            (match st.r {
                Ok(_) => r is Ok,
                Err(e) => r matches Err(er) && er@ == e,
            }) && vals_of(final(vals)@) == st.vals && final(sh)@ == st.sh
        }),
    decreases depth, 0int, 9int,
{
    proof {
        if old(vals)@.len() >= 1 {
            crate::value::lemma_vals_of_drop_last(old(vals)@);
        }
    }
    match u {
        UnaryOp::Dup => {
            if vals.len() == 0 {
                return Err(Error::Runtime(RuntimeError::StackEmpty));
            }
            let v = vals[vals.len() - 1].clone();
            push_traced(vals, v);
            Ok(())
        },
        UnaryOp::Print => {
            if vals.len() == 0 {
                return Err(Error::Runtime(RuntimeError::StackEmpty));
            }
            let text = crate::render::display_value(&vals[vals.len() - 1]);
            sh.out.push(text);
            proof {
                assert(crate::stack::outs_of(sh.out@) =~~= crate::stack::outs_of(
                    old(sh).out@,
                ).push(crate::render::spec_display(vals_of(old(vals)@).last())));
                assert(sh@ =~= spec_step_unary(
                    u,
                    vals_of(old(vals)@),
                    old(sh)@,
                    depth as nat,
                ).sh);
            }
            Ok(())
        },
        UnaryOp::Not => {
            let x = match pop_val(vals) {
                Ok(v) => v,
                Err(e) => {
                    return Err(e);
                },
            };
            let t = x.truthy();
            push_traced(
                vals,
                Value::Integer(
                    if t {
                        0
                    } else {
                        1
                    },
                ),
            );
            Ok(())
        },
        UnaryOp::ToChar => pop_apply_cast(vals, 0),
        UnaryOp::ToFloat => pop_apply_cast(vals, 1),
        UnaryOp::ToInt => pop_apply_cast(vals, 2),
        UnaryOp::ToStr => pop_apply_cast(vals, 3),
        UnaryOp::Spread => {
            let x = match pop_val(vals) {
                Ok(v) => v,
                Err(e) => {
                    return Err(e);
                },
            };
            match x {
                Value::Integer(i) => {
                    let flipped: i64 = !i;
                    proof {
                        crate::value::lemma_int_value(flipped);
                    }
                    push_traced(vals, Value::Integer(flipped));
                    Ok(())
                },
                Value::Array(a) => {
                    let ghost base = vals_of(vals@);
                    let ghost am = vals_of(a@);
                    proof {
                        lemma_vals_of(a@);
                    }
                    let mut i: usize = 0;
                    while i < a.len()
                        invariant
                            i <= a@.len(),
                            am == vals_of(a@),
                            am.len() == a@.len(),
                            vals_of(vals@) == base + am.subrange(0, i as int),
                        decreases a@.len() - i,
                    {
                        let e = a[i].clone();
                        let ghost before = vals@;
                        vals.push(e);
                        proof {
                            lemma_vals_of_push(before, vals@.last());
                            lemma_vals_of(a@);
                            assert(vals_of(vals@) =~= base + am.subrange(0, i as int + 1));
                        }
                        i = i + 1;
                    }
                    proof {
                        assert(am.subrange(0, am.len() as int) =~= am);
                    }
                    Ok(())
                },
                Value::Block(blk) => {
                    if depth == 0 {
                        return Err(Error::Runtime(RuntimeError::NestingTooDeep));
                    }
                    execute(&*blk, vals, sh, depth - 1)
                },
                x => Err(wrap1(x, "bit_not_or_spread")),
            }
        },
        UnaryOp::Comma => {
            let x = match pop_val(vals) {
                Ok(v) => v,
                Err(e) => {
                    return Err(e);
                },
            };
            match x {
                Value::Integer(i) => {
                    let range = range_values(i);
                    push_traced(vals, Value::Array(range));
                    Ok(())
                },
                Value::Array(a) => {
                    proof {
                        lemma_vals_of(a@);
                    }
                    let n = a.len();
                    let count: i64 = #[verifier::truncate] (n as i64);
                    proof {
                        crate::value::lemma_int_value(count);
                    }
                    push_traced(vals, Value::Integer(count));
                    Ok(())
                },
                Value::Str(t) => {
                    let b = crate::strings::byte_len(&t);
                    let count: i64 = #[verifier::truncate] (b as i64);
                    proof {
                        crate::value::lemma_int_value(count);
                    }
                    push_traced(vals, Value::Integer(count));
                    Ok(())
                },
                Value::Block(blk) => {
                    proof {
                        if vals@.len() > 0 {
                            crate::value::lemma_vals_of_drop_last(vals@);
                        }
                    }
                    let target = match pop_val(vals) {
                        Ok(v) => v,
                        Err(e) => {
                            return Err(e);
                        },
                    };
                    match target {
                        Value::Array(a) => {
                            if depth == 0 {
                                return Err(Error::Runtime(RuntimeError::NestingTooDeep));
                            }
                            let kept = filter_list(a, &*blk, sh, depth - 1);
                            match kept {
                                Ok(items) => {
                                    push_traced(vals, Value::Array(items));
                                    Ok(())
                                },
                                Err(e) => Err(e),
                            }
                        },
                        Value::Str(t) => {
                            if depth == 0 {
                                return Err(Error::Runtime(RuntimeError::NestingTooDeep));
                            }
                            let kept = filter_chars(t, &*blk, sh, depth - 1);
                            match kept {
                                Ok(cs) => {
                                    push_traced(vals, Value::Str(cs));
                                    Ok(())
                                },
                                Err(e) => Err(e),
                            }
                        },
                        x => Err(wrap1(x, "filter")),
                    }
                },
                x => Err(wrap1(x, "length_range")),
            }
        },
        UnaryOp::SplitWhitespace => {
            let x = match pop_val(vals) {
                Ok(v) => v,
                Err(e) => {
                    return Err(e);
                },
            };
            match x {
                Value::Str(t) => {
                    let pieces = split_ws(&t);
                    push_traced(vals, Value::Array(pieces));
                    Ok(())
                },
                x => Err(wrap1(x, "split_whitespace")),
            }
        },
        UnaryOp::SplitNewline => {
            let x = match pop_val(vals) {
                Ok(v) => v,
                Err(e) => {
                    return Err(e);
                },
            };
            match x {
                Value::Str(t) => {
                    let mut delim: Vec<char> = Vec::new();
                    delim.push('\n');
                    proof {
                        assert(delim@ =~= seq!['\n']);
                    }
                    let pieces = crate::arith::split_str(&t, &delim);
                    push_traced(vals, Value::Array(pieces));
                    Ok(())
                },
                x => Err(wrap1(x, "split_newline")),
            }
        },
    }
}

/// The cast a selector picks, in the fixed order character, float, integer,
/// text.
pub open spec fn spec_cast_of(which: u8, x: Val) -> Result<Val, ErrVal> {
    if which == 0 {
        crate::casts::spec_to_char(x)
    } else if which == 1 {
        crate::casts::spec_to_float(x)
    } else if which == 2 {
        crate::casts::spec_to_int(x)
    } else {
        crate::casts::spec_to_str(x)
    }
}

/// The invalid-operation error over one operand, wrapped.
fn wrap1(x: Value, name: &'static str) -> (r: Error)
    ensures
        r@ == ErrorVal::Runtime(ErrVal::InvalidOperation(seq![x@], name@)),
{
    let ghost xv = x@;
    let mut vs: Vec<Value> = Vec::new();
    vs.push(x);
    proof {
        lemma_vals_of(vs@);
        assert(vals_of(vs@) =~= seq![xv]);
    }
    Error::Runtime(RuntimeError::InvalidOperation(vs, name))
}

/// Pop the top and apply the cast picked by `which`, exactly as
/// `spec_cast_of` states it.
fn pop_apply_cast(vals: &mut Vec<Value>, which: u8) -> (r: Result<(), Error>)
    ensures
        old(vals)@.len() == 0 ==> (r matches Err(e) && e@ == ErrorVal::Runtime(
            ErrVal::StackEmpty,
        ) && final(vals)@ == old(vals)@),
        old(vals)@.len() >= 1 ==> match spec_cast_of(which, vals_of(old(vals)@).last()) {
            Ok(v) => r is Ok && vals_of(final(vals)@) == vals_of(old(vals)@).drop_last().push(
                v,
            ),
            Err(e) => (r matches Err(er) && er@ == ErrorVal::Runtime(e)) && vals_of(
                final(vals)@,
            ) == vals_of(old(vals)@).drop_last(),
        },
{
    proof {
        if old(vals)@.len() >= 1 {
            crate::value::lemma_vals_of_drop_last(old(vals)@);
        }
    }
    let x = match pop_val(vals) {
        Ok(v) => v,
        Err(e) => {
            return Err(e);
        },
    };
    let c = if which == 0 {
        x.to_char()
    } else if which == 1 {
        x.to_float()
    } else if which == 2 {
        x.to_int()
    } else {
        x.to_str()
    };
    match c {
        Ok(v) => {
            push_traced(vals, v);
            Ok(())
        },
        Err(e) => Err(rt(e)),
    }
}

/// The array `0, 1, ..., n-1`, empty when the integer is not positive.
fn range_values(n: i64) -> (r: Vec<Value>)
    ensures
        vals_of(r@) == spec_range_vals(n as int),
{
    let mut out: Vec<Value> = Vec::new();
    proof {
        lemma_vals_of(out@);
        assert(vals_of(out@) =~= spec_range_vals(0));
    }
    if n <= 0 {
        proof {
            assert(vals_of(out@) =~= spec_range_vals(n as int));
        }
        return out;
    }
    let mut k: i64 = 0;
    while k < n
        invariant
            0 <= k <= n,
            out@.len() == k,
            vals_of(out@) == spec_range_vals(k as int),
        decreases n - k,
    {
        let ghost before = out@;
        out.push(Value::Integer(k));
        proof {
            lemma_vals_of_push(before, Value::Integer(k));
            assert(vals_of(out@) =~= spec_range_vals(k as int + 1));
        }
        k = k + 1;
    }
    out
}

/// The white-space-separated pieces of a text from a position on: runs of
/// non-spaces, in order, with no empty pieces.
pub open spec fn spec_split_ws_from(t: Seq<char>, i: int) -> Seq<Seq<char>>
    decreases t.len() - i when 0 <= i <= t.len() via spec_split_ws_from_decreases
{
    let start = crate::tokens::spec_skip_spaces(t, i);
    if start >= t.len() {
        Seq::empty()
    } else {
        let end = crate::tokens::spec_find_space(t, start);
        seq![t.subrange(start, end)] + spec_split_ws_from(t, end)
    }
}

#[via_fn]
proof fn spec_split_ws_from_decreases(t: Seq<char>, i: int) {
    crate::tokens::lemma_skip_spaces_bounds(t, i);
    let start = crate::tokens::spec_skip_spaces(t, i);
    if start < t.len() {
        crate::tokens::lemma_find_space_bounds(t, start + 1);
        assert(crate::tokens::spec_find_space(t, start) == crate::tokens::spec_find_space(
            t,
            start + 1,
        ));
    }
}

/// The white-space-separated pieces of a text.
pub open spec fn spec_split_ws(t: Seq<char>) -> Seq<Seq<char>> {
    spec_split_ws_from(t, 0)
}

/// Split text on white space, dropping empty pieces, as `S/` does.
fn split_ws(t: &Vec<char>) -> (r: Vec<Value>)
    ensures
        vals_of(r@) == crate::arith::spec_str_pieces(spec_split_ws(t@)),
{
    let ghost target = crate::arith::spec_str_pieces(spec_split_ws(t@));
    let n = t.len();
    let mut out: Vec<Value> = Vec::new();
    let mut i: usize = 0;
    proof {
        lemma_vals_of(out@);
        assert(vals_of(out@) + crate::arith::spec_str_pieces(spec_split_ws_from(t@, 0)) =~= target);
    }
    while i < n
        invariant
            i <= n,
            n == t@.len(),
            target == crate::arith::spec_str_pieces(spec_split_ws(t@)),
            vals_of(out@) + crate::arith::spec_str_pieces(spec_split_ws_from(t@, i as int))
                == target,
        decreases n - i,
    {
        if crate::tokens::is_space(t[i]) {
            proof {
                assert(spec_split_ws_from(t@, i as int) == spec_split_ws_from(t@, i as int + 1));
            }
            i = i + 1;
        } else {
            let start = i;
            let mut j = i;
            while j < n && !crate::tokens::is_space(t[j])
                invariant
                    start <= j <= n,
                    n == t@.len(),
                    crate::tokens::spec_find_space(t@, start as int)
                        == crate::tokens::spec_find_space(t@, j as int),
                decreases n - j,
            {
                j = j + 1;
            }
            proof {
                assert(crate::tokens::spec_find_space(t@, j as int) == if j < n {
                    j as int
                } else {
                    n as int
                });
                assert(crate::tokens::spec_skip_spaces(t@, start as int) == start);
            }
            let piece = crate::arith::copy_range(t, start, j);
            let ghost before = out@;
            out.push(Value::Str(piece));
            proof {
                lemma_vals_of(out@);
                lemma_vals_of(before);
                assert(out@.subrange(0, out@.len() - 1) =~= before);
                assert(vals_of(out@) =~= vals_of(before).push(
                    Val::Str(t@.subrange(start as int, j as int)),
                ));
                assert(vals_of(out@) + crate::arith::spec_str_pieces(
                    spec_split_ws_from(t@, j as int),
                ) =~= target);
            }
            i = j;
        }
    }
    proof {
        assert(crate::tokens::spec_skip_spaces(t@, i as int) == n as int);
        assert(spec_split_ws_from(t@, i as int) =~= Seq::<Seq<char>>::empty());
        assert(vals_of(out@) =~= target);
    }
    out
}

/// Run the nullary input operators, exactly as `spec_step_nullary` states
/// them: read the rest of the input, or one line, and push it as text.
pub fn run_nullary(n: Nullary, vals: &mut Vec<Value>, sh: &mut Shared) -> (r: Result<(), Error>)
    requires
        wf_shared(*old(sh)),
    ensures
        wf_shared(*final(sh)),
        ({
            let st = spec_step_nullary(n, vals_of(old(vals)@), old(sh)@);
            r is Ok && st.r is Ok && vals_of(final(vals)@) == st.vals && final(sh)@ == st.sh
        }),
{
    match n {
        Nullary::ReadAll => {
            let rest = crate::arith::copy_range(&sh.input, sh.pos, sh.input.len());
            sh.pos = sh.input.len();
            push_traced(vals, Value::Str(rest));
            proof {
                assert(sh@ =~= spec_step_nullary(n, vals_of(old(vals)@), old(sh)@).sh);
            }
            Ok(())
        },
        Nullary::ReadLine => {
            let n0 = sh.input.len();
            let mut j = sh.pos;
            while j < n0 && sh.input[j] != '\n'
                invariant
                    old(sh).pos <= j <= n0,
                    n0 == sh.input@.len(),
                    *sh == *old(sh),
                    crate::tokens::spec_find_char(sh.input@, '\n', sh.pos as int)
                        == crate::tokens::spec_find_char(sh.input@, '\n', j as int),
                decreases n0 - j,
            {
                j = j + 1;
            }
            let line = crate::arith::copy_range(&sh.input, sh.pos, j);
            if j < n0 {
                sh.pos = j + 1;
            } else {
                sh.pos = n0;
            }
            push_traced(vals, Value::Str(line));
            proof {
                assert(sh@ =~= spec_step_nullary(n, vals_of(old(vals)@), old(sh)@).sh);
            }
            Ok(())
        },
    }
}

/// Run the `?` choice: pop the else branch, the then branch, and the
/// condition, and push the branch the condition's truthiness selects; too
/// few operands is a stack-empty error.
pub fn run_ternary(vals: &mut Vec<Value>) -> (r: Result<(), Error>)
    ensures
        old(vals)@.len() == 0 ==> ((r matches Err(e) && e@ == ErrorVal::Runtime(
            ErrVal::StackEmpty,
        )) && final(vals)@ == old(vals)@),
        1 <= old(vals)@.len() < 3 ==> ((r matches Err(e) && e@ == ErrorVal::Runtime(
            ErrVal::StackEmpty,
        )) && final(vals)@.len() == 0),
        old(vals)@.len() >= 3 ==> (r is Ok && vals_of(final(vals)@) == vals_of(
            old(vals)@,
        ).subrange(0, old(vals)@.len() - 3).push(
            if crate::value::spec_truthy(val_of(old(vals)@[old(vals)@.len() - 3])) {
                val_of(old(vals)@[old(vals)@.len() - 2])
            } else {
                val_of(old(vals)@[old(vals)@.len() - 1])
            },
        )),
{
    proof {
        lemma_vals_of(old(vals)@);
    }
    let elze = match pop_val(vals) {
        Ok(v) => v,
        Err(e) => {
            return Err(e);
        },
    };
    let then = match pop_val(vals) {
        Ok(v) => v,
        Err(e) => {
            return Err(e);
        },
    };
    let cond = match pop_val(vals) {
        Ok(v) => v,
        Err(e) => {
            return Err(e);
        },
    };
    let t = cond.truthy();
    let chosen = if t {
        then
    } else {
        elze
    };
    let ghost before = vals@;
    vals.push(chosen);
    proof {
        lemma_vals_of_push(before, vals@.last());
        lemma_vals_of(before);
        lemma_vals_of(old(vals)@);
        if old(vals)@.len() >= 3 {
            assert(before =~= old(vals)@.subrange(0, old(vals)@.len() - 3));
            crate::value::lemma_vals_of_pointwise(
                before,
                old(vals)@.subrange(0, old(vals)@.len() - 3),
            );
            assert(vals_of(vals@) =~= vals_of(old(vals)@).subrange(
                0,
                old(vals)@.len() - 3,
            ).push(val_of(vals@.last())));
            assert(vals_of(old(vals)@).subrange(0, old(vals)@.len() - 3) =~= vals_of(
                old(vals)@.subrange(0, old(vals)@.len() - 3),
            ));
        }
    }
    Ok(())
}

/// Run a stack or literal operator, exactly as `spec_step_stack` states
/// it.
#[verifier::rlimit(100)]
#[verifier::spinoff_prover]
pub fn run_stack(k: StackOp, text: &Vec<char>, vals: &mut Vec<Value>, sh: &mut Shared, depth: u64)
    -> (r: Result<(), Error>)
    requires
        wf_shared(*old(sh)),
    ensures
        wf_shared(*final(sh)),
        ({
            let st = spec_step_stack(k, text@, vals_of(old(vals)@), old(sh)@, depth as nat);
            (match st.r {
                Ok(_) => r is Ok,
                Err(e) => r matches Err(er) && er@ == e,
            }) && vals_of(final(vals)@) == st.vals && final(sh)@ == st.sh
        }),
    decreases depth, 0int, 9int,
{
    proof {
        lemma_vals_of(old(vals)@);
        if old(vals)@.len() >= 1 {
            crate::value::lemma_vals_of_drop_last(old(vals)@);
        }
        if old(vals)@.len() >= 2 {
            crate::value::lemma_vals_of_drop_last(old(vals)@.drop_last());
            assert(vals_of(old(vals)@).subrange(0, old(vals)@.len() - 2) =~= vals_of(
                old(vals)@.drop_last().drop_last(),
            ));
        }
        if old(vals)@.len() >= 3 {
            crate::value::lemma_vals_of_drop_last(old(vals)@.drop_last().drop_last());
            assert(vals_of(old(vals)@).subrange(0, old(vals)@.len() - 3) =~= vals_of(
                old(vals)@.drop_last().drop_last().drop_last(),
            ));
        }
        lemma_vals_of(old(sh).vars.slots@);
    }
    match k {
        StackOp::Drop => {
            match pop_val(vals) {
                Ok(_) => Ok(()),
                Err(e) => Err(e),
            }
        },
        StackOp::Swap => {
            if vals.len() < 2 {
                return Err(Error::Runtime(RuntimeError::StackEmpty));
            }
            let b = match pop_val(vals) {
                Ok(v) => v,
                Err(e) => {
                    return Err(e);
                },
            };
            let a = match pop_val(vals) {
                Ok(v) => v,
                Err(e) => {
                    return Err(e);
                },
            };
            proof {
                assert(vals_of(vals@) =~= vals_of(old(vals)@).subrange(
                    0,
                    old(vals)@.len() - 2,
                ));
            }
            push_traced(vals, b);
            push_traced(vals, a);
            Ok(())
        },
        StackOp::Rotate => {
            if vals.len() < 3 {
                return Err(Error::Runtime(RuntimeError::StackEmpty));
            }
            let z = match pop_val(vals) {
                Ok(v) => v,
                Err(e) => {
                    return Err(e);
                },
            };
            let y = match pop_val(vals) {
                Ok(v) => v,
                Err(e) => {
                    return Err(e);
                },
            };
            let x = match pop_val(vals) {
                Ok(v) => v,
                Err(e) => {
                    return Err(e);
                },
            };
            proof {
                assert(vals_of(vals@) =~= vals_of(old(vals)@).subrange(
                    0,
                    old(vals)@.len() - 3,
                ));
            }
            push_traced(vals, y);
            push_traced(vals, z);
            push_traced(vals, x);
            Ok(())
        },
        StackOp::Head => {
            let x = match pop_val(vals) {
                Ok(v) => v,
                Err(e) => {
                    return Err(e);
                },
            };
            match x {
                Value::Array(a) => {
                    let mut a = a;
                    proof {
                        lemma_vals_of(a@);
                    }
                    if a.len() == 0 {
                        proof {
                            assert(vals_of(a@) =~= Seq::<Val>::empty());
                        }
                        return Err(wrap1(Value::Array(a), "remove head"));
                    }
                    let ghost a0 = a@;
                    let v = a.remove(0);
                    proof {
                        lemma_vals_of_remove(a0, 0);
                        assert(vals_of(a0).remove(0) =~= vals_of(a0).drop_first());
                        lemma_vals_of(a0);
                    }
                    push_traced(vals, Value::Array(a));
                    push_traced(vals, v);
                    Ok(())
                },
                x => {
                    let stepped = wrap_rt(x.sub(Value::Integer(1)));
                    match stepped {
                        Ok(v) => {
                            push_traced(vals, v);
                            Ok(())
                        },
                        Err(e) => Err(e),
                    }
                },
            }
        },
        StackOp::Tail => {
            let x = match pop_val(vals) {
                Ok(v) => v,
                Err(e) => {
                    return Err(e);
                },
            };
            match x {
                Value::Array(a) => {
                    let mut a = a;
                    proof {
                        lemma_vals_of(a@);
                    }
                    let ghost a0 = a@;
                    let popped = a.pop();
                    match popped {
                        Some(v) => {
                            proof {
                                crate::value::lemma_vals_of_drop_last(a0);
                                assert(a@ =~= a0.drop_last());
                            }
                            push_traced(vals, Value::Array(a));
                            push_traced(vals, v);
                            Ok(())
                        },
                        None => {
                            proof {
                                assert(vals_of(a@) =~= Seq::<Val>::empty());
                            }
                            Err(wrap1(Value::Array(a), "remove last"))
                        },
                    }
                },
                x => {
                    let stepped = wrap_rt(x.add(Value::Integer(1)));
                    match stepped {
                        Ok(v) => {
                            push_traced(vals, v);
                            Ok(())
                        },
                        Err(e) => Err(e),
                    }
                },
            }
        },
        StackOp::While => {
            let v = match pop_val(vals) {
                Ok(v) => v,
                Err(e) => {
                    return Err(e);
                },
            };
            match v {
                Value::Block(blk) => {
                    if depth == 0 {
                        return Err(Error::Runtime(RuntimeError::NestingTooDeep));
                    }
                    let ghost bm = crate::value::ops_model(blk@);
                    let ghost target = spec_while(
                        bm,
                        vals_of(old(vals)@).drop_last(),
                        old(sh)@,
                        depth as nat,
                        u64::MAX as nat,
                    );
                    let mut budget: u64 = u64::MAX;
                    loop
                        invariant
                            wf_shared(*sh),
                            depth >= 1,
                            k == StackOp::While,
                            bm == crate::value::ops_model(blk@),
                            target == spec_while(
                                bm,
                                vals_of(vals@),
                                sh@,
                                depth as nat,
                                budget as nat,
                            ),
                            ({
                                let st = spec_step_stack(
                                    k,
                                    text@,
                                    vals_of(old(vals)@),
                                    old(sh)@,
                                    depth as nat,
                                );
                                st == target
                            }),
                        decreases budget,
                    {
                        proof {
                            if vals@.len() > 0 {
                                crate::value::lemma_vals_of_drop_last(vals@);
                            }
                        }
                        if vals.len() == 0 {
                            return Err(Error::Runtime(RuntimeError::StackEmpty));
                        }
                        let t = vals[vals.len() - 1].truthy();
                        if !t {
                            return Ok(());
                        }
                        let r = execute(&*blk, vals, sh, depth - 1);
                        match r {
                            Ok(_) => {},
                            Err(e) => {
                                return Err(e);
                            },
                        }
                        if budget == 0 {
                            return Err(Error::Runtime(RuntimeError::NestingTooDeep));
                        }
                        budget = budget - 1;
                    }
                },
                x => Err(wrap1(x, "while")),
            }
        },
        StackOp::PushVar(idx) => {
            // the resolver only builds slot numbers below 26; a hand-built
            // operator outside that range is an out-of-bounds error
            if (idx as usize) < sh.vars.slots.len() {
                let v = sh.vars.slots[idx as usize].clone();
                push_traced(vals, v);
                Ok(())
            } else {
                Err(Error::Runtime(RuntimeError::OutOfBounds(26, idx as i64)))
            }
        },
        StackOp::SetVar(idx) => {
            if vals.len() == 0 {
                return Err(Error::Runtime(RuntimeError::StackEmpty));
            }
            if (idx as usize) < sh.vars.slots.len() {
                let v = vals[vals.len() - 1].clone();
                let ghost slots0 = sh.vars.slots@;
                let ghost vg = v;
                sh.vars.slots.set(idx as usize, v);
                proof {
                    lemma_vals_of(slots0);
                    lemma_vals_of(sh.vars.slots@);
                    assert(vals_of(sh.vars.slots@) =~= vals_of(slots0).update(
                        idx as int,
                        vg@,
                    ));
                    assert(sh@ =~= spec_step_stack(
                        k,
                        text@,
                        vals_of(old(vals)@),
                        old(sh)@,
                        depth as nat,
                    ).sh);
                }
                Ok(())
            } else {
                Err(Error::Runtime(RuntimeError::OutOfBounds(26, idx as i64)))
            }
        },
        StackOp::Dollar => {
            let top = match pop_val(vals) {
                Ok(v) => v,
                Err(e) => {
                    return Err(e);
                },
            };
            match top {
                Value::Integer(i) => {
                    if i < 0 {
                        return Err(
                            Error::Runtime(RuntimeError::OutOfBounds(vals.len(), i)),
                        );
                    }
                    if (i as u64) < vals.len() as u64 {
                        proof {
                            lemma_vals_of(vals@);
                        }
                        let v = vals[vals.len() - 1 - i as usize].clone();
                        push_traced(vals, v);
                        Ok(())
                    } else {
                        Err(Error::Runtime(RuntimeError::OutOfBounds(vals.len(), i)))
                    }
                },
                top => {
                    proof {
                        if vals@.len() > 0 {
                            crate::value::lemma_vals_of_drop_last(vals@);
                        }
                    }
                    let second = match pop_val(vals) {
                        Ok(v) => v,
                        Err(e) => {
                            return Err(e);
                        },
                    };
                    match (second, top) {
                        (Value::Array(a), Value::Block(blk)) => {
                            if depth == 0 {
                                return Err(
                                    Error::Runtime(RuntimeError::NestingTooDeep),
                                );
                            }
                            let sorted = sort_list(a, &*blk, sh, depth - 1);
                            match sorted {
                                Ok(items) => {
                                    push_traced(vals, Value::Array(items));
                                    Ok(())
                                },
                                Err(e) => Err(e),
                            }
                        },
                        (_, top) => Err(wrap1(top, "index_sort")),
                    }
                },
            }
        },
        StackOp::Nth(nn) => {
            if (nn as u64) < vals.len() as u64 {
                let v = vals[vals.len() - 1 - nn].clone();
                push_traced(vals, v);
                Ok(())
            } else {
                Err(
                    Error::Runtime(
                        RuntimeError::OutOfBounds(
                            vals.len(),
                            #[verifier::truncate] (nn as i64),
                        ),
                    ),
                )
            }
        },
        StackOp::Push => parse_push(text, vals, sh, depth),
    }
}

/// Resolve each token in order and run it against the stack, stopping at
/// the first error.  No tokens change nothing.
pub fn parse_and_execute(tokens: &Vec<Vec<char>>, stack: &mut crate::stack::Stack) -> (r: Result<
    (),
    Error,
>)
    requires
        old(stack).wf(),
    ensures
        final(stack).wf(),
        tokens@.len() == 0 ==> (r is Ok && *final(stack) == *old(stack)),
{
    let mut i: usize = 0;
    while i < tokens.len()
        invariant
            i <= tokens@.len(),
            stack.wf(),
            tokens@.len() == 0 ==> *stack == *old(stack),
        decreases tokens@.len() - i,
    {
        let resolved = crate::ops::resolve(&tokens[i]);
        match resolved {
            Ok(op) => {
                let r = run_op(&op, &mut stack.s, &mut stack.sh, MAX_DEPTH);
                match r {
                    Ok(_) => {},
                    Err(e) => {
                        return Err(e);
                    },
                }
            },
            Err(se) => {
                return Err(Error::Syntax(se));
            },
        }
        i = i + 1;
    }
    Ok(())
}

} // verus!


