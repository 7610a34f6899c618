//! Operator kinds and the operator resolver.
//!
//! A token resolves to one of five operator kinds, tried in a fixed order:
//! binary, unary, nullary, ternary, stack/literal.  The stack/literal kind
//! ends in a catch-all `Push` whose literal text is parsed when the operator
//! runs, so resolution itself fails only for malformed `n$` tokens.

use vstd::prelude::*;

use crate::error::SyntaxError;
use crate::strings::spec_parse_usize;

verus! {

/// An operator that pops two values and pushes one result.
#[derive(Debug, Clone, Copy, PartialEq, Eq)]
pub enum BinaryOp {
    Add,
    Sub,
    Mul,
    Div,
    BitAnd,
    BitOr,
    BitXor,
    Rem,
    EagerAnd,
    EagerOr,
    Min,
    Max,
    Greater,
    Less,
    Equal,
    Pow,
}

/// An operator that works on the top of the stack.
#[derive(Debug, Clone, Copy, PartialEq, Eq)]
pub enum UnaryOp {
    Dup,
    Spread,
    Not,
    ToChar,
    ToFloat,
    ToInt,
    ToStr,
    Print,
    Comma,
    SplitWhitespace,
    SplitNewline,
}

/// An operator that pops nothing and pushes what it read from the input.
#[derive(Debug, Clone, Copy, PartialEq, Eq)]
pub enum Nullary {
    ReadAll,
    ReadLine,
}

/// The `?` choice operator: pops else, then, and condition, and pushes the
/// chosen branch.
#[derive(Debug, Clone, Copy, PartialEq, Eq)]
pub struct Ternary;

/// A stack manipulation or literal-push operator.
#[derive(Debug, Clone, Copy, PartialEq, Eq)]
pub enum StackOp {
    /// `;`: drop the top value.
    Drop,
    /// `\`: swap the two topmost values.
    Swap,
    /// `@`: rotate the three topmost values left by one.
    Rotate,
    /// `(`: remove an array's first element, or decrement by one.
    Head,
    /// `)`: remove an array's last element, or increment by one.
    Tail,
    /// `w`: pop a block and run it while the top of the stack is truthy.
    While,
    /// An uppercase letter: push a copy of that variable slot (0 = `A`).
    PushVar(u8),
    /// `:` plus an uppercase letter: store a copy of the top into that slot.
    SetVar(u8),
    /// `$`: copy-by-depth for an integer top, or sort-by-key for a block top.
    Dollar,
    /// A decimal literal followed by `$`: push a copy of the value that many
    /// positions from the top.
    Nth(usize),
    /// Anything else: a literal, parsed from the token text when run.
    Push,
}

/// One of the five operator kinds.
#[derive(Debug, Clone, Copy, PartialEq, Eq)]
pub enum OpKind {
    Binary(BinaryOp),
    Unary(UnaryOp),
    Nullary(Nullary),
    Ternary(Ternary),
    Stack(StackOp),
}

/// A resolved operator together with its original token text.  The text is
/// kept for block display and block equality, and holds the literal for
/// `StackOp::Push`.
#[derive(Debug, PartialEq, Eq)]
pub struct Op {
    pub kind: OpKind,
    pub text: Vec<char>,
}

/// Whether a token is exactly one given character.
pub open spec fn is1(t: Seq<char>, c: char) -> bool {
    t.len() == 1 && t[0] == c
}

/// Whether a token is exactly two given characters.
pub open spec fn is2(t: Seq<char>, c0: char, c1: char) -> bool {
    t.len() == 2 && t[0] == c0 && t[1] == c1
}

/// The binary operator a token names, if any.
pub open spec fn spec_binary_of(t: Seq<char>) -> Option<BinaryOp> {
    if is1(t, '+') {
        Some(BinaryOp::Add)
    } else if is1(t, '-') {
        Some(BinaryOp::Sub)
    } else if is1(t, '*') {
        Some(BinaryOp::Mul)
    } else if is1(t, '/') {
        Some(BinaryOp::Div)
    } else if is1(t, '&') {
        Some(BinaryOp::BitAnd)
    } else if is1(t, '|') {
        Some(BinaryOp::BitOr)
    } else if is1(t, '^') {
        Some(BinaryOp::BitXor)
    } else if is1(t, '%') {
        Some(BinaryOp::Rem)
    } else if is2(t, 'e', '&') {
        Some(BinaryOp::EagerAnd)
    } else if is2(t, 'e', '|') {
        Some(BinaryOp::EagerOr)
    } else if is2(t, 'e', '<') {
        Some(BinaryOp::Min)
    } else if is2(t, 'e', '>') {
        Some(BinaryOp::Max)
    } else if is1(t, '>') {
        Some(BinaryOp::Greater)
    } else if is1(t, '<') {
        Some(BinaryOp::Less)
    } else if is1(t, '=') {
        Some(BinaryOp::Equal)
    } else if is1(t, '#') {
        Some(BinaryOp::Pow)
    } else {
        None
    }
}

/// The unary operator a token names, if any.
pub open spec fn spec_unary_of(t: Seq<char>) -> Option<UnaryOp> {
    if is1(t, '_') {
        Some(UnaryOp::Dup)
    } else if is1(t, '~') {
        Some(UnaryOp::Spread)
    } else if is1(t, '!') {
        Some(UnaryOp::Not)
    } else if is1(t, 'c') {
        Some(UnaryOp::ToChar)
    } else if is1(t, 'f') {
        Some(UnaryOp::ToFloat)
    } else if is1(t, 'i') {
        Some(UnaryOp::ToInt)
    } else if is1(t, 's') {
        Some(UnaryOp::ToStr)
    } else if is1(t, 'p') {
        Some(UnaryOp::Print)
    } else if is1(t, ',') {
        Some(UnaryOp::Comma)
    } else if is2(t, 'S', '/') {
        Some(UnaryOp::SplitWhitespace)
    } else if is2(t, 'N', '/') {
        Some(UnaryOp::SplitNewline)
    } else {
        None
    }
}

/// The nullary operator a token names, if any.
pub open spec fn spec_nullary_of(t: Seq<char>) -> Option<Nullary> {
    if is1(t, 't') {
        Some(Nullary::ReadAll)
    } else if is1(t, 'l') {
        Some(Nullary::ReadLine)
    } else {
        None
    }
}

/// Whether a character is an uppercase letter naming a variable slot.
pub open spec fn spec_is_upper(c: char) -> bool {
    65 <= (c as u32) <= 90
}

/// The stack or literal operator a token names: `None` only for a malformed
/// copy-by-depth token.
pub open spec fn spec_stack_of(t: Seq<char>) -> Option<StackOp> {
    if is1(t, ';') {
        Some(StackOp::Drop)
    } else if is1(t, '\\') {
        Some(StackOp::Swap)
    } else if is1(t, '@') {
        Some(StackOp::Rotate)
    } else if is1(t, '(') {
        Some(StackOp::Head)
    } else if is1(t, ')') {
        Some(StackOp::Tail)
    } else if is1(t, 'w') {
        Some(StackOp::While)
    } else if t.len() == 1 && spec_is_upper(t[0]) {
        Some(StackOp::PushVar(((t[0] as u32) - 65) as u8))
    } else if t.len() == 2 && t[0] == ':' && spec_is_upper(t[1]) {
        Some(StackOp::SetVar(((t[1] as u32) - 65) as u8))
    } else if is1(t, '$') {
        Some(StackOp::Dollar)
    } else if t.len() >= 2 && t[t.len() - 1] == '$' {
        match spec_parse_usize(t.subrange(0, t.len() - 1)) {
            Some(n) => Some(StackOp::Nth(n)),
            None => None,
        }
    } else {
        Some(StackOp::Push)
    }
}

/// How a token classifies: the five operator kinds are tried in a fixed
/// order, and only a malformed copy-by-depth token resolves to nothing.
pub open spec fn spec_classify(t: Seq<char>) -> Option<OpKind> {
    if spec_binary_of(t) is Some {
        Some(OpKind::Binary(spec_binary_of(t)->Some_0))
    } else if spec_unary_of(t) is Some {
        Some(OpKind::Unary(spec_unary_of(t)->Some_0))
    } else if spec_nullary_of(t) is Some {
        Some(OpKind::Nullary(spec_nullary_of(t)->Some_0))
    } else if is1(t, '?') {
        Some(OpKind::Ternary(Ternary))
    } else {
        match spec_stack_of(t) {
            Some(k) => Some(OpKind::Stack(k)),
            None => None,
        }
    }
}

/// Whether a token holds exactly one given character.
fn tok1(t: &Vec<char>, c: char) -> (r: bool)
    ensures
        r == is1(t@, c),
{
    t.len() == 1 && t[0] == c
}

/// Whether a token holds exactly two given characters.
fn tok2(t: &Vec<char>, c0: char, c1: char) -> (r: bool)
    ensures
        r == is2(t@, c0, c1),
{
    t.len() == 2 && t[0] == c0 && t[1] == c1
}

/// Resolve one token to an operator, in the fixed order binary, unary,
/// nullary, ternary, stack/literal; a malformed copy-by-depth token is the
/// one syntax error the resolver itself raises.
pub fn resolve(t: &Vec<char>) -> (r: Result<Op, SyntaxError>)
    ensures
        match spec_classify(t@) {
            Some(k) => r matches Ok(op) && op.kind == k && op.text@ == t@,
            None => r matches Err(e) && e.0@ == t@,
        },
{
    let kind: OpKind = if tok1(t, '+') {
        OpKind::Binary(BinaryOp::Add)
    } else if tok1(t, '-') {
        OpKind::Binary(BinaryOp::Sub)
    } else if tok1(t, '*') {
        OpKind::Binary(BinaryOp::Mul)
    } else if tok1(t, '/') {
        OpKind::Binary(BinaryOp::Div)
    } else if tok1(t, '&') {
        OpKind::Binary(BinaryOp::BitAnd)
    } else if tok1(t, '|') {
        OpKind::Binary(BinaryOp::BitOr)
    } else if tok1(t, '^') {
        OpKind::Binary(BinaryOp::BitXor)
    } else if tok1(t, '%') {
        OpKind::Binary(BinaryOp::Rem)
    } else if tok2(t, 'e', '&') {
        OpKind::Binary(BinaryOp::EagerAnd)
    } else if tok2(t, 'e', '|') {
        OpKind::Binary(BinaryOp::EagerOr)
    } else if tok2(t, 'e', '<') {
        OpKind::Binary(BinaryOp::Min)
    } else if tok2(t, 'e', '>') {
        OpKind::Binary(BinaryOp::Max)
    } else if tok1(t, '>') {
        OpKind::Binary(BinaryOp::Greater)
    } else if tok1(t, '<') {
        OpKind::Binary(BinaryOp::Less)
    } else if tok1(t, '=') {
        OpKind::Binary(BinaryOp::Equal)
    } else if tok1(t, '#') {
        OpKind::Binary(BinaryOp::Pow)
    } else if tok1(t, '_') {
        OpKind::Unary(UnaryOp::Dup)
    } else if tok1(t, '~') {
        OpKind::Unary(UnaryOp::Spread)
    } else if tok1(t, '!') {
        OpKind::Unary(UnaryOp::Not)
    } else if tok1(t, 'c') {
        OpKind::Unary(UnaryOp::ToChar)
    } else if tok1(t, 'f') {
        OpKind::Unary(UnaryOp::ToFloat)
    } else if tok1(t, 'i') {
        OpKind::Unary(UnaryOp::ToInt)
    } else if tok1(t, 's') {
        OpKind::Unary(UnaryOp::ToStr)
    } else if tok1(t, 'p') {
        OpKind::Unary(UnaryOp::Print)
    } else if tok1(t, ',') {
        OpKind::Unary(UnaryOp::Comma)
    } else if tok2(t, 'S', '/') {
        OpKind::Unary(UnaryOp::SplitWhitespace)
    } else if tok2(t, 'N', '/') {
        OpKind::Unary(UnaryOp::SplitNewline)
    } else if tok1(t, 't') {
        OpKind::Nullary(Nullary::ReadAll)
    } else if tok1(t, 'l') {
        OpKind::Nullary(Nullary::ReadLine)
    } else if tok1(t, '?') {
        OpKind::Ternary(Ternary)
    } else if tok1(t, ';') {
        OpKind::Stack(StackOp::Drop)
    } else if tok1(t, '\\') {
        OpKind::Stack(StackOp::Swap)
    } else if tok1(t, '@') {
        OpKind::Stack(StackOp::Rotate)
    } else if tok1(t, '(') {
        OpKind::Stack(StackOp::Head)
    } else if tok1(t, ')') {
        OpKind::Stack(StackOp::Tail)
    } else if tok1(t, 'w') {
        OpKind::Stack(StackOp::While)
    } else if t.len() == 1 && t[0] as u32 >= 65 && t[0] as u32 <= 90 {
        OpKind::Stack(StackOp::PushVar((t[0] as u32 - 65) as u8))
    } else if t.len() == 2 && t[0] == ':' && t[1] as u32 >= 65 && t[1] as u32 <= 90 {
        OpKind::Stack(StackOp::SetVar((t[1] as u32 - 65) as u8))
    } else if tok1(t, '$') {
        OpKind::Stack(StackOp::Dollar)
    } else if t.len() >= 2 && t[t.len() - 1] == '$' {
        let prefix = crate::arith::copy_range(t, 0, t.len() - 1);
        let parsed = crate::strings::parse_usize(&prefix);
        match parsed {
            Some(n) => OpKind::Stack(StackOp::Nth(n)),
            None => {
                return Err(SyntaxError(crate::value::clone_chars(t)));
            },
        }
    } else {
        OpKind::Stack(StackOp::Push)
    };
    Ok(Op { kind, text: crate::value::clone_chars(t) })
}

} // verus!
