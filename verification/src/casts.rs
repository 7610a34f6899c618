//! The `c`, `f`, `i`, `s` coercions between value variants.  Each has an
//! enumerated set of legal source variants; an illegal coercion fails with an
//! invalid-cast error naming the attempted target type.
//!
//! Floating-point values are not part of this value model, so the float
//! coercion fails for every operand.

use vstd::prelude::*;

use crate::error::ErrVal;
use crate::error::res_model;
use crate::error::RuntimeError;
use crate::render::spec_debug_list;
use crate::strings::spec_i64_chars;
use crate::strings::spec_parse_i64;
use crate::value::Val;
use crate::value::Value;

verus! {

/// Relies on `char::from_u32`: it returns the character for every value that
/// is a Unicode scalar (below the surrogate range or between it and
/// 0x10FFFF), and nothing otherwise.
pub assume_specification[ char::from_u32 ](i: u32) -> (r: Option<char>)
    ensures
        if i < 0xD800 || (0xE000 <= i && i <= 0x10FFFF) {
            r matches Some(c) && c == i as char
        } else {
            r is None
        },
;

/// Whether an integer is a Unicode scalar value, and so converts to a
/// character.
pub open spec fn spec_int_is_char(i: int) -> bool {
    (0 <= i && i < 0xD800) || (0xE000 <= i && i <= 0x10FFFF)
}

/// How a value coerces to a character.
pub open spec fn spec_to_char(v: Val) -> Result<Val, ErrVal> {
    match v {
        Val::Char(_) => Ok(v),
        Val::Integer(i) => if spec_int_is_char(i as int) {
            Ok(Val::Char(i as char))
        } else {
            Err(ErrVal::InvalidCast(v, "char"@))
        },
        Val::Str(s) => if s.len() == 1 {
            Ok(Val::Char(s[0]))
        } else {
            Err(ErrVal::InvalidCast(v, "char"@))
        },
        _ => Err(ErrVal::InvalidCast(v, "char"@)),
    }
}

/// How a value coerces to a float: never, since the value model holds no
/// floats.
pub open spec fn spec_to_float(v: Val) -> Result<Val, ErrVal> {
    Err(ErrVal::InvalidCast(v, "float"@))
}

/// How a value coerces to an integer.
pub open spec fn spec_to_int(v: Val) -> Result<Val, ErrVal> {
    match v {
        Val::Char(c) => Ok(Val::Integer(c as i64)),
        Val::Integer(_) => Ok(v),
        Val::Str(s) => match spec_parse_i64(s) {
            Some(i) => Ok(Val::Integer(i)),
            None => Err(ErrVal::InvalidCast(v, "i64"@)),
        },
        _ => Err(ErrVal::InvalidCast(v, "i64"@)),
    }
}

/// The text a value coerces to: characters and text verbatim, integers in
/// decimal, arrays in their debug form; blocks do not coerce.
pub open spec fn spec_to_str_chars(v: Val) -> Result<Seq<char>, ErrVal> {
    match v {
        Val::Char(c) => Ok(seq![c]),
        Val::Integer(i) => Ok(spec_i64_chars(i as int)),
        Val::Str(s) => Ok(s),
        Val::Array(a) => Ok(seq!['['] + spec_debug_list(a) + seq![']']),
        Val::Block(_) => Err(ErrVal::InvalidCast(v, "String"@)),
    }
}

/// How a value coerces to text.
pub open spec fn spec_to_str(v: Val) -> Result<Val, ErrVal> {
    match spec_to_str_chars(v) {
        Ok(s) => Ok(Val::Str(s)),
        Err(e) => Err(e),
    }
}

impl Value {
    /// Coerce to a character, as `spec_to_char` states it.
    pub fn to_char(self) -> (r: Result<Value, RuntimeError>)
        ensures
            res_model(r) == spec_to_char(self@),
    {
        match self {
            Value::Char(_) => {
                let r = Ok(self);
                assert(res_model(r) == spec_to_char(self@));
                r
            },
            Value::Integer(i) => {
                if 0 <= i && i <= 0xFFFFFFFFi64 {
                    proof {
                        assert(i as u32 == i as int) by (bit_vector)
                            requires 0 <= i <= 0xFFFFFFFFi64;
                    }
                    match char::from_u32(i as u32) {
                        Some(c) => {
                            proof {
                                assert(c == (i as u32) as char);
                                assert((i as u32) as char == i as char);
                            }
                            Ok(Value::Char(c))
                        },
                        None => Err(RuntimeError::InvalidCast(self, "char")),
                    }
                } else {
                    Err(RuntimeError::InvalidCast(self, "char"))
                }
            },
            Value::Str(s) => {
                if s.len() == 1 {
                    let c = s[0];
                    proof {
                        crate::value::lemma_char_value(c);
                    }
                    Ok(Value::Char(c))
                } else {
                    Err(RuntimeError::InvalidCast(Value::Str(s), "char"))
                }
            },
            _ => Err(RuntimeError::InvalidCast(self, "char")),
        }
    }

    /// Coerce to a float, which always fails: the value model holds no
    /// floats.
    pub fn to_float(self) -> (r: Result<Value, RuntimeError>)
        ensures
            res_model(r) == spec_to_float(self@),
    {
        Err(RuntimeError::InvalidCast(self, "float"))
    }

    /// Coerce to an integer, as `spec_to_int` states it.
    pub fn to_int(self) -> (r: Result<Value, RuntimeError>)
        ensures
            res_model(r) == spec_to_int(self@),
    {
        match self {
            Value::Char(c) => Ok(Value::Integer(c as i64)),
            Value::Integer(_) => Ok(self),
            Value::Str(s) => {
                let p = crate::strings::parse_i64(&s);
                match p {
                    Some(i) => Ok(Value::Integer(i)),
                    None => Err(RuntimeError::InvalidCast(Value::Str(s), "i64")),
                }
            },
            _ => Err(RuntimeError::InvalidCast(self, "i64")),
        }
    }

    /// Coerce to text, as `spec_to_str` states it.
    pub fn to_str(self) -> (r: Result<Value, RuntimeError>)
        ensures
            res_model(r) == spec_to_str(self@),
    {
        match self {
            Value::Char(c) => {
                let mut out: Vec<char> = Vec::new();
                out.push(c);
                assert(out@ =~= seq![c]);
                Ok(Value::Str(out))
            },
            Value::Integer(i) => Ok(Value::Str(crate::strings::i64_chars(i))),
            Value::Str(_) => Ok(self),
            Value::Array(a) => {
                let mut out: Vec<char> = Vec::new();
                out.push('[');
                assert(out@ =~= seq!['[']);
                crate::render::push_debug_list(&a, &mut out);
                out.push(']');
                proof {
                    assert(out@ =~= seq!['['] + spec_debug_list(crate::value::vals_of(a@))
                        + seq![']']);
                }
                Ok(Value::Str(out))
            },
            Value::Block(_) => Err(RuntimeError::InvalidCast(self, "String")),
        }
    }
}

} // verus!
