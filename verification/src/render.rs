//! Rendering values as text: the display form used by the `p` operator
//! (`c(x)`, `i(x)`, `s(x)`, `a([..])`, `b([..])`) and the debug form used
//! when an array is coerced to text (`Integer(1)`, `Array([..])`).
//!
//! Characters and text are rendered verbatim, without escape sequences.

use vstd::prelude::*;

use crate::ops::Op;
use crate::strings::spec_i64_chars;
use crate::value::OpModel;
use crate::value::Val;
use crate::value::Value;

verus! {

/// The display text of a value.
pub open spec fn spec_display(v: Val) -> Seq<char>
    decreases v,
{
    match v {
        Val::Char(c) => seq!['c', '('] + seq![c] + seq![')'],
        Val::Integer(i) => seq!['i', '('] + spec_i64_chars(i as int) + seq![')'],
        Val::Str(s) => seq!['s', '('] + s + seq![')'],
        Val::Array(a) => seq!['a', '(', '['] + spec_display_list(a) + seq![']', ')'],
        Val::Block(b) => seq!['b', '(', '['] + spec_join_texts(b, seq![',']) + seq![']', ')'],
    }
}

/// The display texts of array elements, joined with commas.
pub open spec fn spec_display_list(a: Seq<Val>) -> Seq<char>
    decreases a,
{
    if a.len() == 0 {
        Seq::empty()
    } else if a.len() == 1 {
        spec_display(a[0])
    } else {
        spec_display_list(a.drop_last()) + seq![','] + spec_display(a.last())
    }
}

/// Operator token texts joined with a separator.
pub open spec fn spec_join_texts(b: Seq<OpModel>, sep: Seq<char>) -> Seq<char>
    decreases b.len(),
{
    if b.len() == 0 {
        Seq::empty()
    } else if b.len() == 1 {
        b[0].text
    } else {
        spec_join_texts(b.drop_last(), sep) + sep + b.last().text
    }
}

/// The debug text of a value, shaped like the derived debug form.
pub open spec fn spec_debug(v: Val) -> Seq<char>
    decreases v,
{
    match v {
        Val::Char(c) => seq!['C', 'h', 'a', 'r', '(', '\''] + seq![c] + seq!['\'', ')'],
        Val::Integer(i) => seq!['I', 'n', 't', 'e', 'g', 'e', 'r', '('] + spec_i64_chars(i as int)
            + seq![')'],
        Val::Str(s) => seq!['S', 't', 'r', '(', '"'] + s + seq!['"', ')'],
        Val::Array(a) => seq!['A', 'r', 'r', 'a', 'y', '(', '['] + spec_debug_list(a) + seq![
            ']',
            ')',
        ],
        Val::Block(b) => seq!['B', 'l', 'o', 'c', 'k', '(', '['] + spec_join_texts(
            b,
            seq![',', ' '],
        ) + seq![']', ')'],
    }
}

/// The debug texts of array elements, joined with comma and space.
pub open spec fn spec_debug_list(a: Seq<Val>) -> Seq<char>
    decreases a,
{
    if a.len() == 0 {
        Seq::empty()
    } else if a.len() == 1 {
        spec_debug(a[0])
    } else {
        spec_debug_list(a.drop_last()) + seq![',', ' '] + spec_debug(a.last())
    }
}

/// Append one character.
fn push1(out: &mut Vec<char>, c: char)
    ensures
        final(out)@ == old(out)@ + seq![c],
{
    out.push(c);
    assert(out@ =~= old(out)@ + seq![c]);
}

/// Append a character sequence.
pub(crate) fn push_all(out: &mut Vec<char>, s: &Vec<char>)
    ensures
        final(out)@ == old(out)@ + s@,
{
    let mut i: usize = 0;
    while i < s.len()
        invariant
            i <= s@.len(),
            out@ == old(out)@ + s@.subrange(0, i as int),
        decreases s@.len() - i,
    {
        out.push(s[i]);
        assert(out@ =~= old(out)@ + s@.subrange(0, i as int + 1));
        i = i + 1;
    }
    assert(out@ =~= old(out)@ + s@);
}

/// Append the display text of a value.
fn push_display(v: &Value, out: &mut Vec<char>)
    ensures
        final(out)@ == old(out)@ + spec_display(v@),
    decreases *v,
{
    broadcast use crate::value::lemma_vals_of;

    match v {
        Value::Char(c) => {
            push1(out, 'c');
            push1(out, '(');
            push1(out, *c);
            push1(out, ')');
        },
        Value::Integer(i) => {
            push1(out, 'i');
            push1(out, '(');
            let digits = crate::strings::i64_chars(*i);
            push_all(out, &digits);
            push1(out, ')');
        },
        Value::Str(s) => {
            push1(out, 's');
            push1(out, '(');
            push_all(out, s);
            push1(out, ')');
        },
        Value::Array(a) => {
            push1(out, 'a');
            push1(out, '(');
            push1(out, '[');
            push_display_list(a, out);
            push1(out, ']');
            push1(out, ')');
        },
        Value::Block(b) => {
            push1(out, 'b');
            push1(out, '(');
            push1(out, '[');
            push_texts(&**b, false, out);
            push1(out, ']');
            push1(out, ')');
        },
    }
    assert(out@ =~= old(out)@ + spec_display(v@));
}

/// Append the display texts of array elements, joined with commas.
fn push_display_list(a: &Vec<Value>, out: &mut Vec<char>)
    ensures
        final(out)@ == old(out)@ + spec_display_list(crate::value::vals_of(a@)),
    decreases a@,
{
    broadcast use crate::value::lemma_vals_of;

    let ghost m = crate::value::vals_of(a@);
    let mut i: usize = 0;
    while i < a.len()
        invariant
            i <= a@.len(),
            m == crate::value::vals_of(a@),
            m.len() == a@.len(),
            out@ == old(out)@ + spec_display_list(m.subrange(0, i as int)),
        decreases a@.len() - i,
    {
        if i > 0 {
            push1(out, ',');
        }
        push_display(&a[i], out);
        proof {
            crate::value::lemma_vals_of(a@);
            let p = m.subrange(0, i as int + 1);
            assert(p.drop_last() =~= m.subrange(0, i as int));
            assert(p.last() == m[i as int]);
            assert(m[i as int] == crate::value::val_of(a@[i as int]));
            if p.len() == 1 {
                assert(spec_display_list(p) == spec_display(p[0]));
            } else {
                assert(spec_display_list(p) == spec_display_list(p.drop_last()) + seq![',']
                    + spec_display(p.last()));
            }
        }
        assert(out@ =~= old(out)@ + spec_display_list(m.subrange(0, i as int + 1)));
        i = i + 1;
    }
    proof {
        assert(m.subrange(0, m.len() as int) =~= m);
    }
}

/// Append operator token texts joined with `,` or `, `.
fn push_texts(ops: &Vec<Op>, comma_space: bool, out: &mut Vec<char>)
    ensures
        final(out)@ == old(out)@ + spec_join_texts(
            crate::value::ops_model(ops@),
            if comma_space {
                seq![',', ' ']
            } else {
                seq![',']
            },
        ),
{
    let ghost m = crate::value::ops_model(ops@);
    let ghost sep: Seq<char> = if comma_space {
        seq![',', ' ']
    } else {
        seq![',']
    };
    let mut i: usize = 0;
    while i < ops.len()
        invariant
            i <= ops@.len(),
            m == crate::value::ops_model(ops@),
            m.len() == ops@.len(),
            sep == if comma_space {
                seq![',', ' ']
            } else {
                seq![',']
            },
            out@ == old(out)@ + spec_join_texts(m.subrange(0, i as int), sep),
        decreases ops@.len() - i,
    {
        if i > 0 {
            push1(out, ',');
            if comma_space {
                push1(out, ' ');
            }
        }
        push_all(out, &ops[i].text);
        proof {
            let p = m.subrange(0, i as int + 1);
            assert(p.drop_last() =~= m.subrange(0, i as int));
            assert(p.last() == m[i as int]);
            assert(m[i as int] == crate::value::op_model(ops@[i as int]));
        }
        assert(out@ =~= old(out)@ + spec_join_texts(m.subrange(0, i as int + 1), sep));
        i = i + 1;
    }
    proof {
        assert(m.subrange(0, m.len() as int) =~= m);
    }
}

/// The display text of a value, as the `p` operator prints it.
pub fn display_value(v: &Value) -> (r: Vec<char>)
    ensures
        r@ == spec_display(v@),
{
    let mut out: Vec<char> = Vec::new();
    push_display(v, &mut out);
    assert(out@ =~= Seq::<char>::empty() + spec_display(v@));
    out
}

/// Append the debug text of a value.
fn push_debug(v: &Value, out: &mut Vec<char>)
    ensures
        final(out)@ == old(out)@ + spec_debug(v@),
    decreases *v,
{
    broadcast use crate::value::lemma_vals_of;

    match v {
        Value::Char(c) => {
            push1(out, 'C');
            push1(out, 'h');
            push1(out, 'a');
            push1(out, 'r');
            push1(out, '(');
            push1(out, '\'');
            push1(out, *c);
            push1(out, '\'');
            push1(out, ')');
        },
        Value::Integer(i) => {
            push1(out, 'I');
            push1(out, 'n');
            push1(out, 't');
            push1(out, 'e');
            push1(out, 'g');
            push1(out, 'e');
            push1(out, 'r');
            push1(out, '(');
            let digits = crate::strings::i64_chars(*i);
            push_all(out, &digits);
            push1(out, ')');
        },
        Value::Str(s) => {
            push1(out, 'S');
            push1(out, 't');
            push1(out, 'r');
            push1(out, '(');
            push1(out, '"');
            push_all(out, s);
            push1(out, '"');
            push1(out, ')');
        },
        Value::Array(a) => {
            push1(out, 'A');
            push1(out, 'r');
            push1(out, 'r');
            push1(out, 'a');
            push1(out, 'y');
            push1(out, '(');
            push1(out, '[');
            push_debug_list(a, out);
            push1(out, ']');
            push1(out, ')');
        },
        Value::Block(b) => {
            push1(out, 'B');
            push1(out, 'l');
            push1(out, 'o');
            push1(out, 'c');
            push1(out, 'k');
            push1(out, '(');
            push1(out, '[');
            push_texts(&**b, true, out);
            push1(out, ']');
            push1(out, ')');
        },
    }
    assert(out@ =~= old(out)@ + spec_debug(v@));
}

/// Append the debug texts of array elements, joined with comma and space.
pub(crate) fn push_debug_list(a: &Vec<Value>, out: &mut Vec<char>)
    ensures
        final(out)@ == old(out)@ + spec_debug_list(crate::value::vals_of(a@)),
    decreases a@,
{
    broadcast use crate::value::lemma_vals_of;

    let ghost m = crate::value::vals_of(a@);
    let mut i: usize = 0;
    while i < a.len()
        invariant
            i <= a@.len(),
            m == crate::value::vals_of(a@),
            m.len() == a@.len(),
            out@ == old(out)@ + spec_debug_list(m.subrange(0, i as int)),
        decreases a@.len() - i,
    {
        if i > 0 {
            push1(out, ',');
            push1(out, ' ');
        }
        push_debug(&a[i], out);
        proof {
            crate::value::lemma_vals_of(a@);
            let p = m.subrange(0, i as int + 1);
            assert(p.drop_last() =~= m.subrange(0, i as int));
            assert(p.last() == m[i as int]);
            assert(m[i as int] == crate::value::val_of(a@[i as int]));
            if p.len() == 1 {
                assert(spec_debug_list(p) == spec_debug(p[0]));
            } else {
                assert(spec_debug_list(p) == spec_debug_list(p.drop_last()) + seq![',', ' ']
                    + spec_debug(p.last()));
            }
        }
        assert(out@ =~= old(out)@ + spec_debug_list(m.subrange(0, i as int + 1)));
        i = i + 1;
    }
    proof {
        assert(m.subrange(0, m.len() as int) =~= m);
    }
}

/// The debug text of a value, as coercing an array to text renders its
/// elements.
pub fn debug_value(v: &Value) -> (r: Vec<char>)
    ensures
        r@ == spec_debug(v@),
{
    let mut out: Vec<char> = Vec::new();
    push_debug(v, &mut out);
    assert(out@ =~= Seq::<char>::empty() + spec_debug(v@));
    out
}

} // verus!
