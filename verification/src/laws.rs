//! Laws that hold across the value model and the engine, stated over the
//! mathematical models that the operators' own contracts use.

use vstd::prelude::*;

use crate::arith::err2;
use crate::arith::spec_add;
use crate::arith::spec_sub;
use crate::engine::spec_keep;
use crate::engine::spec_range_vals;
use crate::error::ErrVal;
use crate::value::Val;

verus! {

/// Adding an integer and then subtracting it restores the first operand for
/// every pair whose sum stays in the 64-bit signed range; a sum outside that
/// range is an invalid-operation error, never a silent wrap.
pub proof fn lemma_add_sub_round_trip(a: i64, b: i64)
    ensures
        i64::MIN <= a + b <= i64::MAX ==> spec_add(Val::Integer(a), Val::Integer(b)) == Ok::<
            Val,
            ErrVal,
        >(Val::Integer((a + b) as i64)),
        i64::MIN <= a + b <= i64::MAX ==> spec_sub(
            Val::Integer((a + b) as i64),
            Val::Integer(b),
        ) == Ok::<Val, ErrVal>(Val::Integer(a)),
        !(i64::MIN <= a + b <= i64::MAX) ==> spec_add(Val::Integer(a), Val::Integer(b)) == err2(
            Val::Integer(a),
            Val::Integer(b),
            "add"@,
        ),
{
}

/// The range an integer unfolds to holds exactly the numbers 0 to n-1, so
/// its length is n back again.
pub proof fn lemma_range_then_length(n: i64)
    requires
        0 <= n,
    ensures
        spec_range_vals(n as int).len() == n,
        spec_range_vals(n as int).len() as i64 == n,
        forall|k: int| 0 <= k < n ==> spec_range_vals(n as int)[k] == Val::Integer(k as i64),
{
}

/// Whether the first sequence appears inside the second in order.
pub open spec fn is_subsequence(a: Seq<Val>, b: Seq<Val>) -> bool
    decreases b.len(),
{
    if a.len() == 0 {
        true
    } else if b.len() == 0 {
        false
    } else if a.last() == b.last() {
        is_subsequence(a.drop_last(), b.drop_last()) || is_subsequence(a, b.drop_last())
    } else {
        is_subsequence(a, b.drop_last())
    }
}

/// Whatever the predicate decides, a filtered sequence is a subsequence of
/// its input: elements are only removed, and the kept ones stay in their
/// original order.
pub proof fn lemma_filter_subsequence(s: Seq<Val>, f: Seq<bool>)
    ensures
        is_subsequence(spec_keep(s, f), s),
    decreases s.len(),
{
    if s.len() > 0 {
        lemma_filter_subsequence(s.drop_last(), f);
        let kept = spec_keep(s, f);
        let prev = spec_keep(s.drop_last(), f);
        if 0 <= s.len() - 1 < f.len() && f[s.len() - 1] {
            assert(kept =~= prev.push(s.last()));
            assert(kept.len() > 0);
            assert(kept.last() == s.last());
            assert(kept.drop_last() =~= prev);
        } else {
            assert(kept =~= prev);
        }
    }
}

} // verus!
