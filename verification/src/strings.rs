//! Text and number helpers: decimal parsing and printing, UTF-8 byte
//! lengths, substring search, splitting and repetition, all over character
//! sequences.

use vstd::prelude::*;

use vstd::string::StrSliceExecFns;

verus! {

/// The decimal value of an ASCII digit.
pub open spec fn spec_digit_val(c: char) -> int {
    c as int - 48
}

/// Whether a character is an ASCII digit.
pub open spec fn spec_is_digit(c: char) -> bool {
    48 <= (c as int) <= 57
}

/// Whether a character is an ASCII digit.
pub fn is_digit(c: char) -> (r: bool)
    ensures
        r == spec_is_digit(c),
{
    c >= '0' && c <= '9'
}

/// The value of a digit string read left to right.
pub open spec fn spec_digits_val(s: Seq<char>) -> int
    decreases s.len(),
{
    if s.len() == 0 {
        0
    } else {
        spec_digits_val(s.subrange(0, s.len() - 1)) * 10 + spec_digit_val(s[s.len() - 1])
    }
}

/// Whether every character is an ASCII digit.
pub open spec fn spec_all_digits(s: Seq<char>) -> bool {
    forall|i: int| 0 <= i < s.len() ==> spec_is_digit(s[i])
}

/// A digit string's value does not shrink when digits are appended.
proof fn lemma_digits_val_prefix(s: Seq<char>, i: int)
    requires
        0 <= i <= s.len(),
        spec_all_digits(s),
    ensures
        0 <= spec_digits_val(s.subrange(0, i)) <= spec_digits_val(s),
    decreases s.len() - i,
{
    if i == s.len() {
        assert(s.subrange(0, i) =~= s);
        lemma_digits_val_nonneg(s);
    } else {
        lemma_digits_val_prefix(s, i + 1);
        let p = s.subrange(0, i + 1);
        assert(p.subrange(0, p.len() - 1) =~= s.subrange(0, i));
        lemma_digits_val_nonneg(s.subrange(0, i));
        assert(spec_digits_val(s.subrange(0, i)) <= spec_digits_val(p)) by {
            assert(spec_digits_val(p) == spec_digits_val(s.subrange(0, i)) * 10
                + spec_digit_val(s[i]));
            assert(spec_digit_val(s[i]) >= 0);
            assert(spec_digits_val(s.subrange(0, i)) * 10 >= spec_digits_val(s.subrange(0, i)))
                by (nonlinear_arith)
                requires spec_digits_val(s.subrange(0, i)) >= 0;
        };
    }
}

/// A digit string's value is not negative.
proof fn lemma_digits_val_nonneg(s: Seq<char>)
    requires
        spec_all_digits(s),
    ensures
        spec_digits_val(s) >= 0,
    decreases s.len(),
{
    if s.len() > 0 {
        assert(spec_all_digits(s.subrange(0, s.len() - 1)));
        lemma_digits_val_nonneg(s.subrange(0, s.len() - 1));
        assert(spec_digits_val(s.subrange(0, s.len() - 1)) * 10 >= 0) by (nonlinear_arith)
            requires spec_digits_val(s.subrange(0, s.len() - 1)) >= 0;
    }
}

/// How an integer token parses: an optional sign, then only digits, and a
/// value within the 64-bit signed range.
pub open spec fn spec_parse_i64(s: Seq<char>) -> Option<i64> {
    let neg = s.len() > 0 && s[0] == '-';
    let ds = if s.len() > 0 && (s[0] == '-' || s[0] == '+') {
        s.subrange(1, s.len() as int)
    } else {
        s
    };
    if ds.len() == 0 || !spec_all_digits(ds) {
        None
    } else {
        let v = spec_digits_val(ds);
        if neg {
            if v <= 0x8000000000000000 {
                Some((-v) as i64)
            } else {
                None
            }
        } else {
            if v <= 0x7fffffffffffffff {
                Some(v as i64)
            } else {
                None
            }
        }
    }
}

/// How an unsigned size token parses: an optional `+`, then only digits, and
/// a value that fits a `usize`.
pub open spec fn spec_parse_usize(s: Seq<char>) -> Option<usize> {
    let ds = if s.len() > 0 && s[0] == '+' {
        s.subrange(1, s.len() as int)
    } else {
        s
    };
    if ds.len() == 0 || !spec_all_digits(ds) {
        None
    } else {
        let v = spec_digits_val(ds);
        if v <= usize::MAX {
            Some(v as usize)
        } else {
            None
        }
    }
}

/// The value of a digit string, or `None` when a character is no digit or
/// the value leaves the unsigned 64-bit range.
fn digits_val_u64(s: &Vec<char>, from: usize) -> (r: Option<u64>)
    requires
        from <= s@.len(),
    ensures
        ({
            let ds = s@.subrange(from as int, s@.len() as int);
            match r {
                Some(v) => spec_all_digits(ds) && ds.len() > 0 && v == spec_digits_val(ds),
                None => ds.len() == 0 || !spec_all_digits(ds) || spec_digits_val(ds)
                    > u64::MAX,
            }
        }),
{
    let ghost ds = s@.subrange(from as int, s@.len() as int);
    if from >= s.len() {
        return None;
    }
    let mut acc: u64 = 0;
    let mut i = from;
    while i < s.len()
        invariant
            from <= i <= s@.len(),
            ds == s@.subrange(from as int, s@.len() as int),
            spec_all_digits(s@.subrange(from as int, i as int)),
            acc == spec_digits_val(s@.subrange(from as int, i as int)),
        decreases s@.len() - i,
    {
        let c = s[i];
        if !is_digit(c) {
            assert(ds[i as int - from] == s@[i as int]);
            assert(!spec_all_digits(ds));
            return None;
        }
        let d = (c as u32 - 48) as u64;
        proof {
            vstd::utf8::char_is_scalar(c);
            assert(d == spec_digit_val(c));
        }
        let step = match acc.checked_mul(10) {
            Some(t) => t.checked_add(d),
            None => None,
        };
        proof {
            let p = s@.subrange(from as int, i as int + 1);
            assert(p.subrange(0, p.len() - 1) =~= s@.subrange(from as int, i as int));
            assert(spec_digits_val(p) == acc * 10 + d);
        }
        match step {
            Some(t) => {
                acc = t;
            },
            None => {
                proof {
                    let p = s@.subrange(from as int, i as int + 1);
                    if spec_all_digits(ds) {
                        assert(forall|k: int| 0 <= k < p.len() ==> p[k] == ds[k]);
                        assert(spec_all_digits(p));
                        lemma_digits_val_nonneg(p);
                        assert(spec_digits_val(p) > u64::MAX);
                        assert(ds.subrange(0, p.len() as int) =~= p);
                        lemma_digits_val_shift(ds, p.len() as int);
                    }
                }
                return None;
            },
        }
        i = i + 1;
    }
    proof {
        assert(s@.subrange(from as int, i as int) =~= ds);
    }
    Some(acc)
}

/// A digit string's value is at least the value of any of its prefixes.
proof fn lemma_digits_val_shift(s: Seq<char>, i: int)
    requires
        0 <= i <= s.len(),
        spec_all_digits(s),
    ensures
        spec_digits_val(s) >= spec_digits_val(s.subrange(0, i)),
{
    lemma_digits_val_prefix(s, i);
}

/// Parse an integer token, as `spec_parse_i64` states it.
pub fn parse_i64(s: &Vec<char>) -> (r: Option<i64>)
    ensures
        r == spec_parse_i64(s@),
{
    if s.len() == 0 {
        return None;
    }
    let c0 = s[0];
    let neg = c0 == '-';
    let from: usize = if c0 == '-' || c0 == '+' {
        1
    } else {
        0
    };
    let ghost ds = if from == 1 {
        s@.subrange(1, s@.len() as int)
    } else {
        s@
    };
    proof {
        if from == 0 {
            assert(s@.subrange(0, s@.len() as int) =~= s@);
        }
    }
    let v = digits_val_u64(s, from);
    proof {
        assert(s@.subrange(from as int, s@.len() as int) =~= ds);
    }
    match v {
        None => {
            proof {
                if !(ds.len() == 0 || !spec_all_digits(ds)) {
                    assert(spec_digits_val(ds) > u64::MAX);
                }
            }
            None
        },
        Some(v) => {
            if neg {
                if v <= 0x8000000000000000u64 {
                    if v == 0x8000000000000000u64 {
                        Some(i64::MIN)
                    } else {
                        Some(-(v as i64))
                    }
                } else {
                    None
                }
            } else {
                if v <= 0x7fffffffffffffffu64 {
                    Some(v as i64)
                } else {
                    None
                }
            }
        },
    }
}

/// Parse an unsigned size token, as `spec_parse_usize` states it.
pub fn parse_usize(s: &Vec<char>) -> (r: Option<usize>)
    ensures
        r == spec_parse_usize(s@),
{
    if s.len() == 0 {
        return None;
    }
    let from: usize = if s[0] == '+' {
        1
    } else {
        0
    };
    let ghost ds = if from == 1 {
        s@.subrange(1, s@.len() as int)
    } else {
        s@
    };
    proof {
        if from == 0 {
            assert(s@.subrange(0, s@.len() as int) =~= s@);
        }
    }
    let v = digits_val_u64(s, from);
    proof {
        assert(s@.subrange(from as int, s@.len() as int) =~= ds);
    }
    match v {
        None => {
            proof {
                if !(ds.len() == 0 || !spec_all_digits(ds)) {
                    assert(spec_digits_val(ds) > u64::MAX >= usize::MAX);
                }
            }
            None
        },
        Some(v) => {
            if v <= usize::MAX as u64 {
                Some(v as usize)
            } else {
                None
            }
        },
    }
}

/// The character for a decimal digit.
pub open spec fn spec_digit_char(d: int) -> char {
    ((d + 48) as u8) as char
}

/// The decimal digits of a non-negative number.
pub open spec fn spec_nat_chars(n: int) -> Seq<char>
    decreases n,
{
    if n < 10 {
        seq![spec_digit_char(if n < 0 { 0 } else { n })]
    } else {
        spec_nat_chars(n / 10).push(spec_digit_char(n % 10))
    }
}

/// The decimal rendering of a 64-bit signed integer, sign included.
pub open spec fn spec_i64_chars(i: int) -> Seq<char> {
    if i < 0 {
        seq!['-'] + spec_nat_chars(-i)
    } else {
        spec_nat_chars(i)
    }
}

/// Append the decimal digits of a non-negative number.
fn push_nat_chars(m: u64, out: &mut Vec<char>)
    ensures
        final(out)@ == old(out)@ + spec_nat_chars(m as int),
    decreases m,
{
    if m < 10 {
        let d = (m as u8 + 48) as char;
        out.push(d);
        assert(out@ =~= old(out)@ + spec_nat_chars(m as int));
    } else {
        proof {
            assert(m / 10 < m) by (nonlinear_arith)
                requires m >= 10u64;
        }
        push_nat_chars(m / 10, out);
        let d = ((m % 10) as u8 + 48) as char;
        out.push(d);
        assert(out@ =~= old(out)@ + spec_nat_chars(m as int));
    }
}

/// The decimal rendering of an integer, as `spec_i64_chars` states it.
pub fn i64_chars(i: i64) -> (r: Vec<char>)
    ensures
        r@ == spec_i64_chars(i as int),
{
    let mut out: Vec<char> = Vec::new();
    if i >= 0 {
        push_nat_chars(i as u64, &mut out);
        assert(out@ =~= Seq::<char>::empty() + out@);
    } else {
        out.push('-');
        let m: u64 = if i == i64::MIN {
            0x8000000000000000u64
        } else {
            (-i) as u64
        };
        let ghost before = out@;
        push_nat_chars(m, &mut out);
        assert(out@ =~= seq!['-'] + spec_nat_chars(m as int));
    }
    out
}

/// How many bytes a character takes in UTF-8.
pub open spec fn spec_utf8_len(c: char) -> int {
    if (c as int) < 0x80 {
        1
    } else if (c as int) < 0x800 {
        2
    } else if (c as int) < 0x10000 {
        3
    } else {
        4
    }
}

/// The UTF-8 byte length of a character sequence.
pub open spec fn spec_byte_len(s: Seq<char>) -> int
    decreases s.len(),
{
    if s.len() == 0 {
        0
    } else {
        spec_byte_len(s.subrange(0, s.len() - 1)) + spec_utf8_len(s[s.len() - 1])
    }
}

/// How many bytes a character takes in UTF-8.
pub fn utf8_len(c: char) -> (r: u8)
    ensures
        r == spec_utf8_len(c),
{
    let u = c as u32;
    proof {
        vstd::utf8::char_is_scalar(c);
    }
    if u < 0x80 {
        1
    } else if u < 0x800 {
        2
    } else if u < 0x10000 {
        3
    } else {
        4
    }
}

/// The UTF-8 byte length of a character sequence, exact while it fits a
/// `u128`, which it always does.
pub fn byte_len(s: &Vec<char>) -> (r: u128)
    ensures
        r == spec_byte_len(s@),
{
    let r = byte_len_upto(s, s.len());
    proof {
        assert(s@.subrange(0, s@.len() as int) =~= s@);
    }
    r
}

/// The UTF-8 byte length of the first `upto` characters.
pub fn byte_len_upto(s: &Vec<char>, upto: usize) -> (r: u128)
    requires
        upto <= s@.len(),
    ensures
        r == spec_byte_len(s@.subrange(0, upto as int)),
{
    let mut acc: u128 = 0;
    let mut i: usize = 0;
    proof {
        lemma_byte_len_bound(s@.subrange(0, upto as int));
    }
    while i < upto
        invariant
            i <= upto <= s@.len(),
            acc == spec_byte_len(s@.subrange(0, i as int)),
            spec_byte_len(s@.subrange(0, upto as int)) <= 4 * upto,
            acc <= 4 * i,
        decreases upto - i,
    {
        let l = utf8_len(s[i]);
        proof {
            let p = s@.subrange(0, i as int + 1);
            assert(p.subrange(0, p.len() - 1) =~= s@.subrange(0, i as int));
            lemma_byte_len_bound(s@.subrange(0, i as int));
        }
        acc = acc + l as u128;
        i = i + 1;
    }
    proof {
        assert(s@.subrange(0, i as int) =~= s@.subrange(0, upto as int));
    }
    acc
}

/// A character sequence's UTF-8 byte length is bounded by four bytes per
/// character and is not negative.
pub proof fn lemma_byte_len_bound(s: Seq<char>)
    ensures
        0 <= spec_byte_len(s) <= 4 * s.len(),
    decreases s.len(),
{
    if s.len() > 0 {
        lemma_byte_len_bound(s.subrange(0, s.len() - 1));
    }
}

/// Whether the needle occurs in the haystack at the given index.
pub open spec fn spec_occurs_at(h: Seq<char>, n: Seq<char>, i: int) -> bool {
    0 <= i && i + n.len() <= h.len() && h.subrange(i, i + n.len()) == n
}

/// The first index at or after `i` where the needle occurs, if any.
pub open spec fn spec_find_from(h: Seq<char>, n: Seq<char>, i: int) -> Option<int>
    decreases h.len() - i when 0 <= i via spec_find_from_decreases
{
    if i + n.len() > h.len() {
        None
    } else if spec_occurs_at(h, n, i) {
        Some(i)
    } else {
        spec_find_from(h, n, i + 1)
    }
}

#[via_fn]
proof fn spec_find_from_decreases(h: Seq<char>, n: Seq<char>, i: int) {
    if i + n.len() <= h.len() && !spec_occurs_at(h, n, i) {
        if n.len() == 0 {
            assert(h.subrange(i, i) =~= n);
        }
    }
}

/// A found occurrence lies at or after the start and fits the haystack.
pub proof fn lemma_find_from_bounds(h: Seq<char>, n: Seq<char>, i: int)
    requires
        0 <= i,
    ensures
        match spec_find_from(h, n, i) {
            Some(j) => i <= j && j + n.len() <= h.len() && spec_occurs_at(h, n, j),
            None => true,
        },
    decreases h.len() - i,
{
    if i + n.len() <= h.len() && !spec_occurs_at(h, n, i) {
        if n.len() == 0 {
            assert(h.subrange(i, i) =~= n);
        }
        lemma_find_from_bounds(h, n, i + 1);
    }
}

/// Search for the needle in the haystack from a start index, as
/// `spec_find_from` states it.
pub fn find_sub_from(h: &Vec<char>, n: &Vec<char>, from: usize) -> (r: Option<usize>)
    requires
        from <= h@.len(),
    ensures
        match r {
            Some(j) => spec_find_from(h@, n@, from as int) == Some(j as int),
            None => spec_find_from(h@, n@, from as int) is None,
        },
{
    if n.len() > h.len() {
        proof {
            lemma_find_from_none(h@, n@, from as int);
        }
        return None;
    }
    let last = h.len() - n.len();
    if from > last {
        return None;
    }
    let mut i = from;
    while i <= last
        invariant
            from <= i <= last + 1,
            last == h@.len() - n@.len(),
            n@.len() <= h@.len(),
            h@.len() <= usize::MAX,
            spec_find_from(h@, n@, from as int) == spec_find_from(h@, n@, i as int),
        decreases last + 1 - i,
    {
        let mut j: usize = 0;
        let mut hit = true;
        while j < n.len()
            invariant
                i + n@.len() <= h@.len(),
                h@.len() <= usize::MAX,
                j <= n@.len(),
                hit ==> h@.subrange(i as int, i as int + j as int) =~= n@.subrange(
                    0,
                    j as int,
                ),
                !hit ==> !spec_occurs_at(h@, n@, i as int),
            decreases n@.len() - j,
        {
            proof {
                assert(i + j < h@.len());
            }
            if h[i + j] != n[j] {
                hit = false;
                proof {
                    assert(h@.subrange(i as int, i as int + n@.len())[j as int] != n@[j as int]);
                }
                j = n.len();
            } else {
                proof {
                    assert(h@.subrange(i as int, i as int + j as int + 1) =~= h@.subrange(
                        i as int,
                        i as int + j as int,
                    ).push(h@[i as int + j as int]));
                    assert(n@.subrange(0, j as int + 1) =~= n@.subrange(0, j as int).push(
                        n@[j as int],
                    ));
                }
                j = j + 1;
            }
        }
        if hit {
            proof {
                assert(h@.subrange(i as int, i as int + n@.len()) =~= n@.subrange(0, n@.len() as
                    int));
                assert(n@.subrange(0, n@.len() as int) =~= n@);
            }
            return Some(i);
        }
        proof {
            if n@.len() == 0 {
                assert(h@.subrange(i as int, i as int) =~= n@);
            }
        }
        i = i + 1;
    }
    None
}

/// When the needle is longer than the rest of the haystack it does not occur.
proof fn lemma_find_from_none(h: Seq<char>, n: Seq<char>, i: int)
    requires
        0 <= i,
        n.len() > h.len(),
    ensures
        spec_find_from(h, n, i) is None,
{
}

/// The pieces of the haystack split on a non-empty delimiter, scanning from
/// `start`.
pub open spec fn spec_split_from(h: Seq<char>, d: Seq<char>, start: int) -> Seq<Seq<char>>
    decreases h.len() - start when 0 <= start && d.len() > 0 via spec_split_from_decreases
{
    match spec_find_from(h, d, start) {
        None => seq![h.subrange(if start <= h.len() { start } else { h.len() as int }, h.len() as
            int)],
        Some(i) => seq![h.subrange(start, i)] + spec_split_from(h, d, i + d.len()),
    }
}

#[via_fn]
proof fn spec_split_from_decreases(h: Seq<char>, d: Seq<char>, start: int) {
    lemma_find_from_bounds(h, d, start);
}

/// The pieces of the haystack split on an empty delimiter: an empty piece,
/// one piece per character, and an empty piece.
pub open spec fn spec_split_empty(h: Seq<char>) -> Seq<Seq<char>> {
    Seq::new(
        h.len() + 2,
        |k: int| if k == 0 || k == h.len() + 1 {
            Seq::empty()
        } else {
            seq![h[k - 1]]
        },
    )
}

/// The pieces of the haystack split on the delimiter, as `str::split` splits.
pub open spec fn spec_split(h: Seq<char>, d: Seq<char>) -> Seq<Seq<char>> {
    if d.len() == 0 {
        spec_split_empty(h)
    } else {
        spec_split_from(h, d, 0)
    }
}

/// A sequence repeated a number of times.
pub open spec fn spec_repeat(s: Seq<char>, n: int) -> Seq<char>
    decreases n,
{
    if n <= 0 {
        Seq::empty()
    } else {
        spec_repeat(s, n - 1) + s
    }
}

/// The repetition of a character sequence, as `spec_repeat` states it.
pub fn repeat_chars(s: &Vec<char>, n: u64) -> (r: Vec<char>)
    ensures
        r@ == spec_repeat(s@, n as int),
{
    let mut out: Vec<char> = Vec::new();
    let mut k: u64 = 0;
    while k < n
        invariant
            k <= n,
            out@ == spec_repeat(s@, k as int),
        decreases n - k,
    {
        let mut i: usize = 0;
        let ghost before = out@;
        while i < s.len()
            invariant
                i <= s@.len(),
                out@ == before + s@.subrange(0, i as int),
            decreases s@.len() - i,
        {
            out.push(s[i]);
            assert(out@ =~= before + s@.subrange(0, i as int + 1));
            i = i + 1;
        }
        proof {
            assert(out@ =~= before + s@);
        }
        k = k + 1;
    }
    out
}

/// The characters of borrowed text, in order.
pub fn str_to_chars(s: &str) -> (r: Vec<char>)
    ensures
        r@ == s@,
{
    let n = s.unicode_len();
    let mut out: Vec<char> = Vec::new();
    let mut i: usize = 0;
    while i < n
        invariant
            i <= n,
            n == s@.len(),
            out@ == s@.subrange(0, i as int),
        decreases n - i,
    {
        let c = s.get_char(i);
        out.push(c);
        assert(out@ =~= s@.subrange(0, i as int + 1));
        i = i + 1;
    }
    assert(out@ =~= s@);
    out
}

} // verus!
