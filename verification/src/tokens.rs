//! The tokenizer: splits source text into a finite, restartable sequence of
//! tokens.  Whitespace outside brackets, braces and quotes separates tokens;
//! `"`, `[` and `{` open groups that extend to their matching close (counting
//! nesting for brackets and braces) or to the end of the input.

use vstd::prelude::*;

verus! {

/// Whether a character separates tokens: the Unicode white-space set.
pub open spec fn spec_is_space(c: char) -> bool {
    c == ' ' || c == '\t' || c == '\n' || c == '\r' || c == '\u{000B}' || c == '\u{000C}'
        || c == '\u{0085}' || c == '\u{00A0}' || c == '\u{1680}' || c == '\u{2000}'
        || c == '\u{2001}' || c == '\u{2002}' || c == '\u{2003}' || c == '\u{2004}'
        || c == '\u{2005}' || c == '\u{2006}' || c == '\u{2007}' || c == '\u{2008}'
        || c == '\u{2009}' || c == '\u{200A}' || c == '\u{2028}' || c == '\u{2029}'
        || c == '\u{202F}' || c == '\u{205F}' || c == '\u{3000}'
}

/// Whether a character separates tokens.
pub fn is_space(c: char) -> (r: bool)
    ensures
        r == spec_is_space(c),
{
    c == ' ' || c == '\t' || c == '\n' || c == '\r' || c == '\u{000B}' || c == '\u{000C}'
        || c == '\u{0085}' || c == '\u{00A0}' || c == '\u{1680}' || c == '\u{2000}'
        || c == '\u{2001}' || c == '\u{2002}' || c == '\u{2003}' || c == '\u{2004}'
        || c == '\u{2005}' || c == '\u{2006}' || c == '\u{2007}' || c == '\u{2008}'
        || c == '\u{2009}' || c == '\u{200A}' || c == '\u{2028}' || c == '\u{2029}'
        || c == '\u{202F}' || c == '\u{205F}' || c == '\u{3000}'
}

/// The first index at or after `i` holding a non-space character, or the
/// text's length.
pub open spec fn spec_skip_spaces(s: Seq<char>, i: int) -> int
    decreases s.len() - i,
{
    if i < 0 || i >= s.len() {
        s.len() as int
    } else if spec_is_space(s[i]) {
        spec_skip_spaces(s, i + 1)
    } else {
        i
    }
}

/// The first index at or after `i` holding the given character, if any.
pub open spec fn spec_find_char(s: Seq<char>, c: char, i: int) -> Option<int>
    decreases s.len() - i,
{
    if i < 0 || i >= s.len() {
        None
    } else if s[i] == c {
        Some(i)
    } else {
        spec_find_char(s, c, i + 1)
    }
}

/// The index of the close character matching an already-open group, counting
/// nesting from `depth`, if any.
pub open spec fn spec_find_close(s: Seq<char>, open: char, close: char, i: int, depth: int) ->
    Option<int>
    decreases s.len() - i,
{
    if i < 0 || i >= s.len() {
        None
    } else if s[i] == close && depth == 1 {
        Some(i)
    } else if s[i] == close {
        spec_find_close(s, open, close, i + 1, depth - 1)
    } else if s[i] == open {
        spec_find_close(s, open, close, i + 1, depth + 1)
    } else {
        spec_find_close(s, open, close, i + 1, depth)
    }
}

/// The first index at or after `i` holding a space, or the text's length.
pub open spec fn spec_find_space(s: Seq<char>, i: int) -> int
    decreases s.len() - i,
{
    if i < 0 || i >= s.len() {
        s.len() as int
    } else if spec_is_space(s[i]) {
        i
    } else {
        spec_find_space(s, i + 1)
    }
}

/// Where the token starting at the non-space index `i` ends (exclusive).
pub open spec fn spec_token_end(s: Seq<char>, i: int) -> int {
    if s[i] == '"' {
        match spec_find_char(s, '"', i + 1) {
            Some(j) => j + 1,
            None => s.len() as int,
        }
    } else if s[i] == '[' {
        match spec_find_close(s, '[', ']', i + 1, 1) {
            Some(j) => j + 1,
            None => s.len() as int,
        }
    } else if s[i] == '{' {
        match spec_find_close(s, '{', '}', i + 1, 1) {
            Some(j) => j + 1,
            None => s.len() as int,
        }
    } else {
        spec_find_space(s, i)
    }
}

/// The next token at or after `pos` and the position just past it, or `None`
/// when only spaces remain.
pub open spec fn spec_next_token(s: Seq<char>, pos: int) -> Option<(Seq<char>, int)> {
    let i = spec_skip_spaces(s, pos);
    if i >= s.len() {
        None
    } else {
        let end = spec_token_end(s, i);
        Some((s.subrange(i, end), end))
    }
}

/// Skipping spaces stays between the start and the text's length.
pub proof fn lemma_skip_spaces_bounds(s: Seq<char>, i: int)
    requires
        0 <= i <= s.len(),
    ensures
        i <= spec_skip_spaces(s, i) <= s.len(),
        spec_skip_spaces(s, i) < s.len() ==> !spec_is_space(s[spec_skip_spaces(s, i)]),
    decreases s.len() - i,
{
    if i < s.len() && spec_is_space(s[i]) {
        lemma_skip_spaces_bounds(s, i + 1);
    }
}

/// A found character lies between the start and the text's length.
pub proof fn lemma_find_char_bounds(s: Seq<char>, c: char, i: int)
    requires
        0 <= i <= s.len(),
    ensures
        match spec_find_char(s, c, i) {
            Some(j) => i <= j < s.len() && s[j] == c,
            None => true,
        },
    decreases s.len() - i,
{
    if i < s.len() && s[i] != c {
        lemma_find_char_bounds(s, c, i + 1);
    }
}

/// A found close lies between the start and the text's length.
pub proof fn lemma_find_close_bounds(s: Seq<char>, open: char, close: char, i: int, depth: int)
    requires
        0 <= i <= s.len(),
    ensures
        match spec_find_close(s, open, close, i, depth) {
            Some(j) => i <= j < s.len(),
            None => true,
        },
    decreases s.len() - i,
{
    if i < s.len() && !(s[i] == close && depth == 1) {
        if s[i] == close {
            lemma_find_close_bounds(s, open, close, i + 1, depth - 1);
        } else if s[i] == open {
            lemma_find_close_bounds(s, open, close, i + 1, depth + 1);
        } else {
            lemma_find_close_bounds(s, open, close, i + 1, depth);
        }
    }
}

/// The first space lies between the start and the text's length.
pub proof fn lemma_find_space_bounds(s: Seq<char>, i: int)
    requires
        0 <= i <= s.len(),
    ensures
        i <= spec_find_space(s, i) <= s.len(),
    decreases s.len() - i,
{
    if i < s.len() && !spec_is_space(s[i]) {
        lemma_find_space_bounds(s, i + 1);
    }
}

/// A token ends past where it starts and within the text.
pub proof fn lemma_token_end_bounds(s: Seq<char>, i: int)
    requires
        0 <= i < s.len(),
        !spec_is_space(s[i]),
    ensures
        i < spec_token_end(s, i) <= s.len(),
{
    if s[i] == '"' {
        lemma_find_char_bounds(s, '"', i + 1);
    } else if s[i] == '[' {
        lemma_find_close_bounds(s, '[', ']', i + 1, 1);
    } else if s[i] == '{' {
        lemma_find_close_bounds(s, '{', '}', i + 1, 1);
    } else {
        lemma_find_space_bounds(s, i + 1);
        assert(spec_find_space(s, i) == spec_find_space(s, i + 1));
    }
}

/// A produced token is non-empty, starts past `pos`, and ends within the
/// text, strictly after `pos`.
pub proof fn lemma_next_token_progress(s: Seq<char>, pos: int)
    requires
        0 <= pos <= s.len(),
    ensures
        match spec_next_token(s, pos) {
            Some(p) => p.0.len() > 0 && pos < p.1 <= s.len(),
            None => true,
        },
{
    lemma_skip_spaces_bounds(s, pos);
    let i = spec_skip_spaces(s, pos);
    if i < s.len() {
        lemma_token_end_bounds(s, i);
    }
}

/// All tokens of the text from `pos` on.
pub open spec fn spec_tokens_from(s: Seq<char>, pos: int) -> Seq<Seq<char>>
    decreases s.len() - pos when 0 <= pos <= s.len() via spec_tokens_from_decreases
{
    match spec_next_token(s, pos) {
        None => Seq::empty(),
        Some(p) => seq![p.0] + spec_tokens_from(s, p.1),
    }
}

#[via_fn]
proof fn spec_tokens_from_decreases(s: Seq<char>, pos: int) {
    lemma_next_token_progress(s, pos);
}

/// All tokens of the text.
pub open spec fn spec_tokens(s: Seq<char>) -> Seq<Seq<char>> {
    spec_tokens_from(s, 0)
}

/// The texts of a token list, elementwise.
pub open spec fn texts_of(s: Seq<Vec<char>>) -> Seq<Seq<char>> {
    s.map_values(|t: Vec<char>| t@)
}

/// A restartable cursor over the tokens of a source text.
#[derive(Debug)]
pub struct Iter {
    pub s: Vec<char>,
    pub pos: usize,
}

impl Iter {
    /// A cursor at the start of the text.
    pub fn new(s: Vec<char>) -> (r: Iter)
        ensures
            r.s@ == s@,
            r.pos == 0,
    {
        Iter { s, pos: 0 }
    }

    /// The next token, advancing the cursor past it; `None` when only spaces
    /// remain.
    pub fn next(&mut self) -> (r: Option<Vec<char>>)
        requires
            old(self).pos <= old(self).s@.len(),
        ensures
            final(self).s@ == old(self).s@,
            final(self).pos <= final(self).s@.len(),
            match spec_next_token(old(self).s@, old(self).pos as int) {
                Some(p) => r matches Some(t) && t@ == p.0 && final(self).pos == p.1,
                None => r is None && final(self).pos == old(self).s@.len(),
            },
    {
        let ghost s0 = self.s@;
        let ghost p0 = self.pos as int;
        let n = self.s.len();
        // skip leading spaces
        let mut i = self.pos;
        while i < n && is_space(self.s[i])
            invariant
                p0 <= i <= n,
                n == s0.len(),
                self.s@ == s0,
                self.pos == p0,
                spec_skip_spaces(s0, p0) == spec_skip_spaces(s0, i as int),
            decreases n - i,
        {
            i = i + 1;
        }
        assert(spec_skip_spaces(s0, i as int) == i || i == n);
        proof {
            lemma_skip_spaces_bounds(s0, p0);
        }
        if i >= n {
            self.pos = n;
            return None;
        }
        let first = self.s[i];
        let end: usize = if first == '"' {
            self.find_char('"', i + 1)
        } else if first == '[' {
            self.find_close('[', ']', i + 1)
        } else if first == '{' {
            self.find_close('{', '}', i + 1)
        } else {
            self.find_space(i)
        };
        assert(end == spec_token_end(s0, i as int));
        proof {
            lemma_token_end_bounds(s0, i as int);
        }
        let mut t: Vec<char> = Vec::new();
        let mut j = i;
        while j < end
            invariant
                i <= j <= end <= n,
                n == s0.len(),
                self.s@ == s0,
                self.pos == p0,
                t@ == s0.subrange(i as int, j as int),
            decreases end - j,
        {
            t.push(self.s[j]);
            assert(t@ =~= s0.subrange(i as int, j as int + 1));
            j = j + 1;
        }
        self.pos = end;
        Some(t)
    }

    /// The index just past the next occurrence of `c` at or after `from`, or
    /// the text's length when there is none.
    fn find_char(&self, c: char, from: usize) -> (r: usize)
        requires
            from <= self.s@.len(),
        ensures
            r == match spec_find_char(self.s@, c, from as int) {
                Some(j) => j + 1,
                None => self.s@.len() as int,
            },
            from <= r <= self.s@.len(),
    {
        proof {
            lemma_find_char_bounds(self.s@, c, from as int);
        }
        let n = self.s.len();
        let mut i = from;
        while i < n
            invariant
                from <= i <= n,
                n == self.s@.len(),
                spec_find_char(self.s@, c, from as int) == spec_find_char(self.s@, c, i as int),
            decreases n - i,
        {
            if self.s[i] == c {
                return i + 1;
            }
            i = i + 1;
        }
        n
    }

    /// The index just past the close matching one already-open group at or
    /// after `from`, or the text's length when the group is unterminated.
    fn find_close(&self, open: char, close: char, from: usize) -> (r: usize)
        requires
            1 <= from <= self.s@.len(),
        ensures
            r == match spec_find_close(self.s@, open, close, from as int, 1) {
                Some(j) => j + 1,
                None => self.s@.len() as int,
            },
            from <= r <= self.s@.len(),
    {
        proof {
            lemma_find_close_bounds(self.s@, open, close, from as int, 1);
        }
        let n = self.s.len();
        let mut i = from;
        let mut depth: usize = 1;
        while i < n
            invariant
                1 <= from <= i <= n,
                n == self.s@.len(),
                1 <= depth <= 1 + i - from,
                spec_find_close(self.s@, open, close, from as int, 1) == spec_find_close(
                    self.s@,
                    open,
                    close,
                    i as int,
                    depth as int,
                ),
            decreases n - i,
        {
            let c = self.s[i];
            if c == close {
                if depth == 1 {
                    proof {
                        lemma_find_close_bounds(self.s@, open, close, from as int, 1);
                    }
                    return i + 1;
                }
                depth = depth - 1;
            } else if c == open {
                depth = depth + 1;
            }
            i = i + 1;
        }
        n
    }

    /// The first space at or after `from`, or the text's length.
    fn find_space(&self, from: usize) -> (r: usize)
        requires
            from <= self.s@.len(),
        ensures
            r == spec_find_space(self.s@, from as int),
            from <= r <= self.s@.len(),
    {
        proof {
            lemma_find_space_bounds(self.s@, from as int);
        }
        let n = self.s.len();
        let mut i = from;
        while i < n
            invariant
                from <= i <= n,
                n == self.s@.len(),
                spec_find_space(self.s@, from as int) == spec_find_space(self.s@, i as int),
            decreases n - i,
        {
            if is_space(self.s[i]) {
                return i;
            }
            i = i + 1;
        }
        n
    }
}

/// All tokens of a source text, in order.
pub fn split_tokens(s: &Vec<char>) -> (r: Vec<Vec<char>>)
    ensures
        texts_of(r@) == spec_tokens(s@),
{
    let mut it = Iter::new(crate::value::clone_chars(s));
    let mut out: Vec<Vec<char>> = Vec::new();
    loop
        invariant
            it.s@ == s@,
            it.pos <= s@.len(),
            texts_of(out@) + spec_tokens_from(s@, it.pos as int) == spec_tokens(s@),
        decreases s@.len() - it.pos,
    {
        let ghost p = it.pos as int;
        proof {
            lemma_next_token_progress(s@, p);
        }
        let t = it.next();
        match t {
            None => {
                assert(spec_tokens_from(s@, p) =~= Seq::<Seq<char>>::empty());
                assert(texts_of(out@) =~= spec_tokens(s@));
                return out;
            },
            Some(t) => {
                let ghost before = out@;
                out.push(t);
                proof {
                    assert(texts_of(out@) =~~= texts_of(before).push(t@));
                    assert(texts_of(out@) + spec_tokens_from(s@, it.pos as int) =~~= spec_tokens(
                        s@,
                    ));
                }
            },
        }
    }
}

/// No occurrence of the character lies before the one found.
proof fn lemma_find_char_not_before(s: Seq<char>, c: char, i: int)
    requires
        0 <= i <= s.len(),
    ensures
        match spec_find_char(s, c, i) {
            Some(j) => forall|k: int| i <= k < j ==> s[k] != c,
            None => forall|k: int| i <= k < s.len() ==> s[k] != c,
        },
    decreases s.len() - i,
{
    if i < s.len() && s[i] != c {
        lemma_find_char_not_before(s, c, i + 1);
    }
}

/// A character preceded only by others is the one found.
proof fn lemma_find_char_at(s: Seq<char>, c: char, i: int, m: int)
    requires
        0 <= i <= m < s.len(),
        forall|k: int| i <= k < m ==> s[k] != c,
        s[m] == c,
    ensures
        spec_find_char(s, c, i) == Some(m),
    decreases m - i,
{
    if i < m {
        lemma_find_char_at(s, c, i + 1, m);
    }
}

/// A character that never occurs is never found.
proof fn lemma_find_char_none(s: Seq<char>, c: char, i: int)
    requires
        0 <= i,
        forall|k: int| i <= k < s.len() ==> s[k] != c,
    ensures
        spec_find_char(s, c, i) is None,
    decreases s.len() - i,
{
    if i < s.len() {
        lemma_find_char_none(s, c, i + 1);
    }
}

/// Only non-spaces lie before the first space.
proof fn lemma_find_space_not_before(s: Seq<char>, i: int)
    requires
        0 <= i <= s.len(),
    ensures
        forall|k: int| i <= k < spec_find_space(s, i) ==> !spec_is_space(s[k]),
        spec_find_space(s, i) < s.len() ==> spec_is_space(s[spec_find_space(s, i)]),
    decreases s.len() - i,
{
    if i < s.len() && !spec_is_space(s[i]) {
        lemma_find_space_not_before(s, i + 1);
    }
}

/// A space preceded only by non-spaces is the first one, and a text of
/// non-spaces has its first space at its end.
proof fn lemma_find_space_at(s: Seq<char>, i: int, m: int)
    requires
        0 <= i <= m <= s.len(),
        forall|k: int| i <= k < m ==> !spec_is_space(s[k]),
        m < s.len() ==> spec_is_space(s[m]),
    ensures
        spec_find_space(s, i) == m,
    decreases m - i,
{
    if i < m {
        lemma_find_space_at(s, i + 1, m);
    }
}

/// Two texts that agree over a window scan to the same close: the close is
/// found at the same window offset, or both scans run off their ends.
proof fn lemma_find_close_lockstep(
    x: Seq<char>,
    y: Seq<char>,
    open: char,
    close: char,
    px: int,
    py: int,
    k: int,
    d: int,
)
    requires
        0 <= px <= x.len(),
        0 <= py <= y.len(),
        0 <= k,
        px + k <= x.len(),
        py + k <= y.len(),
        forall|m: int| 0 <= m < k ==> #[trigger] x[px + m] == y[py + m],
        match spec_find_close(x, open, close, px, d) {
            Some(j) => j < px + k,
            None => x.len() == px + k && y.len() == py + k,
        },
    ensures
        match spec_find_close(x, open, close, px, d) {
            Some(j) => spec_find_close(y, open, close, py, d) == Some(py + (j - px)),
            None => spec_find_close(y, open, close, py, d) is None,
        },
    decreases k,
{
    lemma_find_close_bounds(x, open, close, px, d);
    if px < x.len() {
        assert(x[px + 0] == y[py + 0]);
        assert forall|m: int| 0 <= m < k - 1 implies #[trigger] x[px + 1 + m] == y[py + 1
            + m] by {
            assert(x[px + (m + 1)] == y[py + (m + 1)]);
        }
        if !(x[px] == close && d == 1) {
            if x[px] == close {
                lemma_find_close_lockstep(x, y, open, close, px + 1, py + 1, k - 1, d - 1);
            } else if x[px] == open {
                lemma_find_close_lockstep(x, y, open, close, px + 1, py + 1, k - 1, d + 1);
            } else {
                lemma_find_close_lockstep(x, y, open, close, px + 1, py + 1, k - 1, d);
            }
        }
    }
}

/// Two texts that are equal from given positions on skip their spaces to
/// the same offset.
proof fn lemma_skip_lockstep(x: Seq<char>, y: Seq<char>, px: int, py: int)
    requires
        0 <= px <= x.len(),
        0 <= py <= y.len(),
        x.len() - px == y.len() - py,
        forall|m: int| 0 <= m < x.len() - px ==> #[trigger] x[px + m] == y[py + m],
    ensures
        spec_skip_spaces(x, px) - px == spec_skip_spaces(y, py) - py,
    decreases x.len() - px,
{
    if px < x.len() {
        assert(x[px + 0] == y[py + 0]);
        if spec_is_space(x[px]) {
            assert forall|m: int| 0 <= m < x.len() - (px + 1) implies #[trigger] x[px + 1 + m]
                == y[py + 1 + m] by {
                assert(x[px + (m + 1)] == y[py + (m + 1)]);
            }
            lemma_skip_lockstep(x, y, px + 1, py + 1);
        }
    }
}

/// Two texts that are equal from given non-space positions on end the token
/// there at the same offset.
proof fn lemma_token_end_lockstep(x: Seq<char>, y: Seq<char>, ix: int, iy: int)
    requires
        0 <= ix < x.len(),
        0 <= iy < y.len(),
        x.len() - ix == y.len() - iy,
        forall|m: int| 0 <= m < x.len() - ix ==> #[trigger] x[ix + m] == y[iy + m],
    ensures
        spec_token_end(x, ix) - ix == spec_token_end(y, iy) - iy,
{
    assert(x[ix + 0] == y[iy + 0]);
    if x[ix] == '"' {
        lemma_find_char_bounds(x, '"', ix + 1);
        lemma_find_char_not_before(x, '"', ix + 1);
        match spec_find_char(x, '"', ix + 1) {
            Some(j) => {
                assert(x[ix + (j - ix)] == y[iy + (j - ix)]);
                assert forall|k: int| iy + 1 <= k < iy + (j - ix) implies y[k] != '"' by {
                    assert(x[ix + (k - iy)] == y[iy + (k - iy)]);
                }
                lemma_find_char_at(y, '"', iy + 1, iy + (j - ix));
            },
            None => {
                assert forall|k: int| iy + 1 <= k < y.len() implies y[k] != '"' by {
                    assert(x[ix + (k - iy)] == y[iy + (k - iy)]);
                }
                lemma_find_char_none(y, '"', iy + 1);
            },
        }
    } else if x[ix] == '[' || x[ix] == '{' {
        let open = x[ix];
        let close = if x[ix] == '[' {
            ']'
        } else {
            '}'
        };
        lemma_find_close_bounds(x, open, close, ix + 1, 1);
        assert forall|m: int| 0 <= m < x.len() - (ix + 1) implies #[trigger] x[ix + 1 + m] == y[
            iy + 1 + m] by {
            assert(x[ix + (m + 1)] == y[iy + (m + 1)]);
        }
        lemma_find_close_lockstep(x, y, open, close, ix + 1, iy + 1, x.len() - (ix + 1), 1);
    } else {
        lemma_find_space_bounds(x, ix);
        lemma_find_space_not_before(x, ix);
        let e = spec_find_space(x, ix);
        assert forall|k: int| iy <= k < iy + (e - ix) implies !spec_is_space(y[k]) by {
            assert(x[ix + (k - iy)] == y[iy + (k - iy)]);
        }
        if e < x.len() {
            assert(x[ix + (e - ix)] == y[iy + (e - ix)]);
        }
        lemma_find_space_at(y, iy, iy + (e - ix));
    }
}

/// Two texts that are equal from given positions on tokenize identically
/// from there.
proof fn lemma_tokens_lockstep(x: Seq<char>, y: Seq<char>, px: int, py: int)
    requires
        0 <= px <= x.len(),
        0 <= py <= y.len(),
        x.len() - px == y.len() - py,
        forall|m: int| 0 <= m < x.len() - px ==> #[trigger] x[px + m] == y[py + m],
    ensures
        spec_tokens_from(x, px) == spec_tokens_from(y, py),
    decreases x.len() - px,
{
    lemma_skip_lockstep(x, y, px, py);
    lemma_skip_spaces_bounds(x, px);
    lemma_skip_spaces_bounds(y, py);
    let ix = spec_skip_spaces(x, px);
    let iy = spec_skip_spaces(y, py);
    if ix >= x.len() {
        assert(spec_tokens_from(x, px) =~= spec_tokens_from(y, py));
    } else {
        assert forall|m: int| 0 <= m < x.len() - ix implies #[trigger] x[ix + m] == y[iy
            + m] by {
            assert(x[px + (ix - px + m)] == y[py + (ix - px + m)]);
        }
        lemma_token_end_lockstep(x, y, ix, iy);
        lemma_token_end_bounds(x, ix);
        lemma_token_end_bounds(y, iy);
        let ex = spec_token_end(x, ix);
        let ey = spec_token_end(y, iy);
        assert forall|m: int| 0 <= m < ex - ix implies x.subrange(ix, ex)[m] == y.subrange(
            iy,
            ey,
        )[m] by {
            assert(x[ix + m] == y[iy + m]);
        }
        assert(x.subrange(ix, ex) =~= y.subrange(iy, ey));
        assert forall|m: int| 0 <= m < x.len() - ex implies #[trigger] x[ex + m] == y[ey
            + m] by {
            assert(x[px + (ex - px + m)] == y[py + (ey - py + m)]);
        }
        lemma_tokens_lockstep(x, y, ex, ey);
        assert(spec_tokens_from(x, px) =~= spec_tokens_from(y, py));
    }
}

/// A token the tokenizer produced, followed by nothing or by text that
/// opens with a space, is read back whole as the next token.
proof fn lemma_token_self_delimits(s: Seq<char>, i: int, rest: Seq<char>)
    requires
        0 <= i < s.len(),
        !spec_is_space(s[i]),
        spec_token_end(s, i) == s.len() ==> rest.len() == 0,
        rest.len() > 0 ==> spec_is_space(rest[0]),
    ensures
        ({
            let e = spec_token_end(s, i);
            let t = s.subrange(i, e);
            spec_next_token(t + rest, 0) == Some((t, t.len() as int))
        }),
{
    lemma_token_end_bounds(s, i);
    let e = spec_token_end(s, i);
    let t = s.subrange(i, e);
    let w = t + rest;
    assert(w[0] == s[i]);
    assert(spec_skip_spaces(w, 0) == 0);
    assert(forall|m: int| 0 <= m < e - i ==> #[trigger] w[m] == s[i + m]);
    if s[i] == '"' {
        lemma_find_char_bounds(s, '"', i + 1);
        lemma_find_char_not_before(s, '"', i + 1);
        match spec_find_char(s, '"', i + 1) {
            Some(j) => {
                assert(e == j + 1);
                assert(w[j - i] == s[i + (j - i)]);
                assert forall|k: int| 1 <= k < j - i implies w[k] != '"' by {
                    assert(w[k] == s[i + k]);
                }
                lemma_find_char_at(w, '"', 1, j - i);
                assert(spec_token_end(w, 0) == e - i);
            },
            None => {
                assert(e == s.len());
                assert(w.len() == e - i);
                assert forall|k: int| 1 <= k < w.len() implies w[k] != '"' by {
                    assert(w[k] == s[i + k]);
                }
                lemma_find_char_none(w, '"', 1);
                assert(spec_token_end(w, 0) == e - i);
            },
        }
    } else if s[i] == '[' || s[i] == '{' {
        let open = s[i];
        let close = if s[i] == '[' {
            ']'
        } else {
            '}'
        };
        lemma_find_close_bounds(s, open, close, i + 1, 1);
        match spec_find_close(s, open, close, i + 1, 1) {
            Some(j) => {
                assert(e == j + 1);
                assert forall|m: int| 0 <= m < j - i implies #[trigger] s[i + 1 + m] == w[1
                    + m] by {
                    assert(w[1 + m] == s[i + (1 + m)]);
                }
                lemma_find_close_lockstep(s, w, open, close, i + 1, 1, j - i, 1);
                assert(spec_find_close(w, open, close, 1, 1) == Some(j - i));
                assert(spec_token_end(w, 0) == e - i);
            },
            None => {
                assert(e == s.len());
                assert(w.len() == e - i);
                assert forall|m: int| 0 <= m < s.len() - (i + 1) implies #[trigger] s[i + 1
                    + m] == w[1 + m] by {
                    assert(w[1 + m] == s[i + (1 + m)]);
                }
                lemma_find_close_lockstep(s, w, open, close, i + 1, 1, s.len() - (i + 1), 1);
                assert(spec_find_close(w, open, close, 1, 1) is None);
                assert(spec_token_end(w, 0) == e - i);
            },
        }
    } else {
        lemma_find_space_bounds(s, i);
        lemma_find_space_not_before(s, i);
        assert(e == spec_find_space(s, i));
        assert forall|k: int| 0 <= k < e - i implies !spec_is_space(w[k]) by {
            assert(w[k] == s[i + k]);
        }
        if e - i < w.len() {
            assert(w[e - i] == rest[0]);
        }
        lemma_find_space_at(w, 0, e - i);
        assert(spec_token_end(w, 0) == e - i);
    }
    assert(w.subrange(0, e - i) =~= t);
}

/// The tokens joined back into one text with single spaces between them.
pub open spec fn spec_join(ts: Seq<Seq<char>>) -> Seq<char>
    decreases ts.len(),
{
    if ts.len() == 0 {
        Seq::empty()
    } else if ts.len() == 1 {
        ts[0]
    } else {
        ts[0] + seq![' '] + spec_join(ts.subrange(1, ts.len() as int))
    }
}

/// Tokenizing is idempotent under re-joining: the tokens of the text from
/// `pos` on, joined with single spaces, tokenize to themselves.
proof fn lemma_join_from(s: Seq<char>, pos: int)
    requires
        0 <= pos <= s.len(),
    ensures
        spec_tokens(spec_join(spec_tokens_from(s, pos))) == spec_tokens_from(s, pos),
    decreases s.len() - pos,
{
    let ts = spec_tokens_from(s, pos);
    lemma_next_token_progress(s, pos);
    lemma_skip_spaces_bounds(s, pos);
    match spec_next_token(s, pos) {
        None => {
            assert(ts =~= Seq::<Seq<char>>::empty());
            assert(spec_join(ts) == Seq::<char>::empty());
            assert(spec_tokens(spec_join(ts)) =~= ts);
        },
        Some(p) => {
            let i = spec_skip_spaces(s, pos);
            let e = spec_token_end(s, i);
            lemma_token_end_bounds(s, i);
            let t = s.subrange(i, e);
            assert(p == (t, e));
            lemma_join_from(s, e);
            let ts2 = spec_tokens_from(s, e);
            assert(ts == seq![t] + ts2);
            let w = spec_join(ts);
            let tl = t.len() as int;
            if ts2.len() == 0 {
                assert(ts.len() == 1);
                assert(ts[0] == t);
                assert(w == t);
                lemma_token_self_delimits(s, i, Seq::empty());
                assert(t + Seq::<char>::empty() =~= t);
                assert(spec_next_token(w, 0) == Some((t, tl)));
                assert(spec_skip_spaces(w, tl) == w.len() as int);
                assert(spec_tokens_from(w, tl) =~= Seq::<Seq<char>>::empty());
                assert(spec_tokens(w) =~= ts);
            } else {
                let rest = seq![' '] + spec_join(ts2);
                assert(ts.subrange(1, ts.len() as int) =~= ts2);
                assert(w == t + rest);
                assert(rest[0] == ' ');
                lemma_token_self_delimits(s, i, rest);
                assert(spec_next_token(w, 0) == Some((t, tl)));
                assert(w[tl] == ' ');
                assert(spec_skip_spaces(w, tl) == spec_skip_spaces(w, tl + 1));
                assert(spec_next_token(w, tl) == spec_next_token(w, tl + 1));
                assert(spec_tokens_from(w, tl) == spec_tokens_from(w, tl + 1));
                let j2 = spec_join(ts2);
                assert forall|m: int| 0 <= m < w.len() - (tl + 1) implies #[trigger] w[tl + 1
                    + m] == j2[0 + m] by {
                    assert(w[tl + 1 + m] == rest[1 + m]);
                }
                lemma_tokens_lockstep(w, j2, tl + 1, 0);
                assert(spec_tokens_from(w, tl + 1) == spec_tokens(j2));
                assert(spec_tokens(w) =~= ts);
            }
        },
    }
}

/// Tokenizer round trip: re-joining the produced tokens with single spaces
/// and re-tokenizing yields the same token sequence.
pub proof fn lemma_tokens_round_trip(s: Seq<char>)
    ensures
        spec_tokens(spec_join(spec_tokens(s))) == spec_tokens(s),
{
    lemma_join_from(s, 0);
}

} // verus!
