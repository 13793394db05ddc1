//! Character classes and delimiter bookkeeping of Boon source text.
use vstd::prelude::*;
use crate::text::{is_word, is_lower, is_upper, is_ws, word_char, lower_char, upper_char, ws_char};

verus! {

/// A record key: non-empty, made of ASCII letters, digits, `_` and `*`.
pub open spec fn plain_key(s: Seq<char>) -> bool {
    s.len() > 0 && forall|k: int| 0 <= k < s.len() ==> is_word(#[trigger] s[k]) || s[k] == '*'
}

/// A dotted or slashed path: non-empty, made of ASCII letters, digits, `_`,
/// `.` and `/`, holding at least one `.` or `/`.
pub open spec fn path_like(s: Seq<char>) -> bool {
    &&& s.len() > 0
    &&& forall|k: int|
        0 <= k < s.len() ==> is_word(#[trigger] s[k]) || s[k] == '.' || s[k] == '/'
    &&& (s.contains('.') || s.contains('/'))
}

/// A local name: a lowercase letter or `_`, then letters, digits and `_`.
pub open spec fn local_path_like(s: Seq<char>) -> bool {
    &&& s.len() > 0
    &&& (is_lower(s[0]) || s[0] == '_')
    &&& forall|k: int| 0 <= k < s.len() ==> is_word(#[trigger] s[k])
}

/// A tag: `__`, or an uppercase letter followed by letters, digits and `_`.
pub open spec fn tag_like(s: Seq<char>) -> bool {
    ||| s == seq!['_', '_']
    ||| (s.len() > 0 && is_upper(s[0]) && forall|k: int| 0 <= k < s.len() ==> is_word(#[trigger] s[k]))
}

/// A call path: non-empty, made of ASCII letters, digits, `_` and `/`.
pub open spec fn identifier_path(s: Seq<char>) -> bool {
    s.len() > 0 && forall|k: int| 0 <= k < s.len() ==> is_word(#[trigger] s[k]) || s[k] == '/'
}

pub fn is_plain_key(s: &[char]) -> (r: bool)
    ensures
        r == plain_key(s@),
{
    if s.len() == 0 {
        return false;
    }
    let mut i: usize = 0;
    while i < s.len()
        invariant
            i <= s@.len(),
            forall|k: int| 0 <= k < i ==> is_word(#[trigger] s@[k]) || s@[k] == '*',
        decreases s.len() - i,
    {
        if !(word_char(s[i]) || s[i] == '*') {
            return false;
        }
        i += 1;
    }
    true
}

pub fn is_path_like(s: &[char]) -> (r: bool)
    ensures
        r == path_like(s@),
{
    if s.len() == 0 {
        return false;
    }
    let mut sep = false;
    let mut i: usize = 0;
    while i < s.len()
        invariant
            i <= s@.len(),
            forall|k: int| 0 <= k < i ==> is_word(#[trigger] s@[k]) || s@[k] == '.' || s@[k] == '/',
            sep == exists|k: int| 0 <= k < i && (s@[k] == '.' || s@[k] == '/'),
        decreases s.len() - i,
    {
        let c = s[i];
        if !(word_char(c) || c == '.' || c == '/') {
            return false;
        }
        if c == '.' || c == '/' {
            sep = true;
        }
        i += 1;
    }
    proof {
        if sep {
            let k = choose|k: int| 0 <= k < s@.len() && (s@[k] == '.' || s@[k] == '/');
            if s@[k] == '.' {
                assert(s@.contains('.'));
            } else {
                assert(s@.contains('/'));
            }
        }
    }
    sep
}

pub fn is_local_path_like(s: &[char]) -> (r: bool)
    ensures
        r == local_path_like(s@),
{
    if s.len() == 0 || !(lower_char(s[0]) || s[0] == '_') {
        return false;
    }
    let mut i: usize = 0;
    while i < s.len()
        invariant
            i <= s@.len(),
            forall|k: int| 0 <= k < i ==> is_word(#[trigger] s@[k]),
        decreases s.len() - i,
    {
        if !word_char(s[i]) {
            return false;
        }
        i += 1;
    }
    true
}

pub fn is_tag_like(s: &[char]) -> (r: bool)
    ensures
        r == tag_like(s@),
{
    if s.len() == 2 && s[0] == '_' && s[1] == '_' {
        assert(s@ =~= seq!['_', '_']);
        return true;
    }
    if s.len() == 0 || !upper_char(s[0]) {
        return false;
    }
    let mut i: usize = 0;
    while i < s.len()
        invariant
            i <= s@.len(),
            forall|k: int| 0 <= k < i ==> is_word(#[trigger] s@[k]),
        decreases s.len() - i,
    {
        if !word_char(s[i]) {
            return false;
        }
        i += 1;
    }
    true
}

pub fn is_identifier_path(s: &[char]) -> (r: bool)
    ensures
        r == identifier_path(s@),
{
    if s.len() == 0 {
        return false;
    }
    let mut i: usize = 0;
    while i < s.len()
        invariant
            i <= s@.len(),
            forall|k: int| 0 <= k < i ==> is_word(#[trigger] s@[k]) || s@[k] == '/',
        decreases s.len() - i,
    {
        if !(word_char(s[i]) || s[i] == '/') {
            return false;
        }
        i += 1;
    }
    true
}

// ---------------------------------------------------------------------------
// Delimiter depth
// ---------------------------------------------------------------------------

/// Net count of `{` over `}`.
pub open spec fn brace_delta_spec(s: Seq<char>) -> int
    decreases s.len(),
{
    if s.len() == 0 {
        0
    } else {
        brace_delta_spec(s.drop_last()) + if s.last() == '{' {
            1int
        } else if s.last() == '}' {
            -1int
        } else {
            0int
        }
    }
}

/// Net count of opening over closing brackets of all three kinds.
pub open spec fn delimiter_delta_spec(s: Seq<char>) -> int
    decreases s.len(),
{
    if s.len() == 0 {
        0
    } else {
        delimiter_delta_spec(s.drop_last()) + if s.last() == '{' || s.last() == '(' || s.last()
            == '[' {
            1int
        } else if s.last() == '}' || s.last() == ')' || s.last() == ']' {
            -1int
        } else {
            0int
        }
    }
}

pub fn brace_delta(s: &[char]) -> (r: i128)
    ensures
        r == brace_delta_spec(s@),
        -(s@.len() as int) <= r <= s@.len(),
{
    let mut d: i128 = 0;
    let mut i: usize = 0;
    while i < s.len()
        invariant
            i <= s@.len(),
            s@.len() == s.len(),
            d == brace_delta_spec(s@.take(i as int)),
            -(i as int) <= d <= i,
        decreases s.len() - i,
    {
        assert(s@.take(i + 1).drop_last() =~= s@.take(i as int));
        if s[i] == '{' {
            d = d + 1;
        } else if s[i] == '}' {
            d = d - 1;
        }
        i += 1;
    }
    assert(s@.take(s@.len() as int) =~= s@);
    d
}

pub fn delimiter_delta(s: &[char]) -> (r: i128)
    ensures
        r == delimiter_delta_spec(s@),
        -(s@.len() as int) <= r <= s@.len(),
{
    let mut d: i128 = 0;
    let mut i: usize = 0;
    while i < s.len()
        invariant
            i <= s@.len(),
            s@.len() == s.len(),
            d == delimiter_delta_spec(s@.take(i as int)),
            -(i as int) <= d <= i,
        decreases s.len() - i,
    {
        assert(s@.take(i + 1).drop_last() =~= s@.take(i as int));
        let c = s[i];
        if c == '{' || c == '(' || c == '[' {
            d = d + 1;
        } else if c == '}' || c == ')' || c == ']' {
            d = d - 1;
        }
        i += 1;
    }
    assert(s@.take(s@.len() as int) =~= s@);
    d
}

/// Separate depth counters of `()`, `{}` and `[]`.
pub struct DelimiterDepth {
    pub paren: i128,
    pub brace: i128,
    pub bracket: i128,
}

/// The three depths after reading `s`.
pub open spec fn depth_after(s: Seq<char>) -> (int, int, int)
    decreases s.len(),
{
    if s.len() == 0 {
        (0, 0, 0)
    } else {
        let d = depth_after(s.drop_last());
        let c = s.last();
        if c == '(' {
            (d.0 + 1, d.1, d.2)
        } else if c == ')' {
            (d.0 - 1, d.1, d.2)
        } else if c == '{' {
            (d.0, d.1 + 1, d.2)
        } else if c == '}' {
            (d.0, d.1 - 1, d.2)
        } else if c == '[' {
            (d.0, d.1, d.2 + 1)
        } else if c == ']' {
            (d.0, d.1, d.2 - 1)
        } else {
            d
        }
    }
}

pub open spec fn top_level_after(s: Seq<char>) -> bool {
    depth_after(s) == (0int, 0int, 0int)
}

impl DelimiterDepth {
    pub open spec fn model(&self) -> (int, int, int) {
        (self.paren as int, self.brace as int, self.bracket as int)
    }

    pub open spec fn bounded(&self, n: int) -> bool {
        &&& -n <= self.paren <= n
        &&& -n <= self.brace <= n
        &&& -n <= self.bracket <= n
    }

    pub fn new() -> (r: DelimiterDepth)
        ensures
            r.model() == (0int, 0int, 0int),
    {
        DelimiterDepth { paren: 0, brace: 0, bracket: 0 }
    }

    pub fn update(&mut self, ch: char)
        requires
            old(self).bounded(usize::MAX as int),
        ensures
            final(self).model() == (if ch == '(' {
                (old(self).model().0 + 1, old(self).model().1, old(self).model().2)
            } else if ch == ')' {
                (old(self).model().0 - 1, old(self).model().1, old(self).model().2)
            } else if ch == '{' {
                (old(self).model().0, old(self).model().1 + 1, old(self).model().2)
            } else if ch == '}' {
                (old(self).model().0, old(self).model().1 - 1, old(self).model().2)
            } else if ch == '[' {
                (old(self).model().0, old(self).model().1, old(self).model().2 + 1)
            } else if ch == ']' {
                (old(self).model().0, old(self).model().1, old(self).model().2 - 1)
            } else {
                old(self).model()
            }),
    {
        if ch == '(' {
            self.paren = self.paren + 1;
        } else if ch == ')' {
            self.paren = self.paren - 1;
        } else if ch == '{' {
            self.brace = self.brace + 1;
        } else if ch == '}' {
            self.brace = self.brace - 1;
        } else if ch == '[' {
            self.bracket = self.bracket + 1;
        } else if ch == ']' {
            self.bracket = self.bracket - 1;
        }
    }

    pub fn is_top_level(&self) -> (r: bool)
        ensures
            r == (self.model() == (0int, 0int, 0int)),
    {
        self.paren == 0 && self.brace == 0 && self.bracket == 0
    }
}

/// Reading one more character moves the depths as `update` does.
pub proof fn lemma_depth_step(s: Seq<char>, i: int)
    requires
        0 <= i < s.len(),
    ensures
        depth_after(s.take(i + 1)) == ({
            let d = depth_after(s.take(i));
            let c = s[i];
            if c == '(' {
                (d.0 + 1, d.1, d.2)
            } else if c == ')' {
                (d.0 - 1, d.1, d.2)
            } else if c == '{' {
                (d.0, d.1 + 1, d.2)
            } else if c == '}' {
                (d.0, d.1 - 1, d.2)
            } else if c == '[' {
                (d.0, d.1, d.2 + 1)
            } else if c == ']' {
                (d.0, d.1, d.2 - 1)
            } else {
                d
            }
        }),
{
    assert(s.take(i + 1).drop_last() =~= s.take(i));
}


// ---------------------------------------------------------------------------
// Lines and tokens
// ---------------------------------------------------------------------------

/// `r` is how `str::lines` cuts `v[lo..hi]`: pieces separated by `\n` or
/// `\r\n`, with no empty piece after a final line ending.
pub open spec fn lines_split(v: Seq<char>, lo: int, hi: int, r: Seq<(usize, usize)>) -> bool {
    &&& lo == hi ==> r.len() == 0
    &&& lo < hi ==> r.len() > 0 && r[0].0 == lo
    &&& forall|k: int|
        0 <= k < r.len() ==> lo <= (#[trigger] r[k]).0 <= r[k].1 <= hi && forall|j: int|
            r[k].0 <= j < r[k].1 ==> v[j] != '\n'
    &&& forall|k: int|
        #![trigger r[k]]
        0 <= k < r.len() ==> {
            let end = if k + 1 < r.len() {
                r[k + 1].0 as int
            } else {
                hi
            };
            ||| (r[k].1 == end && k + 1 == r.len())
            ||| (r[k].1 + 1 == end && v[r[k].1 as int] == '\n' && (r[k].1 == r[k].0 || v[r[k].1
                - 1] != '\r'))
            ||| (r[k].1 + 2 == end && v[r[k].1 as int] == '\r' && v[r[k].1 + 1] == '\n')
        }
}

/// Number of line feeds in `s`.
pub open spec fn nl_count(s: Seq<char>) -> nat
    decreases s.len(),
{
    if s.len() == 0 {
        0
    } else {
        nl_count(s.drop_last()) + if s.last() == '\n' {
            1nat
        } else {
            0nat
        }
    }
}

/// Where each line starts: the `k`-th line starts after `k` line feeds,
/// right after a line feed, and every position after a line feed is the
/// start of a line.
pub open spec fn lines_start_right(v: Seq<char>, lo: int, hi: int, r: Seq<(usize, usize)>) -> bool {
    &&& forall|k: int|
        0 <= k < r.len() ==> nl_count(v.subrange(lo, (#[trigger] r[k]).0 as int)) == k && (r[k].0
            == lo || v[r[k].0 - 1] == '\n')
    &&& forall|q: int|
        lo < q < hi && #[trigger] v[q - 1] == '\n' ==> exists|k: int| 0 <= k < r.len() && r[k].0 == q
    &&& forall|a: int, b: int| 0 <= a < b < r.len() ==> (#[trigger] r[a]).1 < (#[trigger] r[b]).0
}

/// The lines of `v[lo..hi]`, as `str::lines` gives them.
#[verifier::rlimit(100)]
#[verifier::spinoff_prover]
pub fn line_ranges(v: &[char], lo: usize, hi: usize) -> (r: Vec<(usize, usize)>)
    requires
        lo <= hi <= v@.len(),
    ensures
        lines_split(v@, lo as int, hi as int, r@),
        lines_start_right(v@, lo as int, hi as int, r@),
{
    let mut r: Vec<(usize, usize)> = Vec::new();
    let mut start: usize = lo;
    let mut i: usize = lo;
    while i < hi
        invariant
            lo <= start <= i <= hi <= v@.len(),
            forall|j: int| start <= j < i ==> v@[j] != '\n',
            r@.len() > 0 ==> r@[0].0 == lo,
            r@.len() == 0 ==> start == lo,
            forall|k: int|
                0 <= k < r@.len() ==> lo <= (#[trigger] r@[k]).0 <= r@[k].1 <= hi && forall|j: int|
                    r@[k].0 <= j < r@[k].1 ==> v@[j] != '\n',
            forall|k: int|
                #![trigger r@[k]]
                0 <= k < r@.len() ==> {
                    let end = if k + 1 < r@.len() {
                        r@[k + 1].0 as int
                    } else {
                        start as int
                    };
                    ||| (r@[k].1 + 1 == end && v@[r@[k].1 as int] == '\n' && (r@[k].1 == r@[k].0
                        || v@[r@[k].1 - 1] != '\r'))
                    ||| (r@[k].1 + 2 == end && v@[r@[k].1 as int] == '\r' && v@[r@[k].1 + 1]
                        == '\n')
                },
            nl_count(v@.subrange(lo as int, start as int)) == r@.len(),
            nl_count(v@.subrange(lo as int, i as int)) == r@.len(),
            start == lo || v@[start - 1] == '\n',
            forall|k: int|
                0 <= k < r@.len() ==> nl_count(v@.subrange(lo as int, (#[trigger] r@[k]).0 as int))
                    == k && (r@[k].0 == lo || v@[r@[k].0 - 1] == '\n'),
            forall|q: int|
                lo < q <= i && #[trigger] v@[q - 1] == '\n' ==> q == start || exists|k: int|
                    0 <= k < r@.len() && r@[k].0 == q,
            forall|a: int, b: int| 0 <= a < b < r@.len() ==> (#[trigger] r@[a]).1 < (#[trigger] r@[b]).0,
            forall|k: int| 0 <= k < r@.len() ==> (#[trigger] r@[k]).1 < start,
        decreases hi - i,
    {
        proof {
            assert(v@.subrange(lo as int, i + 1).drop_last() =~= v@.subrange(lo as int, i as int));
        }
        if v[i] == '\n' {
            let end = if i > start && v[i - 1] == '\r' {
                i - 1
            } else {
                i
            };
            let ghost old_r = r@;
            r.push((start, end));
            start = i + 1;
            proof {
                assert forall|q: int|
                    lo < q <= i + 1 && #[trigger] v@[q - 1] == '\n' implies q == start || exists|k: int|
                        0 <= k < r@.len() && r@[k].0 == q by {
                    if q < i + 1 {
                        if exists|k: int| 0 <= k < old_r.len() && old_r[k].0 == q {
                            let k = choose|k: int| 0 <= k < old_r.len() && old_r[k].0 == q;
                            assert(r@[k] == old_r[k]);
                        } else {
                            assert(r@[old_r.len() as int].0 == q);
                        }
                    }
                }
            }
        }
        i += 1;
    }
    if start < hi {
        let ghost old_r = r@;
        r.push((start, hi));
        proof {
            assert forall|q: int|
                lo < q < hi && #[trigger] v@[q - 1] == '\n' implies exists|k: int|
                    0 <= k < r@.len() && r@[k].0 == q by {
                if q == start {
                    assert(r@[old_r.len() as int].0 == q);
                } else {
                    let k = choose|k: int| 0 <= k < old_r.len() && old_r[k].0 == q;
                    assert(r@[k] == old_r[k]);
                }
            }
        }
    }
    r
}

/// `r` is how `split_whitespace` cuts `v[lo..hi]`: the maximal runs of
/// non-whitespace characters, in order.
pub open spec fn words_split(v: Seq<char>, lo: int, hi: int, r: Seq<(usize, usize)>) -> bool {
    &&& forall|k: int|
        0 <= k < r.len() ==> lo <= (#[trigger] r[k]).0 < r[k].1 <= hi && forall|j: int|
            r[k].0 <= j < r[k].1 ==> !is_ws(v[j])
    &&& forall|k: int| 0 <= k < r.len() - 1 ==> (#[trigger] r[k]).1 < r[k + 1].0
    &&& forall|k: int|
        0 <= k < r.len() ==> ((#[trigger] r[k]).0 == lo || is_ws(v[r[k].0 - 1])) && (r[k].1 == hi
            || is_ws(v[r[k].1 as int]))
    &&& forall|j: int|
        lo <= j < hi && !is_ws(v[j]) ==> exists|k: int|
            0 <= k < r.len() && (#[trigger] r[k]).0 <= j < r[k].1
}

/// The whitespace-separated words of `v[lo..hi]`.
pub fn word_ranges(v: &[char], lo: usize, hi: usize) -> (r: Vec<(usize, usize)>)
    requires
        lo <= hi <= v@.len(),
    ensures
        words_split(v@, lo as int, hi as int, r@),
        r@.len() <= hi - lo,
{
    let mut r: Vec<(usize, usize)> = Vec::new();
    let mut i: usize = lo;
    while i < hi
        invariant
            lo <= i <= hi <= v@.len(),
            forall|k: int|
                0 <= k < r@.len() ==> lo <= (#[trigger] r@[k]).0 < r@[k].1 <= i && forall|j: int|
                    r@[k].0 <= j < r@[k].1 ==> !is_ws(v@[j]),
            forall|k: int| 0 <= k < r@.len() - 1 ==> (#[trigger] r@[k]).1 < r@[k + 1].0,
            forall|k: int|
                0 <= k < r@.len() ==> ((#[trigger] r@[k]).0 == lo || is_ws(v@[r@[k].0 - 1])) && (
                r@[k].1 == hi || is_ws(v@[r@[k].1 as int])),
            r@.len() > 0 ==> r@.last().1 <= i,
            r@.len() <= i - lo,
            forall|j: int|
                lo <= j < i && !is_ws(v@[j]) ==> exists|k: int|
                    0 <= k < r@.len() && (#[trigger] r@[k]).0 <= j < r@[k].1,
            lo < i < hi && !is_ws(v@[i as int]) ==> is_ws(v@[i - 1]),
        decreases hi - i,
    {
        if ws_char(v[i]) {
            i += 1;
        } else {
            let s = i;
            while i < hi && !ws_char(v[i])
                invariant
                    s <= i <= hi <= v@.len(),
                    forall|j: int| s <= j < i ==> !is_ws(v@[j]),
                decreases hi - i,
            {
                i += 1;
            }
            let ghost old_r = r@;
            r.push((s, i));
            proof {
                assert forall|j: int|
                    lo <= j < i && !is_ws(v@[j]) implies exists|k: int|
                        0 <= k < r@.len() && (#[trigger] r@[k]).0 <= j < r@[k].1 by {
                    if j < s {
                        let k = choose|k: int| 0 <= k < old_r.len() && (#[trigger] old_r[k]).0 <= j < old_r[k].1;
                        assert(r@[k] == old_r[k]);
                    } else {
                        assert(r@[r@.len() - 1] == (s, i));
                    }
                }
            }
        }
    }
    r
}

} // verus!
