//! Expression parsing: from trimmed source text to [`AstExpr`] trees.
use vstd::prelude::*;
use crate::syntax::{
    AstBinaryOp, AstBinding, AstCallArg, AstExpr, AstExprKind, AstRecord, AstWhenArm, Span,
};
use crate::syntax::scan::{
    DelimiterDepth, identifier_path, is_identifier_path, is_local_path_like, is_path_like,
    is_tag_like, line_ranges, local_path_like, path_like, tag_like, word_ranges,
};
use crate::text::{
    chars_of, find_char_from, find_from, is_ws, occurs_at, occurs_at_exec, parse_i64,
    parse_i64_spec, seq_eq, string_of, string_of_range, trim, trim_range, trim_bounds, first_of,
    lemma_first_of_at, lemma_first_of_none,
};

verus! {

/// Whether `raw` is exactly the literal `lit`.
pub fn is_lit(raw: &[char], lit: &str) -> (r: bool)
    ensures
        r == (raw@ == lit@),
{
    let l = chars_of(lit);
    seq_eq(raw, &l)
}

/// Whether `raw[i..]` starts with the literal `lit`.
pub fn lit_at(raw: &[char], i: usize, lit: &str) -> (r: bool)
    ensures
        r == occurs_at(raw@, i as int, lit@),
{
    let l = chars_of(lit);
    occurs_at_exec(raw, i, &l)
}

/// The stages of `raw` from `idx` on, the current one having started at
/// `start`: a stage ends at a `|>` whose `|` stands where no parenthesis,
/// brace or bracket is open; each stage trimmed.
pub open spec fn pipe_from(raw: Seq<char>, start: int, idx: int) -> Seq<(int, int)>
    decreases raw.len() - idx,
{
    if raw.len() == 0 || idx >= raw.len() - 1 || idx < 0 {
        seq![trim_bounds(raw, start, raw.len() as int)]
    } else if crate::syntax::scan::top_level_after(raw.subrange(0, idx + 1)) && raw[idx] == '|' && raw[idx + 1] == '>' {
        seq![trim_bounds(raw, start, idx)] + pipe_from(raw, idx + 2, idx + 2)
    } else {
        pipe_from(raw, start, idx + 1)
    }
}

/// The bounds of the stages of a pipeline `raw`; the whole of `raw` where
/// it has no top-level `|>`.
pub open spec fn pipeline_parts_of(raw: Seq<char>) -> Seq<(int, int)> {
    let ps = pipe_from(raw, 0, 0);
    if ps.len() == 1 { seq![(0, raw.len() as int)] } else { ps }
}

/// The parts of `raw` between top-level `|>` separators, each trimmed.
pub fn split_top_level_pipeline(raw: &[char]) -> (r: Vec<(usize, usize)>)
    ensures
        r@.len() >= 1,
        r@.len() == 1 ==> r@[0] == (0usize, raw@.len() as usize),
        forall|k: int|
            0 <= k < r@.len() ==> (#[trigger] r@[k]).0 <= r@[k].1 <= raw@.len() && (r@.len() > 1
                ==> r@[k].1 - r@[k].0 + 2 <= raw@.len()),
        int_pairs(r@) == pipeline_parts_of(raw@),
{
    let mut parts: Vec<(usize, usize)> = Vec::new();
    let mut start: usize = 0;
    let mut depth = DelimiterDepth::new();
    let mut idx: usize = 0;
    while raw.len() > 0 && idx < raw.len() - 1
        invariant
            start <= idx,
            start <= raw@.len(),
            idx <= raw@.len(),
            depth.bounded(idx as int),
            parts@.len() > 0 ==> start >= 2,
            forall|k: int|
                0 <= k < parts@.len() ==> (#[trigger] parts@[k]).0 <= parts@[k].1 && parts@[k].1
                    + 2 <= raw@.len() && parts@[k].1 <= idx,
            depth.model() == crate::syntax::scan::depth_after(raw@.take(idx as int)),
            int_pairs(parts@) + pipe_from(raw@, start as int, idx as int) == pipe_from(raw@, 0, 0),
            parts@.len() == 0 ==> start == 0,
        decreases raw.len() - idx,
    {
        let ch = raw[idx];
        proof {
            crate::syntax::scan::lemma_depth_step(raw@, idx as int);
        }
        depth.update(ch);
        assert(raw@.subrange(0, idx + 1) =~= raw@.take(idx + 1));
        let ghost before = int_pairs(parts@);
        if depth.is_top_level() && raw[idx] == '|' && raw[idx + 1] == '>' {
            let (a, b) = trim_range(raw, start, idx);
            parts.push((a, b));
            assert(int_pairs(parts@) =~= before.push((a as int, b as int)));
            proof {
                crate::syntax::scan::lemma_depth_step(raw@, idx + 1);
            }
            assert(int_pairs(parts@) + pipe_from(raw@, idx + 2, idx + 2) =~= before + pipe_from(raw@, start as int, idx as int));
            idx = idx + 2;
            start = idx;
        } else {
            idx = idx + 1;
        }
    }
    let ghost before = int_pairs(parts@);
    assert(pipe_from(raw@, start as int, idx as int) == seq![trim_bounds(raw@, start as int, raw@.len() as int)]);
    if parts.len() == 0 {
        let mut one: Vec<(usize, usize)> = Vec::new();
        one.push((0, raw.len()));
        assert(before =~= Seq::<(int, int)>::empty());
        assert(pipe_from(raw@, 0, 0) =~= seq![trim_bounds(raw@, start as int, raw@.len() as int)]);
        assert(int_pairs(one@) =~= seq![(0int, raw@.len() as int)]);
        one
    } else {
        let (a, b) = trim_range(raw, start, raw.len());
        parts.push((a, b));
        assert(int_pairs(parts@) =~= before.push((a as int, b as int)));
        assert(int_pairs(parts@) =~= pipe_from(raw@, 0, 0));
        parts
    }
}

/// The first position from `idx` on where `needle` splits `raw` at the
/// top level into a left side that is not a number and a right side, both
/// non-empty once trimmed: the trimmed bounds of both sides.
pub open spec fn binary_scan(raw: Seq<char>, needle: Seq<char>, idx: int) -> Option<(int, int, int, int)>
    decreases raw.len() - idx,
{
    if idx >= raw.len() {
        None
    } else {
        let l = trim_bounds(raw, 0, idx);
        let r = trim_bounds(raw, idx + needle.len(), raw.len() as int);
        if crate::syntax::scan::top_level_after(raw.subrange(0, idx)) && occurs_at(raw, idx, needle) && idx > 0
            && idx + needle.len() < raw.len() && parse_i64_spec(raw.subrange(l.0, l.1)) is None && l.0 < l.1 && r.0 < r.1 {
            Some((l.0, l.1, r.0, r.1))
        } else {
            binary_scan(raw, needle, idx + 1)
        }
    }
}

/// The split that [`split_top_level_binary`] finds, with its operator.
pub open spec fn binary_split(raw: Seq<char>) -> Option<(int, int, AstBinaryOp, int, int)> {
    match binary_scan(raw, "=="@, 0) {
        Some((a, b, c, d)) => Some((a, b, AstBinaryOp::Equal, c, d)),
        None => match binary_scan(raw, "+"@, 0) {
            Some((a, b, c, d)) => Some((a, b, AstBinaryOp::Add, c, d)),
            None => match binary_scan(raw, "-"@, 0) {
                Some((a, b, c, d)) => Some((a, b, AstBinaryOp::Subtract, c, d)),
                None => None,
            },
        },
    }
}

/// The operator tried in round `n`.
pub open spec fn binary_op(n: int) -> AstBinaryOp {
    if n == 0 { AstBinaryOp::Equal } else if n == 1 { AstBinaryOp::Add } else { AstBinaryOp::Subtract }
}

/// The needle tried in round `n`.
pub open spec fn binary_needle(n: int) -> Seq<char> {
    if n == 0 { "=="@ } else if n == 1 { "+"@ } else { "-"@ }
}

/// The first top-level binary operator of `raw`, trying `==`, then `+`,
/// then `-`, with non-empty operands on both sides and a left side that is
/// not a number.
#[verifier::spinoff_prover]
pub fn split_top_level_binary(raw: &[char]) -> (r: Option<(usize, usize, AstBinaryOp, usize, usize)>)
    ensures
        r matches Some((a, b, op, c, d)) ==> a < b && c < d && b < c && d <= raw@.len() && b - a
            < raw@.len() && d - c < raw@.len(),
        match r {
            Some((a, b, op, c, d)) => binary_split(raw@) == Some((a as int, b as int, op, c as int, d as int)),
            None => binary_split(raw@) is None,
        },
{
    let mut n: usize = 0;
    while n < 3
        invariant
            n <= 3,
            forall|m: int| 0 <= m < n ==> binary_scan(raw@, #[trigger] binary_needle(m), 0) is None,
        decreases 3 - n,
    {
        proof {
            reveal_strlit("==");
            reveal_strlit("+");
            reveal_strlit("-");
        }
        let needle = if n == 0 {
            chars_of("==")
        } else if n == 1 {
            chars_of("+")
        } else {
            chars_of("-")
        };
        let op = if n == 0 {
            AstBinaryOp::Equal
        } else if n == 1 {
            AstBinaryOp::Add
        } else {
            AstBinaryOp::Subtract
        };
        assert(needle@ == binary_needle(n as int));
        assert(op == binary_op(n as int));
        assert(needle@.len() >= 1);
        let mut depth = DelimiterDepth::new();
        let mut idx: usize = 0;
        assert(raw@.subrange(0, 0) =~= Seq::<char>::empty());
        while idx < raw.len()
            invariant
                needle@.len() >= 1,
                needle@ == binary_needle(n as int),
                op == binary_op(n as int),
                n < 3,
                forall|m: int| 0 <= m < n ==> binary_scan(raw@, #[trigger] binary_needle(m), 0) is None,
                idx <= raw@.len(),
                depth.bounded(idx as int),
                depth.model() == crate::syntax::scan::depth_after(raw@.subrange(0, idx as int)),
                binary_scan(raw@, needle@, 0) == binary_scan(raw@, needle@, idx as int),
            decreases raw.len() - idx,
        {
            if depth.is_top_level() && occurs_at_exec(raw, idx, &needle) && idx > 0 && idx
                + needle.len() < raw.len() {
                let (la, lb) = trim_range(raw, 0, idx);
                if parse_i64(raw, la, lb).is_none() {
                    let (ra, rb) = trim_range(raw, idx + needle.len(), raw.len());
                    if la < lb && ra < rb {
                        proof {
                            assert(binary_scan(raw@, needle@, idx as int) == Some((la as int, lb as int, ra as int, rb as int)));
                            if n >= 1 {
                                assert(binary_scan(raw@, binary_needle(0), 0) is None);
                            }
                            if n >= 2 {
                                assert(binary_scan(raw@, binary_needle(1), 0) is None);
                            }
                        }
                        return Some((la, lb, op, ra, rb));
                    }
                }
            }
            assert(raw@.subrange(0, idx + 1).drop_last() =~= raw@.subrange(0, idx as int));
            depth.update(raw[idx]);
            idx = idx + 1;
        }
        n = n + 1;
    }
    proof {
        assert(binary_scan(raw@, binary_needle(0), 0) is None);
        assert(binary_scan(raw@, binary_needle(1), 0) is None);
        assert(binary_scan(raw@, binary_needle(2), 0) is None);
    }
    None
}

/// The trimmed bounds of `raw[a..b]`, if they are not empty.
pub open spec fn nonempty_item(raw: Seq<char>, a: int, b: int) -> Seq<(int, int)> {
    let t = trim_bounds(raw, a, b);
    if t.0 < t.1 { seq![t] } else { Seq::empty() }
}

/// The items of `raw[lo..hi]` from `idx` on, the current item having
/// started at `start`: an item ends at a `,` or newline where no
/// parenthesis, brace or bracket opened since `lo` is open, and at `hi`.
pub open spec fn items_from(raw: Seq<char>, lo: int, start: int, idx: int, hi: int) -> Seq<(int, int)>
    decreases hi - idx,
{
    if idx >= hi {
        nonempty_item(raw, start, hi)
    } else if crate::syntax::scan::top_level_after(raw.subrange(lo, idx)) && (raw[idx] == ',' || raw[idx] == '\n') {
        nonempty_item(raw, start, idx) + items_from(raw, lo, idx + 1, idx + 1, hi)
    } else {
        items_from(raw, lo, start, idx + 1, hi)
    }
}

/// Bounds as integers.
pub open spec fn int_pairs(v: Seq<(usize, usize)>) -> Seq<(int, int)> {
    v.map_values(|p: (usize, usize)| (p.0 as int, p.1 as int))
}

/// The top-level items of `raw[lo..hi]`, separated by `,` or newlines,
/// trimmed, without empty ones.
#[verifier::spinoff_prover]
#[verifier::rlimit(40)]
pub fn split_top_level_items(raw: &[char], lo: usize, hi: usize) -> (r: Vec<(usize, usize)>)
    requires
        lo <= hi <= raw@.len(),
    ensures
        int_pairs(r@) == items_from(raw@, lo as int, lo as int, lo as int, hi as int),
        forall|k: int|
            0 <= k < r@.len() ==> lo <= (#[trigger] r@[k]).0 < r@[k].1 <= hi,
        forall|k: int| 0 < k < r@.len() ==> r@[k - 1].1 < (#[trigger] r@[k]).0,
{
    let mut parts: Vec<(usize, usize)> = Vec::new();
    let mut start: usize = lo;
    let mut depth = DelimiterDepth::new();
    let mut idx: usize = lo;
    while idx < hi
        invariant
            lo <= start <= idx,
            start <= hi,
            lo <= idx <= hi <= raw@.len(),
            depth.bounded(idx - lo),
            forall|k: int| 0 <= k < parts@.len() ==> lo <= (#[trigger] parts@[k]).0 < parts@[k].1 <= hi,
            forall|k: int| 0 < k < parts@.len() ==> parts@[k - 1].1 < (#[trigger] parts@[k]).0,
            parts@.len() > 0 ==> parts@.last().1 < start,
            depth.model() == crate::syntax::scan::depth_after(raw@.subrange(lo as int, idx as int)),
            int_pairs(parts@) + items_from(raw@, lo as int, start as int, idx as int, hi as int)
                == items_from(raw@, lo as int, lo as int, lo as int, hi as int),
        decreases hi - idx,
    {
        let ch = raw[idx];
        let ghost before = int_pairs(parts@);
        assert(raw@.subrange(lo as int, idx + 1).drop_last() =~= raw@.subrange(lo as int, idx as int));
        if depth.is_top_level() && (ch == ',' || ch == '\n') {
            let (a, b) = trim_range(raw, start, idx);
            if a < b {
                parts.push((a, b));
                assert(int_pairs(parts@) =~= before + nonempty_item(raw@, start as int, idx as int));
            } else {
                assert(int_pairs(parts@) =~= before + nonempty_item(raw@, start as int, idx as int));
            }
            assert(int_pairs(parts@) + items_from(raw@, lo as int, idx + 1, idx + 1, hi as int)
                =~= before + items_from(raw@, lo as int, start as int, idx as int, hi as int));
            start = idx + 1;
        } else {
            depth.update(ch);
        }
        idx = idx + 1;
    }
    let ghost before = int_pairs(parts@);
    let (a, b) = trim_range(raw, start, hi);
    if a < b {
        parts.push((a, b));
    }
    assert(int_pairs(parts@) =~= before + nonempty_item(raw@, start as int, hi as int));
    parts
}

/// How a character moves the nesting depth: up at `open`, down at
/// `close`.
pub open spec fn delim_step(c: char, open: char, close: char) -> int {
    if c == open { 1 } else if c == close { -1 } else { 0 }
}

/// The nesting depth after `raw[from..k]`.
pub open spec fn depth_at(raw: Seq<char>, from: int, k: int, open: char, close: char) -> int
    decreases k - from,
{
    if k <= from { 0 } else { depth_at(raw, from, k - 1, open, close) + delim_step(raw[k - 1], open, close) }
}

/// Whether the `close` at `i` brings the depth counted from `from` back to
/// zero.
pub open spec fn closes_at(raw: Seq<char>, from: int, i: int, open: char, close: char) -> bool {
    raw[i] != open && raw[i] == close && depth_at(raw, from, i + 1, open, close) == 0
}

/// The first position in `raw[from..hi]` that [`closes_at`] holds of.
pub open spec fn first_close(raw: Seq<char>, from: int, hi: int, open: char, close: char) -> Option<int>
    decreases hi - from,
{
    if hi <= from {
        None
    } else {
        match first_close(raw, from, hi - 1, open, close) {
            Some(i) => Some(i),
            None => if closes_at(raw, from, hi - 1, open, close) { Some(hi - 1) } else { None },
        }
    }
}

proof fn lemma_first_close_stays(raw: Seq<char>, from: int, k: int, hi: int, open: char, close: char)
    requires
        from <= k <= hi,
        first_close(raw, from, k, open, close) is Some,
    ensures
        first_close(raw, from, hi, open, close) == first_close(raw, from, k, open, close),
    decreases hi - k,
{
    if k < hi {
        lemma_first_close_stays(raw, from, k, hi - 1, open, close);
    }
}

/// The position in `raw[from..hi]` where the delimiter opened at `from`
/// closes.
pub fn matching_delimiter(raw: &[char], from: usize, hi: usize, open: char, close: char) -> (r:
    Option<usize>)
    requires
        from <= hi <= raw@.len(),
    ensures
        r matches Some(i) ==> from <= i < hi && raw@[i as int] == close,
        match r {
            Some(i) => first_close(raw@, from as int, hi as int, open, close) == Some(i as int),
            None => first_close(raw@, from as int, hi as int, open, close) is None,
        },
{
    let mut depth: i128 = 0;
    let mut idx: usize = from;
    while idx < hi
        invariant
            from <= idx <= hi <= raw@.len(),
            -(idx - from) <= depth <= idx - from,
            depth == depth_at(raw@, from as int, idx as int, open, close),
            first_close(raw@, from as int, idx as int, open, close) is None,
        decreases hi - idx,
    {
        let ch = raw[idx];
        if ch == open {
            depth = depth + 1;
        } else if ch == close {
            depth = depth - 1;
            if depth == 0 {
                assert(first_close(raw@, from as int, idx + 1, open, close) == Some(idx as int));
                proof {
                    lemma_first_close_stays(raw@, from as int, idx + 1, hi as int, open, close);
                }
                return Some(idx);
            }
        }
        idx = idx + 1;
    }
    None
}

/// The trimmed prefix and body of `KEYWORD prefix { body } ...`, where
/// `kw` is the keyword's length and `raw` starts with it.
pub open spec fn wrapped_keyword(raw: Seq<char>, kw: int) -> Option<((int, int), (int, int))> {
    let rest = trim_bounds(raw, kw, raw.len() as int).0;
    let f = first_of(raw.subrange(rest, raw.len() as int), '{');
    if f < 0 {
        None
    } else {
        let open = rest + f;
        let prefix = trim_bounds(raw, rest, open);
        let oe = trim_bounds(raw, open, raw.len() as int);
        if oe.0 >= oe.1 || raw[oe.0] != '{' {
            None
        } else {
            match first_close(raw, oe.0, oe.1, '{', '}') {
                Some(c) => if c <= oe.0 { None } else { Some((prefix, trim_bounds(raw, oe.0 + 1, c))) },
                None => None,
            }
        }
    }
}

pub fn find_char_sub(raw: &[char], from: usize, c: char) -> (r: Option<usize>)
    requires
        from <= raw@.len(),
    ensures
        match r {
            Some(i) => from <= i < raw@.len() && first_of(raw@.subrange(from as int, raw@.len() as int), c) == i - from,
            None => first_of(raw@.subrange(from as int, raw@.len() as int), c) < 0,
        },
{
    let ghost sub = raw@.subrange(from as int, raw@.len() as int);
    match find_char_from(raw, from, c) {
        Some(i) => {
            proof {
                assert forall|j: int| 0 <= j < i - from implies sub[j] != c by {
                    assert(sub[j] == raw@[from + j]);
                }
                lemma_first_of_at(sub, c, i - from);
            }
            Some(i)
        },
        None => {
            proof {
                assert forall|j: int| 0 <= j < sub.len() implies sub[j] != c by {
                    assert(sub[j] == raw@[from + j]);
                }
                lemma_first_of_none(sub, c);
            }
            None
        },
    }
}

/// For `raw` = `KEYWORD prefix { body } ...`: the trimmed prefix and the
/// trimmed body of the first brace group.
pub fn parse_wrapped_keyword(raw: &[char], keyword: &str) -> (r: Option<((usize, usize), (usize, usize))>)
    ensures
        r matches Some((p, b)) ==> p.0 <= p.1 <= raw@.len() && b.0 <= b.1 <= raw@.len() && b.1
            - b.0 + 2 <= raw@.len() && p.1 - p.0 < raw@.len() && 0 < b.0,
        match r {
            Some((p, b)) => occurs_at(raw@, 0, keyword@)
                && wrapped_keyword(raw@, keyword@.len() as int) == Some(((p.0 as int, p.1 as int), (b.0 as int, b.1 as int))),
            None => !occurs_at(raw@, 0, keyword@) || wrapped_keyword(raw@, keyword@.len() as int) is None,
        },
{
    if !lit_at(raw, 0, keyword) {
        return None;
    }
    let kw = chars_of(keyword);
    let (rest, _e) = trim_range(raw, kw.len(), raw.len());
    let open = match find_char_sub(raw, rest, '{') {
        Some(o) => o,
        None => return None,
    };
    let prefix = trim_range(raw, rest, open);
    let (o, e) = trim_range(raw, open, raw.len());
    if o >= e || raw[o] != '{' {
        return None;
    }
    let close = match matching_delimiter(raw, o, e, '{', '}') {
        Some(c) => c,
        None => return None,
    };
    if close <= o {
        return None;
    }
    let body = trim_range(raw, o + 1, close);
    Some((prefix, body))
}

/// The trimmed inside of `[ entries ]`.
pub open spec fn record_literal_body(raw: Seq<char>) -> Option<(int, int)> {
    let t = trim_bounds(raw, 0, raw.len() as int);
    if t.0 >= t.1 || raw[t.0] != '[' {
        None
    } else {
        match first_close(raw, t.0, t.1, '[', ']') {
            Some(c) => if c <= t.0 { None } else { Some(trim_bounds(raw, t.0 + 1, c)) },
            None => None,
        }
    }
}

/// For `raw` = `[ entries ]`: the trimmed inside of the brackets.
pub fn parse_record_literal_body(raw: &[char]) -> (r: Option<(usize, usize)>)
    ensures
        r matches Some(b) ==> 0 < b.0 <= b.1 <= raw@.len() && b.1 - b.0 + 2 <= raw@.len(),
        match r {
            Some(b) => record_literal_body(raw@) == Some((b.0 as int, b.1 as int)),
            None => record_literal_body(raw@) is None,
        },
{
    let (a, e) = trim_range(raw, 0, raw.len());
    if a >= e || raw[a] != '[' {
        return None;
    }
    let close = match matching_delimiter(raw, a, e, '[', ']') {
        Some(c) => c,
        None => return None,
    };
    if close <= a {
        return None;
    }
    Some(trim_range(raw, a + 1, close))
}

/// For `raw` = `TEXT { body }`: the trimmed body.
pub fn parse_text_literal_expr(raw: &[char]) -> (r: Option<String>)
    ensures
        r matches Some(s) ==> raw@.len() >= 7 && s@ == trim(raw@.subrange(6, raw@.len() - 1)),
        r is Some <==> occurs_at(raw@, 0, "TEXT {"@) && raw@.len() >= 7 && raw@[raw@.len() - 1] == '}',
{
    if !lit_at(raw, 0, "TEXT {") {
        return None;
    }
    proof {
        reveal_strlit("TEXT {");
    }
    if raw.len() < 7 || raw[raw.len() - 1] != '}' {
        return None;
    }
    let (a, b) = trim_range(raw, 6, raw.len() - 1);
    Some(string_of_range(raw, a, b))
}

/// What the leaf kinds of a parsed expression say of its text.
pub open spec fn leaf_kind_matches(kind: AstExprKind, raw: Seq<char>) -> bool {
    match kind {
        AstExprKind::Source => raw == "SOURCE"@,
        AstExprKind::Passed => raw == "PASSED"@,
        AstExprKind::Skip => raw == "SKIP"@,
        AstExprKind::Bool { value } => raw == (if value {
            "True"@
        } else {
            "False"@
        }),
        AstExprKind::Number { value } => parse_i64_spec(raw) == Some(value),
        AstExprKind::Path { value } => value@ == raw && (path_like(raw) || local_path_like(raw)),
        AstExprKind::Tag { value } => value@ == raw && tag_like(raw),
        _ => true,
    }
}

/// The prefix and body bounds of `raw` where it is `kw prefix { body }`.
pub open spec fn kw_wrap(raw: Seq<char>, kw: Seq<char>) -> Option<((int, int), (int, int))> {
    if occurs_at(raw, 0, kw) { wrapped_keyword(raw, kw.len() as int) } else { None }
}

/// Whether `k` is the kind that the atom `raw` (no pipeline, no binary
/// operation) parses to: the first of the keywords, a number, a text
/// literal, a keyword block (`HOLD`, `THEN`, `WHEN`, `WHILE`, `LATEST`,
/// `BLOCK`, `LIST`), a record literal, a call, a path, a tag, else raw.
pub open spec fn atom_kind_ok(k: AstExprKind, raw: Seq<char>) -> bool
    decreases k, 0int,
{
    if raw == "SOURCE"@ {
        k is Source
    } else if raw == "PASSED"@ {
        k is Passed
    } else if raw == "SKIP"@ {
        k is Skip
    } else if raw == "True"@ {
        match k {
            AstExprKind::Bool { value } => value,
            _ => false,
        }
    } else if raw == "False"@ {
        match k {
            AstExprKind::Bool { value } => !value,
            _ => false,
        }
    } else if parse_i64_spec(raw) is Some {
        match k {
            AstExprKind::Number { value } => parse_i64_spec(raw) == Some(value),
            _ => false,
        }
    } else if occurs_at(raw, 0, "TEXT {"@) && raw.len() >= 7 && raw[raw.len() - 1] == '}' {
        match k {
            AstExprKind::Text { value } => value@ == trim(raw.subrange(6, raw.len() - 1)),
            _ => false,
        }
    } else {
        match kw_wrap(raw, "HOLD"@) {
            Some((p, b)) => match k {
                AstExprKind::Hold { state, body } => state@ == raw.subrange(p.0, p.1) && body.raw@ == trim(raw.subrange(b.0, b.1))
                    && expr_kind_ok(body.kind, trim(raw.subrange(b.0, b.1))),
                _ => false,
            },
            None => match kw_wrap(raw, "THEN"@) {
                Some((_, b)) => match k {
                    AstExprKind::Then { body } => body.raw@ == trim(raw.subrange(b.0, b.1)) && expr_kind_ok(
                        body.kind,
                        trim(raw.subrange(b.0, b.1)),
                    ),
                    _ => false,
                },
                None => if kw_wrap(raw, "WHEN"@) is Some {
                    k is When
                } else if kw_wrap(raw, "WHILE"@) is Some {
                    k is While
                } else if kw_wrap(raw, "LATEST"@) is Some {
                    k is Latest
                } else if kw_wrap(raw, "BLOCK"@) is Some {
                    k is Block
                } else if kw_wrap(raw, "LIST"@) is Some {
                    k is List
                } else if record_literal_body(raw) is Some {
                    k is Record
                } else if call_shaped(raw) {
                    match k {
                        AstExprKind::Call { path, args } => {
                            let inner = raw.subrange(first_of(raw, '(') + 1, raw.len() - 1);
                            &&& path@ == trim(raw.subrange(0, first_of(raw, '(')))
                            &&& arg_pairs(args@) == call_args_from(inner, items_from(inner, 0, 0, 0, inner.len() as int), 0)
                        },
                        _ => false,
                    }
                } else if path_like(raw) || local_path_like(raw) {
                    match k {
                        AstExprKind::Path { value } => value@ == raw,
                        _ => false,
                    }
                } else if tag_like(raw) {
                    match k {
                        AstExprKind::Tag { value } => value@ == raw,
                        _ => false,
                    }
                } else {
                    k is Raw
                },
            },
        }
    }
}

/// Whether `k` is the kind that the trimmed text `t` parses to: a
/// pipeline where `t` has a top-level `|>`, its input and stages the
/// trimmed pieces; else a binary operation where `t` splits at one, its
/// sides the trimmed pieces; else the atom kind.
pub open spec fn expr_kind_ok(k: AstExprKind, t: Seq<char>) -> bool
    decreases k, 1int,
{
    let ps = pipeline_parts_of(t);
    if ps.len() > 1 {
        match k {
            AstExprKind::Pipeline { input, stages } => {
                &&& input.raw@ == trim(t.subrange(ps[0].0, ps[0].1))
                &&& expr_kind_ok(input.kind, trim(t.subrange(ps[0].0, ps[0].1)))
                &&& stages@.len() == ps.len() - 1
                &&& forall|j: int| 0 <= j < stages@.len() ==> (#[trigger] stages@[j]).raw@ == trim(t.subrange(ps[j + 1].0, ps[j + 1].1))
                    && expr_kind_ok(stages@[j].kind, trim(t.subrange(ps[j + 1].0, ps[j + 1].1)))
            },
            _ => false,
        }
    } else {
        match binary_split(t) {
            Some((a, b, op, c, d)) => match k {
                AstExprKind::Binary { op: o, left, right } => o == op && left.raw@ == trim(t.subrange(a, b))
                    && right.raw@ == trim(t.subrange(c, d)) && expr_kind_ok(left.kind, trim(t.subrange(a, b)))
                    && expr_kind_ok(right.kind, trim(t.subrange(c, d))),
                _ => false,
            },
            None => atom_kind_ok(k, t),
        }
    }
}

/// Whether `k` is the kind that the trimmed text `t` parses to, as
/// [`expr_kind_ok`] states it.
#[verifier::opaque]
pub open spec fn parses_as(k: AstExprKind, t: Seq<char>) -> bool {
    expr_kind_ok(k, t)
}

/// Parses a Boon expression.  The result carries the trimmed text and the
/// given span; its leaf kinds are the literal forms of that text.
#[verifier::spinoff_prover]
#[verifier::rlimit(100)]
pub fn parse_expr(input: &[char], span: Span) -> (r: AstExpr)
    ensures
        r.span == span,
        r.raw@ == trim(input@),
        leaf_kind_matches(r.kind, trim(input@)),
        parses_as(r.kind, trim(input@)),
    decreases input@.len(), 1int,
{
    reveal(parses_as);
    let (ta, tb) = trim_range(input, 0, input.len());
    assert(input@.subrange(0, input@.len() as int) =~= input@);
    let raw = &input[ta..tb];
    let raw_text = string_of(raw);
    let pipeline = split_top_level_pipeline(raw);
    if pipeline.len() > 1 {
        let (a0, b0) = pipeline[0];
        let head_piece = &raw[a0..b0];
        assert(head_piece@ == raw@.subrange(a0 as int, b0 as int));
        let head = parse_expr(head_piece, span);
        let mut stages: Vec<AstExpr> = Vec::new();
        let mut k: usize = 1;
        let ghost ps = pipeline_parts_of(raw@);
        while k < pipeline.len()
            invariant
                1 <= k <= pipeline@.len(),
                raw@.len() <= input@.len(),
                ps == pipeline_parts_of(raw@),
                int_pairs(pipeline@) == ps,
                stages@.len() == k - 1,
                forall|j: int| 0 <= j < stages@.len() ==> (#[trigger] stages@[j]).raw@ == trim(raw@.subrange(ps[j + 1].0, ps[j + 1].1))
                    && expr_kind_ok(stages@[j].kind, trim(raw@.subrange(ps[j + 1].0, ps[j + 1].1))),
                forall|j: int|
                    0 <= j < pipeline@.len() ==> (#[trigger] pipeline@[j]).0 <= pipeline@[j].1
                        <= raw@.len() && pipeline@[j].1 - pipeline@[j].0 + 2 <= raw@.len(),
            decreases pipeline.len() - k,
        {
            let (a, b) = pipeline[k];
            let piece = &raw[a..b];
            assert(piece@ == raw@.subrange(a as int, b as int));
            assert(ps[k as int] == (a as int, b as int));
            let x = parse_expr(piece, span);
            proof {
                reveal(parses_as);
            }
            let ghost st0 = stages@;
            stages.push(x);
            assert(forall|j: int| 0 <= j < st0.len() ==> stages@[j] == st0[j]);
            k = k + 1;
        }
        return AstExpr {
            kind: AstExprKind::Pipeline { input: Box::new(head), stages },
            span,
            raw: raw_text,
        };
    }
    if let Some((la, lb, op, ra, rb)) = split_top_level_binary(raw) {
        let lp = &raw[la..lb];
        let rp = &raw[ra..rb];
        assert(lp@ == raw@.subrange(la as int, lb as int));
        assert(rp@ == raw@.subrange(ra as int, rb as int));
        let left = parse_expr(lp, span);
        let right = parse_expr(rp, span);
        return AstExpr {
            kind: AstExprKind::Binary { op, left: Box::new(left), right: Box::new(right) },
            span,
            raw: raw_text,
        };
    }
    let kind = parse_atom_kind(raw, span);
    assert(pipeline_parts_of(raw@).len() <= 1);
    assert(binary_split(raw@) is None);
    assert(expr_kind_ok(kind, raw@));
    AstExpr { kind, span, raw: raw_text }
}

/// The kind of an expression that is neither a pipeline nor a binary
/// operation: a literal, a keyword block, a record literal, a call, a path,
/// a tag, or raw text.
#[verifier::spinoff_prover]
#[verifier::rlimit(100)]
pub fn parse_atom_kind(raw: &[char], span: Span) -> (r: AstExprKind)
    ensures
        leaf_kind_matches(r, raw@),
        atom_kind_ok(r, raw@),
    decreases raw@.len(), 0int,
{
    reveal(parses_as);
    assert(raw@.subrange(0, raw@.len() as int) =~= raw@);
    if is_lit(raw, "SOURCE") {
        AstExprKind::Source
    } else if is_lit(raw, "PASSED") {
        AstExprKind::Passed
    } else if is_lit(raw, "SKIP") {
        AstExprKind::Skip
    } else if is_lit(raw, "True") {
        AstExprKind::Bool { value: true }
    } else if is_lit(raw, "False") {
        AstExprKind::Bool { value: false }
    } else if let Some(value) = parse_i64(raw, 0, raw.len()) {
        assert(raw@.subrange(0, raw@.len() as int) =~= raw@);
        AstExprKind::Number { value }
    } else if let Some(value) = parse_text_literal_expr(raw) {
        AstExprKind::Text { value }
    } else if let Some((prefix, body)) = parse_wrapped_keyword(raw, "HOLD") {
        let state = string_of_range(raw, prefix.0, prefix.1);
        let piece = &raw[body.0..body.1];
        assert(piece@ == raw@.subrange(body.0 as int, body.1 as int));
        let b = parse_expr(piece, span);
        AstExprKind::Hold { state, body: Box::new(b) }
    } else if let Some((_prefix, body)) = parse_wrapped_keyword(raw, "THEN") {
        let piece = &raw[body.0..body.1];
        assert(piece@ == raw@.subrange(body.0 as int, body.1 as int));
        let b = parse_expr(piece, span);
        AstExprKind::Then { body: Box::new(b) }
    } else if let Some((_prefix, body)) = parse_wrapped_keyword(raw, "WHEN") {
        AstExprKind::When { arms: parse_when_arms(&raw[body.0..body.1], span) }
    } else if let Some((_prefix, body)) = parse_wrapped_keyword(raw, "WHILE") {
        AstExprKind::While { arms: parse_when_arms(&raw[body.0..body.1], span) }
    } else if let Some((_prefix, body)) = parse_wrapped_keyword(raw, "LATEST") {
        AstExprKind::Latest { branches: parse_expression_lines(&raw[body.0..body.1], span) }
    } else if let Some((_prefix, body)) = parse_wrapped_keyword(raw, "BLOCK") {
        AstExprKind::Block { bindings: parse_bindings(&raw[body.0..body.1], span) }
    } else if let Some((_prefix, body)) = parse_wrapped_keyword(raw, "LIST") {
        AstExprKind::List { items: parse_expression_lines(&raw[body.0..body.1], span) }
    } else if let Some(body) = parse_record_literal_body(raw) {
        AstExprKind::Record { entries: parse_record_literal_entries(&raw[body.0..body.1], span) }
    } else if let Some((path, open, close)) = call_shape(raw) {
        let inner = &raw[open + 1..close];
        assert(inner@ == raw@.subrange(open + 1, raw@.len() - 1));
        let args = parse_call_args_body(inner, span);
        AstExprKind::Call { path, args }
    } else if is_path_like(raw) || is_local_path_like(raw) {
        AstExprKind::Path { value: string_of(raw) }
    } else if is_tag_like(raw) {
        AstExprKind::Tag { value: string_of(raw) }
    } else {
        AstExprKind::Raw
    }
}

/// Whether `raw` is `path(args)`: its first `(` follows an identifier path,
/// and the parenthesis it opens closes at the end of `raw`.
pub open spec fn call_shaped(raw: Seq<char>) -> bool {
    let open = first_of(raw, '(');
    &&& open >= 0
    &&& raw.len() > 0 && raw[raw.len() - 1] == ')'
    &&& identifier_path(trim(raw.subrange(0, open)))
    &&& first_close(raw, open, raw.len() as int, '(', ')') == Some(raw.len() - 1)
    &&& raw.len() - 1 > open
}

/// For `raw` = `path(args)`: the call path and the positions of the outer
/// parentheses.
pub fn call_shape(raw: &[char]) -> (r: Option<(String, usize, usize)>)
    ensures
        r matches Some((path, open, close)) ==> open < close && close + 1 == raw@.len()
            && identifier_path(path@) && path@ == trim(raw@.subrange(0, open as int)),
        r matches Some((_, open, _)) ==> open == first_of(raw@, '('),
        r is Some <==> call_shaped(raw@),
{
    let open = match crate::text::index_of_char(raw, '(') {
        Some(o) => o,
        None => return None,
    };
    if raw.len() == 0 || raw[raw.len() - 1] != ')' {
        return None;
    }
    let (pa, pb) = trim_range(raw, 0, open);
    if !is_identifier_path(&raw[pa..pb]) {
        return None;
    }
    let close = match matching_delimiter(raw, open, raw.len(), '(', ')') {
        Some(c) => c,
        None => return None,
    };
    if close != raw.len() - 1 || close <= open {
        return None;
    }
    Some((string_of_range(raw, pa, pb), open, close))
}

/// The `name: value` pairs of the items `items` of `body` from the `k`-th
/// on: an item with a `:` gives its trimmed name and trimmed value; where
/// nothing follows the `:`, the next item is the value.  Items without a
/// `:` give nothing.
pub open spec fn call_args_from(body: Seq<char>, items: Seq<(int, int)>, k: int) -> Seq<(Seq<char>, Seq<char>)>
    decreases items.len() - k,
{
    if k < 0 || k >= items.len() {
        Seq::empty()
    } else {
        let a = items[k].0;
        let b = items[k].1;
        match crate::syntax::collect::next_char(body, a, ':') {
            Some(c) => if c < b {
                let name = trim(body.subrange(a, c));
                let t = trim_bounds(body, c + 1, b);
                if t.0 == t.1 && k + 1 < items.len() {
                    seq![(name, trim(body.subrange(items[k + 1].0, items[k + 1].1)))]
                        + call_args_from(body, items, k + 2)
                } else {
                    seq![(name, trim(body.subrange(c + 1, b)))] + call_args_from(body, items, k + 1)
                }
            } else {
                call_args_from(body, items, k + 1)
            },
            None => call_args_from(body, items, k + 1),
        }
    }
}

/// The names and value texts of call arguments.
pub open spec fn arg_pairs(v: Seq<AstCallArg>) -> Seq<(Seq<char>, Seq<char>)> {
    v.map_values(|x: AstCallArg| (x.name@, x.value.raw@))
}

/// `name: value` call arguments of a call's argument text. An argument
/// whose name stands alone on its line, `name:`, takes the next item as
/// its value.
#[verifier::spinoff_prover]
#[verifier::rlimit(60)]
pub fn parse_call_args_body(body: &[char], span: Span) -> (r: Vec<AstCallArg>)
    ensures
        forall|k: int| 0 <= k < r@.len() ==> (#[trigger] r@[k]).span == span,
        arg_pairs(r@) == call_args_from(body@, items_from(body@, 0, 0, 0, body@.len() as int), 0),
    decreases body@.len(), 3int,
{
    let items = split_top_level_items(body, 0, body.len());
    let ghost its = int_pairs(items@);
    let ghost all = call_args_from(body@, its, 0);
    let mut args: Vec<AstCallArg> = Vec::new();
    let mut k: usize = 0;
    assert(arg_pairs(args@) + call_args_from(body@, its, 0) =~= all);
    while k < items.len()
        invariant
            k <= items@.len(),
            its == int_pairs(items@),
            its.len() == items@.len(),
            forall|j: int| 0 <= j < items@.len() ==> 0 <= (#[trigger] items@[j]).0 < items@[j].1 <= body@.len(),
            forall|j: int| 0 <= j < args@.len() ==> (#[trigger] args@[j]).span == span,
            arg_pairs(args@) + call_args_from(body@, its, k as int) == all,
        decreases items.len() - k,
    {
        let (a, b) = items[k];
        assert(its[k as int] == (a as int, b as int));
        let ghost before = arg_pairs(args@);
        let mut next = k + 1;
        match find_char_from(body, a, ':') {
            Some(c) => {
                proof {
                    crate::syntax::collect::lemma_next_char(body@, a as int, ':', c as int);
                }
                if c < b {
                    let (na, nb) = trim_range(body, a, c);
                    let name = string_of_range(body, na, nb);
                    let (va, vb) = trim_range(body, c + 1, b);
                    let value = if va == vb && k + 1 < items.len() {
                        let (xa, xb) = items[k + 1];
                        assert(its[k + 1] == (xa as int, xb as int));
                        next = k + 2;
                        let piece = &body[xa..xb];
                        assert(piece@ == body@.subrange(xa as int, xb as int));
                        parse_expr(piece, span)
                    } else {
                        let piece = &body[c + 1..b];
                        assert(piece@ == body@.subrange(c + 1, b as int));
                        parse_expr(piece, span)
                    };
                    let item = AstCallArg { name, value, span };
                    args.push(item);
                    assert(arg_pairs(args@) =~= before.push((item.name@, item.value.raw@)));
                    assert(arg_pairs(args@) + call_args_from(body@, its, next as int) =~= before + call_args_from(
                        body@,
                        its,
                        k as int,
                    ));
                }
            },
            None => {
                assert(crate::syntax::collect::next_char(body@, a as int, ':') is None);
            },
        }
        k = next;
    }
    assert(call_args_from(body@, its, k as int) =~= Seq::<(Seq<char>, Seq<char>)>::empty());
    assert(arg_pairs(args@) =~= all);
    args
}

/// Where `v[a..e]` ends once its trailing commas go.
pub open spec fn comma_end(v: Seq<char>, a: int, e: int) -> int
    decreases e - a,
{
    if e > a && v[e - 1] == ',' { comma_end(v, a, e - 1) } else { e }
}

/// The expression texts of the first `n` lines `ls` of `body`: each
/// non-empty trimmed line that is not a lone brace, without trailing
/// commas, trimmed.
pub open spec fn line_exprs(body: Seq<char>, ls: Seq<(usize, usize)>, n: int) -> Seq<Seq<char>>
    decreases n,
{
    if n <= 0 || n > ls.len() {
        Seq::empty()
    } else {
        let before = line_exprs(body, ls, n - 1);
        let t = trim_bounds(body, ls[n - 1].0 as int, ls[n - 1].1 as int);
        if t.0 < t.1 && !(t.1 == t.0 + 1 && (body[t.0] == '{' || body[t.0] == '}')) {
            before.push(trim(body.subrange(t.0, comma_end(body, t.0, t.1))))
        } else {
            before
        }
    }
}

/// The texts of parsed expressions.
pub open spec fn expr_raws(v: Seq<AstExpr>) -> Seq<Seq<char>> {
    v.map_values(|e: AstExpr| e.raw@)
}

/// One expression per non-empty line of `body`, skipping lone braces and
/// dropping trailing commas.
#[verifier::spinoff_prover]
#[verifier::rlimit(60)]
pub fn parse_expression_lines(body: &[char], span: Span) -> (r: Vec<AstExpr>)
    ensures
        forall|k: int| 0 <= k < r@.len() ==> (#[trigger] r@[k]).span == span,
        exists|ls: Seq<(usize, usize)>| crate::syntax::scan::lines_split(body@, 0, body@.len() as int, ls)
            && expr_raws(r@) == line_exprs(body@, ls, ls.len() as int),
    decreases body@.len(), 3int,
{
    let lines = line_ranges(body, 0, body.len());
    let mut out: Vec<AstExpr> = Vec::new();
    let mut k: usize = 0;
    while k < lines.len()
        invariant
            k <= lines@.len(),
            forall|j: int| 0 <= j < lines@.len() ==> 0 <= (#[trigger] lines@[j]).0 <= lines@[j].1 <= body@.len(),
            forall|j: int| 0 <= j < out@.len() ==> (#[trigger] out@[j]).span == span,
            expr_raws(out@) == line_exprs(body@, lines@, k as int),
        decreases lines.len() - k,
    {
        let (la, lb) = lines[k];
        let (a, b) = trim_range(body, la, lb);
        let ghost before = expr_raws(out@);
        if a < b && !(b == a + 1 && (body[a] == '{' || body[a] == '}')) {
            let mut e = b;
            while e > a && body[e - 1] == ','
                invariant
                    a <= e <= b <= body@.len(),
                    comma_end(body@, a as int, e as int) == comma_end(body@, a as int, b as int),
                decreases e,
            {
                e = e - 1;
            }
            let piece = &body[a..e];
            assert(piece@ == body@.subrange(a as int, e as int));
            let x = parse_expr(piece, span);
            out.push(x);
            assert(expr_raws(out@) =~= before.push(x.raw@));
        }
        k = k + 1;
    }
    out
}

/// The `name: value` pairs of the first `n` lines `ls` of `body`: each
/// non-empty trimmed line with a `:`, split at its first `:`, both sides
/// trimmed.
pub open spec fn line_bindings(body: Seq<char>, ls: Seq<(usize, usize)>, n: int) -> Seq<(Seq<char>, Seq<char>)>
    decreases n,
{
    if n <= 0 || n > ls.len() {
        Seq::empty()
    } else {
        let before = line_bindings(body, ls, n - 1);
        let t = trim_bounds(body, ls[n - 1].0 as int, ls[n - 1].1 as int);
        if t.0 < t.1 {
            match crate::syntax::collect::next_char(body, t.0, ':') {
                Some(c) => if c < t.1 {
                    before.push((trim(body.subrange(t.0, c)), trim(body.subrange(c + 1, t.1))))
                } else {
                    before
                },
                None => before,
            }
        } else {
            before
        }
    }
}

/// The names and value texts of bindings.
pub open spec fn binding_pairs(v: Seq<AstBinding>) -> Seq<(Seq<char>, Seq<char>)> {
    v.map_values(|b: AstBinding| (b.name@, b.value.raw@))
}

/// `name: value` bindings, one per non-empty line of `body`.
#[verifier::spinoff_prover]
#[verifier::rlimit(60)]
pub fn parse_bindings(body: &[char], span: Span) -> (r: Vec<AstBinding>)
    ensures
        forall|k: int| 0 <= k < r@.len() ==> (#[trigger] r@[k]).span == span,
        exists|ls: Seq<(usize, usize)>| crate::syntax::scan::lines_split(body@, 0, body@.len() as int, ls)
            && binding_pairs(r@) == line_bindings(body@, ls, ls.len() as int),
    decreases body@.len(), 3int,
{
    let lines = line_ranges(body, 0, body.len());
    let mut out: Vec<AstBinding> = Vec::new();
    let mut k: usize = 0;
    while k < lines.len()
        invariant
            k <= lines@.len(),
            forall|j: int| 0 <= j < lines@.len() ==> 0 <= (#[trigger] lines@[j]).0 <= lines@[j].1 <= body@.len(),
            forall|j: int| 0 <= j < out@.len() ==> (#[trigger] out@[j]).span == span,
            binding_pairs(out@) == line_bindings(body@, lines@, k as int),
        decreases lines.len() - k,
    {
        let (la, lb) = lines[k];
        let (a, b) = trim_range(body, la, lb);
        let ghost before = binding_pairs(out@);
        if a < b {
            match find_char_from(body, a, ':') {
                Some(c) => {
                    proof {
                        crate::syntax::collect::lemma_next_char(body@, a as int, ':', c as int);
                    }
                    if c < b {
                        let (na, nb) = trim_range(body, a, c);
                        let name = string_of_range(body, na, nb);
                        let piece = &body[c + 1..b];
                        assert(piece@ == body@.subrange(c + 1, b as int));
                        let value = parse_expr(piece, span);
                        let item = AstBinding { name, value, span };
                        out.push(item);
                        assert(binding_pairs(out@) =~= before.push((item.name@, item.value.raw@)));
                    }
                },
                None => {
                    assert(crate::syntax::collect::next_char(body@, a as int, ':') is None);
                },
            }
        }
        k = k + 1;
    }
    out
}

/// Record literal entries: the bindings of `body` as keyed records.
pub fn parse_record_literal_entries(body: &[char], span: Span) -> (r: Vec<AstRecord>)
    ensures
        forall|k: int| 0 <= k < r@.len() ==> (#[trigger] r@[k]).span == span && r@[k].value is Some
            && r@[k].children@.len() == 0,
        exists|ls: Seq<(usize, usize)>| crate::syntax::scan::lines_split(body@, 0, body@.len() as int, ls)
            && record_pairs(r@) == line_bindings(body@, ls, ls.len() as int),
    decreases body@.len(), 4int,
{
    let bindings = parse_bindings(body, span);
    let ghost all = binding_pairs(bindings@);
    let mut out: Vec<AstRecord> = Vec::new();
    let mut rest = bindings;
    let ghost n = rest@.len();
    assert(all.subrange(0, 0) =~= Seq::<(Seq<char>, Seq<char>)>::empty());
    assert(record_pairs(out@) =~= all.subrange(0, 0));
    while rest.len() > 0
        invariant
            out@.len() + rest@.len() == n,
            n == all.len(),
            binding_pairs(rest@) == all.subrange(out@.len() as int, n as int),
            record_pairs(out@) == all.subrange(0, out@.len() as int),
            forall|j: int| 0 <= j < rest@.len() ==> (#[trigger] rest@[j]).span == span,
            forall|j: int| 0 <= j < out@.len() ==> (#[trigger] out@[j]).span == span && out@[j].value is Some
                && out@[j].children@.len() == 0,
        decreases rest.len(),
    {
        let ghost r0 = rest@;
        let binding = rest.remove(0);
        assert(binding_pairs(rest@) =~= binding_pairs(r0).drop_first());
        assert(binding_pairs(r0)[0] == all[out@.len() as int]);
        let ghost o0 = record_pairs(out@);
        let rec = AstRecord {
            key: binding.name,
            value: Some(binding.value),
            span: binding.span,
            children: Vec::new(),
        };
        out.push(rec);
        assert(record_pairs(out@) =~= o0.push(binding_pairs(r0)[0]));
        assert(binding_pairs(rest@) =~= all.subrange(out@.len() as int, n as int));
        assert(record_pairs(out@) =~= all.subrange(0, out@.len() as int));
    }
    assert(all.subrange(0, n as int) =~= all);
    out
}

/// The keys and value texts of record literal entries.
pub open spec fn record_pairs(v: Seq<AstRecord>) -> Seq<(Seq<char>, Seq<char>)> {
    v.map_values(|r: AstRecord| (r.key@, match r.value {
        Some(x) => x.raw@,
        None => Seq::empty(),
    }))
}

/// The arms of a `WHEN` or `WHILE` body.
#[verifier::spinoff_prover]
#[verifier::rlimit(60)]
pub fn parse_when_arms(body: &[char], span: Span) -> (r: Vec<AstWhenArm>)
    ensures
        forall|k: int| 0 <= k < r@.len() ==> (#[trigger] r@[k]).span == span,
    decreases body@.len(), 3int,
{
    let items = split_top_level_items(body, 0, body.len());
    let mut out: Vec<AstWhenArm> = Vec::new();
    let mut k: usize = 0;
    while k < items.len()
        invariant
            k <= items@.len(),
            forall|j: int| 0 <= j < items@.len() ==> 0 <= (#[trigger] items@[j]).0 < items@[j].1 <= body@.len(),
            forall|j: int| 0 <= j < out@.len() ==> (#[trigger] out@[j]).span == span,
        decreases items.len() - k,
    {
        let (a, b) = items[k];
        let mut arms = parse_when_item_arms(&body[a..b], span);
        out.append(&mut arms);
        k = k + 1;
    }
    out
}

/// Whether the word `item[a..b]` opens a nested block expression.
fn is_block_keyword(item: &[char], a: usize, b: usize) -> (r: bool)
    requires
        a <= b <= item@.len(),
{
    let w = &item[a..b];
    is_lit(w, "BLOCK") || is_lit(w, "THEN") || is_lit(w, "WHEN") || is_lit(w, "LATEST") || is_lit(
        w,
        "LIST",
    )
}

/// The arms written in one `WHEN` item: `pattern => value`, or several
/// `pattern => value` pairs of single words on one line.
pub fn parse_when_item_arms(item: &[char], span: Span) -> (r: Vec<AstWhenArm>)
    ensures
        forall|k: int| 0 <= k < r@.len() ==> (#[trigger] r@[k]).span == span,
        match crate::syntax::collect::next_from(item@, 0, "=>"@) {
            None => r@.len() == 0,
            Some(f) => crate::syntax::collect::next_from(item@, f + 2, "=>"@) is None ==> {
                &&& r@.len() == 1
                &&& r@[0].pattern@ == trim(item@.subrange(0, f))
                &&& r@[0].value.raw@ == trim(item@.subrange(f + 2, item@.len() as int))
            },
        },
    decreases item@.len(), 2int,
{
    let arrow = chars_of("=>");
    proof {
        reveal_strlit("=>");
    }
    assert(arrow@.len() == 2);
    assert(item@.len() == item.len());
    let first = find_from(item, 0, &arrow);
    if let Some(f) = first {
        proof {
            crate::syntax::collect::lemma_next_from(item@, 0, "=>"@, f as int);
        }
        let words = word_ranges(item, f + 2, item.len());
        if words.len() > 0 && is_block_keyword(item, words[0].0, words[0].1) {
            let (pa, pb) = trim_range(item, 0, f);
            let pattern = string_of_range(item, pa, pb);
            let value = parse_expr(&item[f + 2..item.len()], span);
            let mut one: Vec<AstWhenArm> = Vec::new();
            one.push(AstWhenArm { pattern, value, span });
            return one;
        }
        let second = find_from(item, f + 2, &arrow);
        match second {
            Some(g) => {
                proof {
                    crate::syntax::collect::lemma_next_from(item@, f + 2, "=>"@, g as int);
                }
            },
            None => {},
        }
        if second.is_none() {
            let (pa, pb) = trim_range(item, 0, f);
            let pattern = string_of_range(item, pa, pb);
            let value = parse_expr(&item[f + 2..item.len()], span);
            let mut one: Vec<AstWhenArm> = Vec::new();
            one.push(AstWhenArm { pattern, value, span });
            return one;
        }
    } else {
        assert(crate::syntax::collect::next_from(item@, 0, "=>"@) is None);
        return Vec::new();
    }
    let tokens = word_ranges(item, 0, item.len());
    let mut arms: Vec<AstWhenArm> = Vec::new();
    let mut idx: usize = 0;
    while tokens.len() >= 2 && idx < tokens.len() - 2
        invariant
            crate::syntax::scan::words_split(item@, 0, item@.len() as int, tokens@),
            tokens@.len() <= item@.len(),
            idx <= tokens@.len(),
            forall|j: int| 0 <= j < arms@.len() ==> (#[trigger] arms@[j]).span == span,
        decreases tokens.len() - idx,
    {
        let (pa, pb) = tokens[idx];
        if !is_lit(&item[tokens[idx + 1].0..tokens[idx + 1].1], "=>") {
            break;
        }
        idx = idx + 2;
        let value_start = idx;
        while tokens.len() >= 1 && idx < tokens.len() - 1 && !is_lit(&item[tokens[idx + 1].0..tokens[idx + 1].1], "=>")
            invariant
                value_start <= idx < tokens@.len(),
                tokens@.len() <= item@.len(),
                crate::syntax::scan::words_split(item@, 0, item@.len() as int, tokens@),
            decreases tokens.len() - idx,
        {
            idx = idx + 1;
        }
        let mut value: Vec<char> = Vec::new();
        let mut t: usize = value_start;
        while t < idx
            invariant
                2 <= value_start <= t <= idx < tokens@.len(),
                crate::syntax::scan::words_split(item@, 0, item@.len() as int, tokens@),
                t == value_start ==> value@.len() == 0,
                t > value_start ==> value@.len() <= tokens@[t - 1].1 - tokens@[value_start as int].0,
            decreases idx - t,
        {
            if t > value_start {
                value.push(' ');
            }
            let (wa, wb) = tokens[t];
            let mut c = wa;
            while c < wb
                invariant
                    wa <= c <= wb <= item@.len(),
                    value_start < tokens@.len(),
                    t > value_start ==> value@.len() + (wb - c) <= wb - tokens@[value_start as int].0,
                    t == value_start ==> value@.len() + (wb - c) == wb - wa,
                decreases wb - c,
            {
                value.push(item[c]);
                c = c + 1;
            }
            t = t + 1;
        }
        if pb > pa && value.len() > 0 {
            assert(tokens@[value_start as int].0 > 0) by {
                assert(tokens@[value_start - 1].1 < tokens@[value_start as int].0);
            }
            let pattern = string_of_range(item, pa, pb);
            let v = parse_expr(&value, span);
            arms.push(AstWhenArm { pattern, value: v, span });
        }
    }
    arms
}

} // verus!
