//! Parsing a whole Boon module.
use vstd::prelude::*;
use crate::syntax::{ParseError, ParsedLine, ParsedModule, ParsedRecordEntry, SourceLeaf, Span};
use crate::syntax::ast::{build_ast, lemma_entries_fit_from_flat};
use crate::syntax::collect::{
    collect_map_bindings, collect_module_calls, collect_state_steps, collect_text_literals,
    lines_total, parsed_line_fits, parsed_texts,
};
use crate::syntax::expr::is_lit;
use crate::syntax::records::{RecordLine, flat, line_model, parse_record_tree};
use crate::syntax::scan::{
    is_plain_key, line_ranges, lines_split, lines_start_right, nl_count, plain_key,
};
use crate::text::{
    byte_offset, chars_of, find, find_char_from, find_from, push_all, string_of, string_of_range, trim,
    trim_range,
};

verus! {

/// `q` is where a line of `s` starts.
pub open spec fn line_start(s: Seq<char>, q: int) -> bool {
    0 <= q < s.len() && (q == 0 || s[q - 1] == '\n')
}

/// The number of the first line that starts with a tab, if any.
pub open spec fn tab_line(s: Seq<char>) -> Option<nat> {
    if exists|q: int| line_start(s, q) && s[q] == '\t' {
        let q = choose|q: int|
            line_start(s, q) && s[q] == '\t' && forall|p: int|
                0 <= p < q ==> !(line_start(s, p) && s[p] == '\t');
        Some(1 + nl_count(s.take(q)))
    } else {
        None
    }
}

/// The longest source text that the parser takes: memory cannot hold more.
pub open spec fn source_fits(s: Seq<char>) -> bool {
    s.len() < usize::MAX / 16
}

/// The range starts with a tab.
pub open spec fn range_tab(v: Seq<char>, r: (usize, usize)) -> bool {
    r.0 < r.1 && v[r.0 as int] == '\t'
}

/// A line that starts with a tab is one of the ranges, and not an empty one.
proof fn lemma_tab_start_is_range(v: Seq<char>, ranges: Seq<(usize, usize)>, q: int) -> (j: int)
    requires
        lines_split(v, 0, v.len() as int, ranges),
        lines_start_right(v, 0, v.len() as int, ranges),
        line_start(v, q),
        v[q] == '\t',
    ensures
        0 <= j < ranges.len(),
        ranges[j].0 == q,
        range_tab(v, ranges[j]),
{
    let j = if q > 0 {
        assert(v[q - 1] == '\n');
        choose|j: int| 0 <= j < ranges.len() && ranges[j].0 == q
    } else {
        assert(ranges[0].0 == 0);
        0
    };
    assert(ranges[j].0 <= ranges[j].1);
    if ranges[j].0 == ranges[j].1 {
        assert(ranges[j] == ranges[j]);
        if j + 1 < ranges.len() {
            assert(v[ranges[j].1 as int] == '\n' || v[ranges[j].1 as int] == '\r');
        } else {
            assert(ranges[j].1 == v.len() || v[ranges[j].1 as int] == '\n' || v[ranges[j].1 as int]
                == '\r');
        }
    }
    j
}

/// The first line of `v` that starts with a tab, as its number.
fn first_tab_line(v: &Vec<char>, ranges: &Vec<(usize, usize)>) -> (r: Option<usize>)
    requires
        lines_split(v@, 0, v@.len() as int, ranges@),
        lines_start_right(v@, 0, v@.len() as int, ranges@),
        source_fits(v@),
    ensures
        match r {
            Some(n) => tab_line(v@) == Some(n as nat),
            None => tab_line(v@) is None,
        },
{
    let mut k: usize = 0;
    while k < ranges.len()
        invariant
            k <= ranges@.len(),
            lines_split(v@, 0, v@.len() as int, ranges@),
            lines_start_right(v@, 0, v@.len() as int, ranges@),
            forall|j: int| 0 <= j < k ==> !range_tab(v@, #[trigger] ranges@[j]),
        decreases ranges.len() - k,
    {
        let (a, b) = ranges[k];
        if a < b && v[a] == '\t' {
            proof {
                let q = a as int;
                assert(line_start(v@, q)) by {
                    assert(ranges@[k as int].0 == a);
                }
                assert forall|p: int| 0 <= p < q implies !(line_start(v@, p) && v@[p] == '\t') by {
                    if line_start(v@, p) && v@[p] == '\t' {
                        let j = lemma_tab_start_is_range(v@, ranges@, p);
                        if j >= k {
                            if j > k {
                                assert(ranges@[k as int].1 < ranges@[j].0);
                            }
                        }
                        assert(!range_tab(v@, ranges@[j]));
                    }
                }
                let w = choose|w: int|
                    line_start(v@, w) && v@[w] == '\t' && forall|p: int|
                        0 <= p < w ==> !(line_start(v@, p) && v@[p] == '\t');
                assert(w == q) by {
                    if w > q {
                        assert(!(line_start(v@, q) && v@[q] == '\t'));
                    }
                }
                assert(v@.take(q) =~= v@.subrange(0, q));
                assert(nl_count(v@.subrange(0, ranges@[k as int].0 as int)) == k);
            }
            return Some(k + 1);
        }
        k = k + 1;
    }
    proof {
        if exists|q: int| line_start(v@, q) && v@[q] == '\t' {
            let q = choose|q: int| line_start(v@, q) && v@[q] == '\t';
            let j = lemma_tab_start_is_range(v@, ranges@, q);
            assert(!range_tab(v@, ranges@[j]));
        }
    }
    None
}

/// A parsed line's text: non-empty, trimmed, not a comment.
pub open spec fn content_line(l: ParsedLine) -> bool {
    &&& l.text@.len() > 0
    &&& trim(l.text@) == l.text@
    &&& l.text@[0] != '#'
}

/// What the parser has gathered from the lines so far.
pub struct LineState {
    pub lines: Vec<ParsedLine>,
    pub record_lines: Vec<RecordLine>,
    pub source_leaves: Vec<SourceLeaf>,
    pub text_literals: Vec<crate::syntax::TextLiteral>,
    pub state_steps: Vec<crate::syntax::StateStep>,
    pub map_bindings: Vec<crate::syntax::MapBinding>,
    pub key_stack: Vec<(usize, Vec<char>)>,
}

impl LineState {
    pub open spec fn inv(&self) -> bool {
        &&& forall|j: int| 0 <= j < self.lines@.len() ==> content_line(#[trigger] self.lines@[j])
        &&& forall|j: int| 0 <= j < self.lines@.len() ==> parsed_line_fits(#[trigger] self.lines@[j])
        &&& forall|j: int|
            0 <= j < self.record_lines@.len() ==> plain_key((#[trigger] self.record_lines@[j]).key@)
                && self.record_lines@[j].key@.len() <= usize::MAX / 16
                && self.record_lines@[j].span.column <= usize::MAX / 2
    }
}

/// Records a `SOURCE` leaf at the path of the enclosing keys.
fn push_source_leaf(line: &[char], line_no: usize, st: &mut LineState)
    requires
        line@.len() < usize::MAX / 16,
        old(st).inv(),
    ensures
        final(st).inv(),
        final(st).lines == old(st).lines,
        final(st).record_lines == old(st).record_lines,
        final(st).key_stack == old(st).key_stack,
        final(st).text_literals == old(st).text_literals,
        final(st).state_steps == old(st).state_steps,
        final(st).map_bindings == old(st).map_bindings,
        final(st).source_leaves@.len() == old(st).source_leaves@.len() + 1,
        final(st).source_leaves@.take(old(st).source_leaves@.len() as int) == old(st).source_leaves@,
        final(st).source_leaves@.last().path@ == dot_joined(old(st).key_stack@, old(st).key_stack@.len() as int),
        final(st).source_leaves@.last().span.line == line_no,
        final(st).source_leaves@.last().span.column == match crate::text::first_occurrence(line@, "SOURCE"@) {
            Some(p) => crate::text::byte_len(line@.take(p)) + 1,
            None => 1,
        },
{
    let source_word = chars_of("SOURCE");
    let path = joined_path(&st.key_stack);
    let col = match find(line, &source_word) {
        Some(p) => byte_offset(line, p) + 1,
        None => 1,
    };
    st.source_leaves.push(SourceLeaf { path, span: Span { line: line_no, column: col } });
}

/// The record a trimmed line states: for `key: value` with a plain key,
/// the trimmed key and the trimmed value where it is not empty.
pub open spec fn line_record(trimmed: Seq<char>) -> Option<(Seq<char>, Option<Seq<char>>)> {
    match crate::syntax::collect::next_char(trimmed, 0, ':') {
        Some(c) => {
            let key = trim(trimmed.subrange(0, c));
            let value = trim(trimmed.subrange(c + 1, trimmed.len() as int));
            if plain_key(key) {
                Some((key, if value.len() > 0 { Some(value) } else { None }))
            } else {
                None
            }
        },
        None => None,
    }
}

/// Whether a trimmed line is a `SOURCE` leaf: a record whose value is
/// `SOURCE`, or, without a `:`, the word itself.
pub open spec fn line_is_source(trimmed: Seq<char>) -> bool {
    match crate::syntax::collect::next_char(trimmed, 0, ':') {
        Some(_) => match line_record(trimmed) {
            Some((_, Some(v))) => v == "SOURCE"@,
            _ => false,
        },
        None => trimmed == "SOURCE"@,
    }
}

/// The column of the `SOURCE` leaf on line `raw`: one past the bytes
/// before the first `SOURCE`.
pub open spec fn source_column(raw: Seq<char>) -> usize {
    match crate::text::first_occurrence(raw, "SOURCE"@) {
        Some(p) => (crate::text::byte_len(raw.take(p)) + 1) as usize,
        None => 1,
    }
}

/// The column of a line's text: one past the bytes of its indentation.
pub open spec fn text_column(raw: Seq<char>) -> usize {
    (crate::text::byte_len(raw.take(crate::text::lead_ws(raw) as int)) + 1) as usize
}

/// Records a `key: value` line, and a `SOURCE` leaf when the value or the
/// whole line is `SOURCE`.
fn record_or_source(line: &[char], trimmed: &[char], indent: usize, line_no: usize, st: &mut LineState)
    requires
        line@.len() < usize::MAX / 16,
        trimmed@.len() <= line@.len(),
        old(st).inv(),
    ensures
        final(st).inv(),
        final(st).lines == old(st).lines,
        final(st).text_literals == old(st).text_literals,
        final(st).state_steps == old(st).state_steps,
        final(st).map_bindings == old(st).map_bindings,
        match line_record(trimmed@) {
            Some((k, v)) => {
                let n = old(st).record_lines@.len();
                let m = old(st).key_stack@.len();
                &&& final(st).record_lines@.len() == n + 1
                &&& final(st).record_lines@.take(n as int) == old(st).record_lines@
                &&& final(st).record_lines@[n as int].key@ == k
                &&& final(st).record_lines@[n as int].indent == indent
                &&& final(st).record_lines@[n as int].span.line == line_no
                &&& match final(st).record_lines@[n as int].value {
                    Some(x) => v == Some(x@),
                    None => v is None,
                }
                &&& final(st).key_stack@.len() == m + 1
                &&& final(st).key_stack@.take(m as int) == old(st).key_stack@
                &&& final(st).key_stack@[m as int].0 == indent
                &&& final(st).key_stack@[m as int].1@ == k
            },
            None => final(st).record_lines == old(st).record_lines && final(st).key_stack == old(st).key_stack,
        },
        if line_is_source(trimmed@) {
            let n = old(st).source_leaves@.len();
            &&& final(st).source_leaves@.len() == n + 1
            &&& final(st).source_leaves@.take(n as int) == old(st).source_leaves@
            &&& final(st).source_leaves@[n as int].path@ == dot_joined(final(st).key_stack@, final(st).key_stack@.len() as int)
            &&& final(st).source_leaves@[n as int].span.line == line_no
            &&& final(st).source_leaves@[n as int].span.column == source_column(line@)
        } else {
            final(st).source_leaves == old(st).source_leaves
        },
{
    proof {
        reveal_strlit("SOURCE");
    }
    match find_char_from(trimmed, 0, ':') {
        Some(c) => {
            proof {
                crate::syntax::collect::lemma_next_char(trimmed@, 0, ':', c as int);
            }
            let (ka, kb) = trim_range(trimmed, 0, c);
            let key = &trimmed[ka..kb];
            assert(key@ == trim(trimmed@.subrange(0, c as int)));
            if is_plain_key(key) {
                let (va, vb) = trim_range(trimmed, c + 1, trimmed.len());
                let value = if va < vb {
                    Some(string_of_range(trimmed, va, vb))
                } else {
                    None
                };
                let key_col = match find_from(line, 0, key) {
                    Some(p) => byte_offset(line, p) + 1,
                    None => 1,
                };
                let ghost rl0 = st.record_lines@;
                st.record_lines.push(RecordLine {
                    indent,
                    key: string_of(key),
                    value,
                    span: Span { line: line_no, column: key_col },
                });
                assert(st.record_lines@.take(rl0.len() as int) =~= rl0);
                let mut key_copy: Vec<char> = Vec::new();
                push_all(&mut key_copy, key);
                let ghost ks0 = st.key_stack@;
                st.key_stack.push((indent, key_copy));
                assert(st.key_stack@.take(ks0.len() as int) =~= ks0);
                if is_lit(&trimmed[va..vb], "SOURCE") {
                    push_source_leaf(line, line_no, st);
                }
            }
        },
        None => {
            assert(crate::syntax::collect::next_char(trimmed@, 0, ':') is None);
            if is_lit(trimmed, "SOURCE") {
                push_source_leaf(line, line_no, st);
            }
        },
    }
}

/// Where the run of spaces that begins at `i` ends, going no further than `b`.
pub open spec fn space_end(v: Seq<char>, i: int, b: int) -> int
    decreases b - i,
{
    if i < b && 0 <= i < v.len() && v[i] == ' ' { space_end(v, i + 1, b) } else { i }
}

/// The key stack once the keys indented at `indent` or deeper are gone
/// from its top.
pub open spec fn popped(stack: Seq<(usize, Vec<char>)>, indent: usize) -> Seq<(usize, Vec<char>)>
    decreases stack.len(),
{
    if stack.len() > 0 && stack.last().0 >= indent { popped(stack.drop_last(), indent) } else { stack }
}

/// What a content line `t`, indented by `indent` spaces and numbered
/// `line_no`, adds to the gathered state `o`, giving `f`: the line itself,
/// its record and the enclosing keys, its `SOURCE` leaf, its text
/// literals, state steps and map bindings.
#[verifier::opaque]
pub open spec fn line_gathered(o: LineState, f: LineState, raw: Seq<char>, t: Seq<char>, indent: usize, line_no: usize) -> bool {
    let ks = popped(o.key_stack@, indent);
    &&& f.lines@.len() == o.lines@.len() + 1
    &&& f.lines@.take(o.lines@.len() as int) == o.lines@
    &&& f.lines@.last().text@ == t
    &&& f.lines@.last().span.line == line_no
    &&& f.lines@.last().span.column == text_column(raw)
    &&& crate::syntax::collect::literal_values(f.text_literals@) == crate::syntax::collect::literal_values(
        o.text_literals@,
    ) + crate::syntax::collect::text_values(t, 0)
    &&& crate::syntax::collect::step_pairs(f.state_steps@) == crate::syntax::collect::step_pairs(o.state_steps@)
        + crate::syntax::collect::steps_upto(t, t.len() as int)
    &&& crate::syntax::collect::bind_pairs(f.map_bindings@) == crate::syntax::collect::bind_pairs(o.map_bindings@)
        + crate::syntax::collect::map_binds(t, 0)
    &&& match line_record(t) {
        Some((k, v)) => {
            let n = o.record_lines@.len();
            &&& f.record_lines@.len() == n + 1
            &&& f.record_lines@.take(n as int) == o.record_lines@
            &&& f.record_lines@[n as int].key@ == k
            &&& f.record_lines@[n as int].indent == indent
            &&& f.record_lines@[n as int].span.line == line_no
            &&& match f.record_lines@[n as int].value {
                Some(x) => v == Some(x@),
                None => v is None,
            }
            &&& f.key_stack@.len() == ks.len() + 1
            &&& f.key_stack@.take(ks.len() as int) == ks
            &&& f.key_stack@[ks.len() as int].0 == indent
            &&& f.key_stack@[ks.len() as int].1@ == k
        },
        None => f.record_lines == o.record_lines && f.key_stack@ == ks,
    }
    &&& if line_is_source(t) {
        let n = o.source_leaves@.len();
        &&& f.source_leaves@.len() == n + 1
        &&& f.source_leaves@.take(n as int) == o.source_leaves@
        &&& f.source_leaves@[n as int].path@ == dot_joined(f.key_stack@, f.key_stack@.len() as int)
        &&& f.source_leaves@[n as int].span.line == line_no
        &&& f.source_leaves@[n as int].span.column == source_column(raw)
    } else {
        f.source_leaves == o.source_leaves
    }
}

/// Gathers what line `v[a..b]`, numbered `line_no`, holds.
fn process_line(v: &Vec<char>, a: usize, b: usize, line_no: usize, st: &mut LineState)
    requires
        a <= b <= v@.len(),
        source_fits(v@),
        old(st).inv(),
        lines_total(parsed_texts(old(st).lines@)) <= a,
    ensures
        final(st).inv(),
        lines_total(parsed_texts(final(st).lines@)) <= b + 1,
        ({
            let t = trim(v@.subrange(a as int, b as int));
            if t.len() == 0 || t[0] == '#' {
                *final(st) == *old(st)
            } else {
                line_gathered(*old(st), *final(st), v@.subrange(a as int, b as int), t, (space_end(v@, a as int, b as int) - a) as usize, line_no)
            }
        }),
{
    proof {
        assert(v@.subrange(a as int, b as int).len() <= v@.len());
    }
    let line = &v[a..b];
    let (t0, t1) = trim_range(v, a, b);
    if t0 == t1 || v[t0] == '#' {
        return;
    }
    let trimmed = &v[t0..t1];
    let text = string_of(trimmed);
    proof {
        assert(trimmed@ == trim(v@.subrange(a as int, b as int)));
        crate::text::lemma_lead_ws_bound(v@.subrange(a as int, b as int));
        crate::text::lemma_trail_ws_bound(crate::text::trim_start(v@.subrange(a as int, b as int)));
        crate::text::lemma_trim_of_nonws_ends(trimmed@);
    }
    let column = byte_offset(line, t0 - a) + 1;
    let ghost before = st.lines@;
    st.lines.push(ParsedLine { text, span: Span { line: line_no, column } });
    proof {
        assert(parsed_texts(st.lines@).drop_last() =~= parsed_texts(before));
    }
    let mut indent: usize = 0;
    while a + indent < b && v[a + indent] == ' '
        invariant
            a + indent <= b <= v@.len(),
            space_end(v@, a + indent, b as int) == space_end(v@, a as int, b as int),
        decreases b - a - indent,
    {
        indent = indent + 1;
    }
    let ghost lines_now = st.lines;
    let ghost s1 = *st;
    while st.key_stack.len() > 0 && st.key_stack[st.key_stack.len() - 1].0 >= indent
        invariant
            st.inv(),
            st.lines == lines_now,
            st.record_lines == s1.record_lines,
            st.source_leaves == s1.source_leaves,
            st.text_literals == s1.text_literals,
            st.state_steps == s1.state_steps,
            st.map_bindings == s1.map_bindings,
            popped(st.key_stack@, indent) == popped(s1.key_stack@, indent),
        decreases st.key_stack.len(),
    {
        let ghost k0 = st.key_stack@;
        st.key_stack.pop();
        assert(st.key_stack@ =~= k0.drop_last());
    }
    assert(st.key_stack@ == popped(s1.key_stack@, indent));
    record_or_source(line, trimmed, indent, line_no, st);
    collect_text_literals(trimmed, line_no, &mut st.text_literals);
    collect_state_steps(trimmed, line_no, &mut st.state_steps);
    collect_map_bindings(trimmed, line_no, &mut st.map_bindings);
    assert(indent == (space_end(v@, a as int, b as int) - a) as usize);
    assert(st.lines@.last().text@ == trimmed@);
    assert(st.lines@.take(before.len() as int) =~= before);
    proof {
        reveal(line_gathered);
    }
    assert(line_gathered(*old(st), *st, line@, trimmed@, indent, line_no));
}

/// The key stack with the keys indented at `indent` or deeper gone from
/// its top, over plain keys.
pub open spec fn popped_keys(stack: Seq<(usize, Seq<char>)>, indent: usize) -> Seq<(usize, Seq<char>)>
    decreases stack.len(),
{
    if stack.len() > 0 && stack.last().0 >= indent { popped_keys(stack.drop_last(), indent) } else { stack }
}

/// The first `n` keys joined by `.`, over plain keys.
pub open spec fn joined_keys(stack: Seq<(usize, Seq<char>)>, n: int) -> Seq<char>
    decreases n,
{
    if n <= 0 {
        Seq::empty()
    } else if n == 1 {
        stack[0].1
    } else {
        joined_keys(stack, n - 1) + seq!['.'] + stack[n - 1].1
    }
}

/// The key stack as plain values.
pub open spec fn stack_view(s: Seq<(usize, Vec<char>)>) -> Seq<(usize, Seq<char>)> {
    s.map_values(|p: (usize, Vec<char>)| (p.0, p.1@))
}

pub proof fn lemma_popped_view(s: Seq<(usize, Vec<char>)>, indent: usize)
    ensures
        stack_view(popped(s, indent)) == popped_keys(stack_view(s), indent),
    decreases s.len(),
{
    if s.len() > 0 && s.last().0 >= indent {
        assert(stack_view(s.drop_last()) =~= stack_view(s).drop_last());
        lemma_popped_view(s.drop_last(), indent);
    }
}

pub proof fn lemma_joined_view(s: Seq<(usize, Vec<char>)>, n: int)
    requires
        n <= s.len(),
    ensures
        dot_joined(s, n) == joined_keys(stack_view(s), n),
    decreases n,
{
    if n > 1 {
        lemma_joined_view(s, n - 1);
    }
}

/// The `k`-th line of `v`, whose bounds are `rs`.
pub open spec fn line_raw(v: Seq<char>, rs: Seq<(usize, usize)>, k: int) -> Seq<char> {
    v.subrange(rs[k].0 as int, rs[k].1 as int)
}

/// The trimmed text of the `k`-th line of `v`, whose bounds are `rs`.
pub open spec fn line_t(v: Seq<char>, rs: Seq<(usize, usize)>, k: int) -> Seq<char> {
    trim(v.subrange(rs[k].0 as int, rs[k].1 as int))
}

/// Whether the `k`-th line is kept: not blank and no `#` comment.
pub open spec fn line_kept(v: Seq<char>, rs: Seq<(usize, usize)>, k: int) -> bool {
    line_t(v, rs, k).len() > 0 && line_t(v, rs, k)[0] != '#'
}

/// The number of spaces that indent the `k`-th line.
pub open spec fn line_indent(v: Seq<char>, rs: Seq<(usize, usize)>, k: int) -> usize {
    (space_end(v, rs[k].0 as int, rs[k].1 as int) - rs[k].0) as usize
}

/// The kept lines among the first `n`: trimmed text, line number and
/// column.
pub open spec fn gathered_lines(v: Seq<char>, rs: Seq<(usize, usize)>, n: int) -> Seq<(Seq<char>, usize, usize)>
    decreases n,
{
    if n <= 0 {
        Seq::empty()
    } else {
        let before = gathered_lines(v, rs, n - 1);
        if line_kept(v, rs, n - 1) {
            before.push((line_t(v, rs, n - 1), n as usize, text_column(line_raw(v, rs, n - 1))))
        } else {
            before
        }
    }
}

/// The record lines among the first `n`: indentation, key, value and
/// line number.
pub open spec fn gathered_records(v: Seq<char>, rs: Seq<(usize, usize)>, n: int) -> Seq<(usize, Seq<char>, Option<Seq<char>>, usize)>
    decreases n,
{
    if n <= 0 {
        Seq::empty()
    } else {
        let before = gathered_records(v, rs, n - 1);
        if line_kept(v, rs, n - 1) {
            match line_record(line_t(v, rs, n - 1)) {
                Some((k, val)) => before.push((line_indent(v, rs, n - 1), k, val, n as usize)),
                None => before,
            }
        } else {
            before
        }
    }
}

/// The enclosing keys after the first `n` lines.
pub open spec fn gathered_stack(v: Seq<char>, rs: Seq<(usize, usize)>, n: int) -> Seq<(usize, Seq<char>)>
    decreases n,
{
    if n <= 0 {
        Seq::empty()
    } else {
        let before = gathered_stack(v, rs, n - 1);
        if line_kept(v, rs, n - 1) {
            let ks = popped_keys(before, line_indent(v, rs, n - 1));
            match line_record(line_t(v, rs, n - 1)) {
                Some((k, _)) => ks.push((line_indent(v, rs, n - 1), k)),
                None => ks,
            }
        } else {
            before
        }
    }
}

/// The `SOURCE` leaves among the first `n` lines: the enclosing keys
/// joined by `.`, the line number and the column of `SOURCE`.
pub open spec fn gathered_leaves(v: Seq<char>, rs: Seq<(usize, usize)>, n: int) -> Seq<(Seq<char>, usize, usize)>
    decreases n,
{
    if n <= 0 {
        Seq::empty()
    } else {
        let before = gathered_leaves(v, rs, n - 1);
        if line_kept(v, rs, n - 1) && line_is_source(line_t(v, rs, n - 1)) {
            let ks = gathered_stack(v, rs, n);
            before.push((joined_keys(ks, ks.len() as int), n as usize, source_column(line_raw(v, rs, n - 1))))
        } else {
            before
        }
    }
}

/// The text literal values of the first `n` lines.
pub open spec fn gathered_literals(v: Seq<char>, rs: Seq<(usize, usize)>, n: int) -> Seq<Seq<char>>
    decreases n,
{
    if n <= 0 {
        Seq::empty()
    } else {
        gathered_literals(v, rs, n - 1) + if line_kept(v, rs, n - 1) {
            crate::syntax::collect::text_values(line_t(v, rs, n - 1), 0)
        } else {
            Seq::empty()
        }
    }
}

/// The state steps of the first `n` lines.
pub open spec fn gathered_steps(v: Seq<char>, rs: Seq<(usize, usize)>, n: int) -> Seq<(Seq<char>, i64)>
    decreases n,
{
    if n <= 0 {
        Seq::empty()
    } else {
        gathered_steps(v, rs, n - 1) + if line_kept(v, rs, n - 1) {
            crate::syntax::collect::steps_upto(line_t(v, rs, n - 1), line_t(v, rs, n - 1).len() as int)
        } else {
            Seq::empty()
        }
    }
}

/// The `List/map` bindings of the first `n` lines.
pub open spec fn gathered_binds(v: Seq<char>, rs: Seq<(usize, usize)>, n: int) -> Seq<(Seq<char>, Seq<char>)>
    decreases n,
{
    if n <= 0 {
        Seq::empty()
    } else {
        gathered_binds(v, rs, n - 1) + if line_kept(v, rs, n - 1) {
            crate::syntax::collect::map_binds(line_t(v, rs, n - 1), 0)
        } else {
            Seq::empty()
        }
    }
}

/// Parsed lines as plain values: text, line number and column.
pub open spec fn lines_view(ls: Seq<ParsedLine>) -> Seq<(Seq<char>, usize, usize)> {
    ls.map_values(|l: ParsedLine| (l.text@, l.span.line, l.span.column))
}

/// Record lines as plain values.
pub open spec fn record_lines_view(ls: Seq<RecordLine>) -> Seq<(usize, Seq<char>, Option<Seq<char>>, usize)> {
    ls.map_values(|l: RecordLine| (l.indent, l.key@, crate::syntax::records::opt_text(l.value), l.span.line))
}

/// `SOURCE` leaves as plain values: path, line number and column.
pub open spec fn leaves_view(ls: Seq<SourceLeaf>) -> Seq<(Seq<char>, usize, usize)> {
    ls.map_values(|l: SourceLeaf| (l.path@, l.span.line, l.span.column))
}

/// The gathered state is what the first `n` lines of `v` give.
#[verifier::opaque]
pub open spec fn gathered(st: LineState, v: Seq<char>, rs: Seq<(usize, usize)>, n: int) -> bool {
    &&& lines_view(st.lines@) == gathered_lines(v, rs, n)
    &&& record_lines_view(st.record_lines@) == gathered_records(v, rs, n)
    &&& stack_view(st.key_stack@) == gathered_stack(v, rs, n)
    &&& leaves_view(st.source_leaves@) == gathered_leaves(v, rs, n)
    &&& crate::syntax::collect::literal_values(st.text_literals@) == gathered_literals(v, rs, n)
    &&& crate::syntax::collect::step_pairs(st.state_steps@) == gathered_steps(v, rs, n)
    &&& crate::syntax::collect::bind_pairs(st.map_bindings@) == gathered_binds(v, rs, n)
}

/// The records of a parsed module follow its record lines `recs`: in
/// document order, the same keys, values and line numbers, up to a line
/// indented where no record opens one; the top level at indentation zero,
/// each record's children the level of the deeper lines after it.
pub open spec fn records_follow(es: Seq<ParsedRecordEntry>, recs: Seq<(usize, Seq<char>, Option<Seq<char>>, usize)>) -> bool {
    let f = flat(es);
    &&& f.len() <= recs.len()
    &&& forall|j: int| 0 <= j < f.len() ==> (#[trigger] f[j]).0 == recs[j].1 && f[j].1.line == recs[j].3
        && crate::syntax::records::flat_values(es)[j] == recs[j].2
    &&& f.len() < recs.len() ==> recs[f.len() as int].0 > 0
    &&& crate::syntax::records::entries_at(es, recs.map_values(|x: (usize, Seq<char>, Option<Seq<char>>, usize)| x.0), 0, 0)
}

/// Processing line `k` takes the gathered state of the first `k` lines to
/// that of the first `k + 1`.
#[verifier::spinoff_prover]
#[verifier::rlimit(100)]
pub proof fn lemma_gathered_step(o: LineState, f: LineState, v: Seq<char>, rs: Seq<(usize, usize)>, k: int)
    requires
        0 <= k < rs.len(),
        k + 1 <= usize::MAX,
        gathered(o, v, rs, k),
        if !line_kept(v, rs, k) {
            f == o
        } else {
            line_gathered(o, f, line_raw(v, rs, k), line_t(v, rs, k), line_indent(v, rs, k), (k + 1) as usize)
        },
    ensures
        gathered(f, v, rs, k + 1),
{
    reveal(gathered);
    reveal(line_gathered);
    if line_kept(v, rs, k) {
        let t = line_t(v, rs, k);
        let ind = line_indent(v, rs, k);
        let ln = (k + 1) as usize;
        assert forall|j: int| 0 <= j < o.lines@.len() implies f.lines@[j] == o.lines@[j] by {
            assert(f.lines@.take(o.lines@.len() as int)[j] == f.lines@[j]);
        }
        assert(lines_view(f.lines@) =~= lines_view(o.lines@).push((t, ln, text_column(line_raw(v, rs, k)))));
        let ks = popped(o.key_stack@, ind);
        lemma_popped_view(o.key_stack@, ind);
        match line_record(t) {
            Some((key, val)) => {
                let n = o.record_lines@.len();
                assert forall|j: int| 0 <= j < n implies f.record_lines@[j] == o.record_lines@[j] by {
                    assert(f.record_lines@.take(n as int)[j] == f.record_lines@[j]);
                }
                assert(crate::syntax::records::opt_text(f.record_lines@[n as int].value) == val);
                assert(record_lines_view(f.record_lines@) =~= record_lines_view(o.record_lines@).push((ind, key, val, ln)));
                assert forall|j: int| 0 <= j < ks.len() implies f.key_stack@[j] == ks[j] by {
                    assert(f.key_stack@.take(ks.len() as int)[j] == f.key_stack@[j]);
                }
                assert(stack_view(f.key_stack@) =~= stack_view(ks).push((ind, key)));
            },
            None => {
                assert(stack_view(f.key_stack@) == stack_view(ks));
            },
        }
        assert(stack_view(f.key_stack@) == gathered_stack(v, rs, k + 1));
        if line_is_source(t) {
            let n = o.source_leaves@.len();
            assert forall|j: int| 0 <= j < n implies f.source_leaves@[j] == o.source_leaves@[j] by {
                assert(f.source_leaves@.take(n as int)[j] == f.source_leaves@[j]);
            }
            lemma_joined_view(f.key_stack@, f.key_stack@.len() as int);
            assert(leaves_view(f.source_leaves@) =~= leaves_view(o.source_leaves@).push(
                (joined_keys(stack_view(f.key_stack@), stack_view(f.key_stack@).len() as int), ln, source_column(line_raw(v, rs, k))),
            ));
        }
        assert(gathered_literals(v, rs, k + 1) == gathered_literals(v, rs, k) + crate::syntax::collect::text_values(t, 0));
        assert(gathered_steps(v, rs, k + 1) == gathered_steps(v, rs, k) + crate::syntax::collect::steps_upto(t, t.len() as int));
        assert(gathered_binds(v, rs, k + 1) == gathered_binds(v, rs, k) + crate::syntax::collect::map_binds(t, 0));
    } else {
        assert(gathered_literals(v, rs, k + 1) =~= gathered_literals(v, rs, k));
        assert(gathered_steps(v, rs, k + 1) =~= gathered_steps(v, rs, k));
        assert(gathered_binds(v, rs, k + 1) =~= gathered_binds(v, rs, k));
    }
}

/// A parsed module is what the lines `rs` of `v` give: its kept lines, its
/// records, its `SOURCE` leaves, text literals, state steps and map
/// bindings.
#[verifier::opaque]
pub open spec fn module_follows(m: ParsedModule, v: Seq<char>, rs: Seq<(usize, usize)>) -> bool {
    let n = rs.len() as int;
    &&& lines_view(m.lines@) == gathered_lines(v, rs, n)
    &&& records_follow(m.records@, gathered_records(v, rs, n))
    &&& leaves_view(m.source_leaves@) == gathered_leaves(v, rs, n)
    &&& crate::syntax::collect::literal_values(m.text_literals@) == gathered_literals(v, rs, n)
    &&& crate::syntax::collect::step_pairs(m.state_steps@) == gathered_steps(v, rs, n)
    &&& crate::syntax::collect::bind_pairs(m.map_bindings@) == gathered_binds(v, rs, n)
}

/// What a successful parse of `src` under `name` gives.
pub open spec fn parse_result(name: Seq<char>, src: Seq<char>, m: ParsedModule) -> bool {
    &&& tab_line(src) is None
    &&& m.name@ == name
    &&& m.ast.name@ == name
    &&& forall|j: int| 0 <= j < m.lines@.len() ==> content_line(#[trigger] m.lines@[j])
    &&& forall|j: int| 0 <= j < flat(m.records@).len() ==> plain_key(#[trigger] flat(m.records@)[j].0)
    &&& m.ast.items@.len() >= m.records@.len()
    &&& exists|rs: Seq<(usize, usize)>| lines_split(src, 0, src.len() as int, rs) && module_follows(m, src, rs)
    &&& crate::syntax::collect::call_paths(m.module_calls@) == crate::syntax::collect::module_tokens(
        m.lines@,
        m.lines@.len() as int,
    )
    &&& forall|k: int| 0 <= k < m.records@.len() ==> crate::syntax::ast::item_mirrors(#[trigger] m.ast.items@[k], m.records@[k])
    &&& crate::syntax::ast::ast_tail_ok(m.ast.items@, m.records@.len() as int, m.lines@)
}

/// Parses a Boon module: its lines, record tree, `SOURCE` leaves, module
/// calls, text literals, state steps, `List/map` bindings and AST.  A line
/// indented with a tab is refused with the number of the first such line.
#[verifier::spinoff_prover]
#[verifier::rlimit(100)]
pub fn parse_module(name: &str, src: &str) -> (r: Result<ParsedModule, ParseError>)
    requires
        source_fits(src@),
    ensures
        match r {
            Err(ParseError::TabIndent { line }) => tab_line(src@) == Some(line as nat),
            Ok(m) => parse_result(name@, src@, m),
        },
{
    let v = chars_of(src);
    let ranges = line_ranges(&v, 0, v.len());
    if let Some(line) = first_tab_line(&v, &ranges) {
        return Err(ParseError::TabIndent { line });
    }
    let mut st = LineState {
        lines: Vec::new(),
        record_lines: Vec::new(),
        source_leaves: Vec::new(),
        text_literals: Vec::new(),
        state_steps: Vec::new(),
        map_bindings: Vec::new(),
        key_stack: Vec::new(),
    };
    assert(parsed_texts(st.lines@) =~= Seq::<Seq<char>>::empty());
    proof {
        reveal(gathered);
    }
    assert(lines_view(st.lines@) =~= gathered_lines(v@, ranges@, 0));
    assert(record_lines_view(st.record_lines@) =~= gathered_records(v@, ranges@, 0));
    assert(stack_view(st.key_stack@) =~= gathered_stack(v@, ranges@, 0));
    assert(leaves_view(st.source_leaves@) =~= gathered_leaves(v@, ranges@, 0));
    assert(crate::syntax::collect::literal_values(st.text_literals@) =~= gathered_literals(v@, ranges@, 0));
    assert(crate::syntax::collect::step_pairs(st.state_steps@) =~= gathered_steps(v@, ranges@, 0));
    assert(crate::syntax::collect::bind_pairs(st.map_bindings@) =~= gathered_binds(v@, ranges@, 0));
    let mut k: usize = 0;
    while k < ranges.len()
        invariant
            k <= ranges@.len(),
            v@ == src@,
            source_fits(v@),
            lines_split(v@, 0, v@.len() as int, ranges@),
            st.inv(),
            k < ranges@.len() ==> lines_total(parsed_texts(st.lines@)) <= ranges@[k as int].0,
            k == ranges@.len() ==> lines_total(parsed_texts(st.lines@)) <= v@.len() + 1,
            gathered(st, v@, ranges@, k as int),
        decreases ranges.len() - k,
    {
        let (a, b) = ranges[k];
        let ghost o = st;
        process_line(&v, a, b, k + 1, &mut st);
        proof {
            lemma_gathered_step(o, st, v@, ranges@, k as int);
        }
        k = k + 1;
    }
    let ghost rs = ranges@;
    let ghost nl = ranges@.len() as int;
    proof {
        reveal(gathered);
    }
    let LineState { lines, record_lines, source_leaves, text_literals, state_steps, map_bindings, key_stack: _ } = st;
    let module_calls = collect_module_calls(&lines);
    let records = parse_record_tree(&record_lines);
    proof {
        let f = flat(records@);
        assert forall|j: int| 0 <= j < f.len() implies (#[trigger] f[j]).0.len() <= usize::MAX / 16
            && f[j].1.column <= usize::MAX / 2 by {
            assert(f[j] == line_model(record_lines@)[j]);
        }
        lemma_entries_fit_from_flat(records@);
        assert forall|j: int| 0 <= j < f.len() implies plain_key(#[trigger] f[j].0) by {
            assert(f[j] == line_model(record_lines@)[j]);
        }
    }
    proof {
        let recs = gathered_records(v@, rs, nl);
        let f = flat(records@);
        assert forall|j: int| 0 <= j < f.len() implies (#[trigger] f[j]).0 == recs[j].1 && f[j].1.line == recs[j].3
            && crate::syntax::records::flat_values(records@)[j] == recs[j].2 by {
            assert(f[j] == line_model(record_lines@)[j]);
            assert(record_lines_view(record_lines@)[j] == recs[j]);
            assert(crate::syntax::records::flat_values(records@)[j] == crate::syntax::records::line_values(record_lines@)[j]);
        }
        if f.len() < recs.len() {
            assert(record_lines_view(record_lines@)[f.len() as int] == recs[f.len() as int]);
        }
        assert(crate::syntax::records::line_indents(record_lines@) =~= recs.map_values(
            |x: (usize, Seq<char>, Option<Seq<char>>, usize)| x.0,
        ));
        assert(records_follow(records@, recs));
    }
    proof {
        reveal(module_follows);
    }
    let ast = build_ast(name, &lines, &records);
    let m = ParsedModule {
        name: name.to_owned(),
        ast,
        lines,
        records,
        source_leaves,
        module_calls,
        text_literals,
        state_steps,
        map_bindings,
    };
    assert(v@ == src@);
    assert(lines_split(src@, 0, src@.len() as int, rs) && module_follows(m, src@, rs));
    Ok(m)
}

/// The first `n` keys of the stack joined by `.`.
pub open spec fn dot_joined(stack: Seq<(usize, Vec<char>)>, n: int) -> Seq<char>
    decreases n,
{
    if n <= 0 {
        Seq::empty()
    } else if n == 1 {
        stack[0].1@
    } else {
        dot_joined(stack, n - 1) + seq!['.'] + stack[n - 1].1@
    }
}

/// The keys of the stack joined by `.`.
fn joined_path(stack: &Vec<(usize, Vec<char>)>) -> (r: String)
    ensures
        r@ == dot_joined(stack@, stack@.len() as int),
{
    let mut out: Vec<char> = Vec::new();
    let mut i: usize = 0;
    while i < stack.len()
        invariant
            i <= stack@.len(),
            out@ == dot_joined(stack@, i as int),
        decreases stack.len() - i,
    {
        if i > 0 {
            out.push('.');
        }
        push_all(&mut out, &stack[i].1);
        assert(out@ =~= dot_joined(stack@, i + 1));
        i = i + 1;
    }
    string_of(&out)
}

} // verus!
