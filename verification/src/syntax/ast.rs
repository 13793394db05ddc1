//! The module AST: record trees with parsed values, `FUNCTION` definitions
//! and free-standing expression blocks.
use vstd::prelude::*;
use crate::syntax::{AstExpr, AstFunction, AstItem, AstModule, AstRecord, ParsedLine, ParsedRecordEntry, Span};
use crate::syntax::expr::{is_lit, lit_at, parse_expr};
use crate::syntax::records::flat;
use crate::syntax::scan::{brace_delta, delimiter_delta, is_identifier_path, is_plain_key, plain_key};
use crate::text::{
    byte_len, byte_offset, chars_of, chars_of_string, contains, contains_seq, find_char_from,
    has_prefix, lead_ws, push_all, string_of_range, trim, trim_range, ws_char,
};

verus! {

/// A record entry whose key and column are small enough to place the span
/// of its value.
pub open spec fn entry_ok(e: ParsedRecordEntry) -> bool {
    e.key@.len() <= usize::MAX / 16 && e.span.column <= usize::MAX / 2
}

/// Every entry of a record forest is [`entry_ok`].
pub open spec fn entries_fit(es: Seq<ParsedRecordEntry>) -> bool
    decreases es,
{
    if es.len() == 0 {
        true
    } else {
        let e = es[es.len() - 1];
        proof {
            assert(decreases_to!(es => es[es.len() - 1]));
        }
        entries_fit(es.drop_last()) && entry_ok(e) && entries_fit(e.children@)
    }
}

pub proof fn lemma_entries_fit_each(es: Seq<ParsedRecordEntry>, i: int)
    requires
        entries_fit(es),
        0 <= i < es.len(),
    ensures
        entry_ok(es[i]),
        entries_fit(es[i].children@),
    decreases es.len(),
{
    if i < es.len() - 1 {
        lemma_entries_fit_each(es.drop_last(), i);
        assert(es.drop_last()[i] == es[i]);
    }
}

/// A forest whose flattened keys and spans are all small fits.
pub proof fn lemma_entries_fit_from_flat(es: Seq<ParsedRecordEntry>)
    requires
        forall|j: int|
            0 <= j < flat(es).len() ==> (#[trigger] flat(es)[j]).0.len() <= usize::MAX / 16
                && flat(es)[j].1.column <= usize::MAX / 2,
    ensures
        entries_fit(es),
    decreases es,
{
    if es.len() > 0 {
        let e = es[es.len() - 1];
        let f = flat(es);
        let a = flat(es.drop_last());
        let c = flat(e.children@);
        assert(f == a + seq![(e.key@, e.span)] + c);
        assert forall|j: int| 0 <= j < a.len() implies (#[trigger] a[j]).0.len() <= usize::MAX / 16
            && a[j].1.column <= usize::MAX / 2 by {
            assert(f[j] == a[j]);
        }
        assert forall|j: int| 0 <= j < c.len() implies (#[trigger] c[j]).0.len() <= usize::MAX / 16
            && c[j].1.column <= usize::MAX / 2 by {
            assert(f[a.len() + 1 + j] == c[j]);
        }
        assert(f[a.len() as int] == (e.key@, e.span));
        assert(decreases_to!(es => es[es.len() - 1]));
        lemma_entries_fit_from_flat(es.drop_last());
        lemma_entries_fit_from_flat(e.children@);
    }
}

/// An expression block of the lines: its text, the span of its first line,
/// and the line number of the key it stands under as that key's value.
pub struct ExprBlock {
    pub raw: Vec<char>,
    pub span: Span,
    pub under: Option<usize>,
}

/// Whether some expression block stands as the value under the key of
/// the given line.
pub open spec fn value_block(blocks: Seq<ExprBlock>, line: usize) -> bool {
    exists|k: int| 0 <= k < blocks.len() && blocks[k].under == Some(line)
}

/// The expression block standing under the key of the given line, parsed,
/// if any.
fn block_under(blocks: &Vec<ExprBlock>, line: usize) -> (r: Option<AstExpr>)
    ensures
        r is Some <==> value_block(blocks@, line),
{
    let mut k: usize = 0;
    while k < blocks.len()
        invariant
            k <= blocks@.len(),
            forall|j: int| 0 <= j < k ==> blocks@[j].under != Some(line),
        decreases blocks.len() - k,
    {
        match blocks[k].under {
            Some(l) => {
                if l == line {
                    return Some(parse_expr(&blocks[k].raw, blocks[k].span));
                }
            },
            None => {},
        }
        k = k + 1;
    }
    None
}

/// The AST record of a parsed record entry: its value text parsed as an
/// expression placed just after `key:`, or else the expression block that
/// stands under the key, and its children likewise.
pub fn ast_record(record: &ParsedRecordEntry, blocks: &Vec<ExprBlock>) -> (r: AstRecord)
    requires
        entry_ok(*record),
        entries_fit(record.children@),
    ensures
        r.key@ == record.key@,
        r.span == record.span,
        r.value is Some <==> (record.value is Some || value_block(blocks@, record.span.line)),
        r.children@.len() == record.children@.len(),
        value_parsed(r.value, record.value),
    decreases record,
{
    let value = match &record.value {
        Some(v) => {
            let key = chars_of_string(&record.key);
            let vc = chars_of_string(v);
            let column = record.span.column + byte_offset(&key, key.len()) + 1;
            Some(parse_expr(&vc, Span { line: record.span.line, column }))
        },
        None => block_under(blocks, record.span.line),
    };
    let mut children: Vec<AstRecord> = Vec::new();
    let mut i: usize = 0;
    while i < record.children.len()
        invariant
            i <= record.children@.len(),
            children@.len() == i,
            entries_fit(record.children@),
        decreases record.children.len() - i,
    {
        proof {
            lemma_entries_fit_each(record.children@, i as int);
            assert(decreases_to!(*record => record.children));
            assert(decreases_to!(record.children => record.children@));
            assert(decreases_to!(record.children@ => record.children@[i as int]));
        }
        children.push(ast_record(&record.children[i], blocks));
        i = i + 1;
    }
    AstRecord { key: record.key.clone(), value, span: record.span, children }
}

/// Whether a line opens an expression block.
pub open spec fn expression_start(t: Seq<char>) -> bool {
    ||| contains_seq(t, "|>"@)
    ||| has_prefix(t, "LIST {"@)
    ||| has_prefix(t, "BLOCK {"@)
    ||| has_prefix(t, "LATEST {"@)
    ||| has_prefix(t, "WHEN {"@)
    ||| has_prefix(t, "THEN {"@)
    ||| has_prefix(t, "Document/"@)
    ||| has_prefix(t, "Element/"@)
}

pub fn is_expression_start(text: &[char]) -> (r: bool)
    ensures
        r == expression_start(text@),
{
    let pipe = chars_of("|>");
    contains(text, &pipe) || lit_at(text, 0, "LIST {") || lit_at(text, 0, "BLOCK {") || lit_at(
        text,
        0,
        "LATEST {",
    ) || lit_at(text, 0, "WHEN {") || lit_at(text, 0, "THEN {") || lit_at(text, 0, "Document/")
        || lit_at(text, 0, "Element/")
}

/// Whether a line is `key: ...` with a plain key before its first colon.
pub open spec fn plain_record_line(t: Seq<char>) -> bool {
    exists|c: int|
        0 <= c < t.len() && t[c] == ':' && (forall|j: int| 0 <= j < c ==> t[j] != ':') && plain_key(
            trim(t.subrange(0, c)),
        )
}

pub fn is_plain_record_line(text: &[char]) -> (r: bool)
    ensures
        r == plain_record_line(text@),
{
    match find_char_from(text, 0, ':') {
        Some(c) => {
            let (a, b) = trim_range(text, 0, c);
            let r = is_plain_key(&text[a..b]);
            proof {
                if !r {
                    assert forall|d: int|
                        0 <= d < text@.len() && text@[d] == ':' && (forall|j: int|
                            0 <= j < d ==> text@[j] != ':') implies !plain_key(
                        trim(text@.subrange(0, d)),
                    ) by {
                        assert(d == c) by {
                            if d < c {
                                assert(text@[d] != ':');
                            }
                            if d > c {
                                assert(text@[c as int] != ':');
                            }
                        }
                    }
                }
            }
            r
        },
        None => false,
    }
}

/// The bounds of the inside of a text wrapped in `{` ... `}`.
pub open spec fn brace_inner(v: Seq<char>) -> (int, int) {
    let t = crate::text::trim_bounds(v, 0, v.len() as int);
    let a_end = if t.1 > t.0 && v[t.1 - 1] == '}' { t.1 - 1 } else { t.1 };
    let a = crate::text::trim_bounds(v, t.0, a_end);
    if a.0 < a.1 && v[a.0] == '{' { crate::text::trim_bounds(v, a.0 + 1, a.1) } else { a }
}

/// The inside of a text wrapped in `{` ... `}`: trimmed, without a final
/// `}`, then without a leading `{`, trimmed again.
pub fn trim_wrapping_braces(v: &[char]) -> (r: (usize, usize))
    ensures
        r.0 <= r.1 <= v@.len(),
        (r.0 as int, r.1 as int) == brace_inner(v@),
{
    let (t0, t1) = trim_range(v, 0, v.len());
    let a_end = if t1 > t0 && v[t1 - 1] == '}' {
        t1 - 1
    } else {
        t1
    };
    let (a0, a1) = trim_range(v, t0, a_end);
    if a0 < a1 && v[a0] == '{' {
        trim_range(v, a0 + 1, a1)
    } else {
        (a0, a1)
    }
}

/// The span is the span of one of the lines.
pub open spec fn span_of_some_line(lines: Seq<ParsedLine>, s: Span) -> bool {
    exists|j: int| 0 <= j < lines.len() && lines[j].span == s
}

fn line_texts(lines: &Vec<ParsedLine>) -> (r: Vec<Vec<char>>)
    ensures
        r@.len() == lines@.len(),
        forall|k: int| 0 <= k < lines@.len() ==> (#[trigger] r@[k])@ == trim(lines@[k].text@),
{
    let mut texts: Vec<Vec<char>> = Vec::new();
    let mut i: usize = 0;
    while i < lines.len()
        invariant
            i <= lines@.len(),
            texts@.len() == i,
            forall|k: int| 0 <= k < i ==> (#[trigger] texts@[k])@ == trim(lines@[k].text@),
        decreases lines.len() - i,
    {
        let t = chars_of_string(&lines[i].text);
        let (a, b) = trim_range(&t, 0, t.len());
        assert(t@.subrange(0, t@.len() as int) =~= t@);
        texts.push(crate::text::slice_range(&t, a, b));
        i = i + 1;
    }
    texts
}

/// The trimmed text of line `k`.
pub open spec fn line_text(lines: Seq<ParsedLine>, k: int) -> Seq<char> {
    trim(lines[k].text@)
}

/// Where a function body that starts at line `cursor`, with the brace
/// depth at `depth`, ends: after the first line that brings the depth to
/// zero or below, or at the end of the lines.
pub open spec fn body_end(lines: Seq<ParsedLine>, cursor: int, depth: int) -> int
    decreases lines.len() - cursor,
{
    if cursor < 0 || cursor >= lines.len() {
        cursor
    } else {
        let d2 = depth + crate::syntax::scan::brace_delta_spec(line_text(lines, cursor));
        if d2 <= 0 { cursor + 1 } else { body_end(lines, cursor + 1, d2) }
    }
}

/// The names and spans of the function definitions from line `idx` on: a
/// trimmed line that starts with `FUNCTION `, has a `(` after that and a
/// `)` after the `(`, and whose trimmed text between `FUNCTION ` and the
/// `(` is an identifier path; the lines of its body are not searched.
pub open spec fn function_headers(lines: Seq<ParsedLine>, idx: int) -> Seq<(Seq<char>, Span)>
    decreases lines.len() - idx,
{
    if idx < 0 || idx >= lines.len() {
        Seq::empty()
    } else {
        let t = line_text(lines, idx);
        if !crate::text::occurs_at(t, 0, "FUNCTION "@) {
            function_headers(lines, idx + 1)
        } else {
            match crate::syntax::collect::next_char(t, 9, '(') {
                None => function_headers(lines, idx + 1),
                Some(open) => match crate::syntax::collect::next_char(t, open + 1, ')') {
                    None => function_headers(lines, idx + 1),
                    Some(_) => {
                        let name = trim(t.subrange(9, open));
                        if !crate::syntax::scan::identifier_path(name) {
                            function_headers(lines, idx + 1)
                        } else {
                            let e = body_end(lines, idx + 1, crate::syntax::scan::brace_delta_spec(t));
                            if idx < e <= lines.len() {
                                seq![(name, lines[idx].span)] + function_headers(lines, e)
                            } else {
                                Seq::empty()
                            }
                        }
                    },
                },
            }
        }
    }
}

/// The names and spans of functions.
pub open spec fn function_pairs(v: Seq<AstFunction>) -> Seq<(Seq<char>, Span)> {
    v.map_values(|f: AstFunction| (f.name@, f.span))
}

/// The `FUNCTION name(params) { body }` definitions of the lines, each
/// placed at its header line.
#[verifier::spinoff_prover]
#[verifier::rlimit(100)]
pub fn collect_ast_functions(lines: &Vec<ParsedLine>) -> (r: Vec<AstFunction>)
    ensures
        forall|k: int|
            0 <= k < r@.len() ==> span_of_some_line(lines@, (#[trigger] r@[k]).span),
        forall|k: int| 0 <= k < r@.len() ==> crate::syntax::scan::identifier_path((#[trigger] r@[k]).name@),
        function_pairs(r@) == function_headers(lines@, 0),
{
    let texts = line_texts(lines);
    let mut functions: Vec<AstFunction> = Vec::new();
    let mut idx: usize = 0;
    assert(function_pairs(functions@) + function_headers(lines@, 0) =~= function_headers(lines@, 0));
    while idx < texts.len()
        invariant
            texts@.len() == lines@.len(),
            idx <= texts@.len(),
            forall|k: int|
                0 <= k < functions@.len() ==> span_of_some_line(lines@, (#[trigger] functions@[k]).span),
            forall|k: int|
                0 <= k < functions@.len() ==> crate::syntax::scan::identifier_path(
                    (#[trigger] functions@[k]).name@,
                ),
            forall|k: int| 0 <= k < lines@.len() ==> (#[trigger] texts@[k])@ == line_text(lines@, k),
            function_pairs(functions@) + function_headers(lines@, idx as int) == function_headers(lines@, 0),
        decreases texts.len() - idx,
    {
        let text = &texts[idx];
        assert(text@ == line_text(lines@, idx as int));
        if !lit_at(text, 0, "FUNCTION ") {
            idx = idx + 1;
            continue;
        }
        proof {
            reveal_strlit("FUNCTION ");
        }
        let sig = 9usize;
        let open = match find_char_from(text, sig, '(') {
            Some(o) => o,
            None => {
                assert(crate::syntax::collect::next_char(text@, 9, '(') is None);
                idx = idx + 1;
                continue;
            },
        };
        assert(open < text@.len());
        proof {
            crate::syntax::collect::lemma_next_char(text@, 9, '(', open as int);
        }
        let close = match find_char_from(text, open + 1, ')') {
            Some(c) => c,
            None => {
                assert(crate::syntax::collect::next_char(text@, open + 1, ')') is None);
                idx = idx + 1;
                continue;
            },
        };
        proof {
            crate::syntax::collect::lemma_next_char(text@, open + 1, ')', close as int);
        }
        let (na, nb) = trim_range(text, sig, open);
        assert(text@.subrange(na as int, nb as int) == trim(text@.subrange(9, open as int)));
        if !is_identifier_path(&text[na..nb]) {
            idx = idx + 1;
            continue;
        }
        let name = string_of_range(text, na, nb);
        let mut params: Vec<String> = Vec::new();
        let mut ps = open + 1;
        let mut pi = open + 1;
        while pi <= close
            invariant
                open < ps <= pi <= close + 1,
                close < text@.len(),
                text@.len() == text.len(),
            decreases close + 1 - pi,
        {
            if pi == close || text[pi] == ',' {
                let (pa, pb) = trim_range(text, ps, pi);
                if pa < pb {
                    params.push(string_of_range(text, pa, pb));
                }
                ps = pi + 1;
            }
            pi = pi + 1;
        }
        let mut block: Vec<char> = Vec::new();
        let mut depth: i128 = brace_delta(text);
        let mut cursor = idx + 1;
        let ghost e = body_end(lines@, idx + 1, crate::syntax::scan::brace_delta_spec(text@));
        while cursor < texts.len()
            invariant_except_break
                idx < cursor <= texts@.len(),
                texts@.len() == lines@.len(),
                forall|k: int| 0 <= k < lines@.len() ==> (#[trigger] texts@[k])@ == line_text(lines@, k),
                e == body_end(lines@, idx + 1, crate::syntax::scan::brace_delta_spec(text@)),
                body_end(lines@, cursor as int, depth as int) == e,
                text@.len() <= usize::MAX,
                -(text@.len() + block@.len()) <= depth <= text@.len() + block@.len(),
                block@.len() == block.len(),
            ensures
                cursor == e,
                idx < cursor <= texts@.len(),
                block@.len() == block.len(),
            decreases texts.len() - cursor,
        {
            let body_line = &texts[cursor];
            assert(body_line@.len() == body_line.len());
            depth = depth + brace_delta(body_line);
            push_all(&mut block, body_line);
            block.push('\n');
            cursor = cursor + 1;
            if depth <= 0 {
                break;
            }
        }
        let (ba, bb) = trim_wrapping_braces(&block);
        let span = lines[idx].span;
        let body = parse_expr(&block[ba..bb], span);
        assert(span_of_some_line(lines@, span)) by {
            assert(lines@[idx as int].span == span);
        }
        let ghost fb = function_pairs(functions@);
        let item = AstFunction { name, params, body, span };
        functions.push(item);
        assert(function_pairs(functions@) =~= fb.push((item.name@, item.span)));
        assert(function_headers(lines@, idx as int) == seq![(item.name@, item.span)] + function_headers(lines@, cursor as int));
        assert(function_pairs(functions@) + function_headers(lines@, cursor as int) =~= fb + function_headers(lines@, idx as int));
        idx = cursor;
    }
    assert(function_pairs(functions@) + Seq::<(Seq<char>, Span)>::empty() =~= function_pairs(functions@));
    functions
}

/// Whether the line after `idx` continues a pipeline: past its leading
/// whitespace it starts with `|>`.
fn next_is_pipe(texts: &Vec<Vec<char>>, idx: usize) -> (r: bool)
    ensures
        r == (idx + 1 < texts@.len() && crate::text::occurs_at(
            texts@[idx + 1]@,
            crate::text::lead_ws(texts@[idx + 1]@) as int,
            "|>"@,
        )),
{
    if texts.len() > 0 && idx < texts.len() - 1 {
        let t = &texts[idx + 1];
        let (a, _) = trim_range(t, 0, t.len());
        assert(t@.subrange(0, t@.len() as int) =~= t@);
        lit_at(t, a, "|>")
    } else {
        false
    }
}

/// Whether a key line with nothing after its colon (`prev`) is followed by
/// a line (`text`) that is neither a record line nor a bare `SOURCE`.
pub open spec fn key_line_opens(prev: Seq<char>, text: Seq<char>) -> bool {
    &&& plain_record_line(prev)
    &&& !plain_record_line(text)
    &&& text != "SOURCE"@
    &&& crate::text::first_of(prev, ':') >= 0
    &&& trim(prev.subrange(crate::text::first_of(prev, ':') + 1, prev.len() as int)).len() == 0
}

/// Where the line before `idx` is a key with nothing after its colon
/// (`key:`), and the line at `idx`, indented deeper, is neither a record
/// line nor a bare `SOURCE`, the line at `idx` opens the key's value: the
/// line number of the key.
fn value_under_key(lines: &Vec<ParsedLine>, texts: &Vec<Vec<char>>, idx: usize) -> (r: Option<usize>)
    requires
        texts@.len() == lines@.len(),
        idx < texts@.len(),
    ensures
        r matches Some(l) ==> idx > 0 && l == lines@[idx - 1].span.line,
        r is Some <==> idx > 0 && key_line_opens(texts@[idx - 1]@, texts@[idx as int]@)
            && lines@[idx as int].span.column > lines@[idx - 1].span.column,
{
    if idx == 0 {
        return None;
    }
    let prev = &texts[idx - 1];
    let text = &texts[idx];
    if !is_plain_record_line(prev) || is_plain_record_line(text) || is_lit(text, "SOURCE") {
        return None;
    }
    if lines[idx].span.column <= lines[idx - 1].span.column {
        return None;
    }
    let prev_chars: &[char] = prev.as_slice();
    match crate::text::index_of_char(prev_chars, ':') {
        Some(c) => {
            assert(c < prev_chars.len());
            let (a, b) = trim_range(prev_chars, c + 1, prev_chars.len());
            if a == b {
                Some(lines[idx - 1].span.line)
            } else {
                None
            }
        },
        None => None,
    }
}

/// Whether the line after `k` continues a pipeline: past its leading
/// whitespace it starts with `|>`.
pub open spec fn pipe_follows(lines: Seq<ParsedLine>, k: int) -> bool {
    k + 1 < lines.len() && crate::text::occurs_at(
        line_text(lines, k + 1),
        crate::text::lead_ws(line_text(lines, k + 1)) as int,
        "|>"@,
    )
}

/// The line number of the key whose value line `k` opens, if it does.
pub open spec fn under_key(lines: Seq<ParsedLine>, k: int) -> Option<usize> {
    if k > 0 && key_line_opens(line_text(lines, k - 1), line_text(lines, k)) && lines[k].span.column
        > lines[k - 1].span.column {
        Some(lines[k - 1].span.line)
    } else {
        None
    }
}

/// Whether line `k` starts an expression block: it is no function's
/// header line, it opens an expression, is followed by a `|>` line or is
/// the value under a key, and it is no plain record line.
pub open spec fn block_start(lines: Seq<ParsedLine>, fl: Seq<usize>, k: int) -> bool {
    let t = line_text(lines, k);
    &&& !fl.contains(lines[k].span.line)
    &&& (expression_start(t) || pipe_follows(lines, k) || under_key(lines, k) is Some)
    &&& !plain_record_line(t)
}

/// Where the block that starts at line `k` ends, scanning from `cursor`
/// with delimiter depth `depth`: before a later plain record line (not a
/// `|>` or `=>` line) at depth zero or below, or after the first line that
/// leaves the depth at zero or below and is not followed by a `|>` line.
pub open spec fn block_stop(lines: Seq<ParsedLine>, k: int, cursor: int, depth: int) -> int
    decreases lines.len() - cursor,
{
    if cursor < 0 || cursor >= lines.len() {
        cursor
    } else {
        let line = line_text(lines, cursor);
        if cursor > k && depth <= 0 && plain_record_line(line) && !crate::text::occurs_at(line, 0, "|>"@)
            && !crate::text::contains_seq(line, "=>"@) {
            cursor
        } else {
            let d2 = depth + crate::syntax::scan::delimiter_delta_spec(line);
            if d2 <= 0 && !pipe_follows(lines, cursor) {
                cursor + 1
            } else {
                block_stop(lines, k, cursor + 1, d2)
            }
        }
    }
}

/// The span and key line of each expression block from line `idx` on.
pub open spec fn blocks_from(lines: Seq<ParsedLine>, fl: Seq<usize>, idx: int) -> Seq<(Span, Option<usize>)>
    decreases lines.len() - idx,
{
    if idx < 0 || idx >= lines.len() {
        Seq::empty()
    } else if !block_start(lines, fl, idx) {
        blocks_from(lines, fl, idx + 1)
    } else {
        let c = block_stop(lines, idx, idx, 0);
        let next = if c > idx + 1 { c } else { idx + 1 };
        seq![(lines[idx].span, under_key(lines, idx))] + if next <= lines.len() {
            blocks_from(lines, fl, next)
        } else {
            Seq::empty()
        }
    }
}

/// The spans and key lines of expression blocks.
pub open spec fn block_pairs(v: Seq<ExprBlock>) -> Seq<(Span, Option<usize>)> {
    v.map_values(|b: ExprBlock| (b.span, b.under))
}

/// The expression blocks of the lines: a line that opens an expression,
/// is followed by a `|>` line, or stands as the value under a key of its
/// own line, starts a block that runs to balanced delimiters and the end
/// of its pipeline. Each block comes with the line number of the key it
/// is the value of, if any.
#[verifier::spinoff_prover]
#[verifier::rlimit(100)]
pub fn collect_ast_expression_blocks(lines: &Vec<ParsedLine>, function_lines: &Vec<usize>) -> (r: Vec<ExprBlock>)
    ensures
        forall|k: int|
            0 <= k < r@.len() ==> span_of_some_line(lines@, (#[trigger] r@[k]).span),
        block_pairs(r@) == blocks_from(lines@, function_lines@, 0),
{
    let texts = line_texts(lines);
    let mut expressions: Vec<ExprBlock> = Vec::new();
    let mut idx: usize = 0;
    assert(block_pairs(expressions@) + blocks_from(lines@, function_lines@, 0) =~= blocks_from(lines@, function_lines@, 0));
    while idx < texts.len()
        invariant
            texts@.len() == lines@.len(),
            idx <= texts@.len(),
            forall|k: int| 0 <= k < lines@.len() ==> (#[trigger] texts@[k])@ == line_text(lines@, k),
            block_pairs(expressions@) + blocks_from(lines@, function_lines@, idx as int) == blocks_from(lines@, function_lines@, 0),
            forall|k: int|
                0 <= k < expressions@.len() ==> span_of_some_line(lines@, (#[trigger] expressions@[k]).span),
        decreases texts.len() - idx,
    {
        let mut is_function_line = false;
        let mut f: usize = 0;
        while f < function_lines.len()
            invariant
                f <= function_lines@.len(),
                idx < lines@.len(),
                is_function_line == exists|j: int| 0 <= j < f && function_lines@[j] == lines@[idx as int].span.line,
            decreases function_lines.len() - f,
        {
            if function_lines[f] == lines[idx].span.line {
                is_function_line = true;
            }
            f = f + 1;
        }
        assert(is_function_line == function_lines@.contains(lines@[idx as int].span.line));
        if is_function_line {
            idx = idx + 1;
            continue;
        }
        let text = &texts[idx];
        assert(text@ == line_text(lines@, idx as int));
        assert(idx > 0 ==> texts@[idx - 1]@ == line_text(lines@, idx - 1));
        assert(idx + 1 < texts@.len() ==> texts@[idx + 1]@ == line_text(lines@, idx + 1));
        let under = value_under_key(lines, &texts, idx);
        let starts = is_expression_start(text) || next_is_pipe(&texts, idx) || under.is_some();
        if !starts || is_plain_record_line(text) {
            idx = idx + 1;
            continue;
        }
        let span = lines[idx].span;
        let mut raw: Vec<char> = Vec::new();
        let mut depth: i128 = 0;
        let mut cursor = idx;
        let pipe = chars_of("|>");
        let arrow = chars_of("=>");
        proof {
            reveal_strlit("=>");
        }
        let ghost c = block_stop(lines@, idx as int, idx as int, 0);
        while cursor < texts.len()
            invariant_except_break
                idx <= cursor <= texts@.len(),
                -(raw@.len() as int) <= depth <= raw@.len(),
                raw@.len() == raw.len(),
                texts@.len() == lines@.len(),
                arrow@ == "=>"@,
                forall|k: int| 0 <= k < lines@.len() ==> (#[trigger] texts@[k])@ == line_text(lines@, k),
                c == block_stop(lines@, idx as int, idx as int, 0),
                block_stop(lines@, idx as int, cursor as int, depth as int) == c,
            ensures
                idx <= cursor <= texts@.len(),
                cursor == c,
            decreases texts.len() - cursor,
        {
            let line = &texts[cursor];
            assert(line@ == line_text(lines@, cursor as int));
            assert(cursor + 1 < texts@.len() ==> texts@[cursor + 1]@ == line_text(lines@, cursor + 1));
            if cursor > idx && depth <= 0 && is_plain_record_line(line) && !lit_at(line, 0, "|>")
                && !contains(line, &arrow) {
                break;
            }
            assert(line@.len() == line.len());
            push_all(&mut raw, line);
            raw.push('\n');
            depth = depth + delimiter_delta(line);
            cursor = cursor + 1;
            if depth <= 0 && !next_is_pipe(&texts, cursor - 1) {
                break;
            }
        }
        assert(span_of_some_line(lines@, span)) by {
            assert(lines@[idx as int].span == span);
        }
        let ghost eb = block_pairs(expressions@);
        let item = ExprBlock { raw, span, under };
        expressions.push(item);
        assert(block_pairs(expressions@) =~= eb.push((item.span, item.under)));
        let next = if cursor > idx + 1 {
            cursor
        } else {
            idx + 1
        };
        assert(block_pairs(expressions@) + blocks_from(lines@, function_lines@, next as int) =~= eb + blocks_from(
            lines@,
            function_lines@,
            idx as int,
        ));
        idx = next;
    }
    assert(block_pairs(expressions@) + Seq::<(Span, Option<usize>)>::empty() =~= block_pairs(expressions@));
    expressions
}

/// The item is the AST record of the entry: same key, same span, and an
/// inline value parsed from the value text.
pub open spec fn item_mirrors(item: AstItem, e: ParsedRecordEntry) -> bool {
    match item {
        AstItem::Record(rec) => rec.key@ == e.key@ && rec.span == e.span && value_parsed(rec.value, e.value),
        _ => false,
    }
}

/// Where the entry has a value text, the record's value is its parse: the
/// trimmed text, of the kind the text parses to.
pub open spec fn value_parsed(value: Option<AstExpr>, text: Option<String>) -> bool {
    match text {
        Some(v) => match value {
            Some(x) => x.raw@ == trim(v@) && crate::syntax::expr::parses_as(x.kind, trim(v@)),
            None => false,
        },
        None => true,
    }
}

/// The line numbers of function headers.
pub open spec fn header_lines(fs: Seq<(Seq<char>, Span)>) -> Seq<usize> {
    fs.map_values(|f: (Seq<char>, Span)| f.1.line)
}

/// The spans of the expression blocks that are no key's value, in order.
pub open spec fn free_block_spans(bs: Seq<(Span, Option<usize>)>) -> Seq<Span>
    decreases bs.len(),
{
    if bs.len() == 0 {
        Seq::empty()
    } else {
        let before = free_block_spans(bs.drop_last());
        if bs.last().1 is None { before.push(bs.last().0) } else { before }
    }
}

/// The items of a module AST after its records: the functions, as
/// (name, span), then the free expression blocks, as spans.
#[verifier::opaque]
pub open spec fn ast_tail_ok(items: Seq<AstItem>, n: int, lines: Seq<ParsedLine>) -> bool {
    let fs = function_headers(lines, 0);
    let es = free_block_spans(blocks_from(lines, header_lines(fs), 0));
    &&& items.len() == n + fs.len() + es.len()
    &&& forall|j: int| 0 <= j < fs.len() ==> match #[trigger] items[n + j] {
        AstItem::Function(f) => f.name@ == fs[j].0 && f.span == fs[j].1,
        _ => false,
    }
    &&& forall|j: int| 0 <= j < es.len() ==> match #[trigger] items[n + fs.len() + j] {
        AstItem::Expression(e) => e.span == es[j],
        _ => false,
    }
}

/// The module AST: the records, each with its value, then the functions,
/// then the expression blocks outside function headers that are no key's
/// value.
#[verifier::spinoff_prover]
#[verifier::rlimit(100)]
pub fn build_ast(name: &str, lines: &Vec<ParsedLine>, records: &Vec<ParsedRecordEntry>) -> (r: AstModule)
    requires
        entries_fit(records@),
    ensures
        r.name@ == name@,
        r.items@.len() >= records@.len(),
        forall|k: int|
            0 <= k < records@.len() ==> item_mirrors(#[trigger] r.items@[k], records@[k]),
        ast_tail_ok(r.items@, records@.len() as int, lines@),
{
    let functions = collect_ast_functions(lines);
    let ghost fs = function_headers(lines@, 0);
    let mut function_lines: Vec<usize> = Vec::new();
    let mut i: usize = 0;
    while i < functions.len()
        invariant
            i <= functions@.len(),
            function_pairs(functions@) == fs,
            function_lines@ == header_lines(fs).take(i as int),
        decreases functions.len() - i,
    {
        function_lines.push(functions[i].span.line);
        assert(function_lines@ =~= header_lines(fs).take(i + 1));
        i = i + 1;
    }
    assert(function_lines@ =~= header_lines(fs));
    let blocks = collect_ast_expression_blocks(lines, &function_lines);
    let ghost es = free_block_spans(blocks_from(lines@, header_lines(fs), 0));
    let mut items: Vec<AstItem> = Vec::new();
    let mut k: usize = 0;
    while k < records.len()
        invariant
            k <= records@.len(),
            items@.len() == k,
            entries_fit(records@),
            forall|j: int|
                0 <= j < k ==> item_mirrors(#[trigger] items@[j], records@[j]),
        decreases records.len() - k,
    {
        proof {
            lemma_entries_fit_each(records@, k as int);
        }
        items.push(AstItem::Record(ast_record(&records[k], &blocks)));
        k = k + 1;
    }
    let ghost nr = records@.len() as int;
    let mut functions = functions;
    while functions.len() > 0
        invariant
            items@.len() >= records@.len(),
            forall|j: int|
                0 <= j < records@.len() ==> item_mirrors(#[trigger] items@[j], records@[j]),
            nr == records@.len(),
            items@.len() + functions@.len() == nr + fs.len(),
            function_pairs(functions@) == fs.subrange(items@.len() - nr, fs.len() as int),
            forall|j: int| 0 <= j < items@.len() - nr ==> match #[trigger] items@[nr + j] {
                AstItem::Function(f) => f.name@ == fs[j].0 && f.span == fs[j].1,
                _ => false,
            },
        decreases functions.len(),
    {
        let ghost f0 = functions@;
        let ghost i0 = items@;
        let f = functions.remove(0);
        assert(function_pairs(f0)[0] == (f.name@, f.span));
        assert(function_pairs(functions@) =~= function_pairs(f0).drop_first());
        items.push(AstItem::Function(f));
        assert forall|j: int| 0 <= j < items@.len() - nr implies match #[trigger] items@[nr + j] {
            AstItem::Function(f) => f.name@ == fs[j].0 && f.span == fs[j].1,
            _ => false,
        } by {
            if j < i0.len() - nr {
                assert(items@[nr + j] == i0[nr + j]);
            }
        }
        assert(forall|j: int| 0 <= j < records@.len() ==> items@[j] == i0[j]);
    }
    let ghost bs = blocks_from(lines@, header_lines(fs), 0);
    let ghost nf = nr + fs.len();
    let block_count = blocks.len();
    let mut exprs = blocks;
    let mut taken: usize = 0;
    assert(block_count == bs.len()) by {
        assert(block_pairs(exprs@).len() == exprs@.len());
    }
    assert(bs.take(0) =~= Seq::<(Span, Option<usize>)>::empty());
    while exprs.len() > 0
        invariant
            items@.len() >= records@.len(),
            forall|j: int|
                0 <= j < records@.len() ==> item_mirrors(#[trigger] items@[j], records@[j]),
            nr == records@.len(),
            nf == nr + fs.len(),
            items@.len() >= nf,
            bs == blocks_from(lines@, header_lines(fs), 0),
            es == free_block_spans(bs),
            taken + exprs@.len() == bs.len(),
            bs.len() <= usize::MAX,
            block_pairs(exprs@) == bs.subrange(taken as int, bs.len() as int),
            items@.len() - nf == free_block_spans(bs.take(taken as int)).len(),
            forall|j: int| 0 <= j < fs.len() ==> match #[trigger] items@[nr + j] {
                AstItem::Function(f) => f.name@ == fs[j].0 && f.span == fs[j].1,
                _ => false,
            },
            forall|j: int| 0 <= j < items@.len() - nf ==> match #[trigger] items@[nf + j] {
                AstItem::Expression(e) => e.span == free_block_spans(bs.take(taken as int))[j],
                _ => false,
            },
        decreases exprs.len(),
    {
        let ghost x0 = exprs@;
        let ghost i0 = items@;
        let ghost fb = free_block_spans(bs.take(taken as int));
        let block = exprs.remove(0);
        assert(block_pairs(x0)[0] == (block.span, block.under));
        assert(bs[taken as int] == (block.span, block.under));
        assert(block_pairs(exprs@) =~= block_pairs(x0).drop_first());
        assert(bs.take(taken + 1).drop_last() =~= bs.take(taken as int));
        if block.under.is_none() {
            items.push(AstItem::Expression(parse_expr(&block.raw, block.span)));
            assert(free_block_spans(bs.take(taken + 1)) == fb.push(block.span));
        } else {
            assert(free_block_spans(bs.take(taken + 1)) == fb);
        }
        assert(forall|j: int| 0 <= j < i0.len() ==> items@[j] == i0[j]);
        taken = taken + 1;
    }
    assert(bs.take(bs.len() as int) =~= bs);
    proof {
        reveal(ast_tail_ok);
    }
    AstModule { name: name.to_owned(), items }
}

} // verus!
