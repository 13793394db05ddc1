//! Line-level facts that the parser gathers besides the AST: text literals,
//! state steps, `List/map` bindings and module calls.
use vstd::prelude::*;
use crate::syntax::{CallArg, MapBinding, ModuleCall, ParsedLine, Span, StateStep, TextLiteral};
use crate::syntax::expr::lit_at;
use crate::text::{
    byte_len, byte_offset, chars_of, chars_of_string, find_char_from, find_from, is_alpha,
    is_digit, is_upper, is_word, lead_ws, parse_i64, string_of_range, trim_range, word_char,
    ws_char, upper_char, digit_char, alnum_char, trim,
};

verus! {

/// The longest line that the collectors take.
pub open spec fn line_fits(n: int) -> bool {
    n <= usize::MAX / 16
}

/// ASCII whitespace: space, tab, newline, form feed, carriage return.
pub open spec fn is_ascii_ws(c: char) -> bool {
    c == ' ' || c == '\t' || c == '\n' || c == '\x0C' || c == '\r'
}

fn ascii_ws_char(c: char) -> (r: bool)
    ensures
        r == is_ascii_ws(c),
{
    c == ' ' || c == '\t' || c == '\n' || c == '\x0C' || c == '\r'
}

/// The first position at or after `from` where `p` occurs in `s`.
pub open spec fn next_from(s: Seq<char>, from: int, p: Seq<char>) -> Option<int> {
    if exists|i: int| from <= i && crate::text::occurs_at(s, i, p) {
        Some(choose|i: int| from <= i && crate::text::occurs_at(s, i, p)
            && forall|j: int| from <= j < i ==> !crate::text::occurs_at(s, j, p))
    } else {
        None
    }
}

pub proof fn lemma_next_from(s: Seq<char>, from: int, p: Seq<char>, i: int)
    requires
        from <= i,
        crate::text::occurs_at(s, i, p),
        forall|j: int| from <= j < i ==> !crate::text::occurs_at(s, j, p),
    ensures
        next_from(s, from, p) == Some(i),
{
    let w = choose|w: int| from <= w && crate::text::occurs_at(s, w, p)
        && forall|j: int| from <= j < w ==> !crate::text::occurs_at(s, j, p);
    if w < i {
        assert(!crate::text::occurs_at(s, w, p));
    }
    if w > i {
        assert(!crate::text::occurs_at(s, i, p));
    }
}

/// The first position at or after `from` that holds `c`.
pub open spec fn next_char(s: Seq<char>, from: int, c: char) -> Option<int> {
    if exists|i: int| from <= i < s.len() && s[i] == c {
        Some(choose|i: int| from <= i < s.len() && s[i] == c && forall|j: int| from <= j < i ==> s[j] != c)
    } else {
        None
    }
}

pub proof fn lemma_next_char(s: Seq<char>, from: int, c: char, i: int)
    requires
        from <= i < s.len(),
        s[i] == c,
        forall|j: int| from <= j < i ==> s[j] != c,
    ensures
        next_char(s, from, c) == Some(i),
{
    let w = choose|w: int| from <= w < s.len() && s[w] == c && forall|j: int| from <= j < w ==> s[j] != c;
    if w < i {
        assert(s[w] != c);
    }
    if w > i {
        assert(s[i] != c);
    }
}

/// The trimmed values of the `TEXT { value }` literals of `line` from
/// `offset` on: each runs from a `TEXT {` to the next `}`.
#[verifier::opaque]
pub open spec fn text_values(line: Seq<char>, offset: int) -> Seq<Seq<char>>
    decreases line.len() + 1 - offset,
{
    if offset > line.len() {
        Seq::empty()
    } else {
        match next_from(line, offset, "TEXT {"@) {
            Some(idx) => match next_char(line, idx + 6, '}') {
                Some(end) => if offset <= end < line.len() { seq![trim(line.subrange(idx + 6, end))] + text_values(line, end + 1) } else { Seq::empty() },
                None => Seq::empty(),
            },
            None => Seq::empty(),
        }
    }
}

proof fn lemma_text_values_step(line: Seq<char>, offset: int, idx: int, end: int)
    requires
        offset <= line.len(),
        next_from(line, offset, "TEXT {"@) == Some(idx),
        next_char(line, idx + 6, '}') == Some(end),
        offset <= end < line.len(),
    ensures
        text_values(line, offset) == seq![trim(line.subrange(idx + 6, end))] + text_values(line, end + 1),
{
    reveal(text_values);
}

proof fn lemma_text_values_stop(line: Seq<char>, offset: int)
    requires
        offset > line.len() || next_from(line, offset, "TEXT {"@) is None
            || (next_from(line, offset, "TEXT {"@) matches Some(idx) && next_char(line, idx + 6, '}') is None),
    ensures
        text_values(line, offset) == Seq::<Seq<char>>::empty(),
{
    reveal(text_values);
}

/// The values of literals.
pub open spec fn literal_values(v: Seq<TextLiteral>) -> Seq<Seq<char>> {
    v.map_values(|t: TextLiteral| t.value@)
}

/// Appends each `TEXT { value }` of `line`, in order, with its trimmed
/// value and the byte column of `TEXT`.
#[verifier::spinoff_prover]
#[verifier::rlimit(60)]
pub fn collect_text_literals(line: &[char], line_no: usize, literals: &mut Vec<TextLiteral>)
    requires
        line_fits(line@.len() as int),
    ensures
        final(literals)@.len() >= old(literals)@.len(),
        final(literals)@.subrange(0, old(literals)@.len() as int) == old(literals)@,
        forall|k: int|
            old(literals)@.len() <= k < final(literals)@.len() ==> (#[trigger] final(literals)@[k]).span.line
                == line_no,
        literal_values(final(literals)@) == literal_values(old(literals)@) + text_values(line@, 0),
{
    let pat = chars_of("TEXT {");
    proof {
        reveal_strlit("TEXT {");
    }
    assert(pat@.len() == 6);
    let ghost start_len = literals@.len();
    let mut offset: usize = 0;
    loop
        invariant
            offset <= line@.len() + 1,
            line_fits(line@.len() as int),
            pat@.len() == 6,
            literals@.len() >= start_len,
            literals@.subrange(0, start_len as int) == old(literals)@,
            start_len == old(literals)@.len(),
            forall|k: int| start_len <= k < literals@.len() ==> (#[trigger] literals@[k]).span.line == line_no,
            pat@ == "TEXT {"@,
            literal_values(old(literals)@) + text_values(line@, 0) == literal_values(literals@) + text_values(line@, offset as int),
        ensures
            literals@.len() >= start_len,
            literals@.subrange(0, start_len as int) == old(literals)@,
            forall|k: int| start_len <= k < literals@.len() ==> (#[trigger] literals@[k]).span.line == line_no,
            literal_values(literals@) == literal_values(old(literals)@) + text_values(line@, 0),
        decreases line.len() + 1 - offset,
    {
        if offset > line.len() {
            proof {
                lemma_text_values_stop(line@, offset as int);
            }
            assert(literal_values(literals@) + Seq::<Seq<char>>::empty() =~= literal_values(literals@));
            break;
        }
        let idx = match find_from(line, offset, &pat) {
            Some(i) => i,
            None => {
                proof {
                    lemma_text_values_stop(line@, offset as int);
                }
                assert(literal_values(literals@) + Seq::<Seq<char>>::empty() =~= literal_values(literals@));
                break;
            },
        };
        proof {
            lemma_next_from(line@, offset as int, pat@, idx as int);
        }
        let start = idx + 6;
        let end = match find_char_from(line, start, '}') {
            Some(e) => e,
            None => {
                proof {
                    lemma_text_values_stop(line@, offset as int);
                }
                assert(literal_values(literals@) + Seq::<Seq<char>>::empty() =~= literal_values(literals@));
                break;
            },
        };
        proof {
            lemma_next_char(line@, start as int, '}', end as int);
        }
        let (a, b) = trim_range(line, start, end);
        let value = string_of_range(line, a, b);
        let column = byte_offset(line, idx) + 1;
        let ghost before = literals@;
        literals.push(TextLiteral { value, span: Span { line: line_no, column } });
        assert(literals@.subrange(0, start_len as int) =~= before.subrange(0, start_len as int));
        assert(literal_values(literals@) =~= literal_values(before).push(trim(line@.subrange(start as int, end as int))));
        proof {
            lemma_text_values_step(line@, offset as int, idx as int, end as int);
        }
        assert(literal_values(literals@) + text_values(line@, end + 1) =~= literal_values(before) + text_values(line@, offset as int));
        offset = end + 1;
    }
}

/// Where a run of ASCII whitespace that ends at `e` begins.
pub open spec fn ws_back(line: Seq<char>, e: int) -> int
    decreases e,
{
    if e > 0 && is_ascii_ws(line[e - 1]) { ws_back(line, e - 1) } else { e }
}

/// Where a run of word characters that ends at `e` begins.
pub open spec fn word_back(line: Seq<char>, e: int) -> int
    decreases e,
{
    if e > 0 && is_word(line[e - 1]) { word_back(line, e - 1) } else { e }
}

/// Where a run of ASCII whitespace that begins at `s` ends.
pub open spec fn ws_fwd(line: Seq<char>, s: int) -> int
    decreases line.len() - s,
{
    if 0 <= s < line.len() && is_ascii_ws(line[s]) { ws_fwd(line, s + 1) } else { s }
}

/// Where a run of digits that begins at `s` ends.
pub open spec fn digits_fwd(line: Seq<char>, s: int) -> int
    decreases line.len() - s,
{
    if 0 <= s < line.len() && is_digit(line[s]) { digits_fwd(line, s + 1) } else { s }
}

/// The step whose `+` stands at `p`: the identifier before it and the
/// optionally negative integer after it, whitespace between.
pub open spec fn step_at(line: Seq<char>, p: int) -> Option<(Seq<char>, i64)> {
    if 0 <= p < line.len() && line[p] == '+' {
        let le = ws_back(line, p);
        let ls = word_back(line, le);
        let rs = ws_fwd(line, p + 1);
        let re = digits_fwd(line, if rs < line.len() && line[rs] == '-' { rs + 1 } else { rs });
        if ls < le && rs < re {
            match crate::text::parse_i64_spec(line.subrange(rs, re)) {
                Some(amount) => Some((line.subrange(ls, le), amount)),
                None => None,
            }
        } else {
            None
        }
    } else {
        None
    }
}

/// The steps whose `+` stands before `n`, in order.
pub open spec fn steps_upto(line: Seq<char>, n: int) -> Seq<(Seq<char>, i64)>
    decreases n,
{
    if n <= 0 {
        Seq::empty()
    } else {
        match step_at(line, n - 1) {
            Some(x) => steps_upto(line, n - 1).push(x),
            None => steps_upto(line, n - 1),
        }
    }
}

/// The states and amounts of steps.
pub open spec fn step_pairs(v: Seq<StateStep>) -> Seq<(Seq<char>, i64)> {
    v.map_values(|x: StateStep| (x.state@, x.amount))
}

/// Appends each `name + number` step of `line`: an identifier, a `+`, an
/// optionally negative integer, with the byte column of the identifier.
pub fn collect_state_steps(line: &[char], line_no: usize, steps: &mut Vec<StateStep>)
    requires
        line_fits(line@.len() as int),
    ensures
        final(steps)@.len() >= old(steps)@.len(),
        final(steps)@.subrange(0, old(steps)@.len() as int) == old(steps)@,
        forall|k: int|
            old(steps)@.len() <= k < final(steps)@.len() ==> (#[trigger] final(steps)@[k]).span.line
                == line_no && final(steps)@[k].state@.len() > 0,
        step_pairs(final(steps)@) == step_pairs(old(steps)@) + steps_upto(line@, line@.len() as int),
{
    let ghost start_len = steps@.len();
    let ghost p0 = step_pairs(steps@);
    let mut plus: usize = 0;
    assert(step_pairs(steps@) =~= p0 + steps_upto(line@, 0));
    while plus < line.len()
        invariant
            plus <= line@.len(),
            line_fits(line@.len() as int),
            steps@.len() >= start_len,
            steps@.subrange(0, start_len as int) == old(steps)@,
            start_len == old(steps)@.len(),
            p0 == step_pairs(old(steps)@),
            forall|k: int|
                start_len <= k < steps@.len() ==> (#[trigger] steps@[k]).span.line == line_no
                    && steps@[k].state@.len() > 0,
            step_pairs(steps@) == p0 + steps_upto(line@, plus as int),
        decreases line.len() - plus,
    {
        let ghost before = steps@;
        if line[plus] == '+' {
            let mut left_end = plus;
            while left_end > 0 && ascii_ws_char(line[left_end - 1])
                invariant
                    left_end <= plus < line@.len(),
                    ws_back(line@, left_end as int) == ws_back(line@, plus as int),
                decreases left_end,
            {
                left_end = left_end - 1;
            }
            let mut left_start = left_end;
            while left_start > 0 && word_char(line[left_start - 1])
                invariant
                    left_start <= left_end <= plus < line@.len(),
                    word_back(line@, left_start as int) == word_back(line@, left_end as int),
                decreases left_start,
            {
                left_start = left_start - 1;
            }
            if left_start < left_end {
                let mut right_start = plus + 1;
                while right_start < line.len() && ascii_ws_char(line[right_start])
                    invariant
                        plus < right_start <= line@.len(),
                        ws_fwd(line@, right_start as int) == ws_fwd(line@, plus + 1),
                    decreases line.len() - right_start,
                {
                    right_start = right_start + 1;
                }
                let mut right_end = right_start;
                if right_end < line.len() && line[right_end] == '-' {
                    right_end = right_end + 1;
                }
                let ghost d0 = right_end;
                while right_end < line.len() && digit_char(line[right_end])
                    invariant
                        right_start <= d0 <= right_end <= line@.len(),
                        digits_fwd(line@, right_end as int) == digits_fwd(line@, d0 as int),
                    decreases line.len() - right_end,
                {
                    right_end = right_end + 1;
                }
                if right_start < right_end {
                    if let Some(amount) = parse_i64(line, right_start, right_end) {
                        let state = string_of_range(line, left_start, left_end);
                        let column = byte_offset(line, left_start) + 1;
                        let item = StateStep { state, amount, span: Span { line: line_no, column } };
                        steps.push(item);
                        assert(steps@.subrange(0, start_len as int) =~= before.subrange(
                            0,
                            start_len as int,
                        ));
                        assert(step_pairs(steps@) =~= step_pairs(before).push((item.state@, item.amount)));
                    }
                }
            }
        }
        assert(step_pairs(steps@) =~= p0 + steps_upto(line@, plus + 1));
        plus = plus + 1;
    }
}

/// Where a run of whitespace that ends at `e` begins, going back no
/// further than `lo`.
pub open spec fn ws_back_to(line: Seq<char>, lo: int, e: int) -> int
    decreases e - lo,
{
    if e > lo && crate::text::is_ws(line[e - 1]) { ws_back_to(line, lo, e - 1) } else { e }
}

/// Where a run of whitespace that begins at `s` ends.
pub open spec fn is_ws_fwd(line: Seq<char>, s: int) -> int
    decreases line.len() - s,
{
    if 0 <= s < line.len() && crate::text::is_ws(line[s]) { is_ws_fwd(line, s + 1) } else { s }
}

/// Where a run of word characters that begins at `s` ends.
pub open spec fn word_fwd(line: Seq<char>, s: int) -> int
    decreases line.len() - s,
{
    if 0 <= s < line.len() && is_word(line[s]) { word_fwd(line, s + 1) } else { s }
}

/// The pair of the `List/map(` call at `idx`, read from `offset` on: the
/// collection is the trimmed text from `offset` to the call, without a
/// trailing `|>`; the variable is the identifier that opens the call's
/// arguments; a call without one gives nothing.
pub open spec fn map_bind_own(line: Seq<char>, offset: int, idx: int) -> Seq<(Seq<char>, Seq<char>)> {
    let te = ws_back_to(line, offset, idx);
    let c_end = if te >= offset + 2 && line[te - 2] == '|' && line[te - 1] == '>' { te - 2 } else { te };
    let v0 = is_ws_fwd(line, idx + 9);
    let v1 = word_fwd(line, v0);
    if v0 < v1 {
        seq![(trim(line.subrange(offset, c_end)), line.subrange(v0, v1))]
    } else {
        Seq::empty()
    }
}

/// The `(collection, variable)` pairs of the `List/map(` calls of `line`
/// from `offset` on, each read from where the previous call's name ended.
#[verifier::opaque]
pub open spec fn map_binds(line: Seq<char>, offset: int) -> Seq<(Seq<char>, Seq<char>)>
    decreases line.len() + 1 - offset,
{
    if offset < 0 || offset > line.len() {
        Seq::empty()
    } else {
        match next_from(line, offset, "List/map("@) {
            Some(idx) => if offset < idx + 9 <= line.len() + 1 {
                map_bind_own(line, offset, idx) + map_binds(line, idx + 9)
            } else {
                map_bind_own(line, offset, idx)
            },
            None => Seq::empty(),
        }
    }
}

/// One step of `map_binds`: the pair of the call found from `offset` on,
/// if any, then those after it.
proof fn lemma_map_binds_step(line: Seq<char>, offset: int, idx: int)
    requires
        0 <= offset <= line.len(),
        next_from(line, offset, "List/map("@) == Some(idx),
        offset <= idx,
        idx + 9 <= line.len(),
    ensures
        map_binds(line, offset) == map_bind_own(line, offset, idx) + map_binds(line, idx + 9),
{
    reveal(map_binds);
}

proof fn lemma_map_binds_stop(line: Seq<char>, offset: int)
    requires
        offset < 0 || offset > line.len() || next_from(line, offset, "List/map("@) is None,
    ensures
        map_binds(line, offset) == Seq::<(Seq<char>, Seq<char>)>::empty(),
{
    reveal(map_binds);
}

/// The collections and variables of map bindings.
pub open spec fn bind_pairs(v: Seq<MapBinding>) -> Seq<(Seq<char>, Seq<char>)> {
    v.map_values(|x: MapBinding| (x.collection@, x.variable@))
}

/// Appends each `collection |> List/map(variable, ...)` of `line`: the text
/// before the call (without a trailing `|>`), the first identifier inside
/// the parentheses, and the byte column of that identifier.
#[verifier::spinoff_prover]
#[verifier::rlimit(60)]
pub fn collect_map_bindings(line: &[char], line_no: usize, bindings: &mut Vec<MapBinding>)
    requires
        line_fits(line@.len() as int),
    ensures
        final(bindings)@.len() >= old(bindings)@.len(),
        final(bindings)@.subrange(0, old(bindings)@.len() as int) == old(bindings)@,
        forall|k: int|
            old(bindings)@.len() <= k < final(bindings)@.len() ==> (#[trigger] final(bindings)@[k]).span.line == line_no && final(bindings)@[k].variable@.len() > 0,
        bind_pairs(final(bindings)@) == bind_pairs(old(bindings)@) + map_binds(line@, 0),
{
    let pat = chars_of("List/map(");
    proof {
        reveal_strlit("List/map(");
    }
    assert(pat@.len() == 9);
    let ghost start_len = bindings@.len();
    let ghost b0 = bind_pairs(bindings@);
    let mut offset: usize = 0;
    assert(b0 =~= bind_pairs(bindings@) + Seq::<(Seq<char>, Seq<char>)>::empty());
    while offset <= line.len()
        invariant
            b0 == bind_pairs(old(bindings)@),
            pat@ == "List/map("@,
            b0 + map_binds(line@, 0) == bind_pairs(bindings@) + map_binds(line@, offset as int),
            offset > line@.len() ==> bind_pairs(bindings@) == b0 + map_binds(line@, 0),
            line_fits(line@.len() as int),
            pat@.len() == 9,
            bindings@.len() >= start_len,
            bindings@.subrange(0, start_len as int) == old(bindings)@,
            start_len == old(bindings)@.len(),
            forall|k: int|
                start_len <= k < bindings@.len() ==> (#[trigger] bindings@[k]).span.line == line_no
                    && bindings@[k].variable@.len() > 0,
        ensures
            bindings@.len() >= start_len,
            bindings@.subrange(0, start_len as int) == old(bindings)@,
            forall|k: int|
                start_len <= k < bindings@.len() ==> (#[trigger] bindings@[k]).span.line == line_no
                    && bindings@[k].variable@.len() > 0,
            bind_pairs(bindings@) == b0 + map_binds(line@, 0),
        decreases line.len() + 1 - offset,
    {
        let idx = match find_from(line, offset, &pat) {
            Some(i) => i,
            None => {
                proof {
                    lemma_map_binds_stop(line@, offset as int);
                }
                assert(bind_pairs(bindings@) + Seq::<(Seq<char>, Seq<char>)>::empty() =~= bind_pairs(bindings@));
                break;
            },
        };
        proof {
            lemma_next_from(line@, offset as int, pat@, idx as int);
            lemma_map_binds_step(line@, offset as int, idx as int);
        }
        let ghost bb = bind_pairs(bindings@);
        let mut te = idx;
        while te > offset && ws_char(line[te - 1])
            invariant
                offset <= te <= idx,
                idx + 9 <= line@.len(),
                ws_back_to(line@, offset as int, te as int) == ws_back_to(line@, offset as int, idx as int),
            decreases te,
        {
            te = te - 1;
        }
        let c_end = if te >= offset + 2 && line[te - 2] == '|' && line[te - 1] == '>' {
            te - 2
        } else {
            te
        };
        let (ca, cb) = trim_range(line, offset, c_end);
        let collection = string_of_range(line, ca, cb);
        let start = idx + 9;
        let mut v0 = start;
        while v0 < line.len() && ws_char(line[v0])
            invariant
                start <= v0 <= line@.len(),
                is_ws_fwd(line@, v0 as int) == is_ws_fwd(line@, start as int),
            decreases line.len() - v0,
        {
            v0 = v0 + 1;
        }
        let mut v1 = v0;
        while v1 < line.len() && word_char(line[v1])
            invariant
                v0 <= v1 <= line@.len(),
                word_fwd(line@, v1 as int) == word_fwd(line@, v0 as int),
            decreases line.len() - v1,
        {
            v1 = v1 + 1;
        }
        if v0 < v1 {
            let variable = string_of_range(line, v0, v1);
            let column = byte_offset(line, v0) + 1;
            let ghost before = bindings@;
            let item = MapBinding { variable, collection, span: Span { line: line_no, column } };
            bindings.push(item);
            assert(bindings@.subrange(0, start_len as int) =~= before.subrange(0, start_len as int));
            assert(bind_pairs(bindings@) =~= bb.push((item.collection@, item.variable@)));
        }
        assert(bb + map_binds(line@, offset as int) =~= bind_pairs(bindings@) + map_binds(line@, start as int));
        offset = start;
    }
}

/// The next module token of `line` at or after `from`: a run of letters,
/// digits, `_` and `/` that starts with an uppercase letter and holds a
/// `/`, without trailing slashes.
/// Whether a character may stand in a module token.
pub open spec fn token_char(c: char) -> bool {
    crate::text::is_alnum(c) || c == '_' || c == '/'
}

/// Where a token from `a` to `e` ends once its trailing slashes go.
pub open spec fn slash_end(line: Seq<char>, a: int, e: int) -> int
    decreases e - a,
{
    if e > a + 1 && line[e - 1] == '/' { slash_end(line, a, e - 1) } else { e }
}

/// The scan for a module token from `idx` on, with the token begun at
/// `start` and whether it holds a `/` so far: a token starts at an
/// uppercase letter, runs over token characters, and counts where it
/// holds a `/`; a token without one is dropped at its end.
pub open spec fn token_scan(line: Seq<char>, idx: int, start: Option<int>, seen: bool) -> Option<(int, int)>
    decreases line.len() - idx,
{
    if idx >= line.len() {
        match start {
            Some(ts) => if seen { Some((ts, slash_end(line, ts, line.len() as int))) } else { None },
            None => None,
        }
    } else {
        let ch = line[idx];
        let st = if start is None && is_upper(ch) { Some(idx) } else { start };
        let sn = if start is None && is_upper(ch) { false } else { seen };
        match st {
            Some(ts) => if !token_char(ch) {
                if sn { Some((ts, slash_end(line, ts, idx))) } else { token_scan(line, idx + 1, None, sn) }
            } else {
                token_scan(line, idx + 1, st, sn || ch == '/')
            },
            None => token_scan(line, idx + 1, None, sn),
        }
    }
}

pub fn next_module_token(line: &[char], from: usize) -> (r: Option<(usize, usize)>)
    requires
        from <= line@.len(),
    ensures
        r matches Some((a, b)) ==> from <= a < b <= line@.len() && is_upper(line@[a as int])
            && forall|k: int| a <= k < b ==> is_word(#[trigger] line@[k]) || line@[k] == '/',
        match r {
            Some((a, b)) => token_scan(line@, from as int, None, false) == Some((a as int, b as int)),
            None => token_scan(line@, from as int, None, false) is None,
        },
{
    let mut start: Option<usize> = None;
    let mut seen_slash = false;
    let mut idx: usize = from;
    while idx < line.len()
        invariant
            from <= idx <= line@.len(),
            start matches Some(s) ==> from <= s < idx && is_upper(line@[s as int]) && forall|k: int|
                s <= k < idx ==> is_word(#[trigger] line@[k]) || line@[k] == '/',
            start matches Some(s) ==> (seen_slash <==> exists|k: int| s <= k < idx && line@[k] == '/'),
            token_scan(line@, from as int, None, false) == token_scan(line@, idx as int, match start {
                Some(s) => Some(s as int),
                None => None,
            }, seen_slash),
        decreases line.len() - idx,
    {
        let ch = line[idx];
        if start.is_none() && upper_char(ch) {
            start = Some(idx);
            seen_slash = false;
        }
        if let Some(ts) = start {
            let valid = alnum_char(ch) || ch == '_' || ch == '/';
            if !valid {
                if seen_slash {
                    return Some(trim_slashes(line, ts, idx));
                }
                start = None;
            } else if ch == '/' {
                seen_slash = true;
            }
        }
        idx = idx + 1;
    }
    if let Some(ts) = start {
        if seen_slash {
            return Some(trim_slashes(line, ts, line.len()));
        }
    }
    None
}

fn trim_slashes(line: &[char], a: usize, b: usize) -> (r: (usize, usize))
    requires
        a < b <= line@.len(),
        is_upper(line@[a as int]),
    ensures
        r.0 == a,
        a < r.1 <= b,
        r.1 == slash_end(line@, a as int, b as int),
{
    let mut e = b;
    while e > a + 1 && line[e - 1] == '/'
        invariant
            a < e <= b <= line@.len(),
            slash_end(line@, a as int, e as int) == slash_end(line@, a as int, b as int),
        decreases e,
    {
        e = e - 1;
    }
    (a, e)
}

/// The number of characters of the lines, counting a line end after each.
pub open spec fn lines_total(ts: Seq<Seq<char>>) -> nat
    decreases ts.len(),
{
    if ts.len() == 0 {
        0
    } else {
        lines_total(ts.drop_last()) + ts.last().len() + 1
    }
}

pub proof fn lemma_lines_total_sub(ts: Seq<Seq<char>>, a: int, b: int)
    requires
        0 <= a <= b <= ts.len(),
    ensures
        lines_total(ts.subrange(a, b)) <= lines_total(ts),
    decreases ts.len() - b,
{
    if b < ts.len() {
        lemma_lines_total_sub(ts, a, b + 1);
        assert(ts.subrange(a, b + 1).drop_last() =~= ts.subrange(a, b));
    } else {
        lemma_lines_total_prefix(ts, a);
    }
}

proof fn lemma_lines_total_prefix(ts: Seq<Seq<char>>, a: int)
    requires
        0 <= a <= ts.len(),
    ensures
        lines_total(ts.subrange(a, ts.len() as int)) <= lines_total(ts),
    decreases ts.len(),
{
    if ts.len() > a {
        lemma_lines_total_prefix(ts.drop_last(), a);
        assert(ts.subrange(a, ts.len() as int).drop_last() =~= ts.drop_last().subrange(
            a,
            ts.drop_last().len() as int,
        ));
    } else {
        assert(ts.subrange(a, ts.len() as int).len() == 0);
    }
}

pub open spec fn texts_model(lines: Seq<Vec<char>>) -> Seq<Seq<char>> {
    Seq::new(lines.len(), |k: int| lines[k]@)
}

/// The rest of a call's argument list from column `c` of line `li` on,
/// with the parenthesis depth `depth` so far and whether a `(` was seen:
/// characters across lines, each line ended by a newline, up to and with
/// the character after which a `(` has been seen and the depth is back to
/// zero or below.
pub open spec fn call_block_from(tm: Seq<Seq<char>>, li: int, c: int, depth: int, saw: bool) -> Seq<char>
    decreases tm.len() - li, tm[li].len() - c,
{
    if li < 0 || li >= tm.len() {
        Seq::empty()
    } else if c < 0 || c >= tm[li].len() {
        seq!['\n'] + call_block_from(tm, li + 1, 0, depth, saw)
    } else {
        let ch = tm[li][c];
        let d2 = if ch == '(' { depth + 1 } else if ch == ')' { depth - 1 } else { depth };
        let s2 = saw || ch == '(';
        if s2 && d2 <= 0 {
            seq![ch]
        } else {
            seq![ch] + call_block_from(tm, li, c + 1, d2, s2)
        }
    }
}

/// The text of a call's argument list: from `after_col` of line
/// `start_line` on, across lines, up to the parenthesis that closes the
/// first one opened.
pub fn call_block(lines: &Vec<Vec<char>>, start_line: usize, after_col: usize) -> (r: Vec<char>)
    requires
        start_line < lines@.len(),
    ensures
        r@.len() <= lines_total(texts_model(lines@)),
        r@ == call_block_from(
            texts_model(lines@),
            start_line as int,
            if after_col <= lines@[start_line as int]@.len() { after_col as int } else { lines@[start_line as int]@.len() as int },
            0,
            false,
        ),
{
    let ghost tm = texts_model(lines@);
    let ghost from0: int = if after_col <= lines@[start_line as int]@.len() {
        after_col as int
    } else {
        lines@[start_line as int]@.len() as int
    };
    let ghost total = call_block_from(tm, start_line as int, from0, 0, false);
    let mut block: Vec<char> = Vec::new();
    let mut depth: i128 = 0;
    let mut saw_open = false;
    let mut li: usize = start_line;
    while li < lines.len()
        invariant
            start_line <= li <= lines@.len(),
            -(block@.len() as int) <= depth <= block@.len(),
            tm == texts_model(lines@),
            from0 == (if after_col <= lines@[start_line as int]@.len() {
                after_col as int
            } else {
                lines@[start_line as int]@.len() as int
            }),
            total == call_block_from(tm, start_line as int, from0, 0, false),
            tm.len() == lines@.len(),
            block@.len() == block.len(),
            block@.len() <= lines_total(tm.subrange(start_line as int, li as int)),
            li == start_line ==> block@.len() == 0 && depth == 0 && !saw_open,
            li > start_line ==> block@ + call_block_from(tm, li as int, 0, depth as int, saw_open) == total,
        decreases lines.len() - li,
    {
        proof {
            assert(tm.subrange(start_line as int, li + 1).drop_last() =~= tm.subrange(start_line as int, li as int));
            lemma_lines_total_sub(tm, start_line as int, li + 1);
        }
        let line = &lines[li];
        let from = if li == start_line {
            if after_col <= line.len() {
                after_col
            } else {
                line.len()
            }
        } else {
            0
        };
        let mut c = from;
        if li == start_line {
            assert(line@ == lines@[start_line as int]@);
            assert(block@ + call_block_from(tm, li as int, c as int, depth as int, saw_open) =~= total);
        }
        while c < line.len()
            invariant
                block@ + call_block_from(tm, li as int, c as int, depth as int, saw_open) == total,
                from <= c <= line@.len(),
                -(block@.len() as int) <= depth <= block@.len(),
                line@ == tm[li as int],
                start_line <= li < lines@.len(),
                tm == texts_model(lines@),
            from0 == (if after_col <= lines@[start_line as int]@.len() {
                after_col as int
            } else {
                lines@[start_line as int]@.len() as int
            }),
            total == call_block_from(tm, start_line as int, from0, 0, false),
                tm.len() == lines@.len(),
                block@.len() == block.len(),
                block@.len() + (line@.len() - c) <= lines_total(tm.subrange(start_line as int, li + 1)) - 1,
                lines_total(tm.subrange(start_line as int, li + 1)) <= lines_total(tm),
            decreases line.len() - c,
        {
            let ch = line[c];
            let ghost b0 = block@;
            let ghost rest = call_block_from(tm, li as int, c as int, depth as int, saw_open);
            if ch == '(' {
                depth = depth + 1;
                saw_open = true;
            } else if ch == ')' {
                depth = depth - 1;
            }
            block.push(ch);
            if saw_open && depth <= 0 {
                assert(block@ =~= b0 + rest);
                return block;
            }
            assert(block@ + call_block_from(tm, li as int, c + 1, depth as int, saw_open) =~= b0 + rest);
            c = c + 1;
        }
        let ghost b1 = block@;
        block.push('\n');
        assert(block@ + call_block_from(tm, li + 1, 0, depth as int, saw_open) =~= b1 + call_block_from(
            tm,
            li as int,
            c as int,
            depth as int,
            saw_open,
        ));
        li = li + 1;
    }
    proof {
        lemma_lines_total_sub(tm, start_line as int, li as int);
    }
    assert(block@ =~= total);
    block
}

/// Where a run of word characters and dots that begins at `s` ends.
pub open spec fn value_fwd(line: Seq<char>, s: int) -> int
    decreases line.len() - s,
{
    if 0 <= s < line.len() && (is_word(line[s]) || line[s] == '.') { value_fwd(line, s + 1) } else { s }
}

/// The `(name, value)` arguments of `block` from `idx` on, at parenthesis
/// depth `depth`: where the depth is one, a name starts at a letter or
/// `_`, runs over word characters, and is followed, past whitespace, by a
/// `:`; its value is the run of word characters and dots after the `:`
/// and whitespace, and a name without one gives nothing.  The scan goes on
/// after the `:`.
pub open spec fn call_args_scan(block: Seq<char>, idx: int, depth: int) -> Seq<(Seq<char>, Seq<char>)>
    decreases block.len() - idx,
{
    if idx < 0 || idx >= block.len() {
        Seq::empty()
    } else {
        let ch = block[idx];
        if ch == '(' {
            call_args_scan(block, idx + 1, depth + 1)
        } else if ch == ')' {
            call_args_scan(block, idx + 1, depth - 1)
        } else if depth == 1 && (('A' <= ch && ch <= 'Z') || ('a' <= ch && ch <= 'z') || ch == '_') {
            let ne = word_fwd(block, idx);
            let rest = is_ws_fwd(block, ne);
            if idx <= rest < block.len() && block[rest] == ':' {
                let v0 = is_ws_fwd(block, rest + 1);
                let v1 = value_fwd(block, v0);
                let own = if v0 < v1 {
                    seq![(block.subrange(idx, ne), block.subrange(v0, v1))]
                } else {
                    Seq::empty()
                };
                own + call_args_scan(block, rest + 1, depth)
            } else {
                call_args_scan(block, idx + 1, depth)
            }
        } else {
            call_args_scan(block, idx + 1, depth)
        }
    }
}

/// The names and values of call arguments.
pub open spec fn call_arg_pairs(v: Seq<CallArg>) -> Seq<(Seq<char>, Seq<char>)> {
    v.map_values(|x: CallArg| (x.name@, x.value@))
}

/// The `name: value` arguments at depth one of a call block, where each
/// value is a run of letters, digits, `_` and `.`.
pub fn parse_call_args(block: &[char], line_no: usize) -> (r: Vec<CallArg>)
    requires
        line_fits(block@.len() as int),
    ensures
        forall|k: int|
            0 <= k < r@.len() ==> (#[trigger] r@[k]).span.line == line_no && r@[k].name@.len() > 0
                && r@[k].value@.len() > 0,
        call_arg_pairs(r@) == call_args_scan(block@, 0, 0),
{
    let mut args: Vec<CallArg> = Vec::new();
    let mut depth: i128 = 0;
    let mut idx: usize = 0;
    while idx < block.len()
        invariant
            idx <= block@.len(),
            line_fits(block@.len() as int),
            -(idx as int) <= depth <= idx,
            call_arg_pairs(args@) + call_args_scan(block@, idx as int, depth as int) == call_args_scan(block@, 0, 0),
            forall|k: int|
                0 <= k < args@.len() ==> (#[trigger] args@[k]).span.line == line_no
                    && args@[k].name@.len() > 0 && args@[k].value@.len() > 0,
        decreases block.len() - idx,
    {
        let ch = block[idx];
        let ghost a0 = call_arg_pairs(args@);
        if ch == '(' {
            depth = depth + 1;
            idx = idx + 1;
        } else if ch == ')' {
            depth = depth - 1;
            idx = idx + 1;
        } else if depth == 1 && ((('A' <= ch && ch <= 'Z') || ('a' <= ch && ch <= 'z')) || ch == '_') {
            let name_start = idx;
            let mut name_end = idx;
            while name_end < block.len() && word_char(block[name_end])
                invariant
                    name_start <= name_end <= block@.len(),
                    word_fwd(block@, name_end as int) == word_fwd(block@, name_start as int),
                decreases block.len() - name_end,
            {
                name_end = name_end + 1;
            }
            let mut rest = name_end;
            while rest < block.len() && ws_char(block[rest])
                invariant
                    name_end <= rest <= block@.len(),
                    is_ws_fwd(block@, rest as int) == is_ws_fwd(block@, name_end as int),
                decreases block.len() - rest,
            {
                rest = rest + 1;
            }
            if rest < block.len() && block[rest] == ':' {
                let value_start = rest + 1;
                let mut v0 = value_start;
                while v0 < block.len() && ws_char(block[v0])
                    invariant
                        value_start <= v0 <= block@.len(),
                        is_ws_fwd(block@, v0 as int) == is_ws_fwd(block@, value_start as int),
                    decreases block.len() - v0,
                {
                    v0 = v0 + 1;
                }
                let mut v1 = v0;
                while v1 < block.len() && (word_char(block[v1]) || block[v1] == '.')
                    invariant
                        v0 <= v1 <= block@.len(),
                        value_fwd(block@, v1 as int) == value_fwd(block@, v0 as int),
                    decreases block.len() - v1,
                {
                    v1 = v1 + 1;
                }
                if v0 < v1 {
                    let name = string_of_range(block, name_start, name_end);
                    let value = string_of_range(block, v0, v1);
                    let column = byte_offset(block, name_start) + 1;
                    let item = CallArg { name, value, span: Span { line: line_no, column } };
                    args.push(item);
                    assert(call_arg_pairs(args@) =~= a0.push((item.name@, item.value@)));
                }
                assert(call_arg_pairs(args@) + call_args_scan(block@, value_start as int, depth as int) =~= a0
                    + call_args_scan(block@, idx as int, depth as int));
                idx = value_start;
            } else {
                idx = idx + 1;
            }
        } else {
            idx = idx + 1;
        }
    }
    assert(call_args_scan(block@, idx as int, depth as int) =~= Seq::<(Seq<char>, Seq<char>)>::empty());
    assert(call_arg_pairs(args@) =~= call_args_scan(block@, 0, 0));
    args
}

/// The longest parsed line that `collect_module_calls` takes, with its column.
pub open spec fn parsed_line_fits(l: ParsedLine) -> bool {
    line_fits(l.text@.len() as int) && l.span.column <= usize::MAX / 2
}

/// The texts of parsed lines.
pub open spec fn parsed_texts(lines: Seq<ParsedLine>) -> Seq<Seq<char>> {
    Seq::new(lines.len(), |k: int| lines[k].text@)
}

/// The module tokens of `line` from `from` on, in order.
pub open spec fn line_tokens(line: Seq<char>, from: int) -> Seq<Seq<char>>
    decreases line.len() - from,
{
    match token_scan(line, from, None, false) {
        Some((a, b)) => if from < b <= line.len() {
            seq![line.subrange(a, b)] + line_tokens(line, b)
        } else {
            Seq::empty()
        },
        None => Seq::empty(),
    }
}

/// The module tokens of the first `n` lines, each with its line number.
pub open spec fn module_tokens(lines: Seq<ParsedLine>, n: int) -> Seq<(Seq<char>, usize)>
    decreases n,
{
    if n <= 0 || n > lines.len() {
        Seq::empty()
    } else {
        module_tokens(lines, n - 1) + line_tokens(lines[n - 1].text@, 0).map_values(
            |p: Seq<char>| (p, lines[n - 1].span.line),
        )
    }
}

/// The paths and line numbers of module calls.
pub open spec fn call_paths(v: Seq<ModuleCall>) -> Seq<(Seq<char>, usize)> {
    v.map_values(|c: ModuleCall| (c.path@, c.span.line))
}

/// Every module token of every line, in order, with the call arguments
/// that follow it.
pub fn collect_module_calls(lines: &Vec<ParsedLine>) -> (r: Vec<ModuleCall>)
    requires
        forall|k: int| 0 <= k < lines@.len() ==> parsed_line_fits(#[trigger] lines@[k]),
        line_fits(lines_total(parsed_texts(lines@)) as int),
    ensures
        forall|k: int|
            0 <= k < r@.len() ==> (#[trigger] r@[k]).path@.len() > 0 && is_upper(r@[k].path@[0])
                && exists|j: int| 0 <= j < lines@.len() && r@[k].span.line == lines@[j].span.line,
        call_paths(r@) == module_tokens(lines@, lines@.len() as int),
{
    let mut texts: Vec<Vec<char>> = Vec::new();
    let mut i: usize = 0;
    while i < lines.len()
        invariant
            i <= lines@.len(),
            texts@.len() == i,
            forall|k: int| 0 <= k < i ==> (#[trigger] texts@[k])@ == lines@[k].text@,
        decreases lines.len() - i,
    {
        texts.push(chars_of_string(&lines[i].text));
        i = i + 1;
    }
    assert(texts_model(texts@) =~= parsed_texts(lines@));
    let mut calls: Vec<ModuleCall> = Vec::new();
    let mut li: usize = 0;
    assert(call_paths(calls@) =~= module_tokens(lines@, 0));
    while li < texts.len()
        invariant
            li <= texts@.len() == lines@.len(),
            forall|k: int| 0 <= k < lines@.len() ==> (#[trigger] texts@[k])@ == lines@[k].text@,
            forall|k: int| 0 <= k < lines@.len() ==> parsed_line_fits(#[trigger] lines@[k]),
            texts_model(texts@) == parsed_texts(lines@),
            line_fits(lines_total(parsed_texts(lines@)) as int),
            forall|k: int|
                0 <= k < calls@.len() ==> (#[trigger] calls@[k]).path@.len() > 0 && is_upper(
                    calls@[k].path@[0],
                ) && exists|j: int| 0 <= j < lines@.len() && calls@[k].span.line == lines@[j].span.line,
            call_paths(calls@) == module_tokens(lines@, li as int),
        decreases texts.len() - li,
    {
        let line = &texts[li];
        let ghost c0 = call_paths(calls@);
        let ghost ln = lines@[li as int].span.line;
        let ghost f = |p: Seq<char>| (p, ln);
        assert(parsed_line_fits(lines@[li as int]));
        let mut search_from: usize = 0;
        while search_from < line.len()
            invariant
                li < texts@.len() == lines@.len(),
                search_from <= line@.len(),
                line@ == lines@[li as int].text@,
                parsed_line_fits(lines@[li as int]),
                texts_model(texts@) == parsed_texts(lines@),
                line_fits(lines_total(parsed_texts(lines@)) as int),
                forall|k: int|
                    0 <= k < calls@.len() ==> (#[trigger] calls@[k]).path@.len() > 0 && is_upper(
                        calls@[k].path@[0],
                    ) && exists|j: int| 0 <= j < lines@.len() && calls@[k].span.line == lines@[j].span.line,
                ln == lines@[li as int].span.line,
                f == (|p: Seq<char>| (p, ln)),
                call_paths(calls@) + line_tokens(line@, search_from as int).map_values(f) == c0 + line_tokens(line@, 0).map_values(f),
            ensures
                forall|k: int|
                    0 <= k < calls@.len() ==> (#[trigger] calls@[k]).path@.len() > 0 && is_upper(
                        calls@[k].path@[0],
                    ) && exists|j: int| 0 <= j < lines@.len() && calls@[k].span.line == lines@[j].span.line,
                call_paths(calls@) == c0 + line_tokens(line@, 0).map_values(f),
            decreases line.len() - search_from,
        {
            let (a, b) = match next_module_token(line, search_from) {
                Some(t) => t,
                None => {
                    assert(line_tokens(line@, search_from as int).map_values(f) =~= Seq::<(Seq<char>, usize)>::empty());
                    assert(call_paths(calls@) + Seq::<(Seq<char>, usize)>::empty() =~= call_paths(calls@));
                    break;
                },
            };
            let ghost cb = call_paths(calls@);
            let block = call_block(&texts, li, b);
            let line_no = lines[li].span.line;
            let path = string_of_range(line, a, b);
            assert(path@[0] == line@[a as int]);
            let column = lines[li].span.column + byte_offset(line, a);
            let args = parse_call_args(&block, line_no);
            let item = ModuleCall { path, span: Span { line: line_no, column }, args };
            calls.push(item);
            assert(call_paths(calls@) =~= cb.push((item.path@, item.span.line)));
            assert(line_tokens(line@, search_from as int) == seq![line@.subrange(a as int, b as int)] + line_tokens(line@, b as int));
            assert(line_tokens(line@, search_from as int).map_values(f) =~= seq![(line@.subrange(a as int, b as int), ln)] + line_tokens(line@, b as int).map_values(f));
            assert(call_paths(calls@) + line_tokens(line@, b as int).map_values(f) =~= cb + line_tokens(line@, search_from as int).map_values(f));
            search_from = b;
        }
        assert(call_paths(calls@) =~= module_tokens(lines@, li + 1));
        li = li + 1;
    }
    calls
}

} // verus!
