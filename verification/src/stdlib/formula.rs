//! Reusable formula storage and dependency evaluation for Boon
//! applications: callers provide dimensions, enabled formula functions and
//! cell text; the book keeps each cell's dependencies and recomputes the
//! cells that an edit reaches.
use vstd::prelude::*;
use crate::stdlib::counting::{count_true, lemma_count_bound, lemma_count_mono, lemma_count_set};
use crate::text::{
    chars_of, chars_of_string, find_char_from, first_of, i64_to_string, int_chars, is_upper, is_lower,
    lemma_first_of_at, lemma_first_of_none, occurs_at, parse_i64, parse_i64_spec, parse_usize, parse_usize_spec,
    str_eq, trim, trim_range,
};
use crate::syntax::expr::{is_lit, lit_at};
use vstd::seq_lib::lemma_seq_contains_after_push;

verus! {

pub struct FormulaBook {
    rows: usize,
    columns: usize,
    text: Vec<String>,
    value: Vec<String>,
    deps: Vec<Vec<usize>>,
    rev_deps: Vec<Vec<usize>>,
    functions: Vec<String>,
}

/// The uppercase form of an ASCII letter; other characters stay.
pub open spec fn ascii_upper(c: char) -> char {
    if is_lower(c) {
        ((c as u32) - 32) as char
    } else {
        c
    }
}

/// A cell text that holds a formula: it starts with `=`.
pub open spec fn is_formula(t: Seq<char>) -> bool {
    t.len() > 0 && t[0] == '='
}

pub open spec fn err_text() -> Seq<char> {
    seq!['#', 'E', 'R', 'R']
}

pub open spec fn cycle_text() -> Seq<char> {
    seq!['#', 'C', 'Y', 'C', 'L', 'E']
}

/// What a formula evaluates to: the decimal text of a number, `#ERR` for a
/// formula it cannot read, `#CYCLE` where a cell reads itself.
pub open spec fn formula_value(v: Seq<char>) -> bool {
    v == err_text() || v == cycle_text() || exists|x: i64| v == #[trigger] int_chars(x as int)
}

/// A cell reference such as `B3`: a letter naming the column, then the row
/// The two cell references of `v[lo..hi]` written `a:b`, where the first
/// `:` from `lo` on falls before `hi`.
pub open spec fn range_spec(v: Seq<char>, lo: int, hi: int, rows: nat, columns: nat) -> Option<((usize, usize), (usize, usize))> {
    let f = crate::text::first_of(v.subrange(lo, v.len() as int), ':');
    if f < 0 || lo + f >= hi {
        None
    } else {
        match (decode_ref_spec(v.subrange(lo, lo + f), rows, columns), decode_ref_spec(v.subrange(lo + f + 1, hi), rows, columns)) {
            (Some(a), Some(b)) => Some((a, b)),
            _ => None,
        }
    }
}

/// number, both inside the book.
pub open spec fn decode_ref_spec(s: Seq<char>, rows: nat, columns: nat) -> Option<(usize, usize)> {
    if s.len() == 0 || !is_upper(ascii_upper(s[0])) {
        None
    } else {
        match parse_usize_spec(s.drop_first()) {
            Some(row) => {
                let col = (ascii_upper(s[0]) as u32) - ('A' as u32) + 1;
                if row == 0 || row > rows || col == 0 || col > columns {
                    None
                } else {
                    Some((row, col as usize))
                }
            },
            None => None,
        }
    }
}

/// The two argument texts of `=add(x, y)`: the text between `=add(` and
/// the final `)`, cut at its only comma, each part trimmed.
pub open spec fn add_args(t: Seq<char>) -> Option<(Seq<char>, Seq<char>)> {
    if t.len() > 5 && t[0] == '=' && occurs_at(t, 1, "add("@) && t.last() == ')' {
        let body = t.subrange(5, t.len() - 1);
        let c = first_of(body, ',');
        if c < 0 || first_of(body.skip(c + 1), ',') >= 0 {
            None
        } else {
            Some((trim(body.take(c)), trim(body.skip(c + 1))))
        }
    } else {
        None
    }
}

/// The number a plain cell text gives a formula: none for the text
/// `#CYCLE`, else the text read as an `i64`, or 0.
pub open spec fn plain_number(s: Seq<char>) -> Option<i64> {
    if s == cycle_text() {
        None
    } else {
        match parse_i64_spec(s) {
            Some(x) => Some(x),
            None => Some(0),
        }
    }
}

/// The text of the cell at `row`, `col` among `texts`, `columns` a row.
pub open spec fn cell_text(texts: Seq<String>, columns: nat, row: int, col: int) -> Seq<char> {
    texts[(row - 1) * columns + (col - 1)]@
}

/// Whether every cell of rows `r0..=r1`, columns `c0..=c1` holds plain
/// text.
pub open spec fn rect_plain(texts: Seq<String>, columns: nat, r0: int, r1: int, c0: int, c1: int) -> bool {
    forall|r: int, c: int| r0 <= r <= r1 && c0 <= c <= c1 ==> !is_formula(#[trigger] cell_text(texts, columns, r, c))
}

/// `acc` plus the numbers of row `row`, columns `c..=c1`, left to right
/// (wrapping); none where a cell holds `#CYCLE`.
pub open spec fn row_sum(texts: Seq<String>, columns: nat, row: int, c: int, c1: int, acc: i64) -> Option<i64>
    decreases c1 + 1 - c,
{
    if c > c1 {
        Some(acc)
    } else {
        match plain_number(cell_text(texts, columns, row, c)) {
            Some(v) => row_sum(texts, columns, row, c + 1, c1, acc.wrapping_add(v)),
            None => None,
        }
    }
}

/// `acc` plus the numbers of rows `r..=r1`, columns `c0..=c1`, row by row
/// (wrapping); none where a cell holds `#CYCLE`.
pub open spec fn rect_sum(texts: Seq<String>, columns: nat, r: int, r1: int, c0: int, c1: int, acc: i64) -> Option<i64>
    decreases r1 + 1 - r,
{
    if r > r1 {
        Some(acc)
    } else {
        match row_sum(texts, columns, r, c0, c1, acc) {
            Some(a) => rect_sum(texts, columns, r + 1, r1, c0, c1, a),
            None => None,
        }
    }
}

/// The slots of the references among the comma-separated pieces of
/// `v[start..b]` (a piece running from `start` to the `,` or end at or
/// after `i`), each trimmed, in order; pieces that are no reference in
/// the book give nothing.
pub open spec fn add_refs(rows: nat, columns: nat, v: Seq<char>, start: int, i: int, b: int) -> Seq<int>
    decreases b + 1 - i,
{
    if i > b || i < start {
        Seq::empty()
    } else if i == b || v[i] == ',' {
        let t = trim(v.subrange(start, i));
        let own = match decode_ref_spec(t, rows, columns) {
            Some(rc) => seq![(rc.0 as int - 1) * columns + (rc.1 as int - 1)],
            None => Seq::empty(),
        };
        own + add_refs(rows, columns, v, i + 1, i + 1, b)
    } else {
        add_refs(rows, columns, v, start, i + 1, b)
    }
}

/// The slots of row `row` from column `c` to `c1`.
pub open spec fn row_refs(columns: nat, row: int, c: int, c1: int) -> Seq<int>
    decreases c1 + 1 - c,
{
    if c > c1 {
        Seq::empty()
    } else {
        seq![(row - 1) * columns + (c - 1)] + row_refs(columns, row, c + 1, c1)
    }
}

/// The slots of rows `r` to `r1`, columns `c0` to `c1`, row by row.
pub open spec fn rect_refs(columns: nat, r: int, r1: int, c0: int, c1: int) -> Seq<int>
    decreases r1 + 1 - r,
{
    if r > r1 {
        Seq::empty()
    } else {
        row_refs(columns, r, c0, c1) + rect_refs(columns, r + 1, r1, c0, c1)
    }
}

impl FormulaBook {
    pub closed spec fn spec_rows(&self) -> nat {
        self.rows as nat
    }

    pub closed spec fn spec_columns(&self) -> nat {
        self.columns as nat
    }

    /// Number of cells.
    pub open spec fn n(&self) -> nat {
        self.spec_rows() * self.spec_columns()
    }

    /// The slot of a cell: rows one after the other, columns within a row.
    pub open spec fn slot(&self, row: int, col: int) -> int {
        (row - 1) * self.spec_columns() + (col - 1)
    }

    pub open spec fn in_book(&self, row: int, col: int) -> bool {
        1 <= row <= self.spec_rows() && 1 <= col <= self.spec_columns()
    }

    /// The text of slot `i`.
    pub closed spec fn text_at(&self, i: int) -> Seq<char> {
        self.text@[i]@
    }

    /// The current value of slot `i`.
    pub closed spec fn value_at(&self, i: int) -> Seq<char> {
        self.value@[i]@
    }

    /// Slot `j` reads slot `i`.
    pub closed spec fn reads(&self, j: int, i: int) -> bool {
        self.deps@[j]@.contains(i as usize)
    }

    /// Slot `j` is listed among the dependents of slot `i`.
    pub closed spec fn listed_dependent(&self, i: int, j: int) -> bool {
        self.rev_deps@[i]@.contains(j as usize)
    }

    /// Every listed dependent of slot `j` is marked in `dirty`.
    pub closed spec fn closed_at(&self, dirty: Seq<bool>, j: int) -> bool {
        forall|k: int| 0 <= k < self.rev_deps@[j]@.len() ==> dirty[#[trigger] self.rev_deps@[j]@[k] as int]
    }

    /// The formula function `name` is enabled.
    pub closed spec fn enabled(&self, name: Seq<char>) -> bool {
        exists|k: int| 0 <= k < self.functions@.len() && (#[trigger] self.functions@[k])@ == name
    }

    /// The value of the formula `t` where it is `=add(x, y)` with `add`
    /// enabled, both references inside the book and both referenced cells
    /// holding plain text: the sum of their numbers (wrapping), or `#CYCLE`
    /// where one of them holds that text.
    pub open spec fn add_value_of(&self, t: Seq<char>) -> Option<Seq<char>> {
        match add_args(t) {
            Some((x, y)) => match (decode_ref_spec(x, self.spec_rows(), self.spec_columns()), decode_ref_spec(y, self.spec_rows(), self.spec_columns())) {
                (Some(a), Some(b)) => {
                    let ta = self.text_at(self.slot(a.0 as int, a.1 as int));
                    let tb = self.text_at(self.slot(b.0 as int, b.1 as int));
                    if self.enabled("add"@) && !is_formula(ta) && !is_formula(tb) {
                        match (plain_number(ta), plain_number(tb)) {
                            (Some(p), Some(q)) => Some(int_chars(p.wrapping_add(q) as int)),
                            _ => Some(cycle_text()),
                        }
                    } else {
                        None
                    }
                },
                _ => None,
            },
            None => None,
        }
    }

    /// The texts of the cells, slot by slot.
    pub closed spec fn texts(&self) -> Seq<String> {
        self.text@
    }

    /// The value of a formula `t` that does not read a formula cell: an
    /// enabled `add` whose arguments are not two references inside the
    /// book gives `#ERR`; an enabled `sum` over a range of plain cells gives
    /// their sum (or `#CYCLE`), one whose range does not parse gives `#ERR`;
    /// a formula that calls no enabled function gives `#ERR`.
    pub open spec fn other_value_of(&self, t: Seq<char>) -> Option<Seq<char>> {
        if t.len() >= 1 && t[0] == '=' && self.enabled("add"@) && Self::is_call(t, 1, t.len() as int, "add("@) {
            match add_args(t) {
                Some((x, y)) => if decode_ref_spec(x, self.spec_rows(), self.spec_columns()) is None || decode_ref_spec(
                    y,
                    self.spec_rows(),
                    self.spec_columns(),
                ) is None {
                    Some(err_text())
                } else {
                    None
                },
                None => Some(err_text()),
            }
        } else if t.len() >= 1 && t[0] == '=' {
            if self.enabled("sum"@) && Self::is_call(t, 1, t.len() as int, "sum("@) {
                let tb = crate::text::trim_bounds(t, 5, t.len() - 1);
                match range_spec(t, tb.0, tb.1, self.spec_rows(), self.spec_columns()) {
                    Some((s, e)) => {
                        let r0 = if s.0 < e.0 { s.0 } else { e.0 };
                        let r1 = if s.0 < e.0 { e.0 } else { s.0 };
                        let c0 = if s.1 < e.1 { s.1 } else { e.1 };
                        let c1 = if s.1 < e.1 { e.1 } else { s.1 };
                        if rect_plain(self.texts(), self.spec_columns(), r0 as int, r1 as int, c0 as int, c1 as int) {
                            match rect_sum(self.texts(), self.spec_columns(), r0 as int, r1 as int, c0 as int, c1 as int, 0) {
                                Some(x) => Some(int_chars(x as int)),
                                None => Some(cycle_text()),
                            }
                        } else {
                            None
                        }
                    },
                    None => Some(err_text()),
                }
            } else {
                Some(err_text())
            }
        } else {
            None
        }
    }

    /// The value of the formula `t` where it does not depend on other
    /// formulas: an `add` of two plain cells, a `sum` of plain cells, or a
    /// formula that resolves to `#ERR` without reading any cell.
    pub open spec fn formula_value_of(&self, t: Seq<char>) -> Option<Seq<char>> {
        match self.add_value_of(t) {
            Some(v) => Some(v),
            None => self.other_value_of(t),
        }
    }

    /// Whether evaluating the formula `t` reads slot `j`: an operand of an
    /// enabled `add` of two references inside the book, or a cell of the
    /// range of an enabled `sum`.
    pub open spec fn eval_reads(&self, t: Seq<char>, j: int) -> bool {
        if t.len() >= 1 && t[0] == '=' && self.enabled("add"@) && Self::is_call(t, 1, t.len() as int, "add("@) {
            match add_args(t) {
                Some((x, y)) => match (decode_ref_spec(x, self.spec_rows(), self.spec_columns()), decode_ref_spec(y, self.spec_rows(), self.spec_columns())) {
                    (Some(a), Some(b)) => self.slot(a.0 as int, a.1 as int) == j || self.slot(b.0 as int, b.1 as int) == j,
                    _ => false,
                },
                None => false,
            }
        } else if t.len() >= 1 && t[0] == '=' && self.enabled("sum"@) && Self::is_call(t, 1, t.len() as int, "sum("@) {
            let tb = crate::text::trim_bounds(t, 5, t.len() - 1);
            match range_spec(t, tb.0, tb.1, self.spec_rows(), self.spec_columns()) {
                Some((s, e)) => {
                    let r0 = if s.0 < e.0 { s.0 } else { e.0 };
                    let r1 = if s.0 < e.0 { e.0 } else { s.0 };
                    let c0 = if s.1 < e.1 { s.1 } else { e.1 };
                    let c1 = if s.1 < e.1 { e.1 } else { s.1 };
                    exists|r: int, c: int| r0 <= r <= r1 && c0 <= c <= c1 && #[trigger] self.slot(r, c) == j
                },
                None => false,
            }
        } else {
            false
        }
    }

    /// The value slot `i` must take when its formula does not depend on
    /// other formulas, and `#CYCLE` when its formula reads the slot itself.
    pub open spec fn simple_value(&self, i: int) -> Option<Seq<char>> {
        match self.formula_value_of(self.text_at(i)) {
            Some(v) => Some(v),
            None => if self.eval_reads(self.text_at(i), i) { Some(cycle_text()) } else { None },
        }
    }

    /// The book's invariant: one text, value, dependency list and dependent
    /// list per cell, slots in range, and the dependents of each cell are
    /// exactly the cells that read it.
    pub closed spec fn wf(&self) -> bool {
        &&& self.shape_ok()
        &&& forall|i: int, j: int|
            0 <= i < self.n() && 0 <= j < self.n() ==> (#[trigger] self.listed_dependent(i, j) <==> self.reads(j, i))
    }

    /// One text, value, dependency list and dependent list per cell, and
    /// every listed slot inside the book.
    closed spec fn shape_ok(&self) -> bool {
        &&& self.rows * self.columns <= usize::MAX
        &&& self.text@.len() == self.n()
        &&& self.value@.len() == self.n()
        &&& self.deps@.len() == self.n()
        &&& self.rev_deps@.len() == self.n()
        &&& forall|i: int, k: int|
            0 <= i < self.n() && 0 <= k < self.deps@[i]@.len() ==> (#[trigger] self.deps@[i]@[k]) < self.n()
        &&& forall|i: int, k: int|
            0 <= i < self.n() && 0 <= k < self.rev_deps@[i]@.len() ==> (#[trigger] self.rev_deps@[i]@[k]) < self.n()
    }

    /// `p` is a chain of slots, each one reading the one before it.
    pub open spec fn is_chain(&self, p: Seq<int>) -> bool {
        &&& p.len() >= 1
        &&& forall|k: int| 0 <= k < p.len() ==> 0 <= #[trigger] p[k] < self.n()
        &&& forall|k: int| 0 <= k < p.len() - 1 ==> #[trigger] self.reads(p[k + 1], p[k])
    }

    /// Slot `b` depends on slot `a`, directly or through other slots (every
    /// slot depends on itself).
    pub open spec fn reaches(&self, a: int, b: int) -> bool {
        exists|p: Seq<int>| #[trigger] self.is_chain(p) && p[0] == a && p.last() == b
    }

    /// What evaluating slot `i` may give: a plain text stands for itself; a
    /// formula gives a number, `#ERR` or `#CYCLE`.
    pub open spec fn result_ok(&self, i: int, v: Seq<char>) -> bool {
        if is_formula(self.text_at(i)) {
            formula_value(v)
        } else {
            v == self.text_at(i)
        }
    }

    /// A book of `rows` by `columns` empty cells, with the formula
    /// functions named in `functions` enabled.
    pub fn new(rows: usize, columns: usize, functions: Vec<String>) -> (r: FormulaBook)
        requires
            rows * columns <= usize::MAX,
        ensures
            r.wf(),
            r.spec_rows() == rows,
            r.spec_columns() == columns,
            forall|i: int| 0 <= i < r.n() ==> r.text_at(i).len() == 0 && r.value_at(i).len() == 0,
            forall|i: int, j: int| 0 <= i < r.n() && 0 <= j < r.n() ==> !r.reads(j, i),
            forall|name: Seq<char>| r.enabled(name) <==> exists|k: int| 0 <= k < functions@.len() && (#[trigger] functions@[k])@ == name,
    {
        let len = rows * columns;
        let mut text: Vec<String> = Vec::new();
        let mut value: Vec<String> = Vec::new();
        let mut deps: Vec<Vec<usize>> = Vec::new();
        let mut rev_deps: Vec<Vec<usize>> = Vec::new();
        let mut i: usize = 0;
        while i < len
            invariant
                i <= len,
                text@.len() == i,
                value@.len() == i,
                deps@.len() == i,
                rev_deps@.len() == i,
                forall|k: int| 0 <= k < i ==> (#[trigger] text@[k])@.len() == 0,
                forall|k: int| 0 <= k < i ==> (#[trigger] value@[k])@.len() == 0,
                forall|k: int| 0 <= k < i ==> (#[trigger] deps@[k])@.len() == 0,
                forall|k: int| 0 <= k < i ==> (#[trigger] rev_deps@[k])@.len() == 0,
            decreases len - i,
        {
            text.push(String::new());
            value.push(String::new());
            deps.push(Vec::new());
            rev_deps.push(Vec::new());
            i = i + 1;
        }
        let r = FormulaBook { rows, columns, text, value, deps, rev_deps, functions };
        assert(r.n() == len);
        assert forall|i: int, j: int| 0 <= i < r.n() && 0 <= j < r.n() implies !r.reads(j, i)
            && !r.listed_dependent(i, j) by {
            assert(deps@[j]@.len() == 0);
            assert(deps@[i]@.len() == 0);
            assert(rev_deps@[i]@.len() == 0);
        }
        assert forall|name: Seq<char>| r.enabled(name) <==> exists|k: int| 0 <= k < functions@.len() && (#[trigger] functions@[k])@ == name by {
            if r.enabled(name) {
                let k = choose|k: int| 0 <= k < r.functions@.len() && (#[trigger] r.functions@[k])@ == name;
                assert(functions@[k]@ == name);
            }
            if exists|k: int| 0 <= k < functions@.len() && (#[trigger] functions@[k])@ == name {
                let k = choose|k: int| 0 <= k < functions@.len() && (#[trigger] functions@[k])@ == name;
                assert(r.functions@[k]@ == name);
            }
        }
        r
    }

    pub fn rows(&self) -> (r: usize)
        ensures
            r == self.spec_rows(),
    {
        self.rows
    }

    pub fn columns(&self) -> (r: usize)
        ensures
            r == self.spec_columns(),
    {
        self.columns
    }

    /// The slot of a cell in the book.
    fn idx(&self, row: usize, col: usize) -> (r: usize)
        requires
            self.shape_ok(),
            self.in_book(row as int, col as int),
        ensures
            r == self.slot(row as int, col as int),
            r < self.n(),
    {
        proof {
            assert((row - 1) * self.columns + (col - 1) < self.rows * self.columns) by (nonlinear_arith)
                requires
                    1 <= row <= self.rows,
                    1 <= col <= self.columns,
            ;
        }
        (row - 1) * self.columns + (col - 1)
    }

    /// The current value of a cell.
    pub fn value(&self, row: usize, col: usize) -> (r: &str)
        requires
            self.wf(),
            self.in_book(row as int, col as int),
        ensures
            r@ == self.value_at(self.slot(row as int, col as int)),
    {
        let i = self.idx(row, col);
        self.value[i].as_str()
    }

    /// The text of a cell.
    pub fn text(&self, row: usize, col: usize) -> (r: &str)
        requires
            self.wf(),
            self.in_book(row as int, col as int),
        ensures
            r@ == self.text_at(self.slot(row as int, col as int)),
    {
        let i = self.idx(row, col);
        self.text[i].as_str()
    }

    /// The cell that an owner id such as `B3` names, if it is in the book.
    pub fn parse_owner(&self, owner_id: &str) -> (r: Option<(usize, usize)>)
        ensures
            r == decode_ref_spec(owner_id@, self.spec_rows(), self.spec_columns()),
    {
        let v = chars_of(owner_id);
        assert(v@.subrange(0, v@.len() as int) =~= owner_id@);
        self.decode_ref_tuple(&v, 0, v.len())
    }

    /// Decodes the cell reference `v[lo..hi]`.
    fn decode_ref_tuple(&self, v: &[char], lo: usize, hi: usize) -> (r: Option<(usize, usize)>)
        requires
            lo <= hi <= v@.len(),
        ensures
            r == decode_ref_spec(v@.subrange(lo as int, hi as int), self.rows as nat, self.columns as nat),
            r matches Some((row, col)) ==> 1 <= row <= self.rows && 1 <= col <= self.columns,
    {
        let ghost s = v@.subrange(lo as int, hi as int);
        if lo == hi {
            return None;
        }
        let c0 = v[lo];
        let c = if 'a' <= c0 && c0 <= 'z' {
            ((c0 as u32) - 32) as u8 as char
        } else {
            c0
        };
        assert(c == ascii_upper(s[0]));
        if !('A' <= c && c <= 'Z') {
            return None;
        }
        assert(s.drop_first() =~= v@.subrange(lo + 1, hi as int));
        let row = match parse_usize(v, lo + 1, hi) {
            Some(r) => r,
            None => return None,
        };
        let col = ((c as u32) - ('A' as u32)) as usize + 1;
        if row == 0 || row > self.rows || col == 0 || col > self.columns {
            return None;
        }
        Some((row, col))
    }

    /// Decodes a cell reference into its slot.
    fn decode_ref(&self, v: &[char], lo: usize, hi: usize) -> (r: Option<usize>)
        requires
            self.shape_ok(),
            lo <= hi <= v@.len(),
        ensures
            r matches Some(i) ==> i < self.n(),
            r is Some <==> decode_ref_spec(v@.subrange(lo as int, hi as int), self.rows as nat, self.columns as nat) is Some,
            r matches Some(i) ==> decode_ref_spec(v@.subrange(lo as int, hi as int), self.rows as nat, self.columns as nat)
                matches Some(rc) && i == self.slot(rc.0 as int, rc.1 as int),
    {
        match self.decode_ref_tuple(v, lo, hi) {
            Some((row, col)) => Some(self.idx(row, col)),
            None => None,
        }
    }

    /// `a:b` with two cell references.
    fn parse_range(&self, v: &[char], lo: usize, hi: usize) -> (r: Option<((usize, usize), (usize, usize))>)
        requires
            lo <= hi <= v@.len(),
        ensures
            r matches Some((a, b)) ==> self.in_book(a.0 as int, a.1 as int) && self.in_book(b.0 as int, b.1 as int),
            r == range_spec(v@, lo as int, hi as int, self.rows as nat, self.columns as nat),
    {
        let c = match crate::syntax::expr::find_char_sub(v, lo, ':') {
            Some(c) => c,
            None => return None,
        };
        if c >= hi {
            return None;
        }
        let a = match self.decode_ref_tuple(v, lo, c) {
            Some(a) => a,
            None => return None,
        };
        let b = match self.decode_ref_tuple(v, c + 1, hi) {
            Some(b) => b,
            None => return None,
        };
        Some((a, b))
    }

    fn has_function(&self, name: &str) -> (r: bool)
        ensures
            r == self.enabled(name@),
    {
        let mut i: usize = 0;
        while i < self.functions.len()
            invariant
                i <= self.functions@.len(),
                forall|m: int| 0 <= m < i ==> (#[trigger] self.functions@[m])@ != name@,
            decreases self.functions.len() - i,
        {
            if str_eq(&self.functions[i], name) {
                return true;
            }
            i = i + 1;
        }
        false
    }

    /// The body of `name(...)` in `v[lo..hi]`: after the `(`, before the
    /// final `)`.
    fn call_args(v: &[char], lo: usize, hi: usize, name: &str) -> (r: Option<(usize, usize)>)
        requires
            lo <= hi <= v@.len(),
        ensures
            r matches Some((a, b)) ==> lo < a <= b < hi && a == lo + name@.len() && b == hi - 1
                && occurs_at(v@, lo as int, name@) && v@[hi - 1] == ')',
            r is None ==> !(name@.len() > 0 && lo + name@.len() < hi && occurs_at(v@, lo as int, name@) && v@[hi - 1] == ')'),
    {
        let prefix = chars_of(name);
        if !lit_at(v, lo, name) || prefix.len() > hi - lo {
            return None;
        }
        let a = lo + prefix.len();
        if a >= hi || v[hi - 1] != ')' || a == lo {
            return None;
        }
        Some((a, hi - 1))
    }

    /// Whether `v[lo..hi]` is a call of `name` (which ends in `(`) with a
    /// closing `)` at the end.
    pub open spec fn is_call(v: Seq<char>, lo: int, hi: int, name: Seq<char>) -> bool {
        name.len() > 0 && lo + name.len() < hi && occurs_at(v, lo, name) && v[hi - 1] == ')'
    }

    /// The slots that a cell text reads: the references of an enabled
    /// `=add(...)`, else every cell of the range of an enabled
    /// `=sum(...)`, row by row, else none.
    pub open spec fn expression_refs(&self, v: Seq<char>) -> Seq<int> {
        if v.len() == 0 || v[0] != '=' {
            Seq::empty()
        } else if self.enabled("add"@) && Self::is_call(v, 1, v.len() as int, "add("@) {
            add_refs(self.spec_rows(), self.spec_columns(), v, 5, 5, v.len() - 1)
        } else if self.enabled("sum"@) && Self::is_call(v, 1, v.len() as int, "sum("@) {
            let t = crate::text::trim_bounds(v, 5, v.len() - 1);
            match range_spec(v, t.0, t.1, self.spec_rows(), self.spec_columns()) {
                Some((s, e)) => {
                    let r0 = if s.0 < e.0 { s.0 } else { e.0 };
                    let r1 = if s.0 < e.0 { e.0 } else { s.0 };
                    let c0 = if s.1 < e.1 { s.1 } else { e.1 };
                    let c1 = if s.1 < e.1 { e.1 } else { s.1 };
                    rect_refs(self.spec_columns(), r0 as int, r1 as int, c0 as int, c1 as int)
                },
                None => Seq::empty(),
            }
        } else {
            Seq::empty()
        }
    }

    /// The slots that a cell text reads: the two references of an enabled
    /// `=add(a, b)`, or every cell of the range of an enabled `=sum(a:b)`.
    fn collect_expression_refs(&self, text: &[char]) -> (r: Vec<usize>)
        requires
            self.shape_ok(),
        ensures
            forall|k: int| 0 <= k < r@.len() ==> (#[trigger] r@[k]) < self.n(),
            r@.map_values(|x: usize| x as int) == self.expression_refs(text@),
    {
        let mut out: Vec<usize> = Vec::new();
        if text.len() == 0 || text[0] != '=' {
            assert(out@.map_values(|x: usize| x as int) =~= Seq::<int>::empty());
            return out;
        }
        proof {
            reveal_strlit("add(");
            reveal_strlit("sum(");
        }
        if self.has_function("add") {
            if let Some((a, b)) = Self::call_args(text, 1, text.len(), "add(") {
                let len = text.len();
                let mut start = a;
                let mut i = a;
                let ghost total = add_refs(self.spec_rows(), self.spec_columns(), text@, a as int, a as int, b as int);
                assert(out@.map_values(|x: usize| x as int) =~= Seq::<int>::empty());
                while i <= b
                    invariant
                        a <= start <= i <= b + 1,
                        b < len == text@.len(),
                        self.shape_ok(),
                        forall|k: int| 0 <= k < out@.len() ==> (#[trigger] out@[k]) < self.n(),
                        total == add_refs(self.spec_rows(), self.spec_columns(), text@, a as int, a as int, b as int),
                        out@.map_values(|x: usize| x as int) + add_refs(self.spec_rows(), self.spec_columns(), text@, start as int, i as int, b as int) == total,
                    decreases b + 1 - i,
                {
                    let ghost o0 = out@.map_values(|x: usize| x as int);
                    if i == b || text[i] == ',' {
                        let (x, y) = trim_range(text, start, i);
                        if let Some(slot) = self.decode_ref(text, x, y) {
                            out.push(slot);
                            assert(out@.map_values(|x: usize| x as int) =~= o0.push(slot as int));
                        }
                        assert(out@.map_values(|x: usize| x as int) + add_refs(self.spec_rows(), self.spec_columns(), text@, i + 1, i + 1, b as int) =~= o0
                            + add_refs(self.spec_rows(), self.spec_columns(), text@, start as int, i as int, b as int));
                        start = i + 1;
                    }
                    i = i + 1;
                }
                assert(add_refs(self.spec_rows(), self.spec_columns(), text@, start as int, i as int, b as int) =~= Seq::<int>::empty());
                assert(out@.map_values(|x: usize| x as int) =~= total);
                return out;
            }
        }
        if self.has_function("sum") {
            if let Some((a, b)) = Self::call_args(text, 1, text.len(), "sum(") {
                let (x, y) = trim_range(text, a, b);
                if let Some((s, e)) = self.parse_range(text, x, y) {
                    let r0 = if s.0 < e.0 { s.0 } else { e.0 };
                    let r1 = if s.0 < e.0 { e.0 } else { s.0 };
                    let c0 = if s.1 < e.1 { s.1 } else { e.1 };
                    let c1 = if s.1 < e.1 { e.1 } else { s.1 };
                    let mut row = r0;
                    let ghost total = rect_refs(self.spec_columns(), r0 as int, r1 as int, c0 as int, c1 as int);
                    assert(out@.map_values(|x: usize| x as int) =~= Seq::<int>::empty());
                    assert(out@.map_values(|x: usize| x as int) + total =~= total);
                    loop
                        invariant_except_break
                            out@.map_values(|x: usize| x as int) + rect_refs(self.spec_columns(), row as int, r1 as int, c0 as int, c1 as int) == total,
                        invariant
                            r0 <= row <= r1,
                            1 <= r0 && r1 <= self.rows,
                            1 <= c0 <= c1 <= self.columns,
                            self.shape_ok(),
                            forall|k: int| 0 <= k < out@.len() ==> (#[trigger] out@[k]) < self.n(),
                            total == rect_refs(self.spec_columns(), r0 as int, r1 as int, c0 as int, c1 as int),
                        ensures
                            out@.map_values(|x: usize| x as int) == total,
                            forall|k: int| 0 <= k < out@.len() ==> (#[trigger] out@[k]) < self.n(),
                        decreases r1 - row,
                    {
                        let mut col = c0;
                        let ghost rest = rect_refs(self.spec_columns(), row + 1, r1 as int, c0 as int, c1 as int);
                        loop
                            invariant_except_break
                                out@.map_values(|x: usize| x as int) + row_refs(self.spec_columns(), row as int, col as int, c1 as int) + rest == total,
                            invariant
                                c0 <= col <= c1,
                                r0 <= row <= r1,
                                1 <= r0 && r1 <= self.rows,
                                1 <= c0 <= c1 <= self.columns,
                                self.shape_ok(),
                                forall|k: int| 0 <= k < out@.len() ==> (#[trigger] out@[k]) < self.n(),
                                total == rect_refs(self.spec_columns(), r0 as int, r1 as int, c0 as int, c1 as int),
                                rest == rect_refs(self.spec_columns(), row + 1, r1 as int, c0 as int, c1 as int),
                            ensures
                                out@.map_values(|x: usize| x as int) + rest == total,
                            decreases c1 - col,
                        {
                            let ghost o0 = out@.map_values(|x: usize| x as int);
                            let slot = self.idx(row, col);
                            out.push(slot);
                            assert(out@.map_values(|x: usize| x as int) =~= o0.push(slot as int));
                            assert(out@.map_values(|x: usize| x as int) + row_refs(self.spec_columns(), row as int, col + 1, c1 as int) =~= o0
                                + row_refs(self.spec_columns(), row as int, col as int, c1 as int));
                            if col == c1 {
                                assert(row_refs(self.spec_columns(), row as int, col + 1, c1 as int) =~= Seq::<int>::empty());
                                assert(out@.map_values(|x: usize| x as int) + rest =~= o0 + row_refs(self.spec_columns(), row as int, col as int, c1 as int) + rest);
                                break;
                            }
                            col = col + 1;
                        }
                        if row == r1 {
                            assert(rest =~= Seq::<int>::empty());
                            assert(out@.map_values(|x: usize| x as int) =~= out@.map_values(|x: usize| x as int) + rest);
                            break;
                        }
                        row = row + 1;
                    }
                }
            }
        }
        out
    }

    /// The memo holds only results that slot evaluation may give.
    closed spec fn memo_ok(&self, memo: Seq<Option<String>>) -> bool {
        &&& memo.len() == self.n()
        &&& forall|j: int| 0 <= j < self.n() && (#[trigger] memo[j]) is Some ==> self.result_ok(j, memo[j]->0@)
        &&& forall|j: int| 0 <= j < self.n() && (#[trigger] memo[j]) is Some && self.simple_value(j) is Some
            ==> memo[j]->0@ == self.simple_value(j)->0
        &&& forall|j: int| 0 <= j < self.n() && (#[trigger] memo[j]) is Some && self.chain_value(j) is Some
            ==> memo[j]->0@ == self.chain_value(j)->0
    }

    /// The value a formula reads from slot `j`: a plain text as itself, a
    /// formula cell its simple value where it has one.
    pub open spec fn operand_value(&self, j: int) -> Option<Seq<char>> {
        if !is_formula(self.text_at(j)) {
            Some(self.text_at(j))
        } else {
            self.simple_value(j)
        }
    }

    /// The two slots an enabled `add` formula `t` reads, where both of its
    /// arguments are references inside the book.
    pub open spec fn add_operands(&self, t: Seq<char>) -> Option<(int, int)> {
        if t.len() >= 1 && t[0] == '=' && self.enabled("add"@) && Self::is_call(t, 1, t.len() as int, "add("@) {
            match add_args(t) {
                Some((x, y)) => match (decode_ref_spec(x, self.spec_rows(), self.spec_columns()), decode_ref_spec(y, self.spec_rows(), self.spec_columns())) {
                    (Some(a), Some(b)) => Some((self.slot(a.0 as int, a.1 as int), self.slot(b.0 as int, b.1 as int))),
                    _ => None,
                },
                None => None,
            }
        } else {
            None
        }
    }

    /// The value of an `add` whose operands hold `va` and `vb`: the
    /// (wrapping) sum of their numbers, or `#CYCLE` where one of them holds
    /// that text.
    pub open spec fn add_result(va: Seq<char>, vb: Seq<char>) -> Seq<char> {
        match (plain_number(va), plain_number(vb)) {
            (Some(p), Some(q)) => int_chars(p.wrapping_add(q) as int),
            _ => cycle_text(),
        }
    }

    /// The value of slot `i` where it holds an enabled `add` of two other
    /// cells whose values are known: plain cells, or formula cells with a
    /// simple value. A formula operand counts with its evaluated value.
    pub open spec fn chain_value(&self, i: int) -> Option<Seq<char>> {
        match self.add_operands(self.text_at(i)) {
            Some((a, b)) => if a != i && b != i {
                match (self.operand_value(a), self.operand_value(b)) {
                    (Some(va), Some(vb)) => Some(Self::add_result(va, vb)),
                    _ => None,
                }
            } else {
                None
            },
            None => None,
        }
    }

    /// Every slot under evaluation whose value does not depend on other
    /// formulas reads itself.
    closed spec fn vis_ok(&self, visiting: Seq<bool>) -> bool {
        forall|v: int| 0 <= v < visiting.len() && #[trigger] visiting[v] && self.simple_value(v) is Some
            ==> self.simple_value(v) == Some(cycle_text())
    }

    /// No slot under evaluation has a memoised result.
    closed spec fn vm_ok(&self, visiting: Seq<bool>, memo: Seq<Option<String>>) -> bool {
        forall|j: int| 0 <= j < visiting.len() && #[trigger] visiting[j] ==> memo[j] is None
    }

    /// Only formula slots are ever under evaluation.
    closed spec fn visiting_ok(&self, visiting: Seq<bool>) -> bool {
        &&& visiting.len() == self.n()
        &&& forall|j: int| 0 <= j < self.n() && #[trigger] visiting[j] ==> is_formula(self.text_at(j))
    }

    /// Replaces the text of a cell, updates which cells read which, and
    /// recomputes every cell that depends on the edited one.
    pub fn set_text(&mut self, row: usize, col: usize, text: String)
        requires
            old(self).wf(),
            old(self).in_book(row as int, col as int),
        ensures
            final(self).wf(),
            final(self).spec_rows() == old(self).spec_rows(),
            final(self).spec_columns() == old(self).spec_columns(),
            forall|name: Seq<char>| final(self).enabled(name) == old(self).enabled(name),
            final(self).text_at(old(self).slot(row as int, col as int)) == text@,
            forall|i: int| 0 <= i < old(self).n() && i != old(self).slot(row as int, col as int)
                ==> final(self).text_at(i) == old(self).text_at(i),
            forall|i: int, j: int| 0 <= i < old(self).n() && 0 <= j < old(self).n() && j != old(self).slot(row as int, col as int)
                ==> final(self).reads(j, i) == old(self).reads(j, i),
            final(self).result_ok(
                old(self).slot(row as int, col as int),
                final(self).value_at(old(self).slot(row as int, col as int)),
            ),
            final(self).simple_value(old(self).slot(row as int, col as int)) is Some ==> final(self).value_at(
                old(self).slot(row as int, col as int),
            ) == final(self).simple_value(old(self).slot(row as int, col as int))->0,
            forall|i: int| 0 <= i < old(self).n() ==> final(self).value_at(i) == old(self).value_at(i) || (
                final(self).reaches(old(self).slot(row as int, col as int), i)
                && final(self).result_ok(i, final(self).value_at(i))),
            forall|i: int| 0 <= i < old(self).n() ==> (#[trigger] final(self).reads(old(self).slot(row as int, col as int), i)
                <==> final(self).expression_refs(text@).contains(i)),
            forall|i: int| 0 <= i < old(self).n() && #[trigger] final(self).reaches(old(self).slot(row as int, col as int), i)
                ==> final(self).result_ok(i, final(self).value_at(i)) && (final(self).simple_value(i) is Some
                ==> final(self).value_at(i) == final(self).simple_value(i)->0) && (final(self).chain_value(i) is Some
                ==> final(self).value_at(i) == final(self).chain_value(i)->0),
    {
        let idx = self.idx(row, col);
        let ghost pre = *self;
        let ghost n = self.n();
        let ghost od = pre.deps@[idx as int]@;
        let old_len = self.deps[idx].len();
        let mut k: usize = 0;
        while k < old_len
            invariant
                self.shape_ok(),
                pre.wf(),
                self.n() == n == pre.n(),
                idx < n,
                self.rows == pre.rows && self.columns == pre.columns,
                self.text == pre.text && self.value == pre.value && self.deps == pre.deps,
                self.functions == pre.functions,
                od == pre.deps@[idx as int]@,
                k <= old_len == od.len(),
                forall|i: int, j: int| 0 <= i < n && 0 <= j < n && j != idx
                    ==> (#[trigger] self.rev_deps@[i]@.contains(j as usize) <==> pre.rev_deps@[i]@.contains(j as usize)),
                forall|i: int| 0 <= i < n ==> (#[trigger] self.rev_deps@[i]@.contains(idx) <==> (
                    pre.rev_deps@[i]@.contains(idx) && !od.subrange(0, k as int).contains(i as usize))),
            decreases old_len - k,
        {
            let dep = self.deps[idx][k];
            let ghost prev = self.rev_deps@;
            let cur = without(&self.rev_deps[dep], idx, n_exec(self));
            self.rev_deps.set(dep, cur);
            proof {
                assert(od.subrange(0, k + 1) =~= od.subrange(0, k as int).push(dep));
                assert forall|i: int| 0 <= i < n implies (#[trigger] self.rev_deps@[i]@.contains(idx) <==> (
                    pre.rev_deps@[i]@.contains(idx) && !od.subrange(0, k + 1).contains(i as usize))) by {
                    lemma_seq_contains_after_push(od.subrange(0, k as int), dep, i as usize);
                    if i != dep {
                        assert(self.rev_deps@[i] == prev[i]);
                    }
                }
                assert forall|i: int, j: int| 0 <= i < n && 0 <= j < n && j != idx
                    implies (#[trigger] self.rev_deps@[i]@.contains(j as usize) <==> pre.rev_deps@[i]@.contains(j as usize)) by {
                    if i != dep {
                        assert(self.rev_deps@[i] == prev[i]);
                    }
                }
            }
            k = k + 1;
        }
        proof {
            assert(od.subrange(0, old_len as int) =~= od);
            assert forall|i: int| 0 <= i < n implies !#[trigger] self.rev_deps@[i]@.contains(idx) by {
                if pre.rev_deps@[i]@.contains(idx) {
                    assert(pre.listed_dependent(i, idx as int));
                    assert(pre.reads(idx as int, i));
                }
            }
        }
        let chars = chars_of_string(&text);
        let new_deps = self.collect_expression_refs(&chars);
        let new_len = new_deps.len();
        let mut k: usize = 0;
        while k < new_len
            invariant
                self.shape_ok(),
                pre.wf(),
                self.n() == n == pre.n(),
                idx < n,
                self.rows == pre.rows && self.columns == pre.columns,
                self.text == pre.text && self.value == pre.value && self.deps == pre.deps,
                self.functions == pre.functions,
                k <= new_len == new_deps@.len(),
                forall|m: int| 0 <= m < new_deps@.len() ==> (#[trigger] new_deps@[m]) < n,
                forall|i: int, j: int| 0 <= i < n && 0 <= j < n && j != idx
                    ==> (#[trigger] self.rev_deps@[i]@.contains(j as usize) <==> pre.rev_deps@[i]@.contains(j as usize)),
                forall|i: int| 0 <= i < n ==> (#[trigger] self.rev_deps@[i]@.contains(idx) <==>
                    new_deps@.subrange(0, k as int).contains(i as usize)),
            decreases new_len - k,
        {
            let dep = new_deps[k];
            let ghost prev = self.rev_deps@;
            let cur = with(&self.rev_deps[dep], idx, n_exec(self));
            self.rev_deps.set(dep, cur);
            proof {
                assert(new_deps@.subrange(0, k + 1) =~= new_deps@.subrange(0, k as int).push(dep));
                assert forall|i: int| 0 <= i < n implies (#[trigger] self.rev_deps@[i]@.contains(idx) <==>
                    new_deps@.subrange(0, k + 1).contains(i as usize)) by {
                    lemma_seq_contains_after_push(new_deps@.subrange(0, k as int), dep, i as usize);
                    if i != dep {
                        assert(self.rev_deps@[i] == prev[i]);
                    }
                }
                assert forall|i: int, j: int| 0 <= i < n && 0 <= j < n && j != idx
                    implies (#[trigger] self.rev_deps@[i]@.contains(j as usize) <==> pre.rev_deps@[i]@.contains(j as usize)) by {
                    if i != dep {
                        assert(self.rev_deps@[i] == prev[i]);
                    }
                }
            }
            k = k + 1;
        }
        proof {
            assert(new_deps@.subrange(0, new_len as int) =~= new_deps@);
        }
        let ghost mid = *self;
        self.deps.set(idx, new_deps);
        self.text.set(idx, text);
        proof {
            assert forall|i: int, j: int| 0 <= i < n && 0 <= j < n
                implies (#[trigger] self.listed_dependent(i, j) <==> self.reads(j, i)) by {
                assert(self.rev_deps == mid.rev_deps);
                if j != idx {
                    assert(pre.listed_dependent(i, j) <==> pre.reads(j, i));
                    assert(self.deps@[j] == pre.deps@[j]);
                    assert(mid.rev_deps@[i]@.contains(j as usize) <==> pre.rev_deps@[i]@.contains(j as usize));
                } else {
                    assert(mid.rev_deps@[i]@.contains(idx) <==> new_deps@.contains(i as usize));
                }
            }
            assert(self.wf());
        }
        proof {
            assert forall|i: int| 0 <= i < n implies (self.reads(idx as int, i) <==> pre.expression_refs(text@).contains(i)) by {
                if pre.expression_refs(text@).contains(i) {
                    let m = choose|m: int| 0 <= m < pre.expression_refs(text@).len() && pre.expression_refs(text@)[m] == i;
                    assert(new_deps@.map_values(|x: usize| x as int)[m] == i);
                    assert(new_deps@[m] == i as usize);
                }
                if self.reads(idx as int, i) {
                    let m = choose|m: int| 0 <= m < new_deps@.len() && new_deps@[m] == i as usize;
                    assert(new_deps@.map_values(|x: usize| x as int)[m] == i);
                }
            }
        }
        let ghost mid2 = *self;
        self.recalc_dirty(idx);
        proof {
            lemma_simple_same(mid2, *self);
            lemma_same_links(mid2, *self);
            assert(self.enabled("add"@) == pre.enabled("add"@));
            assert(self.enabled("sum"@) == pre.enabled("sum"@));
            assert(self.expression_refs(text@) == pre.expression_refs(text@));
            assert forall|i: int| 0 <= i < n implies (#[trigger] self.reads(idx as int, i) <==> mid2.reads(idx as int, i)) by {
            }
        }
    }

    /// Recomputes the values of the cells that depend on slot `changed`.
    fn recalc_dirty(&mut self, changed: usize)
        requires
            old(self).wf(),
            changed < old(self).n(),
        ensures
            final(self).wf(),
            final(self).rows == old(self).rows && final(self).columns == old(self).columns,
            final(self).text == old(self).text && final(self).deps == old(self).deps,
            final(self).rev_deps == old(self).rev_deps && final(self).functions == old(self).functions,
            final(self).result_ok(changed as int, final(self).value_at(changed as int)),
            forall|i: int| 0 <= i < old(self).n() ==> final(self).value_at(i) == old(self).value_at(i) || (
                final(self).reaches(changed as int, i) && final(self).result_ok(i, final(self).value_at(i))),
            old(self).simple_value(changed as int) is Some ==> final(self).value_at(changed as int)
                == old(self).simple_value(changed as int)->0,
            forall|i: int| 0 <= i < old(self).n() && #[trigger] old(self).reaches(changed as int, i) ==> final(self).result_ok(
                i,
                final(self).value_at(i),
            ) && (old(self).simple_value(i) is Some ==> final(self).value_at(i) == old(self).simple_value(i)->0)
                && (old(self).chain_value(i) is Some ==> final(self).value_at(i) == old(self).chain_value(i)->0),
    {
        let n = n_exec(self);
        let mut dirty = falses(n);
        let ghost start: Seq<int> = seq![changed as int];
        proof {
            assert(self.is_chain(start));
        }
        self.collect_dependents(changed, &mut dirty, Ghost(changed as int), Ghost(start));
        proof {
            assert forall|i: int| 0 <= i < self.n() && #[trigger] self.reaches(changed as int, i) implies dirty@[i] by {
                let p = choose|p: Seq<int>| #[trigger] self.is_chain(p) && p[0] == changed as int && p.last() == i;
                lemma_chain_marked(*self, dirty@, p);
            }
        }
        let mut memo: Vec<Option<String>> = Vec::new();
        let mut i: usize = 0;
        while i < n
            invariant
                i <= n == self.n(),
                memo@.len() == i,
                forall|j: int| 0 <= j < i ==> (#[trigger] memo@[j]) is None,
            decreases n - i,
        {
            memo.push(None);
            i = i + 1;
        }
        let ghost pre = *self;
        let mut i: usize = 0;
        while i < n
            invariant
                self.wf(),
                i <= n == self.n() == pre.n(),
                self.rows == pre.rows && self.columns == pre.columns,
                self.text == pre.text && self.deps == pre.deps,
                self.rev_deps == pre.rev_deps && self.functions == pre.functions,
                self.memo_ok(memo@),
                dirty@.len() == n,
                dirty@[changed as int],
                forall|j: int| 0 <= j < n && #[trigger] dirty@[j] ==> pre.reaches(changed as int, j),
                forall|j: int| 0 <= j < n && #[trigger] pre.reaches(changed as int, j) ==> dirty@[j],
                pre == *old(self),
                forall|j: int| 0 <= j < n ==> self.value_at(j) == old(self).value_at(j) || (
                    dirty@[j] && self.result_ok(j, #[trigger] self.value_at(j))),
                forall|j: int| 0 <= j < i && dirty@[j] ==> self.result_ok(j, #[trigger] self.value_at(j)),
                forall|j: int| 0 <= j < i && dirty@[j] && pre.simple_value(j) is Some
                    ==> #[trigger] self.value_at(j) == pre.simple_value(j)->0,
                forall|j: int| 0 <= j < i && dirty@[j] && pre.chain_value(j) is Some
                    ==> #[trigger] self.value_at(j) == pre.chain_value(j)->0,
            decreases n - i,
        {
            if dirty[i] {
                let mut visiting = falses(n);
                proof {
                    lemma_count_none_true(visiting@);
                }
                let value = self.evaluate_slot(i, &mut visiting, &mut memo);
                let ghost before = *self;
                self.value.set(i, value);
                proof {
                    lemma_same_links(before, *self);
                    lemma_memo_same(before, *self, memo@);
                    lemma_simple_same(pre, before);
                    assert forall|j: int| 0 <= j < n implies self.value_at(j) == old(self).value_at(j) || (
                        dirty@[j] && self.result_ok(j, #[trigger] self.value_at(j))) by {
                        if j != i {
                            assert(self.value_at(j) == before.value_at(j));
                            assert(self.text_at(j) == before.text_at(j));
                        }
                    }
                    assert forall|j: int| 0 <= j <= i && dirty@[j] implies self.result_ok(j, #[trigger] self.value_at(j)) by {
                        if j != i {
                            assert(self.value_at(j) == before.value_at(j));
                            assert(self.text_at(j) == before.text_at(j));
                        }
                    }
                    assert forall|j: int| 0 <= j <= i && dirty@[j] && pre.simple_value(j) is Some
                        implies #[trigger] self.value_at(j) == pre.simple_value(j)->0 by {
                        if j != i {
                            assert(self.value_at(j) == before.value_at(j));
                        }
                    }
                    assert forall|j: int| 0 <= j <= i && dirty@[j] && pre.chain_value(j) is Some
                        implies #[trigger] self.value_at(j) == pre.chain_value(j)->0 by {
                        if j != i {
                            assert(self.value_at(j) == before.value_at(j));
                        }
                    }
                }
            }
            i = i + 1;
        }
        proof {
            lemma_same_links(pre, *self);
        }
    }

    /// Marks slot `idx` and every slot that depends on it, following the
    /// dependent lists from `idx`; `p` is a chain from `root` to `idx`.
    fn collect_dependents(
        &self,
        idx: usize,
        dirty: &mut Vec<bool>,
        Ghost(root): Ghost<int>,
        Ghost(p): Ghost<Seq<int>>,
    )
        requires
            self.wf(),
            idx < self.n(),
            old(dirty)@.len() == self.n(),
            self.is_chain(p),
            p[0] == root,
            p.last() == idx,
            forall|j: int| 0 <= j < self.n() && #[trigger] old(dirty)@[j] ==> self.reaches(root, j),
        ensures
            final(dirty)@.len() == self.n(),
            final(dirty)@[idx as int],
            forall|j: int| 0 <= j < self.n() && #[trigger] final(dirty)@[j] ==> self.reaches(root, j),
            forall|j: int| 0 <= j < self.n() && old(dirty)@[j] ==> #[trigger] final(dirty)@[j],
            count_true(final(dirty)@) >= count_true(old(dirty)@),
            forall|j: int| 0 <= j < self.n() && #[trigger] final(dirty)@[j] && !old(dirty)@[j] ==> self.closed_at(final(dirty)@, j),
        decreases self.n() - count_true(old(dirty)@),
    {
        if dirty[idx] {
            return;
        }
        proof {
            lemma_count_set(dirty@, idx as int);
        }
        dirty.set(idx, true);
        proof {
            lemma_count_bound(dirty@);
        }
        let len = self.rev_deps[idx].len();
        let mut k: usize = 0;
        while k < len
            invariant
                self.wf(),
                idx < self.n(),
                self.is_chain(p),
                p[0] == root,
                p.last() == idx,
                k <= len == self.rev_deps@[idx as int]@.len(),
                dirty@.len() == self.n(),
                dirty@[idx as int],
                count_true(dirty@) > count_true(old(dirty)@),
                count_true(dirty@) <= self.n(),
                forall|j: int| 0 <= j < self.n() && #[trigger] dirty@[j] ==> self.reaches(root, j),
                forall|j: int| 0 <= j < self.n() && old(dirty)@[j] ==> #[trigger] dirty@[j],
                forall|j: int| 0 <= j < self.n() && #[trigger] dirty@[j] && !old(dirty)@[j] && j != idx ==> self.closed_at(dirty@, j),
                forall|m: int| 0 <= m < k ==> dirty@[#[trigger] self.rev_deps@[idx as int]@[m] as int],
                !old(dirty)@[idx as int],
            decreases len - k,
        {
            let d = self.rev_deps[idx][k];
            let ghost q = p.push(d as int);
            proof {
                assert(self.rev_deps@[idx as int]@.contains(d));
                assert(self.listed_dependent(idx as int, d as int));
                assert(self.reads(d as int, idx as int));
                assert forall|m: int| 0 <= m < q.len() - 1 implies #[trigger] self.reads(q[m + 1], q[m]) by {
                    if m < p.len() - 1 {
                        assert(q[m + 1] == p[m + 1] && q[m] == p[m]);
                    }
                }
                assert(self.is_chain(q));
            }
            let ghost before = dirty@;
            self.collect_dependents(d, dirty, Ghost(root), Ghost(q));
            proof {
                lemma_count_bound(dirty@);
                assert forall|j: int| 0 <= j < self.n() && #[trigger] dirty@[j] && !old(dirty)@[j] && j != idx implies self.closed_at(dirty@, j) by {
                    if before[j] {
                        assert forall|m: int| 0 <= m < self.rev_deps@[j]@.len() implies dirty@[#[trigger] self.rev_deps@[j]@[m] as int] by {
                            let x = self.rev_deps@[j]@[m] as int;
                            assert(0 <= x < self.n());
                            assert(before[x]);
                        }
                    }
                }
                assert forall|m: int| 0 <= m < k + 1 implies dirty@[#[trigger] self.rev_deps@[idx as int]@[m] as int] by {
                    if m < k {
                        let x = self.rev_deps@[idx as int]@[m] as int;
                        assert(0 <= x < self.n());
                        assert(before[x]);
                    }
                }
            }
            k = k + 1;
        }
    }

    /// Evaluates slot `idx`: a plain text stands for itself, a formula is
    /// resolved against the cells it reads; a slot reached again while it is
    /// under evaluation gives `#CYCLE`. Results are kept in `memo`.
    #[verifier::spinoff_prover]
    #[verifier::rlimit(100)]
    fn evaluate_slot(&self, idx: usize, visiting: &mut Vec<bool>, memo: &mut Vec<Option<String>>) -> (r: String)
        requires
            self.wf(),
            idx < self.n(),
            self.visiting_ok(old(visiting)@),
            self.memo_ok(old(memo)@),
            self.vm_ok(old(visiting)@, old(memo)@),
            !is_formula(self.text_at(idx as int)) || self.vis_ok(old(visiting)@),
        ensures
            final(visiting)@ == old(visiting)@,
            self.memo_ok(final(memo)@),
            self.vm_ok(final(visiting)@, final(memo)@),
            self.chain_value(idx as int) is Some && !old(visiting)@[idx as int] ==> r@ == self.chain_value(idx as int)->0,
            self.result_ok(idx as int, r@),
            self.simple_value(idx as int) is Some && !old(visiting)@[idx as int] ==> r@ == self.simple_value(idx as int)->0,
            old(visiting)@[idx as int] ==> r@ == cycle_text(),
        decreases 3 * (self.n() - count_true(old(visiting)@)) + 2,
    {
        proof {
            lemma_count_bound(visiting@);
        }
        match &memo[idx] {
            Some(v) => {
                return v.clone();
            },
            None => {},
        }
        if visiting[idx] {
            return cycle_string();
        }
        let t = chars_of_string(&self.text[idx]);
        let value = if t.len() > 0 && t[0] == '=' {
            proof {
                lemma_count_set(visiting@, idx as int);
            }
            visiting.set(idx, true);
            proof {
                lemma_count_bound(visiting@);
            }
            let ghost vis_mid = visiting@;
            assert(vis_mid[idx as int]);
            assert(t@ == self.text_at(idx as int));
            proof {
                assert forall|w: int| 0 <= w < vis_mid.len() && #[trigger] vis_mid[w] && self.text_at(w) != t@
                    && self.simple_value(w) is Some implies self.simple_value(w) == Some(cycle_text()) by {
                    assert(old(visiting)@[w]);
                }
            }
            let v = self.resolve_expression(&t, visiting, memo);
            assert(self.eval_reads(t@, idx as int) ==> v@ == cycle_text());
            proof {
                assert(vis_mid =~= old(visiting)@.update(idx as int, true));
                if self.chain_value(idx as int) is Some {
                    lemma_chain_resolved(*self, idx as int, old(visiting)@, v@);
                }
            }
            visiting.set(idx, false);
            proof {
                assert(visiting@ =~= old(visiting)@);
            }
            v
        } else {
            self.text[idx].clone()
        };
        memo.set(idx, Some(value.clone()));
        value
    }

    /// The number a slot holds for arithmetic: `None` where its evaluation
    /// met a cycle, otherwise its value read as an `i64`, or `0`.
    fn evaluate_number(&self, idx: usize, visiting: &mut Vec<bool>, memo: &mut Vec<Option<String>>) -> (r: Option<i64>)
        requires
            self.wf(),
            idx < self.n(),
            self.visiting_ok(old(visiting)@),
            self.memo_ok(old(memo)@),
            self.vm_ok(old(visiting)@, old(memo)@),
            !is_formula(self.text_at(idx as int)) || self.vis_ok(old(visiting)@),
        ensures
            final(visiting)@ == old(visiting)@,
            self.memo_ok(final(memo)@),
            self.vm_ok(final(visiting)@, final(memo)@),
            !is_formula(self.text_at(idx as int)) ==> r == plain_number(self.text_at(idx as int)),
            old(visiting)@[idx as int] ==> r is None,
            !old(visiting)@[idx as int] && self.simple_value(idx as int) is Some ==> r == plain_number(
                self.simple_value(idx as int)->0,
            ),
        decreases 3 * (self.n() - count_true(old(visiting)@)) + 3,
    {
        proof {
            lemma_count_bound(visiting@);
        }
        let value = self.evaluate_slot(idx, visiting, memo);
        let v = chars_of_string(&value);
        proof {
            reveal_strlit("#CYCLE");
            assert("#CYCLE"@ =~= cycle_text());
            assert(v@.subrange(0, v@.len() as int) =~= v@);
        }
        if str_eq(&value, "#CYCLE") {
            None
        } else {
            match parse_i64(&v, 0, v.len()) {
                Some(x) => Some(x),
                None => Some(0),
            }
        }
    }

    /// Resolves the formula `t` (which starts with `=`): an enabled
    /// `add(a, b)` adds two cells, an enabled `sum(a:b)` adds every cell of
    /// a range; anything else is `#ERR`.
    #[verifier::spinoff_prover]
    #[verifier::rlimit(100)]
    fn resolve_expression(&self, t: &[char], visiting: &mut Vec<bool>, memo: &mut Vec<Option<String>>) -> (r: String)
        requires
            self.wf(),
            t@.len() >= 1,
            t@[0] == '=',
            self.visiting_ok(old(visiting)@),
            self.memo_ok(old(memo)@),
            self.vm_ok(old(visiting)@, old(memo)@),
            forall|v: int| 0 <= v < old(visiting)@.len() && #[trigger] old(visiting)@[v] && self.text_at(v) != t@
                && self.simple_value(v) is Some ==> self.simple_value(v) == Some(cycle_text()),
        ensures
            final(visiting)@ == old(visiting)@,
            self.memo_ok(final(memo)@),
            self.vm_ok(final(visiting)@, final(memo)@),
            forall|j: int| 0 <= j < old(visiting)@.len() && #[trigger] old(visiting)@[j] && self.eval_reads(t@, j) ==> r@ == cycle_text(),
            match self.add_operands(t@) {
                Some((a, b)) => (self.operand_value(a) is Some && self.operand_value(b) is Some && (old(visiting)@[a]
                    ==> self.operand_value(a) == Some(cycle_text())) && (old(visiting)@[b] ==> self.operand_value(b)
                    == Some(cycle_text()))) ==> r@ == Self::add_result(self.operand_value(a)->0, self.operand_value(b)->0),
                None => true,
            },
            formula_value(r@),
            self.formula_value_of(t@) is Some ==> r@ == self.formula_value_of(t@)->0,
        decreases 3 * (self.n() - count_true(old(visiting)@)) + 4,
    {
        proof {
            lemma_count_bound(visiting@);
        }
        let len = t.len();
        let ghost body = t@.subrange(5, len - 1);
        if self.has_function("add") {
            if let Some((a, b)) = Self::call_args(t, 1, len, "add(") {
                proof {
                    reveal_strlit("add(");
                }
                let c = match find_char_from(t, a, ',') {
                    Some(c) => c,
                    None => {
                        proof {
                            assert forall|j: int| 0 <= j < body.len() implies body[j] != ',' by {
                                assert(body[j] == t@[5 + j]);
                            }
                            lemma_first_of_none(body, ',');
                        }
                        return err_string();
                    },
                };
                if c >= b {
                    proof {
                        assert forall|j: int| 0 <= j < body.len() implies body[j] != ',' by {
                            assert(body[j] == t@[5 + j]);
                        }
                        lemma_first_of_none(body, ',');
                    }
                    return err_string();
                }
                proof {
                    assert forall|j: int| 0 <= j < c - 5 implies body[j] != ',' by {
                        assert(body[j] == t@[5 + j]);
                    }
                    lemma_first_of_at(body, ',', c - 5);
                }
                let ghost rest = body.skip(c - 4);
                match find_char_from(t, c + 1, ',') {
                    Some(c2) => {
                        if c2 < b {
                            proof {
                                assert forall|j: int| 0 <= j < c2 - c - 1 implies rest[j] != ',' by {
                                    assert(rest[j] == t@[c + 1 + j]);
                                }
                                lemma_first_of_at(rest, ',', c2 - c - 1);
                            }
                            return err_string();
                        }
                        proof {
                            assert forall|j: int| 0 <= j < rest.len() implies rest[j] != ',' by {
                                assert(rest[j] == t@[c + 1 + j]);
                            }
                            lemma_first_of_none(rest, ',');
                        }
                    },
                    None => {
                        proof {
                            assert forall|j: int| 0 <= j < rest.len() implies rest[j] != ',' by {
                                assert(rest[j] == t@[c + 1 + j]);
                            }
                            lemma_first_of_none(rest, ',');
                        }
                    },
                }
                let (x0, x1) = trim_range(t, a, c);
                let (y0, y1) = trim_range(t, c + 1, b);
                proof {
                    assert(body.take(c - 5) =~= t@.subrange(a as int, c as int));
                    assert(rest =~= t@.subrange(c + 1, b as int));
                    assert(add_args(t@) == Some((t@.subrange(x0 as int, x1 as int), t@.subrange(y0 as int, y1 as int))));
                }
                let left = match self.decode_ref(t, x0, x1) {
                    Some(s) => s,
                    None => return err_string(),
                };
                let right = match self.decode_ref(t, y0, y1) {
                    Some(s) => s,
                    None => return err_string(),
                };
                assert(self.add_operands(t@) == Some((left as int, right as int)));
                proof {
                    if is_formula(self.text_at(left as int)) || is_formula(self.text_at(right as int)) {
                        assert(self.add_value_of(t@) is None);
                        assert(self.other_value_of(t@) is None);
                        lemma_vis_formula_operand(*self, t@, visiting@);
                    }
                }
                let l = match self.evaluate_number(left, visiting, memo) {
                    Some(x) => x,
                    None => return cycle_string(),
                };
                let r = match self.evaluate_number(right, visiting, memo) {
                    Some(x) => x,
                    None => return cycle_string(),
                };
                return number_string(l.wrapping_add(r));
            }
        }
        proof {
            reveal_strlit("add(");
            reveal_strlit("sum(");
            assert(self.add_value_of(t@) is None);
            assert(!(self.enabled("add"@) && Self::is_call(t@, 1, t@.len() as int, "add("@)));
        }
        if self.has_function("sum") {
            if let Some((a, b)) = Self::call_args(t, 1, len, "sum(") {
                let (x, y) = trim_range(t, a, b);
                let (s, e) = match self.parse_range(t, x, y) {
                    Some(p) => p,
                    None => return err_string(),
                };
                let r0 = if s.0 < e.0 { s.0 } else { e.0 };
                let r1 = if s.0 < e.0 { e.0 } else { s.0 };
                let c0 = if s.1 < e.1 { s.1 } else { e.1 };
                let c1 = if s.1 < e.1 { e.1 } else { s.1 };
                assert(self.add_operands(t@) is None);
                let ghost pl = rect_plain(self.texts(), self.spec_columns(), r0 as int, r1 as int, c0 as int, c1 as int);
                let ghost total = rect_sum(self.texts(), self.spec_columns(), r0 as int, r1 as int, c0 as int, c1 as int, 0);
                let ghost fv = self.formula_value_of(t@);
                assert(pl ==> fv == Some(match total {
                    Some(x) => int_chars(x as int),
                    None => cycle_text(),
                }));
                assert(!pl ==> fv is None);
                let mut sum: i64 = 0;
                let mut row = r0;
                loop
                    invariant_except_break
                        forall|r: int, c: int| r0 <= r < row && c0 <= c <= c1 ==> !#[trigger] visiting@[self.slot(r, c)],
                        pl ==> rect_sum(self.texts(), self.spec_columns(), row as int, r1 as int, c0 as int, c1 as int, sum) == total,
                    invariant
                        forall|v: int| 0 <= v < old(visiting)@.len() && #[trigger] old(visiting)@[v] && self.text_at(v) != t@
                            && self.simple_value(v) is Some ==> self.simple_value(v) == Some(cycle_text()),
                        self.vm_ok(visiting@, memo@),
                        self.wf(),
                        r0 <= row <= r1,
                        1 <= r0 && r1 <= self.spec_rows(),
                        1 <= c0 <= c1 <= self.spec_columns(),
                        self.visiting_ok(visiting@),
                        visiting@ == old(visiting)@,
                        self.memo_ok(memo@),
                        count_true(visiting@) <= self.n(),
                        self.add_value_of(t@) is None,
                        self.add_operands(t@) is None,
                        pl == rect_plain(self.texts(), self.spec_columns(), r0 as int, r1 as int, c0 as int, c1 as int),
                        total == rect_sum(self.texts(), self.spec_columns(), r0 as int, r1 as int, c0 as int, c1 as int, 0),
                        fv == self.formula_value_of(t@),
                        pl ==> fv == Some(match total {
                            Some(x) => int_chars(x as int),
                            None => cycle_text(),
                        }),
                        !pl ==> fv is None,
                    ensures
                        forall|r: int, c: int| r0 <= r <= r1 && c0 <= c <= c1 ==> !#[trigger] visiting@[self.slot(r, c)],
                        self.vm_ok(visiting@, memo@),
                        pl ==> total == Some(sum),
                        visiting@ == old(visiting)@,
                        self.memo_ok(memo@),
                        pl ==> fv == Some(match total {
                            Some(x) => int_chars(x as int),
                            None => cycle_text(),
                        }),
                        !pl ==> fv is None,
                        fv == self.formula_value_of(t@),
                    decreases r1 - row,
                {
                    let mut col = c0;
                    let ghost rest_ok = pl ==> match row_sum(self.texts(), self.spec_columns(), row as int, c0 as int, c1 as int, sum) {
                        Some(a) => rect_sum(self.texts(), self.spec_columns(), row + 1, r1 as int, c0 as int, c1 as int, a) == total,
                        None => total is None,
                    };
                    assert(rest_ok);
                    loop
                        invariant_except_break
                            forall|r: int, c: int| ((r0 <= r < row && c0 <= c <= c1) || (r == row && c0 <= c < col))
                                ==> !#[trigger] visiting@[self.slot(r, c)],
                            pl ==> match row_sum(self.texts(), self.spec_columns(), row as int, col as int, c1 as int, sum) {
                                Some(a) => rect_sum(self.texts(), self.spec_columns(), row + 1, r1 as int, c0 as int, c1 as int, a) == total,
                                None => total is None,
                            },
                        invariant
                            forall|v: int| 0 <= v < old(visiting)@.len() && #[trigger] old(visiting)@[v] && self.text_at(v) != t@
                                && self.simple_value(v) is Some ==> self.simple_value(v) == Some(cycle_text()),
                            self.vm_ok(visiting@, memo@),
                            self.wf(),
                            c0 <= col <= c1,
                            r0 <= row <= r1,
                            1 <= r0 && r1 <= self.spec_rows(),
                            1 <= c0 <= c1 <= self.spec_columns(),
                            self.visiting_ok(visiting@),
                            visiting@ == old(visiting)@,
                            self.memo_ok(memo@),
                            count_true(visiting@) <= self.n(),
                            self.add_value_of(t@) is None,
                        self.add_operands(t@) is None,
                            pl == rect_plain(self.texts(), self.spec_columns(), r0 as int, r1 as int, c0 as int, c1 as int),
                            total == rect_sum(self.texts(), self.spec_columns(), r0 as int, r1 as int, c0 as int, c1 as int, 0),
                            fv == self.formula_value_of(t@),
                            pl ==> fv == Some(match total {
                                Some(x) => int_chars(x as int),
                                None => cycle_text(),
                            }),
                            !pl ==> fv is None,
                        ensures
                            forall|v: int| 0 <= v < old(visiting)@.len() && #[trigger] old(visiting)@[v] && self.text_at(v) != t@
                                && self.simple_value(v) is Some ==> self.simple_value(v) == Some(cycle_text()),
                            forall|r: int, c: int| r0 <= r <= row && c0 <= c <= c1 ==> !#[trigger] visiting@[self.slot(r, c)],
                            self.vm_ok(visiting@, memo@),
                            pl ==> rect_sum(self.texts(), self.spec_columns(), row + 1, r1 as int, c0 as int, c1 as int, sum) == total,
                            self.wf(),
                            r0 <= row <= r1,
                            1 <= r0 && r1 <= self.spec_rows(),
                            1 <= c0 <= c1 <= self.spec_columns(),
                            self.visiting_ok(visiting@),
                            visiting@ == old(visiting)@,
                            self.memo_ok(memo@),
                            count_true(visiting@) <= self.n(),
                            self.add_value_of(t@) is None,
                        self.add_operands(t@) is None,
                            pl == rect_plain(self.texts(), self.spec_columns(), r0 as int, r1 as int, c0 as int, c1 as int),
                            total == rect_sum(self.texts(), self.spec_columns(), r0 as int, r1 as int, c0 as int, c1 as int, 0),
                            fv == self.formula_value_of(t@),
                            pl ==> fv == Some(match total {
                                Some(x) => int_chars(x as int),
                                None => cycle_text(),
                            }),
                            !pl ==> fv is None,
                        decreases c1 - col,
                    {
                        let slot = self.idx(row, col);
                        proof {
                            if pl {
                                assert(!is_formula(cell_text(self.texts(), self.spec_columns(), row as int, col as int)));
                            }
                        }
                        assert(self.text_at(slot as int) == cell_text(self.texts(), self.spec_columns(), row as int, col as int));
                        let ghost s0 = sum;
                        proof {
                            if is_formula(self.text_at(slot as int)) {
                                assert(!rect_plain(self.texts(), self.spec_columns(), r0 as int, r1 as int, c0 as int, c1 as int));
                                assert(self.other_value_of(t@) is None);
                                lemma_vis_formula_operand(*self, t@, visiting@);
                            }
                        }
                        let v = match self.evaluate_number(slot, visiting, memo) {
                            Some(v) => v,
                            None => return cycle_string(),
                        };
                        sum = sum.wrapping_add(v);
                        proof {
                            if pl {
                                assert(row_sum(self.texts(), self.spec_columns(), row as int, col as int, c1 as int, s0)
                                    == row_sum(self.texts(), self.spec_columns(), row as int, col + 1, c1 as int, sum));
                            }
                        }
                        if col == c1 {
                            assert(row_sum(self.texts(), self.spec_columns(), row as int, col + 1, c1 as int, sum) == Some(sum));
                            break;
                        }
                        col = col + 1;
                    }
                    if row == r1 {
                        assert(rect_sum(self.texts(), self.spec_columns(), row + 1, r1 as int, c0 as int, c1 as int, sum) == Some(sum));
                        break;
                    }
                    row = row + 1;
                }
                return number_string(sum);
            }
        }
        err_string()
    }
}

/// A marking that holds the start of a chain and every listed dependent of
/// each marked slot holds the chain's end.
proof fn lemma_chain_marked(book: FormulaBook, dirty: Seq<bool>, p: Seq<int>)
    requires
        book.wf(),
        dirty.len() == book.n(),
        book.is_chain(p),
        dirty[p[0]],
        forall|j: int| 0 <= j < book.n() && #[trigger] dirty[j] ==> book.closed_at(dirty, j),
    ensures
        dirty[p.last()],
    decreases p.len(),
{
    if p.len() > 1 {
        let q = p.drop_last();
        assert forall|k: int| 0 <= k < q.len() - 1 implies #[trigger] book.reads(q[k + 1], q[k]) by {
            assert(book.reads(p[k + 1], p[k]));
        }
        assert(book.is_chain(q));
        lemma_chain_marked(book, dirty, q);
        let a = p[p.len() - 2];
        let b = p.last();
        assert(book.reads(p[(p.len() - 2) + 1], p[p.len() - 2]));
        assert(book.reads(b, a));
        assert(book.listed_dependent(a, b));
        let m = choose|m: int| 0 <= m < book.rev_deps@[a]@.len() && book.rev_deps@[a]@[m] == b as usize;
        assert(book.closed_at(dirty, a));
        assert(dirty[book.rev_deps@[a]@[m] as int]);
    }
}

/// Two books with the same dimensions, texts and functions give every
/// slot the same simple value.
#[verifier::spinoff_prover]
#[verifier::rlimit(100)]
proof fn lemma_simple_same(a: FormulaBook, b: FormulaBook)
    requires
        a.rows == b.rows,
        a.columns == b.columns,
        a.text == b.text,
        a.functions == b.functions,
    ensures
        forall|j: int| 0 <= j < a.n() ==> a.simple_value(j) == b.simple_value(j),
        forall|j: int| 0 <= j < a.n() ==> a.chain_value(j) == b.chain_value(j),
{
    assert forall|t: Seq<char>| a.other_value_of(t) == b.other_value_of(t) by {
    }
    assert forall|j: int| a.simple_value(j) == b.simple_value(j) by {
        assert(a.text_at(j) == b.text_at(j));
        assert(a.add_value_of(a.text_at(j)) == b.add_value_of(b.text_at(j)));
        assert(a.enabled("add"@) == b.enabled("add"@));
        assert(a.enabled("sum"@) == b.enabled("sum"@));
        assert forall|r: int, c: int| a.slot(r, c) == b.slot(r, c) by {
        }
        assert(a.eval_reads(a.text_at(j), j) == b.eval_reads(b.text_at(j), j));
    }
    assert forall|j: int| 0 <= j < a.n() implies a.chain_value(j) == b.chain_value(j) by {
        assert(a.text_at(j) == b.text_at(j));
        assert forall|r: int, c: int| a.slot(r, c) == b.slot(r, c) by {
        }
        assert(a.add_operands(a.text_at(j)) == b.add_operands(b.text_at(j)));
        match a.add_operands(a.text_at(j)) {
            Some((x, y)) => {
                assert(a.text_at(x) == b.text_at(x));
                assert(a.text_at(y) == b.text_at(y));
                assert(a.operand_value(x) == b.operand_value(x));
                assert(a.operand_value(y) == b.operand_value(y));
            },
            None => {},
        }
    }
}

proof fn lemma_slot_in_book(book: FormulaBook, r: int, c: int)
    requires
        1 <= r <= book.spec_rows(),
        1 <= c <= book.spec_columns(),
    ensures
        0 <= book.slot(r, c) < book.n(),
{
    let rows = book.spec_rows() as int;
    let cols = book.spec_columns() as int;
    assert(0 <= (r - 1) * cols + (c - 1) < rows * cols) by (nonlinear_arith)
        requires
            1 <= r <= rows,
            1 <= c <= cols,
    ;
}

/// While formula `t` is resolved with its own slots under evaluation,
/// and `t`'s value depends on other formulas, every slot under evaluation
/// whose value does not depend on other formulas reads itself.
proof fn lemma_vis_formula_operand(book: FormulaBook, t: Seq<char>, visiting: Seq<bool>)
    requires
        forall|v: int| 0 <= v < visiting.len() && #[trigger] visiting[v] && book.text_at(v) != t
            && book.simple_value(v) is Some ==> book.simple_value(v) == Some(cycle_text()),
        book.formula_value_of(t) is None,
    ensures
        book.vis_ok(visiting),
{
    assert forall|v: int| 0 <= v < visiting.len() && #[trigger] visiting[v] && book.simple_value(v) is Some
        implies book.simple_value(v) == Some(cycle_text()) by {
        if book.text_at(v) == t {
            assert(book.formula_value_of(book.text_at(v)) is None);
        }
    }
}

/// What resolving slot `idx`'s formula states of an `add` gives its chain
/// value, when the slots under evaluation before it keep to `vis_ok`.
proof fn lemma_chain_resolved(book: FormulaBook, idx: int, old_vis: Seq<bool>, v: Seq<char>)
    requires
        book.vis_ok(old_vis),
        book.visiting_ok(old_vis),
        0 <= idx < old_vis.len(),
        !old_vis[idx],
        book.chain_value(idx) is Some,
        match book.add_operands(book.text_at(idx)) {
            Some((a, b)) => (book.operand_value(a) is Some && book.operand_value(b) is Some && (old_vis.update(idx, true)[a]
                ==> book.operand_value(a) == Some(cycle_text())) && (old_vis.update(idx, true)[b] ==> book.operand_value(b)
                == Some(cycle_text()))) ==> v == FormulaBook::add_result(book.operand_value(a)->0, book.operand_value(b)->0),
            None => true,
        },
    ensures
        v == book.chain_value(idx)->0,
{
    let (a, b) = book.add_operands(book.text_at(idx))->0;
    assert(a != idx && b != idx);
    assert(0 <= a < book.n() && 0 <= b < book.n()) by {
        let t = book.text_at(idx);
        let (x, y) = add_args(t)->0;
        let ra = decode_ref_spec(x, book.spec_rows(), book.spec_columns())->0;
        let rb = decode_ref_spec(y, book.spec_rows(), book.spec_columns())->0;
        lemma_slot_in_book(book, ra.0 as int, ra.1 as int);
        lemma_slot_in_book(book, rb.0 as int, rb.1 as int);
    }
    if old_vis.update(idx, true)[a] {
        assert(old_vis[a]);
        assert(is_formula(book.text_at(a)));
    }
    if old_vis.update(idx, true)[b] {
        assert(old_vis[b]);
        assert(is_formula(book.text_at(b)));
    }
}

/// Two books with the same dimensions, texts and functions take the same
/// memo of results.
#[verifier::spinoff_prover]
#[verifier::rlimit(100)]
proof fn lemma_memo_same(a: FormulaBook, b: FormulaBook, memo: Seq<Option<String>>)
    requires
        a.memo_ok(memo),
        a.rows == b.rows,
        a.columns == b.columns,
        a.text == b.text,
        a.functions == b.functions,
        a.value@.len() == b.value@.len(),
    ensures
        b.memo_ok(memo),
{
    assert forall|t: Seq<char>| a.other_value_of(t) == b.other_value_of(t) by {
    }
    assert forall|j: int| a.simple_value(j) == b.simple_value(j) by {
        assert(a.text_at(j) == b.text_at(j));
        assert(a.add_value_of(a.text_at(j)) == b.add_value_of(b.text_at(j)));
        assert(a.enabled("add"@) == b.enabled("add"@));
        assert(a.enabled("sum"@) == b.enabled("sum"@));
        assert forall|r: int, c: int| a.slot(r, c) == b.slot(r, c) by {
        }
        assert(a.eval_reads(a.text_at(j), j) == b.eval_reads(b.text_at(j), j));
    }
    assert forall|j: int| 0 <= j < a.n() implies a.chain_value(j) == b.chain_value(j) by {
        assert(a.text_at(j) == b.text_at(j));
        assert forall|r: int, c: int| a.slot(r, c) == b.slot(r, c) by {
        }
        assert(a.add_operands(a.text_at(j)) == b.add_operands(b.text_at(j)));
        match a.add_operands(a.text_at(j)) {
            Some((x, y)) => {
                assert(a.text_at(x) == b.text_at(x));
                assert(a.text_at(y) == b.text_at(y));
                assert(a.operand_value(x) == b.operand_value(x));
                assert(a.operand_value(y) == b.operand_value(y));
            },
            None => {},
        }
    }
}

/// Two books with the same dimensions, texts and links: one is well formed
/// when the other is, and the same slots depend on each other.
proof fn lemma_same_links(a: FormulaBook, b: FormulaBook)
    requires
        a.wf(),
        a.rows == b.rows,
        a.columns == b.columns,
        a.text == b.text,
        a.deps == b.deps,
        a.rev_deps == b.rev_deps,
        a.value@.len() == b.value@.len(),
    ensures
        b.wf(),
        forall|p: Seq<int>| a.is_chain(p) == b.is_chain(p),
        forall|x: int, y: int| a.reaches(x, y) == b.reaches(x, y),
{
    assert forall|p: Seq<int>| a.is_chain(p) == b.is_chain(p) by {
        if a.is_chain(p) {
            assert forall|k: int| 0 <= k < p.len() - 1 implies #[trigger] b.reads(p[k + 1], p[k]) by {
                assert(a.reads(p[k + 1], p[k]));
            }
        }
        if b.is_chain(p) {
            assert forall|k: int| 0 <= k < p.len() - 1 implies #[trigger] a.reads(p[k + 1], p[k]) by {
                assert(b.reads(p[k + 1], p[k]));
            }
        }
    }
    assert forall|x: int, y: int| a.reaches(x, y) == b.reaches(x, y) by {
        if a.reaches(x, y) {
            let p = choose|p: Seq<int>| #[trigger] a.is_chain(p) && p[0] == x && p.last() == y;
            assert(b.is_chain(p));
        }
        if b.reaches(x, y) {
            let p = choose|p: Seq<int>| #[trigger] b.is_chain(p) && p[0] == x && p.last() == y;
            assert(a.is_chain(p));
        }
    }
    assert forall|i: int, j: int| 0 <= i < b.n() && 0 <= j < b.n() implies (#[trigger] b.listed_dependent(i, j) <==> b.reads(j, i)) by {
        assert(a.listed_dependent(i, j) <==> a.reads(j, i));
    }
}

/// The number of cells of a book, as a machine integer.
fn n_exec(book: &FormulaBook) -> (r: usize)
    requires
        book.shape_ok(),
    ensures
        r == book.n(),
{
    book.text.len()
}

/// `n` slots, none of them marked.
fn falses(n: usize) -> (r: Vec<bool>)
    ensures
        r@.len() == n,
        forall|j: int| 0 <= j < n ==> !#[trigger] r@[j],
{
    let mut r: Vec<bool> = Vec::new();
    let mut i: usize = 0;
    while i < n
        invariant
            i <= n,
            r@.len() == i,
            forall|j: int| 0 <= j < i ==> !#[trigger] r@[j],
        decreases n - i,
    {
        r.push(false);
        i = i + 1;
    }
    r
}

proof fn lemma_count_none_true(s: Seq<bool>)
    requires
        forall|j: int| 0 <= j < s.len() ==> !#[trigger] s[j],
    ensures
        count_true(s) == 0,
    decreases s.len(),
{
    if s.len() > 0 {
        lemma_count_none_true(s.drop_last());
    }
}

spec fn differs(x: usize) -> spec_fn(usize) -> bool {
    |y: usize| y != x
}

/// The slots of `v` other than `x`.
fn without(v: &Vec<usize>, x: usize, bound: usize) -> (r: Vec<usize>)
    requires
        forall|k: int| 0 <= k < v@.len() ==> (#[trigger] v@[k]) < bound,
    ensures
        forall|y: usize| r@.contains(y) <==> (v@.contains(y) && y != x),
        forall|k: int| 0 <= k < r@.len() ==> (#[trigger] r@[k]) < bound,
{
    let ghost keep = differs(x);
    let mut r: Vec<usize> = Vec::new();
    let mut i: usize = 0;
    while i < v.len()
        invariant
            i <= v@.len(),
            forall|k: int| 0 <= k < v@.len() ==> (#[trigger] v@[k]) < bound,
            forall|k: int| 0 <= k < r@.len() ==> (#[trigger] r@[k]) < bound,
            r@ == v@.subrange(0, i as int).filter(differs(x)),
        decreases v.len() - i,
    {
        let y = v[i];
        proof {
            assert(v@.subrange(0, i + 1) =~= v@.subrange(0, i as int).push(y));
            v@.subrange(0, i as int).lemma_filter_push(y, differs(x));
        }
        if y != x {
            r.push(y);
        }
        i = i + 1;
    }
    proof {
        assert(v@.subrange(0, v@.len() as int) =~= v@);
        assert forall|y: usize| r@.contains(y) <==> (v@.contains(y) && y != x) by {
            if r@.contains(y) {
                v@.lemma_filter_contains_rev(keep, y);
                let k = choose|k: int| 0 <= k < r@.len() && r@[k] == y;
                v@.lemma_filter_pred(keep, k);
            }
            if v@.contains(y) && y != x {
                let m = choose|m: int| 0 <= m < v@.len() && v@[m] == y;
                v@.lemma_filter_contains(keep, m);
            }
        }
    }
    r
}

/// The slots of `v`, with `x` added where it is missing.
fn with(v: &Vec<usize>, x: usize, bound: usize) -> (r: Vec<usize>)
    requires
        forall|k: int| 0 <= k < v@.len() ==> (#[trigger] v@[k]) < bound,
        x < bound,
    ensures
        forall|y: usize| r@.contains(y) <==> (v@.contains(y) || y == x),
        forall|k: int| 0 <= k < r@.len() ==> (#[trigger] r@[k]) < bound,
{
    let mut r: Vec<usize> = Vec::new();
    let mut found = false;
    let mut i: usize = 0;
    while i < v.len()
        invariant
            i <= v@.len(),
            r@ == v@.subrange(0, i as int),
            found <==> exists|m: int| 0 <= m < i && #[trigger] v@[m] == x,
        decreases v.len() - i,
    {
        let y = v[i];
        proof {
            assert(v@.subrange(0, i + 1) =~= v@.subrange(0, i as int).push(y));
        }
        if y == x {
            found = true;
        }
        r.push(y);
        i = i + 1;
    }
    proof {
        assert(v@.subrange(0, v@.len() as int) =~= v@);
    }
    let ghost before = r@;
    if !found {
        r.push(x);
    }
    proof {
        assert forall|y: usize| r@.contains(y) <==> (v@.contains(y) || y == x) by {
            if !found {
                if r@.contains(y) {
                    let k = choose|k: int| 0 <= k < r@.len() && r@[k] == y;
                    if k < before.len() {
                        assert(v@[k] == y);
                    }
                }
                if v@.contains(y) {
                    let m = choose|m: int| 0 <= m < v@.len() && v@[m] == y;
                    assert(r@[m] == y);
                }
                if y == x {
                    assert(r@[before.len() as int] == x);
                }
            }
        }
    }
    r
}

fn err_string() -> (r: String)
    ensures
        r@ == err_text(),
{
    let r = "#ERR".to_owned();
    proof {
        reveal_strlit("#ERR");
    }
    assert(r@ =~= err_text());
    r
}

fn cycle_string() -> (r: String)
    ensures
        r@ == cycle_text(),
{
    let r = "#CYCLE".to_owned();
    proof {
        reveal_strlit("#CYCLE");
    }
    assert(r@ =~= cycle_text());
    r
}

fn number_string(x: i64) -> (r: String)
    ensures
        formula_value(r@),
        r@ == int_chars(x as int),
{
    i64_to_string(x)
}

} // verus!
