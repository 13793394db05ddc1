//! Character-level text helpers shared by the parser, the compiler and the
//! formula book.  Text is scanned as a vector of `char`s; every helper states
//! its result over the character sequence.
use vstd::prelude::*;

verus! {

// ---------------------------------------------------------------------------
// Character classes
// ---------------------------------------------------------------------------

/// Unicode `White_Space`, the class that `char::is_whitespace` and
/// `str::trim` use.
pub open spec fn is_ws(c: char) -> bool {
    ||| c == ' '
    ||| ('\t' <= c && c <= '\r')
    ||| c == '\u{85}'
    ||| c == '\u{a0}'
    ||| c == '\u{1680}'
    ||| ('\u{2000}' <= c && c <= '\u{200a}')
    ||| c == '\u{2028}'
    ||| c == '\u{2029}'
    ||| c == '\u{202f}'
    ||| c == '\u{205f}'
    ||| c == '\u{3000}'
}

pub open spec fn is_digit(c: char) -> bool {
    '0' <= c && c <= '9'
}

pub open spec fn is_upper(c: char) -> bool {
    'A' <= c && c <= 'Z'
}

pub open spec fn is_lower(c: char) -> bool {
    'a' <= c && c <= 'z'
}

pub open spec fn is_alpha(c: char) -> bool {
    is_upper(c) || is_lower(c)
}

pub open spec fn is_alnum(c: char) -> bool {
    is_alpha(c) || is_digit(c)
}

/// An identifier character: an ASCII letter, digit or underscore.
pub open spec fn is_word(c: char) -> bool {
    is_alnum(c) || c == '_'
}

pub fn ws_char(c: char) -> (r: bool)
    ensures
        r == is_ws(c),
{
    c == ' ' || ('\t' <= c && c <= '\r') || c == '\u{85}' || c == '\u{a0}' || c == '\u{1680}'
        || ('\u{2000}' <= c && c <= '\u{200a}') || c == '\u{2028}' || c == '\u{2029}' || c
        == '\u{202f}' || c == '\u{205f}' || c == '\u{3000}'
}

pub fn digit_char(c: char) -> (r: bool)
    ensures
        r == is_digit(c),
{
    '0' <= c && c <= '9'
}

pub fn upper_char(c: char) -> (r: bool)
    ensures
        r == is_upper(c),
{
    'A' <= c && c <= 'Z'
}

pub fn lower_char(c: char) -> (r: bool)
    ensures
        r == is_lower(c),
{
    'a' <= c && c <= 'z'
}

pub fn alnum_char(c: char) -> (r: bool)
    ensures
        r == is_alnum(c),
{
    ('A' <= c && c <= 'Z') || ('a' <= c && c <= 'z') || ('0' <= c && c <= '9')
}

pub fn word_char(c: char) -> (r: bool)
    ensures
        r == is_word(c),
{
    alnum_char(c) || c == '_'
}

// ---------------------------------------------------------------------------
// Sequence shapes
// ---------------------------------------------------------------------------

pub open spec fn occurs_at(s: Seq<char>, i: int, p: Seq<char>) -> bool {
    0 <= i && i + p.len() <= s.len() && s.subrange(i, i + p.len()) == p
}

pub open spec fn has_prefix(s: Seq<char>, p: Seq<char>) -> bool {
    occurs_at(s, 0, p)
}

pub open spec fn has_suffix(s: Seq<char>, p: Seq<char>) -> bool {
    occurs_at(s, s.len() - p.len(), p)
}

pub open spec fn contains_seq(s: Seq<char>, p: Seq<char>) -> bool {
    exists|i: int| occurs_at(s, i, p)
}

/// The first position at which `p` occurs in `s`, if any.
pub open spec fn first_occurrence(s: Seq<char>, p: Seq<char>) -> Option<int> {
    if contains_seq(s, p) {
        Some(choose|i: int| occurs_at(s, i, p) && forall|j: int| 0 <= j < i ==> !occurs_at(s, j, p))
    } else {
        None
    }
}

/// Number of leading whitespace characters.
pub open spec fn lead_ws(s: Seq<char>) -> nat
    decreases s.len(),
{
    if s.len() > 0 && is_ws(s[0]) {
        1 + lead_ws(s.drop_first())
    } else {
        0
    }
}

/// The bounds of `v[lo..hi]` trimmed.
pub open spec fn trim_bounds(v: Seq<char>, lo: int, hi: int) -> (int, int) {
    let sub = v.subrange(lo, hi);
    (lo + lead_ws(sub), lo + lead_ws(sub) + trim(sub).len())
}

/// Number of trailing whitespace characters.
pub open spec fn trail_ws(s: Seq<char>) -> nat
    decreases s.len(),
{
    if s.len() > 0 && is_ws(s.last()) {
        1 + trail_ws(s.drop_last())
    } else {
        0
    }
}

pub open spec fn trim_start(s: Seq<char>) -> Seq<char> {
    s.skip(lead_ws(s) as int)
}

pub open spec fn trim_end(s: Seq<char>) -> Seq<char> {
    s.take(s.len() - trail_ws(s))
}

/// `str::trim`: both ends stripped of whitespace.
pub open spec fn trim(s: Seq<char>) -> Seq<char> {
    trim_end(trim_start(s))
}

/// Number of bytes that `c` takes in UTF-8.
pub open spec fn utf8_len(c: char) -> nat {
    if (c as u32) < 0x80 {
        1
    } else if (c as u32) < 0x800 {
        2
    } else if (c as u32) < 0x10000 {
        3
    } else {
        4
    }
}

/// Number of bytes that `s` takes in UTF-8.
pub open spec fn byte_len(s: Seq<char>) -> nat
    decreases s.len(),
{
    if s.len() == 0 {
        0
    } else {
        byte_len(s.drop_last()) + utf8_len(s.last())
    }
}

pub proof fn lemma_lead_ws_bound(s: Seq<char>)
    ensures
        lead_ws(s) <= s.len(),
        forall|k: int| 0 <= k < lead_ws(s) ==> is_ws(#[trigger] s[k]),
        lead_ws(s) < s.len() ==> !is_ws(s[lead_ws(s) as int]),
    decreases s.len(),
{
    if s.len() > 0 && is_ws(s[0]) {
        lemma_lead_ws_bound(s.drop_first());
        assert forall|k: int| 0 <= k < lead_ws(s) implies is_ws(#[trigger] s[k]) by {
            if k > 0 {
                assert(s[k] == s.drop_first()[k - 1]);
            }
        }
    }
}

pub proof fn lemma_trail_ws_bound(s: Seq<char>)
    ensures
        trail_ws(s) <= s.len(),
        forall|k: int| s.len() - trail_ws(s) <= k < s.len() ==> is_ws(#[trigger] s[k]),
        trail_ws(s) < s.len() ==> !is_ws(s[s.len() - trail_ws(s) - 1]),
    decreases s.len(),
{
    if s.len() > 0 && is_ws(s.last()) {
        lemma_trail_ws_bound(s.drop_last());
        assert forall|k: int| s.len() - trail_ws(s) <= k < s.len() implies is_ws(#[trigger] s[k]) by {
            if k < s.len() - 1 {
                assert(s[k] == s.drop_last()[k]);
            }
        }
    }
}

// ---------------------------------------------------------------------------
// Conversions between `str`, `String` and characters
// ---------------------------------------------------------------------------

/// The characters of a string slice, in order.
pub fn chars_of(s: &str) -> (v: Vec<char>)
    ensures
        v@ == s@,
{
    let mut v: Vec<char> = Vec::new();
    for c in it: s.chars()
        invariant
            v@ == it.seq().take(it.index() as int),
    {
        v.push(c);
    }
    v
}

/// Appends one character to a string: std's `String::push`.
#[verifier::external_body]
fn push_char(s: &mut String, c: char)
    ensures
        final(s)@ == old(s)@.push(c),
{
    s.push(c);
}

/// A string holding the characters `v[lo..hi]`.
pub fn string_of_range(v: &[char], lo: usize, hi: usize) -> (s: String)
    requires
        lo <= hi <= v@.len(),
    ensures
        s@ == v@.subrange(lo as int, hi as int),
{
    let mut s = String::new();
    let mut i: usize = lo;
    while i < hi
        invariant
            lo <= i <= hi <= v@.len(),
            s@ == v@.subrange(lo as int, i as int),
        decreases hi - i,
    {
        push_char(&mut s, v[i]);
        i += 1;
        assert(s@ =~= v@.subrange(lo as int, i as int));
    }
    s
}

/// A string holding exactly the given characters.
pub fn string_of(v: &[char]) -> (s: String)
    ensures
        s@ == v@,
{
    let s = string_of_range(v, 0, v.len());
    assert(v@.subrange(0, v@.len() as int) =~= v@);
    s
}

/// The characters of a `String`.
pub fn chars_of_string(s: &String) -> (v: Vec<char>)
    ensures
        v@ == s@,
{
    chars_of(s.as_str())
}

/// Appends the characters of `tail` to `v`.
pub fn push_all(v: &mut Vec<char>, tail: &[char])
    ensures
        final(v)@ == old(v)@ + tail@,
{
    let mut i: usize = 0;
    while i < tail.len()
        invariant
            i <= tail@.len(),
            v@ == old(v)@ + tail@.take(i as int),
        decreases tail.len() - i,
    {
        v.push(tail[i]);
        i += 1;
        assert(v@ =~= old(v)@ + tail@.take(i as int));
    }
    assert(tail@.take(tail@.len() as int) =~= tail@);
}

/// Appends the characters of a string slice to `v`.
pub fn push_str(v: &mut Vec<char>, s: &str)
    ensures
        final(v)@ == old(v)@ + s@,
{
    let cs = chars_of(s);
    push_all(v, &cs);
}

/// Two character slices are equal.
pub fn seq_eq(a: &[char], b: &[char]) -> (r: bool)
    ensures
        r == (a@ == b@),
{
    if a.len() != b.len() {
        return false;
    }
    let mut i: usize = 0;
    while i < a.len()
        invariant
            i <= a@.len() == b@.len(),
            forall|k: int| 0 <= k < i ==> a@[k] == b@[k],
        decreases a.len() - i,
    {
        if a[i] != b[i] {
            return false;
        }
        i += 1;
    }
    assert(a@ =~= b@);
    true
}

/// A string equals a string slice.
pub fn str_eq(a: &String, b: &str) -> (r: bool)
    ensures
        r == (a@ == b@),
{
    let x = chars_of_string(a);
    let y = chars_of(b);
    seq_eq(&x, &y)
}

/// Two strings are equal.
pub fn string_eq(a: &String, b: &String) -> (r: bool)
    ensures
        r == (a@ == b@),
{
    let x = chars_of_string(a);
    let y = chars_of_string(b);
    seq_eq(&x, &y)
}

// ---------------------------------------------------------------------------
// Searching
// ---------------------------------------------------------------------------

/// Whether `p` occurs in `v` at position `i`.
pub fn occurs_at_exec(v: &[char], i: usize, p: &[char]) -> (r: bool)
    ensures
        r == occurs_at(v@, i as int, p@),
{
    if i > v.len() || p.len() > v.len() - i {
        return false;
    }
    let mut k: usize = 0;
    while k < p.len()
        invariant
            i + p@.len() <= v@.len(),
            v@.len() == v.len(),
            k <= p@.len(),
            forall|j: int| 0 <= j < k ==> v@[i + j] == p@[j],
        decreases p.len() - k,
    {
        if v[i + k] != p[k] {
            assert(v@.subrange(i as int, i + p@.len())[k as int] != p@[k as int]);
            return false;
        }
        k += 1;
    }
    assert(v@.subrange(i as int, i + p@.len()) =~= p@);
    true
}

/// Whether `v` starts with `p`.
pub fn starts_with(v: &[char], p: &[char]) -> (r: bool)
    ensures
        r == has_prefix(v@, p@),
{
    occurs_at_exec(v, 0, p)
}

/// Whether `v` ends with `p`.
pub fn ends_with(v: &[char], p: &[char]) -> (r: bool)
    ensures
        r == has_suffix(v@, p@),
{
    if p.len() > v.len() {
        return false;
    }
    occurs_at_exec(v, v.len() - p.len(), p)
}

/// The first position at or after `from` at which `p` occurs in `v`.
pub fn find_from(v: &[char], from: usize, p: &[char]) -> (r: Option<usize>)
    ensures
        match r {
            Some(i) => from <= i && occurs_at(v@, i as int, p@) && forall|j: int|
                from <= j < i ==> !occurs_at(v@, j, p@),
            None => forall|j: int| from <= j ==> !occurs_at(v@, j, p@),
        },
{
    let mut i: usize = from;
    while i <= v.len()
        invariant
            from <= i,
            forall|j: int| from <= j < i ==> !occurs_at(v@, j, p@),
        decreases v.len() + 1 - i,
    {
        if occurs_at_exec(v, i, p) {
            return Some(i);
        }
        if i == v.len() {
            assert forall|j: int| from <= j implies !occurs_at(v@, j, p@) by {
                if j > v@.len() {
                    assert(!occurs_at(v@, j, p@));
                }
            }
            return None;
        }
        i += 1;
    }
    None
}

/// The first position at which `p` occurs in `v`.
pub fn find(v: &[char], p: &[char]) -> (r: Option<usize>)
    ensures
        r matches Some(i) ==> first_occurrence(v@, p@) == Some(i as int) && occurs_at(v@, i as int, p@),
        r is None ==> first_occurrence(v@, p@) is None,
{
    let r = find_from(v, 0, p);
    match r {
        Some(i) => {
            assert(contains_seq(v@, p@));
            let ghost w = choose|w: int|
                occurs_at(v@, w, p@) && forall|j: int| 0 <= j < w ==> !occurs_at(v@, j, p@);
            assert(occurs_at(v@, w, p@) && forall|j: int| 0 <= j < w ==> !occurs_at(v@, j, p@))
                by {
                assert(occurs_at(v@, i as int, p@) && forall|j: int|
                    0 <= j < i ==> !occurs_at(v@, j, p@));
            }
            assert(w == i) by {
                if w < i {
                    assert(!occurs_at(v@, w, p@));
                } else if w > i {
                    assert(!occurs_at(v@, i as int, p@));
                }
            }
        },
        None => {
            assert(!contains_seq(v@, p@));
        },
    }
    r
}

/// Whether `p` occurs anywhere in `v`.
pub fn contains(v: &[char], p: &[char]) -> (r: bool)
    ensures
        r == contains_seq(v@, p@),
{
    match find_from(v, 0, p) {
        Some(i) => true,
        None => {
            assert forall|j: int| !occurs_at(v@, j, p@) by {
                if j >= 0 {
                    assert(!occurs_at(v@, j, p@));
                }
            }
            false
        },
    }
}

/// Whether a string slice holds `p`.
pub fn str_contains(s: &str, p: &str) -> (r: bool)
    ensures
        r == contains_seq(s@, p@),
{
    let v = chars_of(s);
    let q = chars_of(p);
    contains(&v, &q)
}

/// The first position of character `c` at or after `from`.
pub fn find_char_from(v: &[char], from: usize, c: char) -> (r: Option<usize>)
    ensures
        match r {
            Some(i) => from <= i < v@.len() && v@[i as int] == c && forall|j: int|
                from <= j < i ==> v@[j] != c,
            None => forall|j: int| from <= j < v@.len() ==> v@[j] != c,
        },
{
    let mut i: usize = from;
    while i < v.len()
        invariant
            from <= i,
            forall|j: int| from <= j < i && j < v@.len() ==> v@[j] != c,
        decreases v.len() - i,
    {
        if v[i] == c {
            return Some(i);
        }
        i += 1;
    }
    None
}

// ---------------------------------------------------------------------------
// Trimming
// ---------------------------------------------------------------------------

proof fn lemma_lead_ws_step(s: Seq<char>, lo: int, i: int, hi: int)
    requires
        0 <= lo <= i < hi <= s.len(),
        is_ws(s[i]),
    ensures
        lead_ws(s.subrange(i, hi)) == 1 + lead_ws(s.subrange(i + 1, hi)),
{
    assert(s.subrange(i, hi).drop_first() =~= s.subrange(i + 1, hi));
}

proof fn lemma_trail_ws_step(s: Seq<char>, lo: int, j: int)
    requires
        0 <= lo < j <= s.len(),
        is_ws(s[j - 1]),
    ensures
        trail_ws(s.subrange(lo, j)) == 1 + trail_ws(s.subrange(lo, j - 1)),
{
    assert(s.subrange(lo, j).drop_last() =~= s.subrange(lo, j - 1));
}

/// The bounds of `v[lo..hi]` with the surrounding whitespace removed.
pub fn trim_range(v: &[char], lo: usize, hi: usize) -> (r: (usize, usize))
    requires
        lo <= hi <= v@.len(),
    ensures
        lo <= r.0 <= r.1 <= hi,
        (r.0 as int, r.1 as int) == trim_bounds(v@, lo as int, hi as int),
        v@.subrange(r.0 as int, r.1 as int) == trim(v@.subrange(lo as int, hi as int)),
        r.0 == lo + lead_ws(v@.subrange(lo as int, hi as int)),
{
    let ghost s = v@.subrange(lo as int, hi as int);
    let mut a: usize = lo;
    while a < hi && ws_char(v[a])
        invariant
            lo <= a <= hi <= v@.len(),
            lead_ws(s) == (a - lo) + lead_ws(v@.subrange(a as int, hi as int)),
            s == v@.subrange(lo as int, hi as int),
        decreases hi - a,
    {
        proof {
            lemma_lead_ws_step(v@, lo as int, a as int, hi as int);
        }
        a += 1;
    }
    proof {
        if a < hi {
            assert(!is_ws(v@.subrange(a as int, hi as int)[0]));
        }
        assert(lead_ws(v@.subrange(a as int, hi as int)) == 0);
    }
    let ghost t = trim_start(s);
    assert(t =~= v@.subrange(a as int, hi as int));
    let mut b: usize = hi;
    while b > a && ws_char(v[b - 1])
        invariant
            lo <= a <= b <= hi <= v@.len(),
            trail_ws(t) == (hi - b) + trail_ws(v@.subrange(a as int, b as int)),
            t == v@.subrange(a as int, hi as int),
        decreases b - a,
    {
        proof {
            lemma_trail_ws_step(v@, a as int, b as int);
        }
        b -= 1;
    }
    proof {
        if b > a {
            assert(!is_ws(v@.subrange(a as int, b as int).last()));
        }
        assert(trail_ws(v@.subrange(a as int, b as int)) == 0);
        assert(trim(s) =~= v@.subrange(a as int, b as int));
    }
    (a, b)
}

/// The characters of `v[lo..hi]` with the surrounding whitespace removed.
pub fn trimmed(v: &[char], lo: usize, hi: usize) -> (r: Vec<char>)
    requires
        lo <= hi <= v@.len(),
    ensures
        r@ == trim(v@.subrange(lo as int, hi as int)),
{
    let (a, b) = trim_range(v, lo, hi);
    slice_range(v, a, b)
}

/// A copy of `v[lo..hi]`.
pub fn slice_range(v: &[char], lo: usize, hi: usize) -> (r: Vec<char>)
    requires
        lo <= hi <= v@.len(),
    ensures
        r@ == v@.subrange(lo as int, hi as int),
{
    let mut r: Vec<char> = Vec::new();
    let mut i: usize = lo;
    while i < hi
        invariant
            lo <= i <= hi <= v@.len(),
            r@ == v@.subrange(lo as int, i as int),
        decreases hi - i,
    {
        r.push(v[i]);
        i += 1;
        assert(r@ =~= v@.subrange(lo as int, i as int));
    }
    r
}

/// A string holding `v` with the surrounding whitespace removed.
pub fn trimmed_string(v: &[char]) -> (s: String)
    ensures
        s@ == trim(v@),
{
    let (a, b) = trim_range(v, 0, v.len());
    assert(v@.subrange(0, v@.len() as int) =~= v@);
    string_of_range(v, a, b)
}

pub proof fn lemma_trim_of_nonws_ends(s: Seq<char>)
    requires
        s.len() > 0,
        !is_ws(s[0]),
        !is_ws(s.last()),
    ensures
        trim(s) == s,
{
    assert(lead_ws(s) == 0);
    assert(trim_start(s) =~= s);
    assert(trail_ws(s) == 0);
    assert(trim_end(s) =~= s);
}

// ---------------------------------------------------------------------------
// Numbers
// ---------------------------------------------------------------------------

pub open spec fn digit_value(c: char) -> int {
    (c as u32) - ('0' as u32)
}

pub open spec fn all_digits(s: Seq<char>) -> bool {
    forall|k: int| 0 <= k < s.len() ==> is_digit(#[trigger] s[k])
}

/// The value of a run of decimal digits.
pub open spec fn digits_value(s: Seq<char>) -> int
    decreases s.len(),
{
    if s.len() == 0 {
        0
    } else {
        digits_value(s.drop_last()) * 10 + digit_value(s.last())
    }
}

/// What `str::parse::<i64>` accepts and returns: an optional sign, then
/// one or more decimal digits, whose value fits an `i64`.
pub open spec fn parse_i64_spec(s: Seq<char>) -> Option<i64> {
    let neg = s.len() > 0 && s[0] == '-';
    let signed = s.len() > 0 && (s[0] == '-' || s[0] == '+');
    let body = if signed { s.drop_first() } else { s };
    if body.len() == 0 || !all_digits(body) {
        None
    } else {
        let v = if neg { -digits_value(body) } else { digits_value(body) };
        if i64::MIN <= v <= i64::MAX {
            Some(v as i64)
        } else {
            None
        }
    }
}

/// What `str::parse::<usize>` accepts and returns: an optional `+`, then one
/// or more decimal digits, whose value fits a `usize`.
pub open spec fn parse_usize_spec(s: Seq<char>) -> Option<usize> {
    let signed = s.len() > 0 && s[0] == '+';
    let body = if signed { s.drop_first() } else { s };
    if body.len() == 0 || !all_digits(body) {
        None
    } else if digits_value(body) <= usize::MAX {
        Some(digits_value(body) as usize)
    } else {
        None
    }
}

/// What `str::parse::<u32>` accepts and returns: an optional `+`, then one
/// or more decimal digits, whose value fits a `u32`.
pub open spec fn parse_u32_spec(s: Seq<char>) -> Option<u32> {
    let signed = s.len() > 0 && s[0] == '+';
    let body = if signed { s.drop_first() } else { s };
    if body.len() == 0 || !all_digits(body) {
        None
    } else if digits_value(body) <= u32::MAX {
        Some(digits_value(body) as u32)
    } else {
        None
    }
}

/// What `str::parse::<u64>` accepts and returns: an optional `+`, then one
/// or more decimal digits, whose value fits a `u64`.
pub open spec fn parse_u64_spec(s: Seq<char>) -> Option<u64> {
    let signed = s.len() > 0 && s[0] == '+';
    let body = if signed { s.drop_first() } else { s };
    if body.len() == 0 || !all_digits(body) {
        None
    } else if digits_value(body) <= u64::MAX {
        Some(digits_value(body) as u64)
    } else {
        None
    }
}

proof fn lemma_digits_value_nonneg(s: Seq<char>)
    requires
        all_digits(s),
    ensures
        digits_value(s) >= 0,
    decreases s.len(),
{
    if s.len() > 0 {
        assert(all_digits(s.drop_last())) by {
            assert forall|k: int| 0 <= k < s.drop_last().len() implies is_digit(
                #[trigger] s.drop_last()[k],
            ) by {
                assert(s.drop_last()[k] == s[k]);
            }
        }
        lemma_digits_value_nonneg(s.drop_last());
        assert(is_digit(s[s.len() - 1]));
    }
}

proof fn lemma_digits_value_mono(s: Seq<char>, k: int)
    requires
        all_digits(s),
        0 <= k <= s.len(),
    ensures
        digits_value(s.take(k)) <= digits_value(s),
    decreases s.len(),
{
    if k < s.len() {
        assert(all_digits(s.drop_last())) by {
            assert forall|j: int| 0 <= j < s.drop_last().len() implies is_digit(
                #[trigger] s.drop_last()[j],
            ) by {
                assert(s.drop_last()[j] == s[j]);
            }
        }
        lemma_digits_value_mono(s.drop_last(), k);
        assert(s.drop_last().take(k) =~= s.take(k));
        lemma_digits_value_nonneg(s.drop_last());
        assert(is_digit(s[s.len() - 1]));
    } else {
        assert(s.take(k) =~= s);
    }
}

/// The value of the digits `v[lo..hi]`, or `None` when it passes `limit`.
fn digits_upto(v: &[char], lo: usize, hi: usize, limit: u64) -> (r: Option<u64>)
    requires
        lo <= hi <= v@.len(),
        all_digits(v@.subrange(lo as int, hi as int)),
        limit >= 9,
    ensures
        match r {
            Some(n) => n == digits_value(v@.subrange(lo as int, hi as int)) && n <= limit,
            None => digits_value(v@.subrange(lo as int, hi as int)) > limit,
        },
{
    let ghost s = v@.subrange(lo as int, hi as int);
    let mut acc: u64 = 0;
    let mut i: usize = lo;
    while i < hi
        invariant
            lo <= i <= hi <= v@.len(),
            s == v@.subrange(lo as int, hi as int),
            all_digits(s),
            acc == digits_value(s.take(i - lo)),
            acc <= limit,
            limit >= 9,
        decreases hi - i,
    {
        assert(is_digit(s[i - lo]));
        assert(s.take(i - lo + 1).drop_last() =~= s.take(i - lo));
        assert(s.take(i - lo + 1).last() == v@[i as int]);
        let d = (v[i] as u32 - '0' as u32) as u64;
        if acc > (limit - d) / 10 {
            proof {
                assert(acc * 10 + d > limit) by (nonlinear_arith)
                    requires
                        acc > (limit - d) / 10,
                        d <= 9,
                        d <= limit || true,
                ;
                lemma_digits_value_mono(s, i - lo + 1);
            }
            return None;
        }
        proof {
            assert(acc * 10 + d <= limit) by (nonlinear_arith)
                requires
                    acc <= (limit - d) / 10,
                    d <= limit,
            ;
        }
        acc = acc * 10 + d;
        i += 1;
    }
    assert(s.take(hi - lo) =~= s);
    Some(acc)
}

/// `str::parse::<i64>` on `v[lo..hi]`.
#[verifier::loop_isolation(false)]
pub fn parse_i64(v: &[char], lo: usize, hi: usize) -> (r: Option<i64>)
    requires
        lo <= hi <= v@.len(),
    ensures
        r == parse_i64_spec(v@.subrange(lo as int, hi as int)),
{
    let ghost s = v@.subrange(lo as int, hi as int);
    let neg = lo < hi && v[lo] == '-';
    let signed = lo < hi && (v[lo] == '-' || v[lo] == '+');
    let start = if signed { lo + 1 } else { lo };
    let ghost body = if signed { s.drop_first() } else { s };
    assert(body =~= v@.subrange(start as int, hi as int));
    if start == hi {
        assert(body.len() == 0);
        return None;
    }
    let mut k: usize = start;
    while k < hi
        invariant
            start <= k <= hi <= v@.len(),
            body == v@.subrange(start as int, hi as int),
            forall|j: int| start <= j < k ==> is_digit(v@[j]),
        decreases hi - k,
    {
        if !digit_char(v[k]) {
            assert(!is_digit(body[k - start]));
            return None;
        }
        k += 1;
    }
    assert(all_digits(body)) by {
        assert forall|j: int| 0 <= j < body.len() implies is_digit(#[trigger] body[j]) by {
            assert(body[j] == v@[start + j]);
        }
    }
    let limit: u64 = if neg { 9223372036854775808u64 } else { 9223372036854775807u64 };
    match digits_upto(v, start, hi, limit) {
        Some(n) => {
            if neg {
                if n == 9223372036854775808u64 {
                    Some(i64::MIN)
                } else {
                    Some(-(n as i64))
                }
            } else {
                Some(n as i64)
            }
        },
        None => None,
    }
}

/// `str::parse::<usize>` on `v[lo..hi]`.
#[verifier::loop_isolation(false)]
pub fn parse_usize(v: &[char], lo: usize, hi: usize) -> (r: Option<usize>)
    requires
        lo <= hi <= v@.len(),
    ensures
        r == parse_usize_spec(v@.subrange(lo as int, hi as int)),
{
    let ghost s = v@.subrange(lo as int, hi as int);
    let signed = lo < hi && v[lo] == '+';
    let start = if signed { lo + 1 } else { lo };
    let ghost body = if signed { s.drop_first() } else { s };
    assert(body =~= v@.subrange(start as int, hi as int));
    if start == hi {
        assert(body.len() == 0);
        return None;
    }
    let mut k: usize = start;
    while k < hi
        invariant
            start <= k <= hi <= v@.len(),
            body == v@.subrange(start as int, hi as int),
            forall|j: int| start <= j < k ==> is_digit(v@[j]),
        decreases hi - k,
    {
        if !digit_char(v[k]) {
            assert(!is_digit(body[k - start]));
            return None;
        }
        k += 1;
    }
    assert(all_digits(body)) by {
        assert forall|j: int| 0 <= j < body.len() implies is_digit(#[trigger] body[j]) by {
            assert(body[j] == v@[start + j]);
        }
    }
    match digits_upto(v, start, hi, usize::MAX as u64) {
        Some(n) => Some(n as usize),
        None => None,
    }
}

/// `str::parse::<u32>` on `v[lo..hi]`.
#[verifier::loop_isolation(false)]
pub fn parse_u32(v: &[char], lo: usize, hi: usize) -> (r: Option<u32>)
    requires
        lo <= hi <= v@.len(),
    ensures
        r == parse_u32_spec(v@.subrange(lo as int, hi as int)),
{
    let ghost s = v@.subrange(lo as int, hi as int);
    let signed = lo < hi && v[lo] == '+';
    let start = if signed { lo + 1 } else { lo };
    let ghost body = if signed { s.drop_first() } else { s };
    assert(body =~= v@.subrange(start as int, hi as int));
    if start == hi {
        assert(body.len() == 0);
        return None;
    }
    let mut k: usize = start;
    while k < hi
        invariant
            start <= k <= hi <= v@.len(),
            body == v@.subrange(start as int, hi as int),
            forall|j: int| start <= j < k ==> is_digit(v@[j]),
        decreases hi - k,
    {
        if !digit_char(v[k]) {
            assert(!is_digit(body[k - start]));
            return None;
        }
        k += 1;
    }
    assert(all_digits(body)) by {
        assert forall|j: int| 0 <= j < body.len() implies is_digit(#[trigger] body[j]) by {
            assert(body[j] == v@[start + j]);
        }
    }
    match digits_upto(v, start, hi, u32::MAX as u64) {
        Some(n) => Some(n as u32),
        None => None,
    }
}

/// `str::parse::<u64>` on `v[lo..hi]`.
#[verifier::loop_isolation(false)]
pub fn parse_u64(v: &[char], lo: usize, hi: usize) -> (r: Option<u64>)
    requires
        lo <= hi <= v@.len(),
    ensures
        r == parse_u64_spec(v@.subrange(lo as int, hi as int)),
{
    let ghost s = v@.subrange(lo as int, hi as int);
    let signed = lo < hi && v[lo] == '+';
    let start = if signed { lo + 1 } else { lo };
    let ghost body = if signed { s.drop_first() } else { s };
    assert(body =~= v@.subrange(start as int, hi as int));
    if start == hi {
        assert(body.len() == 0);
        return None;
    }
    let mut k: usize = start;
    while k < hi
        invariant
            start <= k <= hi <= v@.len(),
            body == v@.subrange(start as int, hi as int),
            forall|j: int| start <= j < k ==> is_digit(v@[j]),
        decreases hi - k,
    {
        if !digit_char(v[k]) {
            assert(!is_digit(body[k - start]));
            return None;
        }
        k += 1;
    }
    assert(all_digits(body)) by {
        assert forall|j: int| 0 <= j < body.len() implies is_digit(#[trigger] body[j]) by {
            assert(body[j] == v@[start + j]);
        }
    }
    match digits_upto(v, start, hi, u64::MAX) {
        Some(n) => Some(n),
        None => None,
    }
}

/// Decimal digits of a natural number, most significant first.
pub open spec fn dec_chars(n: nat) -> Seq<char>
    decreases n,
{
    if n < 10 {
        seq![(('0' as u32) + n) as char]
    } else {
        dec_chars(n / 10).push((('0' as u32) + (n % 10)) as char)
    }
}

/// Decimal text of an integer, with a `-` in front of a negative one.
pub open spec fn int_chars(n: int) -> Seq<char> {
    if n < 0 {
        seq!['-'] + dec_chars((-n) as nat)
    } else {
        dec_chars(n as nat)
    }
}

/// Appends the decimal digits of `n` to `out`.
pub fn push_decimal(out: &mut Vec<char>, n: u64)
    ensures
        final(out)@ == old(out)@ + dec_chars(n as nat),
    decreases n,
{
    if n >= 10 {
        push_decimal(out, n / 10);
    }
    let d = (n % 10) as u32;
    let c = char_of_digit(d);
    out.push(c);
    proof {
        if n < 10 {
            assert(n % 10 == n);
        }
    }
}

fn char_of_digit(d: u32) -> (c: char)
    requires
        d < 10,
    ensures
        c == (('0' as u32) + d) as char,
{
    if d == 0 {
        '0'
    } else if d == 1 {
        '1'
    } else if d == 2 {
        '2'
    } else if d == 3 {
        '3'
    } else if d == 4 {
        '4'
    } else if d == 5 {
        '5'
    } else if d == 6 {
        '6'
    } else if d == 7 {
        '7'
    } else if d == 8 {
        '8'
    } else {
        '9'
    }
}

/// Appends the decimal text of a signed number to `out`.
pub fn push_i64(out: &mut Vec<char>, n: i64)
    ensures
        final(out)@ == old(out)@ + int_chars(n as int),
{
    if n < 0 {
        out.push('-');
        let m: u64 = if n == i64::MIN {
            9223372036854775808u64
        } else {
            (-n) as u64
        };
        push_decimal(out, m);
        assert(out@ =~= old(out)@ + int_chars(n as int));
    } else {
        push_decimal(out, n as u64);
    }
}

/// The decimal text of a signed number, as `i64::to_string` writes it.
pub fn i64_to_string(n: i64) -> (s: String)
    ensures
        s@ == int_chars(n as int),
{
    let mut v: Vec<char> = Vec::new();
    push_i64(&mut v, n);
    assert(v@ =~= int_chars(n as int));
    string_of(&v)
}

/// The decimal text of an unsigned number, as `usize::to_string` writes it.
pub fn usize_to_string(n: usize) -> (s: String)
    ensures
        s@ == dec_chars(n as nat),
{
    let mut v: Vec<char> = Vec::new();
    push_decimal(&mut v, n as u64);
    assert(v@ =~= dec_chars(n as nat));
    string_of(&v)
}

// ---------------------------------------------------------------------------
// Byte offsets
// ---------------------------------------------------------------------------

pub fn utf8_len_exec(c: char) -> (r: usize)
    ensures
        r == utf8_len(c),
{
    let u = c as u32;
    if u < 0x80 {
        1
    } else if u < 0x800 {
        2
    } else if u < 0x10000 {
        3
    } else {
        4
    }
}

/// The byte length of `v[0..k]` in UTF-8.
pub fn byte_offset(v: &[char], k: usize) -> (r: usize)
    requires
        k <= v@.len(),
        v@.len() <= usize::MAX / 4,
    ensures
        r == byte_len(v@.take(k as int)),
        r <= 4 * k,
{
    let mut acc: usize = 0;
    let mut i: usize = 0;
    while i < k
        invariant
            i <= k <= v@.len() <= usize::MAX / 4,
            acc == byte_len(v@.take(i as int)),
            acc <= 4 * i,
        decreases k - i,
    {
        assert(v@.take(i + 1).drop_last() =~= v@.take(i as int));
        acc = acc + utf8_len_exec(v[i]);
        i += 1;
    }
    acc
}


// ---------------------------------------------------------------------------
// Lines
// ---------------------------------------------------------------------------

/// The position of the first line feed in `s`, or -1.
pub open spec fn first_nl(s: Seq<char>) -> int
    decreases s.len(),
{
    if s.len() == 0 {
        -1
    } else if s[0] == '\n' {
        0
    } else if first_nl(s.drop_first()) < 0 {
        -1
    } else {
        first_nl(s.drop_first()) + 1
    }
}

/// A line without its line ending's carriage return.
pub open spec fn strip_cr(s: Seq<char>) -> Seq<char> {
    if s.len() > 0 && s.last() == '\r' {
        s.drop_last()
    } else {
        s
    }
}

/// The lines of a text as `str::lines` gives them: cut at each `\n`, a
/// `\r` before it dropped, with no empty line after a final line feed.
pub open spec fn text_lines(s: Seq<char>) -> Seq<Seq<char>>
    decreases s.len(),
{
    if s.len() == 0 {
        Seq::empty()
    } else if first_nl(s) < 0 {
        seq![s]
    } else {
        proof {
            lemma_first_nl_range(s);
        }
        seq![strip_cr(s.take(first_nl(s)))] + text_lines(s.skip(first_nl(s) + 1))
    }
}

pub proof fn lemma_first_nl_range(s: Seq<char>)
    ensures
        -1 <= first_nl(s) < s.len(),
        first_nl(s) >= 0 ==> s[first_nl(s)] == '\n',
    decreases s.len(),
{
    if s.len() > 0 {
        lemma_first_nl_range(s.drop_first());
    }
}

proof fn lemma_first_nl_at(s: Seq<char>, k: int)
    requires
        0 <= k < s.len(),
        s[k] == '\n',
        forall|j: int| 0 <= j < k ==> s[j] != '\n',
    ensures
        first_nl(s) == k,
    decreases k,
{
    if k > 0 {
        lemma_first_nl_at(s.drop_first(), k - 1);
    }
}

proof fn lemma_first_nl_none(s: Seq<char>)
    requires
        forall|j: int| 0 <= j < s.len() ==> s[j] != '\n',
    ensures
        first_nl(s) == -1,
    decreases s.len(),
{
    if s.len() > 0 {
        lemma_first_nl_none(s.drop_first());
    }
}

/// The lines of `v`, as `str::lines` gives them.
pub fn lines_of(v: &[char]) -> (r: Vec<Vec<char>>)
    ensures
        r@.len() == text_lines(v@).len(),
        forall|k: int| 0 <= k < r@.len() ==> (#[trigger] r@[k])@ == text_lines(v@)[k],
{
    let mut out: Vec<Vec<char>> = Vec::new();
    let mut start: usize = 0;
    let mut i: usize = 0;
    let ghost mut done: Seq<Seq<char>> = Seq::empty();
    assert(v@.skip(0) =~= v@);
    assert(done + text_lines(v@.skip(0)) =~= text_lines(v@));
    while i < v.len()
        invariant
            start <= i <= v@.len(),
            forall|j: int| start <= j < i ==> v@[j] != '\n',
            out@.len() == done.len(),
            forall|k: int| 0 <= k < out@.len() ==> (#[trigger] out@[k])@ == done[k],
            done + text_lines(v@.skip(start as int)) == text_lines(v@),
        decreases v.len() - i,
    {
        if v[i] == '\n' {
            let ghost rest = v@.skip(start as int);
            proof {
                assert forall|j: int| 0 <= j < i - start implies rest[j] != '\n' by {
                    assert(rest[j] == v@[start + j]);
                }
                lemma_first_nl_at(rest, i - start);
                assert(rest.skip(i - start + 1) =~= v@.skip(i + 1));
                assert(rest.take(i - start) =~= v@.subrange(start as int, i as int));
            }
            let end = if i > start && v[i - 1] == '\r' { i - 1 } else { i };
            let line = slice_range(v, start, end);
            proof {
                assert(line@ == strip_cr(v@.subrange(start as int, i as int)));
                done = done.push(line@);
                assert(done + text_lines(v@.skip(i + 1)) =~= text_lines(v@));
            }
            out.push(line);
            start = i + 1;
        }
        i = i + 1;
    }
    if start < v.len() {
        let ghost rest = v@.skip(start as int);
        proof {
            assert forall|j: int| 0 <= j < rest.len() implies rest[j] != '\n' by {
                assert(rest[j] == v@[start + j]);
            }
            lemma_first_nl_none(rest);
        }
        let line = slice_range(v, start, v.len());
        proof {
            assert(line@ =~= rest);
            done = done.push(line@);
        }
        out.push(line);
        assert(done =~= text_lines(v@));
    } else {
        assert(v@.skip(start as int) =~= Seq::<char>::empty());
        assert(done =~= text_lines(v@));
    }
    out
}

/// The rest of the first of the lines that starts with `prefix`.
pub open spec fn line_value(lines: Seq<Seq<char>>, prefix: Seq<char>) -> Option<Seq<char>>
    decreases lines.len(),
{
    if lines.len() == 0 {
        None
    } else if has_prefix(lines[0], prefix) {
        Some(lines[0].skip(prefix.len() as int))
    } else {
        line_value(lines.drop_first(), prefix)
    }
}

/// The rest of the first line that starts with `prefix`, as
/// `lines().find_map(|l| l.strip_prefix(prefix))` gives it.
pub fn find_line_value(lines: &Vec<Vec<char>>, prefix: &str) -> (r: Option<Vec<char>>)
    ensures
        match r {
            Some(v) => line_value(lines@.map_values(|l: Vec<char>| l@), prefix@) == Some(v@),
            None => line_value(lines@.map_values(|l: Vec<char>| l@), prefix@) is None,
        },
{
    let p = chars_of(prefix);
    let ghost all = lines@.map_values(|l: Vec<char>| l@);
    let mut k: usize = 0;
    assert(all.skip(0) =~= all);
    while k < lines.len()
        invariant
            k <= lines@.len(),
            p@ == prefix@,
            all == lines@.map_values(|l: Vec<char>| l@),
            line_value(all, prefix@) == line_value(all.skip(k as int), prefix@),
        decreases lines.len() - k,
    {
        let ghost rest = all.skip(k as int);
        assert(rest[0] == lines@[k as int]@);
        if starts_with(&lines[k], &p) {
            return Some(slice_range(&lines[k], p.len(), lines[k].len()));
        }
        assert(rest.drop_first() =~= all.skip(k + 1));
        k = k + 1;
    }
    assert(all.skip(k as int) =~= Seq::<Seq<char>>::empty());
    None
}


/// The position of the first `c` in `s`, or -1.
pub open spec fn first_of(s: Seq<char>, c: char) -> int
    decreases s.len(),
{
    if s.len() == 0 {
        -1
    } else if s[0] == c {
        0
    } else if first_of(s.drop_first(), c) < 0 {
        -1
    } else {
        first_of(s.drop_first(), c) + 1
    }
}

pub proof fn lemma_first_of_at(s: Seq<char>, c: char, k: int)
    requires
        0 <= k < s.len(),
        s[k] == c,
        forall|j: int| 0 <= j < k ==> s[j] != c,
    ensures
        first_of(s, c) == k,
    decreases k,
{
    if k > 0 {
        lemma_first_of_at(s.drop_first(), c, k - 1);
    }
}

pub proof fn lemma_first_of_none(s: Seq<char>, c: char)
    requires
        forall|j: int| 0 <= j < s.len() ==> s[j] != c,
    ensures
        first_of(s, c) == -1,
    decreases s.len(),
{
    if s.len() > 0 {
        lemma_first_of_none(s.drop_first(), c);
    }
}

/// The first position of `c` in `v`, as `first_of` names it.
pub fn index_of_char(v: &[char], c: char) -> (r: Option<usize>)
    ensures
        match r {
            Some(i) => i < v@.len() && first_of(v@, c) == i,
            None => first_of(v@, c) == -1,
        },
{
    match find_char_from(v, 0, c) {
        Some(i) => {
            proof {
                lemma_first_of_at(v@, c, i as int);
            }
            Some(i)
        },
        None => {
            proof {
                lemma_first_of_none(v@, c);
            }
            None
        },
    }
}

/// The character position in `s` where its UTF-8 bytes reach `b`, if `b`
/// falls on a character boundary within `s`.
pub open spec fn char_at_byte(s: Seq<char>, b: int) -> Option<int>
    decreases s.len(),
{
    if b == 0 {
        Some(0)
    } else if s.len() == 0 || b < utf8_len(s[0]) {
        None
    } else {
        match char_at_byte(s.drop_first(), b - utf8_len(s[0])) {
            Some(k) => Some(k + 1),
            None => None,
        }
    }
}

/// The text of `s` from byte `b` on, as `str::get(b..)` gives it.
pub open spec fn get_from_byte(s: Seq<char>, b: int) -> Option<Seq<char>> {
    match char_at_byte(s, b) {
        Some(k) => Some(s.skip(k)),
        None => None,
    }
}

proof fn lemma_char_at_byte_step(s: Seq<char>, i: int, b: int)
    requires
        0 <= i < s.len(),
        0 <= b,
    ensures
        char_at_byte(s.skip(i), b) == (if b == 0 {
            Some(0int)
        } else if b < utf8_len(s[i]) {
            None
        } else {
            match char_at_byte(s.skip(i + 1), b - utf8_len(s[i])) {
                Some(k) => Some(k + 1),
                None => None,
            }
        }),
{
    assert(s.skip(i).drop_first() =~= s.skip(i + 1));
    assert(s.skip(i)[0] == s[i]);
}

/// `str::get(b..)` on the characters `v`: the characters from byte `b`
/// on, when `b` is a character boundary.
pub fn get_from_byte_exec(v: &[char], b: usize) -> (r: Option<Vec<char>>)
    ensures
        match r {
            Some(t) => get_from_byte(v@, b as int) == Some(t@),
            None => get_from_byte(v@, b as int) is None,
        },
{
    let mut i: usize = 0;
    let mut left: usize = b;
    assert(v@.skip(0) =~= v@);
    while i < v.len() && left > 0 && left >= utf8_len_exec(v[i])
        invariant
            i <= v@.len(),
            left <= b,
            char_at_byte(v@, b as int) == match char_at_byte(v@.skip(i as int), left as int) {
                Some(k) => Some(k + i),
                None => None,
            },
        decreases v.len() - i,
    {
        proof {
            lemma_char_at_byte_step(v@, i as int, left as int);
        }
        left = left - utf8_len_exec(v[i]);
        i = i + 1;
    }
    proof {
        if i < v.len() {
            lemma_char_at_byte_step(v@, i as int, left as int);
        } else {
            assert(v@.skip(i as int).len() == 0);
        }
    }
    if left == 0 {
        Some(slice_range(v, i, v.len()))
    } else {
        None
    }
}

} // verus!
