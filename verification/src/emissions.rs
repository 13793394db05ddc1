//! Checks and keys for the values that hosts emit on `SOURCE` leaves.
use vstd::prelude::*;
use crate::runtime::{SourceEmission, SourceValue};
use crate::shape::{Shape, ShapeModel, shape_model, shape_label};
use crate::text::{chars_of, string_of, push_str, push_i64, int_chars, dec_chars, push_decimal, string_eq};

verus! {

/// Whether a value fits a shape: the empty record, text and numbers fit
/// their own shape, a tag fits a tag set that lists it, and a value fits a
/// union when it fits one of its alternatives.
pub open spec fn value_fits(v: SourceValue, s: ShapeModel) -> bool
    decreases s, 0int,
{
    match s {
        ShapeModel::EmptyRecord => v is EmptyRecord,
        ShapeModel::Text => v is Text,
        ShapeModel::Number => v is Number,
        ShapeModel::TagSet(tags) => match v {
            SourceValue::Tag(t) => tags.contains(t@),
            _ => false,
        },
        ShapeModel::Union(alts) => fits_some(v, alts, alts.len() as int),
        _ => false,
    }
}

/// Whether a value fits one of the first `n` shapes of `alts`.
pub open spec fn fits_some(v: SourceValue, alts: Seq<ShapeModel>, n: int) -> bool
    decreases alts, n,
{
    if n <= 0 || n > alts.len() {
        false
    } else {
        fits_some(v, alts, n - 1) || value_fits(v, alts[n - 1])
    }
}

proof fn lemma_fits_some_grows(v: SourceValue, alts: Seq<ShapeModel>, n: int, m: int)
    requires
        0 <= n <= m <= alts.len(),
        fits_some(v, alts, n),
    ensures
        fits_some(v, alts, m),
    decreases m - n,
{
    if n < m {
        lemma_fits_some_grows(v, alts, n, m - 1);
    }
}

/// Whether `value` fits `shape`.
#[verifier::loop_isolation(false)]
pub fn value_fits_shape(value: &SourceValue, shape: &Shape) -> (r: bool)
    ensures
        r == value_fits(*value, shape@),
    decreases shape,
{
    match shape {
        Shape::EmptyRecord => match value {
            SourceValue::EmptyRecord => true,
            _ => false,
        },
        Shape::Text => match value {
            SourceValue::Text(_) => true,
            _ => false,
        },
        Shape::Number => match value {
            SourceValue::Number(_) => true,
            _ => false,
        },
        Shape::TagSet(tags) => match value {
            SourceValue::Tag(t) => {
                let ghost names = shape@->TagSet_0;
                assert(names == Seq::new(tags@.len(), |k: int| tags@[k]@));
                let mut i: usize = 0;
                while i < tags.len()
                    invariant
                        i <= tags@.len(),
                        names == Seq::new(tags@.len(), |k: int| tags@[k]@),
                        forall|k: int| 0 <= k < i ==> tags@[k]@ != t@,
                    decreases tags.len() - i,
                {
                    if crate::text::string_eq(&tags[i], t) {
                        assert(names[i as int] == t@);
                        assert(names.contains(t@));
                        return true;
                    }
                    i += 1;
                }
                assert(!names.contains(t@)) by {
                    if names.contains(t@) {
                        let k = choose|k: int| 0 <= k < names.len() && names[k] == t@;
                        assert(tags@[k]@ == t@);
                    }
                }
                false
            },
            _ => false,
        },
        Shape::Union(alts) => {
            let ghost models = shape@->Union_0;
            assert(forall|k: int| 0 <= k < alts@.len() ==> models[k] == shape_model(#[trigger] alts@[k]));
            let mut i: usize = 0;
            while i < alts.len()
                invariant
                    i <= alts@.len(),
                    models.len() == alts@.len(),
                    forall|k: int| 0 <= k < alts@.len() ==> models[k] == shape_model(#[trigger] alts@[k]),
                    !fits_some(*value, models, i as int),
                decreases alts.len() - i,
            {
                proof {
                    assert(decreases_to!(*shape => (*shape)->Union_0));
                    assert(decreases_to!(alts => alts@));
                    assert(decreases_to!(alts@ => alts@[i as int]));
                }
                if value_fits_shape(value, &alts[i]) {
                    assert(fits_some(*value, models, i + 1));
                    proof {
                        lemma_fits_some_grows(*value, models, i + 1, models.len() as int);
                    }
                    return true;
                }
                i += 1;
            }
            false
        },
        _ => false,
    }
}

/// What std's `Debug` writes for a string: the text in double quotes,
/// with quotes, backslashes and unprintable characters escaped.
pub uninterp spec fn str_debug_text(s: Seq<char>) -> Seq<char>;

/// std's `Debug` formatting of a `str` (`format!("{:?}", s)`). The
/// contract names the result; what the escaping does is left to std.
#[verifier::external_body]
pub(crate) fn debug_quoted(s: &str) -> (r: String)
    ensures
        r@ == str_debug_text(s@),
{
    format!("{:?}", s)
}

/// How a source value prints for debugging: the variant's name, then its
/// payload in brackets.
pub open spec fn value_debug(v: SourceValue) -> Seq<char> {
    match v {
        SourceValue::EmptyRecord => "EmptyRecord"@,
        SourceValue::Text(t) => "Text("@ + str_debug_text(t@) + ")"@,
        SourceValue::Number(n) => "Number("@ + int_chars(n as int) + ")"@,
        SourceValue::Tag(t) => "Tag("@ + str_debug_text(t@) + ")"@,
    }
}

/// The debugging text of a source value.
pub fn value_debug_text(value: &SourceValue) -> (r: String)
    ensures
        r@ == value_debug(*value),
{
    proof {
        reveal_strlit("EmptyRecord");
        reveal_strlit("Text(");
        reveal_strlit("Number(");
        reveal_strlit("Tag(");
        reveal_strlit(")");
    }
    let mut out: Vec<char> = Vec::new();
    match value {
        SourceValue::EmptyRecord => {
            push_str(&mut out, "EmptyRecord");
        },
        SourceValue::Text(t) => {
            push_str(&mut out, "Text(");
            let q = debug_quoted(t.as_str());
            push_str(&mut out, q.as_str());
            push_str(&mut out, ")");
        },
        SourceValue::Number(n) => {
            push_str(&mut out, "Number(");
            push_i64(&mut out, *n);
            push_str(&mut out, ")");
        },
        SourceValue::Tag(t) => {
            push_str(&mut out, "Tag(");
            let q = debug_quoted(t.as_str());
            push_str(&mut out, q.as_str());
            push_str(&mut out, ")");
        },
    }
    assert(out@ =~= value_debug(*value));
    string_of(&out)
}

/// A value that does not fit the shape of the `SOURCE` it was sent on.
#[derive(Debug)]
pub struct SourceShapeError {
    pub path: String,
    pub expected: String,
    pub received: String,
}

impl SourceShapeError {
    /// The error's message.
    pub fn to_string(&self) -> (r: String)
        ensures
            r@ == "SOURCE `"@ + self.path@ + "` expected "@ + self.expected@ + " but received "@ + self.received@,
    {
        let mut out: Vec<char> = Vec::new();
        push_str(&mut out, "SOURCE `");
        push_str(&mut out, self.path.as_str());
        push_str(&mut out, "` expected ");
        push_str(&mut out, self.expected.as_str());
        push_str(&mut out, " but received ");
        push_str(&mut out, self.received.as_str());
        string_of(&out)
    }
}

/// Checks a value sent on the `SOURCE` at `path` against its shape.
pub fn validate_value_shape(value: &SourceValue, shape: &Shape, path: &str) -> (r: Result<(), SourceShapeError>)
    ensures
        r is Ok <==> value_fits(*value, shape@),
        match r {
            Ok(_) => true,
            Err(e) => e.path@ == path@ && e.expected@ == shape_label(shape@) && e.received@ == value_debug(*value),
        },
{
    if value_fits_shape(value, shape) {
        Ok(())
    } else {
        let expected = shape.label().to_owned();
        Err(SourceShapeError { path: path.to_owned(), expected, received: value_debug_text(value) })
    }
}

/// The key under which an emission's latest value is kept: its path, and
/// `#` and its owner where it has one.
pub open spec fn state_key(path: Seq<char>, owner: Option<Seq<char>>) -> Seq<char> {
    match owner {
        Some(o) => path + "#"@ + o,
        None => path,
    }
}

/// The key under which an emission's latest value is kept.
pub fn source_state_key(emission: &SourceEmission) -> (r: String)
    ensures
        r@ == state_key(
            emission.path@,
            match emission.owner_id {
                Some(o) => Some(o@),
                None => None,
            },
        ),
{
    match &emission.owner_id {
        Some(owner) => {
            proof {
                reveal_strlit("#");
            }
            let mut out: Vec<char> = Vec::new();
            push_str(&mut out, emission.path.as_str());
            push_str(&mut out, "#");
            push_str(&mut out, owner.as_str());
            string_of(&out)
        },
        None => emission.path.clone(),
    }
}

/// The texts of a sequence of strings.
pub open spec fn texts_of(v: Seq<String>) -> Seq<Seq<char>> {
    v.map_values(|x: String| x@)
}

/// The paths of `s` in order, each kept where it first occurs.
pub open spec fn first_occurrences(s: Seq<Seq<char>>) -> Seq<Seq<char>>
    decreases s.len(),
{
    if s.len() == 0 {
        s
    } else {
        let kept = first_occurrences(s.drop_last());
        if kept.contains(s.last()) {
            kept
        } else {
            kept.push(s.last())
        }
    }
}

/// The paths in order, each kept where it first occurs.
pub fn unique_paths(paths: Vec<String>) -> (r: Vec<String>)
    ensures
        texts_of(r@) == first_occurrences(texts_of(paths@)),
{
    let mut out: Vec<String> = Vec::new();
    let mut i: usize = 0;
    while i < paths.len()
        invariant
            i <= paths@.len(),
            texts_of(out@) == first_occurrences(texts_of(paths@).take(i as int)),
        decreases paths.len() - i,
    {
        let ghost all = texts_of(paths@);
        assert(all.take(i + 1).drop_last() =~= all.take(i as int));
        assert(all.take(i + 1).last() == paths@[i as int]@);
        let mut seen = false;
        let mut j: usize = 0;
        while j < out.len()
            invariant
                i < paths@.len(),
                j <= out@.len(),
                seen <==> exists|k: int| 0 <= k < j && out@[k]@ == paths@[i as int]@,
            decreases out.len() - j,
        {
            if string_eq(&out[j], &paths[i]) {
                seen = true;
            }
            j += 1;
        }
        let ghost before = texts_of(out@);
        assert(seen <==> before.contains(paths@[i as int]@)) by {
            if seen {
                let k = choose|k: int| 0 <= k < out@.len() && out@[k]@ == paths@[i as int]@;
                assert(before[k] == paths@[i as int]@);
            }
            if before.contains(paths@[i as int]@) {
                let k = choose|k: int| 0 <= k < before.len() && before[k] == paths@[i as int]@;
                assert(out@[k]@ == paths@[i as int]@);
            }
        }
        if !seen {
            out.push(paths[i].clone());
            assert(texts_of(out@) =~= before.push(paths@[i as int]@));
        }
        i += 1;
    }
    assert(texts_of(paths@).take(paths@.len() as int) =~= texts_of(paths@));
    out
}

/// The segments that name a leaf of a source rather than the source
/// itself.
pub open spec fn is_leaf_word(seg: Seq<char>) -> bool {
    seg == "sources"@ || seg == "event"@ || seg == "press"@ || seg == "click"@ || seg == "text"@
        || seg == "key_down"@ || seg == "key"@ || seg == "change"@ || seg == "focus"@ || seg == "blur"@
}

/// Walks the dotted segments of `s` from the last one back, where `seg`
/// holds the characters of the current segment that follow `s`: the first
/// segment met that is not a leaf word.
pub open spec fn label_scan(s: Seq<char>, seg: Seq<char>) -> Option<Seq<char>>
    decreases s.len(),
{
    if s.len() == 0 {
        if is_leaf_word(seg) { None } else { Some(seg) }
    } else if s.last() == '.' {
        if !is_leaf_word(seg) { Some(seg) } else { label_scan(s.drop_last(), Seq::empty()) }
    } else {
        label_scan(s.drop_last(), seq![s.last()] + seg)
    }
}

/// `s` with each `_` replaced by a space.
pub open spec fn spaced(s: Seq<char>) -> Seq<char> {
    Seq::new(s.len(), |k: int| if s[k] == '_' { ' ' } else { s[k] })
}

/// The label of a source: the last segment of its path that is not a leaf
/// word, or the whole path, with underscores as spaces.
pub open spec fn source_label(path: Seq<char>) -> Seq<char> {
    match label_scan(path, Seq::empty()) {
        Some(seg) => spaced(seg),
        None => spaced(path),
    }
}

fn leaf_word(seg: &[char]) -> (r: bool)
    ensures
        r == is_leaf_word(seg@),
{
    let words = ["sources", "event", "press", "click", "text", "key_down", "key", "change", "focus", "blur"];
    proof {
        reveal_strlit("sources");
        reveal_strlit("event");
        reveal_strlit("press");
        reveal_strlit("click");
        reveal_strlit("text");
        reveal_strlit("key_down");
        reveal_strlit("key");
        reveal_strlit("change");
        reveal_strlit("focus");
        reveal_strlit("blur");
    }
    let mut i: usize = 0;
    while i < 10
        invariant
            i <= 10,
            words@ == seq!["sources", "event", "press", "click", "text", "key_down", "key", "change", "focus", "blur"],
            forall|k: int| 0 <= k < i ==> seg@ != (#[trigger] words@[k])@,
        decreases 10 - i,
    {
        let w = chars_of(words[i]);
        if crate::text::seq_eq(seg, &w) {
            return true;
        }
        i += 1;
    }
    assert(!is_leaf_word(seg@)) by {
        assert(seg@ != words@[0]@);
        assert(seg@ != words@[1]@);
        assert(seg@ != words@[2]@);
        assert(seg@ != words@[3]@);
        assert(seg@ != words@[4]@);
        assert(seg@ != words@[5]@);
        assert(seg@ != words@[6]@);
        assert(seg@ != words@[7]@);
        assert(seg@ != words@[8]@);
        assert(seg@ != words@[9]@);
    }
    false
}

fn spaced_string(v: &[char]) -> (r: String)
    ensures
        r@ == spaced(v@),
{
    let mut out: Vec<char> = Vec::new();
    let mut i: usize = 0;
    while i < v.len()
        invariant
            i <= v@.len(),
            out@ == spaced(v@.take(i as int)),
        decreases v.len() - i,
    {
        if v[i] == '_' {
            out.push(' ');
        } else {
            out.push(v[i]);
        }
        assert(out@ =~= spaced(v@.take(i + 1)));
        i += 1;
    }
    assert(v@.take(v@.len() as int) =~= v@);
    string_of(&out)
}

/// The label of a source: the last segment of its path that is not a leaf
/// word (`sources`, `event`, `press`, `text`, ...), or the whole path,
/// with underscores as spaces.
pub fn generic_source_label(path: &str) -> (r: String)
    ensures
        r@ == source_label(path@),
{
    let v = chars_of(path);
    let mut end: usize = v.len();
    let mut i: usize = v.len();
    assert(v@.take(i as int) =~= v@);
    assert(v@.subrange(i as int, end as int) =~= Seq::<char>::empty());
    while i > 0 && v[i - 1] != '.'
        invariant
            i <= end <= v@.len(),
            label_scan(v@, Seq::empty()) == label_scan(v@.take(i as int), v@.subrange(i as int, end as int)),
        decreases i,
    {
        proof {
            let t = v@.take(i as int);
            assert(t.drop_last() =~= v@.take(i - 1));
            assert(seq![t.last()] + v@.subrange(i as int, end as int) =~= v@.subrange(i - 1, end as int));
        }
        i = i - 1;
    }
    loop
        invariant
            v@ == path@,
            i <= end <= v@.len(),
            i == 0 || v@[i - 1] == '.',
            label_scan(v@, Seq::empty()) == label_scan(v@.take(i as int), v@.subrange(i as int, end as int)),
        decreases i,
    {
        let seg = crate::text::slice_range(&v, i, end);
        proof {
            if i > 0 {
                assert(v@.take(i as int).last() == '.');
            } else {
                assert(v@.take(0).len() == 0);
            }
        }
        if !leaf_word(&seg) {
            assert(label_scan(v@, Seq::empty()) == Some(seg@));
            return spaced_string(&seg);
        }
        if i == 0 {
            assert(label_scan(v@, Seq::empty()) is None);
            return spaced_string(&v);
        }
        proof {
            let t = v@.take(i as int);
            assert(t.drop_last() =~= v@.take(i - 1));
            assert(v@.subrange(i - 1, i - 1) =~= Seq::<char>::empty());
        }
        end = i - 1;
        i = i - 1;
        while i > 0 && v[i - 1] != '.'
            invariant
                i <= end <= v@.len(),
                label_scan(v@, Seq::empty()) == label_scan(v@.take(i as int), v@.subrange(i as int, end as int)),
            decreases i,
        {
            proof {
                let t = v@.take(i as int);
                assert(t.drop_last() =~= v@.take(i - 1));
                assert(seq![t.last()] + v@.subrange(i as int, end as int) =~= v@.subrange(i - 1, end as int));
            }
            i = i - 1;
        }
    }
}

/// The letter of a grid column counted from one (`A` for one), as a byte
/// cast gives it.
pub open spec fn column_letter(col: usize) -> char {
    let b = (col % 256) as int;
    (65 + (if b >= 1 { b - 1 } else { 0 })) as char
}

/// The letter of a grid column counted from one.
pub fn column_name(col: usize) -> (r: char)
    requires
        col % 256 <= 191,
    ensures
        r == column_letter(col),
{
    let b = (col % 256) as u8;
    assert(b == col % 256);
    let d: u8 = 65u8 + b.saturating_sub(1);
    d as char
}

/// The name of a grid cell, such as `B3`: its column letter, then its row.
pub fn coordinate_name(row: usize, col: usize) -> (r: String)
    requires
        col % 256 <= 191,
    ensures
        r@ == seq![column_letter(col)] + dec_chars(row as nat),
{
    let mut out: Vec<char> = Vec::new();
    out.push(column_name(col));
    push_decimal(&mut out, row as u64);
    string_of(&out)
}

} // verus!
