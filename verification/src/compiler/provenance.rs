//! Where a compiled module came from: the digest of its source text and the
//! spans of its `SOURCE` leaves and module calls.
use vstd::prelude::*;
use sha2::{Digest, Sha256};
use crate::syntax::ParsedModule;
use crate::text::{chars_of_string, string_of};
use super::{CompiledProvenance, CompiledSourceSpan};

verus! {

/// The SHA-256 digest of the UTF-8 encoding of a text.
pub uninterp spec fn sha256_of_text(text: Seq<char>) -> Seq<u8>;

/// `sha2::Sha256::digest` of the UTF-8 bytes of `text`. Claimed: the result
/// is the digest named `sha256_of_text` of the text, and it is 32 bytes
/// long, as SHA-256 digests are.
#[verifier::external_body]
fn sha256_text(text: &str) -> (r: Vec<u8>)
    ensures
        r@ == sha256_of_text(text@),
        r@.len() == 32,
{
    Sha256::digest(text.as_bytes()).to_vec()
}

/// The lowercase hexadecimal digit of a value below sixteen.
pub open spec fn hex_digit(n: int) -> char {
    if n < 10 {
        (('0' as u32) + n) as char
    } else {
        (('a' as u32) + (n - 10)) as char
    }
}

/// Two lowercase hexadecimal digits per byte, high half first.
pub open spec fn hex_text(bytes: Seq<u8>) -> Seq<char> {
    Seq::new(2 * bytes.len(), |i: int| if i % 2 == 0 {
        hex_digit(bytes[i / 2] as int / 16)
    } else {
        hex_digit(bytes[i / 2] as int % 16)
    })
}

/// `hex::encode`: claimed to write each byte as two lowercase hexadecimal
/// digits, high half first, as its source does with the table
/// `0123456789abcdef`.
#[verifier::external_body]
fn hex_encode(bytes: &[u8]) -> (r: String)
    ensures
        r@ == hex_text(bytes@),
{
    hex::encode(bytes)
}

/// The lowercase hexadecimal SHA-256 digest of a source text.
pub fn source_digest(text: &str) -> (r: String)
    ensures
        r@ == hex_text(sha256_of_text(text@)),
        r@.len() == 64,
{
    let d = sha256_text(text);
    hex_encode(&d)
}

pub open spec fn span_kind_source() -> Seq<char> {
    "SOURCE"@
}

pub open spec fn span_kind_call() -> Seq<char> {
    "module_call"@
}

/// The provenance of a module: the digest of its source, and a span for
/// each `SOURCE` leaf and then each module call, in order. The HIR digest
/// is left empty here: it is the digest of the HIR's serialised form, which
/// the application that serialises the HIR fills in.
/// The provenance of a compiled module: the source digest, an empty HIR
/// digest, and one span per `SOURCE` leaf, then one per module call.
pub open spec fn provenance_result(r: CompiledProvenance, source: Seq<char>, parsed: ParsedModule) -> bool {
    &&& r.source_sha256@ == hex_text(sha256_of_text(source))
    &&& r.hir_sha256@.len() == 0
    &&& r.source_spans@.len() == parsed.source_leaves@.len() + parsed.module_calls@.len()
    &&& forall|i: int| 0 <= i < parsed.source_leaves@.len() ==> {
        &&& (#[trigger] r.source_spans@[i]).kind@ == span_kind_source()
        &&& r.source_spans@[i].path@ == parsed.source_leaves@[i].path@
        &&& r.source_spans@[i].line == parsed.source_leaves@[i].span.line
        &&& r.source_spans@[i].column == parsed.source_leaves@[i].span.column
    }
    &&& forall|i: int| 0 <= i < parsed.module_calls@.len() ==> {
        let s = #[trigger] r.source_spans@[parsed.source_leaves@.len() + i];
        &&& s.kind@ == span_kind_call()
        &&& s.path@ == parsed.module_calls@[i].path@
        &&& s.line == parsed.module_calls@[i].span.line
        &&& s.column == parsed.module_calls@[i].span.column
    }
}

pub fn compiled_provenance(source: &str, parsed: &ParsedModule) -> (r: CompiledProvenance)
    ensures
        r.source_sha256@ == hex_text(sha256_of_text(source@)),
        r.hir_sha256@.len() == 0,
        r.source_spans@.len() == parsed.source_leaves@.len() + parsed.module_calls@.len(),
        forall|i: int| 0 <= i < parsed.source_leaves@.len() ==> {
            &&& (#[trigger] r.source_spans@[i]).kind@ == span_kind_source()
            &&& r.source_spans@[i].path@ == parsed.source_leaves@[i].path@
            &&& r.source_spans@[i].line == parsed.source_leaves@[i].span.line
            &&& r.source_spans@[i].column == parsed.source_leaves@[i].span.column
        },
        forall|i: int| 0 <= i < parsed.module_calls@.len() ==> {
            let s = #[trigger] r.source_spans@[parsed.source_leaves@.len() + i];
            &&& s.kind@ == span_kind_call()
            &&& s.path@ == parsed.module_calls@[i].path@
            &&& s.line == parsed.module_calls@[i].span.line
            &&& s.column == parsed.module_calls@[i].span.column
        },
{
    let source_sha256 = source_digest(source);
    let mut spans: Vec<CompiledSourceSpan> = Vec::new();
    let mut i: usize = 0;
    while i < parsed.source_leaves.len()
        invariant
            i <= parsed.source_leaves@.len(),
            spans@.len() == i,
            forall|k: int| 0 <= k < i ==> {
                &&& (#[trigger] spans@[k]).kind@ == span_kind_source()
                &&& spans@[k].path@ == parsed.source_leaves@[k].path@
                &&& spans@[k].line == parsed.source_leaves@[k].span.line
                &&& spans@[k].column == parsed.source_leaves@[k].span.column
            },
        decreases parsed.source_leaves.len() - i,
    {
        let leaf = &parsed.source_leaves[i];
        spans.push(CompiledSourceSpan {
            kind: "SOURCE".to_owned(),
            path: string_of(&chars_of_string(&leaf.path)),
            line: leaf.span.line,
            column: leaf.span.column,
        });
        i = i + 1;
    }
    let n = spans.len();
    let mut j: usize = 0;
    while j < parsed.module_calls.len()
        invariant
            j <= parsed.module_calls@.len(),
            n == parsed.source_leaves@.len(),
            spans@.len() == n + j,
            forall|k: int| 0 <= k < n ==> {
                &&& (#[trigger] spans@[k]).kind@ == span_kind_source()
                &&& spans@[k].path@ == parsed.source_leaves@[k].path@
                &&& spans@[k].line == parsed.source_leaves@[k].span.line
                &&& spans@[k].column == parsed.source_leaves@[k].span.column
            },
            forall|k: int| 0 <= k < j ==> {
                let s = #[trigger] spans@[n + k];
                &&& s.kind@ == span_kind_call()
                &&& s.path@ == parsed.module_calls@[k].path@
                &&& s.line == parsed.module_calls@[k].span.line
                &&& s.column == parsed.module_calls@[k].span.column
            },
        decreases parsed.module_calls.len() - j,
    {
        let call = &parsed.module_calls[j];
        spans.push(CompiledSourceSpan {
            kind: "module_call".to_owned(),
            path: string_of(&chars_of_string(&call.path)),
            line: call.span.line,
            column: call.span.column,
        });
        proof {
            assert(spans@[n + j as int].kind@ == span_kind_call());
        }
        j = j + 1;
    }
    CompiledProvenance { source_sha256, hir_sha256: String::new(), source_spans: spans }
}

} // verus!
