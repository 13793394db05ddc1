//! Why a module does not compile, and the message that says so.
use vstd::prelude::*;
use crate::hir::HirDiagnostic;
use crate::syntax::ParseError;
use crate::text::{chars_of_string, dec_chars, push_all, push_decimal, push_str, string_of};
use super::checks::CallFamily;

verus! {

#[derive(Debug)]
pub enum CompileError {
    /// The source does not parse.
    Parse { error: ParseError },
    /// Lowering met constructs it cannot carry.
    UnsupportedSyntax { module: String, diagnostics: Vec<HirDiagnostic> },
    /// A module call that the compiler does not support.
    UnsupportedCall { family: CallFamily, path: String, line: usize, column: usize },
    /// A `SOURCE` leaf without a data path.
    MissingDataPath { line: usize },
    /// Two `SOURCE` leaves with the same path.
    DuplicateSource { path: String },
    /// A `SOURCE` leaf that no `Element/*` call can produce.
    UnboundSource { path: String },
    /// A `SOURCE` leaf that more than one `Element/*` call produces.
    AmbiguousSource { path: String },
    /// A module with `SOURCE` leaves and no `Element/*` call.
    NoElementBindings { module: String },
    /// A store source that the module reads and nothing produces.
    UnboundRead { path: String },
}

/// `line L column C: message`, for each diagnostic, joined by `; `.
pub open spec fn diagnostics_text(s: Seq<HirDiagnostic>) -> Seq<char>
    decreases s.len(),
{
    if s.len() == 0 {
        Seq::empty()
    } else {
        let d = s.last();
        let one = "line "@ + dec_chars(d.span.line as nat) + " column "@ + dec_chars(d.span.column as nat) + ": "@
            + d.message@;
        if s.len() == 1 {
            one
        } else {
            diagnostics_text(s.drop_last()) + "; "@ + one
        }
    }
}

pub open spec fn family_word(f: CallFamily) -> Seq<char> {
    match f {
        CallFamily::Geometry => "unsupported Geometry operation `"@,
        CallFamily::Number => "unsupported Number operation `"@,
        CallFamily::Math => "unsupported Math operation `"@,
        CallFamily::List => "unsupported List operation `"@,
        CallFamily::Module => "unsupported Boon module call `"@,
    }
}

/// The message of a compile error.
pub open spec fn error_message(e: CompileError) -> Seq<char> {
    match e {
        CompileError::Parse { error: ParseError::TabIndent { line } } => "invalid indentation at line "@
            + dec_chars(line as nat) + ": tabs are not allowed"@,
        CompileError::UnsupportedSyntax { module, diagnostics } => "unsupported Boon syntax in module `"@ + module@
            + "`: "@ + diagnostics_text(diagnostics@),
        CompileError::UnsupportedCall { family, path, line, column } => family_word(family) + path@ + "` at line "@
            + dec_chars(line as nat) + " column "@ + dec_chars(column as nat),
        CompileError::MissingDataPath { line } => "SOURCE at line "@ + dec_chars(line as nat) + " has no data path"@,
        CompileError::DuplicateSource { path } => "SOURCE path `"@ + path@ + "` is declared more than once"@,
        CompileError::UnboundSource { path } => "SOURCE path `"@ + path@
            + "` has no statically provable Element binding with a compatible host contract"@,
        CompileError::AmbiguousSource { path } => "SOURCE path `"@ + path@
            + "` is bound by more than one Element producer"@,
        CompileError::NoElementBindings { module } => "module `"@ + module@
            + "` has SOURCE leaves but no Element/* host bindings"@,
        CompileError::UnboundRead { path } => "source path `"@ + path@
            + "` is read but no host/runtime producer is bound"@,
    }
}

fn push_family_word(out: &mut Vec<char>, f: CallFamily)
    ensures
        final(out)@ == old(out)@ + family_word(f),
{
    match f {
        CallFamily::Geometry => push_str(out, "unsupported Geometry operation `"),
        CallFamily::Number => push_str(out, "unsupported Number operation `"),
        CallFamily::Math => push_str(out, "unsupported Math operation `"),
        CallFamily::List => push_str(out, "unsupported List operation `"),
        CallFamily::Module => push_str(out, "unsupported Boon module call `"),
    }
}

fn push_diagnostics(out: &mut Vec<char>, s: &Vec<HirDiagnostic>)
    ensures
        final(out)@ == old(out)@ + diagnostics_text(s@),
{
    let mut i: usize = 0;
    assert(s@.take(0) =~= Seq::<HirDiagnostic>::empty());
    while i < s.len()
        invariant
            i <= s@.len(),
            out@ == old(out)@ + diagnostics_text(s@.take(i as int)),
        decreases s.len() - i,
    {
        let ghost before = out@;
        if i > 0 {
            push_str(out, "; ");
        }
        let d = &s[i];
        push_str(out, "line ");
        push_decimal(out, d.span.line as u64);
        push_str(out, " column ");
        push_decimal(out, d.span.column as u64);
        push_str(out, ": ");
        push_all(out, &chars_of_string(&d.message));
        proof {
            let t = s@.take(i + 1);
            assert(t.drop_last() =~= s@.take(i as int));
            if i == 0 {
                assert(diagnostics_text(s@.take(0)) =~= Seq::<char>::empty());
            }
            assert(out@ =~= old(out)@ + diagnostics_text(t));
        }
        i = i + 1;
    }
    assert(s@.take(s@.len() as int) =~= s@);
}

impl CompileError {
    /// The message of the error.
    pub fn to_string(&self) -> (r: String)
        ensures
            r@ == error_message(*self),
    {
        let mut out: Vec<char> = Vec::new();
        match self {
            CompileError::Parse { error: ParseError::TabIndent { line } } => {
                push_str(&mut out, "invalid indentation at line ");
                push_decimal(&mut out, *line as u64);
                push_str(&mut out, ": tabs are not allowed");
            },
            CompileError::UnsupportedSyntax { module, diagnostics } => {
                push_str(&mut out, "unsupported Boon syntax in module `");
                push_all(&mut out, &chars_of_string(module));
                push_str(&mut out, "`: ");
                push_diagnostics(&mut out, diagnostics);
            },
            CompileError::UnsupportedCall { family, path, line, column } => {
                push_family_word(&mut out, *family);
                push_all(&mut out, &chars_of_string(path));
                push_str(&mut out, "` at line ");
                push_decimal(&mut out, *line as u64);
                push_str(&mut out, " column ");
                push_decimal(&mut out, *column as u64);
            },
            CompileError::MissingDataPath { line } => {
                push_str(&mut out, "SOURCE at line ");
                push_decimal(&mut out, *line as u64);
                push_str(&mut out, " has no data path");
            },
            CompileError::DuplicateSource { path } => {
                push_str(&mut out, "SOURCE path `");
                push_all(&mut out, &chars_of_string(path));
                push_str(&mut out, "` is declared more than once");
            },
            CompileError::UnboundSource { path } => {
                push_str(&mut out, "SOURCE path `");
                push_all(&mut out, &chars_of_string(path));
                push_str(&mut out, "` has no statically provable Element binding with a compatible host contract");
            },
            CompileError::AmbiguousSource { path } => {
                push_str(&mut out, "SOURCE path `");
                push_all(&mut out, &chars_of_string(path));
                push_str(&mut out, "` is bound by more than one Element producer");
            },
            CompileError::NoElementBindings { module } => {
                push_str(&mut out, "module `");
                push_all(&mut out, &chars_of_string(module));
                push_str(&mut out, "` has SOURCE leaves but no Element/* host bindings");
            },
            CompileError::UnboundRead { path } => {
                push_str(&mut out, "source path `");
                push_all(&mut out, &chars_of_string(path));
                push_str(&mut out, "` is read but no host/runtime producer is bound");
            },
        }
        let r = string_of(&out);
        proof {
            assert(r@ =~= error_message(*self));
        }
        r
    }
}

} // verus!
