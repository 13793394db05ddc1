//! The module calls the compiler supports, and the error it gives for one
//! it does not.
use vstd::prelude::*;
use crate::syntax::{ModuleCall, ParsedModule};
use crate::text::{chars_of_string, has_prefix, str_eq};
use super::paths::starts_with_str;

verus! {

/// The families of module calls whose unknown operations are refused.
#[derive(Clone, Copy, Debug, PartialEq, Eq)]
pub enum CallFamily {
    Geometry,
    Number,
    Math,
    List,
    Module,
}

/// The module call paths that compile.
pub open spec fn supported_call(path: Seq<char>) -> bool {
    path == "Document/new"@ || path == "Element/panel"@ || path == "Element/text"@
        || path == "Element/button"@ || path == "Element/text_input"@ || path == "Element/checkbox"@
        || path == "Element/label"@ || path == "Element/grid"@ || path == "List/append"@
        || path == "List/remove"@ || path == "List/retain"@ || path == "List/map"@
        || path == "List/count"@ || path == "List/range"@ || path == "Text/from_number"@
        || path == "Text/trim"@ || path == "Text/is_not_empty"@ || path == "Math/add"@
        || path == "Math/sum"@ || path == "Number/min"@ || path == "Number/max"@
        || path == "Number/clamp"@ || path == "Geometry/track_vertical_position"@
        || path == "Geometry/peer_body_x"@ || path == "Geometry/peer_body_y"@
        || path == "Geometry/peer_body_dx"@ || path == "Geometry/peer_body_dy"@
        || path == "Geometry/peer_contact_value"@ || path == "Geometry/peer_resets_remaining"@
        || path == "Geometry/contact_body_x"@ || path == "Geometry/contact_body_y"@
        || path == "Geometry/contact_body_dx"@ || path == "Geometry/contact_body_dy"@
        || path == "Geometry/contact_live_count"@ || path == "Geometry/contact_value"@
        || path == "Geometry/contact_resets_remaining"@
}

/// The family under which an unsupported call is refused; paths outside
/// these families (function calls of the module) pass.
pub open spec fn refused_family(path: Seq<char>) -> Option<CallFamily> {
    if supported_call(path) {
        None
    } else if has_prefix(path, "Geometry/"@) {
        Some(CallFamily::Geometry)
    } else if has_prefix(path, "Number/"@) {
        Some(CallFamily::Number)
    } else if has_prefix(path, "Math/"@) {
        Some(CallFamily::Math)
    } else if has_prefix(path, "List/"@) {
        Some(CallFamily::List)
    } else if has_prefix(path, "Element/"@) || has_prefix(path, "Document/"@) || has_prefix(path, "Text/"@) {
        Some(CallFamily::Module)
    } else {
        None
    }
}

fn is_supported(path: &String) -> (r: bool)
    ensures
        r == supported_call(path@),
{
    str_eq(path, "Document/new") || str_eq(path, "Element/panel") || str_eq(path, "Element/text")
        || str_eq(path, "Element/button") || str_eq(path, "Element/text_input") || str_eq(path, "Element/checkbox")
        || str_eq(path, "Element/label") || str_eq(path, "Element/grid") || str_eq(path, "List/append")
        || str_eq(path, "List/remove") || str_eq(path, "List/retain") || str_eq(path, "List/map")
        || str_eq(path, "List/count") || str_eq(path, "List/range") || str_eq(path, "Text/from_number")
        || str_eq(path, "Text/trim") || str_eq(path, "Text/is_not_empty") || str_eq(path, "Math/add")
        || str_eq(path, "Math/sum") || str_eq(path, "Number/min") || str_eq(path, "Number/max")
        || str_eq(path, "Number/clamp") || str_eq(path, "Geometry/track_vertical_position")
        || str_eq(path, "Geometry/peer_body_x") || str_eq(path, "Geometry/peer_body_y")
        || str_eq(path, "Geometry/peer_body_dx") || str_eq(path, "Geometry/peer_body_dy")
        || str_eq(path, "Geometry/peer_contact_value") || str_eq(path, "Geometry/peer_resets_remaining")
        || str_eq(path, "Geometry/contact_body_x") || str_eq(path, "Geometry/contact_body_y")
        || str_eq(path, "Geometry/contact_body_dx") || str_eq(path, "Geometry/contact_body_dy")
        || str_eq(path, "Geometry/contact_live_count") || str_eq(path, "Geometry/contact_value")
        || str_eq(path, "Geometry/contact_resets_remaining")
}

/// The family under which `path` is refused.
pub fn refused_family_of(path: &String) -> (r: Option<CallFamily>)
    ensures
        r == refused_family(path@),
{
    if is_supported(path) {
        return None;
    }
    let v = chars_of_string(path);
    if starts_with_str(&v, "Geometry/") {
        Some(CallFamily::Geometry)
    } else if starts_with_str(&v, "Number/") {
        Some(CallFamily::Number)
    } else if starts_with_str(&v, "Math/") {
        Some(CallFamily::Math)
    } else if starts_with_str(&v, "List/") {
        Some(CallFamily::List)
    } else if starts_with_str(&v, "Element/") || starts_with_str(&v, "Document/") || starts_with_str(&v, "Text/") {
        Some(CallFamily::Module)
    } else {
        None
    }
}

/// The first module call that is refused, with its family.
pub fn validate_supported_module_paths(parsed: &ParsedModule) -> (r: Option<(usize, CallFamily)>)
    ensures
        match r {
            Some((i, f)) => i < parsed.module_calls@.len() && refused_family(parsed.module_calls@[i as int].path@) == Some(f)
                && forall|j: int| 0 <= j < i ==> refused_family((#[trigger] parsed.module_calls@[j]).path@) is None,
            None => forall|j: int| 0 <= j < parsed.module_calls@.len() ==> refused_family((#[trigger] parsed.module_calls@[j]).path@) is None,
        },
{
    let mut i: usize = 0;
    while i < parsed.module_calls.len()
        invariant
            i <= parsed.module_calls@.len(),
            forall|j: int| 0 <= j < i ==> refused_family((#[trigger] parsed.module_calls@[j]).path@) is None,
        decreases parsed.module_calls.len() - i,
    {
        match refused_family_of(&parsed.module_calls[i].path) {
            Some(f) => {
                return Some((i, f));
            },
            None => {},
        }
        i = i + 1;
    }
    None
}

} // verus!
