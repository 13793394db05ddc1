//! Command-line handling of the native window's smoke binary.
use vstd::prelude::*;

verus! {

/// The index of the first argument equal to `name` that has a value after
/// it.
pub open spec fn flag_index(args: Seq<String>, name: Seq<char>) -> Option<int> {
    if exists|i: int| 0 <= i && i + 1 < args.len() && args[i]@ == name {
        Some(choose|i: int| 0 <= i && i + 1 < args.len() && args[i]@ == name
            && forall|j: int| 0 <= j < i ==> args[j]@ != name)
    } else {
        None
    }
}

/// The argument that follows the first `name` among `args`.
pub fn arg_value<'a>(args: &'a [String], name: &str) -> (r: Option<&'a str>)
    ensures
        match flag_index(args@, name@) {
            Some(i) => r matches Some(v) && v@ == args@[i + 1]@,
            None => r is None,
        },
{
    let mut i: usize = 0;
    while i < args.len() && i + 1 < args.len()
        invariant
            i <= args@.len(),
            forall|j: int| 0 <= j < i ==> args@[j]@ != name@,
        decreases args.len() - i,
    {
        if crate::text::str_eq(&args[i], name) {
            proof {
                let w = choose|w: int| 0 <= w && w + 1 < args@.len() && args@[w]@ == name@
                    && forall|j: int| 0 <= j < w ==> args@[j]@ != name@;
                assert(w == i) by {
                    if w < i {
                        assert(args@[w]@ != name@);
                    }
                    if w > i {
                        assert(args@[i as int]@ != name@);
                    }
                }
            }
            return Some(args[i + 1].as_str());
        }
        i += 1;
    }
    assert(flag_index(args@, name@) is None) by {
        if exists|w: int| 0 <= w && w + 1 < args@.len() && args@[w]@ == name@ {
            let w = choose|w: int| 0 <= w && w + 1 < args@.len() && args@[w]@ == name@;
            assert(w < i || i >= args@.len());
        }
    }
    None
}

} // verus!
