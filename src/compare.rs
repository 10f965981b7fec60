use vstd::prelude::*;

use crate::decode::decode_document;
use crate::equality::values_equal;
use crate::error::{CompareError, Side};
use crate::grammar::document;
use crate::members::remove_member;
use crate::value::{Nbt, RawValue};

verus! {

/// A value with the member `name` taken out, when it is a compound and a name is given.
pub open spec fn without(v: Nbt, name: Option<Seq<u8>>) -> Nbt {
    match v {
        Nbt::Compound(m) => match name {
            Some(k) => Nbt::Compound(m.remove(k)),
            None => v,
        },
        _ => v,
    }
}

/// The bytes of an optional name.
pub open spec fn name_view(name: Option<&[u8]>) -> Option<Seq<u8>> {
    match name {
        Some(k) => Some(k@),
        None => None,
    }
}

/// What comparing two documents yields: the first side that fails to decode, with its error;
/// else whether the two roots, without the excluded member, are equal.
pub open spec fn comparison(left: Seq<u8>, right: Seq<u8>, exclude: Option<Seq<u8>>) -> Result<
    bool,
    CompareError,
> {
    match document(left) {
        Err(e) => Err(CompareError { side: Side::Left, kind: e }),
        Ok(a) => match document(right) {
            Err(e) => Err(CompareError { side: Side::Right, kind: e }),
            Ok(b) => Ok(without(a, exclude) == without(b, exclude)),
        },
    }
}

/// Takes the member `name` out of a decoded root.
pub fn strip<'a>(v: RawValue<'a>, name: &[u8]) -> (r: RawValue<'a>)
    requires
        v.wf(),
    ensures
        r.wf(),
        r@ == without(v@, Some(name@)),
{
    match v {
        RawValue::Members(mut entries) => {
            let ghost before = entries;
            remove_member(&mut entries, name);
            proof {
                assert forall|i: int| 0 <= i < entries.len() implies (#[trigger] entries[i]).1.wf() by {
                    let j = choose|j: int| 0 <= j < before.len() && entries[i] == before[j];
                    assert(before[j].1.wf());
                }
            }
            RawValue::Members(entries)
        },
        other => other,
    }
}

/// Decodes both documents and tells whether they are structurally equal, ignoring the
/// top-level member `exclude` when one is given.
pub fn compare(left: &[u8], right: &[u8], exclude: Option<&[u8]>) -> (r: Result<bool, CompareError>)
    ensures
        r == comparison(left@, right@, name_view(exclude)),
{
    let a = decode_document(left);
    let b = decode_document(right);
    let a = match a {
        Ok(v) => v,
        Err(e) => return Err(CompareError { side: Side::Left, kind: e }),
    };
    let b = match b {
        Ok(v) => v,
        Err(e) => return Err(CompareError { side: Side::Right, kind: e }),
    };
    match exclude {
        Some(name) => {
            let a = strip(a, name);
            let b = strip(b, name);
            Ok(values_equal(&a, &b))
        },
        None => Ok(values_equal(&a, &b)),
    }
}

} // verus!
