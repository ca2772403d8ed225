use vstd::prelude::*;

use crate::meta::{ErrV, ParseError};
use crate::Attr;

verus! {

pub open spec fn path_is(a: Attr, name: Seq<char>) -> bool {
    a.path@ == name
}

/// The indices of the annotations with path `name`, in order.
pub fn all(attrs: &Vec<Attr>, name: &str) -> (r: Vec<usize>)
    ensures
        forall|j: int| 0 <= j < r@.len() ==> #[trigger] r@[j] < attrs@.len() && path_is(attrs@[r@[j] as int], name@),
        forall|j: int, k: int| 0 <= j < k < r@.len() ==> r@[j] < r@[k],
        forall|i: int| 0 <= i < attrs@.len() && path_is(#[trigger] attrs@[i], name@) ==> r@.contains(i as usize),
{
    let mut r: Vec<usize> = Vec::new();
    let target = name.to_owned();
    let mut i: usize = 0;
    while i < attrs.len()
        invariant
            i <= attrs@.len(),
            target@ == name@,
            forall|j: int| 0 <= j < r@.len() ==> #[trigger] r@[j] < i && path_is(attrs@[r@[j] as int], name@),
            forall|j: int, k: int| 0 <= j < k < r@.len() ==> r@[j] < r@[k],
            forall|m: int| 0 <= m < i && path_is(#[trigger] attrs@[m], name@) ==> r@.contains(m as usize),
        decreases attrs@.len() - i,
    {
        if attrs[i].path.eq(&target) {
            let ghost before = r@;
            r.push(i);
            proof {
                assert forall|m: int| 0 <= m < i + 1 && path_is(#[trigger] attrs@[m], name@) implies r@.contains(m as usize) by {
                    if m < i {
                        let j = choose|j: int| 0 <= j < before.len() && before[j] == m as usize;
                        assert(r@[j] == m as usize);
                    } else {
                        assert(r@[before.len() as int] == m as usize);
                    }
                }
            }
        }
        i = i + 1;
    }
    r
}

/// The index of the first annotation with path `name`.
pub fn first(attrs: &Vec<Attr>, name: &str) -> (r: Option<usize>)
    ensures
        r matches Some(i) ==> i < attrs@.len() && path_is(attrs@[i as int], name@),
        r matches Some(i) ==> forall|j: int| 0 <= j < i ==> !path_is(#[trigger] attrs@[j], name@),
        r is None ==> forall|j: int| 0 <= j < attrs@.len() ==> !path_is(#[trigger] attrs@[j], name@),
{
    let target = name.to_owned();
    let mut i: usize = 0;
    while i < attrs.len()
        invariant
            i <= attrs@.len(),
            target@ == name@,
            forall|j: int| 0 <= j < i ==> !path_is(#[trigger] attrs@[j], name@),
        decreases attrs@.len() - i,
    {
        if attrs[i].path.eq(&target) {
            return Some(i);
        }
        i = i + 1;
    }
    None
}

/// The index of the one annotation with path `name`, if there is one; more than one is
/// an error.
pub fn only(attrs: &Vec<Attr>, name: &str) -> (r: Result<Option<usize>, ParseError>)
    ensures
        r matches Ok(Some(i)) ==> i < attrs@.len() && path_is(attrs@[i as int], name@) && forall|j: int|
            0 <= j < attrs@.len() && j != i ==> !path_is(#[trigger] attrs@[j], name@),
        r matches Ok(None) ==> forall|j: int| 0 <= j < attrs@.len() ==> !path_is(#[trigger] attrs@[j], name@),
        r matches Err(e) ==> e@ == ErrV::ConflictingDeclaration(name@) && exists|j: int, k: int|
            0 <= j < k < attrs@.len() && path_is(#[trigger] attrs@[j], name@) && path_is(#[trigger] attrs@[k], name@),
{
    let mut found: Option<usize> = None;
    let target = name.to_owned();
    let mut i: usize = 0;
    while i < attrs.len()
        invariant
            i <= attrs@.len(),
            target@ == name@,
            found matches Some(f) ==> f < i && path_is(attrs@[f as int], name@) && forall|j: int|
                0 <= j < i && j != f ==> !path_is(#[trigger] attrs@[j], name@),
            found is None ==> forall|j: int| 0 <= j < i ==> !path_is(#[trigger] attrs@[j], name@),
        decreases attrs@.len() - i,
    {
        if attrs[i].path.eq(&target) {
            match found {
                Some(f) => {
                    assert(path_is(attrs@[f as int], name@) && path_is(attrs@[i as int], name@));
                    return Err(ParseError::ConflictingDeclaration(target));
                },
                None => {
                    found = Some(i);
                },
            }
        }
        i = i + 1;
    }
    Ok(found)
}

} // verus!
