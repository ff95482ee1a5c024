//! Names, as numbers.

use vstd::prelude::*;

verus! {

/// Handle of an interned string.
///
/// Strings are numbered in dictionary order: two handles compare as the strings
/// behind them do, so a name can be compared and copied as a number.
#[derive(Clone, Copy, Debug, PartialEq, Eq, Hash, Structural)]
pub struct InternedString {
    pub sym: u32,
}

/// Whether `name` occurs in `names`.
pub fn contains_name(names: &Vec<InternedString>, name: InternedString) -> (found: bool)
    ensures
        found == names@.contains(name),
{
    for i in 0..names.len()
        invariant
            forall|j: int| 0 <= j < i ==> names@[j] != name,
    {
        if names[i] == name {
            return true;
        }
    }
    false
}

/// Whether every name of `required` occurs in `names`.
pub open spec fn all_among(required: Seq<InternedString>, names: Seq<InternedString>) -> bool {
    forall|i: int| 0 <= i < required.len() ==> names.contains(#[trigger] required[i])
}

/// Whether two lists hold the same names in the same order.
pub fn same_names(a: &Vec<InternedString>, b: &Vec<InternedString>) -> (same: bool)
    ensures
        same == (a@ == b@),
{
    if a.len() != b.len() {
        return false;
    }
    for i in 0..a.len()
        invariant
            a@.len() == b@.len(),
            forall|j: int| 0 <= j < i ==> a@[j] == b@[j],
    {
        if a[i] != b[i] {
            return false;
        }
    }
    assert(a@ =~= b@);
    true
}

/// A second copy of a list of names.
pub fn copy_names(names: &Vec<InternedString>) -> (copy: Vec<InternedString>)
    ensures
        copy@ == names@,
{
    let mut copy: Vec<InternedString> = Vec::new();
    for i in 0..names.len()
        invariant
            copy@ == names@.take(i as int),
    {
        copy.push(names[i]);
        assert(names@.take(i + 1) =~= names@.take(i as int).push(names@[i as int]));
    }
    assert(names@.take(names@.len() as int) =~= names@);
    copy
}

} // verus!
