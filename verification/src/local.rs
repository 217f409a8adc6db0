//! The local inventory, from the names found under the local root.

use crate::inventory::{from_names, names_last, stamp_of, FileList, TimeStamp};
use vstd::prelude::*;

verus! {

/// Builds the local inventory from the names of the directories under the
/// local root. A name that is no date and time is passed over.
pub fn file_list(names: &Vec<String>) -> (list: FileList)
    ensures
        list.wf(),
        forall|t: TimeStamp|
            list.has(t) <==> exists|i: int|
                0 <= i < names.len() && stamp_of(#[trigger] names[i]@) == Some(t),
        forall|i: int, t: TimeStamp| #[trigger]
            names_last(names@, i, t) ==> list.name_of(t) == names[i]@,
{
    match from_names(names, false) {
        Ok(list) => list,
        Err(_) => FileList::new(),
    }
}

} // verus!
