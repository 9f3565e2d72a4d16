use vstd::prelude::*;

verus! {

/// One step of the path from a root folder down to a folder.
#[derive(Debug, PartialEq, Eq)]
pub struct Breadcrumb {
    pub id: i32,
    pub name: String,
}

} // verus!
