use vstd::prelude::*;

verus! {

/// One entry of a comic archive: its name and where its bytes lie.
#[derive(Debug, Clone)]
pub struct ArEntryInfo<'a> {
    pub name: &'a str,
    pub offset: i64,
    pub size: usize,
    pub filetime: i64,
}

} // verus!
