use vstd::prelude::*;

verus! {

/// Anchor addresses resolved in the attached target, each absent until
/// resolved.
pub struct BaseAddresses {
    pub fname_pool: Option<u64>,
    pub guobject_array: Option<u64>,
    pub guobject_element_size: Option<u64>,
    pub gworld: Option<u64>,
}

impl BaseAddresses {
    pub fn new() -> (r: BaseAddresses)
        ensures
            r.fname_pool is None,
            r.guobject_array is None,
            r.guobject_element_size is None,
            r.gworld is None,
    {
        BaseAddresses { fname_pool: None, guobject_array: None, guobject_element_size: None, gworld: None }
    }
}

} // verus!
