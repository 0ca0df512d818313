use vstd::prelude::*;

verus! {

/// A name reference: its pool index, instance number and text.
pub struct FName {
    pub index: u32,
    pub number: u32,
    pub name: String,
}

/// The raw header fields of an object.
pub struct UObject {
    pub address: u64,
    pub id: u32,
    pub fname_index: u32,
    pub outer_address: u64,
    pub class_address: u64,
}

impl UObject {
    pub fn new(address: u64, id: u32, fname_index: u32, outer_address: u64, class_address: u64) -> (r: UObject)
        ensures
            r.address == address,
            r.id == id,
            r.fname_index == fname_index,
            r.outer_address == outer_address,
            r.class_address == class_address,
    {
        UObject { address, id, fname_index, outer_address, class_address }
    }
}

} // verus!
