use vstd::prelude::*;

verus! {

/// Structural offsets of the runtime's objects, properties, enums and
/// functions, for one engine layout.
#[derive(Debug, Clone, Copy, PartialEq, Eq, Structural)]
pub struct UEOffset {
    pub id: u64,
    pub class: u64,
    pub fname_index: u64,
    pub outer: u64,
    pub super_struct: u64,
    pub member: u64,
    pub member_size: u64,
    pub member_type_offset: u64,
    pub member_type: u64,
    pub member_sub_type: u64,
    pub member_fname_index: u64,
    pub member_list: u64,
    pub member_list_size: u64,
    pub next_member: u64,
    pub next_member_same_class: u64,
    pub next_member_all_used: u64,
    pub offset: u64,
    pub prop_size: u64,
    pub property: u64,
    pub type_object: u64,
    pub bit_mask: u64,
    pub enum_name: u64,
    pub enum_list: u64,
    pub enum_size: u64,
    pub enum_prop_name: u64,
    pub enum_prop_index: u64,
    pub enum_prop_mul: u64,
    pub enum_type: u64,
    pub array: u64,
    pub map_key: u64,
    pub map_value: u64,
    pub struct_name: u64,
    pub funct: u64,
    pub funct_para: u64,
    pub funct_class: u64,
    pub next_para: u64,
    pub para_type: u64,
}

/// The 64-bit layout of current engine versions.
pub open spec fn standard_offsets() -> UEOffset {
    UEOffset {
        id: 0xC,
        class: 0x10,
        fname_index: 0x18,
        outer: 0x20,
        super_struct: 0x40,
        member: 0x50,
        member_size: 0x58,
        member_type_offset: 0x8,
        member_type: 0x0,
        member_sub_type: 0x8,
        member_fname_index: 0x20,
        member_list: 0xA8,
        member_list_size: 0x0,
        next_member: 0x18,
        next_member_same_class: 0x50,
        next_member_all_used: 0x18,
        offset: 0x44,
        prop_size: 0x34,
        property: 0x78,
        type_object: 0x70,
        bit_mask: 0x72,
        enum_name: 0x30,
        enum_list: 0x40,
        enum_size: 0x48,
        enum_prop_name: 0x0,
        enum_prop_index: 0x8,
        enum_prop_mul: 0x10,
        enum_type: 0x70,
        array: 0x70,
        map_key: 0x70,
        map_value: 0x70,
        struct_name: 0x70,
        funct: 0xD8,
        funct_para: 0x50,
        funct_class: 0x20,
        next_para: 0x48,
        para_type: 0x70,
    }
}

impl Default for UEOffset {
    fn default() -> (r: UEOffset)
        ensures
            r == standard_offsets(),
    {
        let member: u64 = 0x50;
        let outer: u64 = 0x20;
        UEOffset {
            id: 0xC,
            class: 0x10,
            fname_index: 0x18,
            outer,
            super_struct: 0x40,
            member,
            member_size: 0x58,
            member_type_offset: 0x8,
            member_type: 0x0,
            member_sub_type: 0x8,
            member_fname_index: 0x20,
            member_list: 0xA8,
            member_list_size: 0x0,
            next_member: 0x18,
            next_member_same_class: 0x50,
            next_member_all_used: 0x18,
            offset: 0x44,
            prop_size: 0x34,
            property: 0x78,
            type_object: 0x70,
            bit_mask: 0x72,
            enum_name: 0x30,
            enum_list: 0x40,
            enum_size: 0x48,
            enum_prop_name: 0x0,
            enum_prop_index: 0x8,
            enum_prop_mul: 0x10,
            enum_type: 0x70,
            array: 0x70,
            map_key: 0x70,
            map_value: 0x70,
            struct_name: 0x70,
            funct: 0xD8,
            funct_para: member,
            funct_class: outer,
            next_para: 0x48,
            para_type: 0x70,
        }
    }
}

} // verus!
