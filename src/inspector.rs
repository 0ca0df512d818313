use crate::anchors::add_wrapping;
use crate::error::ErrorKind;
use crate::instance::{format_address, hex_digits, hex_text, push_hex};
use crate::search::lowercase;
use crate::package::starts_with;
use crate::memory::{MemoryImage, MIN_POINTER};
use crate::name_pool::FNamePool;
use crate::objects::{pool_name, read_i32_or_zero, read_ptr_or_zero, save_spec, to_u32, u32_of, CacheState, ObjectManager, ObjectView};
use crate::offsets::UEOffset;
use crate::text::{chars_of, contains, push_char, str_contains};
use vstd::prelude::*;
use vstd::string::*;

verus! {

/// A property of a class or struct.
pub struct ObjectPropertyInfo {
    pub property_name: String,
    pub property_type: String,
    pub offset: String,
    pub sub_type: String,
    pub sub_type_address: u64,
}

/// A known ancestor in an inheritance chain.
pub struct InheritanceItem {
    pub name: String,
    pub address: u64,
}

/// An entry of an enum.
pub struct EnumValueItem {
    pub name: String,
    pub value: i64,
}

/// A parameter of a function.
pub struct FunctionParamInfo {
    pub param_type: String,
    pub param_name: String,
    pub type_address: u64,
}

/// The detail view of a cached object.
pub struct DetailedObjectInfo {
    pub address: u64,
    pub function_address: u64,
    pub function_offset: String,
    pub name: String,
    pub full_name: String,
    pub type_label: String,
    pub inheritance: Vec<InheritanceItem>,
    pub properties: Vec<ObjectPropertyInfo>,
    pub enum_values: Vec<EnumValueItem>,
    pub enum_underlying_type: String,
    pub function_owner: String,
    pub function_owner_address: u64,
    pub function_return_type: String,
    pub function_return_address: u64,
    pub function_params: Vec<FunctionParamInfo>,
    pub prop_size: i32,
}

/// Longest inheritance chain followed.
pub const MAX_INHERITANCE: u64 = 256;

/// Most properties walked per class or struct.
pub const MAX_PROPERTIES: u64 = 2000;

/// Most enum entries read.
pub const MAX_ENUM_ENTRIES: i32 = 10000;

/// Most function parameters walked.
pub const MAX_PARAMS: u64 = 200;

/// Hex digits of an `i32` offset, as its 32-bit pattern.
pub open spec fn offset_text(v: i32) -> Seq<char> {
    hex_digits(u32_of(v) as nat)
}

/// Lowest set bit of `mask` from bit `j` on (0 where none is set).
pub open spec fn first_bit_from(mask: u8, j: u32) -> nat
    decreases 8 - j,
{
    if j >= 8 {
        0
    } else if (mask >> j) & 1 == 1 {
        j as nat
    } else {
        first_bit_from(mask, (j + 1) as u32)
    }
}

/// Index of the lowest set bit of a mask (0 for no bit).
pub open spec fn bit_index(mask: u8) -> nat {
    first_bit_from(mask, 0)
}

fn lowest_bit(mask: u8) -> (r: u8)
    ensures
        r as nat == bit_index(mask),
        r < 8,
{
    let mut j: u32 = 0;
    while j < 8
        invariant
            j <= 8,
            bit_index(mask) == first_bit_from(mask, j),
        decreases 8 - j,
    {
        if (mask >> j) & 1 == 1 {
            return j as u8;
        }
        j = j + 1;
    }
    0
}

/// The offset text of a property: its hex offset, and for a bool its bit.
pub fn offset_label(offset: i32, bool_mask: Option<u8>) -> (r: String)
    ensures
        r@ == match bool_mask {
            Some(m) => offset_text(offset) + seq![':'] + seq![crate::scanner::hex_char(bit_index(m))],
            None => offset_text(offset),
        },
{
    let mut out = String::new();
    push_hex(&mut out, to_u32(offset) as u64);
    match bool_mask {
        Some(m) => {
            push_char(&mut out, ':');
            let b = lowest_bit(m);
            push_char(&mut out, crate::scanner::hex_upper(b));
        },
        None => {},
    }
    out
}

/// A named object reachable from a property slot: the cached record's name
/// and address, else the name read at the slot's object (if any).
fn slot_name(obj_mgr: &ObjectManager, img: &MemoryImage, pool: &FNamePool, o: &UEOffset, addr: u64) -> (r: Option<(String, u64)>)
    requires
        img.wf(),
{
    if addr <= MIN_POINTER {
        return None;
    }
    match obj_mgr.get(addr) {
        Some(rec) => Some((rec.name, rec.address)),
        None => {
            let id = read_i32_or_zero(img, add_wrapping(addr, o.fname_index));
            match pool.lookup(img, to_u32(id)) {
                Ok(n) => if n.unicode_len() > 0 {
                    Some((n, addr))
                } else {
                    None
                },
                Err(_) => None,
            }
        },
    }
}

/// Ancestor `k` of `address`: its superStruct pointer, then theirs.
pub open spec fn super_node(img: MemoryImage, o: UEOffset, address: u64, k: nat) -> u64
    decreases k,
{
    if k == 0 {
        crate::objects::ptr_or_zero(img, crate::objects::field(address, o.super_struct))
    } else {
        crate::objects::ptr_or_zero(img, crate::objects::field(super_node(img, o, address, (k - 1) as nat), o.super_struct))
    }
}

/// Ancestor `k` is a real pointer to a cached record.
pub open spec fn super_known(ba: Map<u64, ObjectView>, img: MemoryImage, o: UEOffset, address: u64, k: nat) -> bool {
    super_node(img, o, address, k) > MIN_POINTER && ba.contains_key(super_node(img, o, address, k))
}

/// The known ancestors are exactly the first `e`: each is known, and the
/// next is not (or the cap is reached).
pub open spec fn inheritance_end(ba: Map<u64, ObjectView>, img: MemoryImage, o: UEOffset, address: u64, e: nat) -> bool {
    &&& e <= MAX_INHERITANCE
    &&& forall|j: nat| j < e ==> super_known(ba, img, o, address, j)
    &&& (e == MAX_INHERITANCE || !super_known(ba, img, o, address, e))
}

/// What the detail view of `address` is (see `get_object_details`).
pub open spec fn details_outcome(
    ba: Map<u64, ObjectView>,
    img: MemoryImage,
    pool: FNamePool,
    o: UEOffset,
    address: u64,
    r: Result<DetailedObjectInfo, ErrorKind>,
) -> bool {
    &&& (r is Err <==> !ba.contains_key(address))
    &&& (r matches Err(e) ==> e == ErrorKind::CatalogMiss)
    &&& (r matches Ok(d) ==> {
        let rec = ba[address];
        &&& d.address == rec.address
        &&& d.name@ == rec.name
        &&& d.full_name@ == rec.full_name
        &&& d.type_label@ == rec.type_label
        &&& d.inheritance@.len() <= MAX_INHERITANCE
        &&& inheritance_end(ba, img, o, address, d.inheritance@.len())
        &&& forall|i: int|
            0 <= i < d.inheritance@.len() ==> (#[trigger] d.inheritance@[i]).address == super_node(
                img,
                o,
                address,
                (d.inheritance@.len() - 1 - i) as nat,
            )
        &&& forall|i: int|
            0 <= i < d.inheritance@.len() ==> ba.contains_key(#[trigger] d.inheritance@[i].address)
                && d.inheritance@[i].name@ == ba[d.inheritance@[i].address].name
        &&& d.properties@.len() <= MAX_PROPERTIES
        &&& (contains(crate::search::lower_of(rec.type_label), "class"@) || contains(crate::search::lower_of(rec.type_label), "struct"@))
            ==> properties_outcome(img, pool, o, address, d.properties@)
        &&& forall|i: int|
            0 <= i < d.properties@.len() ==> (#[trigger] d.properties@[i]).property_name@.len() > 0
                && d.properties@[i].property_type@.len() > 0 && property_of_member(img, pool, o, address, d.properties@[i])
        &&& d.enum_values@.len() <= MAX_ENUM_ENTRIES
        &&& ((starts_with(crate::search::lower_of(rec.type_label), "enum"@) || crate::search::lower_of(rec.type_label) == "userenum"@)
            && !(contains(crate::search::lower_of(rec.type_label), "class"@) || contains(crate::search::lower_of(rec.type_label), "struct"@)))
            ==> enum_outcome(img, pool, o, address, d.enum_values@)
        &&& forall|i: int| 0 <= i < d.enum_values@.len() ==> (#[trigger] d.enum_values@[i]).name@.len() > 0 && exists|k: nat|
            k < crate::objects::i32_or_zero(img, crate::objects::field(address, o.enum_size)) && enum_entry_at(
                img,
                pool,
                o,
                crate::objects::ptr_or_zero(img, crate::objects::field(address, o.enum_list)),
                k,
                d.enum_values@[i],
            )
        &&& d.function_params@.len() <= MAX_PARAMS
        &&& (contains(crate::search::lower_of(rec.type_label), "function"@) && !(contains(crate::search::lower_of(rec.type_label), "class"@)
            || contains(crate::search::lower_of(rec.type_label), "struct"@)) && !(starts_with(crate::search::lower_of(rec.type_label), "enum"@)
            || crate::search::lower_of(rec.type_label) == "userenum"@)) ==> params_outcome(img, pool, o, address, d.function_params@)
        &&& forall|i: int|
            0 <= i < d.function_params@.len() ==> (#[trigger] d.function_params@[i]).param_name@.len() > 0
                && d.function_params@[i].param_name@ != "ReturnValue"@ && d.function_params@[i].param_type@.len() > 0
    })
}

/// The detail view of the cached object at `address`: its known ancestors
/// (superStruct chain through cached records only, root first); for a class
/// or struct, its size and properties; for an enum, its underlying type and
/// entries; for a function, its code address, owner and parameters.
pub fn get_object_details(
    obj_mgr: &ObjectManager,
    img: &MemoryImage,
    pool: &FNamePool,
    offsets: &UEOffset,
    address: u64,
) -> (r: Result<DetailedObjectInfo, ErrorKind>)
    requires
        img.wf(),
    ensures
        details_outcome(obj_mgr.state().0, *img, *pool, *offsets, address, r),
{
    let obj = match obj_mgr.get(address) {
        Some(o) => o,
        None => return Err(ErrorKind::CatalogMiss),
    };
    let mut result = DetailedObjectInfo {
        address: obj.address,
        function_address: 0,
        function_offset: String::new(),
        name: obj.name.clone(),
        full_name: obj.full_name.clone(),
        type_label: obj.type_label.clone(),
        inheritance: Vec::new(),
        properties: Vec::new(),
        enum_values: Vec::new(),
        enum_underlying_type: String::new(),
        function_owner: String::new(),
        function_owner_address: 0,
        function_return_type: String::new(),
        function_return_address: 0,
        function_params: Vec::new(),
        prop_size: 0,
    };
    let ghost ba = obj_mgr.state().0;
    // ancestors, nearest first, then reversed
    let mut chain: Vec<InheritanceItem> = Vec::new();
    let mut super_addr = read_ptr_or_zero(img, add_wrapping(address, offsets.super_struct));
    let mut steps: u64 = 0;
    while super_addr > MIN_POINTER && steps < MAX_INHERITANCE
        invariant_except_break
            super_addr == super_node(*img, *offsets, address, steps as nat),
        invariant
            img.wf(),
            ba == obj_mgr.state().0,
            steps <= MAX_INHERITANCE,
            chain@.len() == steps,
            forall|i: int| 0 <= i < chain@.len() ==> (#[trigger] chain@[i]).address == super_node(*img, *offsets, address, i as nat),
            forall|j: nat| j < steps ==> super_known(ba, *img, *offsets, address, j),
            forall|i: int| 0 <= i < chain@.len() ==> ba.contains_key(#[trigger] chain@[i].address) && chain@[i].name@ == ba[chain@[i].address].name,
        ensures
            inheritance_end(ba, *img, *offsets, address, chain@.len()),
            forall|i: int| 0 <= i < chain@.len() ==> (#[trigger] chain@[i]).address == super_node(*img, *offsets, address, i as nat),
        decreases MAX_INHERITANCE - steps,
    {
        match obj_mgr.get(super_addr) {
            Some(sup) => {
                chain.push(InheritanceItem { name: sup.name, address: super_addr });
                super_addr = read_ptr_or_zero(img, add_wrapping(super_addr, offsets.super_struct));
                steps = steps + 1;
            },
            None => break,
        }
    }
    let mut k: usize = chain.len();
    let mut ordered: Vec<InheritanceItem> = Vec::new();
    while k > 0
        invariant
            k <= chain@.len(),
            chain@.len() <= MAX_INHERITANCE,
            ordered@.len() + k == chain@.len(),
            forall|i: int| 0 <= i < chain@.len() ==> ba.contains_key(#[trigger] chain@[i].address) && chain@[i].name@ == ba[chain@[i].address].name,
            forall|i: int| 0 <= i < ordered@.len() ==> ba.contains_key(#[trigger] ordered@[i].address) && ordered@[i].name@ == ba[ordered@[i].address].name,
            forall|i: int| 0 <= i < ordered@.len() ==> (#[trigger] ordered@[i]).address == chain@[chain@.len() - 1 - i].address,
        decreases k,
    {
        let item = &chain[k - 1];
        ordered.push(InheritanceItem { name: item.name.clone(), address: item.address });
        k = k - 1;
    }
    result.inheritance = ordered;
    let type_lower = lowercase(obj.type_label.as_str());
    if str_contains(type_lower.as_str(), "class") || str_contains(type_lower.as_str(), "struct") {
        result.prop_size = read_i32_or_zero(img, add_wrapping(address, offsets.prop_size));
        result.properties = class_properties(obj_mgr, img, pool, offsets, address);
    } else if starts_with_text(type_lower.as_str(), "enum") || crate::text::same_text(type_lower.as_str(), "userenum") {
        let enum_type_addr = read_ptr_or_zero(img, add_wrapping(address, offsets.enum_type));
        if enum_type_addr > MIN_POINTER {
            let type_id = read_i32_or_zero(img, add_wrapping(enum_type_addr, offsets.fname_index));
            result.enum_underlying_type = match pool.lookup(img, to_u32(type_id)) {
                Ok(n) => n,
                Err(_) => String::from_str("Byte"),
            };
        }
        result.enum_values = enum_entries(img, pool, offsets, address);
    } else if str_contains(type_lower.as_str(), "function") {
        result.function_address = read_ptr_or_zero(img, add_wrapping(address, offsets.funct));
        if result.function_address > 0 {
            result.function_offset = format_address(result.function_address);
        }
        if obj.outer > MIN_POINTER {
            match obj_mgr.get(obj.outer) {
                Some(owner) => {
                    result.function_owner = owner.name;
                    result.function_owner_address = owner.address;
                },
                None => {},
            }
        }
        let (params, ret) = function_params(obj_mgr, img, pool, offsets, address);
        result.function_params = params;
        match ret {
            Some((t, a)) => {
                result.function_return_type = t;
                result.function_return_address = a;
            },
            None => {},
        }
    }
    Ok(result)
}

fn starts_with_text(s: &str, p: &str) -> (r: bool)
    ensures
        r == starts_with(s@, p@),
{
    let v = chars_of(s);
    let q = chars_of(p);
    if q.len() > v.len() {
        return false;
    }
    let mut i: usize = 0;
    while i < q.len()
        invariant
            v@ == s@,
            q@ == p@,
            q@.len() <= v@.len(),
            i <= q@.len(),
            forall|k: int| 0 <= k < i ==> v@[k] == q@[k],
        decreases q@.len() - i,
    {
        if v[i] != q[i] {
            proof {
                assert(v@.subrange(0, q@.len() as int)[i as int] == v@[i as int]);
            }
            return false;
        }
        i = i + 1;
    }
    proof {
        assert(v@.subrange(0, q@.len() as int) =~= q@);
    }
    true
}

/// `p` describes member `k` of the member chain at `address`: its name, and
/// its offset (for a bool, followed by its bit).
pub open spec fn property_of_member(img: MemoryImage, pool: FNamePool, o: UEOffset, address: u64, p: ObjectPropertyInfo) -> bool {
    exists|k: nat|
        crate::search::member_reached(img, o, address, k) && p.property_name@ == crate::search::member_name_at(img, pool, o, address, k)
            && p.offset@.subrange(
            0,
            offset_text(crate::objects::i32_or_zero(img, crate::objects::field(crate::search::member_node(img, o, address, k), o.offset))).len() as int,
        ) == offset_text(crate::objects::i32_or_zero(img, crate::objects::field(crate::search::member_node(img, o, address, k), o.offset)))
}

/// Member `k` gives a property row: it has a name and a type name.
pub open spec fn prop_member(img: MemoryImage, pool: FNamePool, o: UEOffset, address: u64, k: nat) -> bool {
    crate::search::member_name_at(img, pool, o, address, k).len() > 0 && member_type_at(img, pool, o, address, k).len() > 0
}

/// The members among `0..k` that give property rows, in chain order.
pub open spec fn prop_members(img: MemoryImage, pool: FNamePool, o: UEOffset, address: u64, k: nat) -> Seq<nat>
    decreases k,
{
    if k == 0 {
        Seq::empty()
    } else {
        let prev = prop_members(img, pool, o, address, (k - 1) as nat);
        if prop_member(img, pool, o, address, (k - 1) as nat) {
            prev.push((k - 1) as nat)
        } else {
            prev
        }
    }
}

/// The property walk ends after `e` members.
pub open spec fn props_end(img: MemoryImage, o: UEOffset, address: u64, e: nat) -> bool {
    &&& e <= MAX_PROPERTIES
    &&& forall|j: nat| j < e ==> #[trigger] crate::search::member_node(img, o, address, j) > MIN_POINTER
    &&& (e == MAX_PROPERTIES || crate::search::member_node(img, o, address, e) <= MIN_POINTER)
}

/// The properties of a class or struct: one row per member of the walked
/// chain that has a name and a type, in chain order, with that member's
/// name, type and offset.
pub open spec fn properties_outcome(img: MemoryImage, pool: FNamePool, o: UEOffset, address: u64, r: Seq<ObjectPropertyInfo>) -> bool {
    exists|e: nat|
        props_end(img, o, address, e) && r.len() == prop_members(img, pool, o, address, e).len() && forall|i: int|
            0 <= i < r.len() ==> ({
                let k = #[trigger] prop_members(img, pool, o, address, e)[i];
                let off = crate::objects::i32_or_zero(img, crate::objects::field(crate::search::member_node(img, o, address, k), o.offset));
                &&& r[i].property_name@ == crate::search::member_name_at(img, pool, o, address, k)
                &&& r[i].property_type@ == member_type_at(img, pool, o, address, k)
                &&& r[i].offset@.subrange(0, offset_text(off).len() as int) == offset_text(off)
            })
}

/// Property type names whose sub-type is an object found at slot +8, +0 or
/// the type object.
fn has_object_sub_type(t: &str) -> bool {
    str_contains(t, "StructProperty") || str_contains(t, "ObjectProperty") || str_contains(t, "ClassProperty")
        || str_contains(t, "ArrayProperty") || str_contains(t, "EnumProperty") || str_contains(t, "ByteProperty")
        || str_contains(t, "SoftClassProperty") || str_contains(t, "SoftObjectProperty") || str_contains(t, "SetProperty")
        || str_contains(t, "InterfaceProperty")
}

/// The property row of member node `child`, where it has a name and a type.
fn property_row(obj_mgr: &ObjectManager, img: &MemoryImage, pool: &FNamePool, o: &UEOffset, child: u64) -> (r: Option<ObjectPropertyInfo>)
    requires
        img.wf(),
    ensures
        (r is Some) == (crate::objects::pool_text(*img, *pool, crate::objects::i32_or_zero(*img, crate::objects::field(child, o.member_fname_index))).len() > 0
            && crate::objects::pool_text(*img, *pool, crate::objects::i32_or_zero(*img, crate::objects::field(crate::objects::ptr_or_zero(*img, crate::objects::field(child, o.member_type_offset)), o.member_type))).len() > 0),
        match r {
            Some(p) => p.property_name@ == crate::objects::pool_text(*img, *pool, crate::objects::i32_or_zero(*img, crate::objects::field(child, o.member_fname_index)))
                && p.property_type@ == crate::objects::pool_text(*img, *pool, crate::objects::i32_or_zero(*img, crate::objects::field(crate::objects::ptr_or_zero(*img, crate::objects::field(child, o.member_type_offset)), o.member_type)))
                && p.property_name@.len() > 0 && p.property_type@.len() > 0 && p.offset@.subrange(
                0,
                offset_text(crate::objects::i32_or_zero(*img, crate::objects::field(child, o.offset))).len() as int,
            ) == offset_text(crate::objects::i32_or_zero(*img, crate::objects::field(child, o.offset))),
            None => true,
        },
{
    let name_id = read_i32_or_zero(img, add_wrapping(child, o.member_fname_index));
    let child_name = pool_name(img, pool, name_id);
    let type_ptr = read_ptr_or_zero(img, add_wrapping(child, o.member_type_offset));
    let type_id = read_i32_or_zero(img, add_wrapping(type_ptr, o.member_type));
    let child_type = pool_name(img, pool, type_id);
    let child_offset = read_i32_or_zero(img, add_wrapping(child, o.offset));
    let prop_0 = read_ptr_or_zero(img, add_wrapping(child, o.property));
    let prop_8 = read_ptr_or_zero(img, add_wrapping(child, add_wrapping(o.property, 8)));
    let type_obj = read_ptr_or_zero(img, add_wrapping(child, o.type_object));
    let mut sub_type = String::new();
    let mut sub_type_address: u64 = 0;
    if has_object_sub_type(child_type.as_str()) {
        match slot_name(obj_mgr, img, pool, o, prop_8) {
            Some((n, a)) => {
                sub_type = n;
                sub_type_address = a;
            },
            None => match slot_name(obj_mgr, img, pool, o, prop_0) {
                Some((n, a)) => {
                    sub_type = n;
                    sub_type_address = a;
                },
                None => match slot_name(obj_mgr, img, pool, o, type_obj) {
                    Some((n, a)) => {
                        sub_type = n;
                        sub_type_address = a;
                    },
                    None => {},
                },
            },
        }
    } else if str_contains(child_type.as_str(), "MapProperty") {
        let key = map_part(obj_mgr, img, pool, o, prop_0);
        let value = map_part(obj_mgr, img, pool, o, prop_8);
        let has_key = key.is_some();
        match key {
            Some(k) => {
                sub_type.append(k.as_str());
            },
            None => {},
        }
        match value {
            Some(v) => {
                if has_key {
                    sub_type.append(", ");
                }
                sub_type.append(v.as_str());
            },
            None => {},
        }
    }
    if child_name.unicode_len() > 0 && child_type.unicode_len() > 0 {
        let mask = if str_contains(child_type.as_str(), "BoolProperty") {
            Some(read_u8_or_zero(img, add_wrapping(child, o.bit_mask)))
        } else {
            None
        };
        let offset = offset_label(child_offset, mask);
        proof {
            let t = offset_text(child_offset);
            assert(offset@.subrange(0, t.len() as int) =~= t);
        }
        Some(ObjectPropertyInfo { property_name: child_name, property_type: child_type, offset, sub_type, sub_type_address })
    } else {
        None
    }
}

/// The properties on the member chain of the class or struct at `address`.
fn class_properties(obj_mgr: &ObjectManager, img: &MemoryImage, pool: &FNamePool, o: &UEOffset, address: u64) -> (r: Vec<ObjectPropertyInfo>)
    requires
        img.wf(),
    ensures
        r@.len() <= MAX_PROPERTIES,
        forall|i: int| 0 <= i < r@.len() ==> (#[trigger] r@[i]).property_name@.len() > 0 && r@[i].property_type@.len() > 0
            && property_of_member(*img, *pool, *o, address, r@[i]),
        properties_outcome(*img, *pool, *o, address, r@),
{
    let mut props: Vec<ObjectPropertyInfo> = Vec::new();
    let mut child = read_ptr_or_zero(img, add_wrapping(address, o.member));
    let mut steps: u64 = 0;
    while child > MIN_POINTER && steps < MAX_PROPERTIES
        invariant
            img.wf(),
            steps <= MAX_PROPERTIES,
            props@.len() <= steps,
            child == crate::search::member_node(*img, *o, address, steps as nat),
            forall|j: nat| j < steps ==> #[trigger] crate::search::member_node(*img, *o, address, j) > MIN_POINTER,
            forall|i: int| 0 <= i < props@.len() ==> (#[trigger] props@[i]).property_name@.len() > 0 && props@[i].property_type@.len() > 0
                && property_of_member(*img, *pool, *o, address, props@[i]),
            props@.len() == prop_members(*img, *pool, *o, address, steps as nat).len(),
            forall|i: int|
                0 <= i < props@.len() ==> ({
                    let k = #[trigger] prop_members(*img, *pool, *o, address, steps as nat)[i];
                    let off = crate::objects::i32_or_zero(*img, crate::objects::field(crate::search::member_node(*img, *o, address, k), o.offset));
                    &&& props@[i].property_name@ == crate::search::member_name_at(*img, *pool, *o, address, k)
                    &&& props@[i].property_type@ == member_type_at(*img, *pool, *o, address, k)
                    &&& props@[i].offset@.subrange(0, offset_text(off).len() as int) == offset_text(off)
                }),
        decreases MAX_PROPERTIES - steps,
    {
        let ghost step = steps as nat;
        let ghost members = prop_members(*img, *pool, *o, address, step);
        proof {
            assert(crate::search::member_reached(*img, *o, address, step));
        }
        match property_row(obj_mgr, img, pool, o, child) {
            Some(row) => {
                let ghost before = props@;
                props.push(row);
                proof {
                    assert forall|i: int| 0 <= i < props@.len() implies (#[trigger] props@[i]).property_name@.len() > 0 && props@[i].property_type@.len() > 0
                        && property_of_member(*img, *pool, *o, address, props@[i]) by {
                        if i < before.len() {
                            assert(props@[i] == before[i]);
                        } else {
                            assert(crate::search::member_reached(*img, *o, address, step));
                        }
                    }
                    assert(prop_member(*img, *pool, *o, address, step));
                    assert(prop_members(*img, *pool, *o, address, step + 1) == members.push(step));
                    assert forall|i: int|
                        0 <= i < props@.len() implies ({
                            let k = #[trigger] prop_members(*img, *pool, *o, address, step + 1)[i];
                            let off = crate::objects::i32_or_zero(*img, crate::objects::field(crate::search::member_node(*img, *o, address, k), o.offset));
                            &&& props@[i].property_name@ == crate::search::member_name_at(*img, *pool, *o, address, k)
                            &&& props@[i].property_type@ == member_type_at(*img, *pool, *o, address, k)
                            &&& props@[i].offset@.subrange(0, offset_text(off).len() as int) == offset_text(off)
                        }) by {
                        if i < before.len() {
                            assert(props@[i] == before[i]);
                            assert(members.push(step)[i] == members[i]);
                        } else {
                            assert(members.push(step)[i] == step);
                        }
                    }
                }
            },
            None => {
                proof {
                    assert(!prop_member(*img, *pool, *o, address, step));
                    assert(prop_members(*img, *pool, *o, address, step + 1) == members);
                }
            },
        }
        child = read_ptr_or_zero(img, add_wrapping(child, o.next_member));
        steps = steps + 1;
    }
    proof {
        assert(props_end(*img, *o, address, steps as nat));
    }
    props
}

/// One half of a map property's sub-type: the cached name at the slot, else
/// the name read there (which may fail).
fn map_part(obj_mgr: &ObjectManager, img: &MemoryImage, pool: &FNamePool, o: &UEOffset, addr: u64) -> (r: Option<String>)
    requires
        img.wf(),
{
    if addr <= MIN_POINTER {
        return None;
    }
    match obj_mgr.get(addr) {
        Some(rec) => Some(rec.name),
        None => {
            let id = read_i32_or_zero(img, add_wrapping(addr, o.fname_index));
            match pool.lookup(img, to_u32(id)) {
                Ok(n) => Some(n),
                Err(_) => None,
            }
        },
    }
}

pub fn read_u8_or_zero(img: &MemoryImage, a: u64) -> (r: u8)
    requires
        img.wf(),
    ensures
        r == (match img.byte_at(a as int) {
            Some(b) => b,
            None => 0u8,
        }),
{
    match img.read_u8(a) {
        Some(b) => b,
        None => 0,
    }
}

/// Entry `e` is the named entry `k` of the enum list at `list`: the name at
/// its name field and the 64-bit value at its index field.
pub open spec fn enum_entry_at(img: MemoryImage, pool: FNamePool, o: UEOffset, list: u64, k: nat, e: EnumValueItem) -> bool {
    let entry = crate::anchors::wrap64(list + crate::anchors::wrap64(k * o.enum_prop_mul)) as u64;
    &&& e.name@ == crate::objects::pool_text(img, pool, crate::objects::i32_or_zero(img, crate::objects::field(entry, o.enum_prop_name)))
    &&& e.value as int == match img.word_at(crate::objects::field(entry, o.enum_prop_index), 8) {
        Some(w) => crate::memory::signed64(w),
        None => 0int,
    }
}

/// Name of entry `k` of the enum list at `list`.
pub open spec fn enum_name_at(img: MemoryImage, pool: FNamePool, o: UEOffset, list: u64, k: nat) -> Seq<char> {
    let entry = crate::anchors::wrap64(list + crate::anchors::wrap64(k * o.enum_prop_mul)) as u64;
    crate::objects::pool_text(img, pool, crate::objects::i32_or_zero(img, crate::objects::field(entry, o.enum_prop_name)))
}

/// The named entries among `0..k` of the enum list at `list`, in order.
pub open spec fn named_entries(img: MemoryImage, pool: FNamePool, o: UEOffset, list: u64, k: nat) -> Seq<nat>
    decreases k,
{
    if k == 0 {
        Seq::empty()
    } else {
        let prev = named_entries(img, pool, o, list, (k - 1) as nat);
        if enum_name_at(img, pool, o, list, (k - 1) as nat).len() > 0 {
            prev.push((k - 1) as nat)
        } else {
            prev
        }
    }
}

/// The entries of an enum: none unless the list pointer is real and the
/// count is in `1..MAX_ENUM_ENTRIES`; then every named entry below the count,
/// in order.
pub open spec fn enum_outcome(img: MemoryImage, pool: FNamePool, o: UEOffset, address: u64, r: Seq<EnumValueItem>) -> bool {
    let list = crate::objects::ptr_or_zero(img, crate::objects::field(address, o.enum_list));
    let n = crate::objects::i32_or_zero(img, crate::objects::field(address, o.enum_size));
    if list > MIN_POINTER && 0 < n < MAX_ENUM_ENTRIES {
        let ks = named_entries(img, pool, o, list, n as nat);
        r.len() == ks.len() && forall|i: int| 0 <= i < r.len() ==> enum_entry_at(img, pool, o, list, #[trigger] ks[i], r[i])
    } else {
        r.len() == 0
    }
}

/// The entries of the enum at `address`, when its list pointer is real and
/// its count is in `1..MAX_ENUM_ENTRIES`; entries without a name are left out.
fn enum_entries(img: &MemoryImage, pool: &FNamePool, o: &UEOffset, address: u64) -> (r: Vec<EnumValueItem>)
    requires
        img.wf(),
    ensures
        r@.len() <= MAX_ENUM_ENTRIES,
        forall|i: int| 0 <= i < r@.len() ==> (#[trigger] r@[i]).name@.len() > 0 && exists|k: nat|
            k < crate::objects::i32_or_zero(*img, crate::objects::field(address, o.enum_size)) && enum_entry_at(
                *img,
                *pool,
                *o,
                crate::objects::ptr_or_zero(*img, crate::objects::field(address, o.enum_list)),
                k,
                r@[i],
            ),
        enum_outcome(*img, *pool, *o, address, r@),
{
    let mut values: Vec<EnumValueItem> = Vec::new();
    let list_ptr = read_ptr_or_zero(img, add_wrapping(address, o.enum_list));
    let list_count = read_i32_or_zero(img, add_wrapping(address, o.enum_size));
    if list_ptr > MIN_POINTER && list_count > 0 && list_count < MAX_ENUM_ENTRIES {
        let n = list_count as u64;
        let mut i: u64 = 0;
        while i < n
            invariant
                img.wf(),
                n < MAX_ENUM_ENTRIES,
                n == list_count,
                list_count == crate::objects::i32_or_zero(*img, crate::objects::field(address, o.enum_size)),
                list_ptr == crate::objects::ptr_or_zero(*img, crate::objects::field(address, o.enum_list)),
                i <= n,
                values@.len() <= i,
                forall|q: int| 0 <= q < values@.len() ==> (#[trigger] values@[q]).name@.len() > 0 && exists|k: nat|
                    k < list_count && enum_entry_at(*img, *pool, *o, list_ptr, k, values@[q]),
                values@.len() == named_entries(*img, *pool, *o, list_ptr, i as nat).len(),
                forall|q: int| 0 <= q < values@.len() ==> enum_entry_at(*img, *pool, *o, list_ptr, #[trigger] named_entries(*img, *pool, *o, list_ptr, i as nat)[q], values@[q]),
            decreases n - i,
        {
            let ghost ks = named_entries(*img, *pool, *o, list_ptr, i as nat);
            let entry = add_wrapping(list_ptr, crate::object_array::mul_wrapping(i, o.enum_prop_mul));
            let name_id = read_i32_or_zero(img, add_wrapping(entry, o.enum_prop_name));
            let name = pool_name(img, pool, name_id);
            let value = match img.read_i64(add_wrapping(entry, o.enum_prop_index)) {
                Some(v) => v,
                None => 0,
            };
            if name.unicode_len() > 0 {
                let ghost before = values@;
                let item = EnumValueItem { name, value };
                proof {
                    assert(enum_entry_at(*img, *pool, *o, list_ptr, i as nat, item));
                }
                values.push(item);
                proof {
                    assert forall|q: int| 0 <= q < values@.len() implies (#[trigger] values@[q]).name@.len() > 0 && exists|k: nat|
                        k < list_count && enum_entry_at(*img, *pool, *o, list_ptr, k, values@[q]) by {
                        if q < before.len() {
                            assert(values@[q] == before[q]);
                        } else {
                            assert(enum_entry_at(*img, *pool, *o, list_ptr, i as nat, values@[q]));
                        }
                    }
                    assert(named_entries(*img, *pool, *o, list_ptr, i as nat + 1) == ks.push(i as nat));
                    assert forall|q: int| 0 <= q < values@.len() implies enum_entry_at(*img, *pool, *o, list_ptr, #[trigger] named_entries(*img, *pool, *o, list_ptr, i as nat + 1)[q], values@[q]) by {
                        if q < before.len() {
                            assert(values@[q] == before[q]);
                            assert(ks.push(i as nat)[q] == ks[q]);
                        } else {
                            assert(ks.push(i as nat)[q] == i as nat);
                        }
                    }
                }
            } else {
                proof {
                    assert(named_entries(*img, *pool, *o, list_ptr, i as nat + 1) == ks);
                }
            }
            i = i + 1;
        }
    }
    values
}

/// The parameters of the function at `address` and, if present, the type
/// and type address of its `ReturnValue`.
fn function_params(obj_mgr: &ObjectManager, img: &MemoryImage, pool: &FNamePool, o: &UEOffset, address: u64) -> (r: (Vec<FunctionParamInfo>, Option<(String, u64)>))
    requires
        img.wf(),
    ensures
        r.0@.len() <= MAX_PARAMS,
        forall|i: int|
            0 <= i < r.0@.len() ==> (#[trigger] r.0@[i]).param_name@.len() > 0 && r.0@[i].param_name@ != "ReturnValue"@
                && r.0@[i].param_type@.len() > 0,
        params_outcome(*img, *pool, *o, address, r.0@),
{
    let mut params: Vec<FunctionParamInfo> = Vec::new();
    let mut ret: Option<(String, u64)> = None;
    let mut param = read_ptr_or_zero(img, add_wrapping(address, o.funct_para));
    let mut steps: u64 = 0;
    while param > MIN_POINTER && steps < MAX_PARAMS
        invariant
            img.wf(),
            steps <= MAX_PARAMS,
            params@.len() <= steps,
            param == param_node(*img, *o, address, steps as nat),
            forall|j: nat| j < steps ==> #[trigger] param_node(*img, *o, address, j) > MIN_POINTER,
            forall|i: int|
                0 <= i < params@.len() ==> (#[trigger] params@[i]).param_name@.len() > 0 && params@[i].param_name@ != "ReturnValue"@
                    && params@[i].param_type@.len() > 0,
            params@.len() == param_members(*img, *pool, *o, address, steps as nat).len(),
            forall|i: int|
                0 <= i < params@.len() ==> ({
                    let k = #[trigger] param_members(*img, *pool, *o, address, steps as nat)[i];
                    params@[i].param_name@ == param_name_at(*img, *pool, *o, address, k) && params@[i].param_type@ == param_type_at(
                        *img,
                        *pool,
                        *o,
                        address,
                        k,
                    )
                }),
        decreases MAX_PARAMS - steps,
    {
        let ghost step = steps as nat;
        let ghost ks = param_members(*img, *pool, *o, address, step);
        let (entry, returned) = param_entry(obj_mgr, img, pool, o, param);
        if returned.is_some() {
            ret = returned;
        }
        match entry {
            Some(row) => {
                let ghost before = params@;
                params.push(row);
                proof {
                    assert(param_member(*img, *pool, *o, address, step));
                    assert(param_members(*img, *pool, *o, address, step + 1) == ks.push(step));
                    assert forall|i: int|
                        0 <= i < params@.len() implies ({
                            let k = #[trigger] param_members(*img, *pool, *o, address, step + 1)[i];
                            params@[i].param_name@ == param_name_at(*img, *pool, *o, address, k) && params@[i].param_type@ == param_type_at(
                                *img,
                                *pool,
                                *o,
                                address,
                                k,
                            )
                        }) by {
                        if i < before.len() {
                            assert(params@[i] == before[i]);
                            assert(ks.push(step)[i] == ks[i]);
                        } else {
                            assert(ks.push(step)[i] == step);
                        }
                    }
                    assert forall|i: int|
                        0 <= i < params@.len() implies (#[trigger] params@[i]).param_name@.len() > 0 && params@[i].param_name@ != "ReturnValue"@
                            && params@[i].param_type@.len() > 0 by {
                        if i < before.len() {
                            assert(params@[i] == before[i]);
                        }
                    }
                }
            },
            None => {
                proof {
                    assert(!param_member(*img, *pool, *o, address, step));
                    assert(param_members(*img, *pool, *o, address, step + 1) == ks);
                }
            },
        }
        param = read_ptr_or_zero(img, add_wrapping(param, o.next_member));
        steps = steps + 1;
    }
    proof {
        assert(params_end(*img, *o, address, steps as nat));
    }
    (params, ret)
}

/// The parameter row of chain node `node` (where it is named, typed and not
/// `ReturnValue`), and the return type where it is `ReturnValue`.
fn param_entry(obj_mgr: &ObjectManager, img: &MemoryImage, pool: &FNamePool, o: &UEOffset, node: u64) -> (r: (Option<FunctionParamInfo>, Option<(String, u64)>))
    requires
        img.wf(),
    ensures
        (r.0 is Some) == (node_name(*img, *pool, *o, node) != "ReturnValue"@ && node_name(*img, *pool, *o, node).len() > 0
            && node_type(*img, *pool, *o, node).len() > 0),
        match r.0 {
            Some(p) => p.param_name@ == node_name(*img, *pool, *o, node) && p.param_type@ == node_type(*img, *pool, *o, node),
            None => true,
        },
{
    let name_id = read_i32_or_zero(img, add_wrapping(node, o.member_fname_index));
    let param_name = pool_name(img, pool, name_id);
    let type_ptr = read_ptr_or_zero(img, add_wrapping(node, o.member_type_offset));
    let type_id = read_i32_or_zero(img, add_wrapping(type_ptr, o.member_type));
    let param_type = pool_name(img, pool, type_id);
    let prop_0 = read_ptr_or_zero(img, add_wrapping(node, o.property));
    let mut type_address: u64 = 0;
    if prop_0 > MIN_POINTER {
        match obj_mgr.get(prop_0) {
            Some(sub) => {
                type_address = sub.address;
            },
            None => {},
        }
    }
    if crate::text::same_text(param_name.as_str(), "ReturnValue") {
        (None, Some((param_type, type_address)))
    } else if param_name.unicode_len() > 0 && param_type.unicode_len() > 0 {
        (Some(FunctionParamInfo { param_type, param_name, type_address }), None)
    } else {
        (None, None)
    }
}

/// Name of the member node `node`.
pub open spec fn node_name(img: MemoryImage, pool: FNamePool, o: UEOffset, node: u64) -> Seq<char> {
    crate::objects::pool_text(img, pool, crate::objects::i32_or_zero(img, crate::objects::field(node, o.member_fname_index)))
}

/// Type name of the member node `node`.
pub open spec fn node_type(img: MemoryImage, pool: FNamePool, o: UEOffset, node: u64) -> Seq<char> {
    crate::objects::pool_text(
        img,
        pool,
        crate::objects::i32_or_zero(img, crate::objects::field(crate::objects::ptr_or_zero(img, crate::objects::field(node, o.member_type_offset)), o.member_type)),
    )
}

/// Node `k` of a function's parameter chain.
pub open spec fn param_node(img: MemoryImage, o: UEOffset, address: u64, k: nat) -> u64
    decreases k,
{
    if k == 0 {
        crate::objects::ptr_or_zero(img, crate::objects::field(address, o.funct_para))
    } else {
        crate::objects::ptr_or_zero(img, crate::objects::field(param_node(img, o, address, (k - 1) as nat), o.next_member))
    }
}

pub open spec fn param_name_at(img: MemoryImage, pool: FNamePool, o: UEOffset, address: u64, k: nat) -> Seq<char> {
    node_name(img, pool, o, param_node(img, o, address, k))
}

pub open spec fn param_type_at(img: MemoryImage, pool: FNamePool, o: UEOffset, address: u64, k: nat) -> Seq<char> {
    node_type(img, pool, o, param_node(img, o, address, k))
}

/// Parameter `k` is listed: named (not `ReturnValue`) and typed.
pub open spec fn param_member(img: MemoryImage, pool: FNamePool, o: UEOffset, address: u64, k: nat) -> bool {
    param_name_at(img, pool, o, address, k) != "ReturnValue"@ && param_name_at(img, pool, o, address, k).len() > 0
        && param_type_at(img, pool, o, address, k).len() > 0
}

/// The listed parameters among `0..k`, in chain order.
pub open spec fn param_members(img: MemoryImage, pool: FNamePool, o: UEOffset, address: u64, k: nat) -> Seq<nat>
    decreases k,
{
    if k == 0 {
        Seq::empty()
    } else {
        let prev = param_members(img, pool, o, address, (k - 1) as nat);
        if param_member(img, pool, o, address, (k - 1) as nat) {
            prev.push((k - 1) as nat)
        } else {
            prev
        }
    }
}

/// The parameter walk ends after `e` nodes.
pub open spec fn params_end(img: MemoryImage, o: UEOffset, address: u64, e: nat) -> bool {
    &&& e <= MAX_PARAMS
    &&& forall|j: nat| j < e ==> #[trigger] param_node(img, o, address, j) > MIN_POINTER
    &&& (e == MAX_PARAMS || param_node(img, o, address, e) <= MIN_POINTER)
}

/// The parameters of a function: every listed parameter of the walked
/// chain, in order, with its name and type.
pub open spec fn params_outcome(img: MemoryImage, pool: FNamePool, o: UEOffset, address: u64, r: Seq<FunctionParamInfo>) -> bool {
    exists|e: nat|
        params_end(img, o, address, e) && r.len() == param_members(img, pool, o, address, e).len() && forall|i: int|
            0 <= i < r.len() ==> ({
                let k = #[trigger] param_members(img, pool, o, address, e)[i];
                r[i].param_name@ == param_name_at(img, pool, o, address, k) && r[i].param_type@ == param_type_at(img, pool, o, address, k)
            })
}

/// Decimal digits of `v`, most significant first.
pub open spec fn decimal_digits(v: nat) -> Seq<char>
    decreases v,
{
    if v < 10 {
        seq![crate::scanner::hex_char(v)]
    } else {
        decimal_digits(v / 10) + seq![crate::scanner::hex_char(v % 10)]
    }
}

/// Decimal text of a signed value.
pub open spec fn decimal_text(v: int) -> Seq<char> {
    if v < 0 {
        seq!['-'] + decimal_digits((-v) as nat)
    } else {
        decimal_digits(v as nat)
    }
}

fn push_decimal(out: &mut String, v: u64)
    ensures
        final(out)@ == old(out)@ + decimal_digits(v as nat),
    decreases v,
{
    if v >= 10 {
        push_decimal(out, v / 10);
    }
    push_char(out, crate::scanner::hex_upper((v % 10) as u8));
    proof {
        assert(out@ =~= old(out)@ + decimal_digits(v as nat));
    }
}

/// The decimal text of `v`.
pub fn decimal_string(v: i64) -> (r: String)
    ensures
        r@ == decimal_text(v as int),
{
    let mut out = String::new();
    if v < 0 {
        push_char(&mut out, '-');
        let m: u64 = (-(v as i128)) as u64;
        push_decimal(&mut out, m);
    } else {
        push_decimal(&mut out, v as u64);
    }
    proof {
        assert(out@ =~= decimal_text(v as int));
    }
    out
}

/// The raw value of a floating-point property, for the caller to render.
pub enum FloatBits {
    NotFloat,
    Single(u32),
    Double(u64),
}

/// A property of a live instance with its current value.
pub struct InstancePropertyInfo {
    pub property_name: String,
    pub property_type: String,
    pub offset: String,
    pub sub_type: String,
    pub memory_address: String,
    pub live_value: String,
    pub is_object: bool,
    pub object_instance_address: String,
    pub object_class_address: String,
    pub float_value: FloatBits,
}

/// Address of a property: the instance plus the property's signed offset.
pub open spec fn slot_address(instance: u64, offset: i32) -> u64 {
    crate::anchors::wrap64(instance + offset) as u64
}

/// Type name of member `k` of the chain at `class_address`.
pub open spec fn member_type_at(img: MemoryImage, pool: FNamePool, o: UEOffset, class_address: u64, k: nat) -> Seq<char> {
    let node = crate::search::member_node(img, o, class_address, k);
    crate::objects::pool_text(
        img,
        pool,
        crate::objects::i32_or_zero(img, crate::objects::field(crate::objects::ptr_or_zero(img, crate::objects::field(node, o.member_type_offset)), o.member_type)),
    )
}

/// Member `k` gives an instance row: it has a name and a type name, and the
/// type name (lower case) holds `property`.
pub open spec fn row_member(img: MemoryImage, pool: FNamePool, o: UEOffset, class_address: u64, k: nat) -> bool {
    &&& crate::search::member_name_at(img, pool, o, class_address, k).len() > 0
    &&& member_type_at(img, pool, o, class_address, k).len() > 0
    &&& contains(crate::search::lower_of(member_type_at(img, pool, o, class_address, k)), "property"@)
}

/// The members among `0..k` that give rows, in chain order.
pub open spec fn row_members(img: MemoryImage, pool: FNamePool, o: UEOffset, class_address: u64, k: nat) -> Seq<nat>
    decreases k,
{
    if k == 0 {
        Seq::empty()
    } else {
        let prev = row_members(img, pool, o, class_address, (k - 1) as nat);
        if row_member(img, pool, o, class_address, (k - 1) as nat) {
            prev.push((k - 1) as nat)
        } else {
            prev
        }
    }
}

/// The walk of the chain ends after `e` members: all of them are real
/// pointers, and the next is not or the cap is reached.
pub open spec fn chain_end(img: MemoryImage, o: UEOffset, class_address: u64, e: nat) -> bool {
    &&& e <= MAX_INSTANCE_PROPERTIES
    &&& forall|j: nat| j < e ==> #[trigger] crate::search::member_node(img, o, class_address, j) > MIN_POINTER
    &&& (e == MAX_INSTANCE_PROPERTIES || crate::search::member_node(img, o, class_address, e) <= MIN_POINTER)
}

/// Lower-case property type names whose value is an object reference.
pub open spec fn object_kind(t: Seq<char>) -> bool {
    contains(t, "objectproperty"@) || contains(t, "classproperty"@) || contains(t, "softobjectproperty"@) || contains(
        t,
        "weakobjectproperty"@,
    ) || contains(t, "interfaceproperty"@)
}

pub open spec fn byte_or_zero(img: MemoryImage, a: int) -> u8 {
    match img.byte_at(a) {
        Some(b) => b,
        None => 0,
    }
}

/// A bool property's value: its byte masked by its bit mask.
pub open spec fn bool_value(img: MemoryImage, mask_at: int, value_at: int) -> Seq<char> {
    if byte_or_zero(img, value_at) & byte_or_zero(img, mask_at) > 0 {
        "True"@
    } else {
        "False"@
    }
}

/// `row` is the row of member `k`: its name, type and slot address, and for
/// a bool its masked value.
pub open spec fn row_describes(
    img: MemoryImage,
    pool: FNamePool,
    o: UEOffset,
    class_address: u64,
    instance: u64,
    k: nat,
    row: InstancePropertyInfo,
) -> bool {
    let node = crate::search::member_node(img, o, class_address, k);
    let off = crate::objects::i32_or_zero(img, crate::objects::field(node, o.offset));
    &&& row.property_name@ == crate::search::member_name_at(img, pool, o, class_address, k)
    &&& row.property_type@ == member_type_at(img, pool, o, class_address, k)
    &&& row.memory_address@ == hex_text(slot_address(instance, off))
    &&& (contains(crate::search::lower_of(row.property_type@), "boolproperty"@) && !object_kind(
        crate::search::lower_of(row.property_type@),
    ) ==> row.live_value@ == bool_value(img, crate::objects::field(node, o.bit_mask), slot_address(instance, off) as int))
}

/// The rows of an instance: one per member of the walked chain that gives a
/// row, in chain order.
pub open spec fn instance_rows_outcome(
    img: MemoryImage,
    pool: FNamePool,
    o: UEOffset,
    class_address: u64,
    instance: u64,
    rows: Seq<InstancePropertyInfo>,
) -> bool {
    exists|e: nat|
        chain_end(img, o, class_address, e) && rows.len() == row_members(img, pool, o, class_address, e).len() && forall|i: int|
            0 <= i < rows.len() ==> row_describes(
                img,
                pool,
                o,
                class_address,
                instance,
                #[trigger] row_members(img, pool, o, class_address, e)[i],
                rows[i],
            )
}

/// Most properties walked for an instance.
pub const MAX_INSTANCE_PROPERTIES: u64 = 500;

/// Name of the object at `addr`: the cached one (unless empty or `None`),
/// else the name read at the object; empty for no real pointer.
fn resolve_name(obj_mgr: &ObjectManager, img: &MemoryImage, pool: &FNamePool, o: &UEOffset, addr: u64) -> (r: String)
    requires
        img.wf(),
{
    if addr < MIN_POINTER {
        return String::new();
    }
    match obj_mgr.get(addr) {
        Some(rec) => {
            if rec.name.unicode_len() > 0 && !crate::text::same_text(rec.name.as_str(), "None") {
                return rec.name;
            }
        },
        None => {},
    }
    let id = read_i32_or_zero(img, add_wrapping(addr, o.fname_index));
    pool_name(img, pool, id)
}

/// The element type of an array, set or map slot: the inner property's type
/// without `Property`, or for object and class elements the class name.
fn inner_type(obj_mgr: &ObjectManager, img: &MemoryImage, pool: &FNamePool, o: &UEOffset, prop: u64) -> (r: Option<String>)
    requires
        img.wf(),
{
    if prop <= MIN_POINTER {
        return None;
    }
    let type_ptr = read_ptr_or_zero(img, add_wrapping(prop, o.member_type_offset));
    let type_id = read_i32_or_zero(img, add_wrapping(type_ptr, o.member_type));
    if type_id <= 0 || type_id >= 2000000 {
        return None;
    }
    let type_text = pool_name(img, pool, type_id);
    let lower = lowercase(type_text.as_str());
    if !str_contains(lower.as_str(), "property") {
        return None;
    }
    let mut part = without_word(type_text.as_str(), "Property");
    let part_lower = lowercase(part.as_str());
    if str_contains(part_lower.as_str(), "object") || str_contains(part_lower.as_str(), "class") {
        let inner_class = read_ptr_or_zero(img, add_wrapping(prop, o.property));
        let name = resolve_name(obj_mgr, img, pool, o, inner_class);
        if name.unicode_len() > 0 {
            part = name;
        }
    }
    Some(part)
}

/// `s` with every occurrence of `w` removed, left to right.
fn without_word(s: &str, w: &str) -> String {
    let v = chars_of(s);
    let p = chars_of(w);
    let mut out = String::new();
    let mut i: usize = 0;
    while i < v.len()
        invariant
            i <= v@.len(),
        decreases v@.len() - i,
    {
        if p.len() > 0 && p.len() <= v.len() - i && starts_at(&v, i, &p) {
            i = i + p.len();
        } else {
            push_char(&mut out, v[i]);
            i = i + 1;
        }
    }
    out
}

fn starts_at(v: &Vec<char>, i: usize, p: &Vec<char>) -> bool
    requires
        i + p@.len() <= v@.len(),
{
    let n = v.len();
    let mut k: usize = 0;
    while k < p.len()
        invariant
            n == v@.len(),
            i + p@.len() <= v@.len(),
            k <= p@.len(),
        decreases p@.len() - k,
    {
        if v[i + k] != p[k] {
            return false;
        }
        k = k + 1;
    }
    true
}

/// Reads the live properties of an instance through its class's member
/// chain (at most `MAX_INSTANCE_PROPERTIES` nodes); `CatalogMiss` where the
/// class is not cached. Object properties save their pointee in the catalog.
pub fn get_instance_details(
    obj_mgr: &mut ObjectManager,
    img: &MemoryImage,
    pool: &FNamePool,
    offsets: &UEOffset,
    instance_address: u64,
    class_address: u64,
) -> (r: Result<Vec<InstancePropertyInfo>, ErrorKind>)
    requires
        old(obj_mgr).wf(),
        img.wf(),
    ensures
        final(obj_mgr).wf(),
        r is Err <==> !old(obj_mgr).state().0.contains_key(class_address),
        r matches Err(e) ==> e == ErrorKind::CatalogMiss && final(obj_mgr).state() == old(obj_mgr).state(),
        r matches Ok(rows) ==> rows@.len() <= MAX_INSTANCE_PROPERTIES && instance_rows_outcome(
            *img,
            *pool,
            *offsets,
            class_address,
            instance_address,
            rows@,
        ),
{
    if obj_mgr.get(class_address).is_none() {
        return Err(ErrorKind::CatalogMiss);
    }
    let mut rows: Vec<InstancePropertyInfo> = Vec::new();
    let mut child = read_ptr_or_zero(img, add_wrapping(class_address, offsets.member));
    let mut steps: u64 = 0;
    while child > MIN_POINTER && steps < MAX_INSTANCE_PROPERTIES
        invariant
            obj_mgr.wf(),
            img.wf(),
            steps <= MAX_INSTANCE_PROPERTIES,
            child == crate::search::member_node(*img, *offsets, class_address, steps as nat),
            forall|j: nat| j < steps ==> #[trigger] crate::search::member_node(*img, *offsets, class_address, j) > MIN_POINTER,
            rows@.len() == row_members(*img, *pool, *offsets, class_address, steps as nat).len(),
            rows@.len() <= steps,
            forall|i: int|
                0 <= i < rows@.len() ==> row_describes(
                    *img,
                    *pool,
                    *offsets,
                    class_address,
                    instance_address,
                    #[trigger] row_members(*img, *pool, *offsets, class_address, steps as nat)[i],
                    rows@[i],
                ),
        decreases MAX_INSTANCE_PROPERTIES - steps,
    {
        let ghost step = steps as nat;
        let ghost members = row_members(*img, *pool, *offsets, class_address, step);
        let name_id = read_i32_or_zero(img, add_wrapping(child, offsets.member_fname_index));
        let child_name = pool_name(img, pool, name_id);
        let type_ptr = read_ptr_or_zero(img, add_wrapping(child, offsets.member_type_offset));
        let type_id = read_i32_or_zero(img, add_wrapping(type_ptr, offsets.member_type));
        let child_type = pool_name(img, pool, type_id);
        let type_lower = lowercase(child_type.as_str());
        proof {
            assert(child_name@ == crate::search::member_name_at(*img, *pool, *offsets, class_address, step));
            assert(child_type@ == member_type_at(*img, *pool, *offsets, class_address, step));
        }
        if str_contains(type_lower.as_str(), "property") && child_name.unicode_len() > 0 && child_type.unicode_len() > 0 {
            let ghost before = rows@;
            let row = self::instance_row(obj_mgr, img, pool, offsets, instance_address, child, child_name, child_type, &type_lower);
            rows.push(row);
            proof {
                assert(row_member(*img, *pool, *offsets, class_address, step));
                assert(row_members(*img, *pool, *offsets, class_address, step + 1) == members.push(step));
                assert forall|i: int| 0 <= i < rows@.len() implies row_describes(
                    *img,
                    *pool,
                    *offsets,
                    class_address,
                    instance_address,
                    #[trigger] row_members(*img, *pool, *offsets, class_address, step + 1)[i],
                    rows@[i],
                ) by {
                    if i < before.len() {
                        assert(rows@[i] == before[i]);
                        assert(members.push(step)[i] == members[i]);
                    } else {
                        assert(members.push(step)[i] == step);
                    }
                }
            }
        } else {
            proof {
                assert(!row_member(*img, *pool, *offsets, class_address, step));
                assert(row_members(*img, *pool, *offsets, class_address, step + 1) == members);
            }
        }
        child = read_ptr_or_zero(img, add_wrapping(child, offsets.next_member));
        steps = steps + 1;
    }
    proof {
        assert(chain_end(*img, *offsets, class_address, steps as nat));
    }
    Ok(rows)
}

fn instance_row(
    obj_mgr: &mut ObjectManager,
    img: &MemoryImage,
    pool: &FNamePool,
    o: &UEOffset,
    instance_address: u64,
    child: u64,
    child_name: String,
    child_type: String,
    type_lower: &String,
) -> (r: InstancePropertyInfo)
    requires
        old(obj_mgr).wf(),
        img.wf(),
        type_lower@ == crate::search::lower_of(child_type@),
    ensures
        final(obj_mgr).wf(),
        r.property_name == child_name,
        r.property_type == child_type,
        r.memory_address@ == hex_text(slot_address(instance_address, crate::objects::i32_or_zero(*img, crate::anchors::wrap64(child + o.offset)))),
        contains(type_lower@, "boolproperty"@) && !object_kind(type_lower@) ==> r.live_value@ == bool_value(
            *img,
            crate::anchors::wrap64(child + o.bit_mask),
            slot_address(instance_address, crate::objects::i32_or_zero(*img, crate::anchors::wrap64(child + o.offset))) as int,
        ),
{
    let t = type_lower.as_str();
    let offset_val = read_i32_or_zero(img, add_wrapping(child, o.offset));
    let memory = crate::anchors::offset_wrapping(instance_address, offset_val as i64);
    let prop_0 = read_ptr_or_zero(img, add_wrapping(child, o.property));
    let prop_8 = read_ptr_or_zero(img, add_wrapping(child, add_wrapping(o.property, 8)));
    let type_obj = read_ptr_or_zero(img, add_wrapping(child, o.type_object));
    let mut sub_type = String::new();
    let mut is_object = false;
    let mut object_instance_address = String::new();
    let mut object_class_address = String::new();
    let mut assigned: Option<String> = None;
    if str_contains(t, "objectproperty") || str_contains(t, "classproperty") || str_contains(t, "softobjectproperty")
        || str_contains(t, "weakobjectproperty") || str_contains(t, "interfaceproperty") {
        is_object = true;
        let candidates = [prop_8, prop_0, type_obj];
        let mut c: usize = 0;
        while c < 3
            invariant
                img.wf(),
                obj_mgr.wf(),
            decreases 3 - c,
        {
            let name = resolve_name(obj_mgr, img, pool, o, candidates[c]);
            let lower = lowercase(name.as_str());
            if name.unicode_len() > 0 && !str_contains(lower.as_str(), "property") {
                sub_type = name;
                break;
            }
            c = c + 1;
        }
        let object_ptr = read_ptr_or_zero(img, memory);
        if object_ptr > MIN_POINTER {
            object_instance_address = format_address(object_ptr);
            if obj_mgr.total_object_count < u64::MAX {
                match obj_mgr.try_save_object(object_ptr, img, pool, o, 0, 5) {
                    Some(inst) => {
                        let class_ptr = read_ptr_or_zero(img, add_wrapping(object_ptr, o.class));
                        object_class_address = format_address(class_ptr);
                        assigned = Some(inst.name);
                    },
                    None => {},
                }
            }
        }
    } else if str_contains(t, "enumproperty") {
        sub_type = resolve_name(obj_mgr, img, pool, o, type_obj);
    } else if str_contains(t, "arrayproperty") || str_contains(t, "setproperty") {
        match inner_type(obj_mgr, img, pool, o, prop_0) {
            Some(part) => {
                sub_type = part;
            },
            None => {},
        }
    } else if str_contains(t, "mapproperty") {
        let key = inner_type(obj_mgr, img, pool, o, prop_0);
        let value = inner_type(obj_mgr, img, pool, o, prop_8);
        let has_key = key.is_some();
        match key {
            Some(k) => {
                sub_type.append(k.as_str());
            },
            None => {},
        }
        match value {
            Some(v) => {
                if has_key {
                    sub_type.append(", ");
                }
                sub_type.append(v.as_str());
            },
            None => {},
        }
    }
    let mut float_value = FloatBits::NotFloat;
    let live_value = match assigned {
        Some(v) => v,
        None => {
            if str_contains(t, "boolproperty") {
                let mask = read_u8_or_zero(img, add_wrapping(child, o.bit_mask));
                let byte = read_u8_or_zero(img, memory);
                if byte & mask > 0 {
                    String::from_str("True")
                } else {
                    String::from_str("False")
                }
            } else if str_contains(t, "nameproperty") {
                let id = read_i32_or_zero(img, memory);
                let text = pool_name(img, pool, id);
                if text.unicode_len() == 0 {
                    String::from_str("None")
                } else {
                    text
                }
            } else if str_contains(t, "arrayproperty") {
                let data = read_ptr_or_zero(img, memory);
                let count = read_i32_or_zero(img, add_wrapping(memory, 0x8));
                let max = read_i32_or_zero(img, add_wrapping(memory, 0xC));
                if data > MIN_POINTER && count >= 0 && count <= max && max < 99999 {
                    is_object = true;
                    object_instance_address = format_address(data);
                    let mut s = String::from_str("Elements: ");
                    s.append(decimal_string(count as i64).as_str());
                    s
                } else {
                    String::from_str("Empty Array")
                }
            } else if str_contains(t, "mapproperty") || str_contains(t, "setproperty") {
                let data = read_ptr_or_zero(img, memory);
                let count = read_i32_or_zero(img, add_wrapping(memory, 0x18));
                if data > MIN_POINTER && count >= 0 && count < 99999 {
                    is_object = true;
                    object_instance_address = format_address(data);
                    let mut s = String::from_str("Elements: ");
                    s.append(decimal_string(count as i64).as_str());
                    s
                } else {
                    String::from_str("Empty Map")
                }
            } else if str_contains(t, "intproperty") || str_contains(t, "int32") {
                decimal_string(read_i32_or_zero(img, memory) as i64)
            } else if str_contains(t, "floatproperty") {
                let bits = match img.read_le(memory, 4) {
                    Some(b) => b,
                    None => 0,
                };
                proof {
                    crate::memory::lemma_le_bound(img.bytes_at(memory as int, 4));
                    reveal_with_fuel(crate::memory::pow256, 5);
                }
                float_value = FloatBits::Single(bits as u32);
                String::new()
            } else if str_contains(t, "doubleproperty") {
                let bits = match img.read_le(memory, 8) {
                    Some(b) => b,
                    None => 0,
                };
                float_value = FloatBits::Double(bits);
                String::new()
            } else if str_contains(t, "byteproperty") {
                decimal_string(read_u8_or_zero(img, memory) as i64)
            } else {
                format_address(read_ptr_or_zero(img, memory))
            }
        },
    };
    let mask = if str_contains(t, "boolproperty") {
        Some(read_u8_or_zero(img, add_wrapping(child, o.bit_mask)))
    } else {
        None
    };
    InstancePropertyInfo {
        property_name: child_name,
        property_type: child_type,
        offset: offset_label(offset_val, mask),
        sub_type,
        memory_address: format_address(memory),
        live_value,
        is_object,
        object_instance_address,
        object_class_address,
        float_value,
    }
}

/// Most elements listed for an array.
pub const MAX_ARRAY_ELEMENTS: i32 = 9999;

/// Element stride guessed from an inner type name (lower case): 1 for byte
/// and bool, 4 for int and float, 8 otherwise.
pub open spec fn element_stride(t: Seq<char>) -> u64 {
    if contains(t, "byte"@) || contains(t, "bool"@) {
        1
    } else if contains(t, "int"@) || contains(t, "float"@) {
        4
    } else {
        8
    }
}

/// Stride of the elements of an array of `inner_type_lower` (see
/// `element_stride`).
pub fn array_stride(inner_type_lower: &str) -> (r: u64)
    ensures
        r == element_stride(inner_type_lower@),
{
    if str_contains(inner_type_lower, "byte") || str_contains(inner_type_lower, "bool") {
        1
    } else if str_contains(inner_type_lower, "int") || str_contains(inner_type_lower, "float") {
        4
    } else {
        8
    }
}

/// Array rows: `min(count, 9999)` of them (none for a negative count), row
/// `i` named `[i]`, of the inner type, at `array_address + i * stride`.
pub open spec fn array_rows_outcome(array_address: u64, inner_type: Seq<char>, count: i32, r: Seq<InstancePropertyInfo>) -> bool {
    &&& r.len() == if count <= 0 {
        0
    } else if count > MAX_ARRAY_ELEMENTS {
        MAX_ARRAY_ELEMENTS as int
    } else {
        count as int
    }
    &&& forall|i: int|
        0 <= i < r.len() ==> (#[trigger] r[i]).property_type@ == inner_type && r[i].memory_address@ == crate::instance::hex_text(
            crate::anchors::wrap64(array_address + i * element_stride(crate::search::lower_of(inner_type))) as u64,
        ) && r[i].property_name@ == seq!['['] + decimal_text(i) + seq![']']
}

/// The elements of an array at `array_address` as rows: `min(count, 9999)`
/// of them (none for a negative count), element `i` at `array_address + i *
/// stride`.
pub fn get_array_elements(
    obj_mgr: &mut ObjectManager,
    img: &MemoryImage,
    pool: &FNamePool,
    offsets: &UEOffset,
    array_address: u64,
    inner_type: &str,
    count: i32,
) -> (r: Vec<InstancePropertyInfo>)
    requires
        old(obj_mgr).wf(),
        img.wf(),
    ensures
        final(obj_mgr).wf(),
        array_rows_outcome(array_address, inner_type@, count, r@),
{
    let n: i32 = if count > MAX_ARRAY_ELEMENTS {
        MAX_ARRAY_ELEMENTS
    } else {
        count
    };
    let lower = lowercase(inner_type);
    let stride = array_stride(lower.as_str());
    let t = lower.as_str();
    let mut rows: Vec<InstancePropertyInfo> = Vec::new();
    let mut i: i32 = 0;
    while i < n
        invariant
            obj_mgr.wf(),
            img.wf(),
            0 <= i,
            n <= MAX_ARRAY_ELEMENTS,
            i <= n || n <= 0,
            n <= 0 ==> i == 0,
            rows@.len() == i,
            stride == element_stride(crate::search::lower_of(inner_type@)),
            lower@ == crate::search::lower_of(inner_type@),
            forall|q: int|
                0 <= q < rows@.len() ==> (#[trigger] rows@[q]).property_type@ == inner_type@ && rows@[q].memory_address@
                    == crate::instance::hex_text(crate::anchors::wrap64(array_address + q * stride) as u64)
                    && rows@[q].property_name@ == seq!['['] + decimal_text(q) + seq![']'],
        decreases n - i,
    {
        let byte_offset = (i as u64) * stride;
        let element = add_wrapping(array_address, byte_offset);
        let mut live = String::new();
        let mut is_object = false;
        let mut object_instance_address = String::new();
        let mut object_class_address = String::new();
        let mut float_value = FloatBits::NotFloat;
        if str_contains(t, "object") || str_contains(t, "class") {
            let ptr = read_ptr_or_zero(img, element);
            if ptr > MIN_POINTER {
                is_object = true;
                object_instance_address = format_address(ptr);
                let saved = if obj_mgr.total_object_count < u64::MAX {
                    obj_mgr.try_save_object(ptr, img, pool, offsets, 0, 5)
                } else {
                    None
                };
                match saved {
                    Some(inst) => {
                        let class_ptr = read_ptr_or_zero(img, add_wrapping(ptr, offsets.class));
                        object_class_address = format_address(class_ptr);
                        live = inst.name;
                    },
                    None => {
                        live = format_address(ptr);
                    },
                }
            } else {
                live = String::from_str("0x0");
            }
        } else if str_contains(t, "name") {
            let id = read_i32_or_zero(img, element);
            live = match pool.lookup(img, to_u32(id)) {
                Ok(n) => n,
                Err(_) => String::from_str("None"),
            };
        } else if str_contains(t, "int") {
            live = decimal_string(read_i32_or_zero(img, element) as i64);
        } else if str_contains(t, "float") {
            let bits = match img.read_le(element, 4) {
                Some(b) => b,
                None => 0,
            };
            proof {
                crate::memory::lemma_le_bound(img.bytes_at(element as int, 4));
                reveal_with_fuel(crate::memory::pow256, 5);
            }
            float_value = FloatBits::Single(bits as u32);
        } else if str_contains(t, "bool") {
            live = if read_u8_or_zero(img, element) > 0 {
                String::from_str("True")
            } else {
                String::from_str("False")
            };
        } else {
            live = format_address(read_ptr_or_zero(img, element));
        }
        let mut name = String::new();
        push_char(&mut name, '[');
        name.append(decimal_string(i as i64).as_str());
        push_char(&mut name, ']');
        let mut offset = String::new();
        push_hex(&mut offset, byte_offset);
        rows.push(InstancePropertyInfo {
            property_name: name,
            property_type: String::from_str(inner_type),
            offset,
            sub_type: String::new(),
            memory_address: format_address(element),
            live_value: live,
            is_object,
            object_instance_address,
            object_class_address,
            float_value,
        });
        i = i + 1;
    }
    rows
}

/// A class in an instance's hierarchy.
pub struct InspectorHierarchyNode {
    pub name: String,
    pub type_label: String,
    pub address: String,
}

/// Longest class hierarchy listed for an instance.
pub const MAX_HIERARCHY: u64 = 50;

/// The class chain of an instance from class `class` on (`steps` already
/// listed): each class is saved in turn; the list ends at a class that is no
/// real pointer, cannot be saved, after `MAX_HIERARCHY` classes, or when the
/// count is full. Returns the catalog afterwards and each listed class with
/// its saved record.
pub open spec fn hierarchy_fold(
    m: CacheState,
    img: MemoryImage,
    pool: FNamePool,
    o: UEOffset,
    class: u64,
    steps: nat,
) -> (CacheState, Seq<(u64, ObjectView)>)
    decreases MAX_HIERARCHY - steps,
{
    if !(class > MIN_POINTER && steps < MAX_HIERARCHY) || m.2 >= u64::MAX {
        (m, Seq::empty())
    } else {
        let st = save_spec(m, img, pool, o, class, 0, 5);
        match st.1 {
            None => (st.0, Seq::empty()),
            Some(v) => {
                let rest = hierarchy_fold(
                    st.0,
                    img,
                    pool,
                    o,
                    crate::objects::ptr_or_zero(img, crate::anchors::wrap64(class + 0x40)),
                    steps + 1,
                );
                (rest.0, seq![(class, v)] + rest.1)
            },
        }
    }
}

/// The hierarchy list `r` and catalog `m1` are those of `hierarchy_fold`
/// from the class pointer at `instance + 0x10`.
pub open spec fn hierarchy_outcome(
    m0: CacheState,
    m1: CacheState,
    img: MemoryImage,
    pool: FNamePool,
    o: UEOffset,
    instance: u64,
    r: Seq<InspectorHierarchyNode>,
) -> bool {
    let f = hierarchy_fold(m0, img, pool, o, crate::objects::ptr_or_zero(img, crate::anchors::wrap64(instance + 0x10)), 0);
    &&& m1 == f.0
    &&& r.len() == f.1.len()
    &&& forall|i: int|
        0 <= i < r.len() ==> (#[trigger] r[i]).name@ == f.1[i].1.name && r[i].type_label@ == f.1[i].1.type_label
            && r[i].address@ == hex_text(f.1[i].0)
}

/// The class chain of an instance: its class (pointer at `+0x10`), then each
/// superStruct (at `+0x40`), saving each class in the catalog; stops at the
/// first class that cannot be saved, or after `MAX_HIERARCHY`.
pub fn add_inspector(
    obj_mgr: &mut ObjectManager,
    img: &MemoryImage,
    pool: &FNamePool,
    offsets: &UEOffset,
    instance_address: u64,
) -> (r: Vec<InspectorHierarchyNode>)
    requires
        old(obj_mgr).wf(),
        img.wf(),
    ensures
        final(obj_mgr).wf(),
        r@.len() <= MAX_HIERARCHY,
        hierarchy_outcome(old(obj_mgr).state(), final(obj_mgr).state(), *img, *pool, *offsets, instance_address, r@),
{
    let mut nodes: Vec<InspectorHierarchyNode> = Vec::new();
    let mut class_addr = read_ptr_or_zero(img, add_wrapping(instance_address, 0x10));
    let mut steps: u64 = 0;
    let ghost target = hierarchy_fold(obj_mgr.state(), *img, *pool, *offsets, class_addr, 0);
    let ghost mut done: Seq<(u64, ObjectView)> = Seq::empty();
    while class_addr > MIN_POINTER && steps < MAX_HIERARCHY
        invariant_except_break
            ({
                let f = hierarchy_fold(obj_mgr.state(), *img, *pool, *offsets, class_addr, steps as nat);
                target == (f.0, done + f.1)
            }),
        invariant
            obj_mgr.wf(),
            img.wf(),
            steps <= MAX_HIERARCHY,
            nodes@.len() == steps,
            done.len() == steps,
            forall|i: int|
                0 <= i < nodes@.len() ==> (#[trigger] nodes@[i]).name@ == done[i].1.name && nodes@[i].type_label@ == done[i].1.type_label
                    && nodes@[i].address@ == hex_text(done[i].0),
        ensures
            obj_mgr.wf(),
            nodes@.len() == done.len(),
            target == (obj_mgr.state(), done),
            forall|i: int|
                0 <= i < nodes@.len() ==> (#[trigger] nodes@[i]).name@ == done[i].1.name && nodes@[i].type_label@ == done[i].1.type_label
                    && nodes@[i].address@ == hex_text(done[i].0),
        decreases MAX_HIERARCHY - steps,
    {
        if obj_mgr.total_object_count == u64::MAX {
            proof {
                assert(done + Seq::<(u64, ObjectView)>::empty() =~= done);
            }
            break;
        }
        let ghost m = obj_mgr.state();
        match obj_mgr.try_save_object(class_addr, img, pool, offsets, 0, 5) {
            Some(class_obj) => {
                let ghost v = class_obj@;
                let ghost before = nodes@;
                let ghost at = class_addr;
                nodes.push(InspectorHierarchyNode {
                    name: class_obj.name,
                    type_label: class_obj.type_label,
                    address: format_address(class_addr),
                });
                class_addr = read_ptr_or_zero(img, add_wrapping(class_addr, 0x40));
                proof {
                    let rest = hierarchy_fold(obj_mgr.state(), *img, *pool, *offsets, class_addr, steps as nat + 1);
                    assert(done + (seq![(at, v)] + rest.1) =~= done.push((at, v)) + rest.1);
                    done = done.push((at, v));
                    assert forall|i: int| 0 <= i < nodes@.len() implies (#[trigger] nodes@[i]).name@ == done[i].1.name
                        && nodes@[i].type_label@ == done[i].1.type_label && nodes@[i].address@ == hex_text(done[i].0) by {
                        if i < before.len() {
                            assert(nodes@[i] == before[i]);
                        }
                    }
                }
            },
            None => {
                proof {
                    assert(hierarchy_fold(m, *img, *pool, *offsets, class_addr, steps as nat) == (obj_mgr.state(), Seq::<(u64, ObjectView)>::empty()));
                    assert(done + Seq::<(u64, ObjectView)>::empty() =~= done);
                }
                break;
            },
        }
        steps = steps + 1;
    }
    nodes
}

} // verus!
