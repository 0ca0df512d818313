use crate::anchors::{add_wrapping, wrap64};
use crate::error::ErrorKind;
use crate::inspector::{decimal_string, decimal_text, offset_text};
use crate::instance::{format_address, hex_text, push_hex};
use crate::memory::{MemoryImage, MIN_POINTER};
use crate::name_pool::{fixed_result, FNamePool};
use crate::objects::{i32_or_zero, ptr_or_zero, read_i32_or_zero, read_ptr_or_zero, to_u32, u32_of};
use crate::offsets::UEOffset;
use crate::scanner::{hex_char, hex_upper};
use crate::text::{push_char, same_text};
use vstd::prelude::*;
use vstd::string::*;

verus! {

/// The raw header of an object, formatted for display.
pub struct RawObjectInfo {
    pub object_id: i32,
    pub type_label: String,
    pub name: String,
    pub full_name: String,
    pub address: String,
    pub offset: String,
    pub class_ptr: String,
    pub outer_ptr: String,
    pub super_ptr: String,
    pub prop_size: String,
    pub prop_0: String,
    pub prop_8: String,
    pub function_ptr: String,
    pub member_ptr: String,
    pub member_size: String,
    pub bit_mask: String,
}

/// Name `id` of the pool, or `fallback` where the lookup fails.
pub open spec fn name_or(img: MemoryImage, pool: FNamePool, id: i32, fallback: Seq<char>) -> Seq<char> {
    match fixed_result(img, pool.base_address as int, pool.string_offset, u32_of(id)) {
        Ok(t) => t,
        Err(_) => fallback,
    }
}

/// `0x`, the hex of a 32-bit value, then its decimal in parentheses.
pub open spec fn size_text(v: i32) -> Seq<char> {
    seq!['0', 'x'] + offset_text(v) + seq![' ', '('] + decimal_text(v as int) + seq![')']
}

/// `0x` and two upper-case hex digits.
pub open spec fn byte_text(b: u8) -> Seq<char> {
    seq!['0', 'x', hex_char((b / 16) as nat), hex_char((b % 16) as nat)]
}

fn name_with_fallback(img: &MemoryImage, pool: &FNamePool, id: i32, fallback: &str) -> (r: String)
    requires
        img.wf(),
    ensures
        r@ == name_or(*img, *pool, id, fallback@),
{
    match pool.lookup(img, to_u32(id)) {
        Ok(s) => s,
        Err(_) => String::from_str(fallback),
    }
}

fn size_string(v: i32) -> (r: String)
    ensures
        r@ == size_text(v),
{
    let mut out = String::new();
    push_char(&mut out, '0');
    push_char(&mut out, 'x');
    push_hex(&mut out, to_u32(v) as u64);
    push_char(&mut out, ' ');
    push_char(&mut out, '(');
    out.append(decimal_string(v as i64).as_str());
    push_char(&mut out, ')');
    proof {
        assert(out@ =~= size_text(v));
    }
    out
}

fn byte_string(b: u8) -> (r: String)
    ensures
        r@ == byte_text(b),
{
    let mut out = String::new();
    push_char(&mut out, '0');
    push_char(&mut out, 'x');
    push_char(&mut out, hex_upper(b / 16));
    push_char(&mut out, hex_upper(b % 16));
    proof {
        assert(out@ =~= byte_text(b));
    }
    out
}

/// Most outers followed for the path name.
pub const MAX_PATH_DEPTH: u64 = 10;

/// The name of `id`, with the error's message where it cannot be read.
pub fn analyze_fname(img: &MemoryImage, pool: &FNamePool, id: u32) -> (r: Result<String, ErrorKind>)
    requires
        img.wf(),
    ensures
        match (r, fixed_result(*img, pool.base_address as int, pool.string_offset, id)) {
            (Ok(s), Ok(t)) => s@ == t,
            (Err(e), Err(f)) => e == f,
            _ => false,
        },
{
    pool.lookup(img, id)
}

/// The raw header fields of the object at `addr`, formatted: id, name (or
/// `Invalid_Name`), class name (`Unknown Class` where unreadable, `None`
/// without a class), the path of named outers (at most `MAX_PATH_DEPTH`,
/// joined by `.`), and each offset-profile field as hex.
pub fn analyze_object(img: &MemoryImage, pool: &FNamePool, offsets: &UEOffset, addr: u64) -> (r: RawObjectInfo)
    requires
        img.wf(),
    ensures
        r.object_id == i32_or_zero(*img, wrap64(addr + offsets.id)),
        r.name@ == name_or(*img, *pool, i32_or_zero(*img, wrap64(addr + offsets.fname_index)), "Invalid_Name"@),
        r.address@ == hex_text(addr),
        r.class_ptr@ == hex_text(ptr_or_zero(*img, wrap64(addr + offsets.class))),
        r.outer_ptr@ == hex_text(ptr_or_zero(*img, wrap64(addr + offsets.outer))),
        r.super_ptr@ == hex_text(ptr_or_zero(*img, wrap64(addr + offsets.super_struct))),
        r.offset@ == seq!['0', 'x'] + offset_text(i32_or_zero(*img, wrap64(addr + offsets.offset))),
        r.prop_size@ == size_text(i32_or_zero(*img, wrap64(addr + offsets.prop_size))),
        r.prop_0@ == hex_text(ptr_or_zero(*img, wrap64(addr + offsets.property))),
        r.prop_8@ == hex_text(ptr_or_zero(*img, wrap64(addr + wrap64(offsets.property + 8)))),
        r.function_ptr@ == hex_text(ptr_or_zero(*img, wrap64(addr + offsets.funct))),
        r.member_ptr@ == hex_text(ptr_or_zero(*img, wrap64(addr + offsets.member))),
        r.member_size@ == size_text(i32_or_zero(*img, wrap64(addr + offsets.member_size))),
        r.bit_mask@ == byte_text(match img.byte_at(wrap64(addr + offsets.bit_mask)) {
            Some(b) => b,
            None => 0u8,
        }),
        ptr_or_zero(*img, wrap64(addr + offsets.class)) > MIN_POINTER ==> r.type_label@ == name_or(
            *img,
            *pool,
            i32_or_zero(*img, wrap64(ptr_or_zero(*img, wrap64(addr + offsets.class)) + offsets.fname_index)),
            "Unknown Class"@,
        ),
        ptr_or_zero(*img, wrap64(addr + offsets.class)) <= MIN_POINTER ==> r.type_label@ == "None"@,
{
    let id = read_i32_or_zero(img, add_wrapping(addr, offsets.id));
    let class_ptr = read_ptr_or_zero(img, add_wrapping(addr, offsets.class));
    let outer_ptr = read_ptr_or_zero(img, add_wrapping(addr, offsets.outer));
    let name_id = read_i32_or_zero(img, add_wrapping(addr, offsets.fname_index));
    let name = name_with_fallback(img, pool, name_id, "Invalid_Name");
    let type_label = if class_ptr > MIN_POINTER {
        let class_name_id = read_i32_or_zero(img, add_wrapping(class_ptr, offsets.fname_index));
        name_with_fallback(img, pool, class_name_id, "Unknown Class")
    } else {
        String::from_str("None")
    };
    let mut path: Vec<String> = Vec::new();
    path.push(name.clone());
    let mut current = outer_ptr;
    let mut depth: u64 = 0;
    while current > MIN_POINTER && depth < MAX_PATH_DEPTH
        invariant
            img.wf(),
            depth <= MAX_PATH_DEPTH,
        decreases MAX_PATH_DEPTH - depth,
    {
        let out_id = read_i32_or_zero(img, add_wrapping(current, offsets.fname_index));
        match pool.lookup(img, to_u32(out_id)) {
            Ok(n) => {
                if n.unicode_len() > 0 && !same_text(n.as_str(), "None") {
                    path.push(n);
                }
            },
            Err(_) => {},
        }
        current = read_ptr_or_zero(img, add_wrapping(current, offsets.outer));
        depth = depth + 1;
    }
    let mut full_name = String::new();
    let mut k: usize = path.len();
    while k > 0
        invariant
            k <= path@.len(),
        decreases k,
    {
        full_name.append(path[k - 1].as_str());
        if k > 1 {
            full_name.append(".");
        }
        k = k - 1;
    }
    let bit = match img.read_u8(add_wrapping(addr, offsets.bit_mask)) {
        Some(b) => b,
        None => 0,
    };
    let offset_val = read_i32_or_zero(img, add_wrapping(addr, offsets.offset));
    let mut offset_str = String::new();
    push_char(&mut offset_str, '0');
    push_char(&mut offset_str, 'x');
    push_hex(&mut offset_str, to_u32(offset_val) as u64);
    proof {
        assert(offset_str@ =~= seq!['0', 'x'] + offset_text(offset_val));
    }
    RawObjectInfo {
        object_id: id,
        type_label,
        name,
        full_name,
        address: format_address(addr),
        offset: offset_str,
        class_ptr: format_address(class_ptr),
        outer_ptr: format_address(outer_ptr),
        super_ptr: format_address(read_ptr_or_zero(img, add_wrapping(addr, offsets.super_struct))),
        prop_size: size_string(read_i32_or_zero(img, add_wrapping(addr, offsets.prop_size))),
        prop_0: format_address(read_ptr_or_zero(img, add_wrapping(addr, offsets.property))),
        prop_8: format_address(read_ptr_or_zero(img, add_wrapping(addr, add_wrapping(offsets.property, 8)))),
        function_ptr: format_address(read_ptr_or_zero(img, add_wrapping(addr, offsets.funct))),
        member_ptr: format_address(read_ptr_or_zero(img, add_wrapping(addr, offsets.member))),
        member_size: size_string(read_i32_or_zero(img, add_wrapping(addr, offsets.member_size))),
        bit_mask: byte_string(bit),
    }
}

} // verus!
