use crate::error::ErrorKind;
use crate::memory::MemoryImage;
use crate::anchors::{add_wrapping, wrap64};
use vstd::prelude::*;

verus! {

/// The basic object offsets settled at run time.
pub struct UEOffsets {
    pub object_id: u64,
    pub f_name_index: u64,
    pub outer: u64,
    pub class: u64,
    pub super_field: u64,
    pub member: u64,
    pub next_member: u64,
    pub member_f_name_index: u64,
    pub offset: u64,
    pub prop_size: u64,
    pub bit_mask: u64,
}

impl UEOffsets {
    pub open spec fn is_zero(&self) -> bool {
        self.object_id == 0 && self.f_name_index == 0 && self.outer == 0 && self.class == 0 && self.super_field == 0
            && self.member == 0 && self.next_member == 0 && self.member_f_name_index == 0 && self.offset == 0
            && self.prop_size == 0 && self.bit_mask == 0
    }
}

/// Probe of objects `i..PROBE_OBJECTS` of the first chunk (whose pointer is
/// at `entry`): `Ok(true)` at the first non-null object, `Ok(false)` if all
/// are null, an error at the first failed read.
pub open spec fn probe_from(img: MemoryImage, entry: int, i: int) -> Result<bool, ErrorKind>
    decreases PROBE_OBJECTS - i,
{
    if i >= PROBE_OBJECTS || i < 0 {
        Ok(false)
    } else {
        match img.ptr_at(entry) {
            None => Err(ErrorKind::ReadFailed),
            Some(chunk) => match img.ptr_at(wrap64(chunk + i * PROBE_STRIDE)) {
                None => Err(ErrorKind::ReadFailed),
                Some(object) => if object != 0 {
                    Ok(true)
                } else {
                    probe_from(img, entry, i + 1)
                },
            },
        }
    }
}

/// The probe of the object array at `base`.
pub open spec fn basic_probe(img: MemoryImage, base: int) -> Result<bool, ErrorKind> {
    match img.ptr_at(wrap64(base + 0x10)) {
        None => Err(ErrorKind::ReadFailed),
        Some(entry) => probe_from(img, entry, 0),
    }
}

/// Offsets found by looking at the first objects of the object array.
pub struct AutoConfig {
    pub offsets: UEOffsets,
}

/// The object-array entry stride the probe assumes.
pub const PROBE_STRIDE: u64 = 0x18;

/// Objects probed.
pub const PROBE_OBJECTS: u64 = 10;

impl AutoConfig {
    pub fn new() -> (r: AutoConfig)
        ensures
            r.offsets.is_zero(),
    {
        AutoConfig {
            offsets: UEOffsets {
                object_id: 0,
                f_name_index: 0,
                outer: 0,
                class: 0,
                super_field: 0,
                member: 0,
                next_member: 0,
                member_f_name_index: 0,
                offset: 0,
                prop_size: 0,
                bit_mask: 0,
            },
        }
    }

    /// Reads the first object pointers of the array at `gu_object_base`;
    /// at the first non-null one the standard id, name, class and outer
    /// offsets are taken. A failed read is an error.
    pub fn scan_basic_offsets(&mut self, img: &MemoryImage, gu_object_base: u64, _name_pool_base: u64) -> (r: Result<(), ErrorKind>)
        requires
            img.wf(),
        ensures
            match basic_probe(*img, gu_object_base as int) {
                Ok(true) => r is Ok && final(self).offsets == (UEOffsets {
                    object_id: 0x0C,
                    f_name_index: 0x18,
                    class: 0x10,
                    outer: 0x20,
                    ..old(self).offsets
                }),
                Ok(false) => r is Ok && final(self).offsets == old(self).offsets,
                Err(e) => r == Err::<(), ErrorKind>(e) && final(self).offsets == old(self).offsets,
            },
    {
        let entry = match img.read_ptr(add_wrapping(gu_object_base, 0x10)) {
            Some(p) => p,
            None => return Err(ErrorKind::ReadFailed),
        };
        let mut i: u64 = 0;
        while i < PROBE_OBJECTS
            invariant
                img.wf(),
                i <= PROBE_OBJECTS,
                self.offsets == old(self).offsets,
                basic_probe(*img, gu_object_base as int) == probe_from(*img, entry as int, i as int),
            decreases PROBE_OBJECTS - i,
        {
            let chunk = match img.read_ptr(entry) {
                Some(p) => p,
                None => return Err(ErrorKind::ReadFailed),
            };
            assert(i * PROBE_STRIDE <= 10 * 0x18) by (nonlinear_arith)
                requires
                    i <= PROBE_OBJECTS,
            ;
            let object = match img.read_ptr(add_wrapping(chunk, i * PROBE_STRIDE)) {
                Some(p) => p,
                None => return Err(ErrorKind::ReadFailed),
            };
            if object != 0 {
                self.offsets.object_id = 0x0C;
                self.offsets.f_name_index = 0x18;
                self.offsets.class = 0x10;
                self.offsets.outer = 0x20;
                return Ok(());
            }
            i = i + 1;
        }
        Ok(())
    }
}

} // verus!
