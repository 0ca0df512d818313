use crate::anchors::{add_wrapping, wrap64};
use crate::memory::{MemoryImage, MIN_POINTER};
use crate::name_pool::FNamePool;
use crate::objects::{save_spec, CacheState, ObjectManager};
use crate::offsets::UEOffset;
use crate::progress::{final_progress, grow_target, report_due, ProgressPayload, INITIAL_TARGET};
use vstd::prelude::*;

verus! {

/// Byte offsets of the directory scanned from the array's base (exclusive).
pub const MAX_OBJECT_ARRAY: u64 = 0x1000;

/// The walk stops once the catalog counts more objects than this.
pub const MAX_OBJECT_QUANTITY: u64 = 2_000_000;

/// Elements per batch.
pub const BATCH_ELEMENTS: u64 = 0x20;

/// An objects-progress report is due every this many batches of a chunk.
pub const OBJECT_REPORT_EVERY: u64 = 5;

/// Depth limit handed to `try_save_object` by the walker.
pub const MAX_SAVE_DEPTH: u64 = 5;

/// `rest / batch` rounded half up.
pub open spec fn split_count(rest: int, batch: int) -> int {
    rest / batch + if (rest % batch) * 2 >= batch {
        1int
    } else {
        0int
    }
}

/// Entries `i..=end` of the inner array at `l2`: an unreadable entry is
/// skipped, one that holds no object pointer ends the batch, every other
/// object is saved; the batch also ends once the count passes the cap.
pub open spec fn scan_entries(
    m: CacheState,
    img: MemoryImage,
    pool: FNamePool,
    o: UEOffset,
    l2: u64,
    i: int,
    end: int,
    elem: u64,
) -> CacheState
    decreases end + 1 - i,
{
    if i > end {
        m
    } else {
        match img.ptr_at(wrap64(l2 + wrap64(i * elem))) {
            None => scan_entries(m, img, pool, o, l2, i + 1, end, elem),
            Some(l3) => if l3 < MIN_POINTER || img.ptr_at(l3) is None {
                m
            } else {
                let m2 = save_spec(m, img, pool, o, l3 as u64, 0, MAX_SAVE_DEPTH).0;
                if m2.2 > MAX_OBJECT_QUANTITY {
                    m2
                } else {
                    scan_entries(m2, img, pool, o, l2, i + 1, end, elem)
                }
            },
        }
    }
}

/// One batch: the inner array is the pointer at `l1`.
pub open spec fn scan_batch(
    m: CacheState,
    img: MemoryImage,
    pool: FNamePool,
    o: UEOffset,
    l1: u64,
    start: int,
    end: int,
    elem: u64,
) -> CacheState {
    match img.ptr_at(l1 as int) {
        None => m,
        Some(l2) => scan_entries(m, img, pool, o, l2 as u64, start, end, elem),
    }
}

/// Batches `b..splits` of the chunk at `l1`, batch `b` covering element
/// indices `[b * batch, b * batch + batch]`.
pub open spec fn run_batches(
    m: CacheState,
    img: MemoryImage,
    pool: FNamePool,
    o: UEOffset,
    l1: u64,
    b: int,
    splits: int,
    batch: int,
    elem: u64,
) -> CacheState
    decreases splits - b,
{
    if b >= splits {
        m
    } else if m.2 > MAX_OBJECT_QUANTITY {
        m
    } else {
        let m2 = scan_batch(m, img, pool, o, l1, wrap64(b * batch), wrap64(wrap64(b * batch) + batch), elem);
        run_batches(m2, img, pool, o, l1, b + 1, splits, batch, elem)
    }
}

/// The directory walk from byte offset `i`: each directory entry that
/// points at a readable chunk is split into batches by the chunk's region
/// size.
pub open spec fn walk_array(
    m: CacheState,
    img: MemoryImage,
    pool: FNamePool,
    o: UEOffset,
    base: u64,
    elem: u64,
    i: int,
) -> CacheState
    decreases MAX_OBJECT_ARRAY + 8 - i,
{
    if i >= MAX_OBJECT_ARRAY || i < 0 {
        m
    } else if m.2 > MAX_OBJECT_QUANTITY {
        m
    } else {
        let batch = elem * BATCH_ELEMENTS;
        let m2 = match img.ptr_at(wrap64(base + i)) {
            None => m,
            Some(l1) => if l1 < MIN_POINTER || img.ptr_at(l1) is None {
                m
            } else {
                match img.region_rest(l1) {
                    None => m,
                    Some(rest) => if rest == 0 || split_count(rest, batch) == 0 {
                        m
                    } else {
                        run_batches(m, img, pool, o, l1 as u64, 0, split_count(rest, batch), batch, elem)
                    },
                }
            },
        };
        walk_array(m2, img, pool, o, base, elem, i + 8)
    }
}

/// The global object array: a directory of chunk pointers at `base_address`.
pub struct GUObjectArray {
    pub base_address: u64,
}

impl GUObjectArray {
    pub fn new(base_address: u64) -> (r: GUObjectArray)
        ensures
            r.base_address == base_address,
    {
        GUObjectArray { base_address }
    }

    /// Entries `start..=end` of the inner array that `address` points at.
    fn thread_search_all_object(
        obj_mgr: &mut ObjectManager,
        img: &MemoryImage,
        pool: &FNamePool,
        offsets: &UEOffset,
        address: u64,
        start: u64,
        end: u64,
        element_size: u64,
    )
        requires
            old(obj_mgr).wf(),
            img.wf(),
            old(obj_mgr).total_object_count <= MAX_OBJECT_QUANTITY,
        ensures
            final(obj_mgr).wf(),
            final(obj_mgr).state() == scan_batch(old(obj_mgr).state(), *img, *pool, *offsets, address, start as int, end as int, element_size),
            final(obj_mgr).total_object_count <= MAX_OBJECT_QUANTITY + 1,
    {
        let l2 = match img.read_ptr(address) {
            Some(p) => p,
            None => return,
        };
        let ghost target = scan_batch(obj_mgr.state(), *img, *pool, *offsets, address, start as int, end as int, element_size);
        let mut i: u64 = start;
        if start > end {
            return;
        }
        loop
            invariant_except_break
                obj_mgr.total_object_count <= MAX_OBJECT_QUANTITY,
                target == scan_entries(obj_mgr.state(), *img, *pool, *offsets, l2, i as int, end as int, element_size),
            invariant
                obj_mgr.wf(),
                img.wf(),
                start <= i <= end,
            ensures
                obj_mgr.wf(),
                obj_mgr.total_object_count <= MAX_OBJECT_QUANTITY + 1,
                target == obj_mgr.state(),
            decreases end - i,
        {
            let offset = mul_wrapping(i, element_size);
            let l3 = match img.read_ptr(add_wrapping(l2, offset)) {
                Some(p) => p,
                None => {
                    if i == end {
                        proof {
                            assert(scan_entries(obj_mgr.state(), *img, *pool, *offsets, l2, i + 1, end as int, element_size) == obj_mgr.state());
                        }
                        break;
                    }
                    i = i + 1;
                    continue;
                },
            };
            if l3 < MIN_POINTER || img.read_ptr(l3).is_none() {
                break;
            }
            let ghost before = obj_mgr.state();
            let _ = obj_mgr.try_save_object(l3, img, pool, offsets, 0, MAX_SAVE_DEPTH);
            proof {
                assert(obj_mgr.state() == save_spec(before, *img, *pool, *offsets, l3, 0, MAX_SAVE_DEPTH).0);
            }
            if obj_mgr.total_object_count > MAX_OBJECT_QUANTITY {
                break;
            }
            if i == end {
                proof {
                    assert(scan_entries(obj_mgr.state(), *img, *pool, *offsets, l2, i + 1, end as int, element_size) == obj_mgr.state());
                }
                break;
            }
            i = i + 1;
        }
    }

    /// Walks the directory (byte offsets `0..MAX_OBJECT_ARRAY` in steps of
    /// 8) and saves every object found, batch by batch; stops once the
    /// catalog counts more than `MAX_OBJECT_QUANTITY` objects. Returns the
    /// count.
    pub fn parse_array(
        &self,
        img: &MemoryImage,
        pool: &FNamePool,
        offsets: &UEOffset,
        element_size: u64,
        obj_mgr: &mut ObjectManager,
        progress: &mut Vec<ProgressPayload>,
    ) -> (r: u64)
        requires
            old(obj_mgr).wf(),
            img.wf(),
            0 < element_size <= 0x1000,
            old(obj_mgr).total_object_count <= MAX_OBJECT_QUANTITY + 1,
        ensures
            final(obj_mgr).wf(),
            final(progress)@.len() > old(progress)@.len(),
            final(progress)@.subrange(0, old(progress)@.len() as int) == old(progress)@,
            ({
                let last = final(progress)@.last();
                last.done == last.total && last.count == r && last.dynamic_total == r
            }),
            final(obj_mgr).state() == walk_array(old(obj_mgr).state(), *img, *pool, *offsets, self.base_address, element_size, 0),
            r == final(obj_mgr).total_object_count,
    {
        let batch = element_size * BATCH_ELEMENTS;
        let ghost target = walk_array(obj_mgr.state(), *img, *pool, *offsets, self.base_address, element_size, 0);
        let ghost start = progress@;
        let mut dyn_target: u64 = INITIAL_TARGET;
        let mut i: u64 = 0;
        while i < MAX_OBJECT_ARRAY
            invariant
                0 < dyn_target <= 0x4000_0000_0000_0000,
                progress@.len() >= start.len(),
                progress@.subrange(0, start.len() as int) == start,
                obj_mgr.wf(),
                img.wf(),
                0 < element_size <= 0x1000,
                batch == element_size * BATCH_ELEMENTS,
                i <= MAX_OBJECT_ARRAY + 8,
                obj_mgr.total_object_count <= MAX_OBJECT_QUANTITY + 1,
                target == walk_array(obj_mgr.state(), *img, *pool, *offsets, self.base_address, element_size, i as int),
            ensures
                obj_mgr.wf(),
                target == obj_mgr.state(),
            decreases MAX_OBJECT_ARRAY + 8 - i,
        {
            if obj_mgr.total_object_count > MAX_OBJECT_QUANTITY {
                break;
            }
            let ghost m = obj_mgr.state();
            let entry = add_wrapping(self.base_address, i);
            match img.read_ptr(entry) {
                Some(l1) => {
                    if l1 >= MIN_POINTER && img.read_ptr(l1).is_some() {
                        match img.region_size(l1) {
                            Some(rest) => {
                                if rest > 0 {
                                    let splits = rest / batch + if (rest % batch) >= batch - (rest % batch) {
                                        1u64
                                    } else {
                                        0u64
                                    };
                                    proof {
                                        assert(splits == split_count(rest as int, batch as int));
                                    }
                                    if splits > 0 {
                                        self.run_chunk(img, pool, offsets, l1, splits, batch, element_size, obj_mgr, progress, &mut dyn_target);
                                    }
                                }
                            },
                            None => {},
                        }
                    }
                },
                None => {},
            }
            i = i + 8;
        }
        let count = obj_mgr.total_object_count;
        let ghost before = progress@;
        progress.push(final_progress(1, count));
        proof {
            assert(progress@.subrange(0, start.len() as int) =~= before.subrange(0, start.len() as int));
        }
        count
    }

    /// Batches `0..splits` of the chunk at `l1`.
    fn run_chunk(
        &self,
        img: &MemoryImage,
        pool: &FNamePool,
        offsets: &UEOffset,
        l1: u64,
        splits: u64,
        batch: u64,
        element_size: u64,
        obj_mgr: &mut ObjectManager,
        progress: &mut Vec<ProgressPayload>,
        dyn_target: &mut u64,
    )
        requires
            old(obj_mgr).wf(),
            img.wf(),
            old(obj_mgr).total_object_count <= MAX_OBJECT_QUANTITY,
            0 < *old(dyn_target) <= 0x4000_0000_0000_0000,
        ensures
            0 < *final(dyn_target) <= 0x4000_0000_0000_0000,
            final(progress)@.len() >= old(progress)@.len(),
            final(progress)@.subrange(0, old(progress)@.len() as int) == old(progress)@,
            final(obj_mgr).wf(),
            final(obj_mgr).state() == run_batches(old(obj_mgr).state(), *img, *pool, *offsets, l1, 0, splits as int, batch as int, element_size),
            final(obj_mgr).total_object_count <= MAX_OBJECT_QUANTITY + 1,
    {
        let ghost target = run_batches(obj_mgr.state(), *img, *pool, *offsets, l1, 0, splits as int, batch as int, element_size);
        let mut b: u64 = 0;
        let ghost events0 = progress@;
        while b < splits
            invariant
                0 < *dyn_target <= 0x4000_0000_0000_0000,
                progress@.len() >= events0.len(),
                progress@.subrange(0, events0.len() as int) == events0,
                obj_mgr.wf(),
                img.wf(),
                b <= splits,
                obj_mgr.total_object_count <= MAX_OBJECT_QUANTITY + 1,
                target == run_batches(obj_mgr.state(), *img, *pool, *offsets, l1, b as int, splits as int, batch as int, element_size),
            ensures
                obj_mgr.wf(),
                obj_mgr.total_object_count <= MAX_OBJECT_QUANTITY + 1,
                target == obj_mgr.state(),
            decreases splits - b,
        {
            if obj_mgr.total_object_count > MAX_OBJECT_QUANTITY {
                break;
            }
            let start = mul_wrapping(b, batch);
            let end = add_wrapping(start, batch);
            Self::thread_search_all_object(obj_mgr, img, pool, offsets, l1, start, end, element_size);
            b = b + 1;
            let count = obj_mgr.total_object_count;
            *dyn_target = grow_target(*dyn_target, count);
            if report_due(b, splits, OBJECT_REPORT_EVERY) {
                let ghost before = progress@;
                progress.push(ProgressPayload { done: b, total: splits, count, dynamic_total: *dyn_target });
                proof {
                    assert(progress@.subrange(0, events0.len() as int) =~= before.subrange(0, events0.len() as int));
                }
            }
        }
    }
}

/// `(x * y) mod 2^64`.
pub fn mul_wrapping(x: u64, y: u64) -> (r: u64)
    ensures
        r == wrap64(x * y),
{
    assert((x as int) * (y as int) < 0x1_0000_0000_0000_0000 * 0x1_0000_0000_0000_0000) by (nonlinear_arith)
        requires
            x < 0x1_0000_0000_0000_0000,
            y < 0x1_0000_0000_0000_0000,
    ;
    let p = (x as u128) * (y as u128);
    let r = (p % 0x1_0000_0000_0000_0000u128) as u64;
    r
}

} // verus!
