use crate::anchors::{add_wrapping, wrap64};
use crate::error::ErrorKind;
use crate::memory::{latin1, opt_int, MemoryImage, MIN_POINTER};
use crate::progress::{final_progress, grow_target, report_due, ProgressPayload, INITIAL_TARGET};
use crate::text::{chars_of, contains, has_substring};
use vstd::prelude::*;

verus! {

/// Whether the bytes are well-formed UTF-8, as `std::str::from_utf8` decides.
pub uninterp spec fn valid_utf8(b: Seq<u8>) -> bool;

/// Relies on `std::str::from_utf8`: it succeeds exactly on well-formed UTF-8.
#[verifier::external_body]
fn is_utf8(b: &[u8]) -> (r: bool)
    ensures
        r == valid_utf8(b@),
{
    std::str::from_utf8(b).is_ok()
}

/// Largest valid name length.
pub const MAX_NAME_LEN: u64 = 200;

/// Ids looked up per progress batch.
pub const NAME_BATCH: u64 = 0x200;

/// A names-progress report is due every this many batches.
pub const NAME_REPORT_EVERY: u64 = 10;

/// Block-pointer table entries examined when counting blocks.
pub const MAX_BLOCKS: u64 = 500;

/// Address of the record of name `id`: block pointer `id >> 16` (read from
/// the table at `base + 0x10`) plus twice the offset `id & 0xFFFF`.
pub open spec fn name_entry(img: MemoryImage, base: int, id: u32) -> Option<int> {
    match img.ptr_at(wrap64(base + 0x10 + (id / 0x10000) * 8)) {
        Some(bp) => Some(wrap64(bp + (id % 0x10000) * 2)),
        None => None,
    }
}

/// Payload length held in the record header at `entry` (`header >> 6`).
pub open spec fn name_len(img: MemoryImage, entry: int) -> Option<int> {
    match img.word_at(entry, 2) {
        Some(h) => Some(h / 64),
        None => None,
    }
}

/// Offset `s` is confirmed for the record at `entry`: the `len` bytes at
/// `entry + s` are UTF-8 text containing `ByteProperty`.
pub open spec fn probe_ok(img: MemoryImage, entry: int, len: int, s: int) -> bool {
    &&& img.readable(entry + s, len)
    &&& valid_utf8(img.bytes_at(entry + s, len))
    &&& contains(img.bytes_at(entry + s, len).map_values(|b: u8| latin1(b)), "ByteProperty"@)
}

/// First offset in `[s, 0x20)` confirmed for the record at `entry`.
pub open spec fn first_probe(img: MemoryImage, entry: int, len: int, s: int) -> Option<u64>
    decreases 0x20 - s,
{
    if s >= 0x20 || s < 0 {
        None
    } else if probe_ok(img, entry, len, s) {
        Some(s as u64)
    } else {
        first_probe(img, entry, len, s + 1)
    }
}

/// Ids 1..=6 with lengths 11..=14 are where `ByteProperty` is looked for.
pub open spec fn in_probe_window(id: u32, len: int) -> bool {
    1 <= id <= 6 && 11 <= len <= 14
}

/// The string offset after a lookup of `id` starting from `offset`: kept if
/// already known, else discovered from this record where it qualifies.
pub open spec fn offset_after(img: MemoryImage, base: int, offset: Option<u64>, id: u32) -> Option<u64> {
    if offset is Some {
        offset
    } else {
        match name_entry(img, base, id) {
            Some(entry) => match name_len(img, entry) {
                Some(len) => if 1 <= len <= MAX_NAME_LEN && in_probe_window(id, len) {
                    first_probe(img, entry, len, 2)
                } else {
                    None
                },
                None => None,
            },
            None => None,
        }
    }
}

/// What a lookup of `id` returns with string offset `s` held fixed.
pub open spec fn fixed_result(img: MemoryImage, base: int, s: Option<u64>, id: u32) -> Result<Seq<char>, ErrorKind> {
    match name_entry(img, base, id) {
        None => Err(ErrorKind::ReadFailed),
        Some(entry) => match name_len(img, entry) {
            None => Err(ErrorKind::ReadFailed),
            Some(len) => if !(1 <= len <= MAX_NAME_LEN) {
                Err(ErrorKind::InvalidNameLength)
            } else {
                match s {
                    None => Err(ErrorKind::NamePoolUninitialised),
                    Some(s) => match img.cstring_at(entry + s, len as nat) {
                        Some(t) => Ok(t),
                        None => Err(ErrorKind::ReadFailed),
                    },
                }
            },
        },
    }
}

/// What a lookup of `id` returns, starting from string offset `offset`.
pub open spec fn name_result(img: MemoryImage, base: int, offset: Option<u64>, id: u32) -> Result<
    Seq<char>,
    ErrorKind,
> {
    fixed_result(img, base, offset_after(img, base, offset, id), id)
}

/// Block-table entry `i` points at a readable block.
pub open spec fn block_ok(img: MemoryImage, base: int, i: int) -> bool {
    match img.ptr_at(wrap64(base + 0x10 + i * 8)) {
        Some(p) => p > MIN_POINTER && img.ptr_at(p) is Some,
        None => false,
    }
}

/// Blocks counted from entry `i` on, given `count` so far and `nulls`
/// failed entries in a row; counting stops at three in a row or at
/// `MAX_BLOCKS` entries.
pub open spec fn block_count(img: MemoryImage, base: int, i: int, count: nat, nulls: nat) -> nat
    decreases MAX_BLOCKS - i,
{
    if i >= MAX_BLOCKS {
        count
    } else {
        let ok = block_ok(img, base, i);
        let c2 = if ok {
            count + 1
        } else {
            count
        };
        let n2 = if ok {
            0
        } else {
            nulls + 1
        };
        if n2 >= 3 {
            c2
        } else {
            block_count(img, base, i + 1, c2, n2)
        }
    }
}

/// Ids in `[lo, hi)` whose lookup succeeds, looked up in order with the
/// string offset carried from one lookup to the next.
pub open spec fn names_found(img: MemoryImage, base: int, offset: Option<u64>, lo: int, hi: int) -> nat
    decreases hi - lo,
{
    if lo >= hi || lo < 0 || lo > u32::MAX {
        0
    } else {
        let id = lo as u32;
        let ok: nat = if name_result(img, base, offset, id) is Ok {
            1
        } else {
            0
        };
        ok + names_found(img, base, offset_after(img, base, offset, id), lo + 1, hi)
    }
}

/// Offset carried after looking up ids `[lo, hi)` in order.
pub open spec fn offset_through(img: MemoryImage, base: int, offset: Option<u64>, lo: int, hi: int) -> Option<u64>
    decreases hi - lo,
{
    if lo >= hi || lo < 0 || lo > u32::MAX {
        offset
    } else {
        offset_through(img, base, offset_after(img, base, offset, lo as u32), lo + 1, hi)
    }
}

/// The interned-string pool at `base_address`; `string_offset` is the
/// payload offset inside a record once discovered.
pub struct FNamePool {
    pub base_address: u64,
    pub string_offset: Option<u64>,
}

impl FNamePool {
    pub fn new(base_address: u64) -> (r: FNamePool)
        ensures
            r.base_address == base_address,
            r.string_offset is None,
    {
        FNamePool { base_address, string_offset: None }
    }

    /// The name with the given id. Before the string offset is known, a
    /// lookup of an id in the probe window tries to discover it.
    pub fn get_name(&mut self, img: &MemoryImage, id: u32) -> (r: Result<String, ErrorKind>)
        requires
            img.wf(),
        ensures
            final(self).base_address == old(self).base_address,
            final(self).string_offset == offset_after(*img, old(self).base_address as int, old(self).string_offset, id),
            match (r, name_result(*img, old(self).base_address as int, old(self).string_offset, id)) {
                (Ok(s), Ok(t)) => s@ == t,
                (Err(e), Err(f)) => e == f,
                _ => false,
            },
    {
        if self.string_offset.is_none() {
            self.string_offset = self.offset_for(img, id);
        }
        self.lookup(img, id)
    }

    /// Tries the ids of the probe window (1..=6) in order until the string
    /// offset is known.
    pub fn discover_string_offset(&mut self, img: &MemoryImage)
        requires
            img.wf(),
        ensures
            final(self).base_address == old(self).base_address,
            final(self).string_offset == offset_through(*img, old(self).base_address as int, old(self).string_offset, 1, 7),
    {
        let ghost base = self.base_address as int;
        let ghost offset0 = self.string_offset;
        let mut id: u32 = 1;
        while id <= 6
            invariant
                img.wf(),
                self.base_address == base,
                1 <= id <= 7,
                offset_through(*img, base, offset0, 1, 7) == offset_through(*img, base, self.string_offset, id as int, 7),
            decreases 7 - id,
        {
            if self.string_offset.is_none() {
                self.string_offset = self.offset_for(img, id);
            }
            id = id + 1;
        }
    }

    /// Address of the record of `id`.
    fn entry_of(&self, img: &MemoryImage, id: u32) -> (r: Option<u64>)
        requires
            img.wf(),
        ensures
            opt_int(r) == name_entry(*img, self.base_address as int, id),
    {
        let block = (id / 0x10000) as u64;
        let off = (id % 0x10000) as u64;
        let table = add_wrapping(add_wrapping(self.base_address, 0x10), block * 8);
        proof {
            assert(wrap64(wrap64(self.base_address + 0x10) + block * 8) == wrap64(self.base_address + 0x10 + block * 8)) by (nonlinear_arith)
                requires
                    0 <= self.base_address + 0x10 < 0x2_0000_0000_0000_0000,
            ;
        }
        match img.read_ptr(table) {
            Some(bp) => Some(add_wrapping(bp, off * 2)),
            None => None,
        }
    }

    /// The string offset a lookup of `id` would discover, starting from none.
    fn offset_for(&self, img: &MemoryImage, id: u32) -> (r: Option<u64>)
        requires
            img.wf(),
        ensures
            r == offset_after(*img, self.base_address as int, None, id),
    {
        let entry = match self.entry_of(img, id) {
            Some(e) => e,
            None => return None,
        };
        let header = match img.read_u16(entry) {
            Some(h) => h,
            None => return None,
        };
        let len = (header / 64) as u64;
        if 1 <= len && len <= MAX_NAME_LEN && 1 <= id && id <= 6 && 11 <= len && len <= 14 {
            Self::discover(img, entry, len)
        } else {
            None
        }
    }

    /// The name with the given id under the string offset already known;
    /// nothing is discovered.
    pub fn lookup(&self, img: &MemoryImage, id: u32) -> (r: Result<String, ErrorKind>)
        requires
            img.wf(),
        ensures
            match (r, fixed_result(*img, self.base_address as int, self.string_offset, id)) {
                (Ok(s), Ok(t)) => s@ == t,
                (Err(e), Err(f)) => e == f,
                _ => false,
            },
    {
        let entry = match self.entry_of(img, id) {
            Some(e) => e,
            None => return Err(ErrorKind::ReadFailed),
        };
        let header = match img.read_u16(entry) {
            Some(h) => h,
            None => return Err(ErrorKind::ReadFailed),
        };
        let len = (header / 64) as u64;
        if len < 1 || len > MAX_NAME_LEN {
            return Err(ErrorKind::InvalidNameLength);
        }
        let s = match self.string_offset {
            Some(s) => s,
            None => return Err(ErrorKind::NamePoolUninitialised),
        };
        if s > u64::MAX - entry {
            proof {
                img.lemma_cstring_beyond_end(entry + s, len as nat);
            }
            return Err(ErrorKind::ReadFailed);
        }
        match img.read_cstring(entry + s, len as usize) {
            Some(t) => Ok(t),
            None => Err(ErrorKind::ReadFailed),
        }
    }

    /// First offset in `[2, 0x20)` at which the record at `entry` holds
    /// UTF-8 text containing `ByteProperty`.
    fn discover(img: &MemoryImage, entry: u64, len: u64) -> (r: Option<u64>)
        requires
            img.wf(),
            1 <= len <= MAX_NAME_LEN,
        ensures
            r == first_probe(*img, entry as int, len as int, 2),
    {
        let needle = chars_of("ByteProperty");
        let mut s: u64 = 2;
        while s < 0x20
            invariant
                img.wf(),
                2 <= s <= 0x20,
                1 <= len <= MAX_NAME_LEN,
                needle@ == "ByteProperty"@,
                first_probe(*img, entry as int, len as int, 2) == first_probe(*img, entry as int, len as int, s as int),
            decreases 0x20 - s,
        {
            let ok = if s > u64::MAX - entry {
                proof {
                    img.lemma_unreadable_beyond_end(entry + s, len as int);
                }
                false
            } else {
                match img.read_bytes(entry + s, len as usize) {
                    Some(bytes) => {
                        if is_utf8(bytes.as_slice()) {
                            let text = latin1_chars(&bytes);
                            has_substring(&text, &needle)
                        } else {
                            false
                        }
                    },
                    None => false,
                }
            };
            if ok {
                return Some(s);
            }
            s = s + 1;
        }
        None
    }

    /// Counts the block pointers (stopping after three failures in a row or
    /// `MAX_BLOCKS` entries), then looks up every id the blocks can hold in
    /// order. Returns the block count and the number of ids that resolved.
    pub fn parse_pool(&mut self, img: &MemoryImage, progress: &mut Vec<ProgressPayload>) -> (r: (u32, u32))
        requires
            img.wf(),
        ensures
            final(progress)@.len() > old(progress)@.len(),
            final(progress)@.subrange(0, old(progress)@.len() as int) == old(progress)@,
            ({
                let last = final(progress)@.last();
                last.done == last.total && last.count == r.1 && last.dynamic_total == r.1
            }),
            forall|i: int| old(progress)@.len() <= i < final(progress)@.len() ==> (#[trigger] final(progress)@[i]).done
                <= final(progress)@[i].total,
            final(self).base_address == old(self).base_address,
            r.0 == block_count(*img, old(self).base_address as int, 0, 0, 0),
            r.1 == names_found(*img, old(self).base_address as int, old(self).string_offset, 0, r.0 * 0x10000),
            final(self).string_offset == offset_through(*img, old(self).base_address as int, old(self).string_offset, 0, r.0 * 0x10000),
    {
        let blocks = Self::count_blocks(img, self.base_address);
        let total: u64 = blocks * 0x10000;
        let ghost base = self.base_address as int;
        let ghost offset0 = self.string_offset;
        let mut id: u64 = 0;
        let mut found: u64 = 0;
        let batches: u64 = total / NAME_BATCH;
        let mut done: u64 = 0;
        let mut target: u64 = INITIAL_TARGET;
        let ghost start = progress@;
        while id < total
            invariant
                img.wf(),
                self.base_address == base,
                batches == total / NAME_BATCH,
                done == id / NAME_BATCH,
                0 < target <= 0x4000_0000_0000_0000,
                progress@.len() >= start.len(),
                progress@.subrange(0, start.len() as int) == start,
                forall|i: int| start.len() <= i < progress@.len() ==> (#[trigger] progress@[i]).done <= progress@[i].total,
                total == blocks * 0x10000,
                blocks <= MAX_BLOCKS,
                id <= total,
                found <= id,
                names_found(*img, base, offset0, 0, total as int) == found + names_found(*img, base, self.string_offset, id as int, total as int),
                offset_through(*img, base, offset0, 0, total as int) == offset_through(*img, base, self.string_offset, id as int, total as int),
            decreases total - id,
        {
            let res = self.get_name(img, id as u32);
            if res.is_ok() {
                found = found + 1;
            }
            id = id + 1;
            if id % NAME_BATCH == 0 {
                done = done + 1;
                target = grow_target(target, found);
                if report_due(done, batches, NAME_REPORT_EVERY) {
                    let ghost before = progress@;
                    assert(done <= batches) by (nonlinear_arith)
                        requires
                            done == id / NAME_BATCH,
                            id <= total,
                            batches == total / NAME_BATCH,
                    ;
                    progress.push(ProgressPayload { done, total: batches, count: found, dynamic_total: target });
                    proof {
                        assert(progress@.subrange(0, start.len() as int) =~= before.subrange(0, start.len() as int));
                    }
                }
            }
        }
        let ghost before = progress@;
        progress.push(final_progress(batches, found));
        proof {
            assert(progress@.subrange(0, start.len() as int) =~= before.subrange(0, start.len() as int));
        }
        (blocks as u32, found as u32)
    }

    /// Number of block pointers before three failures in a row.
    fn count_blocks(img: &MemoryImage, base: u64) -> (r: u64)
        requires
            img.wf(),
        ensures
            r == block_count(*img, base as int, 0, 0, 0),
            r <= MAX_BLOCKS,
    {
        let mut i: u64 = 0;
        let mut count: u64 = 0;
        let mut nulls: u64 = 0;
        while i < MAX_BLOCKS
            invariant
                img.wf(),
                i <= MAX_BLOCKS,
                count <= i,
                nulls < 3,
                block_count(*img, base as int, 0, 0, 0) == block_count(*img, base as int, i as int, count as nat, nulls as nat),
            decreases MAX_BLOCKS - i,
        {
            let addr = add_wrapping(add_wrapping(base, 0x10), i * 8);
            proof {
                assert(wrap64(wrap64(base + 0x10) + i * 8) == wrap64(base + 0x10 + i * 8)) by (nonlinear_arith)
                    requires
                        0 <= base + 0x10 < 0x2_0000_0000_0000_0000,
                ;
            }
            let ok = match img.read_ptr(addr) {
                Some(p) => p > MIN_POINTER && img.read_ptr(p).is_some(),
                None => false,
            };
            if ok {
                count = count + 1;
                nulls = 0;
            } else {
                nulls = nulls + 1;
            }
            i = i + 1;
            if nulls >= 3 {
                return count;
            }
        }
        count
    }
}

/// Each byte taken as the character of the same code.
fn latin1_chars(b: &Vec<u8>) -> (r: Vec<char>)
    ensures
        r@ == b@.map_values(|x: u8| latin1(x)),
{
    let mut out: Vec<char> = Vec::new();
    let mut i: usize = 0;
    while i < b.len()
        invariant
            i <= b@.len(),
            out@ == b@.subrange(0, i as int).map_values(|x: u8| latin1(x)),
        decreases b@.len() - i,
    {
        out.push(b[i] as char);
        proof {
            assert(out@ =~= b@.subrange(0, i + 1).map_values(|x: u8| latin1(x)));
        }
        i = i + 1;
    }
    proof {
        assert(b@.subrange(0, b@.len() as int) =~= b@);
    }
    out
}

/// Looking a name up twice gives the same result both times, and the second
/// lookup leaves the string offset as the first one left it.
pub proof fn lemma_get_name_idempotent(img: MemoryImage, base: int, offset: Option<u64>, id: u32)
    ensures
        offset_after(img, base, offset_after(img, base, offset, id), id) == offset_after(img, base, offset, id),
        name_result(img, base, offset_after(img, base, offset, id), id) == name_result(img, base, offset, id),
{
}

} // verus!
