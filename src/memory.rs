use vstd::prelude::*;
use crate::text::push_char;

verus! {

/// Lowest address that is treated as a real object or block pointer.
pub const MIN_POINTER: u64 = 0x10000;

/// Upper end (exclusive) of plausible user-space addresses.
pub const USER_SPACE_END: u64 = 0x7FFF_FFFF_FFFF;

/// `0x10000 < a < 0x7FFF_FFFF_FFFF`: the band of addresses taken as real.
pub open spec fn plausible(a: int) -> bool {
    MIN_POINTER < a < USER_SPACE_END
}

/// An optional machine word as an optional integer.
pub open spec fn opt_int(o: Option<u64>) -> Option<int> {
    match o {
        Some(v) => Some(v as int),
        None => None,
    }
}

/// Little-endian value of a byte sequence.
pub open spec fn le_value(s: Seq<u8>) -> nat
    decreases s.len(),
{
    if s.len() == 0 {
        0
    } else {
        s[0] as nat + 256 * le_value(s.drop_first())
    }
}

pub open spec fn pow256(n: nat) -> nat
    decreases n,
{
    if n == 0 {
        1
    } else {
        256 * pow256((n - 1) as nat)
    }
}

/// Two's-complement reading of a 32-bit unsigned value.
pub open spec fn signed32(v: int) -> int {
    if v >= 0x8000_0000 {
        v - 0x1_0000_0000
    } else {
        v
    }
}

/// Two's-complement reading of a 64-bit unsigned value.
pub open spec fn signed64(v: int) -> int {
    if v >= 0x8000_0000_0000_0000 {
        v - 0x1_0000_0000_0000_0000
    } else {
        v
    }
}

/// The character that a byte stands for when passed through unchanged.
pub open spec fn latin1(b: u8) -> char {
    b as char
}

pub proof fn lemma_le_bound(s: Seq<u8>)
    ensures
        le_value(s) < pow256(s.len()),
    decreases s.len(),
{
    if s.len() > 0 {
        lemma_le_bound(s.drop_first());
        let r = le_value(s.drop_first());
        let p = pow256((s.len() - 1) as nat);
        assert(s[0] as nat + 256 * r < 256 * p) by (nonlinear_arith)
            requires
                r < p,
                s[0] < 256,
        ;
    }
}

proof fn lemma_le_step(s: Seq<u8>, i: int)
    requires
        0 <= i < s.len(),
    ensures
        le_value(s.subrange(i, s.len() as int)) == s[i] as nat + 256 * le_value(
            s.subrange(i + 1, s.len() as int),
        ),
{
    let t = s.subrange(i, s.len() as int);
    assert(t.drop_first() =~= s.subrange(i + 1, s.len() as int));
}

/// A contiguous run of readable bytes of the target, starting at `base`.
pub struct Region {
    pub base: u64,
    pub bytes: Vec<u8>,
}

impl Region {
    pub open spec fn end(&self) -> int {
        self.base + self.bytes@.len()
    }

    pub open spec fn holds(&self, a: int) -> bool {
        self.base <= a < self.end()
    }
}

/// A snapshot of the target's readable memory: regions sorted by address,
/// pairwise disjoint, each ending at or below 2^64.
pub struct MemoryImage {
    pub regions: Vec<Region>,
}

impl MemoryImage {
    pub open spec fn wf(&self) -> bool {
        &&& forall|i: int|
            0 <= i < self.regions@.len() ==> #[trigger] self.regions@[i].end() <= u64::MAX + 1
        &&& forall|i: int, j: int|
            #![trigger self.regions@[i], self.regions@[j]]
            0 <= i < j < self.regions@.len() ==> self.regions@[i].end() <= self.regions@[j].base
    }

    pub open spec fn covered(&self, a: int) -> bool {
        exists|i: int| 0 <= i < self.regions@.len() && #[trigger] self.regions@[i].holds(a)
    }

    /// The byte at address `a`, if some region holds it.
    pub open spec fn byte_at(&self, a: int) -> Option<u8> {
        if self.covered(a) {
            let i = choose|i: int| 0 <= i < self.regions@.len() && #[trigger] self.regions@[i].holds(a);
            Some(self.regions@[i].bytes@[a - self.regions@[i].base])
        } else {
            None
        }
    }

    /// All `n` bytes from `a` on are present.
    pub open spec fn readable(&self, a: int, n: int) -> bool {
        forall|k: int| 0 <= k < n ==> #[trigger] self.byte_at(a + k) is Some
    }

    pub open spec fn bytes_at(&self, a: int, n: int) -> Seq<u8> {
        Seq::new(n as nat, |k: int| self.byte_at(a + k)->0)
    }

    /// Little-endian unsigned value of the `n` bytes at `a`, if readable.
    pub open spec fn word_at(&self, a: int, n: int) -> Option<int> {
        if self.readable(a, n) {
            Some(le_value(self.bytes_at(a, n)) as int)
        } else {
            None
        }
    }

    /// The 8-byte pointer at `a`.
    pub open spec fn ptr_at(&self, a: int) -> Option<int> {
        self.word_at(a, 8)
    }

    /// The signed 32-bit value at `a`.
    pub open spec fn i32_at(&self, a: int) -> Option<int> {
        match self.word_at(a, 4) {
            Some(v) => Some(signed32(v)),
            None => None,
        }
    }

    /// Text at `a`: bytes up to a NUL or `max` bytes, each byte taken as one
    /// character; `None` where a byte before the end cannot be read.
    pub open spec fn cstring_at(&self, a: int, max: nat) -> Option<Seq<char>>
        decreases max,
    {
        if max == 0 {
            Some(Seq::empty())
        } else {
            match self.byte_at(a) {
                None => None,
                Some(b) => if b == 0 {
                    Some(Seq::empty())
                } else {
                    match self.cstring_at(a + 1, (max - 1) as nat) {
                        Some(rest) => Some(seq![latin1(b)] + rest),
                        None => None,
                    }
                },
            }
        }
    }

    pub fn new() -> (r: MemoryImage)
        ensures
            r.wf(),
            r.regions@.len() == 0,
    {
        MemoryImage { regions: Vec::new() }
    }

    /// Appends a region above every region already held; refused (and the
    /// image left unchanged) where it would overlap or pass the end of the
    /// address space.
    pub fn add_region(&mut self, base: u64, bytes: Vec<u8>) -> (added: bool)
        requires
            old(self).wf(),
        ensures
            final(self).wf(),
            added == ((old(self).regions@.len() == 0 || old(self).regions@.last().end() <= base)
                && base + bytes@.len() <= u64::MAX + 1),
            added ==> final(self).regions@.len() == old(self).regions@.len() + 1
                && final(self).regions@.drop_last() == old(self).regions@
                && final(self).regions@.last().base == base
                && final(self).regions@.last().bytes@ == bytes@,
            !added ==> final(self).regions@ == old(self).regions@,
    {
        let n = self.regions.len();
        if n > 0 {
            let last = &self.regions[n - 1];
            if (last.bytes.len() as u64) > u64::MAX - last.base {
                return false;
            }
            if last.base + (last.bytes.len() as u64) > base {
                return false;
            }
        }
        if bytes.len() as u128 > (u64::MAX - base) as u128 + 1 {
            return false;
        }
        let ghost old_regions = self.regions@;
        self.regions.push(Region { base, bytes });
        proof {
            assert(self.regions@.drop_last() =~= old_regions);
            assert forall|i: int, j: int|
                #![trigger self.regions@[i], self.regions@[j]]
                0 <= i < j < self.regions@.len() implies self.regions@[i].end()
                <= self.regions@[j].base by {
                if j == n {
                    if i < n - 1 {
                        assert(old_regions[i].end() <= old_regions[n - 1].base);
                    }
                }
            }
        }
        true
    }

    proof fn lemma_unique(&self, i: int, a: int)
        requires
            self.wf(),
            0 <= i < self.regions@.len(),
            self.regions@[i].holds(a),
        ensures
            self.byte_at(a) == Some(self.regions@[i].bytes@[a - self.regions@[i].base]),
    {
        let j = choose|j: int| 0 <= j < self.regions@.len() && #[trigger] self.regions@[j].holds(a);
        if j < i {
            assert(self.regions@[j].end() <= self.regions@[i].base);
        } else if i < j {
            assert(self.regions@[i].end() <= self.regions@[j].base);
        }
    }

    proof fn lemma_bases_sorted(&self, i: int, j: int)
        requires
            self.wf(),
            0 <= i <= j < self.regions@.len(),
        ensures
            self.regions@[i].base <= self.regions@[j].base,
    {
        if i < j {
            assert(self.regions@[i].end() <= self.regions@[j].base);
        }
    }

    /// Index of the region that holds `a`.
    pub fn locate(&self, a: u64) -> (r: Option<usize>)
        requires
            self.wf(),
        ensures
            match r {
                Some(i) => i < self.regions@.len() && self.regions@[i as int].holds(a as int),
                None => !self.covered(a as int),
            },
    {
        let mut lo: usize = 0;
        let mut hi: usize = self.regions.len();
        while lo < hi
            invariant
                self.wf(),
                lo <= hi <= self.regions@.len(),
                forall|i: int| 0 <= i < lo ==> #[trigger] self.regions@[i].base <= a,
                forall|i: int| hi <= i < self.regions@.len() ==> #[trigger] self.regions@[i].base > a,
            decreases hi - lo,
        {
            let mid = lo + (hi - lo) / 2;
            if self.regions[mid].base <= a {
                proof {
                    assert forall|i: int| 0 <= i < mid + 1 implies #[trigger] self.regions@[i].base
                        <= a by {
                        self.lemma_bases_sorted(i, mid as int);
                    }
                }
                lo = mid + 1;
            } else {
                proof {
                    assert forall|i: int| mid <= i < self.regions@.len() implies #[trigger] self.regions@[i].base
                        > a by {
                        self.lemma_bases_sorted(mid as int, i);
                    }
                }
                hi = mid;
            }
        }
        if lo == 0 {
            return None;
        }
        let cand = &self.regions[lo - 1];
        if (a - cand.base) < cand.bytes.len() as u64 {
            Some(lo - 1)
        } else {
            proof {
                assert forall|i: int| 0 <= i < self.regions@.len() implies !#[trigger] self.regions@[i].holds(a as int) by {
                    if i < lo - 1 {
                        assert(self.regions@[i].end() <= self.regions@[lo - 1].base);
                    }
                }
            }
            None
        }
    }

    /// The byte at `a`.
    pub fn read_u8(&self, a: u64) -> (r: Option<u8>)
        requires
            self.wf(),
        ensures
            r == self.byte_at(a as int),
    {
        match self.locate(a) {
            Some(i) => {
                let reg = &self.regions[i];
                proof {
                    self.lemma_unique(i as int, a as int);
                }
                let off = a - reg.base;
                let len: usize = reg.bytes.len();
                assert(off < len);
                Some(reg.bytes[off as usize])
            },
            None => None,
        }
    }

    /// The `n` bytes from `a` on; `None` unless every one of them is present.
    pub fn read_bytes(&self, a: u64, n: usize) -> (r: Option<Vec<u8>>)
        requires
            self.wf(),
        ensures
            match r {
                Some(v) => self.readable(a as int, n as int) && v@ == self.bytes_at(a as int, n as int),
                None => !self.readable(a as int, n as int),
            },
    {
        let mut out: Vec<u8> = Vec::new();
        let mut k: usize = 0;
        while k < n
            invariant
                self.wf(),
                k <= n,
                out@.len() == k,
                forall|j: int| 0 <= j < k ==> #[trigger] self.byte_at(a + j) == Some(out@[j]),
            decreases n - k,
        {
            if k as u64 > u64::MAX - a {
                proof {
                    self.lemma_beyond_end((a + k) as int);
                }
                return None;
            }
            match self.read_u8(a + k as u64) {
                Some(b) => out.push(b),
                None => {
                    return None;
                },
            }
            k = k + 1;
        }
        proof {
            assert(out@ =~= self.bytes_at(a as int, n as int));
        }
        Some(out)
    }

    /// Nothing at or above 2^64 can be read.
    pub proof fn lemma_unreadable_beyond_end(&self, a: int, n: int)
        requires
            self.wf(),
            a > u64::MAX,
            n >= 1,
        ensures
            !self.readable(a, n),
    {
        self.lemma_beyond_end(a);
        assert(self.byte_at(a + 0) is None);
    }

    /// Text at or above 2^64 cannot be read.
    pub proof fn lemma_cstring_beyond_end(&self, a: int, max: nat)
        requires
            self.wf(),
            a > u64::MAX,
            max >= 1,
        ensures
            self.cstring_at(a, max) is None,
    {
        self.lemma_beyond_end(a);
    }

    proof fn lemma_beyond_end(&self, a: int)
        requires
            self.wf(),
            a > u64::MAX,
        ensures
            self.byte_at(a) is None,
    {
        if self.covered(a) {
            let i = choose|i: int| 0 <= i < self.regions@.len() && #[trigger] self.regions@[i].holds(a);
            assert(self.regions@[i].end() <= u64::MAX + 1);
        }
    }

    /// Little-endian value of the `n` bytes at `a`.
    pub fn read_le(&self, a: u64, n: usize) -> (r: Option<u64>)
        requires
            self.wf(),
            n <= 8,
        ensures
            match r {
                Some(v) => self.word_at(a as int, n as int) == Some(v as int),
                None => self.word_at(a as int, n as int) is None,
            },
    {
        let bytes = match self.read_bytes(a, n) {
            Some(b) => b,
            None => return None,
        };
        let ghost s = bytes@;
        let mut v: u64 = 0;
        let mut i: usize = n;
        proof {
            assert(s.subrange(n as int, n as int) =~= Seq::<u8>::empty());
        }
        while i > 0
            invariant
                i <= n <= 8,
                s == bytes@,
                s.len() == n,
                v as nat == le_value(s.subrange(i as int, n as int)),
                v < pow256((n - i) as nat),
            decreases i,
        {
            proof {
                lemma_le_step(s, i - 1);
                lemma_pow256_le8((n - i + 1) as nat);
                let p = pow256((n - i) as nat);
                let b = bytes@[i - 1];
                assert(v * 256 + b < p * 256) by (nonlinear_arith)
                    requires
                        v < p,
                        b < 256,
                ;
            }
            v = v * 256 + bytes[i - 1] as u64;
            i = i - 1;
        }
        proof {
            assert(s.subrange(0, n as int) =~= s);
        }
        Some(v)
    }

    /// The 8-byte pointer at `a`.
    pub fn read_ptr(&self, a: u64) -> (r: Option<u64>)
        requires
            self.wf(),
        ensures
            match r {
                Some(v) => self.ptr_at(a as int) == Some(v as int),
                None => self.ptr_at(a as int) is None,
            },
    {
        self.read_le(a, 8)
    }

    /// The 16-bit value at `a`.
    pub fn read_u16(&self, a: u64) -> (r: Option<u16>)
        requires
            self.wf(),
        ensures
            match r {
                Some(v) => self.word_at(a as int, 2) == Some(v as int),
                None => self.word_at(a as int, 2) is None,
            },
    {
        match self.read_le(a, 2) {
            Some(v) => {
                proof {
                    lemma_le_bound(self.bytes_at(a as int, 2));
                    reveal_with_fuel(pow256, 3);
                }
                Some(v as u16)
            },
            None => None,
        }
    }

    /// The signed 32-bit value at `a`.
    pub fn read_i32(&self, a: u64) -> (r: Option<i32>)
        requires
            self.wf(),
        ensures
            match r {
                Some(v) => self.i32_at(a as int) == Some(v as int),
                None => self.i32_at(a as int) is None,
            },
    {
        match self.read_le(a, 4) {
            Some(v) => {
                proof {
                    lemma_le_bound(self.bytes_at(a as int, 4));
                    reveal_with_fuel(pow256, 5);
                }
                let w = v as i64;
                if w >= 0x8000_0000 {
                    Some((w - 0x1_0000_0000) as i32)
                } else {
                    Some(w as i32)
                }
            },
            None => None,
        }
    }

    /// The signed 64-bit value at `a`.
    pub fn read_i64(&self, a: u64) -> (r: Option<i64>)
        requires
            self.wf(),
        ensures
            match r {
                Some(v) => match self.word_at(a as int, 8) {
                    Some(w) => v as int == signed64(w),
                    None => false,
                },
                None => self.word_at(a as int, 8) is None,
            },
    {
        match self.read_le(a, 8) {
            Some(v) => {
                if v >= 0x8000_0000_0000_0000 {
                    Some(((v - 0x8000_0000_0000_0000) as i64) + i64::MIN)
                } else {
                    Some(v as i64)
                }
            },
            None => None,
        }
    }

    /// Bytes from `a` to the end of the region holding it.
    pub open spec fn region_rest(&self, a: int) -> Option<int> {
        if self.covered(a) {
            let i = choose|i: int| 0 <= i < self.regions@.len() && #[trigger] self.regions@[i].holds(a);
            Some(self.regions@[i].end() - a)
        } else {
            None
        }
    }

    /// Size of the rest of the region holding `a`, from `a` on.
    pub fn region_size(&self, a: u64) -> (r: Option<u64>)
        requires
            self.wf(),
        ensures
            opt_int(r) == self.region_rest(a as int),
    {
        match self.locate(a) {
            Some(i) => {
                let reg = &self.regions[i];
                proof {
                    let j = choose|j: int| 0 <= j < self.regions@.len() && #[trigger] self.regions@[j].holds(a as int);
                    if j < i {
                        assert(self.regions@[j].end() <= self.regions@[i as int].base);
                    } else if i < j {
                        assert(self.regions@[i as int].end() <= self.regions@[j].base);
                    }
                }
                Some(reg.bytes.len() as u64 - (a - reg.base))
            },
            None => None,
        }
    }

    /// Text at `a`, read byte by byte until a NUL or `max` bytes.
    pub fn read_cstring(&self, a: u64, max: usize) -> (r: Option<String>)
        requires
            self.wf(),
        ensures
            match r {
                Some(s) => self.cstring_at(a as int, max as nat) == Some(s@),
                None => self.cstring_at(a as int, max as nat) is None,
            },
    {
        let mut out = String::new();
        let mut count: usize = 0;
        loop
            invariant
                self.wf(),
                count <= max,
                self.cstring_at(a as int, max as nat) == match self.cstring_at(
                    a + count,
                    (max - count) as nat,
                ) {
                    Some(rest) => Some(out@ + rest),
                    None => None::<Seq<char>>,
                },
            decreases max - count,
        {
            if count >= max {
                proof {
                    assert(out@ + Seq::<char>::empty() =~= out@);
                }
                return Some(out);
            }
            if count as u64 > u64::MAX - a {
                proof {
                    self.lemma_beyond_end(a + count);
                }
                return None;
            }
            match self.read_u8(a + count as u64) {
                Some(b) => {
                    if b == 0 {
                        proof {
                            assert(out@ + Seq::<char>::empty() =~= out@);
                        }
                        return Some(out);
                    }
                    let ghost before = out@;
                    push_char(&mut out, b as char);
                    proof {
                        let rest = self.cstring_at(a + count + 1, (max - count - 1) as nat);
                        if let Some(r) = rest {
                            assert(before + (seq![latin1(b)] + r) =~= out@ + r);
                        }
                    }
                    count = count + 1;
                },
                None => {
                    return None;
                },
            }
        }
    }
}

proof fn lemma_pow256_le8(n: nat)
    requires
        n <= 8,
    ensures
        pow256(n) <= 0x1_0000_0000_0000_0000,
{
    reveal_with_fuel(pow256, 9);
    if n == 0 {
    } else if n == 1 {
    } else if n == 2 {
    } else if n == 3 {
    } else if n == 4 {
    } else if n == 5 {
    } else if n == 6 {
    } else if n == 7 {
    } else {
    }
}

} // verus!
