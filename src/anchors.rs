use crate::error::ErrorKind;
use crate::memory::{opt_int, plausible, MemoryImage, MIN_POINTER};
use crate::process::Process;
use crate::scanner::{image_hit, parse_spec, Scanner};
use vstd::prelude::*;

verus! {

/// `v` reduced into the 64-bit address space.
pub open spec fn wrap64(v: int) -> int {
    v % 0x1_0000_0000_0000_0000
}

/// `(x + y) mod 2^64`.
pub fn add_wrapping(x: u64, y: u64) -> (r: u64)
    ensures
        r == wrap64(x + y),
{
    if y > u64::MAX - x {
        let r = y - (u64::MAX - x) - 1;
        assert(wrap64(x + y) == x + y - 0x1_0000_0000_0000_0000) by (nonlinear_arith)
            requires
                0x1_0000_0000_0000_0000 <= x + y < 0x2_0000_0000_0000_0000,
        ;
        r
    } else {
        assert(wrap64(x + y) == x + y) by (nonlinear_arith)
            requires
                0 <= x + y < 0x1_0000_0000_0000_0000,
        ;
        x + y
    }
}

/// `(x + d) mod 2^64` for a signed offset `d`.
pub fn offset_wrapping(x: u64, d: i64) -> (r: u64)
    ensures
        r == wrap64(x + d),
{
    if d >= 0 {
        add_wrapping(x, d as u64)
    } else {
        let m: u64 = (-(d as i128)) as u64;
        if m <= x {
            assert(wrap64(x + d) == x + d) by (nonlinear_arith)
                requires
                    0 <= x + d < 0x1_0000_0000_0000_0000,
            ;
            x - m
        } else {
            assert(wrap64(x + d) == x + d + 0x1_0000_0000_0000_0000) by (nonlinear_arith)
                requires
                    -0x1_0000_0000_0000_0000 <= x + d < 0,
            ;
            u64::MAX - (m - x) + 1
        }
    }
}

/// Where a RIP-relative operand points: the address after the instruction
/// plus the signed 32-bit displacement stored `disp_offset` bytes into it.
pub open spec fn rip_target(img: MemoryImage, ia: int, disp_offset: int, instr_len: int) -> Option<int> {
    if ia + disp_offset > u64::MAX {
        None
    } else {
        match img.i32_at(ia + disp_offset) {
            Some(disp) => Some(wrap64(ia + instr_len + disp)),
            None => None,
        }
    }
}

/// Hit `h` of a candidate resolves to a plausible address.
pub open spec fn resolves_plausibly(img: MemoryImage, h: int, disp_offset: int, instr_len: int) -> bool {
    rip_target(img, h, disp_offset, instr_len) matches Some(v) && plausible(v)
}

/// Hit `h` of candidate `c` (signature, displacement offset, instruction
/// length) inside the main module resolves plausibly.
pub open spec fn candidate_accepts(p: Process, c: (Seq<char>, u64, u64), h: int) -> bool {
    &&& image_hit(p.memory, p.main_module_base as int, p.module_end(), parse_spec(c.0), h)
    &&& resolves_plausibly(p.memory, h, c.1 as int, c.2 as int)
}

pub open spec fn candidate_succeeds(p: Process, c: (Seq<char>, u64, u64)) -> bool {
    exists|h: int| candidate_accepts(p, c, h)
}

/// The outcome of trying candidates in order: the first candidate with an
/// accepted hit wins, and within it the lowest such hit.
pub open spec fn anchor_outcome(p: Process, cands: Seq<(Seq<char>, u64, u64)>, r: Result<u64, ErrorKind>) -> bool {
    match r {
        Ok(v) => exists|ci: int, h: int|
            #![trigger cands[ci], candidate_accepts(p, cands[ci], h)]
            0 <= ci < cands.len() && candidate_accepts(p, cands[ci], h) && rip_target(
                p.memory,
                h,
                cands[ci].1 as int,
                cands[ci].2 as int,
            ) == Some(v as int) && (forall|cj: int| 0 <= cj < ci ==> !candidate_succeeds(p, #[trigger] cands[cj]))
                && (forall|h2: int| h2 < h ==> !candidate_accepts(p, cands[ci], h2)),
        Err(e) => e == ErrorKind::AnchorNotFound && forall|ci: int|
            0 <= ci < cands.len() ==> !candidate_succeeds(p, #[trigger] cands[ci]),
    }
}

pub open spec fn candidates_view(aobs: Seq<(&str, u64, u64)>) -> Seq<(Seq<char>, u64, u64)> {
    aobs.map_values(|c: (&str, u64, u64)| (c.0@, c.1, c.2))
}

pub open spec fn name_pool_candidates() -> Seq<(Seq<char>, u64, u64)> {
    seq![
        ("4C 8D 05 ? ? ? ? EB 16 48 8D 0D ? ? ? ? E8"@, 3u64, 7u64),
        ("48 8D 0D ? ? ? ? E8 ? ? ? ? ? 8B ? C6"@, 3u64, 7u64),
        ("48 83 EC 28 48 8B 05 ? ? ? ? 48 85 C0 75 ? B9 ? ? 00 00 48 89 5C 24 20 E8"@, 7u64, 11u64),
        ("C3 ? DB 48 89 1D ? ? ? ? ? ? 48 8B 5C 24 20"@, 6u64, 10u64),
        ("33 F6 89 35 ? ? ? ? 8B C6 5E"@, 4u64, 8u64),
        ("8B 07 8B 0D ? ? ? ? 8B 04 81"@, 4u64, 8u64),
    ]
}

pub open spec fn object_array_candidates() -> Seq<(Seq<char>, u64, u64)> {
    seq![
        ("44 8B ? ? ? 48 8D 05 ? ? ? ? ? ? ? ? ? 48 89 71 10"@, 8u64, 12u64),
        ("40 53 48 83 EC 20 48 8B D9 48 85 D2 74 ? 8B"@, 22u64, 26u64),
        ("4C 8B 05 ? ? ? ? 45 3B 88"@, 3u64, 7u64),
        ("4C 8B 44 24 60 8B 44 24 78 ? ? ? 48 8D"@, 15u64, 19u64),
        ("8B 44 24 04 56 8B F1 85 C0 74 17 8B 40 08"@, 16u64, 20u64),
        ("8B 15 ? ? ? ? 8B 04 82 85"@, 2u64, 6u64),
        ("56 48 83 ? ? 48 89 ? ? ? 48 89 ? 48 8D"@, 16u64, 20u64),
    ]
}

pub open spec fn world_candidates() -> Seq<(Seq<char>, u64, u64)> {
    seq![("48 8B 1D ? ? ? ? 48 85 DB 74 33 41 B0 01"@, 3u64, 7u64)]
}

/// Pointer at `a` that is above `MIN_POINTER`.
pub open spec fn ptr_above(img: MemoryImage, a: int) -> Option<int> {
    match img.ptr_at(a) {
        Some(p) => if p > MIN_POINTER {
            Some(p)
        } else {
            None
        },
        None => None,
    }
}

/// `p` can be dereferenced `n` times, each step landing above `MIN_POINTER`.
pub open spec fn deref_chain(img: MemoryImage, p: int, n: nat) -> bool
    decreases n,
{
    n == 0 || (ptr_above(img, p) matches Some(q) && deref_chain(img, q, (n - 1) as nat))
}

/// Number of probe offsets: `-0x50..=0x200` in steps of 4.
pub const PROBE_OFFSETS: u64 = 149;

/// Address probed at step `t`: `base - 0x50 + 4t`.
pub open spec fn probe_entry(base: int, t: int) -> int {
    wrap64(base - 0x50 + 4 * t)
}

/// The chain root found at step `t`: a pointer that dereferences three more times.
pub open spec fn probe_root(img: MemoryImage, base: int, t: int) -> Option<int> {
    match ptr_above(img, probe_entry(base, t)) {
        Some(p) => if deref_chain(img, p, 3) {
            Some(p)
        } else {
            None
        },
        None => None,
    }
}

/// The array start tried at step `t` and level `j` (the root, or one
/// dereference below it).
pub open spec fn probe_level(img: MemoryImage, base: int, t: int, j: int) -> Option<int> {
    match probe_root(img, base, t) {
        Some(p) => if j == 0 {
            Some(p)
        } else {
            ptr_above(img, p)
        },
        None => None,
    }
}

/// The entry at `e` leads to an object whose id (at `+0xC`) is `n` within 2.
pub open spec fn entry_matches(img: MemoryImage, e: int, n: int) -> bool {
    &&& ptr_above(img, e) matches Some(obj)
    &&& deref_chain(img, obj, 2)
    &&& img.i32_at(wrap64(obj + 0xC)) matches Some(x)
    &&& x >= 0
    &&& -2 <= x - n <= 2
}

/// With stride `k`, entries `0..=10` from `l0` carry ids `0..=10`.
pub open spec fn stride_valid(img: MemoryImage, l0: int, k: int) -> bool {
    forall|n: int| 0 <= n <= 10 ==> #[trigger] entry_matches(img, wrap64(l0 + n * k), n)
}

/// Stride tried at scan position `q`.
pub open spec fn probe_stride(q: int) -> int {
    4 * (q % 7 + 1)
}

/// Scan position `q` (offset step `q / 14`, level `(q % 14) / 7`, stride
/// `probe_stride(q)`) validates.
pub open spec fn probe_valid(img: MemoryImage, base: int, q: int) -> bool {
    probe_level(img, base, q / 14, (q % 14) / 7) matches Some(l0) && stride_valid(img, l0, probe_stride(q))
}

/// Element size chosen for the object array at `base`: the stride of the
/// first valid scan position, else `0x18`.
pub open spec fn element_size_outcome(img: MemoryImage, base: int, r: int) -> bool {
    ||| (r == 0x18 && forall|q: int| 0 <= q < PROBE_OFFSETS * 14 ==> !#[trigger] probe_valid(img, base, q))
    ||| exists|q: int|
        0 <= q < PROBE_OFFSETS * 14 && #[trigger] probe_valid(img, base, q) && r == probe_stride(q) && forall|q2: int|
            0 <= q2 < q ==> !#[trigger] probe_valid(img, base, q2)
}

pub struct BaseAddressDumper;

impl BaseAddressDumper {
    /// Resolves a RIP-relative operand: `instr_addr + instr_len` plus the
    /// signed 32-bit displacement at `instr_addr + disp_offset`.
    pub fn resolve_rip(process: &Process, instr_addr: u64, disp_offset: u64, instr_len: u64) -> (r: Result<u64, ErrorKind>)
        requires
            process.wf(),
        ensures
            match r {
                Ok(v) => rip_target(process.memory, instr_addr as int, disp_offset as int, instr_len as int) == Some(v as int),
                Err(e) => e == ErrorKind::ReadFailed && rip_target(process.memory, instr_addr as int, disp_offset as int, instr_len as int) is None,
            },
    {
        if disp_offset > u64::MAX - instr_addr {
            return Err(ErrorKind::ReadFailed);
        }
        match process.memory.read_i32(instr_addr + disp_offset) {
            Some(disp) => {
                let next = add_wrapping(instr_addr, instr_len);
                let v = offset_wrapping(next, disp as i64);
                proof {
                    assert(wrap64(wrap64(instr_addr + instr_len) + disp) == wrap64(instr_addr + instr_len + disp)) by (nonlinear_arith)
                        requires
                            0 <= instr_addr + instr_len < 0x2_0000_0000_0000_0000,
                    ;
                }
                Ok(v)
            },
            None => Err(ErrorKind::ReadFailed),
        }
    }

    /// Tries each (signature, displacement offset, instruction length) in
    /// order over the main module; the first hit that resolves to a plausible
    /// address wins.
    pub fn scan_and_resolve(process: &Process, aobs: &Vec<(&str, u64, u64)>) -> (r: Result<u64, ErrorKind>)
        requires
            process.wf(),
        ensures
            anchor_outcome(*process, candidates_view(aobs@), r),
    {
        let ghost cands = candidates_view(aobs@);
        let start = process.main_module_base;
        let end = process.main_module_end();
        let mut ci: usize = 0;
        while ci < aobs.len()
            invariant
                process.wf(),
                cands == candidates_view(aobs@),
                ci <= aobs@.len(),
                start == process.main_module_base,
                end == process.module_end(),
                forall|cj: int| 0 <= cj < ci ==> !candidate_succeeds(*process, #[trigger] cands[cj]),
            decreases aobs@.len() - ci,
        {
            let (aob, disp_offset, instr_len) = aobs[ci];
            let ghost c = cands[ci as int];
            proof {
                assert(c == (aob@, disp_offset, instr_len));
            }
            match Scanner::scan(&process.memory, start, end, aob) {
                Ok(hits) => {
                    let mut j: usize = 0;
                    while j < hits.len()
                        invariant
                            process.wf(),
                            cands == candidates_view(aobs@),
                            ci < aobs@.len(),
                            c == cands[ci as int],
                            c == (aob@, disp_offset, instr_len),
                            start == process.main_module_base,
                            end == process.module_end(),
                            forall|cj: int| 0 <= cj < ci ==> !candidate_succeeds(*process, #[trigger] cands[cj]),
                            crate::scanner::scan_hits(process.memory, start as int, end as int, parse_spec(aob@), hits@),
                            j <= hits@.len(),
                            forall|x: int| 0 <= x < j ==> !candidate_accepts(*process, c, #[trigger] hits@[x] as int),
                        decreases hits@.len() - j,
                    {
                        let h = hits[j];
                        match Self::resolve_rip(process, h, disp_offset, instr_len) {
                            Ok(v) => {
                                if v > MIN_POINTER && v < crate::memory::USER_SPACE_END {
                                    proof {
                                        assert(image_hit(process.memory, start as int, end as int, parse_spec(aob@), h as int));
                                        assert(candidate_accepts(*process, c, h as int));
                                        assert forall|h2: int| h2 < h implies !candidate_accepts(*process, c, h2) by {
                                            if candidate_accepts(*process, c, h2) {
                                                let x = choose|x: int| 0 <= x < hits@.len() && #[trigger] hits@[x] == h2;
                                                if x >= j {
                                                    assert(hits@[j as int] <= hits@[x]);
                                                }
                                            }
                                        }
                                        assert(cands[ci as int] == c);
                                    }
                                    return Ok(v);
                                }
                            },
                            Err(_) => {},
                        }
                        j = j + 1;
                    }
                    proof {
                        assert(!candidate_succeeds(*process, c)) by {
                            if candidate_succeeds(*process, c) {
                                let h2 = choose|h2: int| candidate_accepts(*process, c, h2);
                                let x = choose|x: int| 0 <= x < hits@.len() && #[trigger] hits@[x] == h2;
                            }
                        }
                    }
                },
                Err(_) => {
                    proof {
                        assert(!candidate_succeeds(*process, c)) by {
                            if candidate_succeeds(*process, c) {
                                let h2 = choose|h2: int| candidate_accepts(*process, c, h2);
                                assert(image_hit(process.memory, start as int, end as int, parse_spec(aob@), h2));
                                let q = choose|q: int| 0 <= q < process.memory.regions@.len() && crate::scanner::region_hit(#[trigger] process.memory.regions@[q], start as int, end as int, parse_spec(aob@), h2);
                            }
                        }
                    }
                },
            }
            ci = ci + 1;
        }
        Err(ErrorKind::AnchorNotFound)
    }

    /// Finds the name pool's base address.
    pub fn get_fname_pool(process: &Process) -> (r: Result<u64, ErrorKind>)
        requires
            process.wf(),
        ensures
            anchor_outcome(*process, name_pool_candidates(), r),
    {
        let aobs = vec![
            ("4C 8D 05 ? ? ? ? EB 16 48 8D 0D ? ? ? ? E8", 3u64, 7u64),
            ("48 8D 0D ? ? ? ? E8 ? ? ? ? ? 8B ? C6", 3u64, 7u64),
            ("48 83 EC 28 48 8B 05 ? ? ? ? 48 85 C0 75 ? B9 ? ? 00 00 48 89 5C 24 20 E8", 7u64, 11u64),
            ("C3 ? DB 48 89 1D ? ? ? ? ? ? 48 8B 5C 24 20", 6u64, 10u64),
            ("33 F6 89 35 ? ? ? ? 8B C6 5E", 4u64, 8u64),
            ("8B 07 8B 0D ? ? ? ? 8B 04 81", 4u64, 8u64),
        ];
        proof {
            assert(candidates_view(aobs@) =~= name_pool_candidates());
        }
        Self::scan_and_resolve(process, &aobs)
    }

    /// Finds the object array's base address.
    pub fn get_guobject_array(process: &Process) -> (r: Result<u64, ErrorKind>)
        requires
            process.wf(),
        ensures
            anchor_outcome(*process, object_array_candidates(), r),
    {
        let aobs = vec![
            ("44 8B ? ? ? 48 8D 05 ? ? ? ? ? ? ? ? ? 48 89 71 10", 8u64, 12u64),
            ("40 53 48 83 EC 20 48 8B D9 48 85 D2 74 ? 8B", 22u64, 26u64),
            ("4C 8B 05 ? ? ? ? 45 3B 88", 3u64, 7u64),
            ("4C 8B 44 24 60 8B 44 24 78 ? ? ? 48 8D", 15u64, 19u64),
            ("8B 44 24 04 56 8B F1 85 C0 74 17 8B 40 08", 16u64, 20u64),
            ("8B 15 ? ? ? ? 8B 04 82 85", 2u64, 6u64),
            ("56 48 83 ? ? 48 89 ? ? ? 48 89 ? 48 8D", 16u64, 20u64),
        ];
        proof {
            assert(candidates_view(aobs@) =~= object_array_candidates());
        }
        Self::scan_and_resolve(process, &aobs)
    }

    /// Finds the world pointer's address.
    pub fn get_gworld(process: &Process) -> (r: Result<u64, ErrorKind>)
        requires
            process.wf(),
        ensures
            anchor_outcome(*process, world_candidates(), r),
    {
        let aobs = vec![("48 8B 1D ? ? ? ? 48 85 DB 74 33 41 B0 01", 3u64, 7u64)];
        proof {
            assert(candidates_view(aobs@) =~= world_candidates());
        }
        Self::scan_and_resolve(process, &aobs)
    }

    /// Finds the object array's base address and infers its element size.
    pub fn get_guobject_array_with_element_size(process: &Process) -> (r: Result<(u64, u64), ErrorKind>)
        requires
            process.wf(),
        ensures
            match r {
                Ok((base, size)) => anchor_outcome(*process, object_array_candidates(), Ok(base))
                    && element_size_outcome(process.memory, base as int, size as int),
                Err(e) => anchor_outcome(*process, object_array_candidates(), Err(e)),
            },
    {
        let base = match Self::get_guobject_array(process) {
            Ok(b) => b,
            Err(e) => return Err(e),
        };
        let size = Self::detect_element_size(process, base);
        Ok((base, size))
    }

    /// Infers the object array's element size by probing offsets
    /// `-0x50..=0x200` around `base` for a pointer chain, then strides
    /// `4..=28` at the chain root and one level below it; the first stride
    /// under which eleven entries carry ids `0..=10` (within 2) wins, else
    /// `0x18`.
    pub fn detect_element_size(process: &Process, base: u64) -> (r: u64)
        requires
            process.wf(),
        ensures
            element_size_outcome(process.memory, base as int, r as int),
    {
        let img = &process.memory;
        let mut t: u64 = 0;
        while t < PROBE_OFFSETS
            invariant
                img.wf(),
                img == &process.memory,
                t <= PROBE_OFFSETS,
                forall|q: int| 0 <= q < 14 * t ==> !#[trigger] probe_valid(*img, base as int, q),
            decreases PROBE_OFFSETS - t,
        {
            let entry = offset_wrapping(base, 4 * (t as i64) - 0x50);
            let root = match pointer_above(img, entry) {
                Some(p) => if chain_ok(img, p, 3) {
                    Some(p)
                } else {
                    None
                },
                None => None,
            };
            proof {
                assert(entry == probe_entry(base as int, t as int));
                assert(opt_int(root) == probe_root(*img, base as int, t as int));
            }
            match root {
                None => {
                    proof {
                        assert forall|q: int| 0 <= q < 14 * (t + 1) implies !#[trigger] probe_valid(*img, base as int, q) by {
                            if q >= 14 * t {
                                lemma_position(q, t as int);
                            }
                        }
                    }
                },
                Some(p) => {
                    proof {
                        assert(ptr_above(*img, p as int) is Some);
                    }
                    let level1 = match pointer_above(img, p) {
                        Some(v) => v,
                        None => p,
                    };
                    let mut j: u64 = 0;
                    while j < 2
                        invariant
                            img.wf(),
                            img == &process.memory,
                            t < PROBE_OFFSETS,
                            j <= 2,
                            probe_root(*img, base as int, t as int) == Some(p as int),
                            ptr_above(*img, p as int) == Some(level1 as int),
                            forall|q: int| 0 <= q < 14 * t + 7 * j ==> !#[trigger] probe_valid(*img, base as int, q),
                        decreases 2 - j,
                    {
                        let l0 = if j == 0 {
                            p
                        } else {
                            level1
                        };
                        let mut kk: u64 = 0;
                        while kk < 7
                            invariant
                                img.wf(),
                                img == &process.memory,
                                t < PROBE_OFFSETS,
                                j < 2,
                                kk <= 7,
                                probe_level(*img, base as int, t as int, j as int) == Some(l0 as int),
                                forall|q: int| 0 <= q < 14 * t + 7 * j + kk ==> !#[trigger] probe_valid(*img, base as int, q),
                            decreases 7 - kk,
                        {
                            let k = 4 * (kk + 1);
                            let ok = stride_ok(img, l0, k);
                            proof {
                                let q = 14 * t + 7 * j + kk;
                                lemma_position(q as int, t as int);
                                assert((q % 14) / 7 == j && q % 7 == kk) by (nonlinear_arith)
                                    requires
                                        q == 14 * t + 7 * j + kk,
                                        q % 14 == q - 14 * t,
                                        j < 2,
                                        kk < 7,
                                ;
                                assert(probe_valid(*img, base as int, q as int) == ok);
                                assert(probe_stride(q as int) == k);
                            }
                            if ok {
                                return k;
                            }
                            kk = kk + 1;
                        }
                        j = j + 1;
                    }
                },
            }
            t = t + 1;
        }
        proof {
            assert forall|q: int| 0 <= q < PROBE_OFFSETS * 14 implies !#[trigger] probe_valid(*img, base as int, q) by {}
        }
        0x18
    }
}

proof fn lemma_position(q: int, t: int)
    requires
        0 <= t,
        14 * t <= q < 14 * t + 14,
    ensures
        q / 14 == t,
        q % 14 == q - 14 * t,
        q % 7 == (q - 14 * t) % 7,
{
    assert(q / 14 == t && q % 14 == q - 14 * t) by (nonlinear_arith)
        requires
            0 <= t,
            14 * t <= q < 14 * t + 14,
    ;
    assert(q % 7 == (q - 14 * t) % 7) by (nonlinear_arith)
        requires
            0 <= t,
            14 * t <= q,
    ;
}

/// The pointer at `a` if it is above `MIN_POINTER`.
fn pointer_above(img: &MemoryImage, a: u64) -> (r: Option<u64>)
    requires
        img.wf(),
    ensures
        opt_int(r) == ptr_above(*img, a as int),
{
    match img.read_ptr(a) {
        Some(v) => if v > MIN_POINTER {
            Some(v)
        } else {
            None
        },
        None => None,
    }
}

/// Whether `p` dereferences `n` times above `MIN_POINTER`.
fn chain_ok(img: &MemoryImage, p: u64, n: u64) -> (r: bool)
    requires
        img.wf(),
    ensures
        r == deref_chain(*img, p as int, n as nat),
{
    let mut cur = p;
    let mut i: u64 = 0;
    while i < n
        invariant
            img.wf(),
            i <= n,
            deref_chain(*img, p as int, n as nat) == deref_chain(*img, cur as int, (n - i) as nat),
        decreases n - i,
    {
        match pointer_above(img, cur) {
            Some(v) => {
                cur = v;
            },
            None => {
                return false;
            },
        }
        i = i + 1;
    }
    true
}

/// Whether the entry at `e` leads to an object whose id is `n` within 2.
fn entry_ok(img: &MemoryImage, e: u64, n: u64) -> (r: bool)
    requires
        img.wf(),
        n <= 10,
    ensures
        r == entry_matches(*img, e as int, n as int),
{
    let obj = match pointer_above(img, e) {
        Some(o) => o,
        None => return false,
    };
    if !chain_ok(img, obj, 2) {
        return false;
    }
    match img.read_i32(add_wrapping(obj, 0xC)) {
        Some(x) => x >= 0 && (x as i64) - (n as i64) <= 2 && (n as i64) - (x as i64) <= 2,
        None => false,
    }
}

/// Whether stride `k` from `l0` gives entries with ids `0..=10`.
fn stride_ok(img: &MemoryImage, l0: u64, k: u64) -> (r: bool)
    requires
        img.wf(),
        k <= 28,
    ensures
        r == stride_valid(*img, l0 as int, k as int),
{
    let mut n: u64 = 0;
    while n <= 10
        invariant
            img.wf(),
            k <= 28,
            n <= 11,
            forall|m: int| 0 <= m < n ==> #[trigger] entry_matches(*img, wrap64(l0 + m * k), m),
        decreases 11 - n,
    {
        assert(n * k <= 280) by (nonlinear_arith)
            requires
                n <= 10,
                k <= 28,
        ;
        let e = add_wrapping(l0, n * k);
        if !entry_ok(img, e, n) {
            return false;
        }
        n = n + 1;
    }
    true
}

} // verus!
