use crate::memory::{MemoryImage, USER_SPACE_END};
use crate::name_pool::FNamePool;
use crate::objects::{save_spec, CacheState, ObjectManager};
use crate::offsets::UEOffset;
use crate::process::Process;
use crate::scanner::{
    digits_value, format_signature, hex_char, hex_digit, hex_upper, lemma_signature_round_trip,
    scan_hits, Scanner,
};
use crate::text::{chars_of, push_char, same_text};
use vstd::prelude::*;
use vstd::string::*;

verus! {

/// Upper-case hex digits of `v`, most significant first, no leading zeros.
pub open spec fn hex_digits(v: nat) -> Seq<char>
    decreases v,
{
    if v < 16 {
        seq![hex_char(v)]
    } else {
        hex_digits(v / 16) + seq![hex_char(v % 16)]
    }
}

/// `0x` followed by the upper-case hex digits of `v`.
pub open spec fn hex_text(v: u64) -> Seq<char> {
    seq!['0', 'x'] + hex_digits(v as nat)
}

pub(crate) fn push_hex(out: &mut String, v: u64)
    ensures
        final(out)@ == old(out)@ + hex_digits(v as nat),
    decreases v,
{
    if v >= 16 {
        push_hex(out, v / 16);
    }
    let ghost mid = out@;
    push_char(out, hex_upper((v % 16) as u8));
    proof {
        if v >= 16 {
            assert(out@ =~= old(out)@ + hex_digits(v as nat));
        } else {
            assert(out@ =~= old(out)@ + hex_digits(v as nat));
        }
    }
}

/// An address written as `0x` and upper-case hex digits.
pub fn format_address(v: u64) -> (r: String)
    ensures
        r@ == hex_text(v),
{
    let mut out = String::new();
    push_char(&mut out, '0');
    push_char(&mut out, 'x');
    push_hex(&mut out, v);
    proof {
        assert(out@ =~= hex_text(v));
    }
    out
}

/// `s` with every leading `0x` removed.
pub open spec fn strip_hex_prefix(s: Seq<char>) -> Seq<char>
    decreases s.len(),
{
    if s.len() >= 2 && s[0] == '0' && s[1] == 'x' {
        strip_hex_prefix(s.subrange(2, s.len() as int))
    } else {
        s
    }
}

/// The address a hex string names: leading `0x` prefixes removed, then an
/// optional `+` and at least one hex digit, the value below 2^64.
pub open spec fn address_of_text(s: Seq<char>) -> Option<u64> {
    let t = strip_hex_prefix(s);
    let digits = if t.len() > 0 && t[0] == '+' {
        t.drop_first()
    } else {
        t
    };
    if digits.len() == 0 {
        None
    } else {
        match digits_value(digits) {
            Some(v) => if v <= u64::MAX {
                Some(v as u64)
            } else {
                None
            },
            None => None,
        }
    }
}

proof fn lemma_digits_prefix_value(t: Seq<char>, i: int)
    requires
        0 <= i <= t.len(),
    ensures
        digits_value(t) matches Some(w) ==> (digits_value(t.subrange(0, i)) matches Some(v) && v <= w),
    decreases t.len(),
{
    if i == t.len() {
        assert(t.subrange(0, i) =~= t);
    } else {
        lemma_digits_prefix_value(t.drop_last(), i);
        assert(t.drop_last().subrange(0, i) =~= t.subrange(0, i));
    }
}

/// Parses an address written in hex (see `address_of_text`).
pub fn parse_address(s: &str) -> (r: Option<u64>)
    ensures
        r == address_of_text(s@),
{
    let v = chars_of(s);
    let mut start: usize = 0;
    proof {
        assert(v@.subrange(0, v@.len() as int) =~= v@);
    }
    while v.len() >= 2 && start <= v.len() - 2 && v[start] == '0' && v[start + 1] == 'x'
        invariant
            start <= v@.len(),
            strip_hex_prefix(v@) == strip_hex_prefix(v@.subrange(start as int, v@.len() as int)),
        decreases v@.len() - start,
    {
        proof {
            let t = v@.subrange(start as int, v@.len() as int);
            assert(t.subrange(2, t.len() as int) =~= v@.subrange(start + 2, v@.len() as int));
        }
        start = start + 2;
    }
    let ghost t = v@.subrange(start as int, v@.len() as int);
    proof {
        assert(strip_hex_prefix(t) == t);
    }
    let n = v.len();
    let first: usize = if start < n && v[start] == '+' {
        start + 1
    } else {
        start
    };
    let ghost digits = v@.subrange(first as int, n as int);
    proof {
        if first == start + 1 {
            assert(digits =~= t.drop_first());
        } else {
            assert(digits =~= t);
        }
    }
    if first == n {
        return None;
    }
    let mut value: u64 = 0;
    let mut k: usize = first;
    while k < n
        invariant
            first <= k <= n == v@.len(),
            first < n,
            digits == v@.subrange(first as int, n as int),
            digits == (if t.len() > 0 && t[0] == '+' { t.drop_first() } else { t }),
            strip_hex_prefix(s@) == t,
            v@ == s@,
            digits_value(digits.subrange(0, k - first)) == Some(value as nat),
        decreases n - k,
    {
        let ghost pre = digits.subrange(0, k - first + 1);
        proof {
            assert(pre.drop_last() =~= digits.subrange(0, k - first));
            assert(pre.last() == v@[k as int]);
        }
        let d: u64 = match hex_value(v[k]) {
            Some(d) => d,
            None => {
                proof {
                    lemma_digits_prefix_value(digits, k - first + 1);
                }
                return None;
            },
        };
        if value > (u64::MAX - d) / 16 {
            proof {
                assert(16 * value + d > u64::MAX) by (nonlinear_arith)
                    requires
                        value > (u64::MAX - d) / 16,
                        d < 16,
                ;
                lemma_digits_prefix_value(digits, k - first + 1);
            }
            return None;
        }
        proof {
            assert(16 * value + d <= u64::MAX) by (nonlinear_arith)
                requires
                    value <= (u64::MAX - d) / 16,
                    d < 16,
            ;
        }
        value = 16 * value + d;
        k = k + 1;
    }
    proof {
        assert(digits.subrange(0, n - first) =~= digits);
    }
    Some(value)
}

fn hex_value(c: char) -> (r: Option<u64>)
    ensures
        match r {
            Some(d) => hex_digit(c) == Some(d as nat) && d < 16,
            None => hex_digit(c) is None,
        },
{
    let u = c as u32;
    if 48 <= u && u <= 57 {
        Some((u - 48) as u64)
    } else if 65 <= u && u <= 70 {
        Some((u - 55) as u64)
    } else if 97 <= u && u <= 102 {
        Some((u - 87) as u64)
    } else {
        None
    }
}

/// Little-endian bytes of `v`, `n` of them.
pub open spec fn le_bytes(v: nat, n: nat) -> Seq<u8>
    decreases n,
{
    if n == 0 {
        Seq::empty()
    } else {
        seq![(v % 256) as u8] + le_bytes(v / 256, (n - 1) as nat)
    }
}

/// The pattern of the eight little-endian bytes of `v`.
pub open spec fn le_pattern(v: u64) -> Seq<Option<u8>> {
    le_bytes(v as nat, 8).map_values(|b: u8| Some(b))
}

fn pattern_of(v: u64) -> (r: Vec<Option<u8>>)
    ensures
        r@ == le_pattern(v),
{
    let mut out: Vec<Option<u8>> = Vec::new();
    let mut x = v;
    let mut i: u64 = 0;
    while i < 8
        invariant
            i <= 8,
            out@.map_values(|b: Option<u8>| b->0) + le_bytes(x as nat, (8 - i) as nat) == le_bytes(v as nat, 8),
            forall|q: int| 0 <= q < out@.len() ==> #[trigger] out@[q] is Some,
            out@.len() == i,
        decreases 8 - i,
    {
        let ghost before = out@;
        out.push(Some((x % 256) as u8));
        proof {
            assert(out@.map_values(|b: Option<u8>| b->0) =~= before.map_values(|b: Option<u8>| b->0) + seq![(x % 256) as u8]);
            assert(le_bytes(x as nat, (8 - i) as nat) =~= seq![(x % 256) as u8] + le_bytes((x / 256) as nat, (8 - i - 1) as nat));
        }
        x = x / 256;
        i = i + 1;
    }
    proof {
        assert(le_bytes(x as nat, 0) =~= Seq::<u8>::empty());
        assert(out@ =~= le_pattern(v)) by {
            assert(out@.map_values(|b: Option<u8>| b->0) =~= le_bytes(v as nat, 8));
            assert forall|q: int| 0 <= q < out@.len() implies out@[q] == le_pattern(v)[q] by {
                assert(out@.map_values(|b: Option<u8>| b->0)[q] == le_bytes(v as nat, 8)[q]);
            }
        }
    }
    out
}

/// Offset from a class-pointer field to the start of its object.
pub const CLASS_FIELD_OFFSET: u64 = 0x10;

/// An instance found by class pointer: its address and name.
pub struct InstanceSearchResult {
    pub instance_address: String,
    pub object_name: String,
}

/// Saving each hit's object in turn (hit minus `CLASS_FIELD_OFFSET`, held at
/// 0): the catalog afterwards and the (address, name) of every saved object
/// not named `InvalidName` or `None`. A full count stops further saves.
pub open spec fn instance_fold(
    m: CacheState,
    img: MemoryImage,
    pool: FNamePool,
    o: UEOffset,
    hits: Seq<u64>,
) -> (CacheState, Seq<(u64, Seq<char>)>)
    decreases hits.len(),
{
    if hits.len() == 0 {
        (m, Seq::empty())
    } else {
        let prev = instance_fold(m, img, pool, o, hits.drop_last());
        let h = hits.last();
        let inst: u64 = if h >= CLASS_FIELD_OFFSET {
            (h - CLASS_FIELD_OFFSET) as u64
        } else {
            0
        };
        if prev.0.2 >= u64::MAX {
            prev
        } else {
            let step = save_spec(prev.0, img, pool, o, inst, 0, 5);
            match step.1 {
                Some(v) => if v.name != "InvalidName"@ && v.name != "None"@ {
                    (step.0, prev.1.push((inst, v.name)))
                } else {
                    (step.0, prev.1)
                },
                None => (step.0, prev.1),
            }
        }
    }
}

/// The instance search's outcome: for the ascending hits of the class
/// address's pattern in user space, the catalog afterwards and the rows are
/// those of `instance_fold`.
pub open spec fn instances_outcome(
    m0: CacheState,
    m1: CacheState,
    img: MemoryImage,
    pool: FNamePool,
    o: UEOffset,
    class_address: u64,
    r: Seq<InstanceSearchResult>,
) -> bool {
    exists|hits: Seq<u64>|
        #![trigger scan_hits(img, 0, USER_SPACE_END as int, le_pattern(class_address), hits)]
        scan_hits(img, 0, USER_SPACE_END as int, le_pattern(class_address), hits) && ({
            let f = instance_fold(m0, img, pool, o, hits);
            &&& m1 == f.0
            &&& r.len() == f.1.len()
            &&& forall|i: int|
                0 <= i < r.len() ==> (#[trigger] r[i]).instance_address@ == hex_text(f.1[i].0) && r[i].object_name@ == f.1[i].1
        })
}

/// Finds the instances of a class: every place in user space holding the
/// class address (eight little-endian bytes) is taken as an object's class
/// field, and the object `CLASS_FIELD_OFFSET` bytes below is saved; named
/// objects are returned in address order.
pub fn search_object_instances(
    obj_mgr: &mut ObjectManager,
    process: &Process,
    pool: &FNamePool,
    offsets: &UEOffset,
    class_address: u64,
) -> (r: Vec<InstanceSearchResult>)
    requires
        old(obj_mgr).wf(),
        process.wf(),
    ensures
        final(obj_mgr).wf(),
        instances_outcome(old(obj_mgr).state(), final(obj_mgr).state(), process.memory, *pool, *offsets, class_address, r@),
{
    let pattern = pattern_of(class_address);
    let signature = format_signature(pattern.as_slice());
    proof {
        lemma_signature_round_trip(pattern@);
        assert(le_pattern(class_address).len() == 8) by {
            reveal_with_fuel(le_bytes, 9);
        }
    }
    let hits = match Scanner::scan(&process.memory, 0, USER_SPACE_END, signature.as_str()) {
        Ok(h) => h,
        Err(_) => {
            proof {
                assert(false);
            }
            return Vec::new();
        },
    };
    let ghost m0 = obj_mgr.state();
    let mut out: Vec<InstanceSearchResult> = Vec::new();
    let mut i: usize = 0;
    proof {
        assert(hits@.subrange(0, 0) =~= Seq::<u64>::empty());
    }
    while i < hits.len()
        invariant
            obj_mgr.wf(),
            process.wf(),
            i <= hits@.len(),
            ({
                let f = instance_fold(m0, process.memory, *pool, *offsets, hits@.subrange(0, i as int));
                &&& obj_mgr.state() == f.0
                &&& out@.len() == f.1.len()
                &&& forall|q: int|
                    0 <= q < out@.len() ==> (#[trigger] out@[q]).instance_address@ == hex_text(f.1[q].0) && out@[q].object_name@
                        == f.1[q].1
            }),
        decreases hits@.len() - i,
    {
        let ghost sub = hits@.subrange(0, i + 1);
        proof {
            assert(sub.drop_last() =~= hits@.subrange(0, i as int));
            assert(sub.last() == hits@[i as int]);
        }
        let h = hits[i];
        let inst = if h >= CLASS_FIELD_OFFSET {
            h - CLASS_FIELD_OFFSET
        } else {
            0
        };
        if obj_mgr.total_object_count < u64::MAX {
            let ghost before = out@;
            let saved = obj_mgr.try_save_object(inst, &process.memory, pool, offsets, 0, 5);
            match saved {
                Some(obj) => {
                    if !same_text(obj.name.as_str(), "InvalidName") && !same_text(obj.name.as_str(), "None") {
                        out.push(InstanceSearchResult { instance_address: format_address(inst), object_name: obj.name });
                        proof {
                            assert forall|q: int| 0 <= q < before.len() implies out@[q] == before[q] by {}
                        }
                    }
                },
                None => {},
            }
        }
        i = i + 1;
    }
    proof {
        assert(hits@.subrange(0, hits@.len() as int) =~= hits@);
    }
    out
}

} // verus!
