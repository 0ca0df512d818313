use crate::error::ErrorKind;
use crate::memory::{MemoryImage, Region};
use crate::text::{chars_of, push_char};
use rayon::iter::{IntoParallelRefIterator, ParallelIterator};
use vstd::prelude::*;

verus! {

/// Whitespace as `char::is_whitespace` defines it (Unicode `White_Space`).
pub open spec fn is_space(c: char) -> bool {
    let u = c as u32;
    (9 <= u <= 13) || u == 32 || u == 0x85 || u == 0xA0 || u == 0x1680 || (0x2000 <= u <= 0x200A)
        || u == 0x2028 || u == 0x2029 || u == 0x202F || u == 0x205F || u == 0x3000
}

/// The maximal runs of non-whitespace characters of `s`, in order.
pub open spec fn tokens(s: Seq<char>) -> Seq<Seq<char>>
    decreases s.len(),
{
    if s.len() == 0 {
        Seq::empty()
    } else {
        let prev = tokens(s.drop_last());
        let c = s.last();
        if is_space(c) {
            prev
        } else if s.len() >= 2 && !is_space(s[s.len() - 2]) && prev.len() > 0 {
            prev.update(prev.len() - 1, prev.last().push(c))
        } else {
            prev.push(seq![c])
        }
    }
}

pub open spec fn hex_digit(c: char) -> Option<nat> {
    let u = c as u32;
    if 48 <= u <= 57 {
        Some((u - 48) as nat)
    } else if 65 <= u <= 70 {
        Some((u - 55) as nat)
    } else if 97 <= u <= 102 {
        Some((u - 87) as nat)
    } else {
        None
    }
}

/// Value of a run of hex digits, most significant first (0 for no digits).
pub open spec fn digits_value(t: Seq<char>) -> Option<nat>
    decreases t.len(),
{
    if t.len() == 0 {
        Some(0)
    } else {
        match (digits_value(t.drop_last()), hex_digit(t.last())) {
            (Some(v), Some(d)) => Some(16 * v + d),
            _ => None,
        }
    }
}

/// One signature token: `Some(None)` for the wildcards `?` and `??`,
/// `Some(Some(b))` for exactly two hex digits, `None` for anything else.
pub open spec fn token_byte(t: Seq<char>) -> Option<Option<u8>> {
    if t == seq!['?'] || t == seq!['?', '?'] {
        Some(None)
    } else if t.len() == 2 && hex_digit(t[0]) is Some && hex_digit(t[1]) is Some {
        Some(Some((16 * hex_digit(t[0])->0 + hex_digit(t[1])->0) as u8))
    } else {
        None
    }
}

/// Every token of the text is well formed.
pub open spec fn tokens_valid(s: Seq<char>) -> bool {
    forall|k: int| 0 <= k < tokens(s).len() ==> #[trigger] token_byte(tokens(s)[k]) is Some
}

/// The pattern that a signature text stands for; no pattern where a token
/// is malformed.
pub open spec fn parse_spec(s: Seq<char>) -> Seq<Option<u8>> {
    if tokens_valid(s) {
        tokens(s).map_values(|t: Seq<char>| token_byte(t)->0)
    } else {
        Seq::empty()
    }
}

/// Upper-case hex digit for `d < 16`.
pub open spec fn hex_char(d: nat) -> char {
    if d < 10 {
        ((48 + d) as u8) as char
    } else {
        ((55 + d) as u8) as char
    }
}

pub open spec fn token_text(x: Option<u8>) -> Seq<char> {
    match x {
        None => seq!['?'],
        Some(b) => seq![hex_char((b / 16) as nat), hex_char((b % 16) as nat)],
    }
}

/// Canonical text of a pattern: two upper-case hex digits per byte, `?` per
/// wildcard, one space between tokens.
pub open spec fn canonical(p: Seq<Option<u8>>) -> Seq<char>
    decreases p.len(),
{
    if p.len() == 0 {
        Seq::empty()
    } else if p.len() == 1 {
        token_text(p[0])
    } else {
        canonical(p.drop_last()) + seq![' '] + token_text(p.last())
    }
}

/// The pattern matches `buf` at offset `i`: every non-wildcard cell equals
/// the byte under it.
pub open spec fn matches_at(buf: Seq<u8>, pat: Seq<Option<u8>>, i: int) -> bool {
    0 <= i && i + pat.len() <= buf.len() && forall|j: int|
        0 <= j < pat.len() ==> (#[trigger] pat[j] is Some ==> buf[i + j] == pat[j]->0)
}

/// A match of a non-empty pattern lying wholly in `[from, to)`.
pub open spec fn window_match(buf: Seq<u8>, pat: Seq<Option<u8>>, from: int, to: int, i: int) -> bool {
    pat.len() > 0 && from <= i && i + pat.len() <= to && matches_at(buf, pat, i)
}

pub open spec fn increasing(r: Seq<usize>) -> bool {
    forall|a: int, b: int| 0 <= a < b < r.len() ==> r[a] < r[b]
}

pub open spec fn increasing64(r: Seq<u64>) -> bool {
    forall|a: int, b: int| 0 <= a < b < r.len() ==> r[a] < r[b]
}

/// `r` lists, in ascending order, exactly the window matches.
pub open spec fn window_matches(
    r: Seq<usize>,
    buf: Seq<u8>,
    pat: Seq<Option<u8>>,
    from: int,
    to: int,
) -> bool {
    &&& increasing(r)
    &&& forall|k: int| 0 <= k < r.len() ==> window_match(buf, pat, from, to, #[trigger] r[k] as int)
    &&& forall|i: int| window_match(buf, pat, from, to, i) ==> exists|k: int|
        0 <= k < r.len() && #[trigger] r[k] == i
}

/// Address `a` starts a match inside region `r` and inside `[start, end)`.
pub open spec fn region_hit(r: Region, start: int, end: int, pat: Seq<Option<u8>>, a: int) -> bool {
    &&& pat.len() > 0
    &&& r.base <= a && start <= a
    &&& a + pat.len() <= r.end() && a + pat.len() <= end
    &&& matches_at(r.bytes@, pat, a - r.base)
}

/// `hits` lists, in ascending order, exactly the region hits.
pub open spec fn region_hits(r: Region, start: int, end: int, pat: Seq<Option<u8>>, hits: Seq<u64>) -> bool {
    &&& increasing64(hits)
    &&& forall|k: int| 0 <= k < hits.len() ==> region_hit(r, start, end, pat, #[trigger] hits[k] as int)
    &&& forall|a: int| region_hit(r, start, end, pat, a) ==> exists|k: int|
        0 <= k < hits.len() && #[trigger] hits[k] == a
}

/// Address `a` starts a match in some region of the image, inside `[start, end)`.
pub open spec fn image_hit(img: MemoryImage, start: int, end: int, pat: Seq<Option<u8>>, a: int) -> bool {
    exists|i: int| 0 <= i < img.regions@.len() && region_hit(#[trigger] img.regions@[i], start, end, pat, a)
}

/// Address `a` starts a match in one of the first `n` regions.
pub open spec fn hit_below(img: MemoryImage, n: int, start: int, end: int, pat: Seq<Option<u8>>, a: int) -> bool {
    exists|q: int| 0 <= q < n && region_hit(#[trigger] img.regions@[q], start, end, pat, a)
}

/// `hits` lists, in ascending order, exactly the image hits.
pub open spec fn scan_hits(img: MemoryImage, start: int, end: int, pat: Seq<Option<u8>>, hits: Seq<u64>) -> bool {
    &&& increasing64(hits)
    &&& forall|k: int| 0 <= k < hits.len() ==> image_hit(img, start, end, pat, #[trigger] hits[k] as int)
    &&& forall|a: int| image_hit(img, start, end, pat, a) ==> exists|k: int|
        0 <= k < hits.len() && #[trigger] hits[k] == a
}

/// Memory state of a committed region (`MEM_COMMIT`).
pub const MEM_COMMIT: u32 = 0x1000;

/// Protection bit of a region that cannot be read (`PAGE_NOACCESS`).
pub const PAGE_NOACCESS: u32 = 0x01;

/// Protection bit of a guard page (`PAGE_GUARD`).
pub const PAGE_GUARD: u32 = 0x100;

pub struct Scanner;

impl Scanner {
    /// Turns a signature like `"48 8D 05 ? ? ? ? 48 89"` into its pattern;
    /// a signature with a malformed token gives no pattern.
    pub fn parse_signature(signature: &str) -> (r: Vec<Option<u8>>)
        ensures
            r@ == parse_spec(signature@),
    {
        let v = chars_of(signature);
        let mut out: Vec<Option<u8>> = Vec::new();
        let mut ok = true;
        let mut cur: Vec<char> = Vec::new();
        let ghost mut done: Seq<Seq<char>> = Seq::empty();
        let mut i: usize = 0;
        while i < v.len()
            invariant
                i <= v@.len(),
                tokens(v@.subrange(0, i as int)) == if cur@.len() > 0 {
                    done.push(cur@)
                } else {
                    done
                },
                ok == (forall|k: int| 0 <= k < done.len() ==> #[trigger] token_byte(done[k]) is Some),
                ok ==> out@ == done.map_values(|t: Seq<char>| token_byte(t)->0),
                cur@.len() > 0 <==> (i > 0 && !is_space(v@[i - 1])),
            decreases v@.len() - i,
        {
            let c = v[i];
            let ghost s = v@.subrange(0, i + 1);
            proof {
                assert(s.drop_last() =~= v@.subrange(0, i as int));
                assert(s.last() == c);
            }
            if space_char(c) {
                if cur.len() > 0 {
                    let ghost done0 = done;
                    match token_value(&cur) {
                        Some(b) => out.push(b),
                        None => {
                            ok = false;
                            out.push(None);
                        },
                    }
                    proof {
                        done = done.push(cur@);
                        if ok {
                            assert(out@ =~= done.map_values(|t: Seq<char>| token_byte(t)->0));
                        }
                        assert(forall|k: int| 0 <= k < done0.len() ==> done[k] == done0[k]);
                        if !ok {
                            if token_byte(done[done.len() - 1]) is Some {
                                let w = choose|w: int| 0 <= w < done0.len() && !(token_byte(done0[w]) is Some);
                                assert(done[w] == done0[w]);
                            }
                        }
                    }
                    cur = Vec::new();
                }
            } else {
                if cur.len() > 0 {
                    proof {
                        assert(s[s.len() - 2] == v@[i - 1]);
                        let prev = done.push(cur@);
                        assert(prev.update(prev.len() - 1, prev.last().push(c)) =~= done.push(
                            cur@.push(c),
                        ));
                    }
                } else {
                    proof {
                        if i > 0 {
                            assert(s[s.len() - 2] == v@[i - 1]);
                        }
                        assert(cur@.push(c) =~= seq![c]);
                    }
                }
                cur.push(c);
            }
            i = i + 1;
        }
        if cur.len() > 0 {
            let ghost done0 = done;
            match token_value(&cur) {
                Some(b) => out.push(b),
                None => {
                    ok = false;
                    out.push(None);
                },
            }
            proof {
                done = done.push(cur@);
                assert(forall|k: int| 0 <= k < done0.len() ==> done[k] == done0[k]);
                if ok {
                    assert(out@ =~= done.map_values(|t: Seq<char>| token_byte(t)->0));
                }
                if !ok {
                    if token_byte(done[done.len() - 1]) is Some {
                        let w = choose|w: int| 0 <= w < done0.len() && !(token_byte(done0[w]) is Some);
                        assert(done[w] == done0[w]);
                    }
                }
            }
        }
        proof {
            assert(v@.subrange(0, v@.len() as int) =~= v@);
            assert(tokens(signature@) == done);
        }
        if !ok {
            proof {
                let w = choose|w: int| 0 <= w < done.len() && !(token_byte(done[w]) is Some);
                assert(!tokens_valid(signature@));
            }
            return Vec::new();
        }
        proof {
            assert(tokens_valid(signature@));
        }
        out
    }

    /// Offsets, ascending, at which the pattern matches the buffer; none for
    /// an empty pattern or a buffer shorter than the pattern.
    pub fn find_pattern_in_buffer(buffer: &[u8], pattern: &[Option<u8>]) -> (r: Vec<usize>)
        ensures
            window_matches(r@, buffer@, pattern@, 0, buffer@.len() as int),
    {
        find_in_range(buffer, 0, buffer.len(), pattern)
    }

    /// Addresses, ascending, in `[start, end)` of the image's regions at which
    /// the signature matches; a match never spans two regions. A signature
    /// with no tokens, or with a malformed one, is refused.
    pub fn scan(image: &MemoryImage, start: u64, end: u64, signature: &str) -> (r: Result<
        Vec<u64>,
        ErrorKind,
    >)
        requires
            image.wf(),
        ensures
            match r {
                Ok(hits) => parse_spec(signature@).len() > 0 && scan_hits(
                    *image,
                    start as int,
                    end as int,
                    parse_spec(signature@),
                    hits@,
                ),
                Err(e) => e == ErrorKind::InvalidSignature && parse_spec(signature@).len() == 0,
            },
    {
        let pattern = Self::parse_signature(signature);
        if pattern.len() == 0 {
            return Err(ErrorKind::InvalidSignature);
        }
        proof {
            assert forall|i: int| 0 <= i < image.regions@.len() implies #[trigger] image.regions@[i].end()
                <= u64::MAX + 1 by {}
        }
        let per_region = search_regions(&image.regions, start, end, &pattern);
        Ok(concat_hits(image, start, end, &pattern, &per_region))
    }
}

/// Whether a region with this state and protection is scanned: committed,
/// and neither unreadable nor a guard page.
pub fn region_is_scannable(state: u32, protect: u32) -> (r: bool)
    ensures
        r == (state == MEM_COMMIT && protect & PAGE_NOACCESS == 0 && protect & PAGE_GUARD == 0),
{
    state == MEM_COMMIT && protect & PAGE_NOACCESS == 0 && protect & PAGE_GUARD == 0
}

/// Canonical text of a pattern.
pub fn format_signature(pattern: &[Option<u8>]) -> (r: String)
    ensures
        r@ == canonical(pattern@),
{
    let mut out = String::new();
    let mut i: usize = 0;
    while i < pattern.len()
        invariant
            i <= pattern@.len(),
            out@ == canonical(pattern@.subrange(0, i as int)),
        decreases pattern@.len() - i,
    {
        let ghost before = out@;
        if i > 0 {
            push_char(&mut out, ' ');
        }
        match pattern[i] {
            Some(b) => {
                push_char(&mut out, hex_upper(b / 16));
                push_char(&mut out, hex_upper(b % 16));
            },
            None => {
                push_char(&mut out, '?');
            },
        }
        proof {
            let p = pattern@.subrange(0, i + 1);
            assert(p.drop_last() =~= pattern@.subrange(0, i as int));
            assert(p.last() == pattern@[i as int]);
            if i == 0 {
                assert(out@ =~= token_text(pattern@[i as int]));
            } else {
                assert(out@ =~= before + seq![' '] + token_text(pattern@[i as int]));
            }
        }
        i = i + 1;
    }
    proof {
        assert(pattern@.subrange(0, pattern@.len() as int) =~= pattern@);
    }
    out
}

/// Upper-case hex digit of `d < 16`.
pub fn hex_upper(d: u8) -> (c: char)
    requires
        d < 16,
    ensures
        c == hex_char(d as nat),
{
    if d < 10 {
        (48 + d) as char
    } else {
        (55 + d) as char
    }
}

fn space_char(c: char) -> (r: bool)
    ensures
        r == is_space(c),
{
    let u = c as u32;
    (9 <= u && u <= 13) || u == 32 || u == 0x85 || u == 0xA0 || u == 0x1680 || (0x2000 <= u && u
        <= 0x200A) || u == 0x2028 || u == 0x2029 || u == 0x202F || u == 0x205F || u == 0x3000
}

fn digit_value(c: char) -> (r: Option<u32>)
    ensures
        match r {
            Some(d) => hex_digit(c) == Some(d as nat) && d < 16,
            None => hex_digit(c) is None,
        },
{
    let u = c as u32;
    if 48 <= u && u <= 57 {
        Some(u - 48)
    } else if 65 <= u && u <= 70 {
        Some(u - 55)
    } else if 97 <= u && u <= 102 {
        Some(u - 87)
    } else {
        None
    }
}

/// The meaning of a token (see `token_byte`).
fn token_value(t: &Vec<char>) -> (r: Option<Option<u8>>)
    ensures
        r == token_byte(t@),
{
    let n = t.len();
    if n == 1 && t[0] == '?' {
        proof {
            assert(t@ =~= seq!['?']);
        }
        return Some(None);
    }
    if n == 2 && t[0] == '?' && t[1] == '?' {
        proof {
            assert(t@ =~= seq!['?', '?']);
        }
        return Some(None);
    }
    proof {
        if t@ == seq!['?'] {
            assert(t@[0] == '?');
        }
        if t@ == seq!['?', '?'] {
            assert(t@[0] == '?' && t@[1] == '?');
        }
    }
    if n != 2 {
        return None;
    }
    match (digit_value(t[0]), digit_value(t[1])) {
        (Some(hi), Some(lo)) => Some(Some((16 * hi + lo) as u8)),
        _ => None,
    }
}

fn cell_ok(buf: &[u8], at: usize, pat: &[Option<u8>], j: usize) -> (r: bool)
    requires
        j < pat@.len(),
        at < buf@.len(),
    ensures
        r == (pat@[j as int] is Some ==> buf@[at as int] == pat@[j as int]->0),
{
    match pat[j] {
        Some(p) => buf[at] == p,
        None => true,
    }
}

/// Offsets, ascending, of the pattern's matches lying wholly in `[from, to)`.
fn find_in_range(buf: &[u8], from: usize, to: usize, pat: &[Option<u8>]) -> (r: Vec<usize>)
    requires
        from <= to <= buf@.len(),
    ensures
        window_matches(r@, buf@, pat@, from as int, to as int),
{
    let mut out: Vec<usize> = Vec::new();
    let plen = pat.len();
    if plen == 0 || to - from < plen {
        return out;
    }
    let last = to - plen;
    let mut i: usize = from;
    while i <= last
        invariant
            from <= i <= last + 1,
            last + plen == to <= buf@.len(),
            plen == pat@.len() > 0,
            forall|k: int| 0 <= k < out@.len() ==> #[trigger] out@[k] < i,
            increasing(out@),
            forall|k: int|
                0 <= k < out@.len() ==> window_match(buf@, pat@, from as int, to as int, #[trigger] out@[k] as int),
            forall|x: int|
                from <= x < i && window_match(buf@, pat@, from as int, to as int, x) ==> exists|k: int|
                    0 <= k < out@.len() && #[trigger] out@[k] == x,
        ensures
            i > last,
        decreases last + 1 - i,
    {
        if let Some(b) = pat[0] {
            let ghost i0 = i;
            while i <= last && buf[i] != b
                invariant
                    from <= i0 <= i <= last + 1,
                    last + plen == to <= buf@.len(),
                    plen == pat@.len() > 0,
                    forall|x: int| i0 <= x < i ==> buf@[x] != b,
                decreases last + 1 - i,
            {
                i = i + 1;
            }
            proof {
                assert forall|x: int|
                    from <= x < i && window_match(buf@, pat@, from as int, to as int, x) implies exists|k: int|
                    0 <= k < out@.len() && #[trigger] out@[k] == x by {
                    if x >= i0 {
                        assert(pat@[0] is Some);
                        assert(buf@[x + 0] == b);
                    }
                }
                assert forall|k: int| 0 <= k < out@.len() implies #[trigger] out@[k] < i by {}
            }
            if i > last {
                break;
            }
        }
        let mut j: usize = 1;
        while j < plen && cell_ok(buf, i + j, pat, j)
            invariant
                1 <= j <= plen == pat@.len(),
                i + plen <= to <= buf@.len(),
                pat@[0] is Some ==> buf@[i as int] == pat@[0]->0,
                forall|x: int| 0 <= x < j ==> (#[trigger] pat@[x] is Some ==> buf@[i + x] == pat@[x]->0),
            decreases plen - j,
        {
            j = j + 1;
        }
        if j == plen {
            proof {
                assert(window_match(buf@, pat@, from as int, to as int, i as int));
            }
            let ghost old_out = out@;
            out.push(i);
            proof {
                assert(out@[out@.len() - 1] == i);
                assert forall|x: int|
                    from <= x < i + 1 && window_match(buf@, pat@, from as int, to as int, x) implies exists|k: int|
                    0 <= k < out@.len() && #[trigger] out@[k] == x by {
                    if x == i {
                        assert(out@[out@.len() - 1] == x);
                    } else {
                        let k = choose|k: int| 0 <= k < old_out.len() && #[trigger] old_out[k] == x;
                        assert(out@[k] == x);
                    }
                }
            }
        } else {
            proof {
                assert(!matches_at(buf@, pat@, i as int)) by {
                    if matches_at(buf@, pat@, i as int) {
                        assert(pat@[j as int] is Some ==> buf@[i + j] == pat@[j as int]->0);
                    }
                }
            }
        }
        i = i + 1;
    }
    out
}

/// Absolute addresses, ascending, of the matches inside one region and
/// inside `[start, end)`.
pub fn search_region(r: &Region, start: u64, end: u64, pat: &Vec<Option<u8>>) -> (hits: Vec<u64>)
    requires
        r.end() <= u64::MAX + 1,
    ensures
        region_hits(*r, start as int, end as int, pat@, hits@),
{
    let len = r.bytes.len() as u64;
    let from: u64 = if start > r.base {
        if start - r.base < len {
            start - r.base
        } else {
            len
        }
    } else {
        0
    };
    let to: u64 = if end > r.base {
        if end - r.base < len {
            end - r.base
        } else {
            len
        }
    } else {
        0
    };
    let mut hits: Vec<u64> = Vec::new();
    if from >= to {
        proof {
            assert forall|a: int| !region_hit(*r, start as int, end as int, pat@, a) by {}
        }
        return hits;
    }
    let offs = find_in_range(r.bytes.as_slice(), from as usize, to as usize, pat.as_slice());
    let mut k: usize = 0;
    while k < offs.len()
        invariant
            k <= offs@.len(),
            r.end() <= u64::MAX + 1,
            window_matches(offs@, r.bytes@, pat@, from as int, to as int),
            from as int == if start > r.base { if start - r.base < r.bytes@.len() { start - r.base } else { r.bytes@.len() as int } } else { 0 },
            to as int == if end > r.base { if end - r.base < r.bytes@.len() { end - r.base } else { r.bytes@.len() as int } } else { 0 },
            hits@.len() == k,
            forall|x: int| 0 <= x < k ==> #[trigger] hits@[x] == r.base + offs@[x],
        decreases offs@.len() - k,
    {
        hits.push(r.base + offs[k] as u64);
        k = k + 1;
    }
    proof {
        assert forall|a: int| region_hit(*r, start as int, end as int, pat@, a) implies exists|x: int|
            0 <= x < hits@.len() && #[trigger] hits@[x] == a by {
            assert(window_match(r.bytes@, pat@, from as int, to as int, a - r.base));
            let x = choose|x: int| 0 <= x < offs@.len() && #[trigger] offs@[x] == a - r.base;
            assert(hits@[x] == a);
        }
        assert forall|x: int| 0 <= x < hits@.len() implies region_hit(
            *r,
            start as int,
            end as int,
            pat@,
            #[trigger] hits@[x] as int,
        ) by {
            assert(window_match(r.bytes@, pat@, from as int, to as int, offs@[x] as int));
        }
    }
    hits
}

/// Relies on rayon: `par_iter().map(..).collect()` over a `Vec` yields one
/// result per region, in the regions' order. Each result is what
/// `search_region` returns for that region.
#[verifier::external_body]
fn search_regions(regions: &Vec<Region>, start: u64, end: u64, pat: &Vec<Option<u8>>) -> (r: Vec<
    Vec<u64>,
>)
    requires
        forall|i: int| 0 <= i < regions@.len() ==> #[trigger] regions@[i].end() <= u64::MAX + 1,
    ensures
        r@.len() == regions@.len(),
        forall|i: int|
            0 <= i < regions@.len() ==> region_hits(
                #[trigger] regions@[i],
                start as int,
                end as int,
                pat@,
                r@[i]@,
            ),
{
    regions.par_iter().map(|reg| search_region(reg, start, end, pat)).collect()
}

/// Joins the per-region hits into one ascending list.
fn concat_hits(
    image: &MemoryImage,
    start: u64,
    end: u64,
    pat: &Vec<Option<u8>>,
    per_region: &Vec<Vec<u64>>,
) -> (r: Vec<u64>)
    requires
        image.wf(),
        per_region@.len() == image.regions@.len(),
        forall|i: int|
            0 <= i < image.regions@.len() ==> region_hits(
                #[trigger] image.regions@[i],
                start as int,
                end as int,
                pat@,
                per_region@[i]@,
            ),
    ensures
        scan_hits(*image, start as int, end as int, pat@, r@),
{
    let mut out: Vec<u64> = Vec::new();
    let mut i: usize = 0;
    while i < per_region.len()
        invariant
            image.wf(),
            i <= per_region@.len() == image.regions@.len(),
            forall|q: int|
                0 <= q < image.regions@.len() ==> region_hits(
                    #[trigger] image.regions@[q],
                    start as int,
                    end as int,
                    pat@,
                    per_region@[q]@,
                ),
            increasing64(out@),
            forall|k: int|
                0 <= k < out@.len() ==> hit_below(*image, i as int, start as int, end as int, pat@, #[trigger] out@[k] as int),
            forall|q: int, a: int|
                #![trigger region_hit(image.regions@[q], start as int, end as int, pat@, a)]
                0 <= q < i && region_hit(image.regions@[q], start as int, end as int, pat@, a)
                    ==> exists|k: int| 0 <= k < out@.len() && #[trigger] out@[k] == a,
        decreases per_region@.len() - i,
    {
        let hits = &per_region[i];
        let mut j: usize = 0;
        let ghost out0 = out@;
        proof {
            if 0 < hits@.len() {
                assert(region_hit(image.regions@[i as int], start as int, end as int, pat@, hits@[0] as int));
                assert forall|k: int| 0 <= k < out@.len() implies #[trigger] out@[k] < hits@[0] by {
                    assert(hit_below(*image, i as int, start as int, end as int, pat@, out@[k] as int));
                    let q = choose|q: int| 0 <= q < i && region_hit(#[trigger] image.regions@[q], start as int, end as int, pat@, out@[k] as int);
                    assert(image.regions@[q].end() <= image.regions@[i as int].base);
                }
            }
        }
        while j < hits.len()
            invariant
                image.wf(),
                i < image.regions@.len() == per_region@.len(),
                hits@ == per_region@[i as int]@,
                region_hits(image.regions@[i as int], start as int, end as int, pat@, hits@),
                j <= hits@.len(),
                out@ == out0 + hits@.subrange(0, j as int),
                increasing64(out@),
                forall|k: int|
                    0 <= k < out0.len() ==> hit_below(*image, i as int, start as int, end as int, pat@, #[trigger] out0[k] as int),
                j < hits@.len() ==> forall|k: int| 0 <= k < out@.len() ==> #[trigger] out@[k] < hits@[j as int],
            decreases hits@.len() - j,
        {
            proof {
                if j + 1 < hits@.len() {
                    assert forall|k: int| 0 <= k < out@.len() + 1 implies (out@.push(hits@[j as int]))[k]
                        < hits@[j + 1] by {
                        if k < out@.len() {
                        }
                    }
                }
            }
            out.push(hits[j]);
            proof {
                assert(out@ =~= out0 + hits@.subrange(0, j + 1));
            }
            j = j + 1;
            proof {
                if j < hits@.len() {
                    assert forall|k: int| 0 <= k < out@.len() implies #[trigger] out@[k] < hits@[j as int] by {
                        if k < out0.len() {
                            assert(out@[k] == out0[k]);
                        } else {
                            assert(out@[k] == hits@[k - out0.len()]);
                        }
                    }
                }
            }
        }
        proof {
            assert(hits@.subrange(0, hits@.len() as int) =~= hits@);
            assert forall|k: int| 0 <= k < out@.len() implies hit_below(*image, i + 1, start as int, end as int, pat@, #[trigger] out@[k] as int) by {
                if k < out0.len() {
                    assert(out@[k] == out0[k]);
                    assert(hit_below(*image, i as int, start as int, end as int, pat@, out0[k] as int));
                } else {
                    assert(out@[k] == hits@[k - out0.len()]);
                    assert(region_hit(image.regions@[i as int], start as int, end as int, pat@, hits@[k - out0.len()] as int));
                }
            }
            assert forall|q: int, a: int|
                #![trigger region_hit(image.regions@[q], start as int, end as int, pat@, a)]
                0 <= q < i + 1 && region_hit(image.regions@[q], start as int, end as int, pat@, a)
                    implies exists|k: int| 0 <= k < out@.len() && #[trigger] out@[k] == a by {
                if q < i {
                    let k = choose|k: int| 0 <= k < out0.len() && #[trigger] out0[k] == a;
                    assert(out@[k] == a);
                } else {
                    let x = choose|x: int| 0 <= x < hits@.len() && #[trigger] hits@[x] == a;
                    assert(out@[out0.len() + x] == a);
                }
            }
        }
        i = i + 1;
    }
    proof {
        assert forall|k: int| 0 <= k < out@.len() implies image_hit(*image, start as int, end as int, pat@, #[trigger] out@[k] as int) by {
            assert(hit_below(*image, i as int, start as int, end as int, pat@, out@[k] as int));
        }
        assert forall|a: int| image_hit(*image, start as int, end as int, pat@, a) implies exists|k: int|
            0 <= k < out@.len() && #[trigger] out@[k] == a by {
            let q = choose|q: int|
                0 <= q < image.regions@.len() && region_hit(#[trigger] image.regions@[q], start as int, end as int, pat@, a);
        }
    }
    out
}

proof fn lemma_hex_char(d: nat)
    requires
        d < 16,
    ensures
        hex_digit(hex_char(d)) == Some(d),
        !is_space(hex_char(d)),
        hex_char(d) != '+',
        hex_char(d) != '?',
{
    if d < 10 {
        assert(((48 + d) as u8) as char as u32 == 48 + d);
    } else {
        assert(((55 + d) as u8) as char as u32 == 55 + d);
    }
}

proof fn lemma_token_text(x: Option<u8>)
    ensures
        token_text(x).len() > 0,
        forall|k: int| 0 <= k < token_text(x).len() ==> !is_space(#[trigger] token_text(x)[k]),
        token_byte(token_text(x)) == Some(x),
{
    match x {
        None => {
            assert(('?' as u32) == 63);
        },
        Some(b) => {
            let hi = (b / 16) as nat;
            let lo = (b % 16) as nat;
            lemma_hex_char(hi);
            lemma_hex_char(lo);
            let t = token_text(x);
            assert(t[0] == hex_char(hi));
            assert(t != seq!['?']);
            assert(t != seq!['?', '?']) by {
                if t == seq!['?', '?'] {
                    assert(t[0] == '?');
                }
            }
        },
    }
}

proof fn lemma_tokens_extend(s: Seq<char>, t: Seq<char>)
    requires
        s.len() == 0 || is_space(s.last()),
        t.len() > 0,
        forall|k: int| 0 <= k < t.len() ==> !is_space(#[trigger] t[k]),
    ensures
        tokens(s + t) == tokens(s).push(t),
    decreases t.len(),
{
    let u = s + t;
    assert(u.last() == t.last());
    if t.len() == 1 {
        assert(u.drop_last() =~= s);
        if s.len() > 0 {
            assert(u[u.len() - 2] == s.last());
        }
        assert(seq![t.last()] =~= t);
    } else {
        let t0 = t.drop_last();
        assert forall|k: int| 0 <= k < t0.len() implies !is_space(#[trigger] t0[k]) by {
            assert(t0[k] == t[k]);
        }
        lemma_tokens_extend(s, t0);
        assert(u.drop_last() =~= s + t0);
        assert(u[u.len() - 2] == t[t.len() - 2]);
        let prev = tokens(s).push(t0);
        assert(prev.last() == t0);
        assert(t0.push(t.last()) =~= t);
        assert(prev.update(prev.len() - 1, prev.last().push(t.last())) =~= tokens(s).push(t));
    }
}

proof fn lemma_canonical_tokens(p: Seq<Option<u8>>)
    ensures
        tokens(canonical(p)) == p.map_values(|x: Option<u8>| token_text(x)),
    decreases p.len(),
{
    if p.len() == 0 {
        assert(tokens(canonical(p)) =~= p.map_values(|x: Option<u8>| token_text(x)));
    } else if p.len() == 1 {
        lemma_token_text(p[0]);
        lemma_tokens_extend(Seq::empty(), token_text(p[0]));
        assert(Seq::<char>::empty() + token_text(p[0]) =~= token_text(p[0]));
        assert(tokens(Seq::<char>::empty()) =~= Seq::<Seq<char>>::empty());
        assert(tokens(canonical(p)) =~= p.map_values(|x: Option<u8>| token_text(x)));
    } else {
        let c = canonical(p.drop_last());
        lemma_canonical_tokens(p.drop_last());
        lemma_token_text(p.last());
        let cs = c + seq![' '];
        assert(cs.drop_last() =~= c);
        assert((' ' as u32) == 32);
        assert(cs.last() == ' ');
        assert(tokens(cs) == tokens(c));
        lemma_tokens_extend(cs, token_text(p.last()));
        assert(canonical(p) == cs + token_text(p.last()));
        assert(tokens(canonical(p)) =~= p.map_values(|x: Option<u8>| token_text(x)));
    }
}

/// A pattern written in canonical form parses back to itself, so the text
/// round-trips byte for byte: emitting the parsed pattern gives the same text.
pub proof fn lemma_signature_round_trip(p: Seq<Option<u8>>)
    ensures
        parse_spec(canonical(p)) == p,
        canonical(parse_spec(canonical(p))) == canonical(p),
{
    lemma_canonical_tokens(p);
    let ts = tokens(canonical(p));
    assert forall|k: int| 0 <= k < ts.len() implies #[trigger] token_byte(ts[k]) is Some by {
        lemma_token_text(p[k]);
    }
    assert(tokens_valid(canonical(p)));
    assert forall|k: int| 0 <= k < p.len() implies #[trigger] parse_spec(canonical(p))[k] == p[k] by {
        lemma_token_text(p[k]);
    }
    assert(parse_spec(canonical(p)) =~= p);
}

} // verus!
