use crate::anchors::add_wrapping;
use crate::memory::{MemoryImage, MIN_POINTER};
use crate::name_pool::FNamePool;
use crate::objects::{field, i32_or_zero, keys_match, pool_name, pool_text, ptr_or_zero, read_i32_or_zero, read_ptr_or_zero, ObjectManager, ObjectView};
use crate::offsets::UEOffset;
use crate::order::{key_lt, sorted_order, SortKey};
use crate::package::{extract_package_name, package_of, permutation_covers};
use crate::text::{chars_of, contains, same_text, str_contains};
use vstd::prelude::*;

verus! {

/// Lower-case form of a text, as `str::to_lowercase` gives it.
pub uninterp spec fn lower_of(s: Seq<char>) -> Seq<char>;

/// Relies on `str::to_lowercase`: the result depends on the characters alone.
#[verifier::external_body]
pub(crate) fn lowercase(s: &str) -> (r: String)
    ensures
        r@ == lower_of(s@),
{
    s.to_lowercase()
}

/// Most results a search returns.
pub const SEARCH_LIMIT: usize = 500;

/// Most members walked per class or struct in a member search.
pub const MEMBER_WALK_LIMIT: u64 = 2000;

/// Type names (lower case) that an object search looks at.
pub open spec fn searchable_type(t: Seq<char>) -> bool {
    contains(t, "class"@) || contains(t, "struct"@) || contains(t, "enum"@) || t == "userenum"@ || contains(t, "function"@)
}

/// Rank of a (lower-case) type name in search results: class, struct,
/// enum, function, other.
pub open spec fn kind_rank_of(t: Seq<char>) -> u64 {
    if contains(t, "class"@) {
        0
    } else if contains(t, "struct"@) {
        1
    } else if contains(t, "enum"@) || t == "userenum"@ {
        2
    } else if contains(t, "function"@) {
        3
    } else {
        4
    }
}

/// An object search hit: a searchable type whose name holds the query (all
/// three in lower case).
pub fn object_search_match(type_lower: &str, name_lower: &str, query_lower: &str) -> (r: bool)
    ensures
        r == (searchable_type(type_lower@) && contains(name_lower@, query_lower@)),
{
    let t = str_contains(type_lower, "class") || str_contains(type_lower, "struct") || str_contains(type_lower, "enum")
        || same_text(type_lower, "userenum") || str_contains(type_lower, "function");
    t && str_contains(name_lower, query_lower)
}

/// Rank of a lower-case type name (see `kind_rank_of`).
pub fn kind_rank(type_lower: &str) -> (r: u64)
    ensures
        r == kind_rank_of(type_lower@),
{
    if str_contains(type_lower, "class") {
        0
    } else if str_contains(type_lower, "struct") {
        1
    } else if str_contains(type_lower, "enum") || same_text(type_lower, "userenum") {
        2
    } else if str_contains(type_lower, "function") {
        3
    } else {
        4
    }
}

/// One search result; `member_name` is set in member searches.
pub struct GlobalSearchResult {
    pub package_name: String,
    pub object_name: String,
    pub type_label: String,
    pub address: u64,
    pub member_name: Option<String>,
}

/// The record is an object-search hit for the query.
pub open spec fn object_hit(v: ObjectView, query: Seq<char>) -> bool {
    searchable_type(lower_of(v.type_label)) && contains(lower_of(v.name), lower_of(query))
}

/// Node `k` of the member chain of the class or struct at `addr`.
pub open spec fn member_node(img: MemoryImage, o: UEOffset, addr: u64, k: nat) -> u64
    decreases k,
{
    if k == 0 {
        ptr_or_zero(img, field(addr, o.member))
    } else {
        ptr_or_zero(img, field(member_node(img, o, addr, (k - 1) as nat), o.next_member))
    }
}

/// Nodes `0..=k` of the chain are all real pointers, within the walk limit.
pub open spec fn member_reached(img: MemoryImage, o: UEOffset, addr: u64, k: nat) -> bool {
    k < MEMBER_WALK_LIMIT && forall|j: nat| j <= k ==> #[trigger] member_node(img, o, addr, j) > MIN_POINTER
}

pub open spec fn member_name_at(img: MemoryImage, pool: FNamePool, o: UEOffset, addr: u64, k: nat) -> Seq<char> {
    pool_text(img, pool, i32_or_zero(img, field(member_node(img, o, addr, k), o.member_fname_index)))
}

/// `r` is a result for the record `v`: its package, name, type and address.
pub open spec fn result_of(r: GlobalSearchResult, v: ObjectView) -> bool {
    r.package_name@ == package_of(v.full_name) && r.object_name@ == v.name && r.type_label@ == v.type_label
        && r.address == v.address
}

pub open spec fn result_key(r: GlobalSearchResult) -> (u64, Seq<char>, Seq<char>) {
    (kind_rank_of(lower_of(r.type_label@)), lower_of(r.object_name@), lower_of(r.package_name@))
}

/// `a` orders strictly before `b`: by kind rank, then lower-case name, then
/// lower-case package.
pub open spec fn result_lt(a: GlobalSearchResult, b: GlobalSearchResult) -> bool {
    let ka = result_key(a);
    let kb = result_key(b);
    ka.0 < kb.0 || (ka.0 == kb.0 && crate::order::text_lt(ka.1, kb.1))
        || (ka.0 == kb.0 && ka.1 == kb.1 && crate::order::text_lt(ka.2, kb.2))
}

/// A result of an object search for `query` over the records `ba`.
pub open spec fn object_result_ok(ba: Map<u64, ObjectView>, r: GlobalSearchResult, query: Seq<char>) -> bool {
    &&& ba.contains_key(r.address)
    &&& result_of(r, ba[r.address])
    &&& object_hit(ba[r.address], query)
    &&& r.member_name is None
}

/// A result of a member search for `query`: a member of a class or struct
/// reached along its member chain, whose name holds the query.
pub open spec fn member_result_ok(
    ba: Map<u64, ObjectView>,
    img: MemoryImage,
    pool: FNamePool,
    o: UEOffset,
    r: GlobalSearchResult,
    query: Seq<char>,
) -> bool {
    &&& ba.contains_key(r.address)
    &&& result_of(r, ba[r.address])
    &&& (contains(lower_of(ba[r.address].type_label), "class"@) || contains(lower_of(ba[r.address].type_label), "struct"@))
    &&& r.member_name matches Some(m)
    &&& contains(lower_of(m@), lower_of(query))
    &&& exists|k: nat| member_reached(img, o, r.address, k) && m@ == member_name_at(img, pool, o, r.address, k)
}

/// Member `k` of the class or struct at `a` is a hit for `query`.
pub open spec fn member_hit(
    ba: Map<u64, ObjectView>,
    img: MemoryImage,
    pool: FNamePool,
    o: UEOffset,
    query: Seq<char>,
    a: u64,
    k: nat,
) -> bool {
    &&& ba.contains_key(a)
    &&& (contains(lower_of(ba[a].type_label), "class"@) || contains(lower_of(ba[a].type_label), "struct"@))
    &&& member_reached(img, o, a, k)
    &&& contains(lower_of(member_name_at(img, pool, o, a, k)), lower_of(query))
}

/// Some result is the member named `name` of the object at `a`.
pub open spec fn lists_member(r: Seq<GlobalSearchResult>, a: u64, name: Seq<char>) -> bool {
    exists|i: int| 0 <= i < r.len() && #[trigger] r[i].address == a && (r[i].member_name matches Some(m) && m@ == name)
}

proof fn lemma_lists_push(r: Seq<GlobalSearchResult>, x: GlobalSearchResult, a: u64, name: Seq<char>)
    requires
        lists_member(r, a, name),
    ensures
        lists_member(r.push(x), a, name),
{
    let i = choose|i: int| 0 <= i < r.len() && #[trigger] r[i].address == a && (r[i].member_name matches Some(m) && m@ == name);
    assert(r.push(x)[i] == r[i]);
}

/// A member search lists every member hit when it returns fewer than the
/// limit.
pub open spec fn members_complete(
    ba: Map<u64, ObjectView>,
    img: MemoryImage,
    pool: FNamePool,
    o: UEOffset,
    query: Seq<char>,
    r: Seq<GlobalSearchResult>,
) -> bool {
    r.len() < SEARCH_LIMIT ==> forall|a: u64, k: nat|
        #[trigger] member_hit(ba, img, pool, o, query, a, k) ==> lists_member(r, a, member_name_at(img, pool, o, a, k))
}

/// What a search returns (see `global_search`).
pub open spec fn search_outcome(
    ba: Map<u64, ObjectView>,
    img: MemoryImage,
    pool: FNamePool,
    o: UEOffset,
    query: Seq<char>,
    mode: Seq<char>,
    r: Seq<GlobalSearchResult>,
) -> bool {
    &&& (r.len() <= SEARCH_LIMIT)
    &&& (forall|i: int, j: int| 0 <= i < j < r.len() ==> !result_lt(#[trigger] r[j], #[trigger] r[i]))
    &&& (!(mode == "Object"@ || mode == "Member"@) ==> r.len() == 0)
    &&& (mode == "Object"@ ==> {
            &&& forall|i: int| 0 <= i < r.len() ==> object_result_ok(ba, #[trigger] r[i], query)
            &&& forall|i: int, j: int| 0 <= i < j < r.len() ==> #[trigger] r[i].address != #[trigger] r[j].address
            &&& r.len() < SEARCH_LIMIT ==> forall|a: u64|
                ba.contains_key(a) && object_hit(ba[a], query) ==> exists|i: int|
                    0 <= i < r.len() && #[trigger] r[i].address == a
        })
    &&& (mode == "Member"@ ==> forall|i: int|
            0 <= i < r.len() ==> member_result_ok(ba, img, pool, o, #[trigger] r[i], query))
    &&& (mode == "Member"@ ==> members_complete(ba, img, pool, o, query, r))
}

/// Searches the catalog: in `Object` mode, classes, structs, enums and
/// functions whose name holds the query; in `Member` mode, members of
/// classes and structs whose name holds the query (case-insensitive both).
/// At most `SEARCH_LIMIT` results, by kind, then name, then package; an
/// object search returns every hit when it returns fewer than the limit.
pub fn global_search(
    obj_mgr: &ObjectManager,
    img: &MemoryImage,
    pool: &FNamePool,
    offsets: &UEOffset,
    query: &str,
    search_mode: &str,
) -> (r: Vec<GlobalSearchResult>)
    requires
        obj_mgr.wf(),
        img.wf(),
    ensures
        search_outcome(obj_mgr.state().0, *img, *pool, *offsets, query@, search_mode@, r@),
{
    let query_lower = lowercase(query);
    if same_text(search_mode, "Object") {
        let found = search_objects(obj_mgr, query, &query_lower);
        let sorted = sort_results(found);
        proof {
            lemma_sorted_objects(obj_mgr.state().0, query@, found@, sorted@);
            reveal_strlit("Object");
            reveal_strlit("Member");
            assert("Object"@[0] != "Member"@[0]);
        }
        sorted
    } else if same_text(search_mode, "Member") {
        let found = search_members(obj_mgr, img, pool, offsets, query, &query_lower);
        let sorted = sort_results(found);
        proof {
            lemma_sorted_members(obj_mgr.state().0, *img, *pool, *offsets, query@, found@, sorted@);
            reveal_strlit("Object");
            reveal_strlit("Member");
            assert("Object"@[0] != "Member"@[0]);
        }
        sorted
    } else {
        Vec::new()
    }
}

proof fn lemma_sorted_objects(ba: Map<u64, ObjectView>, query: Seq<char>, found: Seq<GlobalSearchResult>, sorted: Seq<GlobalSearchResult>)
    requires
        found.len() <= SEARCH_LIMIT,
        forall|t: int| 0 <= t < found.len() ==> object_result_ok(ba, #[trigger] found[t], query),
        forall|t: int, u: int| 0 <= t < u < found.len() ==> #[trigger] found[t].address != #[trigger] found[u].address,
        found.len() < SEARCH_LIMIT ==> forall|a: u64|
            ba.contains_key(a) && object_hit(ba[a], query) ==> exists|t: int| 0 <= t < found.len() && #[trigger] found[t].address == a,
        sorted.len() == found.len(),
        exists|p: Seq<usize>|
            #![trigger p.len()]
            p.len() == found.len() && p.no_duplicates() && (forall|x: int| 0 <= x < p.len() ==> #[trigger] p[x] < found.len())
                && forall|x: int| 0 <= x < sorted.len() ==> #[trigger] sorted[x] == found[p[x] as int],
    ensures
        forall|i: int| 0 <= i < sorted.len() ==> object_result_ok(ba, #[trigger] sorted[i], query),
        forall|i: int, j: int| 0 <= i < j < sorted.len() ==> #[trigger] sorted[i].address != #[trigger] sorted[j].address,
        sorted.len() < SEARCH_LIMIT ==> forall|a: u64|
            ba.contains_key(a) && object_hit(ba[a], query) ==> exists|i: int| 0 <= i < sorted.len() && #[trigger] sorted[i].address == a,
{
    let p = choose|p: Seq<usize>|
        #![trigger p.len()]
        p.len() == found.len() && p.no_duplicates() && (forall|x: int| 0 <= x < p.len() ==> #[trigger] p[x] < found.len())
            && forall|x: int| 0 <= x < sorted.len() ==> #[trigger] sorted[x] == found[p[x] as int];
    assert forall|i: int| 0 <= i < sorted.len() implies object_result_ok(ba, #[trigger] sorted[i], query) by {
        assert(sorted[i] == found[p[i] as int]);
    }
    assert forall|i: int, j: int| 0 <= i < j < sorted.len() implies #[trigger] sorted[i].address != #[trigger] sorted[j].address by {
        assert(sorted[i] == found[p[i] as int]);
        assert(sorted[j] == found[p[j] as int]);
        assert(p[i] != p[j]);
    }
    if sorted.len() < SEARCH_LIMIT {
        assert forall|a: u64| ba.contains_key(a) && object_hit(ba[a], query) implies exists|i: int|
            0 <= i < sorted.len() && #[trigger] sorted[i].address == a by {
            let t = choose|t: int| 0 <= t < found.len() && #[trigger] found[t].address == a;
            permutation_covers(p, t);
            let x = choose|x: int| 0 <= x < p.len() && p[x] == t;
            assert(sorted[x] == found[t]);
        }
    }
}

proof fn lemma_sorted_members(
    ba: Map<u64, ObjectView>,
    img: MemoryImage,
    pool: FNamePool,
    o: UEOffset,
    query: Seq<char>,
    found: Seq<GlobalSearchResult>,
    sorted: Seq<GlobalSearchResult>,
)
    requires
        found.len() <= SEARCH_LIMIT,
        forall|t: int| 0 <= t < found.len() ==> member_result_ok(ba, img, pool, o, #[trigger] found[t], query),
        members_complete(ba, img, pool, o, query, found),
        sorted.len() == found.len(),
        exists|p: Seq<usize>|
            #![trigger p.len()]
            p.len() == found.len() && p.no_duplicates() && (forall|x: int| 0 <= x < p.len() ==> #[trigger] p[x] < found.len())
                && forall|x: int| 0 <= x < sorted.len() ==> #[trigger] sorted[x] == found[p[x] as int],
    ensures
        forall|i: int| 0 <= i < sorted.len() ==> member_result_ok(ba, img, pool, o, #[trigger] sorted[i], query),
        members_complete(ba, img, pool, o, query, sorted),
{
    let p = choose|p: Seq<usize>|
        #![trigger p.len()]
        p.len() == found.len() && p.no_duplicates() && (forall|x: int| 0 <= x < p.len() ==> #[trigger] p[x] < found.len())
            && forall|x: int| 0 <= x < sorted.len() ==> #[trigger] sorted[x] == found[p[x] as int];
    assert forall|i: int| 0 <= i < sorted.len() implies member_result_ok(ba, img, pool, o, #[trigger] sorted[i], query) by {
        assert(sorted[i] == found[p[i] as int]);
    }
    if sorted.len() < SEARCH_LIMIT {
        assert forall|a: u64, k: nat| #[trigger] member_hit(ba, img, pool, o, query, a, k) implies lists_member(
            sorted,
            a,
            member_name_at(img, pool, o, a, k),
        ) by {
            let n = member_name_at(img, pool, o, a, k);
            assert(lists_member(found, a, n));
            let t = choose|t: int| 0 <= t < found.len() && #[trigger] found[t].address == a && (found[t].member_name matches Some(m) && m@ == n);
            permutation_covers(p, t);
            let x = choose|x: int| 0 <= x < p.len() && p[x] == t;
            assert(sorted[x] == found[t]);
            assert(sorted[x].address == a);
        }
    }
}

/// Object-mode hits in catalog order, stopping at the limit.
fn search_objects(obj_mgr: &ObjectManager, query: &str, query_lower: &String) -> (r: Vec<GlobalSearchResult>)
    requires
        obj_mgr.wf(),
        query_lower@ == lower_of(query@),
    ensures
        r@.len() <= SEARCH_LIMIT,
        forall|t: int| 0 <= t < r@.len() ==> object_result_ok(obj_mgr.state().0, #[trigger] r@[t], query@),
        forall|t: int, u: int| 0 <= t < u < r@.len() ==> #[trigger] r@[t].address != #[trigger] r@[u].address,
        r@.len() < SEARCH_LIMIT ==> forall|a: u64|
            obj_mgr.state().0.contains_key(a) && object_hit(obj_mgr.state().0[a], query@) ==> exists|t: int|
                0 <= t < r@.len() && #[trigger] r@[t].address == a,
{
    let ghost ba = obj_mgr.state().0;
    let keys = obj_mgr.addresses();
    let mut found: Vec<GlobalSearchResult> = Vec::new();
    let mut i: usize = 0;
    while i < keys.len() && found.len() < SEARCH_LIMIT
        invariant
            ba == obj_mgr.state().0,
            keys_match(ba),
            keys@.no_duplicates(),
            forall|a: u64| keys@.contains(a) <==> ba.contains_key(a),
            query_lower@ == lower_of(query@),
            i <= keys@.len(),
            found@.len() <= SEARCH_LIMIT,
            forall|t: int| 0 <= t < found@.len() ==> object_result_ok(ba, #[trigger] found@[t], query@),
            forall|t: int| 0 <= t < found@.len() ==> exists|w: int| 0 <= w < i && keys@[w] == (#[trigger] found@[t]).address,
            forall|t: int, u: int| 0 <= t < u < found@.len() ==> #[trigger] found@[t].address != #[trigger] found@[u].address,
            forall|w: int| 0 <= w < i && object_hit(ba[#[trigger] keys@[w]], query@) ==> exists|t: int|
                0 <= t < found@.len() && #[trigger] found@[t].address == keys@[w],
        ensures
            found@.len() <= SEARCH_LIMIT,
            forall|t: int| 0 <= t < found@.len() ==> object_result_ok(ba, #[trigger] found@[t], query@),
            forall|t: int, u: int| 0 <= t < u < found@.len() ==> #[trigger] found@[t].address != #[trigger] found@[u].address,
            found@.len() < SEARCH_LIMIT ==> forall|w: int| 0 <= w < keys@.len() && object_hit(ba[#[trigger] keys@[w]], query@) ==> exists|t: int|
                0 <= t < found@.len() && #[trigger] found@[t].address == keys@[w],
        decreases keys@.len() - i,
    {
        let k = keys[i];
        proof {
            assert(keys@.contains(k));
        }
        let rec = match obj_mgr.get(k) {
            Some(o) => o,
            None => {
                proof {
                    assert(false);
                }
                return Vec::new();
            },
        };
        let ghost found0 = found@;
        let type_lower = lowercase(rec.type_label.as_str());
        let name_lower = lowercase(rec.name.as_str());
        if object_search_match(type_lower.as_str(), name_lower.as_str(), query_lower.as_str()) {
            proof {
                assert forall|t: int| 0 <= t < found0.len() implies found0[t].address != k by {
                    let w = choose|w: int| 0 <= w < i && keys@[w] == found0[t].address;
                }
            }
            found.push(GlobalSearchResult {
                package_name: extract_package_name(rec.full_name.as_str()),
                object_name: rec.name.clone(),
                type_label: rec.type_label.clone(),
                address: rec.address,
                member_name: None,
            });
            proof {
                assert(found@[found@.len() - 1].address == k);
                assert forall|w: int| 0 <= w < i + 1 && object_hit(ba[#[trigger] keys@[w]], query@) implies exists|t: int|
                    0 <= t < found@.len() && #[trigger] found@[t].address == keys@[w] by {
                    if w == i {
                        assert(found@[found@.len() - 1].address == keys@[w]);
                    } else {
                        let t = choose|t: int| 0 <= t < found0.len() && #[trigger] found0[t].address == keys@[w];
                        assert(found@[t] == found0[t]);
                    }
                }
                assert forall|t: int| 0 <= t < found@.len() implies exists|w: int| 0 <= w < i + 1 && keys@[w] == (#[trigger] found@[t]).address by {
                    if t < found0.len() {
                        assert(found@[t] == found0[t]);
                        let w = choose|w: int| 0 <= w < i && keys@[w] == found0[t].address;
                    }
                }
            }
        } else {
            proof {
                assert forall|t: int| 0 <= t < found@.len() implies exists|w: int| 0 <= w < i + 1 && keys@[w] == (#[trigger] found@[t]).address by {
                    let w = choose|w: int| 0 <= w < i && keys@[w] == found@[t].address;
                }
            }
        }
        i = i + 1;
    }
    proof {
        if found@.len() < SEARCH_LIMIT {
            assert forall|a: u64| ba.contains_key(a) && object_hit(ba[a], query@) implies exists|t: int|
                0 <= t < found@.len() && #[trigger] found@[t].address == a by {
                assert(keys@.contains(a));
                let w = choose|w: int| 0 <= w < keys@.len() && keys@[w] == a;
            }
        }
    }
    found
}

/// Member-mode hits in catalog order, stopping at the limit.
fn search_members(
    obj_mgr: &ObjectManager,
    img: &MemoryImage,
    pool: &FNamePool,
    offsets: &UEOffset,
    query: &str,
    query_lower: &String,
) -> (r: Vec<GlobalSearchResult>)
    requires
        obj_mgr.wf(),
        img.wf(),
        query_lower@ == lower_of(query@),
    ensures
        r@.len() <= SEARCH_LIMIT,
        forall|t: int| 0 <= t < r@.len() ==> member_result_ok(obj_mgr.state().0, *img, *pool, *offsets, #[trigger] r@[t], query@),
        members_complete(obj_mgr.state().0, *img, *pool, *offsets, query@, r@),
{
    let ghost ba = obj_mgr.state().0;
    let keys = obj_mgr.addresses();
    let mut found: Vec<GlobalSearchResult> = Vec::new();
    let mut i: usize = 0;
    let ghost mut done: Set<u64> = Set::empty();
    while i < keys.len() && found.len() < SEARCH_LIMIT
        invariant
            forall|a: u64| done.contains(a) <==> exists|w: int| 0 <= w < i && keys@[w] == a,
            found@.len() < SEARCH_LIMIT ==> forall|a: u64, k: nat|
                done.contains(a) && #[trigger] member_hit(ba, *img, *pool, *offsets, query@, a, k) ==> lists_member(
                    found@,
                    a,
                    member_name_at(*img, *pool, *offsets, a, k),
                ),
            ba == obj_mgr.state().0,
            img.wf(),
            keys_match(ba),
            forall|a: u64| keys@.contains(a) <==> ba.contains_key(a),
            query_lower@ == lower_of(query@),
            i <= keys@.len(),
            found@.len() <= SEARCH_LIMIT,
            forall|t: int| 0 <= t < found@.len() ==> member_result_ok(ba, *img, *pool, *offsets, #[trigger] found@[t], query@),
        decreases keys@.len() - i,
    {
        let k = keys[i];
        proof {
            assert(keys@.contains(k));
        }
        let rec = match obj_mgr.get(k) {
            Some(o) => o,
            None => {
                proof {
                    assert(false);
                }
                return Vec::new();
            },
        };
        let type_lower = lowercase(rec.type_label.as_str());
        if str_contains(type_lower.as_str(), "class") || str_contains(type_lower.as_str(), "struct") {
            let package = extract_package_name(rec.full_name.as_str());
            let mut child = read_ptr_or_zero(img, add_wrapping(k, offsets.member));
            let mut steps: u64 = 0;
            while child > MIN_POINTER && steps < MEMBER_WALK_LIMIT && found.len() < SEARCH_LIMIT
                invariant
                    found@.len() < SEARCH_LIMIT ==> forall|a: u64, q: nat|
                        done.contains(a) && #[trigger] member_hit(ba, *img, *pool, *offsets, query@, a, q) ==> lists_member(
                            found@,
                            a,
                            member_name_at(*img, *pool, *offsets, a, q),
                        ),
                    found@.len() < SEARCH_LIMIT ==> forall|q: nat|
                        q < steps && #[trigger] member_hit(ba, *img, *pool, *offsets, query@, k, q) ==> lists_member(
                            found@,
                            k,
                            member_name_at(*img, *pool, *offsets, k, q),
                        ),
                    ba == obj_mgr.state().0,
                    img.wf(),
                    ba.contains_key(k),
                    rec@ == ba[k],
                    k == rec.address,
                    package@ == package_of(rec.full_name@),
                    query_lower@ == lower_of(query@),
                    contains(lower_of(rec.type_label@), "class"@) || contains(lower_of(rec.type_label@), "struct"@),
                    found@.len() <= SEARCH_LIMIT,
                    steps <= MEMBER_WALK_LIMIT,
                    child == member_node(*img, *offsets, k, steps as nat),
                    forall|j: nat| j < steps ==> #[trigger] member_node(*img, *offsets, k, j) > MIN_POINTER,
                    forall|t: int| 0 <= t < found@.len() ==> member_result_ok(ba, *img, *pool, *offsets, #[trigger] found@[t], query@),
                decreases MEMBER_WALK_LIMIT - steps,
            {
                let name_id = read_i32_or_zero(img, add_wrapping(child, offsets.member_fname_index));
                let member = pool_name(img, pool, name_id);
                let member_lower = lowercase(member.as_str());
                proof {
                    assert(member_reached(*img, *offsets, k, steps as nat));
                    assert(member@ == member_name_at(*img, *pool, *offsets, k, steps as nat));
                }
                if str_contains(member_lower.as_str(), query_lower.as_str()) {
                    let ghost before = found@;
                    let ghost step = steps as nat;
                    found.push(GlobalSearchResult {
                        package_name: package.clone(),
                        object_name: rec.name.clone(),
                        type_label: rec.type_label.clone(),
                        address: rec.address,
                        member_name: Some(member),
                    });
                    proof {
                        assert forall|t: int| 0 <= t < found@.len() implies member_result_ok(ba, *img, *pool, *offsets, #[trigger] found@[t], query@) by {
                            if t < before.len() {
                                assert(found@[t] == before[t]);
                            } else {
                                let m = found@[t].member_name->0;
                                assert(member_reached(*img, *offsets, found@[t].address, step));
                                assert(m@ == member_name_at(*img, *pool, *offsets, found@[t].address, step));
                                assert(contains(lower_of(m@), lower_of(query@)));
                            }
                        }
                        let last = found@[found@.len() - 1];
                        assert(found@ == before.push(last));
                        if found@.len() < SEARCH_LIMIT {
                            assert forall|a: u64, q: nat|
                                done.contains(a) && #[trigger] member_hit(ba, *img, *pool, *offsets, query@, a, q) implies lists_member(
                                found@,
                                a,
                                member_name_at(*img, *pool, *offsets, a, q),
                            ) by {
                                lemma_lists_push(before, last, a, member_name_at(*img, *pool, *offsets, a, q));
                            }
                            assert forall|q: nat|
                                q < steps + 1 && #[trigger] member_hit(ba, *img, *pool, *offsets, query@, k, q) implies lists_member(
                                found@,
                                k,
                                member_name_at(*img, *pool, *offsets, k, q),
                            ) by {
                                if q < steps {
                                    lemma_lists_push(before, last, k, member_name_at(*img, *pool, *offsets, k, q));
                                } else {
                                    assert(found@[found@.len() - 1].address == k);
                                }
                            }
                        }
                    }
                } else {
                    proof {
                        if found@.len() < SEARCH_LIMIT {
                            assert forall|q: nat|
                                q < steps + 1 && #[trigger] member_hit(ba, *img, *pool, *offsets, query@, k, q) implies lists_member(
                                found@,
                                k,
                                member_name_at(*img, *pool, *offsets, k, q),
                            ) by {
                                if q == steps {
                                    assert(!contains(lower_of(member@), lower_of(query@)));
                                }
                            }
                        }
                    }
                }
                child = read_ptr_or_zero(img, add_wrapping(child, offsets.next_member));
                steps = steps + 1;
            }
            proof {
                if found@.len() < SEARCH_LIMIT {
                    assert forall|q: nat| #[trigger] member_hit(ba, *img, *pool, *offsets, query@, k, q) implies lists_member(
                        found@,
                        k,
                        member_name_at(*img, *pool, *offsets, k, q),
                    ) by {
                        if q >= steps {
                            assert(member_reached(*img, *offsets, k, q));
                            assert(member_node(*img, *offsets, k, steps as nat) > MIN_POINTER);
                        }
                    }
                }
            }
        }
        proof {
            if found@.len() < SEARCH_LIMIT {
                assert forall|q: nat| !#[trigger] member_hit(ba, *img, *pool, *offsets, query@, k, q) || lists_member(
                    found@,
                    k,
                    member_name_at(*img, *pool, *offsets, k, q),
                ) by {}
            }
            done = done.insert(k);
            assert forall|a: u64| done.contains(a) <==> exists|w: int| 0 <= w < i + 1 && keys@[w] == a by {
                if done.contains(a) && a != k {
                    let w = choose|w: int| 0 <= w < i && keys@[w] == a;
                }
            }
        }
        i = i + 1;
    }
    proof {
        if found@.len() < SEARCH_LIMIT {
            assert forall|a: u64, q: nat| #[trigger] member_hit(ba, *img, *pool, *offsets, query@, a, q) implies lists_member(
                found@,
                a,
                member_name_at(*img, *pool, *offsets, a, q),
            ) by {
                assert(keys@.contains(a));
                let w = choose|w: int| 0 <= w < keys@.len() && keys@[w] == a;
                assert(done.contains(a));
            }
        }
    }
    found
}

fn copy_result(r: &GlobalSearchResult) -> (c: GlobalSearchResult)
    ensures
        c == *r,
{
    GlobalSearchResult {
        package_name: r.package_name.clone(),
        object_name: r.object_name.clone(),
        type_label: r.type_label.clone(),
        address: r.address,
        member_name: match &r.member_name {
            Some(m) => Some(m.clone()),
            None => None,
        },
    }
}

/// The results in search order; each input result once.
fn sort_results(found: Vec<GlobalSearchResult>) -> (r: Vec<GlobalSearchResult>)
    ensures
        r@.len() == found@.len(),
        forall|i: int, j: int| 0 <= i < j < r@.len() ==> !result_lt(#[trigger] r@[j], #[trigger] r@[i]),
        exists|p: Seq<usize>|
            #![trigger p.len()]
            p.len() == found@.len() && p.no_duplicates() && (forall|x: int| 0 <= x < p.len() ==> #[trigger] p[x] < found@.len())
                && forall|x: int| 0 <= x < r@.len() ==> #[trigger] r@[x] == found@[p[x] as int],
{
    let mut keys: Vec<SortKey> = Vec::new();
    let mut t: usize = 0;
    while t < found.len()
        invariant
            t <= found@.len(),
            keys@.len() == t,
            forall|q: int|
                0 <= q < t ==> (#[trigger] keys@[q]).index == q && keys@[q].rank == result_key(found@[q]).0 && keys@[q].primary@
                    == result_key(found@[q]).1 && keys@[q].secondary@ == result_key(found@[q]).2,
        decreases found@.len() - t,
    {
        let f = &found[t];
        let rank = kind_rank(lowercase(f.type_label.as_str()).as_str());
        let primary = chars_of(lowercase(f.object_name.as_str()).as_str());
        let secondary = chars_of(lowercase(f.package_name.as_str()).as_str());
        keys.push(SortKey { rank, primary, secondary, index: t });
        t = t + 1;
    }
    let ghost keyseq = keys@;
    let perm = sorted_order(keys);
    let plen = perm.len();
    proof {
        assert(perm@.len() == found@.len());
    }
    let mut out: Vec<GlobalSearchResult> = Vec::new();
    let mut q: usize = 0;
    while q < plen
        invariant
            plen == perm@.len() == found@.len() == keyseq.len(),
            forall|x: int| 0 <= x < perm@.len() ==> #[trigger] perm@[x] < found@.len(),
            q <= plen,
            out@.len() == q,
            forall|x: int| 0 <= x < q ==> #[trigger] out@[x] == found@[perm@[x] as int],
        decreases plen - q,
    {
        out.push(copy_result(&found[perm[q]]));
        q = q + 1;
    }
    proof {
        assert forall|x: int, y: int| 0 <= x < y < out@.len() implies !result_lt(#[trigger] out@[y], #[trigger] out@[x]) by {
            assert(!key_lt(keyseq[perm@[y] as int], keyseq[perm@[x] as int]));
        }
        assert(perm@.len() == found@.len() && perm@.no_duplicates());
    }
    out
}

} // verus!
