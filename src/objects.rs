use crate::anchors::{add_wrapping, wrap64};
use crate::memory::{plausible, MemoryImage, MIN_POINTER, USER_SPACE_END};
use crate::name_pool::{fixed_result, FNamePool};
use crate::offsets::UEOffset;
use crate::shared_map::{
    id_clear, id_get, id_insert, ids_of, new_id_map, new_object_map, object_clear, object_get,
    object_insert, object_keys, objects_of, IdMap, ObjectMap,
};
use crate::text::{contains, same_text, str_contains};
use vstd::prelude::*;
use vstd::string::*;

verus! {

/// A cached object of the target.
#[derive(Debug)]
pub struct ObjectData {
    pub address: u64,
    pub id: i32,
    pub name: String,
    pub type_label: String,
    pub full_name: String,
    pub outer: u64,
    pub class_ptr: u64,
}

/// The value of an `ObjectData`.
pub struct ObjectView {
    pub address: u64,
    pub id: i32,
    pub name: Seq<char>,
    pub type_label: Seq<char>,
    pub full_name: Seq<char>,
    pub outer: u64,
    pub class_ptr: u64,
}

impl View for ObjectData {
    type V = ObjectView;

    open spec fn view(&self) -> ObjectView {
        ObjectView {
            address: self.address,
            id: self.id,
            name: self.name@,
            type_label: self.type_label@,
            full_name: self.full_name@,
            outer: self.outer,
            class_ptr: self.class_ptr,
        }
    }
}

impl ObjectData {
    pub fn empty() -> (r: ObjectData)
        ensures
            r@ == (ObjectView {
                address: 0,
                id: 0,
                name: Seq::empty(),
                type_label: Seq::empty(),
                full_name: Seq::empty(),
                outer: 0,
                class_ptr: 0,
            }),
    {
        ObjectData {
            address: 0,
            id: 0,
            name: String::new(),
            type_label: String::new(),
            full_name: String::new(),
            outer: 0,
            class_ptr: 0,
        }
    }

    /// A copy with the same value.
    pub fn copy_of(&self) -> (r: ObjectData)
        ensures
            r@ == self@,
    {
        ObjectData {
            address: self.address,
            id: self.id,
            name: self.name.clone(),
            type_label: self.type_label.clone(),
            full_name: self.full_name.clone(),
            outer: self.outer,
            class_ptr: self.class_ptr,
        }
    }
}

pub open spec fn opt_view(r: Option<ObjectData>) -> Option<ObjectView> {
    match r {
        Some(o) => Some(o@),
        None => None,
    }
}

/// The unsigned 32-bit id with the same bits as `x`.
pub open spec fn u32_of(x: i32) -> u32 {
    if x < 0 {
        (x + 0x1_0000_0000) as u32
    } else {
        x as u32
    }
}

pub open spec fn i32_or_zero(img: MemoryImage, a: int) -> i32 {
    match img.i32_at(a) {
        Some(x) => x as i32,
        None => 0,
    }
}

pub open spec fn ptr_or_zero(img: MemoryImage, a: int) -> u64 {
    match img.ptr_at(a) {
        Some(p) => p as u64,
        None => 0,
    }
}

/// Text of name `id` in the pool, or no text where the lookup fails.
pub open spec fn pool_text(img: MemoryImage, pool: FNamePool, id: i32) -> Seq<char> {
    match fixed_result(img, pool.base_address as int, pool.string_offset, u32_of(id)) {
        Ok(t) => t,
        Err(_) => Seq::empty(),
    }
}

pub open spec fn field(base: u64, off: u64) -> int {
    wrap64(base + off)
}

/// Basic info read the way property nodes are laid out: the type name comes
/// through the member-type pointer. `None` where that type cannot be read or
/// has no name.
pub open spec fn path_a(img: MemoryImage, pool: FNamePool, o: UEOffset, addr: u64) -> Option<ObjectView> {
    let type_ptr = ptr_or_zero(img, field(addr, o.member_type_offset));
    match img.i32_at(field(type_ptr, o.member_type)) {
        None => None,
        Some(type_id) => {
            let type_label = pool_text(img, pool, type_id as i32);
            if type_label.len() == 0 {
                None
            } else {
                Some(
                    ObjectView {
                        address: addr,
                        id: i32_or_zero(img, field(addr, o.id)),
                        name: pool_text(img, pool, i32_or_zero(img, field(addr, o.member_fname_index))),
                        type_label,
                        full_name: Seq::empty(),
                        outer: ptr_or_zero(img, field(addr, o.outer)),
                        class_ptr: 0,
                    },
                )
            }
        },
    }
}

/// Basic info read the standard way: the type name is the name of the
/// object's class. `None` where the class's name id cannot be read.
pub open spec fn path_b(img: MemoryImage, pool: FNamePool, o: UEOffset, addr: u64) -> Option<ObjectView> {
    let class_ptr = ptr_or_zero(img, field(addr, o.class));
    match img.i32_at(field(class_ptr, o.fname_index)) {
        None => None,
        Some(type_id) => Some(
            ObjectView {
                address: addr,
                id: i32_or_zero(img, field(addr, o.id)),
                name: pool_text(img, pool, i32_or_zero(img, field(addr, o.fname_index))),
                type_label: pool_text(img, pool, type_id as i32),
                full_name: Seq::empty(),
                outer: ptr_or_zero(img, field(addr, o.outer)),
                class_ptr,
            },
        ),
    }
}

/// Path A first, then path B.
pub open spec fn basic_info(img: MemoryImage, pool: FNamePool, o: UEOffset, addr: u64) -> Option<ObjectView> {
    match path_a(img, pool, o, addr) {
        Some(v) => Some(v),
        None => path_b(img, pool, o, addr),
    }
}

pub open spec fn is_property(type_label: Seq<char>) -> bool {
    contains(type_label, "Property"@)
}

pub open spec fn is_member_kind(type_label: Seq<char>) -> bool {
    contains(type_label, "Property"@) || contains(type_label, "Function"@)
}

/// Separator between an outer's name and its child's: `:` where the child
/// is a property or function and the outer is neither, else `.`.
pub open spec fn separator(child_type: Seq<char>, outer_type: Seq<char>) -> Seq<char> {
    if is_member_kind(child_type) && !is_member_kind(outer_type) {
        seq![':']
    } else {
        seq!['.']
    }
}

/// Most names composed in one outer-chain walk.
pub const MAX_CONCAT: u64 = 10;

/// A record cached while walking an outer chain: basic info only, its full
/// name is its name.
pub open spec fn shallow(v: ObjectView) -> ObjectView {
    ObjectView { full_name: v.name, ..v }
}

/// The record an outer-chain walk uses for `cur`: the cached one, else a
/// shallow record from basic info where it has a name and a type name of
/// at most 100 characters.
#[verifier::opaque]
pub open spec fn walk_next(img: MemoryImage, pool: FNamePool, o: UEOffset, cache: Map<u64, ObjectView>, cur: u64) -> Option<ObjectView> {
    if cache.contains_key(cur) {
        Some(cache[cur])
    } else if img.ptr_at(cur as int) is None {
        None
    } else {
        match basic_info(img, pool, o, cur) {
            Some(v) => if v.type_label.len() == 0 || v.type_label.len() > 100 || v.name.len() == 0 {
                None
            } else {
                Some(shallow(v))
            },
            None => None,
        }
    }
}

/// The outer-chain walk from `cur`, having composed `result` with `count`
/// names prepended and `prev_type` the type of the last one, `seen` the
/// addresses already passed: returns the composed name and the cache after
/// the shallow records it added. It stops at an implausible outer, at an
/// address already passed (so no object is named twice), at an outer
/// without usable basic info, or after `MAX_CONCAT` names.
pub open spec fn walk(
    img: MemoryImage,
    pool: FNamePool,
    o: UEOffset,
    cache: Map<u64, ObjectView>,
    result: Seq<char>,
    cur: u64,
    prev_type: Seq<char>,
    count: nat,
    seen: Set<u64>,
) -> (Seq<char>, Map<u64, ObjectView>)
    decreases MAX_CONCAT - count,
{
    if !(plausible(cur as int) && count < MAX_CONCAT) || seen.contains(cur) {
        (result, cache)
    } else {
        match walk_next(img, pool, o, cache, cur) {
            None => (result, cache),
            Some(c) => walk(
                img,
                pool,
                o,
                if cache.contains_key(cur) {
                    cache
                } else {
                    cache.insert(cur, c)
                },
                c.name + separator(prev_type, c.type_label) + result,
                c.outer,
                c.type_label,
                count + 1,
                seen.insert(cur),
            ),
        }
    }
}

/// Names composed by a walk (at most `MAX_CONCAT`).
pub open spec fn walk_steps(
    img: MemoryImage,
    pool: FNamePool,
    o: UEOffset,
    cache: Map<u64, ObjectView>,
    cur: u64,
    count: nat,
    seen: Set<u64>,
) -> nat
    decreases MAX_CONCAT - count,
{
    if !(plausible(cur as int) && count < MAX_CONCAT) || seen.contains(cur) {
        0
    } else {
        match walk_next(img, pool, o, cache, cur) {
            None => 0,
            Some(c) => 1 + walk_steps(
                img,
                pool,
                o,
                if cache.contains_key(cur) {
                    cache
                } else {
                    cache.insert(cur, c)
                },
                c.outer,
                count + 1,
                seen.insert(cur),
            ),
        }
    }
}

/// The record `try_save_object` builds from basic info: an empty name
/// becomes `InvalidName`, and the full name starts as the name.
pub open spec fn normalized(v: ObjectView) -> ObjectView {
    let name = if v.name.len() == 0 {
        "InvalidName"@
    } else {
        v.name
    };
    ObjectView { name, full_name: name, ..v }
}

/// Catalog state: records by address, addresses by id, the count, and the
/// addresses whose records were completed (counted).
pub type CacheState = (Map<u64, ObjectView>, Map<i32, u64>, nat, Set<u64>);

/// What `try_save_object` does to the catalog and returns.
#[verifier::opaque]
pub open spec fn save_spec(
    m: CacheState,
    img: MemoryImage,
    pool: FNamePool,
    o: UEOffset,
    addr: u64,
    depth: u64,
    max_depth: u64,
) -> (CacheState, Option<ObjectView>) {
    if !plausible(addr as int) || depth >= max_depth || img.ptr_at(addr as int) is None {
        (m, None)
    } else if m.0.contains_key(addr) {
        (m, Some(m.0[addr]))
    } else {
        match basic_info(img, pool, o, addr) {
            None => (m, None),
            Some(v0) => {
                let v = normalized(v0);
                if v.type_label.len() == 0 || v.type_label.len() > 100 {
                    (m, None)
                } else if v.name == "None"@ || v.name == "InvalidName"@ {
                    (m, Some(v))
                } else {
                    let by_addr1 = m.0.insert(addr, v);
                    let by_id1 = if v.id > 0 && !is_property(v.type_label) {
                        m.1.insert(v.id, addr)
                    } else {
                        m.1
                    };
                    let walked = if !is_property(v.type_label) && v.outer != addr {
                        walk(img, pool, o, by_addr1, v.name, v.outer, v.type_label, 0, set![addr])
                    } else {
                        (v.name, by_addr1)
                    };
                    let vf = ObjectView { full_name: walked.0, ..v };
                    ((walked.1.insert(addr, vf), by_id1, m.2 + 1, m.3.insert(addr)), Some(vf))
                }
            },
        }
    }
}

/// `full` is `name`, or ends with `.name` or `:name`.
pub open spec fn ends_with_name(full: Seq<char>, name: Seq<char>) -> bool {
    ||| full == name
    ||| (full.len() > name.len() && full.subrange(full.len() - name.len(), full.len() as int) == name
        && (full[full.len() - name.len() - 1] == '.' || full[full.len() - name.len() - 1] == ':'))
}

/// Every record sits under its own address.
pub open spec fn keys_match(ba: Map<u64, ObjectView>) -> bool {
    forall|a: u64| #[trigger] ba.contains_key(a) ==> ba[a].address == a
}

/// Every id maps to a cached, non-property record with that id.
pub open spec fn ids_consistent(ba: Map<u64, ObjectView>, bi: Map<i32, u64>) -> bool {
    forall|id: i32|
        #[trigger] bi.contains_key(id) ==> ba.contains_key(bi[id]) && ba[bi[id]].id == id && !is_property(
            ba[bi[id]].type_label,
        )
}

/// Every record has a type name of at most 100 characters.
pub open spec fn type_labels_present(ba: Map<u64, ObjectView>) -> bool {
    forall|a: u64| #[trigger] ba.contains_key(a) ==> ba[a].type_label.len() > 0 && ba[a].type_label.len() <= 100
}

/// Completed records are cached, not named `None` or `InvalidName`, and
/// have type names of at most 100 characters.
pub open spec fn completed_records(ba: Map<u64, ObjectView>, done: Set<u64>) -> bool {
    forall|a: u64|
        #[trigger] done.contains(a) ==> ba.contains_key(a) && ba[a].name != "None"@ && ba[a].name
            != "InvalidName"@ && ba[a].type_label.len() <= 100
}

/// Every full name ends with its record's name; a record that is its own
/// outer has its name as full name.
pub open spec fn full_names_end_with_name(ba: Map<u64, ObjectView>) -> bool {
    forall|a: u64|
        #[trigger] ba.contains_key(a) ==> ends_with_name(ba[a].full_name, ba[a].name) && (ba[a].outer
            == a ==> ba[a].full_name == ba[a].name)
}

pub open spec fn catalog_wf(m: CacheState) -> bool {
    &&& keys_match(m.0)
    &&& ids_consistent(m.0, m.1)
    &&& type_labels_present(m.0)
    &&& m.3.finite()
    &&& m.2 == m.3.len()
    &&& completed_records(m.0, m.3)
    &&& full_names_end_with_name(m.0)
}

/// The two-tier object cache: records by address (the authority), addresses
/// by id, and the count of completed records.
pub struct ObjectManager {
    pub cache_by_address: ObjectMap,
    pub cache_by_id: IdMap,
    pub total_object_count: u64,
    pub completed: Ghost<Set<u64>>,
}

impl ObjectManager {
    pub open spec fn state(&self) -> CacheState {
        (objects_of(self.cache_by_address), ids_of(self.cache_by_id), self.total_object_count as nat, self.completed@)
    }

    pub open spec fn wf(&self) -> bool {
        catalog_wf(self.state())
    }

    pub fn new() -> (r: ObjectManager)
        ensures
            r.wf(),
            r.state().0.dom() == Set::<u64>::empty(),
            r.state().1.dom() == Set::<i32>::empty(),
            r.state().2 == 0,
    {
        ObjectManager {
            cache_by_address: new_object_map(),
            cache_by_id: new_id_map(),
            total_object_count: 0,
            completed: Ghost(Set::empty()),
        }
    }

    /// Empties both maps and the count.
    pub fn clear(&mut self)
        ensures
            final(self).wf(),
            final(self).state().0.dom() == Set::<u64>::empty(),
            final(self).state().1.dom() == Set::<i32>::empty(),
            final(self).state().2 == 0,
    {
        object_clear(&mut self.cache_by_address);
        id_clear(&mut self.cache_by_id);
        self.total_object_count = 0;
        self.completed = Ghost(Set::empty());
    }

    /// The cached record at `address`.
    pub fn get(&self, address: u64) -> (r: Option<ObjectData>)
        ensures
            opt_view(r) == (if self.state().0.contains_key(address) {
                Some(self.state().0[address])
            } else {
                None
            }),
    {
        object_get(&self.cache_by_address, address)
    }

    /// The address cached under `id`.
    pub fn address_of_id(&self, id: i32) -> (r: Option<u64>)
        ensures
            r == (if self.state().1.contains_key(id) {
                Some(self.state().1[id])
            } else {
                None
            }),
    {
        id_get(&self.cache_by_id, id)
    }

    /// Every cached address, once each.
    pub fn addresses(&self) -> (r: Vec<u64>)
        ensures
            r@.no_duplicates(),
            forall|a: u64| r@.contains(a) <==> self.state().0.contains_key(a),
    {
        object_keys(&self.cache_by_address)
    }

    /// Caches the object at `address` if it is new: basic info by path A
    /// then path B, an immediate partial record (which breaks outer-chain
    /// cycles), then the full name from the outer chain, then the completed
    /// record and one more in the count.
    pub fn try_save_object(
        &mut self,
        address: u64,
        img: &MemoryImage,
        pool: &FNamePool,
        offsets: &UEOffset,
        depth: u64,
        max_depth: u64,
    ) -> (r: Option<ObjectData>)
        requires
            old(self).wf(),
            img.wf(),
            old(self).total_object_count < u64::MAX,
        ensures
            final(self).wf(),
            (final(self).state(), opt_view(r)) == save_spec(old(self).state(), *img, *pool, *offsets, address, depth, max_depth),
            !plausible(address as int) ==> r is None && final(self).state() == old(self).state(),
            final(self).total_object_count <= old(self).total_object_count + 1,
            match r {
                Some(v) => v.outer == address ==> v.full_name@ == v.name@,
                None => true,
            },
    {
        let ghost m0 = self.state();
        proof {
            lemma_save_keeps_wf(m0, *img, *pool, *offsets, address, depth, max_depth);
            reveal(save_spec);
        }
        if address <= MIN_POINTER || address >= USER_SPACE_END {
            return None;
        }
        if depth >= max_depth {
            return None;
        }
        if img.read_ptr(address).is_none() {
            return None;
        }
        match self.get(address) {
            Some(cached) => {
                return Some(cached);
            },
            None => {},
        }
        let mut obj = match get_basic_info_1(address, img, pool, offsets) {
            Some(v) => v,
            None => match get_basic_info_2(address, img, pool, offsets) {
                Some(v) => v,
                None => return None,
            },
        };
        if obj.name.unicode_len() == 0 {
            obj.name = String::from_str("InvalidName");
        }
        obj.full_name = obj.name.clone();
        let tlen = obj.type_label.unicode_len();
        if tlen == 0 || tlen > 100 {
            return None;
        }
        if same_text(obj.name.as_str(), "None") || same_text(obj.name.as_str(), "InvalidName") {
            return Some(obj);
        }
        let ghost v = obj@;
        object_insert(&mut self.cache_by_address, address, obj.copy_of());
        let prop = str_contains(obj.type_label.as_str(), "Property");
        if obj.id > 0 && !prop {
            id_insert(&mut self.cache_by_id, obj.id, address);
        }
        if !prop && obj.outer != address {
            let full = self.resolve_full_name(&obj, img, pool, offsets);
            obj.full_name = full;
        }
        let ghost mid = self.state();
        object_insert(&mut self.cache_by_address, address, obj.copy_of());
        self.total_object_count = self.total_object_count + 1;
        self.completed = Ghost(self.completed@.insert(address));
        proof {
            lemma_save_keeps_wf(m0, *img, *pool, *offsets, address, depth, max_depth);
        }
        Some(obj)
    }

    /// Full name of `obj` from its outer chain: cached outers are used as
    /// they are; an uncached outer gets a shallow record (basic info only)
    /// and the walk goes on; it stops at an address already passed (`obj`'s
    /// own included) and composes at most `MAX_CONCAT` names.
    pub fn resolve_full_name(&mut self, obj: &ObjectData, img: &MemoryImage, pool: &FNamePool, offsets: &UEOffset) -> (r: String)
        requires
            img.wf(),
        ensures
            (r@, final(self).state().0) == walk(*img, *pool, *offsets, old(self).state().0, obj.name@, obj.outer, obj.type_label@, 0, set![obj.address]),
            final(self).state().1 == old(self).state().1,
            final(self).state().2 == old(self).state().2,
            final(self).state().3 == old(self).state().3,
            final(self).total_object_count == old(self).total_object_count,
    {
        let mut result = obj.name.clone();
        let mut current = obj.outer;
        let mut count: u64 = 0;
        let mut prev_type = obj.type_label.clone();
        let ghost target = walk(*img, *pool, *offsets, self.state().0, obj.name@, obj.outer, obj.type_label@, 0, set![obj.address]);
        let mut visited: Vec<u64> = Vec::new();
        visited.push(obj.address);
        let ghost mut seen: Set<u64> = set![obj.address];
        proof {
            assert forall|a: u64| seen.contains(a) <==> visited@.contains(a) by {
                if a == obj.address {
                    assert(visited@[0] == a);
                }
            }
        }
        while current > MIN_POINTER && current < USER_SPACE_END && count < MAX_CONCAT && !holds_address(&visited, current)
            invariant
                img.wf(),
                count <= MAX_CONCAT,
                forall|a: u64| seen.contains(a) <==> visited@.contains(a),
                target == walk(*img, *pool, *offsets, self.state().0, result@, current, prev_type@, count as nat, seen),
                self.state().1 == old(self).state().1,
                self.state().2 == old(self).state().2,
                self.state().3 == old(self).state().3,
                self.total_object_count == old(self).total_object_count,
            ensures
                target == (result@, self.state().0),
            decreases MAX_CONCAT - count,
        {
            let ghost cache = self.state().0;
            let (next_obj, was_cached) = match self.outer_record(current, img, pool, offsets) {
                Some(pair) => pair,
                None => {
                    proof {
                        assert(walk(*img, *pool, *offsets, cache, result@, current, prev_type@, count as nat, seen) == (result@, cache));
                    }
                    break;
                },
            };
            if !was_cached {
                object_insert(&mut self.cache_by_address, current, next_obj.copy_of());
            }
            proof {
                assert(self.state().0 == (if cache.contains_key(current) {
                    cache
                } else {
                    cache.insert(current, next_obj@)
                }));
            }
            let sep = separator_text(prev_type.as_str(), next_obj.type_label.as_str());
            let mut next = next_obj.name.clone();
            next.append(sep);
            next.append(result.as_str());
            result = next;
            prev_type = next_obj.type_label.clone();
            let ghost vis0 = visited@;
            proof {
                seen = seen.insert(current);
            }
            visited.push(current);
            proof {
                assert forall|a: u64| seen.contains(a) <==> visited@.contains(a) by {
                    if vis0.contains(a) {
                        let w = choose|w: int| 0 <= w < vis0.len() && vis0[w] == a;
                        assert(visited@[w] == a);
                    }
                    if a == current {
                        assert(visited@[visited@.len() - 1] == a);
                    }
                    if visited@.contains(a) && a != current {
                        let w = choose|w: int| 0 <= w < visited@.len() && visited@[w] == a;
                        assert(w < vis0.len());
                        assert(vis0[w] == a);
                    }
                }
            }
            current = next_obj.outer;
            count = count + 1;
        }
        proof {
            assert(target == (result@, self.state().0));
        }
        result
    }

    /// The record a walk uses for `cur` (see `walk_next`), and whether it was
    /// already cached.
    fn outer_record(&self, cur: u64, img: &MemoryImage, pool: &FNamePool, offsets: &UEOffset) -> (r: Option<(ObjectData, bool)>)
        requires
            img.wf(),
        ensures
            match r {
                Some((c, was)) => walk_next(*img, *pool, *offsets, self.state().0, cur) == Some(c@) && was
                    == self.state().0.contains_key(cur),
                None => walk_next(*img, *pool, *offsets, self.state().0, cur) is None,
            },
    {
        reveal(walk_next);
        match self.get(cur) {
            Some(cached) => {
                return Some((cached, true));
            },
            None => {},
        }
        if img.read_ptr(cur).is_none() {
            return None;
        }
        let info = match get_basic_info_1(cur, img, pool, offsets) {
            Some(v) => v,
            None => match get_basic_info_2(cur, img, pool, offsets) {
                Some(v) => v,
                None => return None,
            },
        };
        let tlen = info.type_label.unicode_len();
        if tlen == 0 || tlen > 100 || info.name.unicode_len() == 0 {
            return None;
        }
        let mut record = info.copy_of();
        record.full_name = info.name.clone();
        proof {
            assert(record@ == shallow(info@));
        }
        Some((record, false))
    }
}

/// Whether `a` is among `v`.
fn holds_address(v: &Vec<u64>, a: u64) -> (r: bool)
    ensures
        r == v@.contains(a),
{
    let mut i: usize = 0;
    while i < v.len()
        invariant
            i <= v@.len(),
            forall|k: int| 0 <= k < i ==> v@[k] != a,
        decreases v@.len() - i,
    {
        if v[i] == a {
            return true;
        }
        i = i + 1;
    }
    false
}

/// Path A of basic info (see `path_a`).
fn get_basic_info_1(address: u64, img: &MemoryImage, pool: &FNamePool, o: &UEOffset) -> (r: Option<ObjectData>)
    requires
        img.wf(),
    ensures
        opt_view(r) == path_a(*img, *pool, *o, address),
{
    let type_ptr = read_ptr_or_zero(img, add_wrapping(address, o.member_type_offset));
    let type_id = match img.read_i32(add_wrapping(type_ptr, o.member_type)) {
        Some(v) => v,
        None => return None,
    };
    let type_label = pool_name(img, pool, type_id);
    if type_label.unicode_len() == 0 {
        return None;
    }
    let id = read_i32_or_zero(img, add_wrapping(address, o.id));
    let outer = read_ptr_or_zero(img, add_wrapping(address, o.outer));
    let name_id = read_i32_or_zero(img, add_wrapping(address, o.member_fname_index));
    let name = pool_name(img, pool, name_id);
    Some(ObjectData { address, id, name, type_label, full_name: String::new(), outer, class_ptr: 0 })
}

/// Path B of basic info (see `path_b`).
fn get_basic_info_2(address: u64, img: &MemoryImage, pool: &FNamePool, o: &UEOffset) -> (r: Option<ObjectData>)
    requires
        img.wf(),
    ensures
        opt_view(r) == path_b(*img, *pool, *o, address),
{
    let class_ptr = read_ptr_or_zero(img, add_wrapping(address, o.class));
    let type_id = match img.read_i32(add_wrapping(class_ptr, o.fname_index)) {
        Some(v) => v,
        None => return None,
    };
    let type_label = pool_name(img, pool, type_id);
    let name_id = read_i32_or_zero(img, add_wrapping(address, o.fname_index));
    let name = pool_name(img, pool, name_id);
    let id = read_i32_or_zero(img, add_wrapping(address, o.id));
    let outer = read_ptr_or_zero(img, add_wrapping(address, o.outer));
    Some(ObjectData { address, id, name, type_label, full_name: String::new(), outer, class_ptr })
}

fn separator_text(child_type: &str, outer_type: &str) -> (r: &'static str)
    ensures
        r@ == separator(child_type@, outer_type@),
{
    let child = str_contains(child_type, "Property") || str_contains(child_type, "Function");
    let outer = str_contains(outer_type, "Property") || str_contains(outer_type, "Function");
    if child && !outer {
        proof {
            reveal_strlit(":");
        }
        ":"
    } else {
        proof {
            reveal_strlit(".");
        }
        "."
    }
}

pub fn to_u32(x: i32) -> (r: u32)
    ensures
        r == u32_of(x),
{
    if x < 0 {
        ((x as i64) + 0x1_0000_0000) as u32
    } else {
        x as u32
    }
}

pub fn read_i32_or_zero(img: &MemoryImage, a: u64) -> (r: i32)
    requires
        img.wf(),
    ensures
        r == i32_or_zero(*img, a as int),
{
    match img.read_i32(a) {
        Some(v) => v,
        None => 0,
    }
}

pub fn read_ptr_or_zero(img: &MemoryImage, a: u64) -> (r: u64)
    requires
        img.wf(),
    ensures
        r == ptr_or_zero(*img, a as int),
{
    match img.read_ptr(a) {
        Some(v) => v,
        None => 0,
    }
}

/// Text of name `id`, or an empty string where the lookup fails.
pub fn pool_name(img: &MemoryImage, pool: &FNamePool, id: i32) -> (r: String)
    requires
        img.wf(),
    ensures
        r@ == pool_text(*img, *pool, id),
{
    match pool.lookup(img, to_u32(id)) {
        Ok(s) => s,
        Err(_) => String::new(),
    }
}

proof fn lemma_prepend(x: Seq<char>, sep: Seq<char>, r: Seq<char>, name: Seq<char>)
    requires
        ends_with_name(r, name),
        sep == seq![':'] || sep == seq!['.'],
    ensures
        ends_with_name(x + sep + r, name),
{
    let f = x + sep + r;
    let n = name.len() as int;
    if r == name {
        assert(f.subrange(f.len() - n, f.len() as int) =~= r);
        assert(f[f.len() - n - 1] == sep[0]);
    } else {
        assert(f.subrange(f.len() - n, f.len() as int) =~= r.subrange(r.len() - n, r.len() as int));
        assert(f[f.len() - n - 1] == r[r.len() - n - 1]);
    }
}

/// Cache facts a walk keeps: it only adds shallow records under new keys.
pub open spec fn walk_extends(before: Map<u64, ObjectView>, after: Map<u64, ObjectView>) -> bool {
    &&& forall|k: u64| #[trigger] before.contains_key(k) ==> after.contains_key(k) && after[k] == before[k]
    &&& forall|k: u64|
        #[trigger] after.contains_key(k) && !before.contains_key(k) ==> after[k].address == k
            && after[k].type_label.len() > 0 && after[k].type_label.len() <= 100 && after[k].full_name == after[k].name
}

proof fn lemma_basic_info_address(img: MemoryImage, pool: FNamePool, o: UEOffset, addr: u64)
    ensures
        basic_info(img, pool, o, addr) matches Some(v) ==> v.address == addr,
{
}

proof fn lemma_walk(
    img: MemoryImage,
    pool: FNamePool,
    o: UEOffset,
    cache: Map<u64, ObjectView>,
    result: Seq<char>,
    cur: u64,
    prev_type: Seq<char>,
    count: nat,
    seen: Set<u64>,
    name: Seq<char>,
)
    requires
        ends_with_name(result, name),
    ensures
        ends_with_name(walk(img, pool, o, cache, result, cur, prev_type, count, seen).0, name),
        walk_extends(cache, walk(img, pool, o, cache, result, cur, prev_type, count, seen).1),
    decreases MAX_CONCAT - count,
{
    if !(plausible(cur as int) && count < MAX_CONCAT) || seen.contains(cur) {
    } else {
        lemma_basic_info_address(img, pool, o, cur);
        reveal(walk_next);
        match walk_next(img, pool, o, cache, cur) {
            None => {},
            Some(c) => {
                let sep = separator(prev_type, c.type_label);
                let c1 = if cache.contains_key(cur) {
                    cache
                } else {
                    cache.insert(cur, c)
                };
                lemma_prepend(c.name, sep, result, name);
                lemma_walk(img, pool, o, c1, c.name + sep + result, c.outer, c.type_label, count + 1, seen.insert(cur), name);
                let after = walk(img, pool, o, c1, c.name + sep + result, c.outer, c.type_label, count + 1, seen.insert(cur)).1;
                assert forall|k: u64| #[trigger] cache.contains_key(k) implies after.contains_key(k) && after[k] == cache[k] by {
                    assert(c1.contains_key(k));
                }
                assert forall|k: u64| #[trigger] after.contains_key(k) && !cache.contains_key(k) implies after[k].address == k
                    && after[k].type_label.len() > 0 && after[k].type_label.len() <= 100 && after[k].full_name == after[k].name by {
                    if k == cur {
                        assert(c1.contains_key(k));
                    }
                }
            },
        }
    }
}

/// Every state `try_save_object` leaves behind keeps the catalog's
/// invariants: records under their own addresses, ids pointing at cached
/// non-property records with that id, type names present, the count equal
/// to the completed records (none named `None` or `InvalidName`, none with
/// a type name over 100 characters), and full names ending in the name.
pub proof fn lemma_save_keeps_wf(
    m: CacheState,
    img: MemoryImage,
    pool: FNamePool,
    o: UEOffset,
    addr: u64,
    depth: u64,
    max_depth: u64,
)
    requires
        catalog_wf(m),
    ensures
        catalog_wf(save_spec(m, img, pool, o, addr, depth, max_depth).0),
        match save_spec(m, img, pool, o, addr, depth, max_depth).1 {
            Some(v) => v.outer == addr ==> v.full_name == v.name,
            None => true,
        },
{
    reveal(save_spec);
    if !plausible(addr as int) || depth >= max_depth || img.ptr_at(addr as int) is None {
    } else if m.0.contains_key(addr) {
    } else {
        lemma_basic_info_address(img, pool, o, addr);
        match basic_info(img, pool, o, addr) {
            None => {},
            Some(v0) => {
                let v = normalized(v0);
                if v.type_label.len() == 0 || v.type_label.len() > 100 {
                } else if v.name == "None"@ || v.name == "InvalidName"@ {
                } else {
                    let by_addr1 = m.0.insert(addr, v);
                    let by_id1 = if v.id > 0 && !is_property(v.type_label) {
                        m.1.insert(v.id, addr)
                    } else {
                        m.1
                    };
                    let walked = if !is_property(v.type_label) && v.outer != addr {
                        walk(img, pool, o, by_addr1, v.name, v.outer, v.type_label, 0, set![addr])
                    } else {
                        (v.name, by_addr1)
                    };
                    if !is_property(v.type_label) && v.outer != addr {
                        lemma_walk(img, pool, o, by_addr1, v.name, v.outer, v.type_label, 0, set![addr], v.name);
                    }
                    assert(walk_extends(by_addr1, walked.1));
                    let vf = ObjectView { full_name: walked.0, ..v };
                    let m2 = (walked.1.insert(addr, vf), by_id1, m.2 + 1, m.3.insert(addr));
                    assert(save_spec(m, img, pool, o, addr, depth, max_depth).0 == m2);
                    assert forall|a: u64| #[trigger] m2.0.contains_key(a) implies m2.0[a].address == a by {
                        if a != addr && m.0.contains_key(a) {
                            assert(by_addr1.contains_key(a));
                        }
                    }
                    assert forall|id: i32| #[trigger] m2.1.contains_key(id) implies m2.0.contains_key(m2.1[id])
                        && m2.0[m2.1[id]].id == id && !is_property(m2.0[m2.1[id]].type_label) by {
                        if by_id1 != m.1 && id == v.id {
                        } else {
                            assert(m.1.contains_key(id));
                            let a = m.1[id];
                            assert(m.0.contains_key(a));
                            assert(by_addr1.contains_key(a));
                        }
                    }
                    assert forall|a: u64| #[trigger] m2.0.contains_key(a) implies m2.0[a].type_label.len() > 0 by {
                        if a != addr && by_addr1.contains_key(a) {
                            if m.0.contains_key(a) {
                            }
                        }
                    }
                    assert forall|a: u64| #[trigger] m2.3.contains(a) implies m2.0.contains_key(a) && m2.0[a].name
                        != "None"@ && m2.0[a].name != "InvalidName"@ && m2.0[a].type_label.len() <= 100 by {
                        if a != addr {
                            assert(m.0.contains_key(a));
                            assert(by_addr1.contains_key(a));
                        }
                    }
                    assert forall|a: u64| #[trigger] m2.0.contains_key(a) implies ends_with_name(m2.0[a].full_name, m2.0[a].name)
                        && (m2.0[a].outer == a ==> m2.0[a].full_name == m2.0[a].name) by {
                        if a != addr && by_addr1.contains_key(a) {
                            if m.0.contains_key(a) {
                            }
                        }
                    }
                    assert(!m.3.contains(addr));
                }
            },
        }
    }
}

/// An outer-chain walk composes at most `MAX_CONCAT` names, whatever the
/// chain (cycles included), so it always ends.
pub proof fn lemma_walk_bounded(
    img: MemoryImage,
    pool: FNamePool,
    o: UEOffset,
    cache: Map<u64, ObjectView>,
    cur: u64,
    count: nat,
    seen: Set<u64>,
)
    requires
        count <= MAX_CONCAT,
    ensures
        walk_steps(img, pool, o, cache, cur, count, seen) <= MAX_CONCAT - count,
    decreases MAX_CONCAT - count,
{
    if plausible(cur as int) && count < MAX_CONCAT && !seen.contains(cur) {
        match walk_next(img, pool, o, cache, cur) {
            None => {},
            Some(c) => {
                let c1 = if cache.contains_key(cur) {
                    cache
                } else {
                    cache.insert(cur, c)
                };
                lemma_walk_bounded(img, pool, o, c1, c.outer, count + 1, seen.insert(cur));
            },
        }
    }
}

} // verus!
