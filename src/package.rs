use crate::objects::{keys_match, ObjectData, ObjectManager, ObjectView};
use crate::order::{key_lt, lemma_text_lt_asym, lemma_text_lt_total, lemma_text_lt_trans, sorted_order, text_less, text_lt, SortKey};
use crate::text::{chars_of, contains, same_text, str_contains, string_of};
use vstd::prelude::*;

verus! {

/// First index from `i` on holding `c1` or `c2`; the length if none does.
pub open spec fn find_from(s: Seq<char>, i: int, c1: char, c2: char) -> int
    decreases s.len() - i,
{
    if i < 0 || i >= s.len() {
        s.len() as int
    } else if s[i] == c1 || s[i] == c2 {
        i
    } else {
        find_from(s, i + 1, c1, c2)
    }
}

/// The package of a full name: from the first `/` up to the first `.` or
/// `:` after the second `/` (or to the end); empty where the name has fewer
/// than two `/`.
pub open spec fn package_of(s: Seq<char>) -> Seq<char> {
    let f = find_from(s, 0, '/', '/');
    if f >= s.len() {
        Seq::empty()
    } else {
        let g = find_from(s, f + 1, '/', '/');
        if g >= s.len() {
            Seq::empty()
        } else {
            s.subrange(f, find_from(s, g + 1, '.', ':'))
        }
    }
}

pub open spec fn starts_with(s: Seq<char>, p: Seq<char>) -> bool {
    p.len() <= s.len() && s.subrange(0, p.len() as int) == p
}

/// Packages listed are those under `/Script/`, `/Engine/` or `/Game/`.
pub open spec fn package_accepted(p: Seq<char>) -> bool {
    starts_with(p, "/Script/"@) || starts_with(p, "/Engine/"@) || starts_with(p, "/Game/"@)
}

/// Addresses of `s` whose record's full name is in package `p`.
pub open spec fn members_in(s: Set<u64>, ba: Map<u64, ObjectView>, p: Seq<char>) -> Set<u64> {
    s.filter(|a: u64| package_of(ba[a].full_name) == p)
}

/// Cached addresses whose record's full name is in package `p`.
pub open spec fn package_members(ba: Map<u64, ObjectView>, p: Seq<char>) -> Set<u64> {
    members_in(ba.dom(), ba, p)
}

/// A package and how many cached objects it holds.
pub struct PackageInfo {
    pub name: String,
    pub object_count: u64,
}

proof fn lemma_find_from_bounds(s: Seq<char>, i: int, c1: char, c2: char)
    requires
        0 <= i,
    ensures
        i <= find_from(s, i, c1, c2) <= s.len() || (i > s.len() && find_from(s, i, c1, c2) == s.len()),
    decreases s.len() - i,
{
    if i < s.len() && !(s[i] == c1 || s[i] == c2) {
        lemma_find_from_bounds(s, i + 1, c1, c2);
    }
}

fn find_char(v: &Vec<char>, from: usize, c1: char, c2: char) -> (r: usize)
    ensures
        r == find_from(v@, from as int, c1, c2),
        r <= v@.len(),
{
    let mut i = from;
    if i >= v.len() {
        return v.len();
    }
    while i < v.len() && v[i] != c1 && v[i] != c2
        invariant
            from <= i <= v@.len(),
            find_from(v@, from as int, c1, c2) == find_from(v@, i as int, c1, c2),
        decreases v@.len() - i,
    {
        i = i + 1;
    }
    i
}

fn package_chars(v: &Vec<char>) -> (r: Vec<char>)
    ensures
        r@ == package_of(v@),
{
    let f = find_char(v, 0, '/', '/');
    if f >= v.len() {
        return Vec::new();
    }
    let g = find_char(v, f + 1, '/', '/');
    if g >= v.len() {
        return Vec::new();
    }
    proof {
        lemma_find_from_bounds(v@, (g + 1) as int, '.', ':');
        lemma_find_from_bounds(v@, (f + 1) as int, '/', '/');
    }
    let t = find_char(v, g + 1, '.', ':');
    let mut out: Vec<char> = Vec::new();
    let mut i = f;
    while i < t
        invariant
            f <= i <= t <= v@.len(),
            out@ == v@.subrange(f as int, i as int),
        decreases t - i,
    {
        out.push(v[i]);
        proof {
            assert(out@ =~= v@.subrange(f as int, i + 1));
        }
        i = i + 1;
    }
    out
}

/// The package part of a full name (see `package_of`).
pub fn extract_package_name(input: &str) -> (r: String)
    ensures
        r@ == package_of(input@),
{
    let v = chars_of(input);
    let p = package_chars(&v);
    string_of(&p)
}

fn has_prefix(s: &Vec<char>, p: &str) -> (r: bool)
    ensures
        r == starts_with(s@, p@),
{
    let q = chars_of(p);
    if q.len() > s.len() {
        return false;
    }
    let mut i: usize = 0;
    while i < q.len()
        invariant
            q@ == p@,
            q@.len() <= s@.len(),
            i <= q@.len(),
            forall|k: int| 0 <= k < i ==> s@[k] == q@[k],
        decreases q@.len() - i,
    {
        if s[i] != q[i] {
            proof {
                assert(s@.subrange(0, q@.len() as int)[i as int] == s@[i as int]);
            }
            return false;
        }
        i = i + 1;
    }
    proof {
        assert(s@.subrange(0, q@.len() as int) =~= q@);
    }
    true
}

fn accepted(p: &Vec<char>) -> (r: bool)
    ensures
        r == package_accepted(p@),
{
    has_prefix(p, "/Script/") || has_prefix(p, "/Engine/") || has_prefix(p, "/Game/")
}

/// Every accepted package of the catalog with its number of objects, by
/// name ascending.
pub fn get_packages(obj_mgr: &ObjectManager) -> (r: Vec<PackageInfo>)
    ensures
        forall|i: int, j: int| 0 <= i < j < r@.len() ==> text_lt(r@[i].name@, r@[j].name@),
        forall|i: int|
            0 <= i < r@.len() ==> package_accepted(#[trigger] r@[i].name@) && r@[i].object_count
                == package_members(obj_mgr.state().0, r@[i].name@).len() && r@[i].object_count >= 1,
        forall|a: u64|
            obj_mgr.state().0.contains_key(a) && package_accepted(package_of(obj_mgr.state().0[a].full_name))
                ==> exists|i: int| 0 <= i < r@.len() && #[trigger] r@[i].name@ == package_of(obj_mgr.state().0[a].full_name),
{
    let ghost ba = obj_mgr.state().0;
    let keys = obj_mgr.addresses();
    let mut names: Vec<Vec<char>> = Vec::new();
    let mut counts: Vec<u64> = Vec::new();
    let ghost mut seen: Set<u64> = Set::empty();
    let mut i: usize = 0;
    while i < keys.len()
        invariant
            ba == obj_mgr.state().0,
            keys@.no_duplicates(),
            forall|a: u64| keys@.contains(a) <==> ba.contains_key(a),
            i <= keys@.len(),
            seen.finite(),
            forall|a: u64| seen.contains(a) <==> exists|k: int| 0 <= k < i && keys@[k] == a,
            names@.len() == counts@.len(),
            forall|x: int, y: int| 0 <= x < y < names@.len() ==> text_lt(names@[x]@, names@[y]@),
            forall|x: int|
                0 <= x < names@.len() ==> package_accepted(#[trigger] names@[x]@) && counts@[x] == members_in(seen, ba, names@[x]@).len() && 1 <= counts@[x] <= i,
            forall|a: u64|
                seen.contains(a) && package_accepted(package_of(ba[a].full_name)) ==> exists|x: int|
                    0 <= x < names@.len() && #[trigger] names@[x]@ == package_of(ba[a].full_name),
        decreases keys@.len() - i,
    {
        let k = keys[i];
        proof {
            assert(keys@.contains(k));
            assert(!seen.contains(k)) by {
                if seen.contains(k) {
                    let w = choose|w: int| 0 <= w < i && keys@[w] == k;
                }
            }
        }
        let ghost seen2 = seen.insert(k);
        let ghost mut branch: int = 0;
        let rec = match obj_mgr.get(k) {
            Some(o) => o,
            None => {
                proof {
                    assert(false);
                }
                return Vec::new();
            },
        };
        let full = chars_of(rec.full_name.as_str());
        let p = package_chars(&full);
        let ghost pk = p@;
        proof {
            assert(pk == package_of(ba[k].full_name));
        }
        if accepted(&p) {
            let mut x: usize = 0;
            while x < names.len() && text_less(&names[x], &p)
                invariant
                    x <= names@.len(),
                    forall|z: int| 0 <= z < x ==> text_lt(#[trigger] names@[z]@, pk),
                    p@ == pk,
                decreases names@.len() - x,
            {
                x = x + 1;
            }
            let ghost names0 = names@;
            let ghost counts0 = counts@;
            if x < names.len() && !text_less(&p, &names[x]) {
                proof {
                    lemma_text_lt_total(names@[x as int]@, pk);
                    assert(names@[x as int]@ == pk);
                }
                let c = counts[x];
                counts.set(x, c + 1);
                proof {
                    assert(counts@ == counts0.update(x as int, (c + 1) as u64));
                    assert(names@ == names0);
                    branch = 1;
                }
                proof {
                    assert forall|z: int| 0 <= z < names@.len() implies package_accepted(#[trigger] names@[z]@) && counts@[z]
                        == members_in(seen2, ba, names@[z]@).len() && 1 <= counts@[z] <= i + 1 by {
                        vstd::set_lib::lemma_len_subset(members_in(seen, ba, names@[z]@), seen);
                        if z == x {
                            assert(members_in(seen2, ba, names@[z]@) =~= members_in(seen, ba, names@[z]@).insert(k));
                        } else {
                            if names@[z]@ == pk {
                                if z < x {
                                    lemma_text_lt_asym(pk, pk);
                                } else {
                                    lemma_text_lt_asym(names@[x as int]@, names@[z]@);
                                }
                            }
                            assert(members_in(seen2, ba, names@[z]@) =~= members_in(seen, ba, names@[z]@));
                        }
                    }
                }
            } else {
                names.insert(x, p);
                counts.insert(x, 1);
                proof {
                    branch = 2;
                    assert(names@ == names0.insert(x as int, names@[x as int]));
                    if x < names0.len() {
                        lemma_text_lt_total(names0[x as int]@, pk);
                    }
                    assert forall|u: int, v: int| 0 <= u < v < names@.len() implies text_lt(names@[u]@, names@[v]@) by {
                        if v < x {
                            assert(names@[u] == names0[u] && names@[v] == names0[v]);
                        } else if v == x {
                            assert(names@[u] == names0[u]);
                        } else if u == x {
                            assert(names@[v] == names0[v - 1]);
                            if v - 1 > x {
                                lemma_text_lt_trans(pk, names0[x as int]@, names0[v - 1]@);
                            }
                        } else if u < x {
                            assert(names@[u] == names0[u] && names@[v] == names0[v - 1]);
                        } else {
                            assert(names@[u] == names0[u - 1] && names@[v] == names0[v - 1]);
                        }
                    }
                    assert forall|z: int| 0 <= z < names@.len() implies package_accepted(#[trigger] names@[z]@) && counts@[z]
                        == members_in(seen2, ba, names@[z]@).len() && 1 <= counts@[z] <= i + 1 by {
                        vstd::set_lib::lemma_len_subset(members_in(seen, ba, names@[z]@), seen);
                        if z == x {
                            assert(members_in(seen, ba, pk) =~= Set::empty()) by {
                                assert forall|a: u64| !members_in(seen, ba, pk).contains(a) by {
                                    if members_in(seen, ba, pk).contains(a) {
                                        let w = choose|w: int| 0 <= w < names0.len() && #[trigger] names0[w]@ == package_of(ba[a].full_name);
                                        if w < x {
                                            lemma_text_lt_asym(pk, pk);
                                        } else {
                                            lemma_text_lt_asym(pk, names0[x as int]@);
                                            if w > x {
                                                lemma_text_lt_trans(pk, names0[x as int]@, names0[w]@);
                                                lemma_text_lt_asym(pk, pk);
                                            }
                                        }
                                    }
                                }
                            }
                            assert(members_in(seen2, ba, names@[z]@) =~= members_in(seen, ba, names@[z]@).insert(k));
                        } else {
                            let w = if z < x { z } else { z - 1 };
                            assert(names@[z] == names0[w]);
                            assert(counts@[z] == counts0[w]);
                            if names0[w]@ == pk {
                                if w < x {
                                    lemma_text_lt_asym(pk, pk);
                                } else {
                                    lemma_text_lt_asym(pk, names0[x as int]@);
                                    if w > x {
                                        lemma_text_lt_trans(pk, names0[x as int]@, names0[w]@);
                                        lemma_text_lt_asym(pk, pk);
                                    }
                                }
                            }
                            assert(members_in(seen2, ba, names@[z]@) =~= members_in(seen, ba, names@[z]@));
                        }
                    }
                    assert forall|a: u64|
                        seen2.contains(a) && package_accepted(package_of(ba[a].full_name)) implies exists|y: int|
                        0 <= y < names@.len() && #[trigger] names@[y]@ == package_of(ba[a].full_name) by {
                        if a == k {
                            assert(names@[x as int]@ == pk);
                        } else {
                            let w = choose|w: int| 0 <= w < names0.len() && #[trigger] names0[w]@ == package_of(ba[a].full_name);
                            if w < x {
                                assert(names@[w] == names0[w]);
                            } else {
                                assert(names@[w + 1] == names0[w]);
                            }
                        }
                    }
                }
            }
        } else {
            proof {
                branch = 3;
                assert forall|z: int| 0 <= z < names@.len() implies package_accepted(#[trigger] names@[z]@) && counts@[z]
                    == members_in(seen2, ba, names@[z]@).len() && 1 <= counts@[z] <= i + 1 by {
                    assert(package_of(ba[k].full_name) != names@[z]@);
                    assert(members_in(seen2, ba, names@[z]@) =~= members_in(seen, ba, names@[z]@));
                }
            }
        }
        proof {
            assert forall|z: int| 0 <= z < names@.len() implies package_accepted(#[trigger] names@[z]@) && counts@[z]
                == members_in(seen2, ba, names@[z]@).len() && 1 <= counts@[z] <= i + 1 by {
                if branch == 1 {
                    assert(package_accepted(names@[z]@));
                    assert(counts@[z] == members_in(seen2, ba, names@[z]@).len());
                } else if branch == 2 {
                    assert(package_accepted(names@[z]@));
                    assert(counts@[z] == members_in(seen2, ba, names@[z]@).len());
                } else {
                    assert(branch == 3);
                    assert(package_accepted(names@[z]@));
                    assert(counts@[z] == members_in(seen2, ba, names@[z]@).len());
                }
            }
            seen = seen2;
            assert forall|a: u64| seen.contains(a) <==> exists|w: int| 0 <= w < i + 1 && keys@[w] == a by {
                if seen.contains(a) && a != k {
                    let w = choose|w: int| 0 <= w < i && keys@[w] == a;
                }
            }
        }
        i = i + 1;
    }
    proof {
        assert forall|z: int| 0 <= z < names@.len() implies #[trigger] counts@[z] >= 1 by {
            assert(package_accepted(names@[z]@));
        }
    }
    let mut out: Vec<PackageInfo> = Vec::new();
    let mut j: usize = 0;
    while j < names.len()
        invariant
            j <= names@.len() == counts@.len(),
            out@.len() == j,
            forall|z: int| 0 <= z < j ==> (#[trigger] out@[z]).name@ == names@[z]@ && out@[z].object_count == counts@[z],
            forall|z: int| 0 <= z < names@.len() ==> #[trigger] counts@[z] >= 1,
        decreases names@.len() - j,
    {
        out.push(PackageInfo { name: string_of(&names[j]), object_count: counts[j] });
        j = j + 1;
    }
    proof {
        assert forall|a: u64|
            ba.contains_key(a) && package_accepted(package_of(ba[a].full_name)) implies exists|y: int|
            0 <= y < out@.len() && #[trigger] out@[y].name@ == package_of(ba[a].full_name) by {
            assert(keys@.contains(a));
            let w = choose|w: int| 0 <= w < keys@.len() && keys@[w] == a;
            assert(seen.contains(a));
            let y = choose|y: int| 0 <= y < names@.len() && #[trigger] names@[y]@ == package_of(ba[a].full_name);
            assert(out@[y].name@ == names@[y]@);
        }
        assert(seen =~= ba.dom()) by {
            assert forall|a: u64| seen.contains(a) <==> ba.dom().contains(a) by {
                if ba.contains_key(a) {
                    assert(keys@.contains(a));
                    let w = choose|w: int| 0 <= w < keys@.len() && keys@[w] == a;
                }
            }
        }
    }
    out
}

/// Category filter of the object list: `Class` and `Struct` match type
/// names holding that word but not `Function`; `Enum` and `Function` match
/// type names holding that word; any other category matches nothing.
pub open spec fn in_category(t: Seq<char>, category: Seq<char>) -> bool {
    if category == "Class"@ {
        contains(t, "Class"@) && !contains(t, "Function"@)
    } else if category == "Struct"@ {
        contains(t, "Struct"@) && !contains(t, "Function"@)
    } else if category == "Enum"@ {
        contains(t, "Enum"@)
    } else if category == "Function"@ {
        contains(t, "Function"@)
    } else {
        false
    }
}

/// Whether a type name falls in the category (see `in_category`).
pub fn category_matches(type_label: &str, category: &str) -> (r: bool)
    ensures
        r == in_category(type_label@, category@),
{
    if same_text(category, "Class") {
        str_contains(type_label, "Class") && !str_contains(type_label, "Function")
    } else if same_text(category, "Struct") {
        str_contains(type_label, "Struct") && !str_contains(type_label, "Function")
    } else if same_text(category, "Enum") {
        str_contains(type_label, "Enum")
    } else if same_text(category, "Function") {
        str_contains(type_label, "Function")
    } else {
        false
    }
}

/// An object of a package listing.
pub struct ObjectSummary {
    pub address: u64,
    pub name: String,
    pub full_name: String,
    pub type_label: String,
}

/// The record at `a` belongs in the listing of `package` and `category`.
pub open spec fn listed(ba: Map<u64, ObjectView>, a: u64, package: Seq<char>, category: Seq<char>) -> bool {
    ba.contains_key(a) && package_of(ba[a].full_name) == package && in_category(ba[a].type_label, category)
}

pub open spec fn summary_matches(s: ObjectSummary, v: ObjectView) -> bool {
    s.address == v.address && s.name@ == v.name && s.full_name@ == v.full_name && s.type_label@ == v.type_label
}

/// The cached objects of a package in one category, by name ascending.
pub fn get_objects(obj_mgr: &ObjectManager, package_name: &str, category: &str) -> (r: Vec<ObjectSummary>)
    requires
        obj_mgr.wf(),
    ensures
        forall|i: int, j: int| 0 <= i < j < r@.len() ==> !text_lt(#[trigger] r@[j].name@, #[trigger] r@[i].name@),
        forall|i: int|
            0 <= i < r@.len() ==> listed(obj_mgr.state().0, #[trigger] r@[i].address, package_name@, category@)
                && summary_matches(r@[i], obj_mgr.state().0[r@[i].address]),
        forall|i: int, j: int| 0 <= i < j < r@.len() ==> #[trigger] r@[i].address != #[trigger] r@[j].address,
        forall|a: u64|
            listed(obj_mgr.state().0, a, package_name@, category@) ==> exists|i: int| 0 <= i < r@.len() && #[trigger] r@[i].address == a,
{
    let ghost ba = obj_mgr.state().0;
    let keys = obj_mgr.addresses();
    let want = chars_of(package_name);
    let mut hits: Vec<ObjectData> = Vec::new();
    let mut i: usize = 0;
    while i < keys.len()
        invariant
            ba == obj_mgr.state().0,
            keys_match(ba),
            keys@.no_duplicates(),
            forall|a: u64| keys@.contains(a) <==> ba.contains_key(a),
            want@ == package_name@,
            i <= keys@.len(),
            hits@.len() <= i,
            forall|t: int| 0 <= t < hits@.len() ==> listed(ba, (#[trigger] hits@[t]).address, package_name@, category@) && hits@[t]@ == ba[hits@[t].address],
            forall|t: int, u: int| 0 <= t < u < hits@.len() ==> #[trigger] hits@[t].address != #[trigger] hits@[u].address,
            forall|t: int| 0 <= t < hits@.len() ==> exists|w: int| 0 <= w < i && keys@[w] == (#[trigger] hits@[t]).address,
            forall|w: int| 0 <= w < i && listed(ba, #[trigger] keys@[w], package_name@, category@) ==> exists|t: int| 0 <= t < hits@.len() && #[trigger] hits@[t].address == keys@[w],
        decreases keys@.len() - i,
    {
        let k = keys[i];
        proof {
            assert(keys@.contains(k));
        }
        let rec = match obj_mgr.get(k) {
            Some(o) => o,
            None => {
                proof {
                    assert(false);
                }
                return Vec::new();
            },
        };
        let full = chars_of(rec.full_name.as_str());
        let p = package_chars(&full);
        if same_chars(&p, &want) && category_matches(rec.type_label.as_str(), category) {
            let ghost hits0 = hits@;
            proof {
                assert forall|t: int| 0 <= t < hits0.len() implies hits0[t].address != k by {
                    let w = choose|w: int| 0 <= w < i && keys@[w] == hits0[t].address;
                }
            }
            hits.push(rec);
            proof {
                assert forall|w: int| 0 <= w < i + 1 && listed(ba, #[trigger] keys@[w], package_name@, category@) implies exists|t: int| 0 <= t < hits@.len() && #[trigger] hits@[t].address == keys@[w] by {
                    if w == i {
                        assert(hits@[hits@.len() - 1].address == keys@[w]);
                    } else {
                        let t = choose|t: int| 0 <= t < hits0.len() && #[trigger] hits0[t].address == keys@[w];
                        assert(hits@[t] == hits0[t]);
                    }
                }
                assert forall|t: int| 0 <= t < hits@.len() implies exists|w: int| 0 <= w < i + 1 && keys@[w] == (#[trigger] hits@[t]).address by {
                    if t < hits0.len() {
                        assert(hits@[t] == hits0[t]);
                        let w = choose|w: int| 0 <= w < i && keys@[w] == hits0[t].address;
                    }
                }
            }
        }
        i = i + 1;
    }
    let mut sort: Vec<SortKey> = Vec::new();
    let mut t: usize = 0;
    while t < hits.len()
        invariant
            t <= hits@.len(),
            sort@.len() == t,
            forall|q: int| 0 <= q < t ==> (#[trigger] sort@[q]).index == q && sort@[q].rank == 0 && sort@[q].primary@ == hits@[q].name@ && sort@[q].secondary@.len() == 0,
        decreases hits@.len() - t,
    {
        sort.push(SortKey { rank: 0, primary: chars_of(hits[t].name.as_str()), secondary: Vec::new(), index: t });
        t = t + 1;
    }
    let ghost keyseq = sort@;
    let perm = sorted_order(sort);
    let plen = perm.len();
    let mut out: Vec<ObjectSummary> = Vec::new();
    let mut q: usize = 0;
    while q < perm.len()
        invariant
            plen == perm@.len(),
            q <= perm@.len() == hits@.len() == keyseq.len(),
            forall|x: int| 0 <= x < perm@.len() ==> #[trigger] perm@[x] < hits@.len(),
            out@.len() == q,
            forall|x: int| 0 <= x < q ==> summary_matches(#[trigger] out@[x], hits@[perm@[x] as int]@),
        decreases perm@.len() - q,
    {
        let h = &hits[perm[q]];
        out.push(ObjectSummary { address: h.address, name: h.name.clone(), full_name: h.full_name.clone(), type_label: h.type_label.clone() });
        q = q + 1;
    }
    proof {
        assert forall|x: int, y: int| 0 <= x < y < out@.len() implies !text_lt(#[trigger] out@[y].name@, #[trigger] out@[x].name@) by {
            assert(!key_lt(keyseq[perm@[y] as int], keyseq[perm@[x] as int]));
        }
        assert forall|x: int, y: int| 0 <= x < y < out@.len() implies #[trigger] out@[x].address != #[trigger] out@[y].address by {
            assert(perm@[x] != perm@[y]);
        }
        assert forall|a: u64| listed(ba, a, package_name@, category@) implies exists|x: int| 0 <= x < out@.len() && #[trigger] out@[x].address == a by {
            assert(keys@.contains(a));
            let w = choose|w: int| 0 <= w < keys@.len() && keys@[w] == a;
            let t = choose|t: int| 0 <= t < hits@.len() && #[trigger] hits@[t].address == keys@[w];
            assert(perm@.len() == hits@.len());
            assert(exists|x: int| 0 <= x < perm@.len() && perm@[x] == t) by {
                permutation_covers(perm@, t);
            }
            let x = choose|x: int| 0 <= x < perm@.len() && perm@[x] == t;
            assert(out@[x].address == a);
        }
    }
    out
}

/// A duplicate-free list of `n` positions below `n` holds every position.
pub proof fn permutation_covers(p: Seq<usize>, t: int)
    requires
        p.no_duplicates(),
        p.len() <= usize::MAX,
        forall|x: int| 0 <= x < p.len() ==> #[trigger] p[x] < p.len(),
        0 <= t < p.len(),
    ensures
        exists|x: int| 0 <= x < p.len() && p[x] == t,
{
    let s = p.to_set();
    p.unique_seq_to_set();
    let full = Set::new(|v: usize| v < p.len());
    assert(s.subset_of(full));
    lemma_range_set_len(p.len());
    if !s.contains(t as usize) {
        assert(s.subset_of(full.remove(t as usize)));
        vstd::set::axiom_set_remove_len(full, t as usize);
        vstd::set_lib::lemma_len_subset(s, full.remove(t as usize));
        assert(false);
    }
    assert(p.contains(t as usize));
}

proof fn lemma_range_set_len(n: nat)
    requires
        n <= usize::MAX,
    ensures
        Set::new(|v: usize| v < n).finite(),
        Set::new(|v: usize| v < n).len() == n,
    decreases n,
{
    if n == 0 {
        assert(Set::new(|v: usize| v < n) =~= Set::<usize>::empty());
    } else {
        let m = (n - 1) as nat;
        lemma_range_set_len(m);
        let smaller = Set::new(|v: usize| v < m);
        assert(Set::new(|v: usize| v < n) =~= smaller.insert(m as usize));
        vstd::set::axiom_set_insert_len(smaller, m as usize);
    }
}

fn same_chars(a: &Vec<char>, b: &Vec<char>) -> (r: bool)
    ensures
        r == (a@ == b@),
{
    if a.len() != b.len() {
        return false;
    }
    let mut i: usize = 0;
    while i < a.len()
        invariant
            a@.len() == b@.len(),
            i <= a@.len(),
            forall|k: int| 0 <= k < i ==> a@[k] == b@[k],
        decreases a@.len() - i,
    {
        if a[i] != b[i] {
            return false;
        }
        i = i + 1;
    }
    proof {
        assert(a@ =~= b@);
    }
    true
}

} // verus!
