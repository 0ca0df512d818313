use vstd::prelude::*;

verus! {

/// Lexicographic order on texts, character by character (code points).
pub open spec fn text_lt(a: Seq<char>, b: Seq<char>) -> bool
    decreases a.len(),
{
    if b.len() == 0 {
        false
    } else if a.len() == 0 {
        true
    } else if a[0] != b[0] {
        a[0] < b[0]
    } else {
        text_lt(a.drop_first(), b.drop_first())
    }
}

pub proof fn lemma_text_lt_asym(a: Seq<char>, b: Seq<char>)
    ensures
        !(text_lt(a, b) && text_lt(b, a)),
        !text_lt(a, a),
    decreases a.len(),
{
    if a.len() > 0 && b.len() > 0 && a[0] == b[0] {
        lemma_text_lt_asym(a.drop_first(), b.drop_first());
    }
    if a.len() > 0 {
        lemma_text_lt_asym(a.drop_first(), a.drop_first());
    }
}

pub proof fn lemma_text_lt_trans(a: Seq<char>, b: Seq<char>, c: Seq<char>)
    requires
        text_lt(a, b),
        text_lt(b, c),
    ensures
        text_lt(a, c),
    decreases a.len(),
{
    if a.len() > 0 && b.len() > 0 && c.len() > 0 && a[0] == b[0] && b[0] == c[0] {
        lemma_text_lt_trans(a.drop_first(), b.drop_first(), c.drop_first());
    }
}

pub proof fn lemma_text_lt_total(a: Seq<char>, b: Seq<char>)
    ensures
        text_lt(a, b) || a == b || text_lt(b, a),
    decreases a.len(),
{
    if a.len() > 0 && b.len() > 0 {
        if a[0] == b[0] {
            lemma_text_lt_total(a.drop_first(), b.drop_first());
            if a.drop_first() == b.drop_first() {
                assert(a =~= seq![a[0]] + a.drop_first());
                assert(b =~= seq![b[0]] + b.drop_first());
            }
        } else {
        }
    } else if a.len() == 0 && b.len() == 0 {
        assert(a =~= b);
    }
}

/// A sort key: a rank, then a primary text, then a secondary text; `index`
/// says which item it belongs to.
pub struct SortKey {
    pub rank: u64,
    pub primary: Vec<char>,
    pub secondary: Vec<char>,
    pub index: usize,
}

pub open spec fn key_lt(a: SortKey, b: SortKey) -> bool {
    ||| a.rank < b.rank
    ||| (a.rank == b.rank && text_lt(a.primary@, b.primary@))
    ||| (a.rank == b.rank && a.primary@ == b.primary@ && text_lt(a.secondary@, b.secondary@))
}

proof fn lemma_key_lt_asym(a: SortKey, b: SortKey)
    ensures
        !(key_lt(a, b) && key_lt(b, a)),
{
    lemma_text_lt_asym(a.primary@, b.primary@);
    lemma_text_lt_asym(a.secondary@, b.secondary@);
}

proof fn lemma_key_lt_trans(a: SortKey, b: SortKey, c: SortKey)
    requires
        key_lt(a, b),
        key_lt(b, c),
    ensures
        key_lt(a, c),
{
    if a.rank == b.rank && b.rank == c.rank {
        if text_lt(a.primary@, b.primary@) && text_lt(b.primary@, c.primary@) {
            lemma_text_lt_trans(a.primary@, b.primary@, c.primary@);
        }
        if a.primary@ == b.primary@ && b.primary@ == c.primary@ && text_lt(a.secondary@, b.secondary@) && text_lt(
            b.secondary@,
            c.secondary@,
        ) {
            lemma_text_lt_trans(a.secondary@, b.secondary@, c.secondary@);
        }
    }
}

/// `keys` is in non-decreasing key order.
pub open spec fn sorted_keys(keys: Seq<SortKey>) -> bool {
    forall|i: int, j: int| 0 <= i < j < keys.len() ==> !key_lt(#[trigger] keys[j], #[trigger] keys[i])
}

/// Whether `a` orders before `b`.
pub fn text_less(a: &Vec<char>, b: &Vec<char>) -> (r: bool)
    ensures
        r == text_lt(a@, b@),
{
    let mut i: usize = 0;
    proof {
        assert(a@.subrange(0, a@.len() as int) =~= a@);
        assert(b@.subrange(0, b@.len() as int) =~= b@);
    }
    while i < a.len() && i < b.len() && a[i] == b[i]
        invariant
            i <= a@.len(),
            i <= b@.len(),
            forall|k: int| 0 <= k < i ==> a@[k] == b@[k],
            text_lt(a@, b@) == text_lt(a@.subrange(i as int, a@.len() as int), b@.subrange(i as int, b@.len() as int)),
        decreases a@.len() - i,
    {
        proof {
            let sa = a@.subrange(i as int, a@.len() as int);
            let sb = b@.subrange(i as int, b@.len() as int);
            assert(sa.drop_first() =~= a@.subrange(i + 1, a@.len() as int));
            assert(sb.drop_first() =~= b@.subrange(i + 1, b@.len() as int));
        }
        i = i + 1;
    }
    if i == b.len() {
        false
    } else if i == a.len() {
        true
    } else {
        a[i] < b[i]
    }
}

fn key_less(a: &SortKey, b: &SortKey) -> (r: bool)
    ensures
        r == key_lt(*a, *b),
{
    if a.rank != b.rank {
        return a.rank < b.rank;
    }
    if text_less(&a.primary, &b.primary) {
        return true;
    }
    if text_less(&b.primary, &a.primary) {
        proof {
            lemma_text_lt_asym(a.primary@, b.primary@);
        }
        return false;
    }
    proof {
        lemma_text_lt_total(a.primary@, b.primary@);
    }
    text_less(&a.secondary, &b.secondary)
}

/// The keys in non-decreasing order, each input key once.
pub fn sort_keys(keys: Vec<SortKey>) -> (r: Vec<SortKey>)
    ensures
        sorted_keys(r@),
        r@.to_multiset() == keys@.to_multiset(),
{
    broadcast use vstd::seq_lib::to_multiset_build, vstd::seq_lib::to_multiset_insert, vstd::multiset::group_multiset_axioms;

    let mut out: Vec<SortKey> = Vec::new();
    let mut rest = keys;
    let ghost all = rest@;
    proof {
        vstd::seq_lib::to_multiset_len(out@);
        vstd::multiset::lemma_multiset_empty_len(out@.to_multiset());
        assert(out@.to_multiset().add(rest@.to_multiset()) =~= all.to_multiset());
    }
    while rest.len() > 0
        invariant
            sorted_keys(out@),
            out@.to_multiset().add(rest@.to_multiset()) == all.to_multiset(),
        decreases rest@.len(),
    {
        let ghost rest0 = rest@;
        let item = rest.pop().unwrap();
        proof {
            assert(rest0 =~= rest@.push(item));
            vstd::seq_lib::to_multiset_build(rest@, item);
        }
        let mut p: usize = 0;
        while p < out.len() && !key_less(&item, &out[p])
            invariant
                p <= out@.len(),
                forall|q: int| 0 <= q < p ==> !key_lt(item, #[trigger] out@[q]),
            decreases out@.len() - p,
        {
            p = p + 1;
        }
        let ghost before = out@;
        out.insert(p, item);
        proof {
            assert(out@ == before.insert(p as int, item));
            vstd::seq_lib::to_multiset_insert(before, p as int, item);
            assert forall|i: int, j: int| 0 <= i < j < out@.len() implies !key_lt(#[trigger] out@[j], #[trigger] out@[i]) by {
                if j < p {
                    assert(out@[i] == before[i] && out@[j] == before[j]);
                } else if j == p {
                    assert(out@[i] == before[i]);
                } else if i == p {
                    assert(out@[j] == before[j - 1]);
                    if key_lt(before[j - 1], item) {
                        if j - 1 == p {
                            lemma_key_lt_asym(item, before[p as int]);
                        } else {
                            assert(!key_lt(before[j - 1], before[p as int]));
                            lemma_key_lt_trans(before[j - 1], item, before[p as int]);
                        }
                    }
                } else if i < p {
                    assert(out@[i] == before[i] && out@[j] == before[j - 1]);
                } else {
                    assert(out@[i] == before[i - 1] && out@[j] == before[j - 1]);
                }
            }
            assert(out@.to_multiset().add(rest@.to_multiset()) =~= all.to_multiset());
        }
    }
    proof {
        vstd::seq_lib::to_multiset_len(rest@);
        vstd::multiset::lemma_multiset_empty_len(rest@.to_multiset());
        assert(out@.to_multiset() =~= all.to_multiset());
    }
    out
}

/// Positions `0..keys.len()` arranged so that their keys are in
/// non-decreasing order; each position once.
pub fn sorted_order(keys: Vec<SortKey>) -> (r: Vec<usize>)
    requires
        forall|i: int| 0 <= i < keys@.len() ==> #[trigger] keys@[i].index == i,
    ensures
        r@.len() == keys@.len(),
        r@.no_duplicates(),
        forall|i: int| 0 <= i < r@.len() ==> #[trigger] r@[i] < keys@.len(),
        forall|i: int, j: int|
            0 <= i < j < r@.len() ==> !key_lt(keys@[#[trigger] r@[j] as int], keys@[#[trigger] r@[i] as int]),
{
    broadcast use vstd::seq_lib::group_to_multiset_ensures;

    let ghost orig = keys@;
    proof {
        assert(orig.no_duplicates()) by {
            assert forall|i: int, j: int| 0 <= i < orig.len() && 0 <= j < orig.len() && i != j implies orig[i] != orig[j] by {
                assert(orig[i].index != orig[j].index);
            }
        }
        orig.lemma_multiset_has_no_duplicates();
    }
    let sorted = sort_keys(keys);
    proof {
        assert forall|x: SortKey| sorted@.to_multiset().contains(x) implies sorted@.to_multiset().count(x) == 1 by {}
        sorted@.lemma_multiset_has_no_duplicates_conv();
        assert forall|i: int| 0 <= i < sorted@.len() implies (#[trigger] sorted@[i]).index < orig.len() && orig[sorted@[i].index as int] == sorted@[i] by {
            assert(sorted@.contains(sorted@[i]));
            vstd::seq_lib::to_multiset_contains(sorted@, sorted@[i]);
            vstd::seq_lib::to_multiset_contains(orig, sorted@[i]);
            assert(orig.contains(sorted@[i]));
            let w = choose|w: int| 0 <= w < orig.len() && orig[w] == sorted@[i];
        }
        vstd::seq_lib::to_multiset_len(sorted@);
        vstd::seq_lib::to_multiset_len(orig);
    }
    let mut out: Vec<usize> = Vec::new();
    let mut i: usize = 0;
    while i < sorted.len()
        invariant
            i <= sorted@.len(),
            sorted@.len() == orig.len(),
            out@.len() == i,
            forall|k: int| 0 <= k < i ==> #[trigger] out@[k] == sorted@[k].index,
            forall|k: int| 0 <= k < sorted@.len() ==> (#[trigger] sorted@[k]).index < orig.len() && orig[sorted@[k].index as int] == sorted@[k],
        decreases sorted@.len() - i,
    {
        out.push(sorted[i].index);
        i = i + 1;
    }
    proof {
        assert forall|a: int, b: int| 0 <= a < out@.len() && 0 <= b < out@.len() && a != b implies out@[a] != out@[b] by {
            assert(sorted@[a] != sorted@[b]);
            assert(orig[out@[a] as int] == sorted@[a]);
            assert(orig[out@[b] as int] == sorted@[b]);
        }
        assert forall|a: int, b: int| 0 <= a < b < out@.len() implies !key_lt(orig[#[trigger] out@[b] as int], orig[#[trigger] out@[a] as int]) by {
            assert(orig[out@[a] as int] == sorted@[a]);
            assert(orig[out@[b] as int] == sorted@[b]);
        }
    }
    out
}

} // verus!
