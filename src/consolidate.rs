use vstd::prelude::*;

use crate::metadata::{records_view, IndexMetadata, IndexView};

verus! {

/// The record `c` after the delta `m` has been merged into it.
pub open spec fn merged(c: IndexView, m: IndexView, version: u64) -> IndexView {
    IndexView { fragments: c.fragments + m.fragments, dataset_version: version, ..c }
}

/// Position of the first record of `c` with id `id`.
#[verifier::opaque]
pub open spec fn id_position(c: Seq<IndexView>, id: u128) -> Option<int> {
    if exists|k: int| 0 <= k < c.len() && c[k].uuid == id {
        Some(
            choose|k: int|
                0 <= k < c.len() && c[k].uuid == id && forall|j: int|
                    0 <= j < k ==> #[trigger] c[j].uuid != id,
        )
    } else {
        None
    }
}

/// The records of `s` with the deltas of each id merged, in order, into the
/// first record of that id. A merged record is stamped with `version`.
pub open spec fn consolidate(s: Seq<IndexView>, version: u64) -> Seq<IndexView>
    decreases s.len(),
{
    if s.len() == 0 {
        s
    } else {
        let c = consolidate(s.drop_last(), version);
        let m = s.last();
        match id_position(c, m.uuid) {
            Some(k) => c.update(k, merged(c[k], m, version)),
            None => c.push(m),
        }
    }
}

/// The fragments covered by the records of `s` with id `id`.
pub open spec fn covered(s: Seq<IndexView>, id: u128) -> Set<u32> {
    Set::new(
        |f: u32|
            exists|i: int| 0 <= i < s.len() && s[i].uuid == id && #[trigger] s[i].fragments.contains(f),
    )
}

/// How many records of `s` have id `id`.
pub open spec fn count_id(s: Seq<IndexView>, id: u128) -> nat {
    s.filter(|m: IndexView| m.uuid == id).len()
}

proof fn lemma_count_update(c: Seq<IndexView>, k: int, x: IndexView, id: u128)
    requires
        0 <= k < c.len(),
        c[k].uuid == x.uuid,
    ensures
        count_id(c.update(k, x), id) == count_id(c, id),
    decreases c.len(),
{
    reveal(Seq::filter);
    let u = c.update(k, x);
    if k == c.len() - 1 {
        assert(u.drop_last() =~= c.drop_last());
    } else {
        assert(u.drop_last() =~= c.drop_last().update(k, x));
        lemma_count_update(c.drop_last(), k, x, id);
    }
}

proof fn lemma_first_exists(c: Seq<IndexView>, id: u128, k0: int)
    requires
        0 <= k0 < c.len(),
        c[k0].uuid == id,
    ensures
        exists|k: int|
            0 <= k < c.len() && c[k].uuid == id && forall|j: int|
                0 <= j < k ==> #[trigger] c[j].uuid != id,
    decreases k0,
{
    if exists|j: int| 0 <= j < k0 && c[j].uuid == id {
        let j = choose|j: int| 0 <= j < k0 && c[j].uuid == id;
        lemma_first_exists(c, id, j);
    } else {
        assert(forall|j: int| 0 <= j < k0 ==> #[trigger] c[j].uuid != id);
    }
}

pub(crate) proof fn lemma_id_position(c: Seq<IndexView>, id: u128)
    ensures
        match id_position(c, id) {
            Some(k) => 0 <= k < c.len() && c[k].uuid == id && forall|j: int|
                0 <= j < k ==> #[trigger] c[j].uuid != id,
            None => forall|k: int| 0 <= k < c.len() ==> #[trigger] c[k].uuid != id,
        },
{
    reveal(id_position);
    if exists|k: int| 0 <= k < c.len() && c[k].uuid == id {
        let k0 = choose|k: int| 0 <= k < c.len() && c[k].uuid == id;
        lemma_first_exists(c, id, k0);
    }
}

proof fn lemma_covered_merge(p: Seq<IndexView>, c: Seq<IndexView>, m: IndexView, k: int, version: u64, id: u128)
    requires
        covered(c, id) == covered(p, id),
        0 <= k < c.len(),
        c[k].uuid == m.uuid,
    ensures
        covered(c.update(k, merged(c[k], m, version)), id) == covered(p.push(m), id),
{
    let c2 = c.update(k, merged(c[k], m, version));
    let s = p.push(m);
    assert forall|f: u32| covered(c2, id).contains(f) implies covered(s, id).contains(f) by {
        let i = choose|i: int| 0 <= i < c2.len() && c2[i].uuid == id && #[trigger] c2[i].fragments.contains(f);
        if i == k && !c[k].fragments.contains(f) {
            let t = choose|t: int| 0 <= t < c2[k].fragments.len() && c2[k].fragments[t] == f;
            assert(m.fragments[t - c[k].fragments.len()] == f);
            assert(s[p.len() as int].fragments.contains(f));
        } else {
            assert(c[i].fragments.contains(f));
            assert(covered(c, id).contains(f));
            let j = choose|j: int| 0 <= j < p.len() && p[j].uuid == id && #[trigger] p[j].fragments.contains(f);
            assert(s[j] == p[j]);
        }
    }
    assert forall|f: u32| covered(s, id).contains(f) implies covered(c2, id).contains(f) by {
        let i = choose|i: int| 0 <= i < s.len() && s[i].uuid == id && #[trigger] s[i].fragments.contains(f);
        if i == p.len() {
            let t = choose|t: int| 0 <= t < m.fragments.len() && m.fragments[t] == f;
            assert(c2[k].fragments[c[k].fragments.len() + t] == f);
            assert(c2[k].fragments.contains(f));
        } else {
            assert(p[i].fragments.contains(f));
            assert(covered(p, id).contains(f));
            let j = choose|j: int| 0 <= j < c.len() && c[j].uuid == id && #[trigger] c[j].fragments.contains(f);
            if j == k {
                let t = choose|t: int| 0 <= t < c[k].fragments.len() && c[k].fragments[t] == f;
                assert(c2[k].fragments[t] == f);
                assert(c2[k].fragments.contains(f));
            } else {
                assert(c2[j] == c[j]);
            }
        }
    }
    assert(covered(c2, id) =~= covered(s, id));
}

proof fn lemma_covered_push(p: Seq<IndexView>, c: Seq<IndexView>, m: IndexView, id: u128)
    requires
        covered(c, id) == covered(p, id),
    ensures
        covered(c.push(m), id) == covered(p.push(m), id),
{
    let c2 = c.push(m);
    let s = p.push(m);
    assert forall|f: u32| covered(c2, id).contains(f) implies covered(s, id).contains(f) by {
        let i = choose|i: int| 0 <= i < c2.len() && c2[i].uuid == id && #[trigger] c2[i].fragments.contains(f);
        if i == c.len() {
            assert(s[p.len() as int].fragments.contains(f));
        } else {
            assert(c[i].fragments.contains(f));
            assert(covered(c, id).contains(f));
            let j = choose|j: int| 0 <= j < p.len() && p[j].uuid == id && #[trigger] p[j].fragments.contains(f);
            assert(s[j] == p[j]);
        }
    }
    assert forall|f: u32| covered(s, id).contains(f) implies covered(c2, id).contains(f) by {
        let i = choose|i: int| 0 <= i < s.len() && s[i].uuid == id && #[trigger] s[i].fragments.contains(f);
        if i == p.len() {
            assert(c2[c.len() as int].fragments.contains(f));
        } else {
            assert(p[i].fragments.contains(f));
            assert(covered(p, id).contains(f));
            let j = choose|j: int| 0 <= j < c.len() && c[j].uuid == id && #[trigger] c[j].fragments.contains(f);
            assert(c2[j] == c[j]);
        }
    }
    assert(covered(c2, id) =~= covered(s, id));
}

/// Consolidating deltas keeps the fragments covered by each id and never adds
/// records of an id.
pub proof fn lemma_consolidate_keeps_coverage(s: Seq<IndexView>, version: u64, id: u128)
    ensures
        covered(consolidate(s, version), id) == covered(s, id),
        count_id(consolidate(s, version), id) <= count_id(s, id),
    decreases s.len(),
{
    if s.len() == 0 {
        assert(covered(s, id) =~= covered(consolidate(s, version), id));
    } else {
        let p = s.drop_last();
        let c = consolidate(p, version);
        let m = s.last();
        assert(s =~= p.push(m));
        lemma_consolidate_keeps_coverage(p, version, id);
        lemma_id_position(c, m.uuid);
        reveal(Seq::filter);
        match id_position(c, m.uuid) {
            Some(k) => {
                lemma_count_update(c, k, merged(c[k], m, version), id);
                lemma_covered_merge(p, c, m, k, version, id);
            },
            None => {
                assert(c.push(m).drop_last() =~= c);
                lemma_covered_push(p, c, m, id);
            },
        }
    }
}

/// Position of the first record of `v` with id `id`.
pub(crate) fn first_with_id(v: &Vec<IndexMetadata>, id: u128) -> (r: Option<usize>)
    ensures
        match r {
            Some(k) => id_position(records_view(v@), id) == Some(k as int),
            None => id_position(records_view(v@), id) is None,
        },
{
    let ghost c = records_view(v@);
    proof {
        lemma_id_position(c, id);
    }
    let mut i: usize = 0;
    while i < v.len()
        invariant
            i <= v@.len(),
            c == records_view(v@),
            forall|j: int| 0 <= j < i ==> #[trigger] c[j].uuid != id,
        decreases v@.len() - i,
    {
        if v[i].uuid == id {
            assert(c[i as int].uuid == id);
            proof {
                lemma_id_position(c, id);
                let k = id_position(c, id)->Some_0;
                if k < i {
                    assert(c[k].uuid != id);
                }
                if i < k {
                    assert(c[i as int].uuid != id);
                }
            }
            return Some(i);
        }
        i = i + 1;
    }
    proof {
        lemma_id_position(c, id);
        if id_position(c, id) is Some {
            let k = id_position(c, id)->Some_0;
            assert(c[k].uuid != id);
        }
    }
    None
}

} // verus!
