//! The order in which the sparse-array check compares a table's explicit
//! keys.

use vstd::prelude::*;
use crate::sequence::{insert_by_key, sort_by_key};

verus! {

/// Whether `s` is in ascending key order.
pub open spec fn keys_ascending(s: Seq<(i64, usize, usize)>) -> bool {
    forall|i: int, j: int| 0 <= i < j < s.len() ==> (#[trigger] s[i]).0 <= (#[trigger] s[j]).0
}

proof fn lemma_insert_by_key_members(s: Seq<(i64, usize, usize)>, x: (i64, usize, usize))
    ensures
        insert_by_key(s, x).len() == s.len() + 1,
        forall|i: int|
            0 <= i < insert_by_key(s, x).len() ==> #[trigger] insert_by_key(s, x)[i] == x || s.contains(
                insert_by_key(s, x)[i],
            ),
    decreases s.len(),
{
    if s.len() > 0 && s.last().0 > x.0 {
        let d = s.drop_last();
        lemma_insert_by_key_members(d, x);
        let r = insert_by_key(d, x);
        assert forall|i: int| 0 <= i < r.push(s.last()).len() implies #[trigger] r.push(s.last())[i] == x
            || s.contains(r.push(s.last())[i]) by {
            if i < r.len() {
                assert(r.push(s.last())[i] == r[i]);
                if r[i] != x {
                    let k = choose|k: int| 0 <= k < d.len() && d[k] == r[i];
                    assert(s[k] == d[k]);
                }
            } else {
                assert(s[s.len() - 1] == s.last());
            }
        }
    } else if s.len() > 0 {
        assert forall|i: int| 0 <= i < s.push(x).len() implies #[trigger] s.push(x)[i] == x || s.contains(
            s.push(x)[i],
        ) by {
            if i < s.len() {
                assert(s.push(x)[i] == s[i]);
            }
        }
    }
}

proof fn lemma_insert_by_key_sorted(s: Seq<(i64, usize, usize)>, x: (i64, usize, usize))
    requires
        keys_ascending(s),
    ensures
        keys_ascending(insert_by_key(s, x)),
    decreases s.len(),
{
    if s.len() > 0 && s.last().0 > x.0 {
        let d = s.drop_last();
        let l = s.last();
        assert(keys_ascending(d)) by {
            assert forall|i: int, j: int| 0 <= i < j < d.len() implies (#[trigger] d[i]).0 <= (#[trigger] d[j]).0 by {
                assert(d[i] == s[i] && d[j] == s[j]);
            }
        }
        lemma_insert_by_key_sorted(d, x);
        lemma_insert_by_key_members(d, x);
        let r = insert_by_key(d, x);
        assert forall|i: int| 0 <= i < r.len() implies (#[trigger] r[i]).0 <= l.0 by {
            if r[i] != x {
                let k = choose|k: int| 0 <= k < d.len() && d[k] == r[i];
                assert(s[k] == d[k]);
                assert(s[k].0 <= s[s.len() - 1].0);
            }
        }
        assert forall|i: int, j: int| 0 <= i < j < r.push(l).len() implies (#[trigger] r.push(l)[i]).0
            <= (#[trigger] r.push(l)[j]).0 by {
            assert(r.push(l)[i] == r[i]);
            if j < r.len() {
                assert(r.push(l)[j] == r[j]);
            }
        }
    } else if s.len() > 0 {
        assert forall|i: int, j: int| 0 <= i < j < s.push(x).len() implies (#[trigger] s.push(x)[i]).0
            <= (#[trigger] s.push(x)[j]).0 by {
            assert(s.push(x)[i] == s[i]);
            if j < s.len() {
                assert(s.push(x)[j] == s[j]);
            } else {
                assert(s[i].0 <= s[s.len() - 1].0 || i == s.len() - 1);
            }
        }
    }
}

proof fn lemma_insert_by_key_multiset(s: Seq<(i64, usize, usize)>, x: (i64, usize, usize))
    ensures
        insert_by_key(s, x).to_multiset() == s.to_multiset().insert(x),
    decreases s.len(),
{
    broadcast use vstd::seq_lib::group_to_multiset_ensures;

    if s.len() == 0 {
        assert(seq![x] =~= Seq::<(i64, usize, usize)>::empty().push(x));
    } else if s.last().0 > x.0 {
        let d = s.drop_last();
        let l = s.last();
        lemma_insert_by_key_multiset(d, x);
        assert(s =~= d.push(l));
        let r = insert_by_key(d, x);
        assert(r.push(l).to_multiset() =~= s.to_multiset().insert(x));
    }
}

/// The keys a sparse-array check compares are those of the table, each as
/// often as it was written, in ascending key order: so two keys compared
/// side by side have no key of the table strictly between them.
pub proof fn lemma_sort_by_key_sorts(s: Seq<(i64, usize, usize)>)
    ensures
        keys_ascending(sort_by_key(s)),
        sort_by_key(s).to_multiset() == s.to_multiset(),
        sort_by_key(s).len() == s.len(),
    decreases s.len(),
{
    broadcast use vstd::seq_lib::group_to_multiset_ensures;

    if s.len() > 0 {
        lemma_sort_by_key_sorts(s.drop_last());
        lemma_insert_by_key_sorted(sort_by_key(s.drop_last()), s.last());
        lemma_insert_by_key_multiset(sort_by_key(s.drop_last()), s.last());
        lemma_insert_by_key_members(sort_by_key(s.drop_last()), s.last());
        assert(s =~= s.drop_last().push(s.last()));
    }
}

/// Of two keys compared side by side in the sorted keys of a table, no key
/// of the table lies strictly between them.
pub proof fn lemma_adjacent_keys_have_none_between(s: Seq<(i64, usize, usize)>, k: int, m: int)
    requires
        0 < k < sort_by_key(s).len(),
        0 <= m < s.len(),
    ensures
        !(sort_by_key(s)[k - 1].0 < s[m].0 && s[m].0 < sort_by_key(s)[k].0),
{
    broadcast use vstd::seq_lib::group_to_multiset_ensures;

    lemma_sort_by_key_sorts(s);
    let t = sort_by_key(s);
    assert(s.to_multiset().count(s[m]) > 0);
    assert(t.to_multiset().count(s[m]) > 0);
    assert(t.contains(s[m]));
    let q = choose|q: int| 0 <= q < t.len() && t[q] == s[m];
    if q < k {
        if q < k - 1 {
            assert(t[q].0 <= t[k - 1].0);
        }
    } else if q > k {
        assert(t[k].0 <= t[q].0);
    }
}


} // verus!
