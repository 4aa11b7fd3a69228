//! Name-keyed association lists: small maps that remember the order in
//! which their keys were first inserted.

use vstd::prelude::*;

verus! {

/// Index of the first occurrence of `k` in `keys`.
pub open spec fn first_index(keys: Seq<Seq<char>>, k: Seq<char>) -> Option<int>
    decreases keys.len(),
{
    if keys.len() == 0 {
        None
    } else if keys[0] == k {
        Some(0)
    } else {
        match first_index(keys.drop_first(), k) {
            Some(i) => Some(i + 1),
            None => None,
        }
    }
}

pub proof fn lemma_first_index(keys: Seq<Seq<char>>, k: Seq<char>)
    ensures
        match first_index(keys, k) {
            Some(i) => 0 <= i < keys.len() && keys[i] == k && forall|j: int|
                0 <= j < i ==> keys[j] != k,
            None => forall|j: int| 0 <= j < keys.len() ==> keys[j] != k,
        },
    decreases keys.len(),
{
    if keys.len() > 0 && keys[0] != k {
        lemma_first_index(keys.drop_first(), k);
        assert forall|j: int| 0 < j < keys.len() implies keys[j] == keys.drop_first()[j - 1] by {}
    }
}

pub proof fn lemma_first_index_unique(keys: Seq<Seq<char>>, k: Seq<char>, i: int)
    requires
        0 <= i < keys.len(),
        keys[i] == k,
        forall|j: int| 0 <= j < i ==> keys[j] != k,
    ensures
        first_index(keys, k) == Some(i),
{
    lemma_first_index(keys, k);
    match first_index(keys, k) {
        Some(m) => {
            if m < i {
            } else if m > i {
            }
        },
        None => {},
    }
}

/// The keys of an association list.
pub open spec fn keys_of<V>(s: Seq<(String, V)>) -> Seq<Seq<char>> {
    s.map_values(|e: (String, V)| e.0@)
}

/// Value stored under `k` in a viewed association list.
pub open spec fn vget<V>(s: Seq<(Seq<char>, V)>, k: Seq<char>) -> Option<V> {
    match first_index(s.map_values(|e: (Seq<char>, V)| e.0), k) {
        Some(i) => Some(s[i].1),
        None => None,
    }
}

/// Whether a viewed association list has key `k`.
pub open spec fn vhas<V>(s: Seq<(Seq<char>, V)>, k: Seq<char>) -> bool {
    vget(s, k) is Some
}

/// Insert-or-replace on a viewed association list: an existing key keeps
/// its position, a new key goes to the end.
pub open spec fn vput<V>(s: Seq<(Seq<char>, V)>, k: Seq<char>, v: V) -> Seq<(Seq<char>, V)> {
    match first_index(s.map_values(|e: (Seq<char>, V)| e.0), k) {
        Some(i) => s.update(i, (k, v)),
        None => s.push((k, v)),
    }
}

/// Whether no key occurs twice in a viewed association list.
pub open spec fn distinct_keys<V>(s: Seq<(Seq<char>, V)>) -> bool {
    s.map_values(|e: (Seq<char>, V)| e.0).no_duplicates()
}

/// Insert-or-replace keeps each key once.
pub proof fn lemma_vput_distinct<V>(s: Seq<(Seq<char>, V)>, k: Seq<char>, v: V)
    requires
        distinct_keys(s),
    ensures
        distinct_keys(vput(s, k, v)),
{
    let keys = s.map_values(|e: (Seq<char>, V)| e.0);
    lemma_first_index(keys, k);
    let r = vput(s, k, v);
    let rk = r.map_values(|e: (Seq<char>, V)| e.0);
    match first_index(keys, k) {
        Some(i) => {
            assert(rk =~= keys);
        },
        None => {
            assert(rk =~= keys.push(k));
            assert forall|a: int, b: int| 0 <= a < rk.len() && 0 <= b < rk.len() && a != b implies rk[a]
                != rk[b] by {
                if a < keys.len() && b < keys.len() {
                    assert(rk[a] == keys[a] && rk[b] == keys[b]);
                } else if a < keys.len() {
                    assert(rk[a] == keys[a]);
                } else {
                    assert(rk[b] == keys[b]);
                }
            }
        },
    }
}

/// Position of key `k` in an association list.
pub fn find_key<V>(v: &Vec<(String, V)>, k: &str) -> (r: Option<usize>)
    ensures
        match r {
            Some(i) => first_index(keys_of(v@), k@) == Some(i as int),
            None => first_index(keys_of(v@), k@) is None,
        },
{
    let n = v.len();
    let key = owned_key(k);
    let mut i: usize = 0;
    while i < n
        invariant
            n == v@.len(),
            i <= n,
            key@ == k@,
            forall|j: int| 0 <= j < i ==> keys_of(v@)[j] != k@,
        decreases n - i,
    {
        if v[i].0 == key {
            proof {
                lemma_first_index_unique(keys_of(v@), k@, i as int);
            }
            return Some(i);
        }
        i = i + 1;
    }
    proof {
        lemma_first_index(keys_of(v@), k@);
    }
    None
}

/// Append `x` to the list stored under `k`, creating it when absent.
pub open spec fn vappend<X>(m: Seq<(Seq<char>, Seq<X>)>, k: Seq<char>, x: X) -> Seq<(Seq<char>, Seq<X>)> {
    match first_index(m.map_values(|e: (Seq<char>, Seq<X>)| e.0), k) {
        Some(i) => m.update(i, (k, m[i].1.push(x))),
        None => m.push((k, seq![x])),
    }
}

/// Appending under `k` extends the list stored under `k` (an empty one when
/// absent) and leaves every other key's list as it was.
pub proof fn lemma_vappend_get<X>(m: Seq<(Seq<char>, Seq<X>)>, k: Seq<char>, x: X, other: Seq<char>)
    ensures
        vget(vappend(m, k, x), k) == Some(
            match vget(m, k) {
                Some(v) => v,
                None => Seq::<X>::empty(),
            }.push(x),
        ),
        other != k ==> vget(vappend(m, k, x), other) == vget(m, other),
{
    let keys = m.map_values(|e: (Seq<char>, Seq<X>)| e.0);
    let r = vappend(m, k, x);
    let rk = r.map_values(|e: (Seq<char>, Seq<X>)| e.0);
    lemma_first_index(keys, k);
    lemma_first_index(keys, other);
    match first_index(keys, k) {
        Some(i) => {
            assert(rk =~= keys);
        },
        None => {
            assert(rk =~= keys.push(k));
            lemma_first_index_unique(rk, k, keys.len() as int);
            assert(seq![x] =~= Seq::<X>::empty().push(x));
            lemma_first_index(rk, other);
            match first_index(keys, other) {
                Some(j) => {
                    lemma_first_index_unique(rk, other, j);
                },
                None => {},
            }
        },
    }
}

/// Pushing an entry keeps every key that was there, and adds its own.
pub proof fn lemma_vhas_push<V>(m: Seq<(Seq<char>, V)>, e: (Seq<char>, V), k: Seq<char>)
    ensures
        vhas(m, k) ==> vhas(m.push(e), k),
        vhas(m.push(e), e.0),
{
    let keys = m.map_values(|p: (Seq<char>, V)| p.0);
    let pk = m.push(e).map_values(|p: (Seq<char>, V)| p.0);
    assert(pk =~= keys.push(e.0));
    lemma_first_index(keys, k);
    lemma_first_index(pk, k);
    lemma_first_index(pk, e.0);
    if vhas(m, k) {
        let i = first_index(keys, k)->0;
        assert(pk[i] == k);
    }
    assert(pk[keys.len() as int] == e.0);
}

pub open spec fn multi_view<X>(v: Seq<(String, Vec<X>)>) -> Seq<(Seq<char>, Seq<X>)> {
    v.map_values(|e: (String, Vec<X>)| (e.0@, e.1@))
}

/// Append `x` to the list stored under `k`.
pub fn multi_push<X>(v: &mut Vec<(String, Vec<X>)>, k: &str, x: X)
    ensures
        multi_view(final(v)@) == vappend(multi_view(old(v)@), k@, x),
{
    assert(multi_view(v@).map_values(|e: (Seq<char>, Seq<X>)| e.0) =~= keys_of(v@));
    match find_key(v, k) {
        Some(i) => {
            proof {
                lemma_first_index(keys_of(v@), k@);
            }
            let ghost old_inner = v@[i as int].1@;
            v[i].1.push(x);
            assert(multi_view(v@) =~= multi_view(old(v)@).update(
                i as int,
                (k@, old_inner.push(x)),
            ));
        },
        None => {
            let mut inner = Vec::new();
            inner.push(x);
            let ghost iv = inner@;
            v.push((owned_key(k), inner));
            assert(iv =~= seq![x]);
            assert(multi_view(v@) =~= multi_view(old(v)@).push((k@, seq![x])));
        },
    }
}

fn owned_key(k: &str) -> (r: String)
    ensures
        r@ == k@,
{
    k.to_owned()
}

} // verus!
