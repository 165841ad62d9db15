//! The symbol index: exported symbol names, each bound to the member that defines it,
//! in the order in which the names were first inserted.
use vstd::prelude::*;
use indexmap::IndexMap;

verus! {

#[verifier::external_type_specification]
#[verifier::external_body]
#[verifier::reject_recursive_types(K)]
#[verifier::reject_recursive_types(V)]
#[verifier::reject_recursive_types(S)]
pub struct ExIndexMap<K, V, S>(IndexMap<K, V, S>);

/// The entries of a symbol index, in the map's order.
pub uninterp spec fn index_entries(m: IndexMap<Vec<u8>, usize>) -> Seq<(Seq<u8>, usize)>;

/// No name occurs twice.
pub open spec fn keys_unique(s: Seq<(Seq<u8>, usize)>) -> bool {
    forall|i: int, j: int| 0 <= i < j < s.len() ==> #[trigger] s[i].0 != #[trigger] s[j].0
}

/// Where `k` stands in `s`, or -1.
pub open spec fn position_of(s: Seq<(Seq<u8>, usize)>, k: Seq<u8>) -> int
    decreases s.len(),
{
    if s.len() == 0 {
        -1
    } else if s.last().0 == k {
        s.len() - 1
    } else {
        position_of(s.drop_last(), k)
    }
}

/// An insertion into an ordered map: a name already present keeps its place and takes
/// the new member; a new name goes last.
#[verifier::opaque]
pub open spec fn insert_entry(s: Seq<(Seq<u8>, usize)>, k: Seq<u8>, v: usize) -> Seq<(Seq<u8>, usize)> {
    let p = position_of(s, k);
    if p >= 0 {
        s.update(p, (k, v))
    } else {
        s.push((k, v))
    }
}

/// `s` binds `k` to `v`.
pub open spec fn binds(s: Seq<(Seq<u8>, usize)>, k: Seq<u8>, v: usize) -> bool {
    exists|i: int| 0 <= i < s.len() && #[trigger] s[i] == (k, v)
}

pub proof fn lemma_position_of(s: Seq<(Seq<u8>, usize)>, k: Seq<u8>)
    ensures
        -1 <= position_of(s, k) < s.len(),
        position_of(s, k) >= 0 ==> s[position_of(s, k)].0 == k,
        position_of(s, k) == -1 ==> forall|i: int| 0 <= i < s.len() ==> #[trigger] s[i].0 != k,
    decreases s.len(),
{
    if s.len() > 0 && s.last().0 != k {
        lemma_position_of(s.drop_last(), k);
        assert forall|i: int| 0 <= i < s.len() && position_of(s, k) == -1 implies #[trigger] s[i].0 != k by {
            if i < s.len() - 1 {
                assert(s.drop_last()[i] == s[i]);
            }
        }
    }
}

/// An insertion keeps names unique, binds the name to the new member, and keeps
/// every other binding.
pub proof fn lemma_insert_entry(s: Seq<(Seq<u8>, usize)>, k: Seq<u8>, v: usize)
    requires
        keys_unique(s),
    ensures
        keys_unique(insert_entry(s, k, v)),
        binds(insert_entry(s, k, v), k, v),
        forall|k2: Seq<u8>, v2: usize|
            k2 != k ==> (binds(insert_entry(s, k, v), k2, v2) == binds(s, k2, v2)),
{
    reveal(insert_entry);
    lemma_position_of(s, k);
    let r = insert_entry(s, k, v);
    let p = position_of(s, k);
    if p >= 0 {
        assert(r[p] == (k, v));
    } else {
        assert(r[s.len() as int] == (k, v));
    }
    assert forall|k2: Seq<u8>, v2: usize| k2 != k implies (binds(r, k2, v2) == binds(s, k2, v2)) by {
        if binds(s, k2, v2) {
            let i = choose|i: int| 0 <= i < s.len() && #[trigger] s[i] == (k2, v2);
            assert(r[i] == (k2, v2));
        }
        if binds(r, k2, v2) {
            let i = choose|i: int| 0 <= i < r.len() && #[trigger] r[i] == (k2, v2);
            assert(s[i] == (k2, v2));
        }
    }
}

/// Relies on `IndexMap::new`: a new map is empty.
#[verifier::external_body]
pub(crate) fn new_index() -> (r: IndexMap<Vec<u8>, usize>)
    ensures
        index_entries(r) == Seq::<(Seq<u8>, usize)>::empty(),
{
    IndexMap::new()
}

/// Relies on `IndexMap::insert`: an equal key keeps its place in the order and takes
/// the new value; a new key is inserted last.
#[verifier::external_body]
pub(crate) fn index_insert(m: &mut IndexMap<Vec<u8>, usize>, k: Vec<u8>, v: usize)
    requires
        keys_unique(index_entries(*old(m))),
    ensures
        index_entries(*final(m)) == insert_entry(index_entries(*old(m)), k@, v),
{
    m.insert(k, v);
}

/// Relies on `IntoIterator for IndexMap`: the entries come out in the map's order.
#[verifier::external_body]
pub(crate) fn index_into_entries(m: IndexMap<Vec<u8>, usize>) -> (r: Vec<(Vec<u8>, usize)>)
    ensures
        r.deep_view() == index_entries(m),
{
    m.into_iter().collect()
}

/// The entries of `s` that belong to member `n`, in their order in `s`.
pub open spec fn with_member(s: Seq<(Seq<u8>, usize)>, n: usize) -> Seq<(Seq<u8>, usize)>
    decreases s.len(),
{
    if s.len() == 0 {
        s
    } else if s.last().1 == n {
        with_member(s.drop_last(), n).push(s.last())
    } else {
        with_member(s.drop_last(), n)
    }
}

/// The entries of `s` that belong to members 1 to `n`, sorted stably by member.
pub open spec fn sorted_by_member(s: Seq<(Seq<u8>, usize)>, n: nat) -> Seq<(Seq<u8>, usize)>
    decreases n,
{
    if n == 0 {
        Seq::empty()
    } else {
        sorted_by_member(s, (n - 1) as nat) + with_member(s, n as usize)
    }
}

fn clone_entry(e: &(Vec<u8>, usize)) -> (r: (Vec<u8>, usize))
    ensures
        r.0@ == e.0@,
        r.1 == e.1,
{
    let mut v: Vec<u8> = Vec::new();
    crate::bytes::push_all(&mut v, &e.0);
    (v, e.1)
}

/// Sorts the entries that belong to members 1 to `n` by member, keeping the order of
/// entries of one member.
pub fn sort_by_member(s: &Vec<(Vec<u8>, usize)>, n: usize) -> (r: Vec<(Vec<u8>, usize)>)
    ensures
        r.deep_view() == sorted_by_member(s.deep_view(), n as nat),
{
    let ghost sv = s.deep_view();
    let mut r: Vec<(Vec<u8>, usize)> = Vec::new();
    let mut m: usize = 0;
    assert(r.deep_view() =~= sorted_by_member(sv, 0));
    while m < n
        invariant
            m <= n,
            sv == s.deep_view(),
            r.deep_view() == sorted_by_member(sv, m as nat),
        decreases n - m,
    {
        m = m + 1;
        let ghost prefix = r.deep_view();
        let mut j: usize = 0;
        assert(sv.take(0) =~= Seq::<(Seq<u8>, usize)>::empty());
        assert(r.deep_view() =~= prefix + with_member(sv.take(0), m));
        while j < s.len()
            invariant
                j <= s@.len(),
                sv == s.deep_view(),
                r.deep_view() == prefix + with_member(sv.take(j as int), m),
            decreases s@.len() - j,
        {
            assert(sv.take(j + 1).drop_last() =~= sv.take(j as int));
            if s[j].1 == m {
                let e = clone_entry(&s[j]);
                let ghost before = r.deep_view();
                assert(e.0.deep_view() =~= e.0@);
                assert(s@[j as int].0.deep_view() =~= s@[j as int].0@);
                assert(e.deep_view() == sv[j as int]);
                r.push(e);
                assert(r.deep_view() =~= before.push(sv[j as int]));
                assert(r.deep_view() =~= prefix + with_member(sv.take(j + 1), m));
            } else {
                assert(r.deep_view() =~= prefix + with_member(sv.take(j + 1), m));
            }
            j = j + 1;
        }
        assert(sv.take(s@.len() as int) =~= sv);
    }
    r
}

} // verus!
