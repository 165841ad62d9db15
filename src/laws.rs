//! Properties of the libraries this crate builds, stated over the same spec functions
//! as the encoders' contracts, and proved.
use vstd::prelude::*;
use crate::archive::{
    archive, archive_header, archive_signature, first_linker, first_linker_len, layout_fits,
    lemma_archive_header_len, member_numbers, member_start, members_base, regular_members,
    second_linker, second_linker_len, symbol_offsets, symbols_valid, unit, unit_len,
};
use crate::bytes::{be32, le16};
use crate::coff::short_import_record;
use crate::coff::imp_prefix;
use crate::library::{
    ascii_bytes, import_name_bytes, index_of_pairs, lemma_insert_valid, library, library_members,
    library_outcome, library_symbols, short_import, symbol_pairs, ImportLibSpec, ImportView,
};
use crate::symbols::{binds, keys_unique, lemma_insert_entry, sorted_by_member, with_member};

verus! {

/// A library has one regular member per entry besides its three descriptor members.
pub proof fn lemma_member_count(b: ImportLibSpec)
    ensures
        library_members(b).len() == 3 + b.imports.len(),
{
}

/// Building is a function of the builder's value alone: equal values give equal
/// outcomes, byte for byte, with no time stamp or chance involved.
pub proof fn lemma_deterministic(b1: ImportLibSpec, b2: ImportLibSpec)
    requires
        b1 == b2,
    ensures
        library_outcome(b1) == library_outcome(b2),
{
}

/// A member occupies an even number of bytes, and a payload of odd length is followed
/// by a zero byte.
pub proof fn lemma_unit_even(name: Seq<u8>, payload: Seq<u8>)
    ensures
        unit(name, payload).len() == unit_len(payload.len()),
        unit(name, payload).len() % 2 == 0,
        payload.len() % 2 == 1 ==> unit(name, payload)[60 + payload.len() as int] == 0,
        forall|x: int| 0 <= x < 60 + payload.len() ==> #[trigger] unit(name, payload)[x] == (
        archive_header(name, payload.len() as u32) + payload)[x],
{
    lemma_archive_header_len(name, payload.len() as u32);
}

pub proof fn lemma_regular_members_len(name: Seq<u8>, ms: Seq<Seq<u8>>, i: nat, base: nat)
    requires
        i <= ms.len(),
    ensures
        base + regular_members(name, ms.take(i as int)).len() == member_start(ms, i, base),
        regular_members(name, ms.take(i as int)).len() % 2 == 0,
    decreases i,
{
    if i == 0 {
        assert(ms.take(0) =~= Seq::<Seq<u8>>::empty());
    } else {
        lemma_regular_members_len(name, ms, (i - 1) as nat, base);
        assert(ms.take(i as int).drop_last() =~= ms.take(i - 1));
        lemma_unit_even(name, ms[i - 1]);
    }
}

/// The whole archive has even length.
pub proof fn lemma_archive_even(name: Seq<u8>, ms: Seq<Seq<u8>>, s: Seq<(Seq<u8>, usize)>)
    ensures
        archive(name, ms, s).len() % 2 == 0,
{
    let base = members_base(ms, s);
    let t = sorted_by_member(s, ms.len());
    let u1 = unit(Seq::empty(), first_linker(s, ms, base));
    let u2 = unit(Seq::empty(), second_linker(t, ms, base));
    let r = regular_members(name, ms);
    lemma_unit_even(Seq::empty(), first_linker(s, ms, base));
    lemma_unit_even(Seq::empty(), second_linker(t, ms, base));
    lemma_regular_members_len(name, ms, ms.len(), base);
    assert(ms.take(ms.len() as int) =~= ms);
    lemma_concat_even(archive_signature(), u1, u2, r);
}

proof fn lemma_concat_even(a: Seq<u8>, b: Seq<u8>, c: Seq<u8>, d: Seq<u8>)
    requires
        a.len() % 2 == 0,
        b.len() % 2 == 0,
        c.len() % 2 == 0,
        d.len() % 2 == 0,
    ensures
        (a + b + c + d).len() % 2 == 0,
{
}

/// A short import by ordinal holds the ordinal, name type 0 and an empty name; one by
/// name holds ordinal 0, name type 1 and the name ending in a zero byte.
pub proof fn lemma_short_import_fields(m: Seq<u8>, machine: u16, i: ImportView)
    ensures
        short_import(m, machine, i).subrange(16, 18) == le16(
            match i {
                ImportView::Ordinal(o) => o,
                ImportView::Name(_) => 0,
            },
        ),
        short_import(m, machine, i).subrange(18, 20) == le16(
            match i {
                ImportView::Ordinal(_) => 0,
                ImportView::Name(_) => 4,
            },
        ),
        short_import(m, machine, i).subrange(20, 21 + import_name_bytes(i).len() as int) == import_name_bytes(
            i,
        ).push(0),
        i is Ordinal ==> import_name_bytes(i).len() == 0,
        i matches ImportView::Name(n) ==> import_name_bytes(i) == ascii_bytes(n),
{
    reveal(short_import_record);
    let r = short_import(m, machine, i);
    let name = import_name_bytes(i);
    assert(r.subrange(16, 18) =~= le16(
        match i {
            ImportView::Ordinal(o) => o,
            ImportView::Name(_) => 0,
        },
    ));
    assert(r.subrange(18, 20) =~= le16(
        match i {
            ImportView::Ordinal(_) => 0,
            ImportView::Name(_) => 4,
        },
    ));
    assert(r.subrange(20, 21 + name.len() as int) =~= name.push(0));
}

/// The members before `j` are laid out at the start of the members' bytes.
pub proof fn lemma_regular_prefix(name: Seq<u8>, ms: Seq<Seq<u8>>, j: nat)
    requires
        j <= ms.len(),
    ensures
        regular_members(name, ms.take(j as int)).len() <= regular_members(name, ms).len(),
        forall|x: int|
            0 <= x < regular_members(name, ms.take(j as int)).len() ==> #[trigger] regular_members(
                name,
                ms,
            )[x] == regular_members(name, ms.take(j as int))[x],
    decreases ms.len() - j,
{
    if j == ms.len() {
        assert(ms.take(j as int) =~= ms);
    } else {
        lemma_regular_prefix(name, ms, j + 1);
        assert(ms.take(j + 1 as int).drop_last() =~= ms.take(j as int));
    }
}

/// For every symbol of the first linker member, the big-endian offset stored for it is
/// where the header of its member starts, and that member's header and payload stand
/// there.
pub proof fn lemma_offset_consistent(
    name: Seq<u8>,
    ms: Seq<Seq<u8>>,
    s: Seq<(Seq<u8>, usize)>,
    k: int,
)
    requires
        symbols_valid(s, ms.len()),
        layout_fits(ms, s),
        0 <= k < s.len(),
    ensures
        ({
            let a = archive(name, ms, s);
            let i = s[k].1 - 1;
            let off = member_start(ms, i as nat, members_base(ms, s)) as int;
            &&& a.subrange(72 + 4 * k, 76 + 4 * k) == be32(off as u32)
            &&& a.subrange(off, off + 60) == archive_header(name, ms[i].len() as u32)
            &&& a.subrange(off + 60, off + 60 + ms[i].len()) == ms[i]
        }),
{
    let a = archive(name, ms, s);
    let base = members_base(ms, s);
    let t = sorted_by_member(s, ms.len());
    let f1 = first_linker(s, ms, base);
    let f2 = second_linker(t, ms, base);
    let u1 = unit(Seq::empty(), f1);
    let u2 = unit(Seq::empty(), f2);
    let r = regular_members(name, ms);
    let i = s[k].1 - 1;
    let off = member_start(ms, i as nat, base) as int;
    lemma_unit_even(Seq::empty(), f1);
    lemma_unit_even(Seq::empty(), f2);
    lemma_archive_header_len(Seq::empty(), f1.len() as u32);
    assert(f1.len() == first_linker_len(s));
    assert(f2.len() == second_linker_len(t, ms.len()));
    assert(a == archive_signature() + u1 + u2 + r);
    let p = archive_signature() + u1 + u2;
    assert(p.len() == base);

    // the offset stored for symbol k
    let v = be32(off as u32);
    assert forall|q: int| 0 <= q < 4 implies #[trigger] a[72 + 4 * k + q] == v[q] by {
        assert((4 * k + q) / 4 == k);
        assert((4 * k + q) % 4 == q);
        assert(symbol_offsets(s, ms, base)[4 * k + q] == v[q]);
        assert(f1[4 + 4 * k + q] == v[q]);
        assert(u1[64 + 4 * k + q] == v[q]);
    }
    assert(a.subrange(72 + 4 * k, 76 + 4 * k) =~= v);

    // the member at that offset
    let d = ms[i];
    lemma_regular_members_len(name, ms, i as nat, base);
    lemma_regular_members_len(name, ms, (i + 1) as nat, base);
    lemma_regular_members_len(name, ms, ms.len(), base);
    assert(ms.take(ms.len() as int) =~= ms);
    lemma_regular_prefix(name, ms, (i + 1) as nat);
    assert(ms.take(i + 1).drop_last() =~= ms.take(i));
    let before = regular_members(name, ms.take(i));
    assert(regular_members(name, ms.take(i + 1)) == before + unit(name, d));
    lemma_unit_even(name, d);
    lemma_archive_header_len(name, d.len() as u32);
    let h = archive_header(name, d.len() as u32);
    assert forall|x: int| 0 <= x < 60 + d.len() implies #[trigger] a[off + x] == (h + d)[x] by {
        assert(r[before.len() + x] == unit(name, d)[x]);
    }
    assert(a.subrange(off, off + 60) =~= h);
    assert forall|x: int| 0 <= x < d.len() implies #[trigger] a.subrange(
        off + 60,
        off + 60 + d.len(),
    )[x] == d[x] by {
        assert(a[off + 60 + x] == (h + d)[60 + x]);
    }
    assert(a.subrange(off + 60, off + 60 + d.len()) =~= d);
}

pub proof fn lemma_with_member_from(s: Seq<(Seq<u8>, usize)>, m: usize)
    ensures
        forall|j: int|
            0 <= j < with_member(s, m).len() ==> #[trigger] with_member(s, m)[j].1 == m
                && s.contains(with_member(s, m)[j]),
    decreases s.len(),
{
    if s.len() > 0 {
        lemma_with_member_from(s.drop_last(), m);
        let w = with_member(s, m);
        assert forall|j: int| 0 <= j < w.len() implies #[trigger] w[j].1 == m && s.contains(w[j]) by {
            let w0 = with_member(s.drop_last(), m);
            if j < w0.len() {
                assert(w0[j].1 == m);
                assert(s.drop_last().contains(w0[j]));
                let i = choose|i: int| 0 <= i < s.drop_last().len() && s.drop_last()[i] == w0[j];
                assert(s[i] == w[j]);
            } else {
                assert(s[s.len() - 1] == w[j]);
            }
        }
    }
}

/// Every entry of the sorted index is an entry of the index, of a member from 1 to `n`.
pub proof fn lemma_sorted_from(s: Seq<(Seq<u8>, usize)>, n: nat)
    requires
        n <= usize::MAX,
    ensures
        forall|j: int|
            0 <= j < sorted_by_member(s, n).len() ==> 1 <= #[trigger] sorted_by_member(s, n)[j].1
                <= n && s.contains(sorted_by_member(s, n)[j]),
    decreases n,
{
    if n > 0 {
        lemma_sorted_from(s, (n - 1) as nat);
        lemma_with_member_from(s, n as usize);
        let t = sorted_by_member(s, n);
        let t0 = sorted_by_member(s, (n - 1) as nat);
        let w = with_member(s, n as usize);
        assert forall|j: int| 0 <= j < t.len() implies 1 <= #[trigger] t[j].1 <= n && s.contains(
            t[j],
        ) by {
            if j < t0.len() {
                assert(t[j] == t0[j]);
            } else {
                assert(t[j] == w[j - t0.len()]);
            }
        }
    }
}

/// For every symbol of the second linker member, the two bytes stored for it give the
/// number (from 1) of the member that the index binds it to, in the order members are
/// emitted.
pub proof fn lemma_member_number_consistent(
    name: Seq<u8>,
    ms: Seq<Seq<u8>>,
    s: Seq<(Seq<u8>, usize)>,
    j: int,
)
    requires
        symbols_valid(s, ms.len()),
        layout_fits(ms, s),
        0 <= j < sorted_by_member(s, ms.len()).len(),
    ensures
        ({
            let a = archive(name, ms, s);
            let t = sorted_by_member(s, ms.len());
            let p = 8 + unit_len(first_linker_len(s)) + 68 + 4 * ms.len() + 2 * j;
            &&& a.subrange(p, p + 2) == le16(t[j].1 as u16)
            &&& 1 <= t[j].1 <= ms.len()
            &&& s.contains(t[j])
        }),
{
    let a = archive(name, ms, s);
    let base = members_base(ms, s);
    let t = sorted_by_member(s, ms.len());
    let f1 = first_linker(s, ms, base);
    let f2 = second_linker(t, ms, base);
    let u1 = unit(Seq::empty(), f1);
    let u2 = unit(Seq::empty(), f2);
    let r = regular_members(name, ms);
    lemma_sorted_from(s, ms.len());
    lemma_unit_even(Seq::empty(), f1);
    lemma_unit_even(Seq::empty(), f2);
    lemma_archive_header_len(Seq::empty(), f2.len() as u32);
    assert(f1.len() == first_linker_len(s));
    assert(a == archive_signature() + u1 + u2 + r);
    let p = 8 + unit_len(first_linker_len(s)) + 68 + 4 * ms.len() + 2 * j;
    let v = le16(t[j].1 as u16);
    assert forall|q: int| 0 <= q < 2 implies #[trigger] a[p + q] == v[q] by {
        assert((2 * j + q) / 2 == j);
        assert((2 * j + q) % 2 == q);
        assert(member_numbers(t)[2 * j + q] == v[q]);
        assert(f2[8 + 4 * ms.len() + 2 * j + q] == v[q]);
        assert(u2[68 + 4 * ms.len() + 2 * j + q] == v[q]);
    }
    assert(a.subrange(p, p + 2) =~= v);
}

/// Binding pairs in turn never gives a name two entries.
pub proof fn lemma_index_unique(p: Seq<(Seq<u8>, usize)>)
    ensures
        keys_unique(index_of_pairs(p)),
    decreases p.len(),
{
    if p.len() > 0 {
        lemma_index_unique(p.drop_last());
        lemma_insert_entry(index_of_pairs(p.drop_last()), p.last().0, p.last().1);
    }
}

/// A name is bound to the member of its last pair.
pub proof fn lemma_last_binding_wins(p: Seq<(Seq<u8>, usize)>, idx: int)
    requires
        0 <= idx < p.len(),
        forall|j: int| idx < j < p.len() ==> #[trigger] p[j].0 != p[idx].0,
    ensures
        binds(index_of_pairs(p), p[idx].0, p[idx].1),
    decreases p.len(),
{
    let q = p.drop_last();
    lemma_index_unique(q);
    lemma_insert_entry(index_of_pairs(q), p.last().0, p.last().1);
    if idx < p.len() - 1 {
        assert forall|j: int| idx < j < q.len() implies #[trigger] q[j].0 != q[idx].0 by {
            assert(q[j] == p[j]);
        }
        lemma_last_binding_wins(q, idx);
        assert(p[p.len() - 1].0 != p[idx].0);
    }
}

/// Each entry's short import exports exactly `__imp_<name>` and `<name>`, both bound to
/// that entry's member, where no later entry binds either name again.
pub proof fn lemma_short_import_exports(b: ImportLibSpec, k: int)
    requires
        0 <= k < b.imports.len(),
        forall|j: int|
            k < j < b.imports.len() ==> {
                let x = ascii_bytes(#[trigger] b.imports[j].0);
                let y = ascii_bytes(b.imports[k].0);
                &&& x != y
                &&& imp_prefix() + x != y
                &&& x != imp_prefix() + y
            },
    ensures
        binds(library_symbols(b), imp_prefix() + ascii_bytes(b.imports[k].0), (4 + k) as usize),
        binds(library_symbols(b), ascii_bytes(b.imports[k].0), (4 + k) as usize),
{
    let p = symbol_pairs(b);
    let y = ascii_bytes(b.imports[k].0);
    let iy = imp_prefix() + y;
    let i0 = 3 + 2 * k;
    assert((2 * k) / 2 == k && (2 * k) % 2 == 0);
    assert((2 * k + 1) / 2 == k && (2 * k + 1) % 2 == 1);
    assert(p[i0] == (iy, (4 + k) as usize));
    assert(p[i0 + 1] == (y, (4 + k) as usize));
    assert forall|j: int| i0 < j < p.len() implies #[trigger] p[j].0 != iy && (j > i0 + 1
        ==> p[j].0 != y) by {
        let m = (j - 3) / 2;
        let x = ascii_bytes(b.imports[m].0);
        if (j - 3) % 2 == 0 {
            assert(p[j].0 == imp_prefix() + x);
        } else {
            assert(p[j].0 == x);
        }
        if m == k {
            assert(j == i0 + 1);
            assert(iy.len() == y.len() + 6);
        } else {
            assert(m > k);
            if imp_prefix() + x == iy {
                assert(x =~= (imp_prefix() + x).subrange(6, (imp_prefix() + x).len() as int));
                assert(y =~= iy.subrange(6, iy.len() as int));
            }
        }
    }
    lemma_last_binding_wins(p, i0);
    lemma_last_binding_wins(p, i0 + 1);
}

/// The second linker member lists symbols in order of their member numbers.
pub proof fn lemma_sorted_nondecreasing(s: Seq<(Seq<u8>, usize)>, n: nat)
    requires
        n <= usize::MAX,
    ensures
        forall|j1: int, j2: int|
            0 <= j1 < j2 < sorted_by_member(s, n).len() ==> #[trigger] sorted_by_member(s, n)[j1].1
                <= #[trigger] sorted_by_member(s, n)[j2].1,
    decreases n,
{
    if n > 0 {
        lemma_sorted_nondecreasing(s, (n - 1) as nat);
        lemma_sorted_from(s, (n - 1) as nat);
        lemma_with_member_from(s, n as usize);
        let t = sorted_by_member(s, n);
        let t0 = sorted_by_member(s, (n - 1) as nat);
        let w = with_member(s, n as usize);
        assert forall|j1: int, j2: int| 0 <= j1 < j2 < t.len() implies #[trigger] t[j1].1
            <= #[trigger] t[j2].1 by {
            if j2 < t0.len() {
                assert(t[j1] == t0[j1] && t[j2] == t0[j2]);
            } else if j1 < t0.len() {
                assert(t[j1] == t0[j1] && t0[j1].1 <= n - 1);
                assert(t[j2] == w[j2 - t0.len()]);
            } else {
                assert(t[j1] == w[j1 - t0.len()] && t[j2] == w[j2 - t0.len()]);
            }
        }
    }
}

/// Binding pairs whose members lie in `1..=bound` gives an index whose members do too.
pub proof fn lemma_index_valid(p: Seq<(Seq<u8>, usize)>, bound: nat)
    requires
        forall|i: int| 0 <= i < p.len() ==> 1 <= #[trigger] p[i].1 <= bound,
    ensures
        symbols_valid(index_of_pairs(p), bound),
    decreases p.len(),
{
    if p.len() > 0 {
        let q = p.drop_last();
        assert forall|i: int| 0 <= i < q.len() implies 1 <= #[trigger] q[i].1 <= bound by {
            assert(q[i] == p[i]);
        }
        lemma_index_valid(q, bound);
        assert(p[p.len() - 1] == p.last());
        lemma_insert_valid(index_of_pairs(q), p.last().0, p.last().1, bound);
    }
}

/// The symbol index of a library names each symbol once and binds it to one of the
/// library's members (whose count, like any vector's length, fits in a `usize`).
pub proof fn lemma_library_symbols_valid(b: ImportLibSpec)
    requires
        3 + b.imports.len() <= usize::MAX,
    ensures
        keys_unique(library_symbols(b)),
        symbols_valid(library_symbols(b), library_members(b).len()),
{
    let p = symbol_pairs(b);
    let n = b.imports.len();
    lemma_index_unique(p);
    assert forall|i: int| 0 <= i < p.len() implies 1 <= #[trigger] p[i].1 <= 3 + n by {
        if i >= 3 {
            let k = i - 3;
            assert(0 <= k / 2 < n as int) by {
                assert(0 <= k < 2 * n);
            }
            assert(p[i].1 == (4 + k / 2) as usize);
        }
    }
    lemma_index_valid(p, (3 + n) as nat);
}

/// In a built library, the first linker member's offset for each symbol is the start of
/// its member's header, and that member's header and payload stand there.
pub proof fn lemma_library_offset_consistent(b: ImportLibSpec, k: int)
    requires
        library_outcome(b) is Ok,
        0 <= k < library_symbols(b).len(),
    ensures
        ({
            let a = library(b);
            let ms = library_members(b);
            let s = library_symbols(b);
            let i = s[k].1 - 1;
            let off = member_start(ms, i as nat, members_base(ms, s)) as int;
            &&& 1 <= s[k].1 <= ms.len()
            &&& a.subrange(72 + 4 * k, 76 + 4 * k) == be32(off as u32)
            &&& a.subrange(off, off + 60) == archive_header(ascii_bytes(b.module), ms[i].len() as u32)
            &&& a.subrange(off + 60, off + 60 + ms[i].len()) == ms[i]
        }),
{
    lemma_library_symbols_valid(b);
    lemma_offset_consistent(ascii_bytes(b.module), library_members(b), library_symbols(b), k);
}

/// In a built library, the second linker member's number for each symbol is the number
/// of the member the index binds it to.
pub proof fn lemma_library_member_number_consistent(b: ImportLibSpec, j: int)
    requires
        library_outcome(b) is Ok,
        0 <= j < sorted_by_member(library_symbols(b), library_members(b).len()).len(),
    ensures
        ({
            let a = library(b);
            let ms = library_members(b);
            let s = library_symbols(b);
            let t = sorted_by_member(s, ms.len());
            let p = 8 + unit_len(first_linker_len(s)) + 68 + 4 * ms.len() + 2 * j;
            &&& a.subrange(p, p + 2) == le16(t[j].1 as u16)
            &&& 1 <= t[j].1 <= ms.len()
            &&& s.contains(t[j])
        }),
{
    lemma_library_symbols_valid(b);
    lemma_member_number_consistent(ascii_bytes(b.module), library_members(b), library_symbols(b), j);
}

} // verus!
