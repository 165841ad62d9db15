//! The archive container: member headers, the two linker members that index the
//! exported symbols, and the layout of the regular members.
use vstd::prelude::*;
use crate::bytes::{
    be32, decimal, lemma_decimal_len, le16, le32, left_justified, pad_even, pad_to_even, push_all,
    push_decimal, push_repeat, push_u16_le, push_u32_be, push_u32_le, repeat,
};
use crate::coff::take_bytes;
use crate::symbols::{sort_by_member, sorted_by_member};

verus! {

/// `!<arch>` and a line feed: the first eight bytes of every archive.
pub open spec fn archive_signature() -> Seq<u8> {
    seq![0x21, 0x3c, 0x61, 0x72, 0x63, 0x68, 0x3e, 0x0a]
}

pub fn archive_signature_bytes() -> (r: Vec<u8>)
    ensures
        r@ == archive_signature(),
{
    let r: Vec<u8> = vec![0x21, 0x3c, 0x61, 0x72, 0x63, 0x68, 0x3e, 0x0a];
    assert(r@ =~= archive_signature());
    r
}

/// The name field's text: at most fifteen bytes of the name, then `/`.
pub open spec fn header_name(name: Seq<u8>) -> Seq<u8> {
    (if name.len() > 15 {
        name.take(15)
    } else {
        name
    }).push(0x2f)
}

/// The 60-byte member header: name, date `-1`, blank user and group, mode `0`, the
/// decimal size, each left-justified in its field, then a backquote and a line feed.
pub open spec fn archive_header(name: Seq<u8>, size: u32) -> Seq<u8> {
    left_justified(header_name(name), 16) + seq![0x2du8, 0x31] + repeat(0x20, 10) + repeat(
        0x20,
        12,
    ) + seq![0x30u8] + repeat(0x20, 7) + left_justified(decimal(size as nat), 10) + seq![
        0x60u8,
        0x0a,
    ]
}

pub proof fn lemma_archive_header_len(name: Seq<u8>, size: u32)
    ensures
        archive_header(name, size).len() == 60,
{
    lemma_decimal_len(size as nat);
}

/// Appends `s` left-justified in a field of `w` bytes.
fn write_field(buf: &mut Vec<u8>, s: &Vec<u8>, w: usize)
    requires
        s@.len() <= w,
    ensures
        final(buf)@ == old(buf)@ + left_justified(s@, w as nat),
{
    push_all(buf, s);
    push_repeat(buf, 0x20, w - s.len());
    if s.len() == w {
        assert(repeat(0x20, 0) =~= Seq::<u8>::empty());
    }
    assert(final(buf)@ =~= old(buf)@ + left_justified(s@, w as nat));
}

/// Appends the member header for a payload of `len` bytes.
pub fn write_header(buf: &mut Vec<u8>, name: &Vec<u8>, len: u32)
    ensures
        final(buf)@ == old(buf)@ + archive_header(name@, len),
{
    proof {
        lemma_decimal_len(len as nat);
    }
    let k: usize = if name.len() > 15 {
        15
    } else {
        name.len()
    };
    let mut field = take_bytes(name, k);
    field.push(0x2f);
    assert(field@ =~= header_name(name@));
    write_field(buf, &field, 16);
    let ghost b1 = buf@;
    buf.push(0x2d);
    buf.push(0x31);
    push_repeat(buf, 0x20, 10);
    push_repeat(buf, 0x20, 12);
    buf.push(0x30);
    push_repeat(buf, 0x20, 7);
    let ghost b2 = buf@;
    let mut digits: Vec<u8> = Vec::new();
    push_decimal(&mut digits, len);
    assert(digits@ =~= decimal(len as nat));
    write_field(buf, &digits, 10);
    buf.push(0x60);
    buf.push(0x0a);
    assert(b2 =~= b1 + seq![0x2du8, 0x31] + repeat(0x20, 10) + repeat(0x20, 12) + seq![0x30u8]
        + repeat(0x20, 7));
    assert(final(buf)@ =~= old(buf)@ + archive_header(name@, len));
}

/// Each name of `s` followed by a zero byte, in order.
pub open spec fn names_block(s: Seq<(Seq<u8>, usize)>) -> Seq<u8>
    decreases s.len(),
{
    if s.len() == 0 {
        Seq::empty()
    } else {
        names_block(s.drop_last()) + s.last().0.push(0)
    }
}

/// The length of a member header and a payload of `n` bytes, padded to even length.
pub open spec fn unit_len(n: nat) -> nat {
    60 + n + n % 2
}

pub open spec fn first_linker_len(s: Seq<(Seq<u8>, usize)>) -> nat {
    4 + 4 * s.len() + names_block(s).len()
}

pub open spec fn second_linker_len(t: Seq<(Seq<u8>, usize)>, members: nat) -> nat {
    8 + 4 * members + 2 * t.len() + names_block(t).len()
}

/// Where regular member `i` (from 0) starts, when the first starts at `base`.
pub open spec fn member_start(ms: Seq<Seq<u8>>, i: nat, base: nat) -> nat
    decreases i,
{
    if i == 0 {
        base
    } else {
        member_start(ms, (i - 1) as nat, base) + unit_len(ms[i - 1].len())
    }
}

/// Where the first regular member starts: after the signature and both linker members.
pub open spec fn members_base(ms: Seq<Seq<u8>>, s: Seq<(Seq<u8>, usize)>) -> nat {
    8 + unit_len(first_linker_len(s)) + unit_len(
        second_linker_len(sorted_by_member(s, ms.len()), ms.len()),
    )
}

/// For each symbol, the start of its member, most significant byte first.
pub open spec fn symbol_offsets(s: Seq<(Seq<u8>, usize)>, ms: Seq<Seq<u8>>, base: nat) -> Seq<u8> {
    Seq::new(
        4 * s.len(),
        |i: int| be32(member_start(ms, (s[i / 4].1 - 1) as nat, base) as u32)[i % 4],
    )
}

/// For each member, its start, least significant byte first.
pub open spec fn member_offsets(ms: Seq<Seq<u8>>, base: nat) -> Seq<u8> {
    Seq::new(4 * ms.len(), |i: int| le32(member_start(ms, (i / 4) as nat, base) as u32)[i % 4])
}

/// For each symbol, the number of its member (from 1), least significant byte first.
pub open spec fn member_numbers(t: Seq<(Seq<u8>, usize)>) -> Seq<u8> {
    Seq::new(2 * t.len(), |i: int| le16(t[i / 2].1 as u16)[i % 2])
}

/// The first linker member's payload: the symbol count, each symbol's member start,
/// both big-endian and in index order, then the names.
pub open spec fn first_linker(s: Seq<(Seq<u8>, usize)>, ms: Seq<Seq<u8>>, base: nat) -> Seq<u8> {
    be32(s.len() as u32) + symbol_offsets(s, ms, base) + names_block(s)
}

/// The second linker member's payload: the member count and starts, the symbol count,
/// each symbol's member number and the names, symbols sorted by member.
pub open spec fn second_linker(t: Seq<(Seq<u8>, usize)>, ms: Seq<Seq<u8>>, base: nat) -> Seq<u8> {
    le32(ms.len() as u32) + member_offsets(ms, base) + le32(t.len() as u32) + member_numbers(t)
        + names_block(t)
}

/// A member: its header and payload, padded to even length.
pub open spec fn unit(name: Seq<u8>, payload: Seq<u8>) -> Seq<u8> {
    pad_even(archive_header(name, payload.len() as u32) + payload)
}

pub open spec fn regular_members(name: Seq<u8>, ms: Seq<Seq<u8>>) -> Seq<u8>
    decreases ms.len(),
{
    if ms.len() == 0 {
        Seq::empty()
    } else {
        regular_members(name, ms.drop_last()) + unit(name, ms.last())
    }
}

/// The archive: signature, first and second linker members, then each member under
/// the header `name`.
pub open spec fn archive(name: Seq<u8>, ms: Seq<Seq<u8>>, s: Seq<(Seq<u8>, usize)>) -> Seq<u8> {
    let base = members_base(ms, s);
    archive_signature() + unit(Seq::empty(), first_linker(s, ms, base)) + unit(
        Seq::empty(),
        second_linker(sorted_by_member(s, ms.len()), ms, base),
    ) + regular_members(name, ms)
}

/// Every symbol belongs to one of the members.
pub open spec fn symbols_valid(s: Seq<(Seq<u8>, usize)>, members: nat) -> bool {
    forall|i: int| 0 <= i < s.len() ==> 1 <= #[trigger] s[i].1 <= members
}

/// The archive's member numbers fit in two bytes and its offsets in four.
pub open spec fn layout_fits(ms: Seq<Seq<u8>>, s: Seq<(Seq<u8>, usize)>) -> bool {
    ms.len() <= 0xFFFF && member_start(ms, ms.len(), members_base(ms, s)) <= u32::MAX
}

pub proof fn lemma_member_start_monotone(ms: Seq<Seq<u8>>, i: nat, j: nat, base: nat)
    requires
        i <= j,
    ensures
        base <= member_start(ms, i, base) <= member_start(ms, j, base),
    decreases j,
{
    if i < j {
        lemma_member_start_monotone(ms, i, (j - 1) as nat, base);
    } else if j > 0 {
        lemma_member_start_monotone(ms, 0, (j - 1) as nat, base);
    }
}

/// The length of the names block of `s`, or `None` when it exceeds `u32::MAX`.
fn names_len(s: &Vec<(Vec<u8>, usize)>) -> (r: Option<u64>)
    ensures
        r is Some <==> names_block(s.deep_view()).len() <= u32::MAX,
        r matches Some(n) ==> n == names_block(s.deep_view()).len(),
{
    let ghost sv = s.deep_view();
    let mut total: u64 = 0;
    let mut j: usize = 0;
    assert(sv.take(0) =~= Seq::<(Seq<u8>, usize)>::empty());
    while j < s.len()
        invariant
            j <= s@.len(),
            sv == s.deep_view(),
            total == names_block(sv.take(j as int)).len(),
            total <= u32::MAX,
        decreases s@.len() - j,
    {
        assert(sv.take(j + 1).drop_last() =~= sv.take(j as int));
        assert(s@[j as int].0.deep_view() =~= s@[j as int].0@);
        let l = s[j].0.len() as u64;
        if l >= 0x1_0000_0000 || total + l + 1 > 0xFFFF_FFFF {
            proof {
                lemma_names_block_prefix(sv, j + 1);
            }
            return None;
        }
        total = total + l + 1;
        j = j + 1;
    }
    assert(sv.take(s@.len() as int) =~= sv);
    Some(total)
}

pub proof fn lemma_names_block_prefix(s: Seq<(Seq<u8>, usize)>, j: int)
    requires
        0 <= j <= s.len(),
    ensures
        names_block(s.take(j)).len() <= names_block(s).len(),
    decreases s.len() - j,
{
    if j < s.len() {
        lemma_names_block_prefix(s, j + 1);
        assert(s.take(j + 1).drop_last() =~= s.take(j));
    } else {
        assert(s.take(j) =~= s);
    }
}

/// Appends a member: header, payload, and a zero byte when needed for even length.
fn push_unit(buf: &mut Vec<u8>, name: &Vec<u8>, payload: &Vec<u8>)
    requires
        payload@.len() <= u32::MAX,
    ensures
        final(buf)@ == old(buf)@ + unit(name@, payload@),
{
    let mut u: Vec<u8> = Vec::new();
    write_header(&mut u, name, payload.len() as u32);
    push_all(&mut u, payload);
    pad_to_even(&mut u);
    assert(u@ =~= unit(name@, payload@));
    push_all(buf, &u);
}

proof fn lemma_seq_new_grow(f: spec_fn(int) -> u8, w: nat, j: nat, piece: Seq<u8>)
    requires
        piece.len() == w,
        forall|k: int| 0 <= k < w ==> piece[k] == #[trigger] f(w * j + k),
    ensures
        Seq::new(w * j, f) + piece =~= Seq::new(w * (j + 1), f),
{
    assert(w * (j + 1) == w * j + w) by (nonlinear_arith);
    assert forall|i: int| w * j <= i < w * (j + 1) implies piece[i - w * j] == #[trigger] f(i) by {
        assert(piece[i - w * j] == f(w * j + (i - w * j)));
    }
}

/// Appends each name of `s` and a zero byte after it.
fn push_names(buf: &mut Vec<u8>, s: &Vec<(Vec<u8>, usize)>)
    ensures
        final(buf)@ == old(buf)@ + names_block(s.deep_view()),
{
    let ghost sv = s.deep_view();
    let mut j: usize = 0;
    assert(sv.take(0) =~= Seq::<(Seq<u8>, usize)>::empty());
    assert(buf@ =~= old(buf)@ + names_block(sv.take(0)));
    while j < s.len()
        invariant
            j <= s@.len(),
            sv == s.deep_view(),
            buf@ == old(buf)@ + names_block(sv.take(j as int)),
        decreases s@.len() - j,
    {
        assert(sv.take(j + 1).drop_last() =~= sv.take(j as int));
        assert(s@[j as int].0.deep_view() =~= s@[j as int].0@);
        push_all(buf, &s[j].0);
        buf.push(0);
        j = j + 1;
        assert(buf@ =~= old(buf)@ + names_block(sv.take(j as int)));
    }
    assert(sv.take(s@.len() as int) =~= sv);
}

/// The start of every member, or `None` when the archive would be longer than
/// `u32::MAX` bytes.
fn member_starts(ms: &Vec<Vec<u8>>, base: u64) -> (r: Option<Vec<u64>>)
    requires
        base <= u32::MAX,
    ensures
        r is Some <==> member_start(ms.deep_view(), ms@.len() as nat, base as nat) <= u32::MAX,
        r matches Some(v) ==> v@.len() == ms@.len() && forall|i: int|
            0 <= i < ms@.len() ==> #[trigger] v@[i] == member_start(
                ms.deep_view(),
                i as nat,
                base as nat,
            ),
{
    let ghost msv = ms.deep_view();
    let mut v: Vec<u64> = Vec::new();
    let mut cur: u64 = base;
    let mut i: usize = 0;
    while i < ms.len()
        invariant
            i <= ms@.len(),
            msv == ms.deep_view(),
            cur == member_start(msv, i as nat, base as nat),
            cur <= u32::MAX,
            v@.len() == i,
            forall|k: int| 0 <= k < i ==> #[trigger] v@[k] == member_start(msv, k as nat, base as nat),
        decreases ms@.len() - i,
    {
        assert(ms@[i as int].deep_view() =~= ms@[i as int]@);
        let l = ms[i].len() as u64;
        if l > 0xFFFF_FFFF || cur + 60 + l + l % 2 > 0xFFFF_FFFF {
            proof {
                lemma_member_start_monotone(msv, (i + 1) as nat, ms@.len() as nat, base as nat);
            }
            return None;
        }
        v.push(cur);
        cur = cur + 60 + l + l % 2;
        i = i + 1;
    }
    Some(v)
}

/// Lays out the archive of members `ms` and symbol index `s`, or `None` when a
/// member number would not fit in two bytes or an offset in four.
pub fn write_archive(name: &Vec<u8>, ms: &Vec<Vec<u8>>, s: &Vec<(Vec<u8>, usize)>) -> (r: Option<Vec<u8>>)
    requires
        symbols_valid(s.deep_view(), ms@.len() as nat),
    ensures
        r is Some <==> layout_fits(ms.deep_view(), s.deep_view()),
        r matches Some(v) ==> v@ == archive(name@, ms.deep_view(), s.deep_view()),
{
    let ghost msv = ms.deep_view();
    let ghost sv = s.deep_view();
    let m = ms.len();
    if m > 0xFFFF {
        return None;
    }
    let t = sort_by_member(s, m);
    let ghost tv = t.deep_view();
    let ghost gbase = members_base(msv, sv);
    proof {
        lemma_member_start_monotone(msv, 0, m as nat, gbase);
    }
    if s.len() as u64 > 0xFFFF_FFFF || t.len() as u64 > 0xFFFF_FFFF {
        return None;
    }
    let n1 = match names_len(s) {
        Some(n) => n,
        None => {
            return None;
        },
    };
    let n2 = match names_len(&t) {
        Some(n) => n,
        None => {
            return None;
        },
    };
    let first_len: u64 = 4 + 4 * (s.len() as u64) + n1;
    let second_len: u64 = 8 + 4 * (m as u64) + 2 * (t.len() as u64) + n2;
    let base: u64 = 8 + (60 + first_len + first_len % 2) + (60 + second_len + second_len % 2);
    assert(base == gbase);
    if base > 0xFFFF_FFFF {
        return None;
    }
    let offs = match member_starts(ms, base) {
        Some(v) => v,
        None => {
            return None;
        },
    };

    assert forall|k: int| 0 <= k < m implies #[trigger] offs@[k] <= u32::MAX by {
        lemma_member_start_monotone(msv, k as nat, m as nat, base as nat);
    }
    let mut first: Vec<u8> = Vec::new();
    push_u32_be(&mut first, s.len() as u32);
    let ghost f = |i: int| be32(member_start(msv, (sv[i / 4].1 - 1) as nat, base as nat) as u32)[i % 4];
    let mut j: usize = 0;
    assert(first@ =~= be32(s.len() as u32) + Seq::new(0, f));
    while j < s.len()
        invariant
            j <= s@.len(),
            sv == s.deep_view(),
            symbols_valid(sv, m as nat),
            offs@.len() == m,
            forall|k: int| 0 <= k < m ==> #[trigger] offs@[k] == member_start(msv, k as nat, base as nat),
            forall|k: int| 0 <= k < m ==> #[trigger] offs@[k] <= u32::MAX,
            first@ == be32(s@.len() as u32) + Seq::new(4 * j as nat, f),
            forall|x: int| #[trigger] f(x) == be32(member_start(msv, (sv[x / 4].1 - 1) as nat, base as nat) as u32)[x % 4],
        decreases s@.len() - j,
    {
        assert(sv[j as int].1 == s@[j as int].1);
        let k = s[j].1 - 1;
        let ghost before = first@;
        push_u32_be(&mut first, offs[k] as u32);
        proof {
            let piece = be32(offs@[k as int] as u32);
            assert forall|q: int| 0 <= q < 4 implies piece[q] == #[trigger] f(4 * j + q) by {
                let x = 4 * j + q;
                assert(x / 4 == j as int);
                assert(x % 4 == q);
                assert(f(x) == be32(member_start(msv, (sv[j as int].1 - 1) as nat, base as nat) as u32)[q]);
            }
            lemma_seq_new_grow(f, 4, j as nat, piece);
        }
        j = j + 1;
        assert(first@ =~= be32(s@.len() as u32) + Seq::new(4 * j as nat, f));
    }
    push_names(&mut first, s);
    assert(first@ =~= first_linker(sv, msv, base as nat));

    let mut second: Vec<u8> = Vec::new();
    push_u32_le(&mut second, m as u32);
    let ghost g = |i: int| le32(member_start(msv, (i / 4) as nat, base as nat) as u32)[i % 4];
    let mut i: usize = 0;
    assert(second@ =~= le32(m as u32) + Seq::new(0, g));
    while i < m
        invariant
            i <= m,
            m == ms@.len(),
            offs@.len() == m,
            forall|k: int| 0 <= k < m ==> #[trigger] offs@[k] == member_start(msv, k as nat, base as nat),
            second@ == le32(m as u32) + Seq::new(4 * i as nat, g),
            forall|x: int| #[trigger] g(x) == le32(member_start(msv, (x / 4) as nat, base as nat) as u32)[x % 4],
        decreases m - i,
    {
        push_u32_le(&mut second, offs[i] as u32);
        proof {
            let piece = le32(offs@[i as int] as u32);
            assert forall|q: int| 0 <= q < 4 implies piece[q] == #[trigger] g(4 * i + q) by {
                assert((4 * i + q) / 4 == i as int);
                assert((4 * i + q) % 4 == q);
            }
            lemma_seq_new_grow(g, 4, i as nat, piece);
        }
        i = i + 1;
        assert(second@ =~= le32(m as u32) + Seq::new(4 * i as nat, g));
    }
    push_u32_le(&mut second, t.len() as u32);
    let ghost prefix = second@;
    let ghost h = |i: int| le16(tv[i / 2].1 as u16)[i % 2];
    let mut j: usize = 0;
    assert(second@ =~= prefix + Seq::new(0, h));
    while j < t.len()
        invariant
            j <= t@.len(),
            tv == t.deep_view(),
            second@ == prefix + Seq::new(2 * j as nat, h),
            forall|x: int| #[trigger] h(x) == le16(tv[x / 2].1 as u16)[x % 2],
        decreases t@.len() - j,
    {
        assert(tv[j as int].1 == t@[j as int].1);
        push_u16_le(&mut second, t[j].1 as u16);
        proof {
            let piece = le16(t@[j as int].1 as u16);
            assert forall|q: int| 0 <= q < 2 implies piece[q] == #[trigger] h(2 * j + q) by {
                assert((2 * j + q) / 2 == j as int);
                assert((2 * j + q) % 2 == q);
            }
            lemma_seq_new_grow(h, 2, j as nat, piece);
        }
        j = j + 1;
        assert(second@ =~= prefix + Seq::new(2 * j as nat, h));
    }
    push_names(&mut second, &t);
    assert(second@ =~= second_linker(tv, msv, base as nat));

    let mut buf = archive_signature_bytes();
    let empty: Vec<u8> = Vec::new();
    push_unit(&mut buf, &empty, &first);
    push_unit(&mut buf, &empty, &second);
    let ghost head = buf@;
    let mut i: usize = 0;
    assert(msv.take(0) =~= Seq::<Seq<u8>>::empty());
    assert(buf@ =~= head + regular_members(name@, msv.take(0)));
    while i < m
        invariant
            i <= m,
            m == ms@.len(),
            msv == ms.deep_view(),
            member_start(msv, m as nat, base as nat) <= u32::MAX,
            buf@ == head + regular_members(name@, msv.take(i as int)),
        decreases m - i,
    {
        assert(msv.take(i + 1).drop_last() =~= msv.take(i as int));
        assert(ms@[i as int].deep_view() =~= ms@[i as int]@);
        proof {
            lemma_member_start_monotone(msv, (i + 1) as nat, m as nat, base as nat);
        }
        push_unit(&mut buf, name, &ms[i]);
        i = i + 1;
    }
    assert(msv.take(m as int) =~= msv);
    Some(buf)
}

} // verus!
