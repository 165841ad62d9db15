//! COFF objects and short import records: the regular members of an import library.
use vstd::prelude::*;
use crate::bytes::{
    le16, le32, le64, pad_even, pad_to_even, push_all, push_repeat, push_u16_le, push_u32_le,
    push_u64_le, repeat,
};

verus! {

/// Storage class of a symbol visible to other objects.
pub const CLASS_EXTERNAL: u8 = 2;

/// Storage class of a symbol local to its object.
pub const CLASS_STATIC: u8 = 3;

/// Storage class of a symbol that names a section.
pub const CLASS_SECTION: u8 = 0x68;

/// Relocation kind: a 32-bit address without the image base.
pub const REL_ADDR32NB: u16 = 3;

/// The symbol of the null import descriptor, `__NULL_IMPORT_DESCRIPTOR`.
pub open spec fn null_import_descriptor_name() -> Seq<u8> {
    seq![0x5f, 0x5f, 0x4e, 0x55, 0x4c, 0x4c, 0x5f, 0x49, 0x4d, 0x50, 0x4f, 0x52, 0x54, 0x5f, 0x44, 0x45, 0x53, 0x43, 0x52, 0x49, 0x50, 0x54, 0x4f, 0x52]
}

pub fn null_import_descriptor_name_bytes() -> (r: Vec<u8>)
    ensures
        r@ == null_import_descriptor_name(),
{
    let r: Vec<u8> = vec![0x5f, 0x5f, 0x4e, 0x55, 0x4c, 0x4c, 0x5f, 0x49, 0x4d, 0x50, 0x4f, 0x52, 0x54, 0x5f, 0x44, 0x45, 0x53, 0x43, 0x52, 0x49, 0x50, 0x54, 0x4f, 0x52];
    assert(r@ =~= null_import_descriptor_name());
    r
}

/// `__IMPORT_DESCRIPTOR_`, the start of an import descriptor's symbol.
pub open spec fn descriptor_prefix() -> Seq<u8> {
    seq![0x5f, 0x5f, 0x49, 0x4d, 0x50, 0x4f, 0x52, 0x54, 0x5f, 0x44, 0x45, 0x53, 0x43, 0x52, 0x49, 0x50, 0x54, 0x4f, 0x52, 0x5f]
}

pub fn descriptor_prefix_bytes() -> (r: Vec<u8>)
    ensures
        r@ == descriptor_prefix(),
{
    let r: Vec<u8> = vec![0x5f, 0x5f, 0x49, 0x4d, 0x50, 0x4f, 0x52, 0x54, 0x5f, 0x44, 0x45, 0x53, 0x43, 0x52, 0x49, 0x50, 0x54, 0x4f, 0x52, 0x5f];
    assert(r@ =~= descriptor_prefix());
    r
}

/// `_NULL_THUNK_DATA`, the end of a null thunk's symbol.
pub open spec fn thunk_suffix() -> Seq<u8> {
    seq![0x5f, 0x4e, 0x55, 0x4c, 0x4c, 0x5f, 0x54, 0x48, 0x55, 0x4e, 0x4b, 0x5f, 0x44, 0x41, 0x54, 0x41]
}

pub fn thunk_suffix_bytes() -> (r: Vec<u8>)
    ensures
        r@ == thunk_suffix(),
{
    let r: Vec<u8> = vec![0x5f, 0x4e, 0x55, 0x4c, 0x4c, 0x5f, 0x54, 0x48, 0x55, 0x4e, 0x4b, 0x5f, 0x44, 0x41, 0x54, 0x41];
    assert(r@ =~= thunk_suffix());
    r
}

/// `__imp_`, the start of the pointer symbol of an import.
pub open spec fn imp_prefix() -> Seq<u8> {
    seq![0x5f, 0x5f, 0x69, 0x6d, 0x70, 0x5f]
}

pub fn imp_prefix_bytes() -> (r: Vec<u8>)
    ensures
        r@ == imp_prefix(),
{
    let r: Vec<u8> = vec![0x5f, 0x5f, 0x69, 0x6d, 0x70, 0x5f];
    assert(r@ =~= imp_prefix());
    r
}

/// `.dll`, the suffix cut from a module name to give its stem.
pub open spec fn dll_suffix() -> Seq<u8> {
    seq![0x2e, 0x64, 0x6c, 0x6c]
}

pub fn dll_suffix_bytes() -> (r: Vec<u8>)
    ensures
        r@ == dll_suffix(),
{
    let r: Vec<u8> = vec![0x2e, 0x64, 0x6c, 0x6c];
    assert(r@ =~= dll_suffix());
    r
}

/// `.idata$` followed by the digit byte `d`: the name of an import data section.
pub open spec fn idata(d: u8) -> Seq<u8> {
    seq![0x2e, 0x69, 0x64, 0x61, 0x74, 0x61, 0x24, d]
}

pub fn idata_bytes(d: u8) -> (r: Vec<u8>)
    ensures
        r@ == idata(d),
{
    let r: Vec<u8> = vec![0x2e, 0x69, 0x64, 0x61, 0x74, 0x61, 0x24, d];
    assert(r@ =~= idata(d));
    r
}

/// Whether `m` ends in `.dll`.
pub open spec fn has_dll_suffix(m: Seq<u8>) -> bool {
    m.len() >= 4 && m.subrange(m.len() - 4, m.len() as int) == dll_suffix()
}

/// The module name without a trailing `.dll`.
pub open spec fn module_stem(m: Seq<u8>) -> Seq<u8> {
    if has_dll_suffix(m) {
        m.take(m.len() - 4)
    } else {
        m
    }
}

/// The symbol exported by the import descriptor member.
pub open spec fn descriptor_symbol(m: Seq<u8>) -> Seq<u8> {
    descriptor_prefix() + module_stem(m)
}

/// The symbol exported by the null thunk data member: 0x7F, the stem, `_NULL_THUNK_DATA`.
pub open spec fn thunk_symbol(m: Seq<u8>) -> Seq<u8> {
    seq![0x7fu8] + module_stem(m) + thunk_suffix()
}

/// The first `k` bytes of `m`.
pub fn take_bytes(m: &Vec<u8>, k: usize) -> (r: Vec<u8>)
    requires
        k <= m@.len(),
    ensures
        r@ == m@.take(k as int),
{
    let mut r: Vec<u8> = Vec::new();
    let mut i: usize = 0;
    while i < k
        invariant
            i <= k <= m@.len(),
            r@ == m@.take(i as int),
        decreases k - i,
    {
        r.push(m[i]);
        i = i + 1;
        assert(r@ =~= m@.take(i as int));
    }
    r
}

pub fn stem(m: &Vec<u8>) -> (r: Vec<u8>)
    ensures
        r@ == module_stem(m@),
{
    let n = m.len();
    let ends = n >= 4 && m[n - 4] == 0x2e && m[n - 3] == 0x64 && m[n - 2] == 0x6c && m[n - 1]
        == 0x6c;
    if ends {
        assert(m@.subrange(n - 4, n as int) =~= dll_suffix());
        take_bytes(m, n - 4)
    } else {
        if n >= 4 {
            let ghost s = m@.subrange(n - 4, n as int);
            assert(s != dll_suffix()) by {
                if s == dll_suffix() {
                    assert(s[0] == m@[n - 4] && s[1] == m@[n - 3]);
                    assert(s[2] == m@[n - 2] && s[3] == m@[n - 1]);
                }
            }
        }
        take_bytes(m, n)
    }
}

/// One 18-byte symbol table record: an 8-byte name field, a zero value, the section
/// number, a zero type, the storage class and no auxiliary records.
pub open spec fn symbol_record(name: Seq<u8>, section: u16, class: u8) -> Seq<u8> {
    name + le32(0) + le16(section) + le16(0) + seq![class, 0u8]
}

/// The name field of a symbol whose name stands at `offset` in the string table.
pub open spec fn offset_name(offset: u32) -> Seq<u8> {
    le32(0) + le32(offset)
}

/// The name of a symbol: eight literal bytes, or a position in the string table.
pub enum SymbolName {
    Name(Vec<u8>),
    Offset(u32),
}

pub open spec fn name_field(n: SymbolName) -> Seq<u8> {
    match n {
        SymbolName::Name(v) => v@,
        SymbolName::Offset(o) => offset_name(o),
    }
}

/// Appends one symbol record; a literal name must be exactly eight bytes.
pub fn write_symbol(buf: &mut Vec<u8>, name: SymbolName, section: u16, sym_ty: u8)
    requires
        name matches SymbolName::Name(v) ==> v@.len() == 8,
    ensures
        final(buf)@ == old(buf)@ + symbol_record(name_field(name), section, sym_ty),
{
    let ghost field = name_field(name);
    match name {
        SymbolName::Name(v) => {
            push_all(buf, &v);
        },
        SymbolName::Offset(o) => {
            push_u32_le(buf, 0);
            push_u32_le(buf, o);
        },
    }
    push_u32_le(buf, 0);
    push_u16_le(buf, section);
    push_u16_le(buf, 0);
    buf.push(sym_ty);
    buf.push(0);
    assert(final(buf)@ =~= old(buf)@ + symbol_record(field, section, sym_ty));
}

/// The 20-byte COFF file header; the time stamp, optional header size and
/// characteristics are zero.
pub open spec fn coff_header(machine: u16, sections: u16, symtab: u32, symbols: u32) -> Seq<u8> {
    le16(machine) + le16(sections) + le32(0) + le32(symtab) + le32(symbols) + le16(0) + le16(0)
}

pub fn write_coff_header(buf: &mut Vec<u8>, machine: u16, sections: u16, symtab: u32, symbols: u32)
    ensures
        final(buf)@ == old(buf)@ + coff_header(machine, sections, symtab, symbols),
{
    push_u16_le(buf, machine);
    push_u16_le(buf, sections);
    push_u32_le(buf, 0);
    push_u32_le(buf, symtab);
    push_u32_le(buf, symbols);
    push_u16_le(buf, 0);
    push_u16_le(buf, 0);
    assert(final(buf)@ =~= old(buf)@ + coff_header(machine, sections, symtab, symbols));
}

/// One 40-byte section header: name, zero virtual size and address, raw size, file
/// offsets of the data and of the relocations, no line numbers, the relocation count
/// and the characteristics.
pub open spec fn section_header(
    name: Seq<u8>,
    size: u32,
    data: u32,
    relocs: u32,
    nrelocs: u16,
    flags: u32,
) -> Seq<u8> {
    name + le32(0) + le32(0) + le32(size) + le32(data) + le32(relocs) + le32(0) + le16(nrelocs)
        + le16(0) + le32(flags)
}

pub fn write_section_header(
    buf: &mut Vec<u8>,
    digit: u8,
    size: u32,
    data: u32,
    relocs: u32,
    nrelocs: u16,
    flags: u32,
)
    ensures
        final(buf)@ == old(buf)@ + section_header(idata(digit), size, data, relocs, nrelocs, flags),
{
    push_all(buf, &idata_bytes(digit));
    push_u32_le(buf, 0);
    push_u32_le(buf, 0);
    push_u32_le(buf, size);
    push_u32_le(buf, data);
    push_u32_le(buf, relocs);
    push_u32_le(buf, 0);
    push_u16_le(buf, nrelocs);
    push_u16_le(buf, 0);
    push_u32_le(buf, flags);
    assert(final(buf)@ =~= old(buf)@ + section_header(
        idata(digit),
        size,
        data,
        relocs,
        nrelocs,
        flags,
    ));
}

/// One 10-byte relocation of the address-without-base kind.
pub open spec fn relocation(va: u32, symbol: u32) -> Seq<u8> {
    le32(va) + le32(symbol) + le16(3)
}

pub fn write_relocation(buf: &mut Vec<u8>, va: u32, symbol: u32)
    ensures
        final(buf)@ == old(buf)@ + relocation(va, symbol),
{
    push_u32_le(buf, va);
    push_u32_le(buf, symbol);
    push_u16_le(buf, REL_ADDR32NB);
    assert(final(buf)@ =~= old(buf)@ + relocation(va, symbol));
}

/// A string table: its size, which counts the size field itself, then the strings.
pub open spec fn string_table(strings: Seq<u8>) -> Seq<u8> {
    le32((strings.len() + 4) as u32) + strings
}

pub fn write_string_table(buf: &mut Vec<u8>, strings: &Vec<u8>)
    requires
        strings@.len() + 4 <= u32::MAX,
    ensures
        final(buf)@ == old(buf)@ + string_table(strings@),
{
    push_u32_le(buf, (strings.len() + 4) as u32);
    push_all(buf, strings);
    assert(final(buf)@ =~= old(buf)@ + string_table(strings@));
}

/// The string table of the import descriptor member: its own symbol, the null import
/// descriptor's and the null thunk's, each ending in a zero byte.
pub open spec fn descriptor_strings(m: Seq<u8>) -> Seq<u8> {
    descriptor_symbol(m).push(0) + null_import_descriptor_name().push(0) + thunk_symbol(m).push(0)
}

/// The fields of the import descriptor member of module `m` fit: the symbol table
/// offset and the string table size (the widest of its offsets and sizes) in four bytes.
pub open spec fn descriptor_fits(m: Seq<u8>) -> bool {
    m.len() + 151 <= u32::MAX && 2 * module_stem(m).len() + 68 <= u32::MAX
}

/// The import descriptor member of module `m`: sections `.idata$2` (a zeroed import
/// directory entry with three relocations, against the module name, the lookup table
/// and the address table) and `.idata$6` (the module name), seven symbols and the
/// string table, padded to even length.
#[verifier::opaque]
pub open spec fn import_descriptor_member(m: Seq<u8>, machine: u16) -> Seq<u8> {
    let l = m.len();
    let d = descriptor_symbol(m);
    pad_even(
        coff_header(machine, 2, (151 + l) as u32, 7)
        + section_header(idata(0x32), 20, 100, 120, 3, 0xC030_0040)
        + section_header(idata(0x36), (l + 1) as u32, 150, 0, 0, 0xC020_0040)
        + repeat(0, 20)
        + relocation(0x0C, 2)
        + relocation(0, 3)
        + relocation(0x10, 4)
        + m.push(0)
        + symbol_record(offset_name(4), 1, CLASS_EXTERNAL)
        + symbol_record(idata(0x32), 1, CLASS_SECTION)
        + symbol_record(idata(0x36), 2, CLASS_STATIC)
        + symbol_record(idata(0x34), 0, CLASS_SECTION)
        + symbol_record(idata(0x35), 0, CLASS_SECTION)
        + symbol_record(offset_name((4 + d.len() + 1) as u32), 0, CLASS_EXTERNAL)
        + symbol_record(offset_name((4 + d.len() + 26) as u32), 0, CLASS_EXTERNAL)
        + string_table(descriptor_strings(m)),
    )
}

/// The null import descriptor member: one zeroed `.idata$3` section and its symbol.
#[verifier::opaque]
pub open spec fn null_import_descriptor_member(machine: u16) -> Seq<u8> {
    pad_even(
        coff_header(machine, 1, 80, 1)
        + section_header(idata(0x33), 20, 60, 0, 0, 0xC030_0040)
        + repeat(0, 20)
        + symbol_record(offset_name(4), 1, CLASS_EXTERNAL)
        + string_table(null_import_descriptor_name().push(0)),
    )
}

/// The null thunk data member of module `m`: zeroed eight-byte `.idata$5` and
/// `.idata$4` sections and the thunk symbol.
#[verifier::opaque]
pub open spec fn null_thunk_data_member(m: Seq<u8>, machine: u16) -> Seq<u8> {
    pad_even(
        coff_header(machine, 2, 116, 1)
        + section_header(idata(0x35), 8, 100, 0, 0, 0xC040_0040)
        + section_header(idata(0x34), 8, 108, 0, 0, 0xC040_0040)
        + le64(0)
        + le64(0)
        + symbol_record(offset_name(4), 1, CLASS_EXTERNAL)
        + string_table(thunk_symbol(m).push(0)),
    )
}

/// Appends the bytes of `a`, then those of `b`.
fn push_both(buf: &mut Vec<u8>, a: &Vec<u8>, b: &Vec<u8>)
    ensures
        final(buf)@ == old(buf)@ + a@ + b@,
{
    push_all(buf, a);
    push_all(buf, b);
}

pub fn descriptor_symbol_bytes(m: &Vec<u8>) -> (r: Vec<u8>)
    ensures
        r@ == descriptor_symbol(m@),
{
    let mut r = descriptor_prefix_bytes();
    push_all(&mut r, &stem(m));
    r
}

pub fn thunk_symbol_bytes(m: &Vec<u8>) -> (r: Vec<u8>)
    ensures
        r@ == thunk_symbol(m@),
{
    let mut r: Vec<u8> = Vec::new();
    r.push(0x7f);
    push_both(&mut r, &stem(m), &thunk_suffix_bytes());
    assert(r@ =~= thunk_symbol(m@));
    r
}

/// Encodes the import descriptor member; returns its symbol and its bytes.
pub fn build_import_descriptor(m: &Vec<u8>, machine: u16) -> (r: (Vec<u8>, Vec<u8>))
    requires
        descriptor_fits(m@),
    ensures
        r.0@ == descriptor_symbol(m@),
        r.1@ == import_descriptor_member(m@, machine),
{
    let l = m.len();
    let d = descriptor_symbol_bytes(m);
    let null_name = null_import_descriptor_name_bytes();
    let thunk = thunk_symbol_bytes(m);
    let mut strings: Vec<u8> = Vec::new();
    push_all(&mut strings, &d);
    strings.push(0);
    push_all(&mut strings, &null_name);
    strings.push(0);
    push_all(&mut strings, &thunk);
    strings.push(0);
    assert(strings@ =~= descriptor_strings(m@));

    let mut buf: Vec<u8> = Vec::new();
    write_coff_header(&mut buf, machine, 2, (151 + l) as u32, 7);
    write_section_header(&mut buf, 0x32, 20, 100, 120, 3, 0xC030_0040);
    write_section_header(&mut buf, 0x36, (l + 1) as u32, 150, 0, 0, 0xC020_0040);
    push_repeat(&mut buf, 0, 20);
    write_relocation(&mut buf, 0x0C, 2);
    write_relocation(&mut buf, 0, 3);
    write_relocation(&mut buf, 0x10, 4);
    push_all(&mut buf, m);
    buf.push(0);
    write_symbol(&mut buf, SymbolName::Offset(4), 1, CLASS_EXTERNAL);
    write_symbol(&mut buf, SymbolName::Name(idata_bytes(0x32)), 1, CLASS_SECTION);
    write_symbol(&mut buf, SymbolName::Name(idata_bytes(0x36)), 2, CLASS_STATIC);
    write_symbol(&mut buf, SymbolName::Name(idata_bytes(0x34)), 0, CLASS_SECTION);
    write_symbol(&mut buf, SymbolName::Name(idata_bytes(0x35)), 0, CLASS_SECTION);
    write_symbol(&mut buf, SymbolName::Offset((4 + d.len() + 1) as u32), 0, CLASS_EXTERNAL);
    write_symbol(&mut buf, SymbolName::Offset((4 + d.len() + 26) as u32), 0, CLASS_EXTERNAL);
    write_string_table(&mut buf, &strings);
    pad_to_even(&mut buf);
    reveal(import_descriptor_member);
    assert(buf@ =~= import_descriptor_member(m@, machine));
    (d, buf)
}

/// Encodes the null import descriptor member; returns its symbol and its bytes.
pub fn build_null_import_descriptor(machine: u16) -> (r: (Vec<u8>, Vec<u8>))
    ensures
        r.0@ == null_import_descriptor_name(),
        r.1@ == null_import_descriptor_member(machine),
{
    let name = null_import_descriptor_name_bytes();
    let mut strings = null_import_descriptor_name_bytes();
    strings.push(0);
    let mut buf: Vec<u8> = Vec::new();
    write_coff_header(&mut buf, machine, 1, 80, 1);
    write_section_header(&mut buf, 0x33, 20, 60, 0, 0, 0xC030_0040);
    push_repeat(&mut buf, 0, 20);
    write_symbol(&mut buf, SymbolName::Offset(4), 1, CLASS_EXTERNAL);
    write_string_table(&mut buf, &strings);
    pad_to_even(&mut buf);
    reveal(null_import_descriptor_member);
    assert(buf@ =~= null_import_descriptor_member(machine));
    (name, buf)
}

/// Encodes the null thunk data member; returns its symbol and its bytes.
pub fn build_null_thunk_data(m: &Vec<u8>, machine: u16) -> (r: (Vec<u8>, Vec<u8>))
    requires
        module_stem(m@).len() + 22 <= u32::MAX,
    ensures
        r.0@ == thunk_symbol(m@),
        r.1@ == null_thunk_data_member(m@, machine),
{
    let name = thunk_symbol_bytes(m);
    let mut strings = thunk_symbol_bytes(m);
    strings.push(0);
    let mut buf: Vec<u8> = Vec::new();
    write_coff_header(&mut buf, machine, 2, 116, 1);
    write_section_header(&mut buf, 0x35, 8, 100, 0, 0, 0xC040_0040);
    write_section_header(&mut buf, 0x34, 8, 108, 0, 0, 0xC040_0040);
    push_u64_le(&mut buf, 0);
    push_u64_le(&mut buf, 0);
    write_symbol(&mut buf, SymbolName::Offset(4), 1, CLASS_EXTERNAL);
    write_string_table(&mut buf, &strings);
    pad_to_even(&mut buf);
    reveal(null_thunk_data_member);
    assert(buf@ =~= null_thunk_data_member(m@, machine));
    (name, buf)
}

/// A short import record: the unknown-machine and 0xFFFF markers, version 0, the
/// machine, a zero time stamp, the size of the two strings, the ordinal, the type
/// (code, with the name type shifted left by two), then the imported name and the
/// module name, each ending in a zero byte.
#[verifier::opaque]
pub open spec fn short_import_record(
    m: Seq<u8>,
    machine: u16,
    name: Seq<u8>,
    ordinal: u16,
    name_type: u16,
) -> Seq<u8> {
    le16(0) + le16(0xFFFF) + le16(0) + le16(machine) + le32(0) + le32(
        (m.len() + name.len() + 2) as u32,
    ) + le16(ordinal) + le16((name_type * 4) as u16) + name.push(0) + m.push(0)
}

/// Encodes a short import record. An empty `name` with name type 0 selects by ordinal;
/// name type 1 selects by name.
pub fn encode_short_import(
    m: &Vec<u8>,
    machine: u16,
    name: &Vec<u8>,
    ordinal: u16,
    name_type: u16,
) -> (r: Vec<u8>)
    requires
        m@.len() + name@.len() + 2 <= u32::MAX,
        name_type <= 1,
    ensures
        r@ == short_import_record(m@, machine, name@, ordinal, name_type),
{
    let mut buf: Vec<u8> = Vec::new();
    push_u16_le(&mut buf, 0);
    push_u16_le(&mut buf, 0xFFFF);
    push_u16_le(&mut buf, 0);
    push_u16_le(&mut buf, machine);
    push_u32_le(&mut buf, 0);
    push_u32_le(&mut buf, (m.len() + name.len() + 2) as u32);
    push_u16_le(&mut buf, ordinal);
    push_u16_le(&mut buf, name_type * 4);
    push_all(&mut buf, name);
    buf.push(0);
    push_all(&mut buf, m);
    buf.push(0);
    reveal(short_import_record);
    assert(buf@ =~= short_import_record(m@, machine, name@, ordinal, name_type));
    buf
}

} // verus!
