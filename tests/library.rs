use gen_dylib::archive::write_header;
use gen_dylib::coff::build_null_import_descriptor;
use gen_dylib::{arch, Import, ImportLibBuilder, ImportLibError, Machine};

/// A member of a parsed archive: where its header starts, its name field and payload.
struct Member {
    start: usize,
    name: String,
    payload: Vec<u8>,
}

fn parse(lib: &[u8]) -> Vec<Member> {
    assert_eq!(&lib[0..8], b"!<arch>\n");
    let mut pos = 8;
    let mut out = Vec::new();
    while pos < lib.len() {
        let header = &lib[pos..pos + 60];
        assert_eq!(&header[58..60], b"`\n");
        let name = String::from_utf8(header[0..16].to_vec()).unwrap().trim_end().to_string();
        let size: usize = String::from_utf8(header[48..58].to_vec()).unwrap().trim_end().parse().unwrap();
        let payload = lib[pos + 60..pos + 60 + size].to_vec();
        out.push(Member { start: pos, name, payload });
        pos += 60 + size;
        if size % 2 == 1 {
            assert_eq!(lib[pos], 0);
            pos += 1;
        }
    }
    assert_eq!(pos, lib.len());
    out
}

fn be32(b: &[u8], at: usize) -> u32 {
    u32::from_be_bytes([b[at], b[at + 1], b[at + 2], b[at + 3]])
}

fn le32(b: &[u8], at: usize) -> u32 {
    u32::from_le_bytes([b[at], b[at + 1], b[at + 2], b[at + 3]])
}

fn le16(b: &[u8], at: usize) -> u16 {
    u16::from_le_bytes([b[at], b[at + 1]])
}

fn names(b: &[u8], count: usize) -> Vec<String> {
    let mut out = Vec::new();
    let mut rest = b;
    for _ in 0..count {
        let end = rest.iter().position(|&c| c == 0).unwrap();
        out.push(String::from_utf8(rest[..end].to_vec()).unwrap());
        rest = &rest[end + 1..];
    }
    out
}

fn sample() -> Vec<u8> {
    ImportLibBuilder::new("mydll.a.dll")
        .import_ordinal("mult", 3)
        .import_name("add", "add")
        .import_name("sub", "sub")
        .build()
        .unwrap()
}

fn first_linker_symbols(m: &Member) -> (Vec<u32>, Vec<String>) {
    let n = be32(&m.payload, 0) as usize;
    let offsets = (0..n).map(|i| be32(&m.payload, 4 + 4 * i)).collect();
    (offsets, names(&m.payload[4 + 4 * n..], n))
}

#[test]
fn scenario_mydll() {
    let lib = sample();
    assert_eq!(&lib[0..8], b"!<arch>\n");
    let members = parse(&lib);
    assert_eq!(members.len(), 2 + 6);
    let (_, first) = first_linker_symbols(&members[0]);
    let expected = vec![
        "__IMPORT_DESCRIPTOR_mydll.a",
        "__NULL_IMPORT_DESCRIPTOR",
        "\u{7f}mydll.a_NULL_THUNK_DATA",
        "__imp_mult",
        "mult",
        "__imp_add",
        "add",
        "__imp_sub",
        "sub",
    ];
    assert_eq!(first, expected);
    let second = &members[1].payload;
    let m = le32(second, 0) as usize;
    assert_eq!(m, 6);
    let n = le32(second, 4 + 4 * m) as usize;
    assert_eq!(n, 9);
    for member in &members[2..] {
        assert_eq!(member.name, "mydll.a.dll/");
    }
}

#[test]
fn member_count_is_three_plus_entries() {
    for n in 0..5usize {
        let mut b = ImportLibBuilder::new("k.dll");
        for i in 0..n {
            b = b.import_ordinal(&format!("f{}", i), i as u16);
        }
        let members = parse(&b.build().unwrap());
        assert_eq!(members.len(), 2 + 3 + n);
    }
}

#[test]
fn even_alignment() {
    for module in ["a.dll", "ab.dll", "abc", "mydll.a.dll"] {
        let lib = ImportLibBuilder::new(module).import_name("x", "xy").import_ordinal("yz", 9).build().unwrap();
        assert_eq!(lib.len() % 2, 0);
        for m in parse(&lib) {
            assert_eq!(m.start % 2, 0);
        }
    }
}

#[test]
fn offsets_point_at_member_headers() {
    let lib = sample();
    let members = parse(&lib);
    let (offsets, symbols) = first_linker_symbols(&members[0]);
    let starts: Vec<u32> = members[2..].iter().map(|m| m.start as u32).collect();
    for (off, sym) in offsets.iter().zip(symbols.iter()) {
        assert!(starts.contains(off), "{} points to {}", sym, off);
        assert_eq!(&lib[*off as usize..*off as usize + 12], b"mydll.a.dll/");
    }
    assert_eq!(offsets[0], starts[0]);
    assert_eq!(offsets[1], starts[1]);
    assert_eq!(offsets[2], starts[2]);
    assert_eq!(offsets[3], starts[3]);
    assert_eq!(offsets[4], starts[3]);
    assert_eq!(offsets[8], starts[5]);
    let second = &members[1].payload;
    for i in 0..6 {
        assert_eq!(le32(second, 4 + 4 * i), starts[i]);
    }
}

#[test]
fn second_linker_member_numbers() {
    let lib = sample();
    let members = parse(&lib);
    let second = &members[1].payload;
    let m = le32(second, 0) as usize;
    let n = le32(second, 4 + 4 * m) as usize;
    let numbers: Vec<u16> = (0..n).map(|i| le16(second, 8 + 4 * m + 2 * i)).collect();
    assert_eq!(numbers, vec![1, 2, 3, 4, 4, 5, 5, 6, 6]);
    let sorted = names(&second[8 + 4 * m + 2 * n..], n);
    assert_eq!(sorted[3], "__imp_mult");
    assert_eq!(sorted[4], "mult");
}

#[test]
fn ordinal_and_name_records() {
    let lib = sample();
    let members = parse(&lib);
    let mult = &members[5].payload;
    assert_eq!(le16(mult, 0), 0);
    assert_eq!(le16(mult, 2), 0xFFFF);
    assert_eq!(le16(mult, 6), 0x8664);
    assert_eq!(le16(mult, 16), 3);
    assert_eq!(le16(mult, 18), 0);
    assert_eq!(&mult[20..], b"\0mydll.a.dll\0");
    assert_eq!(le32(mult, 12), 13);
    let add = &members[6].payload;
    assert_eq!(le16(add, 16), 0);
    assert_eq!(le16(add, 18), 4);
    assert_eq!(&add[20..], b"add\0mydll.a.dll\0");
    assert_eq!(le32(add, 12), 16);
}

#[test]
fn duplicate_name_keeps_first_position() {
    let lib = ImportLibBuilder::new("d.dll").import_ordinal("f", 1).import_ordinal("f", 2).build().unwrap();
    let members = parse(&lib);
    assert_eq!(members.len(), 2 + 5);
    let (offsets, symbols) = first_linker_symbols(&members[0]);
    assert_eq!(symbols.len(), 5);
    assert_eq!(symbols[3], "__imp_f");
    assert_eq!(offsets[3], members[6].start as u32);
    assert_eq!(offsets[4], members[6].start as u32);
}

#[test]
fn building_twice_gives_same_bytes() {
    assert_eq!(sample(), sample());
}

#[test]
fn no_imports() {
    let lib = ImportLibBuilder::new("empty.dll").build().unwrap();
    let members = parse(&lib);
    assert_eq!(members.len(), 5);
    let (_, symbols) = first_linker_symbols(&members[0]);
    assert_eq!(symbols, vec!["__IMPORT_DESCRIPTOR_empty", "__NULL_IMPORT_DESCRIPTOR", "\u{7f}empty_NULL_THUNK_DATA"]);
}

#[test]
fn stem_without_dll_suffix() {
    let lib = ImportLibBuilder::new("plain").build().unwrap();
    let (_, symbols) = first_linker_symbols(&parse(&lib)[0]);
    assert_eq!(symbols[0], "__IMPORT_DESCRIPTOR_plain");
    assert_eq!(symbols[2], "\u{7f}plain_NULL_THUNK_DATA");
}

#[test]
fn long_module_name_truncated_in_header() {
    let lib = ImportLibBuilder::new("averyveryverylongname.dll").build().unwrap();
    let members = parse(&lib);
    assert_eq!(members[2].name, "averyveryverylo/");
}

#[test]
fn non_ascii_is_rejected() {
    let r = ImportLibBuilder::new("m\u{e9}.dll").build();
    assert_eq!(r, Err(ImportLibError::NonAscii));
    let r = ImportLibBuilder::new("m.dll").import_name("f", "\u{e9}").build();
    assert_eq!(r, Err(ImportLibError::NonAscii));
}

#[test]
fn too_many_members_is_overflow() {
    let mut b = ImportLibBuilder::new("m.dll");
    for i in 0..65533u32 {
        b = b.import_ordinal(&format!("f{}", i), (i % 65536) as u16);
    }
    assert_eq!(b.build(), Err(ImportLibError::Overflow));
}

#[test]
fn long_module_name_builds() {
    let long = format!("{}.dll", "a".repeat(0x0100_0000));
    let lib = ImportLibBuilder::new(&long).build().unwrap();
    let members = parse(&lib);
    assert_eq!(members.len(), 5);
    assert_eq!(members[2].name, "aaaaaaaaaaaaaaa/");
    let (_, symbols) = first_linker_symbols(&members[0]);
    assert_eq!(symbols[0].len(), 20 + 0x0100_0000);
}

#[test]
fn x86_machine() {
    assert_eq!(arch(Machine::X86_64), 0x8664);
    assert_eq!(arch(Machine::X86), 0x014C);
    let lib = ImportLibBuilder::new("m.dll").machine(Machine::X86).import_ordinal("f", 7).build().unwrap();
    let members = parse(&lib);
    assert_eq!(le16(&members[2].payload, 0), 0x014C);
    assert_eq!(le16(&members[5].payload, 6), 0x014C);
}

#[test]
fn import_accessors() {
    let a = Import::Name("add".to_string());
    let b = Import::Ordinal(3);
    assert_eq!(a.name(), Some("add"));
    assert_eq!(a.ordinal(), None);
    assert_eq!(b.name(), None);
    assert_eq!(b.ordinal(), Some(3));
}

#[test]
fn null_import_descriptor_bytes() {
    let (name, data) = build_null_import_descriptor(0x8664);
    assert_eq!(name, b"__NULL_IMPORT_DESCRIPTOR".to_vec());
    assert_eq!(data.len(), 128);
    assert_eq!(&data[0..20], &[0x64, 0x86, 1, 0, 0, 0, 0, 0, 80, 0, 0, 0, 1, 0, 0, 0, 0, 0, 0, 0]);
    assert_eq!(&data[20..28], b".idata$3");
    assert_eq!(le32(&data, 36), 20);
    assert_eq!(le32(&data, 40), 60);
    assert_eq!(le32(&data, 56), 0xC030_0040);
    assert_eq!(&data[60..80], &[0u8; 20]);
    assert_eq!(&data[80..98], &[0, 0, 0, 0, 4, 0, 0, 0, 0, 0, 0, 0, 1, 0, 0, 0, 2, 0]);
    assert_eq!(le32(&data, 98), 29);
    assert_eq!(&data[102..127], b"__NULL_IMPORT_DESCRIPTOR\0");
    assert_eq!(data[127], 0);
}

#[test]
fn import_descriptor_layout() {
    let lib = sample();
    let d = &parse(&lib)[2].payload;
    assert_eq!(le16(d, 2), 2);
    assert_eq!(le32(d, 8), 151 + 11);
    assert_eq!(le32(d, 12), 7);
    assert_eq!(&d[20..28], b".idata$2");
    assert_eq!(&d[60..68], b".idata$6");
    assert_eq!(le32(d, 76), 12);
    assert_eq!(le32(d, 80), 150);
    assert_eq!(&d[150..162], b"mydll.a.dll\0");
    let strings_at = 162 + 7 * 18;
    assert_eq!(le32(d, strings_at), 4 + 28 + 25 + 25);
    assert_eq!(&d[strings_at + 4..strings_at + 4 + 28], b"__IMPORT_DESCRIPTOR_mydll.a\0");
    // the seventh symbol names the null thunk by its string table offset
    assert_eq!(le32(d, 162 + 6 * 18 + 4), 4 + 28 + 25);
}

#[test]
fn archive_header_text() {
    let mut buf = Vec::new();
    write_header(&mut buf, &b"mydll.a.dll".to_vec(), 42);
    assert_eq!(buf, b"mydll.a.dll/    -1                      0       42        `\n".to_vec());
    let mut buf = Vec::new();
    write_header(&mut buf, &Vec::new(), 4294967295);
    assert_eq!(buf, b"/               -1                      0       4294967295`\n".to_vec());
}
