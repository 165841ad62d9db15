//! The module and its imports, their builder, and the assembly of the whole library.
use vstd::prelude::*;
use vstd::string::{is_ascii_spec_bytes, StringExecFns, StringExecFnsIsAscii};
use vstd::utf8::is_ascii_chars;
use indexmap::IndexMap;
use crate::archive::{archive, layout_fits, write_archive};
use crate::coff::{
    build_import_descriptor, build_null_import_descriptor, build_null_thunk_data,
    descriptor_symbol, encode_short_import, imp_prefix, imp_prefix_bytes,
    import_descriptor_member, null_import_descriptor_member, null_import_descriptor_name,
    null_thunk_data_member, short_import_record, stem, thunk_symbol, descriptor_fits, module_stem,
};
use crate::symbols::{
    index_entries, index_insert, index_into_entries, insert_entry, keys_unique,
    lemma_insert_entry, lemma_position_of, new_index,
};

verus! {

/// How an exported function of the DLL is selected.
#[derive(Clone, Debug, PartialEq, Eq)]
pub enum Import {
    Name(String),
    Ordinal(u16),
}

/// The mathematical value of an `Import`.
pub enum ImportView {
    Name(Seq<char>),
    Ordinal(u16),
}

impl View for Import {
    type V = ImportView;

    open spec fn view(&self) -> ImportView {
        match self {
            Import::Name(s) => ImportView::Name(s@),
            Import::Ordinal(o) => ImportView::Ordinal(*o),
        }
    }
}

impl Import {
    /// The imported name, for an import by name.
    pub fn name(&self) -> (r: Option<&str>)
        ensures
            match self {
                Import::Name(s) => r matches Some(x) && x@ == s@,
                Import::Ordinal(_) => r is None,
            },
    {
        match self {
            Import::Name(s) => Some(s.as_str()),
            Import::Ordinal(_) => None,
        }
    }

    /// The ordinal, for an import by ordinal.
    pub fn ordinal(&self) -> (r: Option<u16>)
        ensures
            match self {
                Import::Name(_) => r is None,
                Import::Ordinal(o) => r == Some(*o),
            },
    {
        match self {
            Import::Name(_) => None,
            Import::Ordinal(o) => Some(*o),
        }
    }
}

/// The target machine of the library.
#[derive(Clone, Copy, Debug, PartialEq, Eq)]
pub enum Machine {
    X86_64,
    X86,
}

/// The COFF machine type of `m`.
pub open spec fn machine_code(m: Machine) -> u16 {
    match m {
        Machine::X86_64 => 0x8664,
        Machine::X86 => 0x014C,
    }
}

/// The COFF machine type of `machine`.
pub fn arch(machine: Machine) -> (r: u16)
    ensures
        r == machine_code(machine),
{
    match machine {
        Machine::X86_64 => 0x8664,
        Machine::X86 => 0x014C,
    }
}

/// Why a library could not be built.
#[derive(Clone, Copy, Debug, PartialEq, Eq)]
pub enum ImportLibError {
    /// A size or offset of a member does not fit in four bytes, a member number does not fit in
    /// two bytes, or an offset in the archive does not fit in four.
    Overflow,
    /// A module or symbol name holds a character outside ASCII.
    NonAscii,
}

/// Collects a module name and the symbols to import from it.
#[derive(Clone, Debug)]
pub struct ImportLibBuilder {
    name: String,
    imports: Vec<(String, Import)>,
    machine: Machine,
}

/// The mathematical value of an `ImportLibBuilder`: the module name, the
/// (exposed name, import) entries in order, and the machine.
pub struct ImportLibSpec {
    pub module: Seq<char>,
    pub imports: Seq<(Seq<char>, ImportView)>,
    pub machine: Machine,
}

impl View for ImportLibBuilder {
    type V = ImportLibSpec;

    closed spec fn view(&self) -> ImportLibSpec {
        ImportLibSpec {
            module: self.name@,
            imports: self.imports@.map_values(|p: (String, Import)| (p.0@, p.1@)),
            machine: self.machine,
        }
    }
}

impl ImportLibBuilder {
    /// A builder for module `lib_name` with no imports, for x86-64.
    pub fn new(lib_name: &str) -> (r: Self)
        ensures
            r@.module == lib_name@,
            r@.imports == Seq::<(Seq<char>, ImportView)>::empty(),
            r@.machine == Machine::X86_64,
    {
        let r = ImportLibBuilder {
            name: String::from_str(lib_name),
            imports: Vec::new(),
            machine: Machine::X86_64,
        };
        assert(r@.imports =~= Seq::<(Seq<char>, ImportView)>::empty());
        r
    }

    /// Adds `rust_name`, bound to the export `lib_name` of the module.
    pub fn import_name(self, rust_name: &str, lib_name: &str) -> (r: Self)
        ensures
            r@.module == self@.module,
            r@.machine == self@.machine,
            r@.imports == self@.imports.push((rust_name@, ImportView::Name(lib_name@))),
    {
        let mut this = self;
        this.imports.push((String::from_str(rust_name), Import::Name(String::from_str(lib_name))));
        assert(this@.imports =~= self@.imports.push((rust_name@, ImportView::Name(lib_name@))));
        this
    }

    /// Adds `rust_name`, bound to the export with ordinal `lib_ordinal` of the module.
    pub fn import_ordinal(self, rust_name: &str, lib_ordinal: u16) -> (r: Self)
        ensures
            r@.module == self@.module,
            r@.machine == self@.machine,
            r@.imports == self@.imports.push((rust_name@, ImportView::Ordinal(lib_ordinal))),
    {
        let mut this = self;
        this.imports.push((String::from_str(rust_name), Import::Ordinal(lib_ordinal)));
        assert(this@.imports =~= self@.imports.push((rust_name@, ImportView::Ordinal(lib_ordinal))));
        this
    }

    /// Selects the target machine.
    pub fn machine(self, machine: Machine) -> (r: Self)
        ensures
            r@.module == self@.module,
            r@.imports == self@.imports,
            r@.machine == machine,
    {
        let mut this = self;
        this.machine = machine;
        this
    }

    /// Builds the import library.
    pub fn build(self) -> (r: Result<Vec<u8>, ImportLibError>)
        ensures
            match library_outcome(self@) {
                Ok(bytes) => r matches Ok(v) && v@ == bytes,
                Err(e) => r == Err::<Vec<u8>, ImportLibError>(e),
            },
    {
        build_library(&self)
    }
}

/// The bytes of an ASCII text.
pub open spec fn ascii_bytes(s: Seq<char>) -> Seq<u8> {
    Seq::new(s.len(), |i: int| s[i] as u8)
}

/// The name a short import selects: the export name, or nothing for an ordinal.
pub open spec fn import_name_bytes(i: ImportView) -> Seq<u8> {
    match i {
        ImportView::Name(n) => ascii_bytes(n),
        ImportView::Ordinal(_) => Seq::empty(),
    }
}

/// The ordinal field of a short import: the ordinal, or 0 for an import by name.
pub open spec fn import_ordinal(i: ImportView) -> u16 {
    match i {
        ImportView::Name(_) => 0,
        ImportView::Ordinal(o) => o,
    }
}

/// The name type of a short import: 0 selects by ordinal, 1 by name.
pub open spec fn import_name_type(i: ImportView) -> u16 {
    match i {
        ImportView::Name(_) => 1,
        ImportView::Ordinal(_) => 0,
    }
}

/// The short import record of `i` from module `m`.
pub open spec fn short_import(m: Seq<u8>, machine: u16, i: ImportView) -> Seq<u8> {
    short_import_record(m, machine, import_name_bytes(i), import_ordinal(i), import_name_type(i))
}

/// The names of an entry are ASCII.
pub open spec fn entry_ascii(e: (Seq<char>, ImportView)) -> bool {
    is_ascii_chars(e.0) && match e.1 {
        ImportView::Name(n) => is_ascii_chars(n),
        ImportView::Ordinal(_) => true,
    }
}

/// Every name of the builder's value is ASCII.
pub open spec fn all_ascii(b: ImportLibSpec) -> bool {
    is_ascii_chars(b.module) && forall|k: int|
        0 <= k < b.imports.len() ==> #[trigger] entry_ascii(b.imports[k])
}

/// The size field of an entry's short import, the length of both strings with their
/// zero bytes, fits in four bytes (`l` is the module name's length).
pub open spec fn entry_fits(l: nat, e: (Seq<char>, ImportView)) -> bool {
    l + import_name_bytes(e.1).len() + 2 <= u32::MAX
}

/// Every size and offset inside the members fits in its four-byte field.
pub open spec fn fields_fit(b: ImportLibSpec) -> bool {
    let m = ascii_bytes(b.module);
    descriptor_fits(m) && forall|k: int|
        0 <= k < b.imports.len() ==> #[trigger] entry_fits(m.len(), b.imports[k])
}

/// The regular members: the import descriptor, the null import descriptor, the null
/// thunk data, then one short import per entry, in order.
pub open spec fn library_members(b: ImportLibSpec) -> Seq<Seq<u8>> {
    let m = ascii_bytes(b.module);
    let code = machine_code(b.machine);
    seq![
        import_descriptor_member(m, code),
        null_import_descriptor_member(code),
        null_thunk_data_member(m, code),
    ] + Seq::new(b.imports.len(), |k: int| short_import(m, code, b.imports[k].1))
}

/// The exported names in the order they are bound, each with its member number: the
/// three descriptor symbols, then for each entry `__imp_<name>` and `<name>`.
pub open spec fn symbol_pairs(b: ImportLibSpec) -> Seq<(Seq<u8>, usize)> {
    let m = ascii_bytes(b.module);
    seq![
        (descriptor_symbol(m), 1usize),
        (null_import_descriptor_name(), 2usize),
        (thunk_symbol(m), 3usize),
    ] + Seq::new(
        2 * b.imports.len(),
        |k: int|
            if k % 2 == 0 {
                (imp_prefix() + ascii_bytes(b.imports[k / 2].0), (4 + k / 2) as usize)
            } else {
                (ascii_bytes(b.imports[k / 2].0), (4 + k / 2) as usize)
            },
    )
}

/// The symbol index after binding each pair in turn.
pub open spec fn index_of_pairs(p: Seq<(Seq<u8>, usize)>) -> Seq<(Seq<u8>, usize)>
    decreases p.len(),
{
    if p.len() == 0 {
        Seq::empty()
    } else {
        insert_entry(index_of_pairs(p.drop_last()), p.last().0, p.last().1)
    }
}

pub open spec fn library_symbols(b: ImportLibSpec) -> Seq<(Seq<u8>, usize)> {
    index_of_pairs(symbol_pairs(b))
}

/// The import library of `b`.
pub open spec fn library(b: ImportLibSpec) -> Seq<u8> {
    archive(ascii_bytes(b.module), library_members(b), library_symbols(b))
}

/// What building `b` gives: `NonAscii` when a name is not ASCII, else `Overflow` when
/// a size, offset or member number does not fit its field, else the library.
pub open spec fn library_outcome(b: ImportLibSpec) -> Result<Seq<u8>, ImportLibError> {
    if !all_ascii(b) {
        Err(ImportLibError::NonAscii)
    } else if !fields_fit(b) || !layout_fits(library_members(b), library_symbols(b)) {
        Err(ImportLibError::Overflow)
    } else {
        Ok(library(b))
    }
}

/// The members and symbol index of an archive being assembled.
pub struct CoffArchiveBuilder {
    pub symbols: IndexMap<Vec<u8>, usize>,
    pub sections: Vec<Vec<u8>>,
    pub archive_name: Vec<u8>,
    pub machine: u16,
}

impl CoffArchiveBuilder {
    /// Names are unique and each is bound to an existing member.
    pub open spec fn wf(&self) -> bool {
        &&& keys_unique(index_entries(self.symbols))
        &&& forall|i: int|
            0 <= i < index_entries(self.symbols).len() ==> 1 <= #[trigger] index_entries(
                self.symbols,
            )[i].1 <= self.sections@.len()
    }

    pub fn new(name: &Vec<u8>, machine: u16) -> (r: Self)
        ensures
            r.wf(),
            r.archive_name@ == name@,
            r.machine == machine,
            r.sections@.len() == 0,
            index_entries(r.symbols) == Seq::<(Seq<u8>, usize)>::empty(),
    {
        let mut archive_name: Vec<u8> = Vec::new();
        crate::bytes::push_all(&mut archive_name, name);
        CoffArchiveBuilder { symbols: new_index(), sections: Vec::new(), archive_name, machine }
    }

    /// Appends `data` as a member and binds `name` to it.
    fn push_member(&mut self, name: Vec<u8>, data: Vec<u8>)
        requires
            old(self).wf(),
        ensures
            final(self).wf(),
            final(self).archive_name == old(self).archive_name,
            final(self).machine == old(self).machine,
            final(self).sections.deep_view() == old(self).sections.deep_view().push(data@),
            final(self).sections@.len() == old(self).sections@.len() + 1,
            index_entries(final(self).symbols) == insert_entry(
                index_entries(old(self).symbols),
                name@,
                final(self).sections@.len() as usize,
            ),
    {
        let ghost old_sections = self.sections.deep_view();
        let ghost d = data@;
        assert(data.deep_view() =~= data@);
        self.sections.push(data);
        assert(self.sections.deep_view() =~= old_sections.push(d));
        let n = self.sections.len();
        let ghost s = index_entries(self.symbols);
        proof {
            lemma_insert_entry(s, name@, n);
            lemma_insert_valid(s, name@, n, n as nat);
        }
        index_insert(&mut self.symbols, name, n);
    }

    /// Adds the import descriptor, null import descriptor and null thunk data members.
    pub fn add_import_descriptors(&mut self)
        requires
            old(self).wf(),
            descriptor_fits(old(self).archive_name@),
        ensures
            final(self).wf(),
            final(self).archive_name == old(self).archive_name,
            final(self).machine == old(self).machine,
            final(self).sections.deep_view() == old(self).sections.deep_view() + seq![
                import_descriptor_member(old(self).archive_name@, old(self).machine),
                null_import_descriptor_member(old(self).machine),
                null_thunk_data_member(old(self).archive_name@, old(self).machine),
            ],
            index_entries(final(self).symbols) == insert_entry(
                insert_entry(
                    insert_entry(
                        index_entries(old(self).symbols),
                        descriptor_symbol(old(self).archive_name@),
                        (old(self).sections@.len() + 1) as usize,
                    ),
                    null_import_descriptor_name(),
                    (old(self).sections@.len() + 2) as usize,
                ),
                thunk_symbol(old(self).archive_name@),
                (old(self).sections@.len() + 3) as usize,
            ),
    {
        let ghost s0 = self.sections.deep_view();
        let ghost a = import_descriptor_member(self.archive_name@, self.machine);
        let ghost b = null_import_descriptor_member(self.machine);
        let ghost c = null_thunk_data_member(self.archive_name@, self.machine);
        let (name, data) = build_import_descriptor(&self.archive_name, self.machine);
        self.push_member(name, data);
        let (name, data) = build_null_import_descriptor(self.machine);
        self.push_member(name, data);
        let (name, data) = build_null_thunk_data(&self.archive_name, self.machine);
        self.push_member(name, data);
        assert(self.sections.deep_view() == s0.push(a).push(b).push(c));
        assert(s0.push(a).push(b).push(c) =~= s0 + seq![a, b, c]);
    }

    /// Adds the short import record of `import` as a member, and binds both
    /// `__imp_<rust_name>` and `<rust_name>` to it.
    pub fn add_short_import(&mut self, rust_name: &Vec<u8>, import_name: &Vec<u8>, import: &Import)
        requires
            old(self).wf(),
            import_name@ == import_name_bytes(import@),
            old(self).archive_name@.len() + import_name@.len() + 2 <= u32::MAX,
        ensures
            final(self).wf(),
            final(self).archive_name == old(self).archive_name,
            final(self).machine == old(self).machine,
            final(self).sections.deep_view() == old(self).sections.deep_view().push(
                short_import(old(self).archive_name@, old(self).machine, import@),
            ),
            index_entries(final(self).symbols) == insert_entry(
                insert_entry(
                    index_entries(old(self).symbols),
                    imp_prefix() + rust_name@,
                    final(self).sections@.len() as usize,
                ),
                rust_name@,
                final(self).sections@.len() as usize,
            ),
    {
        let (ordinal, name_type): (u16, u16) = match import.ordinal() {
            Some(o) => (o, 0),
            None => (0, 1),
        };
        let data = encode_short_import(&self.archive_name, self.machine, import_name, ordinal, name_type);
        let mut imp = imp_prefix_bytes();
        crate::bytes::push_all(&mut imp, rust_name);
        self.push_member(imp, data);
        let mut plain: Vec<u8> = Vec::new();
        crate::bytes::push_all(&mut plain, rust_name);
        let ghost s = index_entries(self.symbols);
        let n = self.sections.len();
        assert(n >= 1);
        proof {
            lemma_insert_entry(s, plain@, n);
            lemma_insert_valid(s, plain@, n, n as nat);
        }
        index_insert(&mut self.symbols, plain, n);
    }
}

/// Binding a name to a member `v <= bound` keeps every binding within `1..=bound`.
pub proof fn lemma_insert_valid(s: Seq<(Seq<u8>, usize)>, k: Seq<u8>, v: usize, bound: nat)
    requires
        forall|i: int| 0 <= i < s.len() ==> 1 <= #[trigger] s[i].1 <= bound,
        1 <= v <= bound,
    ensures
        forall|i: int|
            0 <= i < insert_entry(s, k, v).len() ==> 1 <= #[trigger] insert_entry(s, k, v)[i].1
                <= bound,
{
    reveal(insert_entry);
    lemma_position_of(s, k);
}

/// The bytes of an ASCII string.
fn ascii_to_bytes(s: &String) -> (r: Vec<u8>)
    requires
        is_ascii_chars(s@),
    ensures
        r@ == ascii_bytes(s@),
{
    let t = s.as_str();
    proof {
        is_ascii_spec_bytes(t);
    }
    let r = t.as_bytes_vec();
    assert(r@ =~= ascii_bytes(s@));
    r
}

/// Whether every name of `b` is ASCII.
fn check_ascii(b: &ImportLibBuilder) -> (r: bool)
    ensures
        r == all_ascii(b@),
{
    if !b.name.is_ascii() {
        return false;
    }
    let mut k: usize = 0;
    while k < b.imports.len()
        invariant
            k <= b.imports@.len(),
            is_ascii_chars(b@.module),
            forall|j: int| 0 <= j < k ==> #[trigger] entry_ascii(b@.imports[j]),
        decreases b.imports@.len() - k,
    {
        let entry = &b.imports[k];
        assert(b@.imports[k as int] == (entry.0@, entry.1@));
        if !entry.0.is_ascii() {
            assert(!entry_ascii(b@.imports[k as int]));
            return false;
        }
        match &entry.1 {
            Import::Name(n) => {
                assert(b@.imports[k as int].1 == ImportView::Name(n@));
                if !n.is_ascii() {
                    assert(!entry_ascii(b@.imports[k as int]));
                    return false;
                }
            },
            Import::Ordinal(_) => {},
        }
        assert(entry_ascii(b@.imports[k as int]));
        k = k + 1;
    }
    true
}

/// Whether every size and offset inside the members of `b` fits in four bytes, where
/// `module` holds the bytes of the module name.
fn check_fields(b: &ImportLibBuilder, module: &Vec<u8>) -> (r: bool)
    requires
        all_ascii(b@),
        module@ == ascii_bytes(b@.module),
    ensures
        r == fields_fit(b@),
{
    let l = module.len() as u64;
    let st = stem(module).len() as u64;
    if l > 0xFFFF_FFFF - 151 || st > (0xFFFF_FFFF - 68) / 2 {
        return false;
    }
    let mut k: usize = 0;
    while k < b.imports.len()
        invariant
            k <= b.imports@.len(),
            l == module@.len(),
            module@ == ascii_bytes(b@.module),
            descriptor_fits(module@),
            forall|j: int| 0 <= j < k ==> #[trigger] entry_fits(module@.len(), b@.imports[j]),
        decreases b.imports@.len() - k,
    {
        let entry = &b.imports[k];
        assert(b@.imports[k as int] == (entry.0@, entry.1@));
        match &entry.1 {
            Import::Name(n) => {
                assert(b@.imports[k as int].1 == ImportView::Name(n@));
                let nl = n.as_str().unicode_len() as u64;
                if nl > 0xFFFF_FFFF || l + nl + 2 > 0xFFFF_FFFF {
                    assert(!entry_fits(module@.len(), b@.imports[k as int]));
                    return false;
                }
            },
            Import::Ordinal(_) => {},
        }
        assert(entry_fits(module@.len(), b@.imports[k as int]));
        k = k + 1;
    }
    true
}

/// Encodes every member, binds every symbol, and lays out the archive.
fn build_library(b: &ImportLibBuilder) -> (r: Result<Vec<u8>, ImportLibError>)
    ensures
        match library_outcome(b@) {
            Ok(bytes) => r matches Ok(v) && v@ == bytes,
            Err(e) => r == Err::<Vec<u8>, ImportLibError>(e),
        },
{
    if !check_ascii(b) {
        return Err(ImportLibError::NonAscii);
    }
    let module = ascii_to_bytes(&b.name);
    if !check_fields(b, &module) {
        return Err(ImportLibError::Overflow);
    }
    let ghost spec = b@;
    let ghost pairs = symbol_pairs(spec);
    let ghost members = library_members(spec);
    let code = arch(b.machine);
    let mut ab = CoffArchiveBuilder::new(&module, code);
    ab.add_import_descriptors();
    proof {
        reveal_with_fuel(index_of_pairs, 4);
        assert(pairs.take(3).drop_last() =~= pairs.take(2));
        assert(pairs.take(2).drop_last() =~= pairs.take(1));
        assert(pairs.take(1).drop_last() =~= pairs.take(0));
        assert(ab.sections.deep_view() =~= members.take(3));
    }
    let mut k: usize = 0;
    while k < b.imports.len()
        invariant
            k <= b.imports@.len(),
            spec == b@,
            pairs == symbol_pairs(spec),
            members == library_members(spec),
            all_ascii(spec),
            fields_fit(spec),
            module@ == ascii_bytes(spec.module),
            code == machine_code(spec.machine),
            ab.wf(),
            ab.archive_name@ == module@,
            ab.machine == code,
            ab.sections@.len() == 3 + k,
            ab.sections.deep_view() == members.take(3 + k),
            index_entries(ab.symbols) == index_of_pairs(pairs.take(3 + 2 * k)),
        decreases b.imports@.len() - k,
    {
        let entry = &b.imports[k];
        assert(spec.imports[k as int] == (entry.0@, entry.1@));
        assert(entry_ascii(spec.imports[k as int]));
        assert(entry_fits(module@.len(), spec.imports[k as int]));
        let rust = ascii_to_bytes(&entry.0);
        let iname = match &entry.1 {
            Import::Name(n) => ascii_to_bytes(n),
            Import::Ordinal(_) => Vec::new(),
        };
        assert(iname@ =~= import_name_bytes(entry.1@));
        ab.add_short_import(&rust, &iname, &entry.1);
        proof {
            let j = 3 + 2 * k;
            assert(pairs[j] == (imp_prefix() + rust@, (4 + k) as usize)) by {
                assert((2 * k) / 2 == k as int);
                assert((2 * k) % 2 == 0);
            }
            assert(pairs[j + 1] == (rust@, (4 + k) as usize)) by {
                assert((2 * k + 1) / 2 == k as int);
                assert((2 * k + 1) % 2 == 1);
            }
            assert(pairs.take(j + 2).drop_last() =~= pairs.take(j + 1));
            assert(pairs.take(j + 1).drop_last() =~= pairs.take(j));
            assert(pairs.take(j + 2).last() == pairs[j + 1]);
            assert(pairs.take(j + 1).last() == pairs[j]);
            assert(index_of_pairs(pairs.take(j + 1)) == insert_entry(
                index_of_pairs(pairs.take(j)),
                pairs[j].0,
                pairs[j].1,
            ));
            assert(index_of_pairs(pairs.take(j + 2)) == insert_entry(
                index_of_pairs(pairs.take(j + 1)),
                pairs[j + 1].0,
                pairs[j + 1].1,
            ));
            assert(members[3 + k] == short_import(module@, code, entry.1@));
            assert(ab.sections.deep_view() =~= members.take(3 + k + 1));
        }
        k = k + 1;
    }
    assert(pairs.take(3 + 2 * k) =~= pairs);
    assert(members.take(3 + k) =~= members);
    let entries = index_into_entries(ab.symbols);
    match write_archive(&module, &ab.sections, &entries) {
        Some(v) => Ok(v),
        None => Err(ImportLibError::Overflow),
    }
}

} // verus!
