//! The section table: the directory, file and symlink arrays, back to back.

use crate::format::{
    lemma_directory_section_injective, lemma_file_section_header_injective, lemma_le_lengths,
    lemma_symlink_section_injective, DirectorySection, FileSectionHeader, SymlinkSection, DIRECTORY_SECTION_SIZE,
    FILE_SECTION_SIZE, SYMLINK_SECTION_SIZE,
};
use vstd::prelude::*;

verus! {

/// The records of a section table.
pub struct SectionTable {
    pub directories: Vec<DirectorySection>,
    pub files: Vec<FileSectionHeader>,
    pub symlinks: Vec<SymlinkSection>,
}

/// What a section table holds, as sequences.
pub struct TableView {
    pub directories: Seq<DirectorySection>,
    pub files: Seq<FileSectionHeader>,
    pub symlinks: Seq<SymlinkSection>,
}

impl View for SectionTable {
    type V = TableView;

    open spec fn view(&self) -> TableView {
        TableView { directories: self.directories@, files: self.files@, symlinks: self.symlinks@ }
    }
}

/// Directory records back to back.
pub open spec fn encode_directories(s: Seq<DirectorySection>) -> Seq<u8>
    decreases s.len(),
{
    if s.len() == 0 {
        Seq::empty()
    } else {
        encode_directories(s.drop_last()) + s.last().encode()
    }
}

/// File records back to back.
pub open spec fn encode_files(s: Seq<FileSectionHeader>) -> Seq<u8>
    decreases s.len(),
{
    if s.len() == 0 {
        Seq::empty()
    } else {
        encode_files(s.drop_last()) + s.last().encode()
    }
}

/// Symlink records back to back.
pub open spec fn encode_symlinks(s: Seq<SymlinkSection>) -> Seq<u8>
    decreases s.len(),
{
    if s.len() == 0 {
        Seq::empty()
    } else {
        encode_symlinks(s.drop_last()) + s.last().encode()
    }
}

impl TableView {
    /// The table as it stands on disk, before compression.
    pub open spec fn encode(&self) -> Seq<u8> {
        encode_directories(self.directories) + encode_files(self.files) + encode_symlinks(
            self.symlinks,
        )
    }

    /// The table has the counts that a trailer announces.
    pub open spec fn has_counts(&self, d: int, f: int, s: int) -> bool {
        self.directories.len() == d && self.files.len() == f && self.symlinks.len() == s
    }
}

/// Size in bytes of a table with the given counts.
pub open spec fn table_size(d: int, f: int, s: int) -> int {
    d * DIRECTORY_SECTION_SIZE + f * FILE_SECTION_SIZE + s * SYMLINK_SECTION_SIZE
}

/// Each record takes its fixed size.
pub proof fn lemma_encode_lengths(t: TableView)
    ensures
        encode_directories(t.directories).len() == t.directories.len() * DIRECTORY_SECTION_SIZE,
        encode_files(t.files).len() == t.files.len() * FILE_SECTION_SIZE,
        encode_symlinks(t.symlinks).len() == t.symlinks.len() * SYMLINK_SECTION_SIZE,
        t.encode().len() == table_size(
            t.directories.len() as int,
            t.files.len() as int,
            t.symlinks.len() as int,
        ),
    decreases t.directories.len() + t.files.len() + t.symlinks.len(),
{
    lemma_le_lengths();
    if t.directories.len() > 0 {
        lemma_encode_lengths(TableView { directories: t.directories.drop_last(), ..t });
    } else if t.files.len() > 0 {
        lemma_encode_lengths(TableView { files: t.files.drop_last(), ..t });
    } else if t.symlinks.len() > 0 {
        lemma_encode_lengths(TableView { symlinks: t.symlinks.drop_last(), ..t });
    }
}

/// Directory arrays of one length with the same bytes are the same.
pub proof fn lemma_directories_injective(a: Seq<DirectorySection>, b: Seq<DirectorySection>)
    requires
        a.len() == b.len(),
        encode_directories(a) == encode_directories(b),
    ensures
        a == b,
    decreases a.len(),
{
    if a.len() > 0 {
        let t = TableView { directories: Seq::empty(), files: Seq::empty(), symlinks: Seq::empty() };
        lemma_encode_lengths(TableView { directories: a.drop_last(), ..t });
        lemma_encode_lengths(TableView { directories: b.drop_last(), ..t });
        lemma_encode_lengths(TableView { directories: a, ..t });
        let m = (a.len() - 1) * DIRECTORY_SECTION_SIZE;
        let ea = encode_directories(a);
        assert(ea.subrange(0, m) =~= encode_directories(a.drop_last()));
        assert(ea.subrange(m, ea.len() as int) =~= a.last().encode());
        assert(encode_directories(b).subrange(0, m) =~= encode_directories(b.drop_last()));
        assert(encode_directories(b).subrange(m, ea.len() as int) =~= b.last().encode());
        lemma_directories_injective(a.drop_last(), b.drop_last());
        lemma_directory_section_injective(a.last(), b.last());
        assert(a =~= a.drop_last().push(a.last()));
        assert(b =~= b.drop_last().push(b.last()));
    } else {
        assert(a =~= b);
    }
}

/// File arrays of one length with the same bytes are the same.
pub proof fn lemma_files_injective(a: Seq<FileSectionHeader>, b: Seq<FileSectionHeader>)
    requires
        a.len() == b.len(),
        encode_files(a) == encode_files(b),
    ensures
        a == b,
    decreases a.len(),
{
    if a.len() > 0 {
        let t = TableView { directories: Seq::empty(), files: Seq::empty(), symlinks: Seq::empty() };
        lemma_encode_lengths(TableView { files: a.drop_last(), ..t });
        lemma_encode_lengths(TableView { files: b.drop_last(), ..t });
        lemma_encode_lengths(TableView { files: a, ..t });
        let m = (a.len() - 1) * FILE_SECTION_SIZE;
        let ea = encode_files(a);
        assert(ea.subrange(0, m) =~= encode_files(a.drop_last()));
        assert(ea.subrange(m, ea.len() as int) =~= a.last().encode());
        assert(encode_files(b).subrange(0, m) =~= encode_files(b.drop_last()));
        assert(encode_files(b).subrange(m, ea.len() as int) =~= b.last().encode());
        lemma_files_injective(a.drop_last(), b.drop_last());
        lemma_file_section_header_injective(a.last(), b.last());
        assert(a =~= a.drop_last().push(a.last()));
        assert(b =~= b.drop_last().push(b.last()));
    } else {
        assert(a =~= b);
    }
}

/// Symlink arrays of one length with the same bytes are the same.
pub proof fn lemma_symlinks_injective(a: Seq<SymlinkSection>, b: Seq<SymlinkSection>)
    requires
        a.len() == b.len(),
        encode_symlinks(a) == encode_symlinks(b),
    ensures
        a == b,
    decreases a.len(),
{
    if a.len() > 0 {
        let t = TableView { directories: Seq::empty(), files: Seq::empty(), symlinks: Seq::empty() };
        lemma_encode_lengths(TableView { symlinks: a.drop_last(), ..t });
        lemma_encode_lengths(TableView { symlinks: b.drop_last(), ..t });
        lemma_encode_lengths(TableView { symlinks: a, ..t });
        let m = (a.len() - 1) * SYMLINK_SECTION_SIZE;
        let ea = encode_symlinks(a);
        assert(ea.subrange(0, m) =~= encode_symlinks(a.drop_last()));
        assert(ea.subrange(m, ea.len() as int) =~= a.last().encode());
        assert(encode_symlinks(b).subrange(0, m) =~= encode_symlinks(b.drop_last()));
        assert(encode_symlinks(b).subrange(m, ea.len() as int) =~= b.last().encode());
        lemma_symlinks_injective(a.drop_last(), b.drop_last());
        lemma_symlink_section_injective(a.last(), b.last());
        assert(a =~= a.drop_last().push(a.last()));
        assert(b =~= b.drop_last().push(b.last()));
    } else {
        assert(a =~= b);
    }
}


/// Two tables with the same counts and the same bytes are the same table.
pub proof fn lemma_table_injective(a: TableView, b: TableView)
    requires
        a.has_counts(b.directories.len() as int, b.files.len() as int, b.symlinks.len() as int),
        a.encode() == b.encode(),
    ensures
        a == b,
{
    lemma_encode_lengths(a);
    lemma_encode_lengths(b);
    let d = encode_directories(a.directories).len() as int;
    let f = d + encode_files(a.files).len();
    let e = a.encode();
    let g = b.encode();
    assert(e.subrange(0, d) =~= encode_directories(a.directories));
    assert(g.subrange(0, d) =~= encode_directories(b.directories));
    assert(e.subrange(d, f) =~= encode_files(a.files));
    assert(g.subrange(d, f) =~= encode_files(b.files));
    assert(e.subrange(f, e.len() as int) =~= encode_symlinks(a.symlinks));
    assert(g.subrange(f, e.len() as int) =~= encode_symlinks(b.symlinks));
    lemma_directories_injective(a.directories, b.directories);
    lemma_files_injective(a.files, b.files);
    lemma_symlinks_injective(a.symlinks, b.symlinks);
}

impl SectionTable {
    /// The table's bytes, before compression.
    pub fn to_bytes(&self) -> (r: Vec<u8>)
        ensures
            r@ == self@.encode(),
    {
        let mut r: Vec<u8> = Vec::new();
        let mut k: usize = 0;
        while k < self.directories.len()
            invariant
                k <= self.directories@.len(),
                r@ == encode_directories(self.directories@.subrange(0, k as int)),
            decreases self.directories@.len() - k,
        {
            r.append(&mut self.directories[k].to_bytes());
            k = k + 1;
            assert(self.directories@.subrange(0, k as int).drop_last() =~= self.directories@.subrange(0, k - 1));
        }
        assert(self.directories@.subrange(0, k as int) =~= self.directories@);
        let ghost d = r@;
        let mut k: usize = 0;
        while k < self.files.len()
            invariant
                k <= self.files@.len(),
                r@ == d + encode_files(self.files@.subrange(0, k as int)),
            decreases self.files@.len() - k,
        {
            r.append(&mut self.files[k].to_bytes());
            k = k + 1;
            assert(self.files@.subrange(0, k as int).drop_last() =~= self.files@.subrange(0, k - 1));
            assert(r@ =~= d + encode_files(self.files@.subrange(0, k as int)));
        }
        assert(self.files@.subrange(0, k as int) =~= self.files@);
        let ghost f = r@;
        let mut k: usize = 0;
        while k < self.symlinks.len()
            invariant
                k <= self.symlinks@.len(),
                r@ == f + encode_symlinks(self.symlinks@.subrange(0, k as int)),
            decreases self.symlinks@.len() - k,
        {
            r.append(&mut self.symlinks[k].to_bytes());
            k = k + 1;
            assert(self.symlinks@.subrange(0, k as int).drop_last() =~= self.symlinks@.subrange(0, k - 1));
            assert(r@ =~= f + encode_symlinks(self.symlinks@.subrange(0, k as int)));
        }
        assert(self.symlinks@.subrange(0, k as int) =~= self.symlinks@);
        r
    }
}

/// Reads a table with the given counts from its bytes; `None` where the
/// bytes are not exactly that long.
pub fn parse_table(bytes: &[u8], d: u64, f: u64, s: u64) -> (r: Option<SectionTable>)
    ensures
        r is Some <==> bytes@.len() == table_size(d as int, f as int, s as int),
        r matches Some(t) ==> t@.has_counts(d as int, f as int, s as int) && t@.encode() == bytes@,
{
    let total: u128 = d as u128 * 132 + f as u128 * 193 + s as u128 * 166;
    if total != bytes.len() as u128 {
        return None;
    }
    let dn = d as usize;
    let fc = f as usize;
    let sn = s as usize;
    let len = bytes.len();
    let mut directories: Vec<DirectorySection> = Vec::new();
    let mut at: usize = 0;
    let mut k: usize = 0;
    while k < dn
        invariant
            len == bytes@.len(),
            len == dn * 132 + fc * 193 + sn * 166,
            k <= dn,
            at == k * 132,
            directories@.len() == k,
            encode_directories(directories@) == bytes@.subrange(0, at as int),
        decreases dn - k,
    {
        let rec = DirectorySection::from_bytes(&bytes[at..at + 132]);
        let ghost before = directories@;
        directories.push(rec);
        assert(directories@.drop_last() =~= before);
        at = at + 132;
        k = k + 1;
        assert(encode_directories(directories@) =~= bytes@.subrange(0, at as int));
    }
    let ghost base = at as int;
    let mut files: Vec<FileSectionHeader> = Vec::new();
    let mut k: usize = 0;
    while k < fc
        invariant
            len == bytes@.len(),
            len == dn * 132 + fc * 193 + sn * 166,
            base == dn * 132,
            k <= fc,
            at == base + k * 193,
            files@.len() == k,
            encode_files(files@) == bytes@.subrange(base, at as int),
        decreases fc - k,
    {
        let rec = FileSectionHeader::from_bytes(&bytes[at..at + 193]);
        let ghost before = files@;
        files.push(rec);
        assert(files@.drop_last() =~= before);
        at = at + 193;
        k = k + 1;
        assert(encode_files(files@) =~= bytes@.subrange(base, at as int));
    }
    let ghost mid = at as int;
    let mut symlinks: Vec<SymlinkSection> = Vec::new();
    let mut k: usize = 0;
    while k < sn
        invariant
            len == bytes@.len(),
            len == dn * 132 + fc * 193 + sn * 166,
            mid == dn * 132 + fc * 193,
            k <= sn,
            at == mid + k * 166,
            symlinks@.len() == k,
            encode_symlinks(symlinks@) == bytes@.subrange(mid, at as int),
        decreases sn - k,
    {
        let rec = SymlinkSection::from_bytes(&bytes[at..at + 166]);
        let ghost before = symlinks@;
        symlinks.push(rec);
        assert(symlinks@.drop_last() =~= before);
        at = at + 166;
        k = k + 1;
        assert(encode_symlinks(symlinks@) =~= bytes@.subrange(mid, at as int));
    }
    let t = SectionTable { directories, files, symlinks };
    assert(t@.encode() =~= bytes@);
    Some(t)
}

} // verus!
