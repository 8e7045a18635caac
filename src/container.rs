//! The payload container: the regions at the end of a package, the section
//! table they hold, and the tree of paths rebuilt from it.

use crate::codec::{decode_frame, zstd_decoded};
use crate::digest::{hash_bytes, package_hash};
use crate::format::{DirectorySection, PayloadHeader, SymlinkSection, PAYLOAD_HEADER_SIZE};
use crate::table::{lemma_table_injective, parse_table, table_size, SectionTable, TableView};
use crate::text::{copy_path, field_text, path_view, text_of};
use vstd::array::array_as_slice;
use vstd::prelude::*;

verus! {

/// Why a payload cannot be read.
#[derive(Clone, Copy, Debug, PartialEq, Eq, Structural)]
pub enum PayloadError {
    /// The image is shorter than a trailer.
    TooSmall,
    /// The regions that the trailer announces do not fit in the image.
    Truncated,
    /// The section table is not a valid zstd frame.
    SectionsUndecodable,
    /// The section table's size differs from the one its counts give.
    TableSize,
    /// The section table's hash differs from the trailer's.
    SectionHash,
    /// A directory's parent does not come before it.
    DirectoryOrder,
    /// A record refers to a directory, file or byte range that is not there.
    BadReference,
}

/// Where the regions of a payload start, in the image.
#[derive(Clone, Copy, Debug, PartialEq, Eq, Structural)]
pub struct Regions {
    pub files_start: usize,
    pub dictionary_start: usize,
    pub sections_start: usize,
    pub header_start: usize,
}

/// The regions that a trailer announces fit before it in an image of `len` bytes.
pub open spec fn regions_fit(len: int, h: PayloadHeader) -> bool {
    PAYLOAD_HEADER_SIZE + h.sections_size + h.dictionary_size + h.payload_size <= len
}

/// The regions of an image of `len` bytes whose trailer is `h`, counted backwards.
pub open spec fn regions_of(len: int, h: PayloadHeader) -> Regions {
    Regions {
        header_start: (len - PAYLOAD_HEADER_SIZE) as usize,
        sections_start: (len - PAYLOAD_HEADER_SIZE - h.sections_size) as usize,
        dictionary_start: (len - PAYLOAD_HEADER_SIZE - h.sections_size
            - h.dictionary_size) as usize,
        files_start: (len - PAYLOAD_HEADER_SIZE - h.sections_size - h.dictionary_size
            - h.payload_size) as usize,
    }
}

/// Lays out the regions of an image of `len` bytes whose trailer is `h`.
pub fn payload_regions(len: usize, h: &PayloadHeader) -> (r: Option<Regions>)
    requires
        len >= PAYLOAD_HEADER_SIZE,
    ensures
        r is Some <==> regions_fit(len as int, *h),
        r matches Some(g) ==> g == regions_of(len as int, *h),
{
    let header_start = len - PAYLOAD_HEADER_SIZE;
    if h.sections_size > header_start as u64 {
        return None;
    }
    let sections_start = header_start - h.sections_size as usize;
    if h.dictionary_size > sections_start as u64 {
        return None;
    }
    let dictionary_start = sections_start - h.dictionary_size as usize;
    if h.payload_size > dictionary_start as u64 {
        return None;
    }
    let files_start = dictionary_start - h.payload_size as usize;
    Some(Regions { files_start, dictionary_start, sections_start, header_start })
}

/// Path of directory `k` relative to the unpack directory; 0 is the unpack
/// directory itself and record `k - 1` describes directory `k`.
pub open spec fn dir_path(dirs: Seq<DirectorySection>, k: int) -> Seq<Seq<u8>>
    decreases k,
{
    if k <= 0 || k > dirs.len() {
        Seq::empty()
    } else if dirs[k - 1].parent < k {
        dir_path(dirs, dirs[k - 1].parent as int) + seq![text_of(dirs[k - 1].name@)]
    } else {
        Seq::empty()
    }
}

/// Each directory's parent comes before it.
pub open spec fn directories_ordered(dirs: Seq<DirectorySection>) -> bool {
    forall|k: int| 0 <= k < dirs.len() ==> (#[trigger] dirs[k]).parent <= k
}

/// The paths of all directories, the unpack directory first.
pub open spec fn tree_of(dirs: Seq<DirectorySection>) -> Seq<Seq<Seq<u8>>> {
    Seq::new((dirs.len() + 1) as nat, |k: int| dir_path(dirs, k))
}

/// Rebuilds the path of every directory; `None` where a directory's parent
/// does not come before it.
pub fn directory_paths(dirs: &Vec<DirectorySection>) -> (r: Option<Vec<Vec<Vec<u8>>>>)
    ensures
        r is Some <==> directories_ordered(dirs@),
        r matches Some(p) ==> p@.map_values(|q: Vec<Vec<u8>>| path_view(&q)) == tree_of(dirs@),
{
    let mut paths: Vec<Vec<Vec<u8>>> = Vec::new();
    paths.push(Vec::new());
    let mut k: usize = 0;
    while k < dirs.len()
        invariant
            k <= dirs@.len(),
            paths@.len() == k + 1,
            forall|j: int| 0 <= j <= k ==> path_view(&#[trigger] paths@[j]) == dir_path(dirs@, j),
            forall|j: int| 0 <= j < k ==> (#[trigger] dirs@[j]).parent <= j,
        decreases dirs@.len() - k,
    {
        let parent = dirs[k].parent as usize;
        if parent > k {
            assert(!directories_ordered(dirs@)) by {
                assert(dirs@[k as int].parent > k);
            }
            return None;
        }
        let mut path = copy_path(&paths[parent]);
        let ghost prefix = path_view(&path);
        assert(prefix == dir_path(dirs@, parent as int));
        let name = field_text(array_as_slice(&dirs[k].name));
        path.push(name);
        assert(path_view(&path) =~= prefix.push(text_of(dirs@[k as int].name@)));
        assert(path_view(&path) =~= dir_path(dirs@, k + 1));
        paths.push(path);
        k = k + 1;
    }
    assert(paths@.map_values(|q: Vec<Vec<u8>>| path_view(&q)) =~= tree_of(dirs@));
    Some(paths)
}

/// A symlink record refers to a directory of `t` (kind 0) or a file of `t`
/// (kind 1), from a directory of `t`.
pub open spec fn link_valid(t: TableView, l: SymlinkSection) -> bool {
    &&& l.parent <= t.directories.len()
    &&& (l.kind == 0 && l.target <= t.directories.len()) || (l.kind == 1 && l.target
        < t.files.len())
}

/// Every record refers to what is there, and every file's bytes lie in the
/// payload blob.
pub open spec fn references_valid(t: TableView, payload_size: u64) -> bool {
    &&& forall|i: int|
        0 <= i < t.files.len() ==> (#[trigger] t.files[i]).parent <= t.directories.len()
            && t.files[i].position + t.files[i].size <= payload_size
    &&& forall|i: int| 0 <= i < t.symlinks.len() ==> link_valid(t, #[trigger] t.symlinks[i])
}

/// Whether every record of `t` refers to what is there.
pub fn check_references(t: &SectionTable, payload_size: u64) -> (r: bool)
    ensures
        r == references_valid(t@, payload_size),
{
    let nd = t.directories.len();
    let nf = t.files.len();
    let mut i: usize = 0;
    while i < nf
        invariant
            nd == t.directories@.len(),
            nf == t.files@.len(),
            i <= nf,
            forall|j: int|
                0 <= j < i ==> (#[trigger] t@.files[j]).parent <= t@.directories.len()
                    && t@.files[j].position + t@.files[j].size <= payload_size,
        decreases nf - i,
    {
        let f = &t.files[i];
        if f.parent as usize > nd || f.position > payload_size || f.size > payload_size
            - f.position {
            assert(!references_valid(t@, payload_size)) by {
                assert(t@.files[i as int] == *f);
            }
            return false;
        }
        i = i + 1;
    }
    let mut i: usize = 0;
    while i < t.symlinks.len()
        invariant
            nd == t.directories@.len(),
            nf == t.files@.len(),
            i <= t.symlinks@.len(),
            forall|j: int| 0 <= j < i ==> link_valid(t@, #[trigger] t@.symlinks[j]),
        decreases t.symlinks@.len() - i,
    {
        let l = &t.symlinks[i];
        let target_ok = (l.kind == 0 && l.target as usize <= nd) || (l.kind == 1 && (l.target
            as usize) < nf);
        if l.parent as usize > nd || !target_ok {
            assert(!references_valid(t@, payload_size)) by {
                assert(t@.symlinks[i as int] == *l);
            }
            return false;
        }
        i = i + 1;
    }
    true
}


/// An opened payload: its trailer, its regions, its table and its tree.
pub struct Payload {
    pub header: PayloadHeader,
    pub regions: Regions,
    pub table: SectionTable,
    pub paths: Vec<Vec<Vec<u8>>>,
}

/// What an opened payload holds.
pub struct PayloadView {
    pub header: PayloadHeader,
    pub regions: Regions,
    pub table: TableView,
    pub paths: Seq<Seq<Seq<u8>>>,
}

impl View for Payload {
    type V = PayloadView;

    open spec fn view(&self) -> PayloadView {
        PayloadView {
            header: self.header,
            regions: self.regions,
            table: self.table@,
            paths: self.paths@.map_values(|q: Vec<Vec<u8>>| path_view(&q)),
        }
    }
}

impl PayloadView {
    /// The tree matches the table and every reference of the table holds.
    pub open spec fn wf(&self) -> bool {
        &&& self.paths == tree_of(self.table.directories)
        &&& directories_ordered(self.table.directories)
        &&& references_valid(self.table, self.header.payload_size)
        &&& self.regions.dictionary_start == self.regions.files_start + self.header.payload_size
        &&& self.regions.sections_start == self.regions.dictionary_start
            + self.header.dictionary_size
        &&& self.regions.header_start == self.regions.sections_start + self.header.sections_size
    }

    /// Path of file `i` relative to the unpack directory.
    pub open spec fn file_path(&self, i: int) -> Seq<Seq<u8>> {
        self.paths[self.table.files[i].parent as int].push(text_of(self.table.files[i].name@))
    }

    /// Path of symlink `i` relative to the unpack directory.
    pub open spec fn link_path(&self, i: int) -> Seq<Seq<u8>> {
        self.paths[self.table.symlinks[i].parent as int].push(
            text_of(self.table.symlinks[i].name@),
        )
    }

    /// Path, relative to the unpack directory, that symlink `i` points to.
    pub open spec fn link_target(&self, i: int) -> Seq<Seq<u8>> {
        let l = self.table.symlinks[i];
        if l.kind == 0 {
            self.paths[l.target as int]
        } else {
            self.file_path(l.target as int)
        }
    }
}

/// The trailer at the end of an image.
pub open spec fn trailer_of(image: Seq<u8>) -> PayloadHeader {
    PayloadHeader::decode(image.subrange(image.len() - PAYLOAD_HEADER_SIZE, image.len() as int))
}

/// The table that `bytes` hold, with the counts of `h`.
pub open spec fn table_of(bytes: Seq<u8>, h: PayloadHeader) -> TableView {
    choose|t: TableView|
        t.has_counts(
            h.directory_sections as int,
            h.file_sections as int,
            h.symlink_sections as int,
        ) && t.encode() == bytes
}

/// The compressed section table of an image.
pub open spec fn sections_of(image: Seq<u8>, g: Regions) -> Seq<u8> {
    image.subrange(g.sections_start as int, g.header_start as int)
}

/// The dictionary region of an image; empty where there is none.
pub open spec fn dictionary_of(image: Seq<u8>, g: Regions) -> Seq<u8> {
    image.subrange(g.dictionary_start as int, g.sections_start as int)
}

/// What reading the payload at the end of `image` gives: the image ends
/// with the trailer, so it excludes the starter record.
pub open spec fn payload_of(image: Seq<u8>) -> Result<PayloadView, PayloadError> {
    if image.len() < PAYLOAD_HEADER_SIZE {
        Err(PayloadError::TooSmall)
    } else {
        let h = trailer_of(image);
        if !regions_fit(image.len() as int, h) {
            Err(PayloadError::Truncated)
        } else {
            let g = regions_of(image.len() as int, h);
            match zstd_decoded(Seq::empty(), sections_of(image, g)) {
                None => Err(PayloadError::SectionsUndecodable),
                Some(bytes) => {
                    if bytes.len() != table_size(
                        h.directory_sections as int,
                        h.file_sections as int,
                        h.symlink_sections as int,
                    ) {
                        Err(PayloadError::TableSize)
                    } else if package_hash(bytes) != h.section_hash {
                        Err(PayloadError::SectionHash)
                    } else {
                        let t = table_of(bytes, h);
                        if !directories_ordered(t.directories) {
                            Err(PayloadError::DirectoryOrder)
                        } else if !references_valid(t, h.payload_size) {
                            Err(PayloadError::BadReference)
                        } else {
                            Ok(
                                PayloadView {
                                    header: h,
                                    regions: g,
                                    table: t,
                                    paths: tree_of(t.directories),
                                },
                            )
                        }
                    }
                },
            }
        }
    }
}

/// Reads the payload at the end of `image`: trailer, regions, section
/// table (checked against its hash) and the tree of directory paths.
pub fn open_payload(image: &[u8]) -> (r: Result<Payload, PayloadError>)
    ensures
        r matches Ok(p) ==> payload_of(image@) == Ok::<PayloadView, PayloadError>(p@) && p@.wf(),
        r matches Err(e) ==> payload_of(image@) == Err::<PayloadView, PayloadError>(e),
{
    let len = image.len();
    if len < PAYLOAD_HEADER_SIZE {
        return Err(PayloadError::TooSmall);
    }
    let header = PayloadHeader::from_bytes(&image[len - PAYLOAD_HEADER_SIZE..len]);
    let regions = match payload_regions(len, &header) {
        Some(g) => g,
        None => {
            return Err(PayloadError::Truncated);
        },
    };
    let no_dictionary: Vec<u8> = Vec::new();
    assert(no_dictionary@ =~= Seq::<u8>::empty());
    let bytes = match decode_frame(
        no_dictionary.as_slice(),
        &image[regions.sections_start..regions.header_start],
    ) {
        Some(b) => b,
        None => {
            return Err(PayloadError::SectionsUndecodable);
        },
    };
    let table = match parse_table(
        bytes.as_slice(),
        header.directory_sections,
        header.file_sections,
        header.symlink_sections,
    ) {
        Some(t) => t,
        None => {
            return Err(PayloadError::TableSize);
        },
    };
    if hash_bytes(bytes.as_slice()) != header.section_hash {
        return Err(PayloadError::SectionHash);
    }
    proof {
        let t = table_of(bytes@, header);
        assert(table@.has_counts(
            header.directory_sections as int,
            header.file_sections as int,
            header.symlink_sections as int,
        ) && table@.encode() == bytes@);
        lemma_table_injective(t, table@);
    }
    let paths = match directory_paths(&table.directories) {
        Some(p) => p,
        None => {
            return Err(PayloadError::DirectoryOrder);
        },
    };
    if !check_references(&table, header.payload_size) {
        return Err(PayloadError::BadReference);
    }
    let p = Payload { header, regions, table, paths };
    assert(p@.paths =~= tree_of(p@.table.directories));
    Ok(p)
}

/// A payload read from an image is well formed and ends where the image does.
pub proof fn lemma_payload_wf(image: Seq<u8>)
    requires
        image.len() <= usize::MAX,
    ensures
        payload_of(image) matches Ok(p) ==> p.wf() && p.regions.header_start + PAYLOAD_HEADER_SIZE
            == image.len(),
{
    if image.len() >= PAYLOAD_HEADER_SIZE {
        let h = trailer_of(image);
        if regions_fit(image.len() as int, h) {
            let g = regions_of(image.len() as int, h);
            assert(g.header_start == image.len() - PAYLOAD_HEADER_SIZE);
            assert(g.sections_start == g.header_start - h.sections_size);
            assert(g.dictionary_start == g.sections_start - h.dictionary_size);
            assert(g.files_start == g.dictionary_start - h.payload_size);
        }
    }
}

/// Why a file's bytes cannot be unpacked.
#[derive(Clone, Copy, Debug, PartialEq, Eq, Structural)]
pub enum UnpackError {
    /// The compressed bytes do not hash to the record's compressed hash.
    CompressedHash,
    /// The compressed bytes are not a valid zstd frame.
    Undecodable,
}

/// The compressed bytes of file `i` in `image`.
pub open spec fn compressed_of(image: Seq<u8>, p: PayloadView, i: int) -> Seq<u8> {
    let f = p.table.files[i];
    image.subrange(
        p.regions.files_start + f.position,
        p.regions.files_start + f.position + f.size,
    )
}

/// Decompresses file `i` of the payload opened from `image`, after checking
/// its compressed bytes against their hash.
pub fn unpack_file(image: &[u8], payload: &Payload, i: usize) -> (r: Result<Vec<u8>, UnpackError>)
    requires
        payload_of(image@) == Ok::<PayloadView, PayloadError>(payload@),
        i < payload.table.files@.len(),
    ensures
        ({
            let c = compressed_of(image@, payload@, i as int);
            let d = dictionary_of(image@, payload@.regions);
            &&& package_hash(c) != payload@.table.files[i as int].compressed_hash ==> r == Err::<
                Vec<u8>,
                UnpackError,
            >(UnpackError::CompressedHash)
            &&& package_hash(c) == payload@.table.files[i as int].compressed_hash ==> match r {
                Ok(v) => zstd_decoded(d, c) == Some(v@),
                Err(e) => e == UnpackError::Undecodable && zstd_decoded(d, c) is None,
            }
        }),
{
    let n = image.len();
    proof { lemma_payload_wf(image@); }
    let f = &payload.table.files[i];
    assert(payload@.table.files[i as int] == *f);
    let start = payload.regions.files_start + f.position as usize;
    let end = start + f.size as usize;
    let content = &image[start..end];
    if hash_bytes(content) != f.compressed_hash {
        return Err(UnpackError::CompressedHash);
    }
    let dictionary = &image[payload.regions.dictionary_start..payload.regions.sections_start];
    match decode_frame(dictionary, content) {
        Some(v) => Ok(v),
        None => Err(UnpackError::Undecodable),
    }
}


impl Payload {
    proof fn lemma_paths(&self)
        requires
            self@.wf(),
        ensures
            self.paths@.len() == self.table.directories@.len() + 1,
            forall|j: int|
                0 <= j < self.paths@.len() ==> path_view(&#[trigger] self.paths@[j])
                    == self@.paths[j],
    {
        assert(self@.paths.len() == self.paths@.len());
    }

    /// Path of file `i` relative to the unpack directory.
    pub fn file_path(&self, i: usize) -> (r: Vec<Vec<u8>>)
        requires
            self@.wf(),
            i < self.table.files@.len(),
        ensures
            path_view(&r) == self@.file_path(i as int),
    {
        let f = &self.table.files[i];
        assert(self@.table.files[i as int] == *f);
        proof { self.lemma_paths(); }
        let mut r = copy_path(&self.paths[f.parent as usize]);
        let ghost prefix = path_view(&r);
        r.push(field_text(array_as_slice(&f.name)));
        assert(path_view(&r) =~= prefix.push(text_of(f.name@)));
        r
    }

    /// Path of symlink `i` relative to the unpack directory.
    pub fn link_path(&self, i: usize) -> (r: Vec<Vec<u8>>)
        requires
            self@.wf(),
            i < self.table.symlinks@.len(),
        ensures
            path_view(&r) == self@.link_path(i as int),
    {
        let l = &self.table.symlinks[i];
        assert(self@.table.symlinks[i as int] == *l);
        assert(link_valid(self@.table, *l));
        proof { self.lemma_paths(); }
        let mut r = copy_path(&self.paths[l.parent as usize]);
        let ghost prefix = path_view(&r);
        r.push(field_text(array_as_slice(&l.name)));
        assert(path_view(&r) =~= prefix.push(text_of(l.name@)));
        r
    }

    /// Path, relative to the unpack directory, that symlink `i` points to.
    pub fn link_target(&self, i: usize) -> (r: Vec<Vec<u8>>)
        requires
            self@.wf(),
            i < self.table.symlinks@.len(),
        ensures
            path_view(&r) == self@.link_target(i as int),
    {
        let l = &self.table.symlinks[i];
        assert(self@.table.symlinks[i as int] == *l);
        assert(link_valid(self@.table, *l));
        proof { self.lemma_paths(); }
        if l.kind == 0 {
            copy_path(&self.paths[l.target as usize])
        } else {
            self.file_path(l.target as usize)
        }
    }
}

} // verus!
