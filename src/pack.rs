//! The packer's logic: indexing the walked tree, making the records, and
//! closing a payload with its section table and trailer.

use crate::codec::{encode_frame, zstd_decoded, zstd_encoded};
use crate::container::{
    dictionary_of, dir_path, directories_ordered, payload_of, references_valid, regions_of, sections_of,
    table_of, trailer_of, tree_of,
};
use crate::digest::{hash_bytes, package_hash};
use crate::format::{
    lemma_payload_header_round_trip, DirectorySection, FileSectionHeader, PayloadHeader,
    SymlinkSection, NAME_SIZE, PAYLOAD_HEADER_SIZE,
};
use crate::table::{lemma_encode_lengths, lemma_table_injective, SectionTable, TableView};
use crate::text::{copy_path, fixed_field, lemma_padded_text, no_nul, padded, path_view, same_path, text_of};
use vstd::prelude::*;

verus! {

/// A name that fits a name field: shorter than the field and without NUL.
pub open spec fn valid_name(name: Seq<u8>) -> bool {
    name.len() < NAME_SIZE && no_nul(name)
}

/// Whether `name` fits a name field.
pub fn is_valid_name(name: &[u8]) -> (r: bool)
    ensures
        r == valid_name(name@),
{
    if name.len() >= NAME_SIZE {
        return false;
    }
    let mut i: usize = 0;
    while i < name.len()
        invariant
            i <= name@.len(),
            forall|k: int| 0 <= k < i ==> name@[k] != 0u8,
        decreases name@.len() - i,
    {
        if name[i] == 0u8 {
            return false;
        }
        i = i + 1;
    }
    true
}

/// Index of the first path of `paths` equal to `p`.
pub open spec fn first_index(paths: Seq<Seq<Seq<u8>>>, p: Seq<Seq<u8>>, i: int) -> bool {
    0 <= i < paths.len() && paths[i] == p && forall|j: int| 0 <= j < i ==> paths[j] != p
}

/// The view of a list of paths.
pub open spec fn paths_view(paths: &Vec<Vec<Vec<u8>>>) -> Seq<Seq<Seq<u8>>> {
    paths@.map_values(|q: Vec<Vec<u8>>| path_view(&q))
}

/// Finds the first path of `paths` equal to `p`.
pub fn find_path(paths: &Vec<Vec<Vec<u8>>>, p: &Vec<Vec<u8>>) -> (r: Option<usize>)
    ensures
        r matches Some(i) ==> first_index(paths_view(paths), path_view(p), i as int),
        r is None ==> forall|j: int|
            0 <= j < paths@.len() ==> paths_view(paths)[j] != path_view(p),
{
    let mut i: usize = 0;
    while i < paths.len()
        invariant
            i <= paths@.len(),
            forall|j: int| 0 <= j < i ==> paths_view(paths)[j] != path_view(p),
        decreases paths@.len() - i,
    {
        if same_path(&paths[i], p) {
            return Some(i);
        }
        i = i + 1;
    }
    None
}

/// The directory index of a walked tree: the records and, beside them,
/// the path of each directory (the source itself first).
pub struct DirectoryIndex {
    pub directories: Vec<DirectorySection>,
    pub paths: Vec<Vec<Vec<u8>>>,
}

impl DirectoryIndex {
    /// The records rebuild exactly the paths beside them.
    pub open spec fn wf(&self) -> bool {
        &&& self.paths@.len() == self.directories@.len() + 1
        &&& directories_ordered(self.directories@)
        &&& forall|k: int|
            0 <= k < self.paths@.len() ==> #[trigger] paths_view(&self.paths)[k] == dir_path(
                self.directories@,
                k,
            )
    }
}

/// The parent of a relative path.
pub open spec fn parent_of(p: Seq<Seq<u8>>) -> Seq<Seq<u8>> {
    p.drop_last()
}

/// The paths kept when indexing `entries` in order: an entry is kept where
/// its name fits a name field and its parent was kept before it.
pub open spec fn kept_paths(entries: Seq<Seq<Seq<u8>>>) -> Seq<Seq<Seq<u8>>>
    decreases entries.len(),
{
    if entries.len() == 0 {
        seq![Seq::empty()]
    } else {
        let prev = kept_paths(entries.drop_last());
        let x = entries.last();
        if x.len() > 0 && valid_name(x.last()) && prev.contains(parent_of(x)) {
            prev.push(x)
        } else {
            prev
        }
    }
}

/// Indexes the walked directories, given in walk order as relative paths
/// (the source itself left out). A directory whose name does not fit a
/// name field is skipped, and so, through its parent, is all below it.
pub fn index_directories(entries: &Vec<Vec<Vec<u8>>>) -> (r: DirectoryIndex)
    requires
        entries@.len() < u32::MAX,
    ensures
        r.wf(),
        paths_view(&r.paths) == kept_paths(paths_view(entries)),
{
    let mut directories: Vec<DirectorySection> = Vec::new();
    let mut paths: Vec<Vec<Vec<u8>>> = Vec::new();
    paths.push(Vec::new());
    assert(paths_view(&paths)[0] =~= Seq::<Seq<u8>>::empty());
    assert(paths_view(entries).subrange(0, 0).len() == 0);
    assert(paths_view(&paths) =~= kept_paths(paths_view(entries).subrange(0, 0)));
    let mut e: usize = 0;
    while e < entries.len()
        invariant
            entries@.len() < u32::MAX,
            e <= entries@.len(),
            paths@.len() == directories@.len() + 1,
            paths@.len() <= e + 1,
            directories_ordered(directories@),
            forall|k: int|
                0 <= k < paths@.len() ==> #[trigger] paths_view(&paths)[k] == dir_path(
                    directories@,
                    k,
                ),
            paths_view(&paths) == kept_paths(paths_view(entries).subrange(0, e as int)),
        decreases entries@.len() - e,
    {
        let entry = &entries[e];
        let ghost all = paths_view(entries);
        assert(path_view(entry) == all[e as int]);
        assert(all.subrange(0, e + 1).drop_last() =~= all.subrange(0, e as int));
        assert(all.subrange(0, e + 1).last() == all[e as int]);
        let ghost before = paths_view(&paths);
        let ghost dirs_before = directories@;
        if entry.len() > 0 {
            let name = &entry[entry.len() - 1];
            assert(name@ == path_view(entry).last());
            if is_valid_name(name.as_slice()) {
                let mut parent = copy_path(entry);
                parent.pop();
                assert(path_view(&parent) =~= parent_of(path_view(entry)));
                match find_path(&paths, &parent) {
                    Some(p) => {
                        let field: [u8; NAME_SIZE] = match fixed_field(name.as_slice()) {
                            Some(a) => a,
                            None => {
                                return DirectoryIndex { directories, paths };
                            },
                        };
                        proof { lemma_padded_text(name@, NAME_SIZE as int); }
                        let d = DirectorySection { name: field, parent: p as u32 };
                        directories.push(d);
                        paths.push(copy_path(entry));
                        assert(paths_view(&paths) =~= before.push(path_view(entry)));
                        assert(directories@ =~= dirs_before.push(d));
                        proof {
                            assert(before.contains(parent_of(path_view(entry))));
                            assert forall|j: int| 0 <= j < paths@.len() implies #[trigger] paths_view(&paths)[j] == dir_path(directories@, j) by {
                                lemma_dir_path_extend(dirs_before, d, j);
                                if j == paths@.len() - 1 {
                                    assert(before[p as int] == parent_of(path_view(entry)));
                                    assert(path_view(entry) =~= parent_of(path_view(entry)).push(path_view(entry).last()));
                                } else {
                                    assert(paths_view(&paths)[j] == before[j]);
                                }
                            }
                        }
                    },
                    None => {
                        assert(!before.contains(parent_of(path_view(entry))));
                    },
                }
            }
        }
        e = e + 1;
    }
    assert(paths_view(entries).subrange(0, e as int) =~= paths_view(entries));
    DirectoryIndex { directories, paths }
}

/// Adding a directory record leaves the paths of the others as they were.
pub proof fn lemma_dir_path_extend(dirs: Seq<DirectorySection>, d: DirectorySection, j: int)
    requires
        0 <= j <= dirs.len() + 1,
        d.parent <= dirs.len(),
    ensures
        j <= dirs.len() ==> dir_path(dirs.push(d), j) == dir_path(dirs, j),
        j == dirs.len() + 1 ==> dir_path(dirs.push(d), j) == dir_path(dirs, d.parent as int).push(
            text_of(d.name@),
        ),
    decreases j,
{
    let e = dirs.push(d);
    if 0 < j <= dirs.len() {
        assert(e[j - 1] == dirs[j - 1]);
        if dirs[j - 1].parent < j {
            lemma_dir_path_extend(dirs, d, dirs[j - 1].parent as int);
        }
    } else if j == dirs.len() + 1 {
        lemma_dir_path_extend(dirs, d, d.parent as int);
    }
}


/// Metadata kept for a file or symlink.
#[derive(Clone, Copy, Debug, PartialEq, Eq, Structural)]
pub struct Metadata {
    pub accessed_seconds: u64,
    pub accessed_nanos: u32,
    pub modified_seconds: u64,
    pub modified_nanos: u32,
    pub mode: u32,
    pub readonly: bool,
}

/// Where a walked entry at `path` goes: its name fits a name field and its
/// parent directory was indexed.
pub open spec fn placeable(parents: Seq<Seq<Seq<u8>>>, path: Seq<Seq<u8>>) -> bool {
    path.len() > 0 && valid_name(path.last()) && parents.contains(parent_of(path))
}

/// Name field and parent index of an entry at `path`.
fn place(parents: &Vec<Vec<Vec<u8>>>, path: &Vec<Vec<u8>>) -> (r: Option<([u8; NAME_SIZE], u32)>)
    requires
        parents@.len() <= u32::MAX,
    ensures
        r is Some <==> placeable(paths_view(parents), path_view(path)),
        r matches Some((name, parent)) ==> name@ == padded(path_view(path).last(), NAME_SIZE as int)
            && first_index(paths_view(parents), parent_of(path_view(path)), parent as int),
{
    if path.len() == 0 {
        return None;
    }
    let name = &path[path.len() - 1];
    assert(name@ == path_view(path).last());
    if !is_valid_name(name.as_slice()) {
        return None;
    }
    let mut parent = copy_path(path);
    parent.pop();
    assert(path_view(&parent) =~= parent_of(path_view(path)));
    match find_path(parents, &parent) {
        Some(p) => match fixed_field(name.as_slice()) {
            Some(field) => Some((field, p as u32)),
            None => None,
        },
        None => {
            assert(!paths_view(parents).contains(parent_of(path_view(path))));
            None
        },
    }
}

/// The record of a file at `path` whose packed bytes lie at `position` in
/// the payload blob; `None` where the file is skipped.
pub fn file_record(
    parents: &Vec<Vec<Vec<u8>>>,
    path: &Vec<Vec<u8>>,
    position: u64,
    size: u64,
    file_hash: u64,
    compressed_hash: u64,
    meta: &Metadata,
) -> (r: Option<FileSectionHeader>)
    requires
        parents@.len() <= u32::MAX,
    ensures
        r is Some <==> placeable(paths_view(parents), path_view(path)),
        r matches Some(f) ==> {
            &&& f.name@ == padded(path_view(path).last(), NAME_SIZE as int)
            &&& first_index(paths_view(parents), parent_of(path_view(path)), f.parent as int)
            &&& f.position == position && f.size == size
            &&& f.file_hash == file_hash && f.compressed_hash == compressed_hash
            &&& f.time_accessed_seconds == meta.accessed_seconds
            &&& f.time_accessed_nanos == meta.accessed_nanos
            &&& f.time_modified_seconds == meta.modified_seconds
            &&& f.time_modified_nanos == meta.modified_nanos
            &&& f.mode == meta.mode
            &&& f.readonly == if meta.readonly {
                1u8
            } else {
                0u8
            }
        },
{
    match place(parents, path) {
        None => None,
        Some((name, parent)) => Some(
            FileSectionHeader {
                position,
                size,
                name,
                file_hash,
                compressed_hash,
                time_accessed_seconds: meta.accessed_seconds,
                time_modified_seconds: meta.modified_seconds,
                parent,
                mode: meta.mode,
                time_accessed_nanos: meta.accessed_nanos,
                time_modified_nanos: meta.modified_nanos,
                readonly: if meta.readonly {
                    1u8
                } else {
                    0u8
                },
            },
        ),
    }
}

/// The record of a symlink at `path` whose target, inside the source, is
/// the file or directory at `target`; `None` where the symlink is skipped
/// or its target was not packed. `files` holds the paths of the file
/// records in order.
pub fn symlink_record(
    parents: &Vec<Vec<Vec<u8>>>,
    files: &Vec<Vec<Vec<u8>>>,
    path: &Vec<Vec<u8>>,
    target: &Vec<Vec<u8>>,
    target_is_file: bool,
    meta: &Metadata,
) -> (r: Option<SymlinkSection>)
    requires
        parents@.len() <= u32::MAX,
        files@.len() <= u32::MAX,
    ensures
        r is Some <==> placeable(paths_view(parents), path_view(path)) && if target_is_file {
            paths_view(files).contains(path_view(target))
        } else {
            paths_view(parents).contains(path_view(target))
        },
        r matches Some(l) ==> {
            &&& l.name@ == padded(path_view(path).last(), NAME_SIZE as int)
            &&& first_index(paths_view(parents), parent_of(path_view(path)), l.parent as int)
            &&& l.kind == if target_is_file {
                1u8
            } else {
                0u8
            }
            &&& first_index(
                if target_is_file {
                    paths_view(files)
                } else {
                    paths_view(parents)
                },
                path_view(target),
                l.target as int,
            )
            &&& l.time_accessed_seconds == meta.accessed_seconds
            &&& l.time_accessed_nanos == meta.accessed_nanos
            &&& l.time_modified_seconds == meta.modified_seconds
            &&& l.time_modified_nanos == meta.modified_nanos
            &&& l.mode == meta.mode
            &&& l.readonly == if meta.readonly {
                1u8
            } else {
                0u8
            }
        },
{
    let (name, parent) = match place(parents, path) {
        None => {
            return None;
        },
        Some(x) => x,
    };
    let found = if target_is_file {
        find_path(files, target)
    } else {
        find_path(parents, target)
    };
    match found {
        None => {
            assert(!(if target_is_file {
                paths_view(files)
            } else {
                paths_view(parents)
            }).contains(path_view(target)));
            None
        },
        Some(t) => Some(
            SymlinkSection {
                name,
                parent,
                target: t as u32,
                time_accessed_seconds: meta.accessed_seconds,
                time_modified_seconds: meta.modified_seconds,
                time_accessed_nanos: meta.accessed_nanos,
                time_modified_nanos: meta.modified_nanos,
                mode: meta.mode,
                kind: if target_is_file {
                    1u8
                } else {
                    0u8
                },
                readonly: if meta.readonly {
                    1u8
                } else {
                    0u8
                },
            },
        ),
    }
}

/// A file's contents packed for the payload blob.
pub struct PackedFile {
    pub data: Vec<u8>,
    pub file_hash: u64,
    pub compressed_hash: u64,
}

/// Packs a file's contents: one zstd frame at `level` (with `dictionary`
/// where it is not empty), with the hashes of the contents and of the frame.
pub fn pack_contents(contents: &[u8], level: i32, dictionary: &[u8]) -> (r: Option<PackedFile>)
    ensures
        r is Some <==> zstd_encoded(level, dictionary@, contents@) is Some,
        r matches Some(p) ==> {
            &&& zstd_encoded(level, dictionary@, contents@) == Some(p.data@)
            &&& zstd_decoded(dictionary@, p.data@) == Some(contents@)
            &&& p.file_hash == package_hash(contents@)
            &&& p.compressed_hash == package_hash(p.data@)
        },
{
    let data = match encode_frame(level, dictionary, contents) {
        Some(d) => d,
        None => {
            return None;
        },
    };
    let file_hash = hash_bytes(contents);
    let compressed_hash = hash_bytes(data.as_slice());
    Some(PackedFile { data, file_hash, compressed_hash })
}

/// The trailer of a payload whose table is `t`, after a dictionary of
/// `dictionary_size` bytes and a compressed table of `sections_size` bytes.
pub open spec fn trailer_for(
    t: TableView,
    dictionary_size: int,
    payload_size: int,
    sections_size: int,
) -> PayloadHeader {
    PayloadHeader {
        directory_sections: t.directories.len() as u64,
        file_sections: t.files.len() as u64,
        symlink_sections: t.symlinks.len() as u64,
        dictionary_size: dictionary_size as u64,
        section_hash: package_hash(t.encode()),
        payload_size: payload_size as u64,
        sections_size: sections_size as u64,
        kind: 0,
    }
}

/// Closes a payload whose blob holds `payload_size` bytes: the bytes to
/// append after the blob are the dictionary, the compressed section table
/// and the trailer.
pub fn finish_payload(table: &SectionTable, dictionary: &[u8], payload_size: u64, level: i32) -> (r:
    Option<Vec<u8>>)
    ensures
        r is Some <==> zstd_encoded(level, Seq::empty(), table@.encode()) is Some,
        r matches Some(b) ==> exists|c: Seq<u8>|
            {
                &&& zstd_encoded(level, Seq::empty(), table@.encode()) == Some(c)
                &&& zstd_decoded(Seq::empty(), c) == Some(table@.encode())
                &&& b@ == dictionary@ + c + trailer_for(
                    table@,
                    dictionary@.len() as int,
                    payload_size as int,
                    c.len() as int,
                ).encode()
            },
{
    let bytes = table.to_bytes();
    let no_dictionary: Vec<u8> = Vec::new();
    assert(no_dictionary@ =~= Seq::<u8>::empty());
    let compressed = match encode_frame(level, no_dictionary.as_slice(), bytes.as_slice()) {
        Some(c) => c,
        None => {
            return None;
        },
    };
    let header = PayloadHeader {
        directory_sections: table.directories.len() as u64,
        file_sections: table.files.len() as u64,
        symlink_sections: table.symlinks.len() as u64,
        dictionary_size: dictionary.len() as u64,
        section_hash: hash_bytes(bytes.as_slice()),
        payload_size,
        sections_size: compressed.len() as u64,
        kind: 0,
    };
    let mut out: Vec<u8> = Vec::new();
    out.extend_from_slice(dictionary);
    out.extend_from_slice(compressed.as_slice());
    out.extend_from_slice(header.to_bytes().as_slice());
    assert(out@ =~= dictionary@ + compressed@ + header.encode());
    Some(out)
}

/// A payload closed by `finish_payload` opens again: after any prefix, a
/// blob of `blob_len` bytes, the dictionary, a frame of the table and the
/// trailer, the runner reads back the same table, tree and dictionary.
pub proof fn lemma_payload_round_trip(
    prefix_len: int,
    blob_len: int,
    dictionary: Seq<u8>,
    c: Seq<u8>,
    t: TableView,
    image: Seq<u8>,
)
    requires
        0 <= prefix_len,
        0 <= blob_len <= u64::MAX,
        zstd_decoded(Seq::empty(), c) == Some(t.encode()),
        directories_ordered(t.directories),
        references_valid(t, blob_len as u64),
        t.directories.len() <= u64::MAX && t.files.len() <= u64::MAX && t.symlinks.len() <= u64::MAX,
        image.len() <= usize::MAX,
        image.len() == prefix_len + blob_len + dictionary.len() + c.len() + PAYLOAD_HEADER_SIZE,
        image.subrange(prefix_len + blob_len, image.len() as int) == dictionary + c + trailer_for(
            t,
            dictionary.len() as int,
            blob_len,
            c.len() as int,
        ).encode(),
    ensures
        payload_of(image) matches Ok(p) && p.table == t && p.paths == tree_of(t.directories)
            && p.regions.files_start == prefix_len && dictionary_of(image, p.regions) == dictionary
            && p.header == trailer_for(t, dictionary.len() as int, blob_len, c.len() as int),
{
    let h = trailer_for(t, dictionary.len() as int, blob_len, c.len() as int);
    let tail = dictionary + c + h.encode();
    let start = prefix_len + blob_len;
    lemma_payload_header_round_trip(h, Seq::empty());
    assert(image.subrange(image.len() - PAYLOAD_HEADER_SIZE, image.len() as int) =~= tail.subrange(
        tail.len() - PAYLOAD_HEADER_SIZE,
        tail.len() as int,
    ));
    assert(tail.subrange(tail.len() - PAYLOAD_HEADER_SIZE, tail.len() as int) =~= h.encode());
    assert(trailer_of(image) == h);
    let g = regions_of(image.len() as int, h);
    assert(sections_of(image, g) =~= tail.subrange(
        dictionary.len() as int,
        (dictionary.len() + c.len()) as int,
    ));
    assert(tail.subrange(dictionary.len() as int, (dictionary.len() + c.len()) as int) =~= c);
    assert(dictionary_of(image, g) =~= tail.subrange(0, dictionary.len() as int));
    assert(tail.subrange(0, dictionary.len() as int) =~= dictionary);
    lemma_encode_lengths(t);
    let bytes = t.encode();
    assert(t.has_counts(
        h.directory_sections as int,
        h.file_sections as int,
        h.symlink_sections as int,
    ) && t.encode() == bytes);
    lemma_table_injective(table_of(bytes, h), t);
}


/// Largest dictionary to train, and the most read of each sample file.
pub const DICTIONARY_SIZE: usize = 131072;

/// Fewest samples a dictionary is trained from.
pub const MIN_SAMPLES: usize = 8;

/// Sample bytes after which no more files are sampled: 4 GiB less 128 KiB.
pub const SAMPLE_LIMIT: u64 = 4294836224;

/// Whether sampling stops, with `collected` bytes sampled so far.
pub fn sampling_done(collected: u64) -> (r: bool)
    ensures
        r == (collected >= SAMPLE_LIMIT),
{
    collected >= SAMPLE_LIMIT
}

/// The dictionary that zstd trains from `samples` laid end to end, with
/// the given sizes, of at most `max_size` bytes.
pub uninterp spec fn zstd_trained(samples: Seq<u8>, sizes: Seq<usize>, max_size: usize) -> Option<
    Seq<u8>,
>;

/// Relies on zstd's `dict::from_continuous`.
#[verifier::external_body]
fn train(samples: &[u8], sizes: &[usize], max_size: usize) -> (r: Option<Vec<u8>>)
    ensures
        r matches Some(d) ==> zstd_trained(samples@, sizes@, max_size) == Some(d@),
        r is None ==> zstd_trained(samples@, sizes@, max_size) is None,
{
    zstd::dict::from_continuous(samples, sizes, max_size).ok()
}

/// Samples laid end to end.
pub open spec fn concat(samples: Seq<Seq<u8>>) -> Seq<u8>
    decreases samples.len(),
{
    if samples.len() == 0 {
        Seq::empty()
    } else {
        concat(samples.drop_last()) + samples.last()
    }
}

/// Trains a dictionary from samples; `None` with fewer than `MIN_SAMPLES`.
pub fn build_dictionary(samples: &Vec<Vec<u8>>) -> (r: Option<Vec<u8>>)
    ensures
        samples@.len() < MIN_SAMPLES ==> r is None,
        samples@.len() >= MIN_SAMPLES ==> {
            let s = samples@.map_values(|v: Vec<u8>| v@);
            let sizes = samples@.map_values(|v: Vec<u8>| v@.len() as usize);
            match r {
                Some(d) => zstd_trained(concat(s), sizes, DICTIONARY_SIZE) == Some(d@),
                None => zstd_trained(concat(s), sizes, DICTIONARY_SIZE) is None,
            }
        },
{
    if samples.len() < MIN_SAMPLES {
        return None;
    }
    let ghost s = samples@.map_values(|v: Vec<u8>| v@);
    let ghost lens = samples@.map_values(|v: Vec<u8>| v@.len() as usize);
    let mut data: Vec<u8> = Vec::new();
    let mut sizes: Vec<usize> = Vec::new();
    let mut i: usize = 0;
    while i < samples.len()
        invariant
            i <= samples@.len(),
            s == samples@.map_values(|v: Vec<u8>| v@),
            lens == samples@.map_values(|v: Vec<u8>| v@.len() as usize),
            data@ == concat(s.subrange(0, i as int)),
            sizes@ == lens.subrange(0, i as int),
        decreases samples@.len() - i,
    {
        data.extend_from_slice(samples[i].as_slice());
        sizes.push(samples[i].len());
        i = i + 1;
        assert(s.subrange(0, i as int).drop_last() =~= s.subrange(0, i - 1));
        assert(sizes@ =~= lens.subrange(0, i as int));
    }
    assert(s.subrange(0, i as int) =~= s);
    assert(lens.subrange(0, i as int) =~= lens);
    train(data.as_slice(), sizes.as_slice(), DICTIONARY_SIZE)
}

/// Files larger than this are encoded through a scratch file: the
/// machine's memory per CPU, times 1000 (at most `u64::MAX`).
pub fn in_memory_limit(total_memory: u64, cpus: u64) -> (r: u64)
    requires
        cpus > 0,
    ensures
        r as int == if (total_memory / cpus) * 1000 > u64::MAX {
            u64::MAX as int
        } else {
            (total_memory / cpus) * 1000
        },
{
    let per_cpu = total_memory / cpus;
    if per_cpu > u64::MAX / 1000 {
        u64::MAX
    } else {
        per_cpu * 1000
    }
}

/// Encoder threads for a large file of `size` bytes: half the CPUs, or
/// fewer for a file not much above the limit (at most `u32::MAX`).
pub fn encoder_threads(cpus: u64, size: u64, limit: u64) -> (r: u32)
    requires
        limit > 0,
    ensures
        r as int == vstd::math::min(
            vstd::math::min((cpus / 2) as int, size / limit + 1),
            u32::MAX as int,
        ),
{
    let half = cpus / 2;
    let quotient = size / limit;
    let n = if half <= quotient {
        half
    } else {
        quotient + 1
    };
    if n > u32::MAX as u64 {
        u32::MAX
    } else {
        n as u32
    }
}

/// The tree that the runner rebuilds from an index's records is the tree
/// of paths that was walked.
pub proof fn lemma_index_tree(index: DirectoryIndex)
    requires
        index.wf(),
    ensures
        tree_of(index.directories@) == paths_view(&index.paths),
{
    assert(tree_of(index.directories@) =~= paths_view(&index.paths));
}

/// The path that the runner rebuilds for a file record made from `path`
/// is `path`.
pub proof fn lemma_file_path_round_trip(paths: Seq<Seq<Seq<u8>>>, path: Seq<Seq<u8>>, f: FileSectionHeader)
    requires
        placeable(paths, path),
        first_index(paths, parent_of(path), f.parent as int),
        f.name@ == padded(path.last(), NAME_SIZE as int),
    ensures
        paths[f.parent as int].push(text_of(f.name@)) == path,
{
    lemma_padded_text(path.last(), NAME_SIZE as int);
    assert(path =~= parent_of(path).push(path.last()));
}

/// The payload blob as files are appended to it: its length, and the byte
/// range of each file appended so far.
pub struct BlobLayout {
    pub len: u64,
    pub ranges: Ghost<Seq<(int, int)>>,
}

impl BlobLayout {
    /// Every range lies in the blob, and each starts where the one before
    /// it ends.
    pub open spec fn wf(&self) -> bool {
        &&& forall|i: int|
            0 <= i < self.ranges@.len() ==> 0 <= (#[trigger] self.ranges@[i]).0 <= self.ranges@[i].1
                <= self.len
        &&& forall|i: int, j: int|
            0 <= i < j < self.ranges@.len() ==> (#[trigger] self.ranges@[i]).1 <= (
            #[trigger] self.ranges@[j]).0
    }

    /// An empty blob.
    pub fn new() -> (r: BlobLayout)
        ensures
            r.wf(),
            r.len == 0,
            r.ranges@ == Seq::<(int, int)>::empty(),
    {
        BlobLayout { len: 0, ranges: Ghost(Seq::empty()) }
    }

    /// Appends `size` bytes: their position in the blob, or `None` (and no
    /// change) where the blob's length would pass `u64::MAX`.
    pub fn append(&mut self, size: u64) -> (r: Option<u64>)
        requires
            old(self).wf(),
        ensures
            final(self).wf(),
            r is Some <==> old(self).len + size <= u64::MAX,
            r matches Some(p) ==> p == old(self).len && final(self).len == p + size
                && final(self).ranges@ == old(self).ranges@.push((p as int, p + size)),
            r is None ==> *final(self) == *old(self),
    {
        if size > u64::MAX - self.len {
            return None;
        }
        let position = self.len;
        self.len = self.len + size;
        self.ranges = Ghost(self.ranges@.push((position as int, position + size)));
        Some(position)
    }
}

/// Files appended through a layout never overlap.
pub proof fn lemma_ranges_disjoint(layout: BlobLayout, i: int, j: int)
    requires
        layout.wf(),
        0 <= i < layout.ranges@.len(),
        0 <= j < layout.ranges@.len(),
        i != j,
    ensures
        layout.ranges@[i].1 <= layout.ranges@[j].0 || layout.ranges@[j].1 <= layout.ranges@[i].0,
{
    if i < j {
        assert(layout.ranges@[i].1 <= layout.ranges@[j].0);
    } else {
        assert(layout.ranges@[j].1 <= layout.ranges@[i].0);
    }
}

} // verus!
