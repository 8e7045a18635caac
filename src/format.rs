//! Fixed-width, little-endian, tightly packed records of the container.

use vstd::array::*;
use vstd::bytes::*;
use vstd::prelude::*;
use vstd::slice::*;

verus! {

/// Format byte: a package is refused by a runner whose byte differs.
pub const WRAPPE_FORMAT: u8 = 203;

/// Width of a name field (a path component or a relative path).
pub const NAME_SIZE: usize = 128;

/// Width of the baked arguments field.
pub const ARGS_SIZE: usize = 512;

/// Width of the version tag field.
pub const UID_SIZE: usize = 16;

/// Width of the signature field.
pub const SIGNATURE_SIZE: usize = 8;

/// Encoded size of a `PayloadHeader`.
pub const PAYLOAD_HEADER_SIZE: usize = 57;

/// The payload trailer: counts and sizes of the regions before it.
#[derive(Clone, Copy, Debug, PartialEq, Eq, Structural)]
pub struct PayloadHeader {
    pub directory_sections: u64,
    pub file_sections: u64,
    pub symlink_sections: u64,
    pub dictionary_size: u64,
    pub section_hash: u64,
    pub payload_size: u64,
    pub sections_size: u64,
    pub kind: u8,
}

/// Little-endian bytes of a `u64`.
pub open spec fn le64(x: u64) -> Seq<u8> {
    spec_u64_to_le_bytes(x)
}

/// Little-endian bytes of a `u32`.
pub open spec fn le32(x: u32) -> Seq<u8> {
    spec_u32_to_le_bytes(x)
}

/// The `u64` held by eight little-endian bytes of `s` starting at `at`.
pub open spec fn get64(s: Seq<u8>, at: int) -> u64 {
    spec_u64_from_le_bytes(s.subrange(at, at + 8))
}

/// Lengths of the little-endian encodings.
pub proof fn lemma_le_lengths()
    ensures
        forall|x: u64| #[trigger] le64(x).len() == 8,
        forall|x: u32| #[trigger] le32(x).len() == 4,
{
    lemma_auto_spec_u64_to_from_le_bytes();
    lemma_auto_spec_u32_to_from_le_bytes();
}

/// Reading back the bytes written for a `u64` or `u32` gives the value.
pub proof fn lemma_le_round_trip()
    ensures
        forall|x: u64| #[trigger] le64(x).len() == 8 && spec_u64_from_le_bytes(le64(x)) == x,
        forall|x: u32| #[trigger] le32(x).len() == 4 && spec_u32_from_le_bytes(le32(x)) == x,
        forall|s: Seq<u8>| s.len() == 8 ==> #[trigger] le64(spec_u64_from_le_bytes(s)) == s,
        forall|s: Seq<u8>| s.len() == 4 ==> #[trigger] le32(spec_u32_from_le_bytes(s)) == s,
{
    lemma_auto_spec_u64_to_from_le_bytes();
    lemma_auto_spec_u32_to_from_le_bytes();
}

impl PayloadHeader {
    /// Total number of records in the section table.
    pub open spec fn spec_len(&self) -> int {
        self.directory_sections + self.file_sections + self.symlink_sections
    }

    /// Total number of records in the section table.
    pub fn len(&self) -> (r: u64)
        requires
            self.spec_len() <= u64::MAX,
        ensures
            r == self.spec_len(),
    {
        self.directory_sections + self.file_sections + self.symlink_sections
    }

    /// The record as it stands on disk.
    pub open spec fn encode(&self) -> Seq<u8> {
        le64(self.directory_sections) + le64(self.file_sections) + le64(self.symlink_sections)
            + le64(self.dictionary_size) + le64(self.section_hash) + le64(self.payload_size)
            + le64(self.sections_size) + seq![self.kind]
    }

    /// The record that `PAYLOAD_HEADER_SIZE` bytes hold.
    pub open spec fn decode(b: Seq<u8>) -> PayloadHeader {
        PayloadHeader {
            directory_sections: get64(b, 0),
            file_sections: get64(b, 8),
            symlink_sections: get64(b, 16),
            dictionary_size: get64(b, 24),
            section_hash: get64(b, 32),
            payload_size: get64(b, 40),
            sections_size: get64(b, 48),
            kind: b[56],
        }
    }

    /// Writes the record as it stands on disk.
    pub fn to_bytes(&self) -> (r: Vec<u8>)
        ensures
            r@ == self.encode(),
            r@.len() == PAYLOAD_HEADER_SIZE,
    {
        proof { lemma_le_lengths(); }
        let mut r = u64_to_le_bytes(self.directory_sections);
        r.append(&mut u64_to_le_bytes(self.file_sections));
        r.append(&mut u64_to_le_bytes(self.symlink_sections));
        r.append(&mut u64_to_le_bytes(self.dictionary_size));
        r.append(&mut u64_to_le_bytes(self.section_hash));
        r.append(&mut u64_to_le_bytes(self.payload_size));
        r.append(&mut u64_to_le_bytes(self.sections_size));
        r.push(self.kind);
        r
    }

    /// Reads a record from its bytes.
    pub fn from_bytes(b: &[u8]) -> (r: PayloadHeader)
        requires
            b@.len() == PAYLOAD_HEADER_SIZE,
        ensures
            r == Self::decode(b@),
    {
        PayloadHeader {
            directory_sections: u64_from_le_bytes(&b[0..8]),
            file_sections: u64_from_le_bytes(&b[8..16]),
            symlink_sections: u64_from_le_bytes(&b[16..24]),
            dictionary_size: u64_from_le_bytes(&b[24..32]),
            section_hash: u64_from_le_bytes(&b[32..40]),
            payload_size: u64_from_le_bytes(&b[40..48]),
            sections_size: u64_from_le_bytes(&b[48..56]),
            kind: b[56],
        }
    }
}

/// Decoding an encoded trailer gives it back, and encoding a decoded one
/// gives back its bytes.
pub proof fn lemma_payload_header_round_trip(h: PayloadHeader, b: Seq<u8>)
    ensures
        h.encode().len() == PAYLOAD_HEADER_SIZE,
        PayloadHeader::decode(h.encode()) == h,
        b.len() == PAYLOAD_HEADER_SIZE ==> PayloadHeader::decode(b).encode() == b,
{
    lemma_le_round_trip();
    let e = h.encode();
    assert(e.subrange(0, 8) =~= le64(h.directory_sections));
    assert(e.subrange(8, 16) =~= le64(h.file_sections));
    assert(e.subrange(16, 24) =~= le64(h.symlink_sections));
    assert(e.subrange(24, 32) =~= le64(h.dictionary_size));
    assert(e.subrange(32, 40) =~= le64(h.section_hash));
    assert(e.subrange(40, 48) =~= le64(h.payload_size));
    assert(e.subrange(48, 56) =~= le64(h.sections_size));
    if b.len() == PAYLOAD_HEADER_SIZE {
        let d = PayloadHeader::decode(b);
        assert(le64(d.directory_sections) == b.subrange(0, 8));
        assert(le64(d.file_sections) == b.subrange(8, 16));
        assert(le64(d.symlink_sections) == b.subrange(16, 24));
        assert(le64(d.dictionary_size) == b.subrange(24, 32));
        assert(le64(d.section_hash) == b.subrange(32, 40));
        assert(le64(d.payload_size) == b.subrange(40, 48));
        assert(le64(d.sections_size) == b.subrange(48, 56));
        assert(d.encode() =~= b);
    }
}

/// Encoded size of a `DirectorySection`.
pub const DIRECTORY_SECTION_SIZE: usize = 132;

/// A directory of the tree: its name and the index of its parent.
#[derive(Clone, Copy)]
pub struct DirectorySection {
    pub name: [u8; NAME_SIZE],
    pub parent: u32,
}

/// A fixed-size array holding the bytes `b`.
pub fn to_array<const N: usize>(b: &[u8]) -> (r: [u8; N])
    requires
        b@.len() == N,
    ensures
        r@ == b@,
{
    let mut r: [u8; N] = array_fill_for_copy_types(0u8);
    let mut i: usize = 0;
    while i < N
        invariant
            b@.len() == N,
            i <= N,
            r@.len() == N,
            forall|k: int| 0 <= k < i ==> r@[k] == b@[k],
        decreases N - i,
    {
        r[i] = b[i];
        i = i + 1;
    }
    assert(r@ =~= b@);
    r
}

/// Two arrays with the same bytes are the same array.
pub proof fn lemma_array_eq<const N: usize>(a: [u8; N], b: [u8; N])
    requires
        a@ == b@,
    ensures
        a == b,
{
    broadcast use axiom_array_ext_equal;
    assert(a =~= b);
}

impl DirectorySection {
    /// The record as it stands on disk.
    pub open spec fn encode(&self) -> Seq<u8> {
        self.name@ + le32(self.parent)
    }

    /// Writes the record as it stands on disk.
    pub fn to_bytes(&self) -> (r: Vec<u8>)
        ensures
            r@ == self.encode(),
            r@.len() == DIRECTORY_SECTION_SIZE,
    {
        proof { lemma_le_lengths(); }
        let mut r = slice_to_vec(array_as_slice(&self.name));
        r.append(&mut u32_to_le_bytes(self.parent));
        r
    }

    /// Reads a record from its bytes.
    pub fn from_bytes(b: &[u8]) -> (r: DirectorySection)
        requires
            b@.len() == DIRECTORY_SECTION_SIZE,
        ensures
            r.encode() == b@,
    {
        proof { lemma_le_round_trip(); }
        let r = DirectorySection { name: to_array(&b[0..128]), parent: u32_from_le_bytes(&b[128..132]) };
        assert(r.encode() =~= b@);
        r
    }
}

/// Two directory records with the same bytes are the same record.
pub proof fn lemma_directory_section_injective(a: DirectorySection, b: DirectorySection)
    requires
        a.encode() == b.encode(),
    ensures
        a == b,
{
    lemma_le_round_trip();
    assert(a.name@ =~= a.encode().subrange(0, 128));
    assert(b.name@ =~= b.encode().subrange(0, 128));
    assert(le32(a.parent) =~= a.encode().subrange(128, 132));
    assert(le32(b.parent) =~= b.encode().subrange(128, 132));
    lemma_array_eq(a.name, b.name);
}

/// Encoded size of a `FileSectionHeader`.
pub const FILE_SECTION_SIZE: usize = 193;

/// A file: where its compressed bytes lie in the payload blob, its
/// hashes, its parent directory and its metadata.
#[derive(Clone, Copy)]
pub struct FileSectionHeader {
    pub position: u64,
    pub size: u64,
    pub name: [u8; NAME_SIZE],
    pub file_hash: u64,
    pub compressed_hash: u64,
    pub time_accessed_seconds: u64,
    pub time_modified_seconds: u64,
    pub parent: u32,
    pub mode: u32,
    pub time_accessed_nanos: u32,
    pub time_modified_nanos: u32,
    pub readonly: u8,
}

impl FileSectionHeader {
    /// The record as it stands on disk.
    pub open spec fn encode(&self) -> Seq<u8> {
        le64(self.position) + le64(self.size) + self.name@ + le64(self.file_hash)
            + le64(self.compressed_hash) + le64(self.time_accessed_seconds)
            + le64(self.time_modified_seconds) + le32(self.parent) + le32(self.mode)
            + le32(self.time_accessed_nanos) + le32(self.time_modified_nanos)
            + seq![self.readonly]
    }

    /// Writes the record as it stands on disk.
    pub fn to_bytes(&self) -> (r: Vec<u8>)
        ensures
            r@ == self.encode(),
            r@.len() == FILE_SECTION_SIZE,
    {
        proof { lemma_le_lengths(); }
        let mut r: Vec<u8> = Vec::new();
        r.append(&mut u64_to_le_bytes(self.position));
        r.append(&mut u64_to_le_bytes(self.size));
        r.extend_from_slice(array_as_slice(&self.name));
        r.append(&mut u64_to_le_bytes(self.file_hash));
        r.append(&mut u64_to_le_bytes(self.compressed_hash));
        r.append(&mut u64_to_le_bytes(self.time_accessed_seconds));
        r.append(&mut u64_to_le_bytes(self.time_modified_seconds));
        r.append(&mut u32_to_le_bytes(self.parent));
        r.append(&mut u32_to_le_bytes(self.mode));
        r.append(&mut u32_to_le_bytes(self.time_accessed_nanos));
        r.append(&mut u32_to_le_bytes(self.time_modified_nanos));
        r.push(self.readonly);
        assert(r@ =~= self.encode());
        r
    }

    /// Reads a record from its bytes.
    pub fn from_bytes(b: &[u8]) -> (r: FileSectionHeader)
        requires
            b@.len() == FILE_SECTION_SIZE,
        ensures
            r.encode() == b@,
    {
        proof { lemma_le_round_trip(); }
        let r = FileSectionHeader {
            position: u64_from_le_bytes(&b[0..8]),
            size: u64_from_le_bytes(&b[8..16]),
            name: to_array(&b[16..144]),
            file_hash: u64_from_le_bytes(&b[144..152]),
            compressed_hash: u64_from_le_bytes(&b[152..160]),
            time_accessed_seconds: u64_from_le_bytes(&b[160..168]),
            time_modified_seconds: u64_from_le_bytes(&b[168..176]),
            parent: u32_from_le_bytes(&b[176..180]),
            mode: u32_from_le_bytes(&b[180..184]),
            time_accessed_nanos: u32_from_le_bytes(&b[184..188]),
            time_modified_nanos: u32_from_le_bytes(&b[188..192]),
            readonly: b[192],
        };
        assert(r.encode() =~= b@);
        r
    }
}

/// Two file records with the same bytes are the same record.
pub proof fn lemma_file_section_header_injective(a: FileSectionHeader, b: FileSectionHeader)
    requires
        a.encode() == b.encode(),
    ensures
        a == b,
{
    lemma_le_round_trip();
    assert(le64(a.position) =~= a.encode().subrange(0, 8));
    assert(le64(b.position) =~= b.encode().subrange(0, 8));
    assert(le64(a.size) =~= a.encode().subrange(8, 16));
    assert(le64(b.size) =~= b.encode().subrange(8, 16));
    assert(a.name@ =~= a.encode().subrange(16, 144));
    assert(b.name@ =~= b.encode().subrange(16, 144));
    lemma_array_eq(a.name, b.name);
    assert(le64(a.file_hash) =~= a.encode().subrange(144, 152));
    assert(le64(b.file_hash) =~= b.encode().subrange(144, 152));
    assert(le64(a.compressed_hash) =~= a.encode().subrange(152, 160));
    assert(le64(b.compressed_hash) =~= b.encode().subrange(152, 160));
    assert(le64(a.time_accessed_seconds) =~= a.encode().subrange(160, 168));
    assert(le64(b.time_accessed_seconds) =~= b.encode().subrange(160, 168));
    assert(le64(a.time_modified_seconds) =~= a.encode().subrange(168, 176));
    assert(le64(b.time_modified_seconds) =~= b.encode().subrange(168, 176));
    assert(le32(a.parent) =~= a.encode().subrange(176, 180));
    assert(le32(b.parent) =~= b.encode().subrange(176, 180));
    assert(le32(a.mode) =~= a.encode().subrange(180, 184));
    assert(le32(b.mode) =~= b.encode().subrange(180, 184));
    assert(le32(a.time_accessed_nanos) =~= a.encode().subrange(184, 188));
    assert(le32(b.time_accessed_nanos) =~= b.encode().subrange(184, 188));
    assert(le32(a.time_modified_nanos) =~= a.encode().subrange(188, 192));
    assert(le32(b.time_modified_nanos) =~= b.encode().subrange(188, 192));
    assert(a.encode()[192] == a.readonly && b.encode()[192] == b.readonly);
}

/// Encoded size of a `SymlinkSection`.
pub const SYMLINK_SECTION_SIZE: usize = 166;

/// A symlink: its parent directory, the kind of its target (0 for a
/// directory, 1 for a file), the target's index and its metadata.
#[derive(Clone, Copy)]
pub struct SymlinkSection {
    pub name: [u8; NAME_SIZE],
    pub parent: u32,
    pub target: u32,
    pub time_accessed_seconds: u64,
    pub time_modified_seconds: u64,
    pub time_accessed_nanos: u32,
    pub time_modified_nanos: u32,
    pub mode: u32,
    pub kind: u8,
    pub readonly: u8,
}

impl SymlinkSection {
    /// The record as it stands on disk.
    pub open spec fn encode(&self) -> Seq<u8> {
        self.name@ + le32(self.parent) + le32(self.target) + le64(self.time_accessed_seconds)
            + le64(self.time_modified_seconds) + le32(self.time_accessed_nanos)
            + le32(self.time_modified_nanos) + le32(self.mode) + seq![self.kind]
            + seq![self.readonly]
    }

    /// Writes the record as it stands on disk.
    pub fn to_bytes(&self) -> (r: Vec<u8>)
        ensures
            r@ == self.encode(),
            r@.len() == SYMLINK_SECTION_SIZE,
    {
        proof { lemma_le_lengths(); }
        let mut r: Vec<u8> = Vec::new();
        r.extend_from_slice(array_as_slice(&self.name));
        r.append(&mut u32_to_le_bytes(self.parent));
        r.append(&mut u32_to_le_bytes(self.target));
        r.append(&mut u64_to_le_bytes(self.time_accessed_seconds));
        r.append(&mut u64_to_le_bytes(self.time_modified_seconds));
        r.append(&mut u32_to_le_bytes(self.time_accessed_nanos));
        r.append(&mut u32_to_le_bytes(self.time_modified_nanos));
        r.append(&mut u32_to_le_bytes(self.mode));
        r.push(self.kind);
        r.push(self.readonly);
        assert(r@ =~= self.encode());
        r
    }

    /// Reads a record from its bytes.
    pub fn from_bytes(b: &[u8]) -> (r: SymlinkSection)
        requires
            b@.len() == SYMLINK_SECTION_SIZE,
        ensures
            r.encode() == b@,
    {
        proof { lemma_le_round_trip(); }
        let r = SymlinkSection {
            name: to_array(&b[0..128]),
            parent: u32_from_le_bytes(&b[128..132]),
            target: u32_from_le_bytes(&b[132..136]),
            time_accessed_seconds: u64_from_le_bytes(&b[136..144]),
            time_modified_seconds: u64_from_le_bytes(&b[144..152]),
            time_accessed_nanos: u32_from_le_bytes(&b[152..156]),
            time_modified_nanos: u32_from_le_bytes(&b[156..160]),
            mode: u32_from_le_bytes(&b[160..164]),
            kind: b[164],
            readonly: b[165],
        };
        assert(r.encode() =~= b@);
        r
    }
}

/// Two symlink records with the same bytes are the same record.
pub proof fn lemma_symlink_section_injective(a: SymlinkSection, b: SymlinkSection)
    requires
        a.encode() == b.encode(),
    ensures
        a == b,
{
    lemma_le_round_trip();
    assert(a.name@ =~= a.encode().subrange(0, 128));
    assert(b.name@ =~= b.encode().subrange(0, 128));
    lemma_array_eq(a.name, b.name);
    assert(le32(a.parent) =~= a.encode().subrange(128, 132));
    assert(le32(b.parent) =~= b.encode().subrange(128, 132));
    assert(le32(a.target) =~= a.encode().subrange(132, 136));
    assert(le32(b.target) =~= b.encode().subrange(132, 136));
    assert(le64(a.time_accessed_seconds) =~= a.encode().subrange(136, 144));
    assert(le64(b.time_accessed_seconds) =~= b.encode().subrange(136, 144));
    assert(le64(a.time_modified_seconds) =~= a.encode().subrange(144, 152));
    assert(le64(b.time_modified_seconds) =~= b.encode().subrange(144, 152));
    assert(le32(a.time_accessed_nanos) =~= a.encode().subrange(152, 156));
    assert(le32(b.time_accessed_nanos) =~= b.encode().subrange(152, 156));
    assert(le32(a.time_modified_nanos) =~= a.encode().subrange(156, 160));
    assert(le32(b.time_modified_nanos) =~= b.encode().subrange(156, 160));
    assert(le32(a.mode) =~= a.encode().subrange(160, 164));
    assert(le32(b.mode) =~= b.encode().subrange(160, 164));
    assert(a.encode()[164] == a.kind && b.encode()[164] == b.kind);
    assert(a.encode()[165] == a.readonly && b.encode()[165] == b.readonly);
}

/// Encoded size of a `StarterInfo`.
pub const STARTER_INFO_SIZE: usize = 801;

/// The runtime policy record at the very end of a package.
#[derive(Clone, Copy)]
pub struct StarterInfo {
    pub signature: [u8; SIGNATURE_SIZE],
    pub show_console: u8,
    pub current_dir: u8,
    pub verification: u8,
    pub show_information: u8,
    pub uid: [u8; UID_SIZE],
    pub unpack_target: u8,
    pub versioning: u8,
    pub once: u8,
    pub nocleanup: u8,
    pub wrappe_format: u8,
    pub unpack_directory: [u8; NAME_SIZE],
    pub command: [u8; NAME_SIZE],
    pub arguments: [u8; ARGS_SIZE],
}

impl StarterInfo {
    /// The record as it stands on disk.
    pub open spec fn encode(&self) -> Seq<u8> {
        self.signature@ + seq![self.show_console] + seq![self.current_dir]
            + seq![self.verification] + seq![self.show_information] + self.uid@
            + seq![self.unpack_target] + seq![self.versioning] + seq![self.once]
            + seq![self.nocleanup] + seq![self.wrappe_format] + self.unpack_directory@
            + self.command@ + self.arguments@
    }

    /// Writes the record as it stands on disk.
    pub fn to_bytes(&self) -> (r: Vec<u8>)
        ensures
            r@ == self.encode(),
            r@.len() == STARTER_INFO_SIZE,
    {
        proof { lemma_le_lengths(); }
        let mut r: Vec<u8> = Vec::new();
        r.extend_from_slice(array_as_slice(&self.signature));
        r.push(self.show_console);
        r.push(self.current_dir);
        r.push(self.verification);
        r.push(self.show_information);
        r.extend_from_slice(array_as_slice(&self.uid));
        r.push(self.unpack_target);
        r.push(self.versioning);
        r.push(self.once);
        r.push(self.nocleanup);
        r.push(self.wrappe_format);
        r.extend_from_slice(array_as_slice(&self.unpack_directory));
        r.extend_from_slice(array_as_slice(&self.command));
        r.extend_from_slice(array_as_slice(&self.arguments));
        assert(r@ =~= self.encode());
        r
    }

    /// Reads a record from its bytes.
    pub fn from_bytes(b: &[u8]) -> (r: StarterInfo)
        requires
            b@.len() == STARTER_INFO_SIZE,
        ensures
            r.encode() == b@,
    {
        proof { lemma_le_round_trip(); }
        let r = StarterInfo {
            signature: to_array(&b[0..8]),
            show_console: b[8],
            current_dir: b[9],
            verification: b[10],
            show_information: b[11],
            uid: to_array(&b[12..28]),
            unpack_target: b[28],
            versioning: b[29],
            once: b[30],
            nocleanup: b[31],
            wrappe_format: b[32],
            unpack_directory: to_array(&b[33..161]),
            command: to_array(&b[161..289]),
            arguments: to_array(&b[289..801]),
        };
        assert(r.encode() =~= b@);
        r
    }
}

/// Two starter records with the same bytes are the same record.
pub proof fn lemma_starter_info_injective(a: StarterInfo, b: StarterInfo)
    requires
        a.encode() == b.encode(),
    ensures
        a == b,
{
    lemma_le_round_trip();
    assert(a.signature@ =~= a.encode().subrange(0, 8));
    assert(b.signature@ =~= b.encode().subrange(0, 8));
    lemma_array_eq(a.signature, b.signature);
    assert(a.encode()[8] == a.show_console && b.encode()[8] == b.show_console);
    assert(a.encode()[9] == a.current_dir && b.encode()[9] == b.current_dir);
    assert(a.encode()[10] == a.verification && b.encode()[10] == b.verification);
    assert(a.encode()[11] == a.show_information && b.encode()[11] == b.show_information);
    assert(a.uid@ =~= a.encode().subrange(12, 28));
    assert(b.uid@ =~= b.encode().subrange(12, 28));
    lemma_array_eq(a.uid, b.uid);
    assert(a.encode()[28] == a.unpack_target && b.encode()[28] == b.unpack_target);
    assert(a.encode()[29] == a.versioning && b.encode()[29] == b.versioning);
    assert(a.encode()[30] == a.once && b.encode()[30] == b.once);
    assert(a.encode()[31] == a.nocleanup && b.encode()[31] == b.nocleanup);
    assert(a.encode()[32] == a.wrappe_format && b.encode()[32] == b.wrappe_format);
    assert(a.unpack_directory@ =~= a.encode().subrange(33, 161));
    assert(b.unpack_directory@ =~= b.encode().subrange(33, 161));
    lemma_array_eq(a.unpack_directory, b.unpack_directory);
    assert(a.command@ =~= a.encode().subrange(161, 289));
    assert(b.command@ =~= b.encode().subrange(161, 289));
    lemma_array_eq(a.command, b.command);
    assert(a.arguments@ =~= a.encode().subrange(289, 801));
    assert(b.arguments@ =~= b.encode().subrange(289, 801));
    lemma_array_eq(a.arguments, b.arguments);
}


/// Where the signature and the format byte stand in a starter record.
pub proof fn lemma_starter_fields(info: StarterInfo)
    ensures
        info.encode().len() == STARTER_INFO_SIZE,
        info.encode()[32] == info.wrappe_format,
        info.encode().subrange(0, 8) == info.signature@,
{
    lemma_le_lengths();
    assert(info.encode().subrange(0, 8) =~= info.signature@);
}

} // verus!
