use std::hash::Hasher;
use wrappe::container::{open_payload, unpack_file, Payload, PayloadError, UnpackError};
use wrappe::digest::hash_bytes;
use wrappe::format::{DirectorySection, FileSectionHeader, NAME_SIZE, PAYLOAD_HEADER_SIZE};
use wrappe::pack::{
    file_record, finish_payload, index_directories, pack_contents, symlink_record, Metadata,
};
use wrappe::policy::{file_verifies, link_verifies, needs_extraction, verification_level};
use wrappe::table::SectionTable;
use wrappe::text::fixed_field;

const PREFIX: &[u8] = b"RUNNER-IMAGE-BYTES";

fn path(parts: &[&str]) -> Vec<Vec<u8>> {
    parts.iter().map(|s| s.as_bytes().to_vec()).collect()
}

fn meta() -> Metadata {
    Metadata {
        accessed_seconds: 1,
        accessed_nanos: 2,
        modified_seconds: 3,
        modified_nanos: 4,
        mode: 0o644,
        readonly: false,
    }
}

fn random_bytes(n: usize) -> Vec<u8> {
    let mut x: u32 = 12345;
    (0..n)
        .map(|_| {
            x = x.wrapping_mul(1103515245).wrapping_add(12345);
            (x >> 16) as u8
        })
        .collect()
}

fn build(
    dirs: &[Vec<Vec<u8>>],
    files: &[(Vec<Vec<u8>>, Vec<u8>)],
    links: &[(Vec<Vec<u8>>, Vec<Vec<u8>>, bool)],
) -> Vec<u8> {
    let index = index_directories(&dirs.to_vec());
    let mut blob = Vec::new();
    let mut records = Vec::new();
    let mut file_paths = Vec::new();
    for (p, contents) in files {
        let packed = pack_contents(contents, 3, &[]).unwrap();
        let position = blob.len() as u64;
        blob.extend_from_slice(&packed.data);
        let record = file_record(
            &index.paths,
            p,
            position,
            packed.data.len() as u64,
            packed.file_hash,
            packed.compressed_hash,
            &meta(),
        )
        .unwrap();
        records.push(record);
        file_paths.push(p.clone());
    }
    let mut symlinks = Vec::new();
    for (p, target, is_file) in links {
        symlinks.push(symlink_record(&index.paths, &file_paths, p, target, *is_file, &meta()).unwrap());
    }
    let table = SectionTable { directories: index.directories, files: records, symlinks };
    let tail = finish_payload(&table, &[], blob.len() as u64, 3).unwrap();
    let mut image = PREFIX.to_vec();
    image.extend_from_slice(&blob);
    image.extend_from_slice(&tail);
    image
}

fn e1_image() -> (Vec<u8>, Vec<u8>) {
    let c = random_bytes(256);
    let image = build(
        &[path(&["b"])],
        &[(path(&["a.txt"]), b"hello\n".to_vec()), (path(&["b", "c.bin"]), c.clone())],
        &[],
    );
    (image, c)
}

fn open(image: &[u8]) -> Payload {
    match open_payload(image) {
        Ok(p) => p,
        Err(e) => panic!("payload did not open: {:?}", e),
    }
}

#[test]
fn e1_round_trip_restores_files() {
    let (image, c) = e1_image();
    let p = open(&image);
    assert_eq!(p.table.directories.len(), 1);
    assert_eq!(p.table.files.len(), 2);
    assert_eq!(p.paths, vec![Vec::<Vec<u8>>::new(), path(&["b"])]);
    assert_eq!(p.file_path(0), path(&["a.txt"]));
    assert_eq!(p.file_path(1), path(&["b", "c.bin"]));
    assert_eq!(unpack_file(&image, &p, 0).unwrap(), b"hello\n".to_vec());
    assert_eq!(unpack_file(&image, &p, 1).unwrap(), c);
    assert_eq!(p.regions.files_start, PREFIX.len());
    assert_eq!({ p.table.files[0].mode }, 0o644);
    assert_eq!({ p.table.files[1].time_modified_seconds }, 3);
}

#[test]
fn hashes_of_built_package() {
    let (image, c) = e1_image();
    let p = open(&image);
    let f = &p.table.files[1];
    assert_eq!({ f.file_hash }, hash_bytes(&c));
    let start = p.regions.files_start + f.position as usize;
    let end = start + f.size as usize;
    assert_eq!({ f.compressed_hash }, hash_bytes(&image[start..end]));
    let mut direct = twox_hash::XxHash64::with_seed(1246736989840);
    direct.write(&c);
    assert_eq!(hash_bytes(&c), direct.finish());
    assert_ne!(hash_bytes(b"hello\n"), hash_bytes(b"hello"));
}

#[test]
fn e2_file_symlink_points_inside() {
    let image = build(&[], &[(path(&["real"]), b"x".to_vec())], &[(path(&["link"]), path(&["real"]), true)]);
    let p = open(&image);
    assert_eq!(p.table.symlinks.len(), 1);
    assert_eq!(p.table.symlinks[0].kind, 1);
    assert_eq!(p.link_path(0), path(&["link"]));
    assert_eq!(p.link_target(0), path(&["real"]));
    let unpack = path(&["tmp", "app"]);
    let target = p.link_target(0);
    assert!(link_verifies(&unpack, &target, &Some(path(&["tmp", "app", "real"]))));
    assert!(!link_verifies(&unpack, &target, &Some(path(&["elsewhere", "real"]))));
    assert!(!link_verifies(&unpack, &target, &None));
    let expected = p.table.files[0].file_hash;
    assert!(file_verifies(2, expected, true, Some(hash_bytes(b"x"))));
}

#[test]
fn directory_symlink_target() {
    let image = build(&[path(&["d"])], &[], &[(path(&["to_d"]), path(&["d"]), false)]);
    let p = open(&image);
    assert_eq!(p.table.symlinks[0].kind, 0);
    assert_eq!(p.link_target(0), path(&["d"]));
}

#[test]
fn e3_corrupt_payload_byte() {
    let (mut image, _) = e1_image();
    let p = open(&image);
    let at = p.regions.files_start + p.table.files[0].position as usize;
    image[at] ^= 0xff;
    let p = open(&image);
    assert_eq!(unpack_file(&image, &p, 0).unwrap_err(), UnpackError::CompressedHash);
    let expected = p.table.files[0].file_hash;
    let corrupt_ok = file_verifies(2, expected, true, Some(hash_bytes(b"hellO\n")));
    assert!(!corrupt_ok);
    let level = verification_level(false, 2);
    assert!(needs_extraction(false, level, &vec![corrupt_ok], &vec![]));
    let level = verification_level(false, 0);
    assert!(!needs_extraction(false, level, &vec![corrupt_ok], &vec![]));
}

#[test]
fn payload_too_small() {
    assert_eq!(open_payload(&[0u8; 10]).err(), Some(PayloadError::TooSmall));
}

#[test]
fn payload_truncated() {
    let (mut image, _) = e1_image();
    let n = image.len();
    image[n - PAYLOAD_HEADER_SIZE + 40..n - PAYLOAD_HEADER_SIZE + 48]
        .copy_from_slice(&u64::MAX.to_le_bytes());
    assert_eq!(open_payload(&image).err(), Some(PayloadError::Truncated));
}

#[test]
fn payload_section_hash_tampered() {
    let (mut image, _) = e1_image();
    let n = image.len();
    image[n - PAYLOAD_HEADER_SIZE + 32] ^= 1;
    assert_eq!(open_payload(&image).err(), Some(PayloadError::SectionHash));
}

#[test]
fn payload_table_size_mismatch() {
    let (mut image, _) = e1_image();
    let n = image.len();
    image[n - PAYLOAD_HEADER_SIZE] = 5;
    assert_eq!(open_payload(&image).err(), Some(PayloadError::TableSize));
}

#[test]
fn payload_sections_undecodable() {
    let (mut image, _) = e1_image();
    let n = image.len();
    let sections = u64::from_le_bytes(image[n - 9..n - 1].try_into().unwrap()) as usize;
    let start = n - PAYLOAD_HEADER_SIZE - sections;
    image[start] ^= 0xff;
    image[start + 1] ^= 0xff;
    assert_eq!(open_payload(&image).err(), Some(PayloadError::SectionsUndecodable));
}

fn table_image(table: &SectionTable, blob: &[u8]) -> Vec<u8> {
    let tail = finish_payload(table, &[], blob.len() as u64, 3).unwrap();
    let mut image = PREFIX.to_vec();
    image.extend_from_slice(blob);
    image.extend_from_slice(&tail);
    image
}

fn file(parent: u32, position: u64, size: u64, compressed_hash: u64) -> FileSectionHeader {
    FileSectionHeader {
        position,
        size,
        name: fixed_field::<NAME_SIZE>(b"f").unwrap(),
        file_hash: 0,
        compressed_hash,
        time_accessed_seconds: 0,
        time_modified_seconds: 0,
        parent,
        mode: 0,
        time_accessed_nanos: 0,
        time_modified_nanos: 0,
        readonly: 0,
    }
}

#[test]
fn payload_directory_order() {
    let d = DirectorySection { name: fixed_field::<NAME_SIZE>(b"d").unwrap(), parent: 2 };
    let table = SectionTable { directories: vec![d], files: vec![], symlinks: vec![] };
    assert_eq!(open_payload(&table_image(&table, b"")).err(), Some(PayloadError::DirectoryOrder));
}

#[test]
fn payload_bad_reference() {
    let table = SectionTable { directories: vec![], files: vec![file(3, 0, 0, 0)], symlinks: vec![] };
    assert_eq!(open_payload(&table_image(&table, b"")).err(), Some(PayloadError::BadReference));
    let table = SectionTable { directories: vec![], files: vec![file(0, 2, 5, 0)], symlinks: vec![] };
    assert_eq!(open_payload(&table_image(&table, b"abc")).err(), Some(PayloadError::BadReference));
}

#[test]
fn unpack_undecodable_frame() {
    let blob = b"not a zstd frame".to_vec();
    let table = SectionTable {
        directories: vec![],
        files: vec![file(0, 0, blob.len() as u64, hash_bytes(&blob))],
        symlinks: vec![],
    };
    let image = table_image(&table, &blob);
    let p = open(&image);
    assert_eq!(unpack_file(&image, &p, 0).unwrap_err(), UnpackError::Undecodable);
}
