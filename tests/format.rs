use wrappe::format::{
    DirectorySection, FileSectionHeader, PayloadHeader, StarterInfo, SymlinkSection,
    ARGS_SIZE, DIRECTORY_SECTION_SIZE, FILE_SECTION_SIZE, NAME_SIZE, PAYLOAD_HEADER_SIZE,
    STARTER_INFO_SIZE, SYMLINK_SECTION_SIZE, UID_SIZE,
};
use wrappe::text::{field_text, fixed_field, same_bytes};

fn name(s: &str) -> [u8; NAME_SIZE] {
    fixed_field::<NAME_SIZE>(s.as_bytes()).unwrap()
}

#[test]
fn payload_header_layout() {
    let h = PayloadHeader {
        directory_sections: 1,
        file_sections: 2,
        symlink_sections: 3,
        dictionary_size: 4,
        section_hash: 0x0102030405060708,
        payload_size: 6,
        sections_size: 7,
        kind: 0,
    };
    let b = h.to_bytes();
    assert_eq!(b.len(), PAYLOAD_HEADER_SIZE);
    assert_eq!(&b[0..8], &[1, 0, 0, 0, 0, 0, 0, 0]);
    assert_eq!(&b[32..40], &[8, 7, 6, 5, 4, 3, 2, 1]);
    assert_eq!(b[56], 0);
    assert_eq!(PayloadHeader::from_bytes(&b), h);
    assert_eq!(h.len(), 6);
}

#[test]
fn directory_section_round_trip() {
    let d = DirectorySection { name: name("docs"), parent: 0x01020304 };
    let b = d.to_bytes();
    assert_eq!(b.len(), DIRECTORY_SECTION_SIZE);
    assert_eq!(&b[0..4], b"docs");
    assert_eq!(b[4], 0);
    assert_eq!(&b[128..132], &[4, 3, 2, 1]);
    let back = DirectorySection::from_bytes(&b);
    assert_eq!(back.parent, d.parent);
    assert_eq!(back.name, d.name);
}

#[test]
fn file_section_round_trip() {
    let f = FileSectionHeader {
        position: 10,
        size: 20,
        name: name("a.txt"),
        file_hash: 30,
        compressed_hash: 40,
        time_accessed_seconds: 50,
        time_modified_seconds: 60,
        parent: 2,
        mode: 0o644,
        time_accessed_nanos: 70,
        time_modified_nanos: 80,
        readonly: 1,
    };
    let b = f.to_bytes();
    assert_eq!(b.len(), FILE_SECTION_SIZE);
    assert_eq!(b[0], 10);
    assert_eq!(b[8], 20);
    assert_eq!(&b[16..21], b"a.txt");
    assert_eq!(b[144], 30);
    assert_eq!(b[176], 2);
    assert_eq!(b[192], 1);
    let g = FileSectionHeader::from_bytes(&b);
    assert_eq!(g.to_bytes(), b);
    assert_eq!({ g.mode }, 0o644);
    assert_eq!({ g.time_modified_nanos }, 80);
}

#[test]
fn symlink_section_round_trip() {
    let l = SymlinkSection {
        name: name("link"),
        parent: 1,
        target: 5,
        time_accessed_seconds: 7,
        time_modified_seconds: 8,
        time_accessed_nanos: 9,
        time_modified_nanos: 10,
        mode: 0o777,
        kind: 1,
        readonly: 0,
    };
    let b = l.to_bytes();
    assert_eq!(b.len(), SYMLINK_SECTION_SIZE);
    assert_eq!(b[132], 5);
    assert_eq!(b[164], 1);
    let m = SymlinkSection::from_bytes(&b);
    assert_eq!(m.to_bytes(), b);
    assert_eq!({ m.target }, 5);
}

#[test]
fn starter_info_round_trip() {
    let info = StarterInfo {
        signature: *b"PE3DATA\0",
        show_console: 1,
        current_dir: 2,
        verification: 1,
        show_information: 0,
        uid: [b'x'; UID_SIZE],
        unpack_target: 0,
        versioning: 1,
        once: 0,
        nocleanup: 1,
        wrappe_format: 203,
        unpack_directory: name("app"),
        command: name("bin/app"),
        arguments: [0; ARGS_SIZE],
    };
    let b = info.to_bytes();
    assert_eq!(b.len(), STARTER_INFO_SIZE);
    assert_eq!(&b[0..8], b"PE3DATA\0");
    assert_eq!(b[32], 203);
    let back = StarterInfo::from_bytes(&b);
    assert_eq!(back.to_bytes(), b);
    assert_eq!(field_text(&back.command), b"bin/app".to_vec());
}

#[test]
fn text_fields() {
    assert_eq!(field_text(b"abc\0def"), b"abc".to_vec());
    assert_eq!(field_text(b"abc"), b"abc".to_vec());
    assert_eq!(field_text(b"\0abc"), Vec::<u8>::new());
    let long = vec![b'a'; NAME_SIZE];
    assert!(fixed_field::<NAME_SIZE>(&long).is_none());
    let fits = vec![b'a'; NAME_SIZE - 1];
    let f = fixed_field::<NAME_SIZE>(&fits).unwrap();
    assert_eq!(f[NAME_SIZE - 1], 0);
    assert!(same_bytes(b"ab", b"ab"));
    assert!(!same_bytes(b"ab", b"abc"));
}
