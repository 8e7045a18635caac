use wrappe::arguments::baked_arguments;
use wrappe::format::{StarterInfo, ARGS_SIZE, NAME_SIZE, STARTER_INFO_SIZE, UID_SIZE, WRAPPE_FORMAT};
use wrappe::locate::{locate_starter_info, signature_bytes, starter_info, StartError};
use wrappe::policy::{
    attach_console, check_instance, command_path, detach_stdio, effective_information,
    file_verifies, needs_extraction, prefetch_wanted, set_executable_permissions,
    should_extract, stored_version, unpack_path, unpack_root, verification_level,
    wait_for_child, working_dir, UnpackRoot, WorkingDir,
};
use wrappe::text::fixed_field;

fn path(parts: &[&str]) -> Vec<Vec<u8>> {
    parts.iter().map(|s| s.as_bytes().to_vec()).collect()
}

fn info(versioning: u8, uid: &str) -> StarterInfo {
    let mut uid_field = [0u8; UID_SIZE];
    uid_field[..uid.len()].copy_from_slice(uid.as_bytes());
    let mut arguments = [0u8; ARGS_SIZE];
    let baked = b" --flag \x1fvalue\x1f\x1f  ";
    arguments[..baked.len()].copy_from_slice(baked);
    StarterInfo {
        signature: signature_bytes(),
        show_console: 0,
        current_dir: 1,
        verification: 1,
        show_information: 0,
        uid: uid_field,
        unpack_target: 0,
        versioning,
        once: 0,
        nocleanup: 1,
        wrappe_format: WRAPPE_FORMAT,
        unpack_directory: fixed_field::<NAME_SIZE>(b"app").unwrap(),
        command: fixed_field::<NAME_SIZE>(b"run.sh").unwrap(),
        arguments,
    }
}

fn package(info: &StarterInfo) -> Vec<u8> {
    let mut image = b"runner image and payload".to_vec();
    image.extend_from_slice(&info.to_bytes());
    image
}

#[test]
fn starter_info_at_tail() {
    let image = package(&info(1, "v1"));
    assert_eq!(locate_starter_info(&image), Ok(image.len() - STARTER_INFO_SIZE));
    let (at, found) = starter_info(&image).unwrap();
    assert_eq!(at, 24);
    assert_eq!(found.versioning, 1);
}

#[test]
fn e6_signature_found_after_appended_data() {
    let mut image = package(&info(1, "v1"));
    let at = image.len() - STARTER_INFO_SIZE;
    image.extend_from_slice(&[0xAB; 300]);
    assert_eq!(locate_starter_info(&image), Ok(at));
    let (found_at, found) = starter_info(&image).unwrap();
    assert_eq!(found_at, at);
    assert_eq!(found.uid[..2], *b"v1");
}

#[test]
fn starter_info_errors() {
    assert_eq!(locate_starter_info(&[0u8; 100]), Err(StartError::TooSmall));
    assert_eq!(locate_starter_info(&[0u8; 1000]), Err(StartError::NoSignature));
    let mut image = vec![0u8; 1000];
    image[900..908].copy_from_slice(b"PE3DATA\0");
    assert_eq!(locate_starter_info(&image), Err(StartError::Truncated));
}

#[test]
fn format_gating() {
    let mut image = package(&info(1, "v1"));
    let at = image.len() - STARTER_INFO_SIZE;
    image[at + 32] = WRAPPE_FORMAT - 1;
    assert_eq!(starter_info(&image).err(), Some(StartError::FormatMismatch));
    let mut image = package(&info(1, "v1"));
    image[at] = b'X';
    assert_eq!(starter_info(&image).err(), Some(StartError::NoSignature));
}

#[test]
fn unpack_paths() {
    assert_eq!(unpack_path(&info(0, "v1")), path(&["app", "v1"]));
    assert_eq!(unpack_path(&info(1, "v1")), path(&["app"]));
    assert_eq!(command_path(&info(0, "v1")), path(&["app", "v1", "run.sh"]));
    assert_eq!(unpack_root(0), Some(UnpackRoot::Temp));
    assert_eq!(unpack_root(1), Some(UnpackRoot::LocalData));
    assert_eq!(unpack_root(2), Some(UnpackRoot::WorkingDir));
    assert_eq!(unpack_root(3), None);
    assert_eq!(working_dir(0), Some(WorkingDir::Launch));
    assert_eq!(working_dir(3), Some(WorkingDir::Command));
    assert_eq!(working_dir(4), None);
}

#[test]
fn side_by_side_directories_differ() {
    let a = unpack_path(&info(0, "v1"));
    let b = unpack_path(&info(0, "v2"));
    assert_ne!(a, b);
    assert!(!b.starts_with(&a));
    assert!(!a.starts_with(&b));
}

#[test]
fn rerun_does_not_extract() {
    let stored = stored_version(Some(b"v1".to_vec()));
    let should = should_extract(1, &stored, b"v1");
    assert!(!should);
    let level = verification_level(should, 1);
    let files = vec![file_verifies(level, 7, true, None)];
    assert!(!needs_extraction(should, level, &files, &vec![true]));
}

#[test]
fn missing_sentinel_reads_zero() {
    assert_eq!(stored_version(None), b"0".to_vec());
    assert!(should_extract(0, &stored_version(None), b"v1"));
}

#[test]
fn self_healing() {
    let deleted = file_verifies(1, 7, false, None);
    assert!(needs_extraction(false, 1, &vec![true, deleted], &vec![]));
    let deleted = file_verifies(2, 7, false, None);
    assert!(needs_extraction(false, 2, &vec![deleted], &vec![]));
    let corrupt = file_verifies(2, 7, true, Some(8));
    assert!(needs_extraction(false, 2, &vec![corrupt], &vec![]));
    let corrupt = file_verifies(1, 7, true, Some(8));
    assert!(!needs_extraction(false, 1, &vec![corrupt], &vec![]));
    assert!(needs_extraction(false, 1, &vec![], &vec![false]));
}

#[test]
fn e4_no_versioning_always_extracts() {
    assert!(should_extract(2, b"v1", b"v1"));
    assert_eq!(verification_level(true, 2), 0);
    assert!(needs_extraction(true, 0, &vec![], &vec![]));
}

#[test]
fn e5_instance_check() {
    let run = path(&["tmp", "app", "run.exe"]);
    let running = vec![path(&["usr", "bin", "sh"]), path(&["tmp", "app", "run.exe"])];
    assert!(check_instance(&run, &running));
    assert!(!check_instance(&run, &vec![path(&["usr", "bin", "sh"])]));
}

#[test]
fn executable_bits() {
    assert_eq!(set_executable_permissions(0o644), 0o754);
    assert_eq!(set_executable_permissions(0o700), 0o710);
}

#[test]
fn console_decisions() {
    assert!(attach_console(2, 0));
    assert!(attach_console(0, 2));
    assert!(!attach_console(1, 2));
    assert!(detach_stdio(0, true));
    assert!(detach_stdio(2, false));
    assert!(!detach_stdio(1, false));
    assert!(wait_for_child(1, false));
    assert!(wait_for_child(2, true));
    assert!(!wait_for_child(0, true));
    assert_eq!(effective_information(0, true), 2);
    assert_eq!(effective_information(1, false), 1);
    assert!(prefetch_wanted(512 * 1024 * 1024 + 1));
    assert!(!prefetch_wanted(512 * 1024 * 1024));
}

#[test]
fn baked_arguments_split_and_trim() {
    let i = info(0, "v1");
    assert_eq!(baked_arguments(&i.arguments), Some(vec!["--flag".to_string(), "value".to_string()]));
    assert_eq!(baked_arguments(b"a\x1fb c\x1f"), Some(vec!["a".to_string(), "b c".to_string()]));
    assert_eq!(baked_arguments(b"\0ignored"), Some(vec![]));
    assert_eq!(baked_arguments(b"ok\x1f\xff\xfe"), None);
    assert_eq!(baked_arguments(b"\xff\x1fok"), None);
}
