use wrappe::format::{ARGS_SIZE, NAME_SIZE};
use wrappe::options::{
    contains_bytes, get_arguments, get_command, get_current_dir, get_show_console,
    get_show_information, get_unpack_directory, get_unpack_target, get_verification,
    get_version, get_versioning, starter_record, Args, OptionError, Settings,
};
use wrappe::pack::{
    build_dictionary, encoder_threads, file_record, find_path, in_memory_limit, index_directories,
    is_valid_name, sampling_done, Metadata,
};
use wrappe::text::field_text;

fn path(parts: &[&str]) -> Vec<Vec<u8>> {
    parts.iter().map(|s| s.as_bytes().to_vec()).collect()
}

#[test]
fn keyword_options() {
    assert_eq!(get_unpack_target("temp"), Some(0));
    assert_eq!(get_unpack_target("Default"), Some(0));
    assert_eq!(get_unpack_target("LOCAL"), Some(1));
    assert_eq!(get_unpack_target("cwd"), Some(2));
    assert_eq!(get_unpack_target("home"), None);
    assert_eq!(get_versioning("SideBySide"), Some(0));
    assert_eq!(get_versioning("replace"), Some(1));
    assert_eq!(get_versioning("none"), Some(2));
    assert_eq!(get_versioning("always"), None);
    assert_eq!(get_verification("none"), Some(0));
    assert_eq!(get_verification("existence"), Some(1));
    assert_eq!(get_verification("default"), Some(1));
    assert_eq!(get_verification("checksum"), Some(2));
    assert_eq!(get_verification("md5"), None);
    assert_eq!(get_show_information("none"), Some(0));
    assert_eq!(get_show_information("title"), Some(1));
    assert_eq!(get_show_information("verbose"), Some(2));
    assert_eq!(get_show_information("loud"), None);
    assert_eq!(get_current_dir("inherit"), Some(0));
    assert_eq!(get_current_dir("unpack"), Some(1));
    assert_eq!(get_current_dir("runner"), Some(2));
    assert_eq!(get_current_dir("command"), Some(3));
    assert_eq!(get_current_dir("home"), None);
}

#[test]
fn console_option() {
    assert_eq!(get_show_console("auto", "x86_64-pc-windows-msvc"), Some(0));
    assert_eq!(get_show_console("AUTO", "x86_64-unknown-linux-gnu"), Some(1));
    assert_eq!(get_show_console("never", "x86_64-unknown-linux-gnu"), Some(0));
    assert_eq!(get_show_console("always", "x"), Some(1));
    assert_eq!(get_show_console("attach", "x"), Some(2));
    assert_eq!(get_show_console("sometimes", "x"), None);
    assert!(contains_bytes(b"abcdef", b"cde"));
    assert!(!contains_bytes(b"abcdef", b"ced"));
    assert!(contains_bytes(b"abc", b""));
}

#[test]
fn version_tag() {
    let v = get_version(Some("1.2.3")).unwrap();
    assert_eq!(&v[..5], b"1.2.3");
    assert!(v[5..].iter().all(|&b| b == 0));
    assert!(get_version(Some("0123456789abcdef")).is_some());
    assert!(get_version(Some("0123456789abcdefg")).is_none());
    let r = get_version(None).unwrap();
    assert!(r[..8].iter().all(|b| b.is_ascii_alphanumeric()));
    assert!(r[8..].iter().all(|&b| b == 0));
}

#[test]
fn name_fields() {
    let d = get_unpack_directory("myapp").unwrap();
    assert_eq!(field_text(&d), b"myapp".to_vec());
    assert!(get_unpack_directory(&"a".repeat(NAME_SIZE)).is_none());
    assert!(get_unpack_directory(&"a".repeat(NAME_SIZE - 1)).is_some());
    let c = get_command("bin/app").unwrap();
    assert_eq!(field_text(&c), b"bin/app".to_vec());
    assert!(get_command(&"c".repeat(200)).is_none());
}

#[test]
fn arguments_field() {
    let a = get_arguments(&vec!["--x".to_string(), "y z".to_string()]).unwrap();
    assert_eq!(field_text(&a), b"--x\x1fy z".to_vec());
    let empty = get_arguments(&vec![]).unwrap();
    assert_eq!(empty[0], 0);
    assert!(get_arguments(&vec!["a".repeat(ARGS_SIZE)]).is_none());
}

#[test]
fn starter_record_fields() {
    let uid = get_version(Some("v1")).unwrap();
    let dir = get_unpack_directory("app").unwrap();
    let cmd = get_command("run").unwrap();
    let args = get_arguments(&vec![]).unwrap();
    let r = starter_record(1, 0, 2, 1, uid, 0, 1, true, false, dir, cmd, args);
    assert_eq!(&r.signature, b"PE3DATA\0");
    assert_eq!(r.once, 1);
    assert_eq!(r.nocleanup, 1);
    assert_eq!(r.verification, 2);
    assert_eq!(r.to_bytes()[32], r.wrappe_format);
}

#[test]
fn directory_index_skips_long_names() {
    let long = "n".repeat(NAME_SIZE);
    let entries = vec![path(&["a"]), path(&[&long]), path(&[&long, "child"]), path(&["a", "b"])];
    let index = index_directories(&entries);
    assert_eq!(index.paths, vec![Vec::<Vec<u8>>::new(), path(&["a"]), path(&["a", "b"])]);
    assert_eq!(index.directories.len(), 2);
    assert_eq!(index.directories[1].parent, 1);
    assert_eq!(field_text(&index.directories[1].name), b"b".to_vec());
    assert!(!is_valid_name(b"a\0b"));
    assert!(is_valid_name(b"ab"));
}

#[test]
fn file_record_needs_parent() {
    let index = index_directories(&vec![path(&["a"])]);
    let meta = Metadata {
        accessed_seconds: 0,
        accessed_nanos: 0,
        modified_seconds: 0,
        modified_nanos: 0,
        mode: 0,
        readonly: true,
    };
    assert!(file_record(&index.paths, &path(&["zz", "f"]), 0, 0, 0, 0, &meta).is_none());
    let f = file_record(&index.paths, &path(&["a", "f"]), 5, 6, 7, 8, &meta).unwrap();
    assert_eq!({ f.parent }, 1);
    assert_eq!({ f.position }, 5);
    assert_eq!(f.readonly, 1);
    assert_eq!(find_path(&index.paths, &path(&["a"])), Some(1));
    assert_eq!(find_path(&index.paths, &path(&["b"])), None);
}

#[test]
fn encode_strategy() {
    assert_eq!(in_memory_limit(8000, 4), 2_000_000);
    assert_eq!(in_memory_limit(u64::MAX, 1), u64::MAX);
    assert_eq!(encoder_threads(8, 10, 100), 1);
    assert_eq!(encoder_threads(8, 1000, 100), 4);
    assert_eq!(encoder_threads(1, 1000, 100), 0);
    assert!(sampling_done(4 * 1024 * 1024 * 1024 - 128 * 1024));
    assert!(!sampling_done(1));
}

#[test]
fn dictionary_needs_samples() {
    let samples: Vec<Vec<u8>> = (0..7).map(|i| vec![i as u8; 100]).collect();
    assert!(build_dictionary(&samples).is_none());
}

fn args() -> Args {
    Args {
        runner: "native".to_string(),
        compression: 8,
        unpack_target: "temp".to_string(),
        unpack_directory: None,
        versioning: "sidebyside".to_string(),
        verification: "existence".to_string(),
        version_string: None,
        show_information: "title".to_string(),
        console: "auto".to_string(),
        current_dir: "inherit".to_string(),
        cleanup: false,
        once: false,
        build_dictionary: false,
        list_runners: false,
        input: "src".to_string(),
        command: "src/run".to_string(),
        output: None,
        arguments: vec![],
        version: false,
    }
}

#[test]
fn args_settings() {
    let s = args().settings("linux").unwrap();
    assert_eq!(
        s,
        Settings {
            unpack_target: 0,
            versioning: 0,
            verification: 1,
            show_information: 1,
            current_dir: 0,
            show_console: 1,
            level: 8,
        }
    );
    let mut a = args();
    a.compression = 40;
    a.console = "never".to_string();
    let s = a.settings("windows").unwrap();
    assert_eq!(s.level, 22);
    assert_eq!(s.show_console, 0);
}

#[test]
fn args_settings_errors() {
    let mut a = args();
    a.unpack_target = "x".to_string();
    assert_eq!(a.settings("linux"), Err(OptionError::UnpackTarget));
    let mut a = args();
    a.versioning = "x".to_string();
    assert_eq!(a.settings("linux"), Err(OptionError::Versioning));
    let mut a = args();
    a.verification = "x".to_string();
    assert_eq!(a.settings("linux"), Err(OptionError::Verification));
    let mut a = args();
    a.show_information = "x".to_string();
    assert_eq!(a.settings("linux"), Err(OptionError::ShowInformation));
    let mut a = args();
    a.current_dir = "x".to_string();
    assert_eq!(a.settings("linux"), Err(OptionError::CurrentDir));
    let mut a = args();
    a.console = "x".to_string();
    assert_eq!(a.settings("linux"), Err(OptionError::Console));
}

#[test]
fn packed_contents_are_compressed() {
    let contents = b"hello hello hello hello hello hello hello hello".to_vec();
    let packed = wrappe::pack::pack_contents(&contents, 3, &[]).unwrap();
    assert_ne!(packed.data, contents);
    assert_eq!(&packed.data[0..4], &[0x28, 0xb5, 0x2f, 0xfd]);
    assert_ne!(packed.file_hash, packed.compressed_hash);
}

#[test]
fn dictionary_from_enough_samples() {
    let mut x: u32 = 7;
    let words = ["alpha", "beta", "gamma", "delta", "epsilon", "zeta", "theta", "kappa"];
    let samples: Vec<Vec<u8>> = (0..300)
        .map(|_| {
            let mut s = String::new();
            for _ in 0..200 {
                x = x.wrapping_mul(1103515245).wrapping_add(12345);
                s.push_str(words[(x >> 16) as usize % words.len()]);
                s.push(' ');
            }
            s.into_bytes()
        })
        .collect();
    let dict = build_dictionary(&samples).unwrap();
    assert!(!dict.is_empty());
    assert!(dict.len() <= 131072);
    let packed = wrappe::pack::pack_contents(&samples[0], 3, &dict).unwrap();
    assert_ne!(packed.data, samples[0]);
}

#[test]
fn blob_layout_hands_out_consecutive_ranges() {
    let mut layout = wrappe::pack::BlobLayout::new();
    assert_eq!(layout.append(10), Some(0));
    assert_eq!(layout.append(0), Some(10));
    assert_eq!(layout.append(5), Some(10));
    assert_eq!(layout.len, 15);
    assert_eq!(layout.append(u64::MAX), None);
    assert_eq!(layout.len, 15);
}
