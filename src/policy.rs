//! The runner's decisions: where to unpack, whether to extract, how the
//! verification pass ends, which directory the command starts in, and
//! the arguments baked into a package.

use crate::format::StarterInfo;
use crate::pack::{find_path, paths_view};
use crate::text::{field_text, join_paths, path_view, same_bytes, same_path, text_of};
use vstd::array::array_as_slice;
use vstd::prelude::*;

verus! {

/// The directory under which a package unpacks.
#[derive(Clone, Copy, Debug, PartialEq, Eq, Structural)]
pub enum UnpackRoot {
    /// The system's temporary directory.
    Temp,
    /// The user's local data directory.
    LocalData,
    /// The directory the runner was launched from.
    WorkingDir,
}

/// The root that an `unpack_target` code names.
pub open spec fn unpack_root_of(code: u8) -> Option<UnpackRoot> {
    if code == 0 {
        Some(UnpackRoot::Temp)
    } else if code == 1 {
        Some(UnpackRoot::LocalData)
    } else if code == 2 {
        Some(UnpackRoot::WorkingDir)
    } else {
        None
    }
}

/// The root that an `unpack_target` code names; `None` for an unknown code.
pub fn unpack_root(code: u8) -> (r: Option<UnpackRoot>)
    ensures
        r == unpack_root_of(code),
{
    match code {
        0 => Some(UnpackRoot::Temp),
        1 => Some(UnpackRoot::LocalData),
        2 => Some(UnpackRoot::WorkingDir),
        _ => None,
    }
}

/// The unpack directory below its root: the package's directory name, and
/// below it the version tag where versions live side by side.
pub open spec fn unpack_path_of(info: StarterInfo) -> Seq<Seq<u8>> {
    if info.versioning == 0 {
        seq![text_of(info.unpack_directory@), text_of(info.uid@)]
    } else {
        seq![text_of(info.unpack_directory@)]
    }
}

/// The unpack directory below its root, as components.
pub fn unpack_path(info: &StarterInfo) -> (r: Vec<Vec<u8>>)
    ensures
        path_view(&r) == unpack_path_of(*info),
{
    let mut r: Vec<Vec<u8>> = Vec::new();
    r.push(field_text(array_as_slice(&info.unpack_directory)));
    if info.versioning == 0 {
        r.push(field_text(array_as_slice(&info.uid)));
    }
    assert(path_view(&r) =~= unpack_path_of(*info));
    r
}

/// The entry command below the unpack directory's root.
pub fn command_path(info: &StarterInfo) -> (r: Vec<Vec<u8>>)
    ensures
        path_view(&r) == unpack_path_of(*info).push(text_of(info.command@)),
{
    let mut r = unpack_path(info);
    let ghost before = path_view(&r);
    r.push(field_text(array_as_slice(&info.command)));
    assert(path_view(&r) =~= before.push(text_of(info.command@)));
    r
}

/// The directory the entry command starts in.
#[derive(Clone, Copy, Debug, PartialEq, Eq, Structural)]
pub enum WorkingDir {
    /// Where the runner was launched.
    Launch,
    /// The unpack directory.
    Unpack,
    /// The directory holding the package.
    Runner,
    /// The directory holding the entry command.
    Command,
}

/// The working directory that a `current_dir` code names.
pub open spec fn working_dir_of(code: u8) -> Option<WorkingDir> {
    if code == 0 {
        Some(WorkingDir::Launch)
    } else if code == 1 {
        Some(WorkingDir::Unpack)
    } else if code == 2 {
        Some(WorkingDir::Runner)
    } else if code == 3 {
        Some(WorkingDir::Command)
    } else {
        None
    }
}

/// The working directory that a `current_dir` code names; `None` for an
/// unknown code.
pub fn working_dir(code: u8) -> (r: Option<WorkingDir>)
    ensures
        r == working_dir_of(code),
{
    match code {
        0 => Some(WorkingDir::Launch),
        1 => Some(WorkingDir::Unpack),
        2 => Some(WorkingDir::Runner),
        3 => Some(WorkingDir::Command),
        _ => None,
    }
}

/// The version found in the unpack directory: the sentinel's text, or "0"
/// where it could not be read.
pub open spec fn stored_version_of(sentinel: Option<Seq<u8>>) -> Seq<u8> {
    match sentinel {
        Some(b) => b,
        None => seq![0x30u8],
    }
}

/// The version found in the unpack directory.
pub fn stored_version(sentinel: Option<Vec<u8>>) -> (r: Vec<u8>)
    ensures
        r@ == stored_version_of(
            match sentinel {
                Some(b) => Some(b@),
                None => None,
            },
        ),
{
    match sentinel {
        Some(b) => b,
        None => {
            let mut r: Vec<u8> = Vec::new();
            r.push(0x30u8);
            assert(r@ =~= seq![0x30u8]);
            r
        },
    }
}

/// Extraction is needed unless the versioning keeps unpacked data
/// (side by side or replace) and the stored version is the package's.
pub open spec fn should_extract_spec(versioning: u8, stored: Seq<u8>, uid: Seq<u8>) -> bool {
    versioning > 1 || stored != uid
}

/// Whether to extract before any verification.
pub fn should_extract(versioning: u8, stored: &[u8], uid: &[u8]) -> (r: bool)
    ensures
        r == should_extract_spec(versioning, stored@, uid@),
{
    versioning > 1 || !same_bytes(stored, uid)
}

/// The verification to run before deciding: none where extraction is
/// already decided.
pub open spec fn verification_level_spec(should_extract: bool, verification: u8) -> u8 {
    if should_extract {
        0
    } else {
        verification
    }
}

/// The verification to run.
pub fn verification_level(should_extract: bool, verification: u8) -> (r: u8)
    ensures
        r == verification_level_spec(should_extract, verification),
{
    if should_extract {
        0
    } else {
        verification
    }
}

/// An unpacked file passes verification: it is a regular file and, under
/// checksum verification, its contents hash to the recorded hash.
pub open spec fn file_verifies_spec(
    verification: u8,
    expected: u64,
    is_file: bool,
    content_hash: Option<u64>,
) -> bool {
    is_file && (verification != 2 || content_hash == Some(expected))
}

/// Whether an unpacked file passes verification.
pub fn file_verifies(verification: u8, expected: u64, is_file: bool, content_hash: Option<u64>) -> (r:
    bool)
    ensures
        r == file_verifies_spec(verification, expected, is_file, content_hash),
{
    if !is_file {
        return false;
    }
    if verification == 2 {
        match content_hash {
            Some(h) => h == expected,
            None => false,
        }
    } else {
        true
    }
}

/// An unpacked symlink passes verification: it can be read and points to
/// the unpack directory joined with its recorded target.
pub open spec fn link_verifies_spec(
    unpack_dir: Seq<Seq<u8>>,
    target: Seq<Seq<u8>>,
    link: Option<Seq<Seq<u8>>>,
) -> bool {
    link == Some(unpack_dir + target)
}

/// Whether an unpacked symlink passes verification.
pub fn link_verifies(
    unpack_dir: &Vec<Vec<u8>>,
    target: &Vec<Vec<u8>>,
    link: &Option<Vec<Vec<u8>>>,
) -> (r: bool)
    ensures
        r == link_verifies_spec(
            path_view(unpack_dir),
            path_view(target),
            match link {
                Some(l) => Some(path_view(l)),
                None => None,
            },
        ),
{
    match link {
        None => false,
        Some(l) => {
            let expected = join_paths(unpack_dir, target);
            same_path(l, &expected)
        },
    }
}

/// All results of a pass are true.
pub open spec fn all_pass(results: Seq<bool>) -> bool {
    forall|i: int| 0 <= i < results.len() ==> results[i]
}

/// Whether to extract after the verification pass: a failed file or
/// symlink under any verification turns the decision to extraction.
pub open spec fn needs_extraction_spec(
    should_extract: bool,
    verification: u8,
    files: Seq<bool>,
    links: Seq<bool>,
) -> bool {
    should_extract || (verification > 0 && !(all_pass(files) && all_pass(links)))
}

/// Whether to extract after the verification pass.
pub fn needs_extraction(
    should_extract: bool,
    verification: u8,
    files: &Vec<bool>,
    links: &Vec<bool>,
) -> (r: bool)
    ensures
        r == needs_extraction_spec(should_extract, verification, files@, links@),
{
    if should_extract {
        return true;
    }
    if verification == 0 {
        return false;
    }
    let mut i: usize = 0;
    while i < files.len()
        invariant
            !should_extract,
            verification > 0,
            i <= files@.len(),
            forall|k: int| 0 <= k < i ==> files@[k],
        decreases files@.len() - i,
    {
        if !files[i] {
            assert(!files@[i as int]);
            assert(!all_pass(files@));
            return true;
        }
        i = i + 1;
    }
    let mut i: usize = 0;
    while i < links.len()
        invariant
            !should_extract,
            verification > 0,
            i <= links@.len(),
            all_pass(files@),
            forall|k: int| 0 <= k < i ==> links@[k],
        decreases links@.len() - i,
    {
        if !links[i] {
            assert(!links@[i as int]);
            assert(!all_pass(links@));
            return true;
        }
        i = i + 1;
    }
    false
}

/// The information level in force: verbose where it is forced from outside.
pub fn effective_information(show_information: u8, forced_verbose: bool) -> (r: u8)
    ensures
        r == if show_information < 2 && forced_verbose {
            2
        } else {
            show_information
        },
{
    if show_information < 2 && forced_verbose {
        2
    } else {
        show_information
    }
}

/// Whether to attach to the parent's console (on platforms with consoles).
pub fn attach_console(show_console: u8, show_information: u8) -> (r: bool)
    ensures
        r == (show_console == 2 || (show_console == 0 && show_information == 2)),
{
    show_console == 2 || (show_console == 0 && show_information == 2)
}

/// Whether the child's standard streams go to null (no console to show).
pub fn detach_stdio(show_console: u8, console_attached: bool) -> (r: bool)
    ensures
        r == (show_console == 0 || (show_console == 2 && !console_attached)),
{
    show_console == 0 || (show_console == 2 && !console_attached)
}

/// Whether to wait for the child and exit with its code.
pub fn wait_for_child(show_console: u8, console_attached: bool) -> (r: bool)
    ensures
        r == (show_console == 1 || (show_console == 2 && console_attached)),
{
    show_console == 1 || (show_console == 2 && console_attached)
}

/// Size of the payload blob above which it is prefetched: 512 MiB.
pub const PREFETCH_THRESHOLD: u64 = 536870912;

/// Whether to prefetch a mapped region of `size` bytes.
pub fn prefetch_wanted(size: u64) -> (r: bool)
    ensures
        r == (size > PREFETCH_THRESHOLD),
{
    size > PREFETCH_THRESHOLD
}

/// Whether the entry command is already running: whether one of the
/// executables of the running processes is the command's path.
pub fn check_instance(run_path: &Vec<Vec<u8>>, running: &Vec<Vec<Vec<u8>>>) -> (r: bool)
    ensures
        r == paths_view(running).contains(path_view(run_path)),
{
    match find_path(running, run_path) {
        Some(_) => true,
        None => {
            assert(!paths_view(running).contains(path_view(run_path)));
            false
        },
    }
}

/// Permission bits of the entry command after extraction: executable by
/// its owner and its group.
pub fn set_executable_permissions(mode: u32) -> (r: u32)
    ensures
        r == mode | 0o110u32,
{
    mode | 0o110u32
}

/// An unchanged second launch does not extract again: with versions kept
/// side by side or replaced, the sentinel holding the package's version and
/// every file and symlink passing verification, the decision stays.
pub proof fn lemma_rerun_keeps_extraction(
    versioning: u8,
    verification: u8,
    uid: Seq<u8>,
    files: Seq<bool>,
    links: Seq<bool>,
)
    requires
        versioning <= 1,
        all_pass(files),
        all_pass(links),
    ensures
        !should_extract_spec(versioning, uid, uid),
        !needs_extraction_spec(
            should_extract_spec(versioning, uid, uid),
            verification_level_spec(should_extract_spec(versioning, uid, uid), verification),
            files,
            links,
        ),
{
}

/// The verification results of files, from what was observed of them.
pub open spec fn file_results(
    verification: u8,
    expected: Seq<u64>,
    is_file: Seq<bool>,
    hashes: Seq<Option<u64>>,
) -> Seq<bool> {
    Seq::new(
        expected.len(),
        |k: int| file_verifies_spec(verification, expected[k], is_file[k], hashes[k]),
    )
}

/// Unpacked data heals itself: on a launch that would keep it, a deleted
/// file makes existence and checksum verification extract again, a file
/// with changed contents makes checksum verification extract again, and
/// existence verification keeps files that are all there.
pub proof fn lemma_self_healing(
    versioning: u8,
    verification: u8,
    uid: Seq<u8>,
    expected: Seq<u64>,
    is_file: Seq<bool>,
    hashes: Seq<Option<u64>>,
    links: Seq<bool>,
    i: int,
)
    requires
        versioning <= 1,
        is_file.len() == expected.len(),
        hashes.len() == expected.len(),
        0 <= i < expected.len(),
    ensures
        ({
            let should = should_extract_spec(versioning, uid, uid);
            let level = verification_level_spec(should, verification);
            let results = file_results(level, expected, is_file, hashes);
            &&& (verification == 1 || verification == 2) && !is_file[i] ==> needs_extraction_spec(
                should,
                level,
                results,
                links,
            )
            &&& verification == 2 && hashes[i] != Some(expected[i]) ==> needs_extraction_spec(
                should,
                level,
                results,
                links,
            )
            &&& verification == 1 && (forall|k: int| 0 <= k < is_file.len() ==> is_file[k])
                && all_pass(links) ==> !needs_extraction_spec(should, level, results, links)
        }),
{
    let should = should_extract_spec(versioning, uid, uid);
    let level = verification_level_spec(should, verification);
    let results = file_results(level, expected, is_file, hashes);
    if (verification == 1 || verification == 2) && !is_file[i] {
        assert(!results[i]);
    }
    if verification == 2 && hashes[i] != Some(expected[i]) {
        assert(!results[i]);
    }
}

/// `p` is a leading part of `q`: the directory `p` holds `q`.
pub open spec fn is_prefix(p: Seq<Seq<u8>>, q: Seq<Seq<u8>>) -> bool {
    p.len() <= q.len() && q.subrange(0, p.len() as int) == p
}

/// Packages that share an unpack directory name but not their version tag
/// unpack, side by side, to directories neither of which holds the other.
pub proof fn lemma_side_by_side(a: StarterInfo, b: StarterInfo)
    requires
        a.versioning == 0,
        b.versioning == 0,
        text_of(a.unpack_directory@) == text_of(b.unpack_directory@),
        text_of(a.uid@) != text_of(b.uid@),
        text_of(a.uid@).len() > 0,
        text_of(b.uid@).len() > 0,
    ensures
        unpack_path_of(a) != unpack_path_of(b),
        !is_prefix(unpack_path_of(a), unpack_path_of(b)),
        !is_prefix(unpack_path_of(b), unpack_path_of(a)),
{
    assert(unpack_path_of(a)[1] != unpack_path_of(b)[1]);
    assert(unpack_path_of(b).subrange(0, 2) =~= unpack_path_of(b));
    assert(unpack_path_of(a).subrange(0, 2) =~= unpack_path_of(a));
}

} // verus!
