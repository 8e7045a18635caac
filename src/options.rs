//! The packer's options, turned into the codes and fields of a starter
//! record.

use crate::arguments::ARGUMENT_SEPARATOR;
use crate::format::{StarterInfo, ARGS_SIZE, NAME_SIZE, UID_SIZE, WRAPPE_FORMAT};
use crate::locate::{signature, signature_bytes};
use crate::text::{fixed_field, padded};
use rand::distributions::{Alphanumeric, Distribution};
use vstd::array::array_fill_for_copy_types;
use vstd::prelude::*;
use vstd::string::{StrSliceExecFns, StringSliceAdditionalSpecFns};
use vstd::utf8::encode_utf8;

verus! {

/// `s` in lower case.
pub uninterp spec fn lower_of(s: Seq<char>) -> Seq<char>;

/// Relies on `str::to_lowercase`: the result depends on the characters alone.
#[verifier::external_body]
fn lowercase(s: &str) -> (r: String)
    ensures
        r@ == lower_of(s@),
{
    s.to_lowercase()
}

/// A letter or digit of ASCII.
pub open spec fn is_alphanumeric(b: u8) -> bool {
    (0x30 <= b <= 0x39) || (0x41 <= b <= 0x5a) || (0x61 <= b <= 0x7a)
}

/// Relies on rand's `Alphanumeric` distribution sampled from `thread_rng`:
/// each byte is drawn from the 62 ASCII letters and digits.
#[verifier::external_body]
fn random_alphanumeric(n: usize) -> (r: Vec<u8>)
    ensures
        r@.len() == n,
        forall|i: int| 0 <= i < n ==> is_alphanumeric(#[trigger] r@[i]),
{
    Alphanumeric.sample_iter(rand::thread_rng()).take(n).collect()
}

/// `a` and `b` hold the same characters.
pub fn same_text(a: &str, b: &str) -> (r: bool)
    ensures
        r == (a@ == b@),
{
    let n = a.unicode_len();
    if n != b.unicode_len() {
        return false;
    }
    let mut i: usize = 0;
    while i < n
        invariant
            n == a@.len(),
            n == b@.len(),
            i <= n,
            forall|k: int| 0 <= k < i ==> a@[k] == b@[k],
        decreases n - i,
    {
        if a.get_char(i) != b.get_char(i) {
            return false;
        }
        i = i + 1;
    }
    assert(a@ =~= b@);
    true
}

/// The code a keyword stands for, among `(keyword, code)` pairs, after
/// lower-casing.
pub open spec fn keyword_code(s: Seq<char>, table: Seq<(Seq<char>, u8)>) -> Option<u8>
    decreases table.len(),
{
    if table.len() == 0 {
        None
    } else if lower_of(s) == table[0].0 {
        Some(table[0].1)
    } else {
        keyword_code(s, table.drop_first())
    }
}

fn lookup(s: &str, keywords: &[&str], codes: &[u8]) -> (r: Option<u8>)
    requires
        keywords@.len() == codes@.len(),
    ensures
        r == keyword_code(s@, Seq::new(keywords@.len(), |i: int| (keywords@[i]@, codes@[i]))),
{
    let lower = lowercase(s);
    let ghost table = Seq::new(keywords@.len(), |i: int| (keywords@[i]@, codes@[i]));
    assert(table.subrange(0, table.len() as int) =~= table);
    let mut i: usize = 0;
    while i < keywords.len()
        invariant
            keywords@.len() == codes@.len(),
            i <= keywords@.len(),
            lower@ == lower_of(s@),
            table == Seq::new(keywords@.len(), |i: int| (keywords@[i]@, codes@[i])),
            keyword_code(s@, table) == keyword_code(s@, table.subrange(i as int, table.len() as int)),
        decreases keywords@.len() - i,
    {
        let ghost rest = table.subrange(i as int, table.len() as int);
        assert(rest.drop_first() =~= table.subrange(i + 1, table.len() as int));
        if same_text(lower.as_str(), keywords[i]) {
            return Some(codes[i]);
        }
        i = i + 1;
    }
    None
}

/// Unpack target: temp (or default) 0, local 1, cwd 2.
pub open spec fn unpack_target_of(s: Seq<char>) -> Option<u8> {
    keyword_code(s, seq![("temp"@, 0u8), ("default"@, 0u8), ("local"@, 1u8), ("cwd"@, 2u8)])
}

/// The code of the keyword, or `None` for an unknown one.
pub fn get_unpack_target(directory: &str) -> (r: Option<u8>)
    ensures
        r == unpack_target_of(directory@),
{
    let r = lookup(directory, &["temp", "default", "local", "cwd"], &[0u8, 0, 1, 2]);
    proof {
        assert(Seq::new(4, |i: int| (["temp", "default", "local", "cwd"]@[i]@, [0u8, 0, 1, 2]@[i]))
            =~= seq![("temp"@, 0u8), ("default"@, 0u8), ("local"@, 1u8), ("cwd"@, 2u8)]);
    }
    r
}

/// Versioning: sidebyside (or default) 0, replace 1, none 2.
pub open spec fn versioning_of(s: Seq<char>) -> Option<u8> {
    keyword_code(s, seq![("sidebyside"@, 0u8), ("default"@, 0u8), ("replace"@, 1u8), ("none"@, 2u8)])
}

/// The code of the keyword, or `None` for an unknown one.
pub fn get_versioning(versioning: &str) -> (r: Option<u8>)
    ensures
        r == versioning_of(versioning@),
{
    let r = lookup(versioning, &["sidebyside", "default", "replace", "none"], &[0u8, 0u8, 1u8, 2u8]);
    proof {
        assert(Seq::new(4, |i: int| (["sidebyside", "default", "replace", "none"]@[i]@, [0u8, 0u8, 1u8, 2u8]@[i]))
            =~= seq![("sidebyside"@, 0u8), ("default"@, 0u8), ("replace"@, 1u8), ("none"@, 2u8)]);
    }
    r
}

/// Verification: none 0, existence (or default) 1, checksum 2.
pub open spec fn verification_of(s: Seq<char>) -> Option<u8> {
    keyword_code(s, seq![("none"@, 0u8), ("default"@, 1u8), ("existence"@, 1u8), ("checksum"@, 2u8)])
}

/// The code of the keyword, or `None` for an unknown one.
pub fn get_verification(verification: &str) -> (r: Option<u8>)
    ensures
        r == verification_of(verification@),
{
    let r = lookup(verification, &["none", "default", "existence", "checksum"], &[0u8, 1u8, 1u8, 2u8]);
    proof {
        assert(Seq::new(4, |i: int| (["none", "default", "existence", "checksum"]@[i]@, [0u8, 1u8, 1u8, 2u8]@[i]))
            =~= seq![("none"@, 0u8), ("default"@, 1u8), ("existence"@, 1u8), ("checksum"@, 2u8)]);
    }
    r
}

/// Information shown: none 0, title (or default) 1, verbose 2.
pub open spec fn show_information_of(s: Seq<char>) -> Option<u8> {
    keyword_code(s, seq![("none"@, 0u8), ("default"@, 1u8), ("title"@, 1u8), ("verbose"@, 2u8)])
}

/// The code of the keyword, or `None` for an unknown one.
pub fn get_show_information(show_information: &str) -> (r: Option<u8>)
    ensures
        r == show_information_of(show_information@),
{
    let r = lookup(show_information, &["none", "default", "title", "verbose"], &[0u8, 1u8, 1u8, 2u8]);
    proof {
        assert(Seq::new(4, |i: int| (["none", "default", "title", "verbose"]@[i]@, [0u8, 1u8, 1u8, 2u8]@[i]))
            =~= seq![("none"@, 0u8), ("default"@, 1u8), ("title"@, 1u8), ("verbose"@, 2u8)]);
    }
    r
}

/// Working directory of the command: inherit 0, unpack 1, runner 2, command 3.
pub open spec fn current_dir_of(s: Seq<char>) -> Option<u8> {
    keyword_code(s, seq![("inherit"@, 0u8), ("unpack"@, 1u8), ("runner"@, 2u8), ("command"@, 3u8)])
}

/// The code of the keyword, or `None` for an unknown one.
pub fn get_current_dir(current_dir: &str) -> (r: Option<u8>)
    ensures
        r == current_dir_of(current_dir@),
{
    let r = lookup(current_dir, &["inherit", "unpack", "runner", "command"], &[0u8, 1u8, 2u8, 3u8]);
    proof {
        assert(Seq::new(4, |i: int| (["inherit", "unpack", "runner", "command"]@[i]@, [0u8, 1u8, 2u8, 3u8]@[i]))
            =~= seq![("inherit"@, 0u8), ("unpack"@, 1u8), ("runner"@, 2u8), ("command"@, 3u8)]);
    }
    r
}

/// Console keywords other than auto: never 0, always 1, attach 2.
pub open spec fn console_of(s: Seq<char>) -> Option<u8> {
    keyword_code(s, seq![("never"@, 0u8), ("always"@, 1u8), ("attach"@, 2u8)])
}

/// `needle` stands somewhere in `haystack`.
pub open spec fn has_substring(haystack: Seq<u8>, needle: Seq<u8>) -> bool {
    exists|p: int|
        0 <= p && p + needle.len() <= haystack.len() && #[trigger] haystack.subrange(
            p,
            p + needle.len(),
        ) == needle
}

/// Whether `needle` stands somewhere in `haystack`.
pub fn contains_bytes(haystack: &[u8], needle: &[u8]) -> (r: bool)
    ensures
        r == has_substring(haystack@, needle@),
{
    let hl = haystack.len();
    if needle.len() > hl {
        return false;
    }
    if needle.len() == 0 {
        assert(haystack@.subrange(0, 0 + needle@.len() as int) =~= needle@);
        assert(has_substring(haystack@, needle@));
        return true;
    }
    let last = hl - needle.len();
    let mut p: usize = 0;
    while p <= last
        invariant
            hl == haystack@.len(),
            needle@.len() > 0,
            last + needle@.len() == haystack@.len(),
            p <= last + 1,
            forall|q: int|
                0 <= q < p ==> #[trigger] haystack@.subrange(q, q + needle@.len()) != needle@,
        decreases last + 1 - p,
    {
        let mut k: usize = 0;
        let mut same = true;
        while k < needle.len()
            invariant
                hl == haystack@.len(),
                last + needle@.len() == haystack@.len(),
                p <= last,
                k <= needle@.len(),
                same == forall|j: int| 0 <= j < k ==> haystack@[p + j] == needle@[j],
            decreases needle@.len() - k,
        {
            if haystack[p + k] != needle[k] {
                same = false;
            }
            k = k + 1;
        }
        if same {
            assert(haystack@.subrange(p as int, p + needle@.len()) =~= needle@);
            return true;
        }
        assert(haystack@.subrange(p as int, p + needle@.len()) != needle@) by {
            let j = choose|j: int| 0 <= j < needle@.len() && haystack@[p + j] != needle@[j];
            assert(haystack@.subrange(p as int, p + needle@.len())[j] != needle@[j]);
        }
        p = p + 1;
    }
    false
}

/// Console mode: auto gives 0 for a runner whose name holds "windows" and
/// 1 otherwise; never 0, always 1, attach 2.
pub open spec fn show_console_of(s: Seq<char>, runner: Seq<u8>) -> Option<u8> {
    if lower_of(s) == "auto"@ {
        if has_substring(runner, "windows"@.map_values(|c: char| c as u8)) {
            Some(0u8)
        } else {
            Some(1u8)
        }
    } else {
        console_of(s)
    }
}

/// The console mode of the package.
pub fn get_show_console(show_console: &str, runner_name: &str) -> (r: Option<u8>)
    ensures
        r == show_console_of(show_console@, runner_name.spec_bytes()),
{
    let lower = lowercase(show_console);
    if same_text(lower.as_str(), "auto") {
        let windows: [u8; 7] = [0x77u8, 0x69, 0x6e, 0x64, 0x6f, 0x77, 0x73];
        proof {
            reveal_strlit("windows");
            assert(windows@ =~= "windows"@.map_values(|c: char| c as u8));
        }
        if contains_bytes(runner_name.as_bytes(), vstd::array::array_as_slice(&windows)) {
            Some(0u8)
        } else {
            Some(1u8)
        }
    } else {
        let r = lookup(show_console, &["never", "always", "attach"], &[0u8, 1u8, 2u8]);
        proof {
            assert(Seq::new(3, |i: int| (["never", "always", "attach"]@[i]@, [0u8, 1u8, 2u8]@[i]))
                =~= seq![("never"@, 0u8), ("always"@, 1u8), ("attach"@, 2u8)]);
        }
        r
    }
}

/// A version tag field holding `b` followed by NULs; `None` where `b` is
/// longer than the field.
fn uid_field(b: &[u8]) -> (r: Option<[u8; UID_SIZE]>)
    ensures
        r is Some <==> b@.len() <= UID_SIZE,
        r matches Some(a) ==> a@ == padded(b@, UID_SIZE as int),
{
    if b.len() > UID_SIZE {
        return None;
    }
    let mut a: [u8; UID_SIZE] = array_fill_for_copy_types(0u8);
    let mut i: usize = 0;
    while i < b.len()
        invariant
            b@.len() <= UID_SIZE,
            i <= b@.len(),
            a@.len() == UID_SIZE,
            forall|k: int| 0 <= k < i ==> a@[k] == b@[k],
            forall|k: int| b@.len() <= k < UID_SIZE ==> a@[k] == 0u8,
        decreases b@.len() - i,
    {
        a[i] = b[i];
        i = i + 1;
    }
    assert(a@ =~= padded(b@, UID_SIZE as int));
    Some(a)
}

/// Length of a generated version tag.
pub const GENERATED_UID_LEN: usize = 8;

/// The version tag field: the given version, or a random tag of
/// `GENERATED_UID_LEN` ASCII letters and digits; `None` where the given
/// version is longer than the field.
pub fn get_version(version: Option<&str>) -> (r: Option<[u8; UID_SIZE]>)
    ensures
        version matches Some(v) ==> (r is Some <==> v.spec_bytes().len() <= UID_SIZE) && (
        r matches Some(a) ==> a@ == padded(v.spec_bytes(), UID_SIZE as int)),
        version is None ==> (r matches Some(a) && exists|x: Seq<u8>|
            x.len() == GENERATED_UID_LEN && (forall|i: int|
                0 <= i < x.len() ==> is_alphanumeric(#[trigger] x[i])) && a@ == padded(
                x,
                UID_SIZE as int,
            )),
{
    match version {
        Some(v) => uid_field(v.as_bytes()),
        None => {
            let tag = random_alphanumeric(GENERATED_UID_LEN);
            uid_field(tag.as_slice())
        },
    }
}

/// The unpack directory field: `None` where the name leaves no room for a
/// terminating NUL.
pub fn get_unpack_directory(directory: &str) -> (r: Option<[u8; NAME_SIZE]>)
    ensures
        r is Some <==> directory.spec_bytes().len() < NAME_SIZE,
        r matches Some(a) ==> a@ == padded(directory.spec_bytes(), NAME_SIZE as int),
{
    fixed_field(directory.as_bytes())
}

/// The command field: the command's path relative to the source; `None`
/// where it leaves no room for a terminating NUL.
pub fn get_command(command: &str) -> (r: Option<[u8; NAME_SIZE]>)
    ensures
        r is Some <==> command.spec_bytes().len() < NAME_SIZE,
        r matches Some(a) ==> a@ == padded(command.spec_bytes(), NAME_SIZE as int),
{
    fixed_field(command.as_bytes())
}

/// Arguments joined with the separator.
pub open spec fn joined(args: Seq<Seq<u8>>) -> Seq<u8>
    decreases args.len(),
{
    if args.len() == 0 {
        Seq::empty()
    } else if args.len() == 1 {
        args[0]
    } else {
        joined(args.drop_last()).push(ARGUMENT_SEPARATOR) + args.last()
    }
}

/// The arguments field: the arguments joined with the separator; `None`
/// where they leave no room for a terminating NUL.
pub fn get_arguments(arguments: &Vec<String>) -> (r: Option<[u8; ARGS_SIZE]>)
    ensures
        ({
            let j = joined(arguments@.map_values(|a: String| encode_utf8(a@)));
            &&& r is Some <==> j.len() < ARGS_SIZE
            &&& r matches Some(a) ==> a@ == padded(j, ARGS_SIZE as int)
        }),
{
    let ghost all = arguments@.map_values(|a: String| encode_utf8(a@));
    let mut bytes: Vec<u8> = Vec::new();
    let mut i: usize = 0;
    while i < arguments.len()
        invariant
            i <= arguments@.len(),
            all == arguments@.map_values(|a: String| encode_utf8(a@)),
            bytes@ == joined(all.subrange(0, i as int)),
        decreases arguments@.len() - i,
    {
        if i > 0 {
            bytes.push(ARGUMENT_SEPARATOR);
        }
        bytes.extend_from_slice(arguments[i].as_str().as_bytes());
        i = i + 1;
        assert(all.subrange(0, i as int).drop_last() =~= all.subrange(0, i - 1));
        if i == 1 {
            assert(bytes@ =~= joined(all.subrange(0, i as int)));
        } else {
            assert(bytes@ =~= joined(all.subrange(0, i as int)));
        }
    }
    assert(all.subrange(0, i as int) =~= all);
    fixed_field(bytes.as_slice())
}

/// The starter record of a package, with the signature and this format.
pub fn starter_record(
    show_console: u8,
    current_dir: u8,
    verification: u8,
    show_information: u8,
    uid: [u8; UID_SIZE],
    unpack_target: u8,
    versioning: u8,
    once: bool,
    cleanup: bool,
    unpack_directory: [u8; NAME_SIZE],
    command: [u8; NAME_SIZE],
    arguments: [u8; ARGS_SIZE],
) -> (r: StarterInfo)
    ensures
        r.signature@ == signature(),
        r.wrappe_format == WRAPPE_FORMAT,
        r.show_console == show_console && r.current_dir == current_dir,
        r.verification == verification && r.show_information == show_information,
        r.uid == uid && r.unpack_target == unpack_target && r.versioning == versioning,
        r.once == if once {
            1u8
        } else {
            0u8
        },
        r.nocleanup == if cleanup {
            0u8
        } else {
            1u8
        },
        r.unpack_directory == unpack_directory && r.command == command && r.arguments
            == arguments,
{
    StarterInfo {
        signature: signature_bytes(),
        show_console,
        current_dir,
        verification,
        show_information,
        uid,
        unpack_target,
        versioning,
        once: if once {
            1u8
        } else {
            0u8
        },
        nocleanup: if cleanup {
            0u8
        } else {
            1u8
        },
        wrappe_format: WRAPPE_FORMAT,
        unpack_directory,
        command,
        arguments,
    }
}

/// The packer's command line, as plain values.
pub struct Args {
    pub runner: String,
    pub compression: u32,
    pub unpack_target: String,
    pub unpack_directory: Option<String>,
    pub versioning: String,
    pub verification: String,
    pub version_string: Option<String>,
    pub show_information: String,
    pub console: String,
    pub current_dir: String,
    pub cleanup: bool,
    pub once: bool,
    pub build_dictionary: bool,
    pub list_runners: bool,
    pub input: String,
    pub command: String,
    pub output: Option<String>,
    pub arguments: Vec<String>,
    pub version: bool,
}

/// The runtime policy that the packer's options give.
#[derive(Clone, Copy, Debug, PartialEq, Eq, Structural)]
pub struct Settings {
    pub unpack_target: u8,
    pub versioning: u8,
    pub verification: u8,
    pub show_information: u8,
    pub current_dir: u8,
    pub show_console: u8,
    pub level: i32,
}

/// An option the packer cannot use.
#[derive(Clone, Copy, Debug, PartialEq, Eq, Structural)]
pub enum OptionError {
    UnpackTarget,
    Versioning,
    Verification,
    ShowInformation,
    CurrentDir,
    Console,
}

/// Highest zstd level.
pub const MAX_LEVEL: u32 = 22;

impl Args {
    /// The codes of the keyword options, checked in order; the level is the
    /// compression option, at most `MAX_LEVEL`.
    pub fn settings(&self, runner_name: &str) -> (r: Result<Settings, OptionError>)
        ensures
            unpack_target_of(self.unpack_target@) is None ==> r == Err::<Settings, OptionError>(
                OptionError::UnpackTarget,
            ),
            unpack_target_of(self.unpack_target@) is Some && versioning_of(self.versioning@) is None
                ==> r == Err::<Settings, OptionError>(OptionError::Versioning),
            unpack_target_of(self.unpack_target@) is Some && versioning_of(self.versioning@) is Some
                && verification_of(self.verification@) is None ==> r == Err::<
                Settings,
                OptionError,
            >(OptionError::Verification),
            unpack_target_of(self.unpack_target@) is Some && versioning_of(self.versioning@) is Some
                && verification_of(self.verification@) is Some && show_information_of(
                self.show_information@,
            ) is None ==> r == Err::<Settings, OptionError>(OptionError::ShowInformation),
            unpack_target_of(self.unpack_target@) is Some && versioning_of(self.versioning@) is Some
                && verification_of(self.verification@) is Some && show_information_of(
                self.show_information@,
            ) is Some && current_dir_of(self.current_dir@) is None ==> r == Err::<
                Settings,
                OptionError,
            >(OptionError::CurrentDir),
            unpack_target_of(self.unpack_target@) is Some && versioning_of(self.versioning@) is Some
                && verification_of(self.verification@) is Some && show_information_of(
                self.show_information@,
            ) is Some && current_dir_of(self.current_dir@) is Some && show_console_of(
                self.console@,
                runner_name.spec_bytes(),
            ) is None ==> r == Err::<Settings, OptionError>(OptionError::Console),
            r matches Ok(s) ==> {
                &&& Some(s.unpack_target) == unpack_target_of(self.unpack_target@)
                &&& Some(s.versioning) == versioning_of(self.versioning@)
                &&& Some(s.verification) == verification_of(self.verification@)
                &&& Some(s.show_information) == show_information_of(self.show_information@)
                &&& Some(s.current_dir) == current_dir_of(self.current_dir@)
                &&& Some(s.show_console) == show_console_of(self.console@, runner_name.spec_bytes())
                &&& s.level == if self.compression > MAX_LEVEL {
                    MAX_LEVEL as i32
                } else {
                    self.compression as i32
                }
            },
            r is Ok <==> (unpack_target_of(self.unpack_target@) is Some && versioning_of(
                self.versioning@,
            ) is Some && verification_of(self.verification@) is Some && show_information_of(
                self.show_information@,
            ) is Some && current_dir_of(self.current_dir@) is Some && show_console_of(
                self.console@,
                runner_name.spec_bytes(),
            ) is Some),
    {
        let unpack_target = match get_unpack_target(self.unpack_target.as_str()) {
            Some(c) => c,
            None => {
                return Err(OptionError::UnpackTarget);
            },
        };
        let versioning = match get_versioning(self.versioning.as_str()) {
            Some(c) => c,
            None => {
                return Err(OptionError::Versioning);
            },
        };
        let verification = match get_verification(self.verification.as_str()) {
            Some(c) => c,
            None => {
                return Err(OptionError::Verification);
            },
        };
        let show_information = match get_show_information(self.show_information.as_str()) {
            Some(c) => c,
            None => {
                return Err(OptionError::ShowInformation);
            },
        };
        let current_dir = match get_current_dir(self.current_dir.as_str()) {
            Some(c) => c,
            None => {
                return Err(OptionError::CurrentDir);
            },
        };
        let show_console = match get_show_console(self.console.as_str(), runner_name) {
            Some(c) => c,
            None => {
                return Err(OptionError::Console);
            },
        };
        let level = if self.compression > MAX_LEVEL {
            MAX_LEVEL as i32
        } else {
            self.compression as i32
        };
        Ok(
            Settings {
                unpack_target,
                versioning,
                verification,
                show_information,
                current_dir,
                show_console,
                level,
            },
        )
    }
}

} // verus!
