//! The trusted boundary: every call into an outside crate, or into a part
//! of the standard library that carries no specification here, goes
//! through exactly one small wrapper in this module. Each wrapper's
//! contract states only what the called function's source or
//! documentation shows.

use vstd::prelude::*;

use tokio::process::{Child, Command};

verus! {

#[verifier::external_type_specification]
#[verifier::external_body]
pub struct ExCommand(Command);

#[verifier::external_type_specification]
#[verifier::external_body]
pub struct ExChild(Child);

/// The characters of a string, as `str::chars` yields them.
/// Relies on `str::chars`: it iterates the string's characters in order.
#[verifier::external_body]
pub fn chars_of(s: &str) -> (r: Vec<char>)
    ensures
        r@ == s@,
{
    s.chars().collect()
}

/// Relies on `String`'s `FromIterator<char>`: collecting characters
/// builds the string of exactly those characters, in order.
#[verifier::external_body]
pub fn string_from_chars(v: &Vec<char>) -> (r: String)
    ensures
        r@ == v@,
{
    v.iter().collect()
}

/// The characters a byte sequence decodes to under UTF-8, if it is
/// valid UTF-8.
pub uninterp spec fn utf8_chars(bytes: Seq<u8>) -> Option<Seq<char>>;

/// Relies on `String::from_utf8`: it succeeds exactly on valid UTF-8 and
/// yields the decoded characters, a function of the bytes alone.
#[verifier::external_body]
pub fn utf8_to_string(bytes: &Vec<u8>) -> (r: Option<String>)
    ensures
        match r {
            Some(s) => utf8_chars(bytes@) == Some(s@),
            None => utf8_chars(bytes@) is None,
        },
{
    String::from_utf8(bytes.clone()).ok()
}

/// The lowercase hexadecimal SHA-256 digest of a byte sequence: a
/// function of the bytes alone.
pub uninterp spec fn sha256_hex(bytes: Seq<u8>) -> Seq<char>;

/// Relies on `sha256::digest` on a byte slice: it returns the hex form
/// of the 32-byte SHA-256 digest, 64 characters, determined by the input
/// bytes alone.
#[verifier::external_body]
pub fn sha256_hex_of(bytes: &Vec<u8>) -> (r: String)
    ensures
        r@ == sha256_hex(bytes@),
        r@.len() == 64,
{
    sha256::digest(bytes.as_slice())
}

/// Relies on `uuid::Uuid::new_v4` and its `Display` form: a freshly
/// generated random identifier. Nothing is promised of the value.
#[verifier::external_body]
pub fn fresh_pipe_id() -> String {
    uuid::Uuid::new_v4().to_string()
}

/// Relies on `nix::unistd::mkdir`: creates the directory; an
/// already-existing directory counts as present.
#[verifier::external_body]
pub fn make_dir(path: &String, mode: u32) -> bool {
    match nix::unistd::mkdir(path.as_str(), nix::sys::stat::Mode::from_bits_truncate(mode)) {
        Ok(()) => true,
        Err(nix::errno::Errno::EEXIST) => true,
        Err(_) => false,
    }
}

/// Relies on `nix::unistd::mkfifo`: creates a FIFO special file at the
/// path with the given access mode; fails if the path already exists.
#[verifier::external_body]
pub fn make_fifo(path: &String, mode: u32) -> bool {
    nix::unistd::mkfifo(path.as_str(), nix::sys::stat::Mode::from_bits_truncate(mode)).is_ok()
}

/// Relies on `nix::fcntl::open` with `O_RDWR`: on success the returned
/// file descriptor is non-negative.
#[verifier::external_body]
pub fn open_rdwr(path: &String) -> (r: Option<i32>)
    ensures
        match r {
            Some(fd) => fd >= 0,
            None => true,
        },
{
    nix::fcntl::open(path.as_str(), nix::fcntl::OFlag::O_RDWR, nix::sys::stat::Mode::empty()).ok()
}

/// Relies on `nix::fcntl::open` with `O_RDONLY`: on success the
/// returned file descriptor is non-negative.
#[verifier::external_body]
pub fn open_rdonly(path: &String) -> (r: Option<i32>)
    ensures
        match r {
            Some(fd) => fd >= 0,
            None => true,
        },
{
    nix::fcntl::open(path.as_str(), nix::fcntl::OFlag::O_RDONLY, nix::sys::stat::Mode::empty())
        .ok()
}

/// Relies on `nix::unistd::read`: reads at most the buffer's size; the
/// returned bytes are whatever the descriptor delivered (an empty vector
/// is end-of-stream).
#[verifier::external_body]
pub fn fd_read_chunk(fd: i32) -> (r: Option<Vec<u8>>)
    ensures
        match r {
            Some(v) => v@.len() <= 4096,
            None => true,
        },
{
    let mut buf = [0u8; 4096];
    match nix::unistd::read(fd, &mut buf) {
        Ok(n) => Some(buf[..n].to_vec()),
        Err(_) => None,
    }
}

/// Relies on `nix::unistd::write`: writes at most the buffer's length
/// and reports how many bytes were taken.
#[verifier::external_body]
pub fn fd_write(fd: i32, buf: &Vec<u8>) -> (r: Option<usize>)
    ensures
        match r {
            Some(n) => n <= buf@.len(),
            None => true,
        },
{
    nix::unistd::write(fd, buf.as_slice()).ok()
}

/// Relies on `nix::unistd::close`.
#[verifier::external_body]
pub fn fd_close(fd: i32) -> bool {
    nix::unistd::close(fd).is_ok()
}

/// Relies on `nix::unistd::unlink`: removes the directory entry.
#[verifier::external_body]
pub fn unlink_path(path: &String) -> bool {
    nix::unistd::unlink(path.as_str()).is_ok()
}

/// Relies on `nix::dir::Dir`: lists the names of the entries of one
/// directory, including the `.` and `..` entries, in no promised order.
#[verifier::external_body]
pub fn list_dir(path: &String) -> Option<Vec<String>> {
    let mut dir = nix::dir::Dir::open(
        path.as_str(),
        nix::fcntl::OFlag::O_RDONLY | nix::fcntl::OFlag::O_DIRECTORY,
        nix::sys::stat::Mode::empty(),
    ).ok()?;
    Some(
        dir.iter().filter_map(|e| e.ok()).map(
            |e| e.file_name().to_string_lossy().into_owned(),
        ).collect(),
    )
}

/// The program a command was built for.
pub uninterp spec fn command_program(c: Command) -> Seq<char>;

/// The environment entries explicitly set on a command (on top of the
/// inherited environment).
pub uninterp spec fn command_envs(c: Command) -> Map<Seq<char>, Seq<char>>;

/// A command on which no environment entry has been set yet.
pub open spec fn no_envs_set(c: Command) -> bool {
    command_envs(c) =~= Map::empty()
}

/// Relies on `tokio::process::Command::new`: a command for the given
/// program, inheriting the parent's environment with nothing yet set.
#[verifier::external_body]
pub fn command_new(path: &String) -> (r: Command)
    ensures
        command_program(r) == path@,
        no_envs_set(r),
{
    Command::new(path.as_str())
}

/// Relies on `tokio::process::Command::env`: sets one environment
/// variable for the child, overwriting an earlier entry of the same name.
#[verifier::external_body]
pub fn command_env(c: &mut Command, name: &String, value: &String)
    ensures
        command_program(*final(c)) == command_program(*old(c)),
        command_envs(*final(c)) == command_envs(*old(c)).insert(name@, value@),
{
    c.env(name.as_str(), value.as_str());
}

/// Relies on `tokio::process::Command::spawn`: starts the program as a
/// child process; nothing is promised of the outcome.
#[verifier::external_body]
pub fn command_spawn(c: &mut Command) -> Option<Child> {
    c.spawn().ok()
}

/// Relies on `tokio::process::Child::try_wait`: a non-blocking poll that
/// fails only if the wait itself cannot be performed.
#[verifier::external_body]
pub fn child_try_wait_ok(c: &mut Child) -> bool {
    c.try_wait().is_ok()
}

} // verus!
