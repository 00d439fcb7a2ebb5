//! The channel primitive: one OS FIFO wrapped as a raw byte stream.
//!
//! A channel moves from registered (FIFO node created under the
//! transient directory, owner-only access) to open (read and write) to
//! released (backing file removed). The channel carries no framing: the
//! `data_format` contract between producer and consumer defines it.
//!
//! There is no implicit cleanup: the owner must call `release` on every
//! exit path — normal completion, early error, or cancellation — so that
//! no orphaned FIFO file is left behind.

use vstd::prelude::*;

use crate::repo::RepoError;
use crate::sys;
use vstd::string::StringExecFns;

verus! {

/// The text of the well-known transient directory for FIFO files.
pub open spec fn pipe_dir_text() -> Seq<char> {
    "/tmp/wpipe"@
}

/// The well-known process-wide directory holding the FIFO files.
pub fn pipe_dir() -> (r: String)
    ensures
        r@ == pipe_dir_text(),
{
    "/tmp/wpipe".to_owned()
}

/// One OS-backed FIFO, open for reading and writing, with its backing
/// path remembered for cleanup.
pub struct NamedPipe {
    fd: i32,
    path: String,
}

impl NamedPipe {
    /// The filesystem path of the FIFO backing this channel.
    pub closed spec fn spec_path(&self) -> Seq<char> {
        self.path@
    }

    /// Creates a fresh channel: makes sure the transient directory
    /// exists, creates a FIFO node under a freshly generated name with
    /// owner-only access, and opens it for reading and writing. Any
    /// step failing is a `ChannelInitFailure` for this channel, and
    /// leaves no file behind.
    pub fn new() -> (r: Result<NamedPipe, RepoError>)
        ensures
            (match r {
                Ok(p) => p.spec_path().len() > pipe_dir_text().len(),
                Err(e) => e == RepoError::ChannelInitFailure,
            }),
    {
        let dir = pipe_dir();
        if !sys::make_dir(&dir, 0o700) {
            return Err(RepoError::ChannelInitFailure);
        }
        let id = sys::fresh_pipe_id();
        let mut path = dir;
        path.append("/");
        path.append(id.as_str());
        if !sys::make_fifo(&path, 0o700) {
            return Err(RepoError::ChannelInitFailure);
        }
        proof {
            reveal_strlit("/");
        }
        match sys::open_rdwr(&path) {
            Some(fd) => Ok(NamedPipe { fd, path }),
            None => {
                sys::unlink_path(&path);
                Err(RepoError::ChannelInitFailure)
            },
        }
    }

    /// The backing path, for addressing the channel to a child process.
    pub fn path(&self) -> (r: &String)
        ensures
            r@ == self.spec_path(),
    {
        &self.path
    }

    /// Writes bytes into the channel; how many the pipe took, if the
    /// write succeeded at all.
    pub fn write_bytes(&self, buf: &Vec<u8>) -> (r: Option<usize>)
        ensures
            (match r {
                Some(n) => n <= buf@.len(),
                None => true,
            }),
    {
        sys::fd_write(self.fd, buf)
    }

    /// Reads whatever bytes the channel delivers next, blocking until
    /// some arrive; an empty vector is end-of-stream.
    pub fn read_chunk(&self) -> (r: Option<Vec<u8>>)
        ensures
            (match r {
                Some(v) => v@.len() <= 4096,
                None => true,
            }),
    {
        sys::fd_read_chunk(self.fd)
    }

    /// Releases the channel: removes the backing FIFO file and closes
    /// the descriptor. Reports whether the file was removed.
    pub fn release(self) -> bool {
        let ok = sys::unlink_path(&self.path);
        sys::fd_close(self.fd);
        ok
    }
}

} // verus!
