//! Writing one file into the files API of an IPFS daemon: where it goes,
//! what is asked of the daemon, and what to do with the daemon's reply.

use crate::error::{ConfigError, Error};
use vstd::prelude::*;
use vstd::string::*;

verus! {

/// How often a write is tried again after the daemon refused it.
pub const RETRIES: usize = 10;

/// Where a file of the export lies in the daemon's files: under the
/// directory of the run.
pub open spec fn publish_path(namespace: Seq<char>, path: Seq<char>) -> Seq<char> {
    "/"@ + namespace + "/"@ + path
}

/// The directory of a run in the daemon's files.
pub open spec fn root_path(namespace: Seq<char>) -> Seq<char> {
    "/"@ + namespace
}

/// Two runs with different directories write to different paths, and within
/// one run different files do.
pub proof fn lemma_runs_do_not_collide(a: Seq<char>, p: Seq<char>, b: Seq<char>, q: Seq<char>)
    requires
        a.len() == b.len(),
        publish_path(a, p) == publish_path(b, q),
    ensures
        a == b,
        p == q,
{
    reveal_strlit("/");
    let left = publish_path(a, p);
    let right = publish_path(b, q);
    let n = a.len() as int;
    assert(a =~= left.subrange(1, 1 + n));
    assert(b =~= right.subrange(1, 1 + n));
    assert(p =~= left.skip(2 + n));
    assert(q =~= right.skip(2 + n));
}

/// Where a file of the export lies in the daemon's files.
pub fn path_in(namespace: &str, path: &str) -> (full: String)
    ensures
        full@ == publish_path(namespace@, path@),
{
    let mut full = String::from_str("/");
    full.append(namespace);
    full.append("/");
    full.append(path);
    full
}

/// The directory of a run in the daemon's files.
pub fn root_of(namespace: &str) -> (root: String)
    ensures
        root@ == root_path(namespace@),
{
    let mut root = String::from_str("/");
    root.append(namespace);
    root
}

/// What the daemon is asked when a file is written.
#[derive(Debug, PartialEq, Eq)]
pub struct FilesWrite {
    /// Where the file goes.
    pub path: String,
    /// Make the file if it is not there.
    pub create: bool,
    /// Make the directories above it that are not there.
    pub parents: bool,
    /// Drop what the file held before.
    pub truncate: bool,
    /// The version of the content ids to use.
    pub cid_version: i32,
}

/// What the daemon said to one attempt to write a file.
#[derive(Debug, PartialEq, Eq)]
pub enum Reply {
    /// The file is written, and the daemon holds `size` bytes for it.
    Stored { size: usize },
    /// The request failed.
    Refused { text: String },
}

/// A file that is being written: what is asked of the daemon, and how often
/// it has been asked.
#[derive(Debug)]
pub struct WriteFile {
    options: FilesWrite,
    len: usize,
    attempt: usize,
    max_attempts: usize,
}

/// A `WriteFile` as plain values.
pub struct WriteFileView {
    /// Where the file goes.
    pub path: Seq<char>,
    /// Whether the file is made if it is not there.
    pub create: bool,
    /// Whether the directories above it are made if they are not there.
    pub parents: bool,
    /// Whether what the file held before is dropped.
    pub truncate: bool,
    /// The version of the content ids to use.
    pub cid_version: int,
    /// The number of bytes that are sent.
    pub len: nat,
    /// The number of the attempt that is under way, from one.
    pub attempt: nat,
    /// The number of attempts that may be made.
    pub max_attempts: nat,
}

/// What to do after an attempt.
#[derive(Debug)]
pub enum Verdict {
    /// The file is written.
    Done,
    /// The same request is to be sent again.
    Retry(WriteFile),
    /// The file is given up.
    Failed(Error),
}

impl View for WriteFile {
    type V = WriteFileView;

    closed spec fn view(&self) -> WriteFileView {
        WriteFileView {
            path: self.options.path@,
            create: self.options.create,
            parents: self.options.parents,
            truncate: self.options.truncate,
            cid_version: self.options.cid_version as int,
            len: self.len as nat,
            attempt: self.attempt as nat,
            max_attempts: self.max_attempts as nat,
        }
    }
}

/// The options of every write: the file and the directories above it are
/// made where they are missing, and what the file held is dropped.
pub open spec fn is_write_to(options: FilesWrite, path: Seq<char>) -> bool {
    &&& options.path@ == path
    &&& options.create
    &&& options.parents
    &&& options.truncate
    &&& options.cid_version == 1
}

/// Why a reply is no success, if it is none: the daemon refused the
/// request, which may pass, or it holds another number of bytes than the
/// `len` that were sent, which will not.
pub open spec fn reply_failure(reply: Reply, len: nat) -> Option<Error> {
    match reply {
        Reply::Stored { size } => if size == len {
            None
        } else {
            Some(Error::MismatchedSizes { data: len as usize, ipfs: size })
        },
        Reply::Refused { text } => Some(Error::Ipfs { text }),
    }
}

/// Begins writing `len` bytes at `path`, with at most `max_attempts`
/// attempts. Zero attempts are refused.
pub fn write_file(path: String, len: usize, max_attempts: usize) -> (r: Result<WriteFile, Error>)
    ensures
        max_attempts == 0 ==> r == Err::<WriteFile, Error>(
            Error::Config { source: ConfigError::MaxAttempts },
        ),
        max_attempts > 0 ==> (r matches Ok(w) && w@ == WriteFileView {
            path: path@,
            create: true,
            parents: true,
            truncate: true,
            cid_version: 1,
            len: len as nat,
            attempt: 1,
            max_attempts: max_attempts as nat,
        }),
{
    if max_attempts == 0 {
        return Err(Error::Config { source: ConfigError::MaxAttempts });
    }
    let options = FilesWrite { path, create: true, parents: true, truncate: true, cid_version: 1 };
    Ok(WriteFile { options, len, attempt: 1, max_attempts })
}

impl WriteFile {
    #[verifier::type_invariant]
    spec fn inv(self) -> bool {
        &&& 1 <= self.attempt <= self.max_attempts
        &&& is_write_to(self.options, self.options.path@)
    }

    /// What is asked of the daemon, in every attempt.
    pub fn options(&self) -> (options: &FilesWrite)
        ensures
            is_write_to(*options, self@.path),
            options.create == self@.create,
            options.parents == self@.parents,
            options.truncate == self@.truncate,
            options.cid_version == self@.cid_version,
    {
        proof {
            use_type_invariant(self);
        }
        &self.options
    }

    /// The number of the attempt that is under way, from one.
    pub fn attempt(&self) -> (n: usize)
        ensures
            n == self@.attempt,
            1 <= n <= self@.max_attempts,
    {
        proof {
            use_type_invariant(self);
        }
        self.attempt
    }

    /// What to do after the daemon replied to the attempt under way.
    ///
    /// A file of which the daemon holds as many bytes as were sent is done.
    /// After a failure that may pass the request is sent again, unless this
    /// was the last attempt that may be made. Any other failure gives the
    /// file up at once, and so does a failure of the last attempt.
    pub fn replied(self, reply: Reply) -> (verdict: Verdict)
        ensures
            match reply_failure(reply, self@.len) {
                None => verdict is Done,
                Some(cause) => if cause.transient() && self@.attempt < self@.max_attempts {
                    verdict matches Verdict::Retry(next) && next@ == WriteFileView {
                        attempt: self@.attempt + 1,
                        ..self@
                    }
                } else {
                    verdict matches Verdict::Failed(e) && e == cause
                },
            },
    {
        proof {
            use_type_invariant(&self);
        }
        let cause = match reply {
            Reply::Stored { size } => {
                if size == self.len {
                    return Verdict::Done;
                }
                Error::MismatchedSizes { data: self.len, ipfs: size }
            },
            Reply::Refused { text } => Error::ipfs(text),
        };
        if cause.is_transient() && self.attempt < self.max_attempts {
            Verdict::Retry(
                WriteFile {
                    options: self.options,
                    len: self.len,
                    attempt: self.attempt + 1,
                    max_attempts: self.max_attempts,
                },
            )
        } else {
            Verdict::Failed(cause)
        }
    }
}

} // verus!
