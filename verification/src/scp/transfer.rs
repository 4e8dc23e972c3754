//! What is copied, and in which direction.
use crate::scp::wire::{
    download_command, law_command_ends_with_the_path, remote_command, upload_command,
};
use std::path::PathBuf;
use vstd::prelude::*;

verus! {

/// `std::path::PathBuf`, carried along unread.
#[verifier::external_type_specification]
#[verifier::external_body]
pub struct ExPathBuf(std::path::PathBuf);

/// A copy to the remote end or from it.
#[derive(Debug)]
pub enum ScpTransfer {
    Upload { local: PathBuf, remote: String },
    Download { remote: String, local: PathBuf },
}

impl ScpTransfer {
    /// The path at the remote end.
    pub open spec fn remote(&self) -> Seq<char> {
        match self {
            ScpTransfer::Upload { remote, .. } => remote@,
            ScpTransfer::Download { remote, .. } => remote@,
        }
    }

    /// A copy's remote path is the one that it was given, in either direction, and what runs at the remote
    /// end ends with it.
    pub proof fn law_remote_path_is_kept(self, recursive: bool)
        ensures
            self matches ScpTransfer::Upload { remote, .. } ==> self.remote() == remote@
                && remote_command(recursive, true, self.remote()) == (if recursive {
                "scp -r -t "@
            } else {
                "scp -t "@
            }) + remote@,
            self matches ScpTransfer::Download { remote, .. } ==> self.remote() == remote@
                && remote_command(recursive, false, self.remote()) == (if recursive {
                "scp -r -f "@
            } else {
                "scp -f "@
            }) + remote@,
    {
        law_command_ends_with_the_path(recursive, true, self.remote());
        law_command_ends_with_the_path(recursive, false, self.remote());
    }

    /// The command that runs at the remote end: a sink for an upload, a source for a download.
    pub fn command(&self, recursive: bool) -> (r: String)
        ensures
            r@ == remote_command(recursive, self is Upload, self.remote()),
    {
        match self {
            ScpTransfer::Upload { remote, .. } => upload_command(recursive, remote.as_str()),
            ScpTransfer::Download { remote, .. } => download_command(recursive, remote.as_str()),
        }
    }
}

} // verus!
