//! What a server asks its caller to do: answer at once, or first touch the
//! file system.
use vstd::prelude::*;

use crate::message::Response;

verus! {

/// The next step of a server after a message: a reply (or none), or a file
/// operation whose result the server then turns into its reply. Paths are
/// given as their components, to be joined by the caller.
pub enum ServerStep {
    Reply(Option<Response>),
    /// Remove the file at this path.
    RemoveFile(Vec<String>),
    /// List the file names of this directory.
    ListDir(Vec<String>),
    /// Read this file as text.
    ReadFile(Vec<String>),
    /// Write the text to this file.
    WriteFile(Vec<String>, String),
}

} // verus!
