//! The failures that end a command.

use vstd::prelude::*;
use vstd::string::StringExecFns;

verus! {

/// Why a scan or a deletion stopped. Each failure names the path it is about.
#[derive(Clone, Debug)]
pub enum CleanError {
    /// The walk could not read an entry.
    Traversal { path: String, cause: String },
    /// A selected path could not be inspected before its removal.
    Metadata { path: String, cause: String },
    /// A selected path is itself a symbolic link, and is left alone.
    SymlinkRefusal { path: String },
    /// The removal of a selected path failed.
    Deletion { path: String, cause: String },
}

/// A `CleanError` as contracts see it.
pub enum CleanErrorView {
    Traversal { path: Seq<char>, cause: Seq<char> },
    Metadata { path: Seq<char>, cause: Seq<char> },
    SymlinkRefusal { path: Seq<char> },
    Deletion { path: Seq<char>, cause: Seq<char> },
}

impl View for CleanError {
    type V = CleanErrorView;

    open spec fn view(&self) -> CleanErrorView {
        match self {
            CleanError::Traversal { path, cause } => CleanErrorView::Traversal {
                path: path@,
                cause: cause@,
            },
            CleanError::Metadata { path, cause } => CleanErrorView::Metadata {
                path: path@,
                cause: cause@,
            },
            CleanError::SymlinkRefusal { path } => CleanErrorView::SymlinkRefusal { path: path@ },
            CleanError::Deletion { path, cause } => CleanErrorView::Deletion {
                path: path@,
                cause: cause@,
            },
        }
    }
}

/// What a failure tells the user: what could not be done, the path it is
/// about and, where there is one, the cause.
pub open spec fn message_of(error: CleanErrorView) -> Seq<char> {
    match error {
        CleanErrorView::Traversal { path, cause } => "failed to read "@ + path + ": "@ + cause,
        CleanErrorView::Metadata { path, cause } => "failed to stat "@ + path + ": "@ + cause,
        CleanErrorView::SymlinkRefusal { path } => "Refusing to delete symlink: "@ + path,
        CleanErrorView::Deletion { path, cause } => "failed to remove "@ + path + ": "@ + cause,
    }
}

/// The path that a failure is about.
pub open spec fn path_of(error: CleanErrorView) -> Seq<char> {
    match error {
        CleanErrorView::Traversal { path, .. } => path,
        CleanErrorView::Metadata { path, .. } => path,
        CleanErrorView::SymlinkRefusal { path } => path,
        CleanErrorView::Deletion { path, .. } => path,
    }
}

/// A head, a path, a colon and a cause, in one text.
fn with_cause(head: &str, path: &str, cause: &str) -> (text: String)
    ensures
        text@ == head@ + path@ + ": "@ + cause@,
{
    let mut text = String::from_str(head);
    text.append(path);
    text.append(": ");
    text.append(cause);
    text
}

impl CleanError {
    /// What the failure tells the user.
    pub fn message(&self) -> (text: String)
        ensures
            text@ == message_of(self@),
    {
        match self {
            CleanError::Traversal { path, cause } => with_cause(
                "failed to read ",
                path.as_str(),
                cause.as_str(),
            ),
            CleanError::Metadata { path, cause } => with_cause(
                "failed to stat ",
                path.as_str(),
                cause.as_str(),
            ),
            CleanError::SymlinkRefusal { path } => {
                let mut text = String::from_str("Refusing to delete symlink: ");
                text.append(path.as_str());
                text
            },
            CleanError::Deletion { path, cause } => with_cause(
                "failed to remove ",
                path.as_str(),
                cause.as_str(),
            ),
        }
    }

    /// The path that the failure is about.
    pub fn path(&self) -> (path: String)
        ensures
            path@ == path_of(self@),
    {
        match self {
            CleanError::Traversal { path, .. } => path.clone(),
            CleanError::Metadata { path, .. } => path.clone(),
            CleanError::SymlinkRefusal { path } => path.clone(),
            CleanError::Deletion { path, .. } => path.clone(),
        }
    }

    /// A copy of the failure.
    pub fn duplicate(&self) -> (copy: CleanError)
        ensures
            copy@ == self@,
    {
        match self {
            CleanError::Traversal { path, cause } => CleanError::Traversal {
                path: path.clone(),
                cause: cause.clone(),
            },
            CleanError::Metadata { path, cause } => CleanError::Metadata {
                path: path.clone(),
                cause: cause.clone(),
            },
            CleanError::SymlinkRefusal { path } => CleanError::SymlinkRefusal { path: path.clone() },
            CleanError::Deletion { path, cause } => CleanError::Deletion {
                path: path.clone(),
                cause: cause.clone(),
            },
        }
    }
}

} // verus!
