use vstd::prelude::*;
use crate::error::LedgerError;

verus! {

/// Directory under the user's documents folder that belongs to the application.
pub const APP_DIR_NAME: &'static str = "Ironbank";

/// Directory under [`APP_DIR_NAME`] that holds the ledgers.
pub const LEDGERS_DIR_NAME: &'static str = "ledgers";

/// What resolving the ledgers directory does on disk.
#[derive(Debug, Clone, Copy, PartialEq, Eq)]
pub enum DirAction {
    /// The directory is there: use it as it is.
    UseExisting,
    /// The directory is missing: create it, with its parents.
    Create,
}

/// The outcome of resolving the ledgers directory when the documents folder
/// was found or not, and the directory exists or not.
pub open spec fn resolve_outcome(documents_found: bool, dir_exists: bool) -> Result<DirAction, LedgerError> {
    if !documents_found {
        Err(LedgerError::DirectoryUnavailable)
    } else if dir_exists {
        Ok(DirAction::UseExisting)
    } else {
        Ok(DirAction::Create)
    }
}

/// Decides how to resolve the ledgers directory: it fails only where the
/// documents folder is unknown, and creates the directory only where it is
/// missing.
pub fn resolve_action(documents_found: bool, dir_exists: bool) -> (r: Result<DirAction, LedgerError>)
    ensures
        r == resolve_outcome(documents_found, dir_exists),
{
    if !documents_found {
        Err(LedgerError::DirectoryUnavailable)
    } else if dir_exists {
        Ok(DirAction::UseExisting)
    } else {
        Ok(DirAction::Create)
    }
}

/// Resolving is idempotent: once it has succeeded the directory exists, and
/// resolving again succeeds without creating anything.
pub proof fn lemma_resolve_idempotent(documents_found: bool, dir_exists: bool)
    requires
        resolve_outcome(documents_found, dir_exists) is Ok,
    ensures
        resolve_outcome(documents_found, true) == Ok::<DirAction, LedgerError>(DirAction::UseExisting),
{
}

/// The error for a failed read, write, copy or removal: `NotFound` where the
/// system reported a missing path, else `Io`; both keep the system's message.
pub fn io_failure(not_found: bool, message: String) -> (r: LedgerError)
    ensures
        not_found ==> r == LedgerError::NotFound(message),
        !not_found ==> r == LedgerError::Io(message),
{
    if not_found {
        LedgerError::NotFound(message)
    } else {
        LedgerError::Io(message)
    }
}

/// The operating systems that a file manager can be opened on.
#[derive(Debug, Clone, Copy, PartialEq, Eq)]
pub enum HostOs {
    Windows,
    MacOs,
    Linux,
    Other,
}

/// The command that opens a directory in the file manager of `os`, if it has one.
pub open spec fn file_manager_of(os: HostOs) -> Option<Seq<char>> {
    match os {
        HostOs::Windows => Some("explorer"@),
        HostOs::MacOs => Some("open"@),
        HostOs::Linux => Some("xdg-open"@),
        HostOs::Other => None,
    }
}

/// The program to launch, with the directory as its one argument, to show a
/// directory in the file manager of `os`; `None` where there is none to
/// launch.
pub fn file_manager_command(os: HostOs) -> (r: Option<&'static str>)
    ensures
        match r {
            Some(c) => file_manager_of(os) == Some(c@),
            None => file_manager_of(os) is None,
        },
{
    match os {
        HostOs::Windows => Some("explorer"),
        HostOs::MacOs => Some("open"),
        HostOs::Linux => Some("xdg-open"),
        HostOs::Other => None,
    }
}

} // verus!
