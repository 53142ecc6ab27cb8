//! The ledger directory service: which files of the ledgers directory are
//! ledgers, what each one is called, in which order they are listed, how the
//! directory is resolved, and where the bundled tutorial ledger comes from.

pub mod directory;
pub mod error;
pub mod listing;
pub mod naming;
pub mod tutorial;

pub use directory::{file_manager_command, io_failure, resolve_action, DirAction, HostOs};
pub use error::LedgerError;
pub use listing::{list_ledgers, DirEntryInfo, LedgerInfo};
pub use naming::{display_name, ledger_name};
pub use tutorial::{locate_tutorial, seed_source, ResourceCandidate};
