use vstd::prelude::*;

verus! {

/// Why an operation on the ledgers directory failed.
#[derive(Debug, Clone, PartialEq, Eq)]
pub enum LedgerError {
    /// The platform's documents location could not be determined.
    DirectoryUnavailable,
    /// A read, write, create, copy or spawn failed; holds the system's message.
    Io(String),
    /// The path given does not exist; holds the system's message.
    NotFound(String),
    /// The bundled tutorial ledger is in none of the places it is looked for.
    ResourceMissing,
}

} // verus!
