//! Errors of instantiation, of host calls and of handlers.
use vstd::prelude::*;

verus! {

/// Why a module could not be instantiated.
#[derive(Clone, Debug, PartialEq, Eq)]
pub enum InstantiationError {
    /// No host function has the imported name.
    UnresolvedImport(String),
    /// The module exports no linear memory.
    MissingMemoryExport,
    /// The instance already ran a handler.
    InstanceConsumed,
    /// The sandbox refused the module, with its description.
    Sandbox(String),
}

/// A failure raised on the host side of the boundary; inside the sandbox it
/// becomes a trap.
#[derive(Clone, Debug, PartialEq, Eq)]
pub enum HostError {
    /// The handler ran longer than its timeout.
    HandlerTimeout,
    /// The guest called `abort`.
    MappingAborted { location: String, message: String },
    /// A read or write out of the guest memory's range, or an unusable
    /// pointer from the guest's allocator.
    SandboxMemoryAccess,
    /// The guest's allocator failed.
    SandboxMemoryFull,
    /// A host function failed; `function` is its full name.
    HostImportError { function: String, message: String },
    /// No host function has this index.
    UnknownFunctionIndex(usize),
}

/// How a guest invocation ended in failure.
#[derive(Clone, Debug, PartialEq, Eq)]
pub enum Trap {
    /// A failure raised by the host.
    Host(HostError),
    /// A trap of the sandbox itself, with its description.
    Sandbox(String),
}

/// A handler that failed, with the failure that ended it.
#[derive(Clone, Debug, PartialEq, Eq)]
pub struct HandlerFailed {
    pub handler_name: String,
    pub underlying: Trap,
}

} // verus!
