//! Host-side execution engine for sandboxed mapping modules: the version
//! registry, the import resolver and dispatch table, the arena heap placed in
//! guest memory, the guest data layout, and the per-invocation context.
pub mod abi;
pub mod arena;
pub mod builtins;
pub mod context;
pub mod error;
pub mod guest_string;
pub mod dispatch;
pub mod version;
