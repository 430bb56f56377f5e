//! A safety kernel for native extensions of a garbage-collected host VM.
//!
//! Native code never holds a value of the host directly. It holds a
//! [`mem::Handle`]: a raw reference to the value, the kind it is held
//! under, and the serial of the scope that roots it. Scopes nest strictly,
//! each one a rooting region on the stack of its VM instance
//! ([`vm::internal::Isolate`]), and a handle is valid exactly while its
//! region is entered. Contexts ([`vm::Context`]) are views of the VM that
//! are bound to a scope. Entering a nested context fences the enclosing one
//! off until the nested one is done.
//!
//! The memory of buffers belongs to the host, so the borrow rules for it
//! are kept at run time, by a ledger of claims
//! ([`vm::internal::Ledger`]). Each VM instance has a class registry of its
//! own ([`vm::ClassMap`]).
//!
//! The kernel keeps its own account of what native code asked of the host:
//! the regions that are entered, the exception that is pending, the
//! properties that were set. It makes no call into a host. A caller that
//! drives a live host does, around the kernel's operations, in the host
//! what the account records.
pub mod macro_internal;
pub mod mem;
pub mod vm;
