//! What generated module code calls into. These items are public for its
//! sake and are not meant to be called by hand.
pub use crate::vm::internal::initialize_module;
