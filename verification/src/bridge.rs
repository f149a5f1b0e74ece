//! The interface the generated wrappers expect from the runtime bridge.
//!
//! The runtime call-dispatch layer — thread attachment, pending-exception
//! tracking, handle lifetime management — is an external collaborator; the
//! generated code delegates every foreign call to it.  The generator itself
//! only needs the signature contract below, which each generated wrapper
//! type implements in its own crate.

use vstd::prelude::*;

verus! {

/// Implemented by every type that can cross the foreign-function bridge:
/// yields the type's foreign signature string.
///
/// Returning a wrong signature makes the runtime bridge fail the call; it
/// causes no unsafety.
pub trait JniSignature {
    /// The foreign signature of `Self`.
    fn signature() -> &'static str;
}

} // verus!
