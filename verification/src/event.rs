//! The traits and error type that events and their handling share.

use std::any::TypeId;
use vstd::prelude::*;

verus! {

/// `std::any::TypeId`, carried through the library as an opaque value.
#[verifier::external_type_specification]
#[verifier::external_body]
pub struct ExTypeId(TypeId);

/// Calls `TypeId::of`. Nothing is claimed of the identifier beyond its
/// type: the standard library documents it as unique per type within one
/// build, which no plain value here can state.
#[verifier::external_body]
fn type_id_of<T: ?Sized + 'static>() -> TypeId {
    TypeId::of::<T>()
}

/// An event that listeners can be registered for.
pub trait Event: Send + Sync + 'static {
    /// The identifier of the event's type.
    fn type_id(&self) -> TypeId {
        type_id_of::<Self>()
    }
}

/// The errors that handling an event can report.
#[derive(Debug)]
pub enum EventError {
    HandlerError(String),
}

} // verus!
