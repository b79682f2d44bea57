//! Inspection of values: a `Value` tree that types present of themselves,
//! visitors over it, and its conversion into an owned form.
pub mod value;
pub mod owned;
pub mod visit;
pub mod valuable;
pub mod atomic;
pub mod laws;
