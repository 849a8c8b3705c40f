//! Case-insensitive path lookup over a store that resolves exact paths only.
//!
//! [`caseless::CaselessFs`] wraps a [`store::Store`] and opens a file by a
//! path whose letter case need not be that of the real path. It finds the
//! real paths level by level from the store's directory listings.
//!
//! - [`path`]: paths as sequences of components.
//! - [`text`]: how a requested segment is held against an entry's name.
//! - [`store`]: the capability that is wrapped.
//! - [`resolve`]: what resolving a path means, as functions of a store and a
//!   path.
//! - [`caseless`]: the caseless filesystem itself.
//! - [`laws`]: what holds of resolution for every store and every path.

pub mod caseless;
pub mod laws;
pub mod path;
pub mod resolve;
pub mod store;
pub mod text;
