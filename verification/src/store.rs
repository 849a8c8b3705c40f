//! The storage capability that a caseless filesystem wraps.
//!
//! A store resolves exact, real paths only. In contracts it is a fixed
//! namespace: what opening a path gives, and what listing a path gives, are
//! functions of the store and the path. Everything that is proved of a
//! caseless filesystem is proved of stores that keep to this: a store whose
//! answers change while it is borrowed is outside these contracts.

use crate::path::{PathView, StorePath};
use vstd::prelude::*;

verus! {

/// Why a store could not open a path, list it, or read one of its entries.
#[derive(Clone, Copy, Debug, PartialEq, Eq, Structural)]
pub enum StoreError {
    /// Nothing exists at the path.
    NotFound,
    /// The store refused access.
    PermissionDenied,
    /// Any other failure, with the code that the store gives it.
    Other(i32),
}

/// An entry of a directory.
#[derive(Debug, PartialEq, Eq)]
pub struct Entry {
    /// The entry's name, as raw bytes.
    pub name: Vec<u8>,
}

impl View for Entry {
    type V = Seq<u8>;

    open spec fn view(&self) -> Seq<u8> {
        self.name@
    }
}

impl Clone for Entry {
    fn clone(&self) -> (copy: Self)
        ensures
            copy@ == self@,
    {
        Entry { name: self.name.clone() }
    }
}

/// What a listing yields, entry by entry: a name, or the failure to read that
/// entry.
pub type Entries = Vec<Result<Entry, StoreError>>;

/// What [`Entries`] stand for in contracts.
pub type EntriesView = Seq<Result<Seq<u8>, StoreError>>;

/// What one item of a listing stands for in contracts.
pub open spec fn item_view(item: Result<Entry, StoreError>) -> Result<Seq<u8>, StoreError> {
    match item {
        Ok(entry) => Ok(entry@),
        Err(e) => Err(e),
    }
}

/// What a listing stands for in contracts.
pub open spec fn entries_view(entries: Entries) -> EntriesView {
    entries@.map_values(|item: Result<Entry, StoreError>| item_view(item))
}

/// What the outcome of a listing call stands for in contracts.
pub open spec fn listing_view(outcome: Result<Entries, StoreError>) -> Result<
    EntriesView,
    StoreError,
> {
    match outcome {
        Ok(entries) => Ok(entries_view(entries)),
        Err(e) => Err(e),
    }
}

/// A read-only store: exact-match open, and directory listing.
///
/// [`Store::opened`] and [`Store::listed`] say what the store holds, and the
/// two methods must answer as they say. An implementation overrides them;
/// left alone they describe a store that holds nothing.
pub trait Store {
    /// What a successful open hands out.
    type File;

    /// The outcome of opening exactly `path`.
    open spec fn opened(&self, path: PathView) -> Result<Self::File, StoreError> {
        Err(StoreError::NotFound)
    }

    /// The outcome of listing `path`: the entries in the store's own order,
    /// each a name or a failure, or the failure of the listing as a whole.
    open spec fn listed(&self, path: PathView) -> Result<EntriesView, StoreError> {
        Err(StoreError::NotFound)
    }

    /// Opens the entry at exactly `path`.
    fn open_path(&self, path: &StorePath) -> (outcome: Result<Self::File, StoreError>)
        ensures
            outcome == self.opened(path@),
    ;

    /// Lists the entries of the directory at exactly `path`.
    fn entries_path(&self, path: &StorePath) -> (outcome: Result<Entries, StoreError>)
        ensures
            listing_view(outcome) == self.listed(path@),
    ;
}

} // verus!
