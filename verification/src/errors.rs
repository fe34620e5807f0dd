//! The error taxonomy of the catalog: validation failures, conflicts on
//! insertion, missing names on lookup or removal, the empty catalog, and an
//! unavailable backing store.

use vstd::prelude::*;

verus! {

/// Every way a catalog operation can fail.
///
/// `WrongExtension` and `PathNotFound` are validation failures raised before
/// any record is stored. `DuplicateName` is an insertion conflict,
/// `NotFound` a lookup or removal of an absent name, and `EmptyCatalog` a
/// listing of a store with no records. `StorageUnavailable` is reserved for
/// the caller that owns the durable copy of the store: no operation here
/// returns it.
#[derive(Clone, Copy, Debug, PartialEq, Eq, Structural)]
pub enum CatalogError {
    WrongExtension,
    PathNotFound,
    DuplicateName,
    NotFound,
    EmptyCatalog,
    StorageUnavailable,
}

impl CatalogError {
    /// A human-readable description of the failure, for the caller to show.
    pub fn message(&self) -> (r: &'static str)
        ensures
            r@ == match *self {
                CatalogError::WrongExtension => "the file does not have the required extension"@,
                CatalogError::PathNotFound => "no file exists at the given path"@,
                CatalogError::DuplicateName => "a book with this name already exists"@,
                CatalogError::NotFound => "no book with this name exists"@,
                CatalogError::EmptyCatalog => "there are no books"@,
                CatalogError::StorageUnavailable => "the book storage cannot be reached"@,
            },
    {
        match *self {
            CatalogError::WrongExtension => "the file does not have the required extension",
            CatalogError::PathNotFound => "no file exists at the given path",
            CatalogError::DuplicateName => "a book with this name already exists",
            CatalogError::NotFound => "no book with this name exists",
            CatalogError::EmptyCatalog => "there are no books",
            CatalogError::StorageUnavailable => "the book storage cannot be reached",
        }
    }
}

} // verus!
