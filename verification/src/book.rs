//! The book record: a name, a file path, and an optional section label.

use vstd::prelude::*;

verus! {

/// The mathematical view of a record: its three fields as character
/// sequences.
pub struct BookView {
    pub name: Seq<char>,
    pub path: Seq<char>,
    pub section: Option<Seq<char>>,
}

/// One catalog record. The `name` identifies the record in a store; the
/// `path` is meant to hold the canonical form of an existing file's path;
/// the `section` is an optional category label.
#[derive(Debug)]
pub struct Book {
    pub name: String,
    pub path: String,
    pub section: Option<String>,
}

/// The view of an optional section label.
pub open spec fn section_view(section: Option<String>) -> Option<Seq<char>> {
    match section {
        Some(s) => Some(s@),
        None => None,
    }
}

impl View for Book {
    type V = BookView;

    open spec fn view(&self) -> BookView {
        BookView {
            name: self.name@,
            path: self.path@,
            section: section_view(self.section),
        }
    }
}

impl Book {
    /// Builds a record from its three fields.
    pub fn new(name: String, path: String, section: Option<String>) -> (r: Book)
        ensures
            r@ == (BookView { name: name@, path: path@, section: section_view(section) }),
    {
        Book { name, path, section }
    }
}

impl Clone for Book {
    /// An exact copy: the clone has the same fields as the original.
    fn clone(&self) -> (r: Book)
        ensures
            r == *self,
    {
        let section = match &self.section {
            Some(s) => Some(s.clone()),
            None => None,
        };
        Book { name: self.name.clone(), path: self.path.clone(), section }
    }
}

} // verus!
