//! The record store: a table of books keyed by name. It enforces that no
//! two records share a name, and offers create, get, list and remove.

use vstd::prelude::*;
use crate::book::{Book, BookView, section_view};
use crate::errors::CatalogError;
use crate::text::str_eq;
use crate::validate::{extension_of, validate_path};

verus! {

/// The views of a sequence of books, in order.
pub open spec fn views_of(books: Seq<Book>) -> Seq<BookView> {
    Seq::new(books.len(), |i: int| books[i]@)
}

/// No two records of `s` share a name.
pub open spec fn unique_names(s: Seq<BookView>) -> bool {
    forall|i: int, j: int|
        #![trigger s[i].name, s[j].name]
        0 <= i < s.len() && 0 <= j < s.len() && i != j ==> s[i].name != s[j].name
}

/// Some record of `s` carries the name.
pub open spec fn contains_name(s: Seq<BookView>, name: Seq<char>) -> bool {
    exists|i: int| 0 <= i < s.len() && (#[trigger] s[i]).name == name
}

/// Appending a record with a fresh name keeps the names unique.
pub proof fn lemma_unique_names_push(s: Seq<BookView>, b: BookView)
    requires
        unique_names(s),
        !contains_name(s, b.name),
    ensures
        unique_names(s.push(b)),
{
    let s2 = s.push(b);
    assert forall|i: int, j: int|
        0 <= i < s2.len() && 0 <= j < s2.len() && i != j implies #[trigger] s2[i].name
        != #[trigger] s2[j].name by {
        if i < s.len() && j < s.len() {
            assert(s2[i] == s[i]);
            assert(s2[j] == s[j]);
        } else if i == s.len() {
            assert(s2[j] == s[j]);
            if s[j].name == b.name {
                assert(contains_name(s, b.name));
            }
        } else {
            assert(s2[i] == s[i]);
            if s[i].name == b.name {
                assert(contains_name(s, b.name));
            }
        }
    }
}

/// Removing a record keeps the names unique.
pub proof fn lemma_unique_names_remove(s: Seq<BookView>, i: int)
    requires
        unique_names(s),
        0 <= i < s.len(),
    ensures
        unique_names(s.remove(i)),
{
    let t = s.remove(i);
    assert forall|p: int, q: int|
        0 <= p < t.len() && 0 <= q < t.len() && p != q implies #[trigger] t[p].name
        != #[trigger] t[q].name by {
        let p0: int = if p < i { p } else { p + 1 };
        let q0: int = if q < i { q } else { q + 1 };
        assert(t[p] == s[p0]);
        assert(t[q] == s[q0]);
    }
}

/// Uniqueness law: once a record with a given name stands in the store, any
/// further record carrying that name is a duplicate, so `create` rejects it
/// and leaves the store unchanged.
pub proof fn lemma_uniqueness(s: Seq<BookView>, b: BookView, c: BookView)
    requires
        c.name == b.name,
    ensures
        contains_name(s.push(b), c.name),
{
    assert(s.push(b)[s.len() as int] == b);
}

/// Round-trip law: adding a fresh record `b` keeps the store well formed,
/// makes `b`'s name present, and leaves `b` as the only record carrying that
/// name — so a lookup of the name yields exactly `b`.
pub proof fn lemma_round_trip(s: Seq<BookView>, b: BookView)
    requires
        unique_names(s),
        !contains_name(s, b.name),
    ensures
        unique_names(s.push(b)),
        contains_name(s.push(b), b.name),
        forall|v: BookView| #[trigger] s.push(b).contains(v) && v.name == b.name ==> v == b,
{
    let s2 = s.push(b);
    lemma_unique_names_push(s, b);
    assert(s2[s.len() as int] == b);
    assert forall|v: BookView| #[trigger] s2.contains(v) && v.name == b.name implies v == b by {
        let i = choose|i: int| 0 <= i < s2.len() && s2[i] == v;
        if i < s.len() {
            assert(s[i] == v);
            assert(contains_name(s, b.name));
        }
    }
}

/// Removal-completeness law: removing the record at position `i` removes its
/// name from the store entirely and leaves every other record present,
/// unchanged and in order.
pub proof fn lemma_remove_completeness(s: Seq<BookView>, i: int)
    requires
        unique_names(s),
        0 <= i < s.len(),
    ensures
        unique_names(s.remove(i)),
        !contains_name(s.remove(i), s[i].name),
        forall|v: BookView|
            v.name != s[i].name ==> (s.contains(v) <==> #[trigger] s.remove(i).contains(v)),
{
    lemma_unique_names_remove(s, i);
    let t = s.remove(i);
    assert forall|j: int| 0 <= j < t.len() implies (#[trigger] t[j]).name != s[i].name by {
        let j0: int = if j < i { j } else { j + 1 };
        assert(t[j] == s[j0]);
    }
    assert forall|v: BookView| v.name != s[i].name && s.contains(v) implies #[trigger] t.contains(
        v,
    ) by {
        let k = choose|k: int| 0 <= k < s.len() && s[k] == v;
        let k2: int = if k < i { k } else { k - 1 };
        assert(t[k2] == s[k]);
    }
    assert forall|v: BookView| v.name != s[i].name && #[trigger] t.contains(v) implies s.contains(
        v,
    ) by {
        let k = choose|k: int| 0 <= k < t.len() && t[k] == v;
        let k0: int = if k < i { k } else { k + 1 };
        assert(t[k] == s[k0]);
    }
}

/// The views of a sequence of books, with one book removed, are the views of
/// the original sequence with the matching position removed.
proof fn lemma_views_of_remove(books: Seq<Book>, i: int)
    requires
        0 <= i < books.len(),
    ensures
        views_of(books.remove(i)) =~= views_of(books).remove(i),
{
    assert forall|j: int| 0 <= j < books.remove(i).len() implies #[trigger] views_of(
        books.remove(i),
    )[j] == views_of(books).remove(i)[j] by {
        let j0: int = if j < i { j } else { j + 1 };
        assert(books.remove(i)[j] == books[j0]);
        assert(views_of(books).remove(i)[j] == views_of(books)[j0]);
    }
}

/// The table of book records. All the records of a well-formed store carry
/// distinct names; every constructor and mutation below preserves that.
pub struct Store {
    books: Vec<Book>,
}

impl View for Store {
    type V = Seq<BookView>;

    closed spec fn view(&self) -> Seq<BookView> {
        views_of(self.books@)
    }
}

impl Store {
    /// The store invariant: no two records share a name.
    pub open spec fn wf(&self) -> bool {
        unique_names(self@)
    }

    /// An empty store.
    pub fn new() -> (r: Store)
        ensures
            r@ == Seq::<BookView>::empty(),
            r.wf(),
    {
        let books: Vec<Book> = Vec::new();
        proof {
            assert(views_of(books@) =~= Seq::<BookView>::empty());
        }
        Store { books }
    }

    /// The number of stored records.
    pub fn len(&self) -> (r: usize)
        ensures
            r == self@.len(),
    {
        self.books.len()
    }

    /// The position of the first record carrying `name`, if any.
    fn index_of(&self, name: &str) -> (r: Option<usize>)
        ensures
            match r {
                Some(i) => 0 <= i < self@.len() && self@[i as int].name == name@,
                None => !contains_name(self@, name@),
            },
    {
        let mut i: usize = 0;
        while i < self.books.len()
            invariant
                i <= self.books.len(),
                forall|j: int| 0 <= j < i ==> (#[trigger] views_of(self.books@)[j]).name != name@,
            decreases self.books.len() - i,
        {
            if str_eq(self.books[i].name.as_str(), name) {
                return Some(i);
            }
            i += 1;
        }
        None
    }

    /// Stores a record. Fails with `DuplicateName`, leaving the store
    /// unchanged, exactly when a record with the same name is already
    /// present; otherwise the record is appended.
    pub fn create(&mut self, book: Book) -> (r: Result<(), CatalogError>)
        requires
            old(self).wf(),
        ensures
            final(self).wf(),
            contains_name(old(self)@, book@.name) ==> r == Err::<(), CatalogError>(
                CatalogError::DuplicateName,
            ) && final(self)@ == old(self)@,
            !contains_name(old(self)@, book@.name) ==> r == Ok::<(), CatalogError>(())
                && final(self)@ == old(self)@.push(book@),
    {
        if let Some(_found) = self.index_of(book.name.as_str()) {
            return Err(CatalogError::DuplicateName);
        }
        let ghost bv = book@;
        proof {
            lemma_unique_names_push(self@, bv);
        }
        self.books.push(book);
        proof {
            assert(views_of(self.books@) =~= views_of(old(self).books@).push(bv));
        }
        Ok(())
    }

    /// Returns an owned copy of the record carrying `name`. Fails with
    /// `NotFound` exactly when no record carries it. In a well-formed store
    /// the name pins the record down (see `lemma_round_trip`).
    pub fn get(&self, name: &str) -> (r: Result<Book, CatalogError>)
        ensures
            r is Ok <==> contains_name(self@, name@),
            r matches Ok(b) ==> b@.name == name@ && self@.contains(b@),
            self.wf() ==> (r matches Ok(b) ==> (forall|v: BookView|
                #[trigger] self@.contains(v) && v.name == name@ ==> v == b@)),
            r matches Err(e) ==> e == CatalogError::NotFound,
    {
        match self.index_of(name) {
            Some(i) => {
                let b = self.books[i].clone();
                proof {
                    assert(self@[i as int] == b@);
                    if self.wf() {
                        assert forall|v: BookView|
                            #[trigger] self@.contains(v) && v.name == name@ implies v == b@ by {
                            let k = choose|k: int| 0 <= k < self@.len() && self@[k] == v;
                            if k != i {
                                assert(self@[k].name != self@[i as int].name);
                            }
                        }
                    }
                }
                Ok(b)
            },
            None => Err(CatalogError::NotFound),
        }
    }

    /// Returns owned copies of all records, in storage order. Fails with
    /// `EmptyCatalog` exactly when the store holds no records: an empty
    /// catalog is surfaced as an error, not as an empty listing.
    pub fn list(&self) -> (r: Result<Vec<Book>, CatalogError>)
        ensures
            self@.len() == 0 ==> r == Err::<Vec<Book>, CatalogError>(CatalogError::EmptyCatalog),
            self@.len() > 0 ==> (r matches Ok(v) && views_of(v@) == self@),
    {
        if self.books.len() == 0 {
            return Err(CatalogError::EmptyCatalog);
        }
        let mut out: Vec<Book> = Vec::new();
        let mut i: usize = 0;
        proof {
            assert(views_of(out@) =~= self@.take(0));
        }
        while i < self.books.len()
            invariant
                i <= self.books.len(),
                views_of(out@) == self@.take(i as int),
            decreases self.books.len() - i,
        {
            let ghost prev = out@;
            out.push(self.books[i].clone());
            i += 1;
            proof {
                assert(self@.len() == self.books@.len());
                assert(views_of(prev).len() == prev.len());
                assert(prev.len() == i as int - 1);
                assert forall|j: int| 0 <= j < out@.len() implies #[trigger] views_of(out@)[j]
                    == self@.take(i as int)[j] by {
                    assert(views_of(out@)[j] == out@[j]@);
                    if j < prev.len() {
                        assert(out@[j] == prev[j]);
                        assert(views_of(prev)[j] == prev[j]@);
                    }
                    assert(self@.take(i as int)[j] == self@[j]);
                    assert(self@[j] == self.books@[j]@);
                }
                assert(views_of(out@) =~= self@.take(i as int));
            }
        }
        proof {
            assert(self@.take(i as int) =~= self@);
        }
        Ok(out)
    }

    /// The add operation: the path-validation gate, then storage under the
    /// uniqueness rule. `resolved` is the outcome of resolving `path`
    /// against the filesystem: the canonical path of the existing file it
    /// names, or `None` when no such file exists. No record is ever stored
    /// unless the file exists and `path` carries `ext`; a stored record
    /// holds the canonical path.
    pub fn add(
        &mut self,
        name: String,
        path: &str,
        section: Option<String>,
        ext: &str,
        resolved: Option<String>,
    ) -> (r: Result<(), CatalogError>)
        requires
            old(self).wf(),
        ensures
            final(self).wf(),
            resolved is None ==> r == Err::<(), CatalogError>(CatalogError::PathNotFound)
                && final(self)@ == old(self)@,
            (resolved is Some && extension_of(path@) != Some(ext@)) ==> r == Err::<
                (),
                CatalogError,
            >(CatalogError::WrongExtension) && final(self)@ == old(self)@,
            resolved matches Some(c) ==> ((extension_of(path@) == Some(ext@) && contains_name(
                old(self)@,
                name@,
            )) ==> r == Err::<(), CatalogError>(CatalogError::DuplicateName) && final(self)@ == old(
                self,
            )@),
            resolved matches Some(c) ==> ((extension_of(path@) == Some(ext@) && !contains_name(
                old(self)@,
                name@,
            )) ==> r == Ok::<(), CatalogError>(()) && final(self)@ == old(self)@.push(
                (BookView { name: name@, path: c@, section: section_view(section) }),
            )),
    {
        let canonical = match validate_path(path, ext, resolved) {
            Err(e) => {
                return Err(e);
            },
            Ok(c) => c,
        };
        let book = Book::new(name, canonical, section);
        self.create(book)
    }

    /// Deletes the record carrying `name`. Fails with `NotFound`, leaving
    /// the store unchanged, exactly when no record carries it; otherwise
    /// that one record leaves and the others keep their order.
    pub fn remove(&mut self, name: &str) -> (r: Result<(), CatalogError>)
        requires
            old(self).wf(),
        ensures
            final(self).wf(),
            !contains_name(old(self)@, name@) ==> r == Err::<(), CatalogError>(
                CatalogError::NotFound,
            ) && final(self)@ == old(self)@,
            contains_name(old(self)@, name@) ==> r == Ok::<(), CatalogError>(()) && (exists|i: int|
                0 <= i < old(self)@.len() && (#[trigger] old(self)@[i]).name == name@
                    && final(self)@ == old(self)@.remove(i)),
    {
        match self.index_of(name) {
            None => Err(CatalogError::NotFound),
            Some(i) => {
                self.books.remove(i);
                proof {
                    lemma_views_of_remove(old(self).books@, i as int);
                    lemma_unique_names_remove(old(self)@, i as int);
                    assert(final(self)@ == old(self)@.remove(i as int));
                }
                Ok(())
            },
        }
    }
}

} // verus!
