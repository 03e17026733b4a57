//! A book.

use vstd::prelude::*;

verus! {

/// A book: its title and its author.
#[derive(Debug)]
pub struct Book {
    pub title: String,
    pub author: String,
}

impl Book {
    /// A book with this title and this author.
    pub fn new(title: &str, author: &str) -> (book: Book)
        ensures
            book.title@ == title@,
            book.author@ == author@,
    {
        Book { title: title.to_owned(), author: author.to_owned() }
    }
}

} // verus!
