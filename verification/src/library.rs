//! Books, and a shelf of them that can be searched by title.

pub mod book;
pub mod bookshelf;
