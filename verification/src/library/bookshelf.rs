//! A shelf of books with fuzzy search on titles.

use vstd::prelude::*;
use vstd::string::*;
use fuzzy_matcher::skim::SkimMatcherV2;
use fuzzy_matcher::FuzzyMatcher;
use crate::library::book::Book;

verus! {

/// The fuzzy matcher of the crate `fuzzy_matcher`. What it holds is not
/// visible here.
#[verifier::external_type_specification]
#[verifier::external_body]
pub struct ExSkimMatcherV2(SkimMatcherV2);

/// The matcher has the settings with which `SkimMatcherV2::default` makes
/// one: smart case, no element limit, the default scores, and buffers that
/// are kept between calls.
pub uninterp spec fn default_made(matcher: SkimMatcherV2) -> bool;

/// Calls `SkimMatcherV2::default`. The claim is only that the matcher that
/// comes back is one that `default` made.
#[verifier::external_body]
fn default_matcher() -> (matcher: SkimMatcherV2)
    ensures
        default_made(matcher),
{
    SkimMatcherV2::default()
}

/// The longest title and the longest query, in characters, that a search
/// takes. With the default scores the matcher adds a few dozen points for
/// each character, in 32 bits; texts of this length keep every sum far inside
/// that range.
pub const MAX_SEARCH_LEN: usize = 0x100_0000;

/// The code point of a character, with the upper-case letters `A` to `Z`
/// taken as their lower-case letters.
pub open spec fn ascii_folded(c: char) -> u32 {
    if 'A' <= c <= 'Z' {
        (c as u32 + 32) as u32
    } else {
        c as u32
    }
}

/// One of the characters of `pattern` is an upper-case letter from `A` to
/// `Z`.
pub open spec fn has_ascii_upper(pattern: Seq<char>) -> bool {
    exists|i: int| 0 <= i < pattern.len() && 'A' <= #[trigger] pattern[i] <= 'Z'
}

/// The characters `c` of a title and `p` of a query count as the same:
/// exactly, or without regard to the case of the letters `A` to `Z`.
pub open spec fn same_char(c: char, p: char, exactly: bool) -> bool {
    if exactly {
        c == p
    } else {
        ascii_folded(c) == ascii_folded(p)
    }
}

/// The characters of `pattern` from position `j` on occur in `choice` from
/// position `i` on, in their order, with any characters between them.
pub open spec fn occurs_in_order(
    choice: Seq<char>,
    i: int,
    pattern: Seq<char>,
    j: int,
    exactly: bool,
) -> bool
    decreases choice.len() - i,
{
    if j >= pattern.len() {
        true
    } else if !(0 <= i < choice.len()) || j < 0 {
        false
    } else if same_char(choice[i], pattern[j], exactly) {
        occurs_in_order(choice, i + 1, pattern, j + 1, exactly)
    } else {
        occurs_in_order(choice, i + 1, pattern, j, exactly)
    }
}

/// A default-made matcher finds `pattern` in `choice`: the characters of
/// `pattern` occur in `choice` in their order. They are compared exactly if
/// `pattern` holds an upper-case letter from `A` to `Z`, and without regard
/// to the case of these letters if it holds none. An empty pattern is found
/// in every text.
pub open spec fn fuzzy_found(choice: Seq<char>, pattern: Seq<char>) -> bool {
    occurs_in_order(choice, 0, pattern, 0, has_ascii_upper(pattern))
}

/// Calls `FuzzyMatcher::fuzzy_match` on a `SkimMatcherV2` that `default`
/// made. The claim is when a score comes back: the matcher decides that from
/// its case setting and the two texts, before it scores anything. Nothing is
/// claimed of the score itself, which also depends on what earlier calls left
/// in the matcher's buffers. Texts so long that the matcher's sums could
/// leave 32 bits are kept out.
#[verifier::external_body]
fn score(matcher: &SkimMatcherV2, choice: &str, pattern: &str) -> (r: Option<i64>)
    requires
        default_made(*matcher),
        choice@.len() <= MAX_SEARCH_LEN,
        pattern@.len() <= MAX_SEARCH_LEN,
    ensures
        (r is Some) == fuzzy_found(choice@, pattern@),
{
    matcher.fuzzy_match(choice, pattern)
}

/// A matcher for titles. The matcher inside is always one that
/// `SkimMatcherV2::default` made.
pub struct TitleMatcher {
    inner: SkimMatcherV2,
}

impl TitleMatcher {
    #[verifier::type_invariant]
    spec fn inner_is_default_made(self) -> bool {
        default_made(self.inner)
    }

    /// A matcher with the default settings.
    pub fn new() -> TitleMatcher {
        TitleMatcher { inner: default_matcher() }
    }

    /// Tells whether `pattern` is found in `choice`.
    pub fn finds(&self, choice: &str, pattern: &str) -> (r: bool)
        requires
            choice@.len() <= MAX_SEARCH_LEN,
            pattern@.len() <= MAX_SEARCH_LEN,
        ensures
            r == fuzzy_found(choice@, pattern@),
    {
        proof {
            use_type_invariant(self);
        }
        score(&self.inner, choice, pattern).is_some()
    }
}

/// A shelf of books, in the order in which they were added.
pub struct Bookshelf {
    books: Vec<Book>,
    matcher: TitleMatcher,
}

/// The book `book` is found by a search for `title_query`.
pub open spec fn found_by(title_query: Seq<char>, book: Book) -> bool {
    fuzzy_found(book.title@, title_query)
}

/// The books that the references `found` point to.
pub open spec fn books_of(found: Seq<&Book>) -> Seq<Book> {
    Seq::new(found.len(), |i: int| *found[i])
}

/// The mark at position `i` of `hits` is set. A position that `hits` does not
/// have counts as not set.
pub open spec fn hit_at(hits: Seq<bool>, i: int) -> bool {
    0 <= i < hits.len() && hits[i]
}

/// Those of the first `n` of `books` whose mark in `hits` is set, in their
/// order.
pub open spec fn picked_upto(books: Seq<Book>, hits: Seq<bool>, n: int) -> Seq<Book>
    decreases n,
{
    if n <= 0 {
        Seq::empty()
    } else if hit_at(hits, n - 1) {
        picked_upto(books, hits, n - 1).push(books[n - 1])
    } else {
        picked_upto(books, hits, n - 1)
    }
}

/// Those of `books` whose mark in `hits` is set, in their order.
pub open spec fn picked(books: Seq<Book>, hits: Seq<bool>) -> Seq<Book> {
    picked_upto(books, hits, books.len() as int)
}

/// Where each mark says whether its book meets `wanted`, the books that are
/// picked are the books that meet `wanted`.
pub proof fn lemma_picked_is_filter(
    books: Seq<Book>,
    hits: Seq<bool>,
    wanted: spec_fn(Book) -> bool,
    n: int,
)
    requires
        0 <= n <= books.len(),
        forall|i: int| 0 <= i < n ==> hit_at(hits, i) == wanted(#[trigger] books[i]),
    ensures
        picked_upto(books, hits, n) == books.take(n).filter(wanted),
    decreases n,
{
    reveal(Seq::filter);
    if n > 0 {
        lemma_picked_is_filter(books, hits, wanted, n - 1);
        assert(books.take(n).drop_last() =~= books.take(n - 1));
        assert(books.take(n).last() == books[n - 1]);
    } else {
        assert(books.take(0) =~= Seq::<Book>::empty());
    }
}

/// Picks the books whose mark in `hits` is set: the first mark is for the
/// first book, and so on. A book for which there is no mark is left out.
pub fn pick_books<'a>(books: &'a [Book], hits: &[bool]) -> (found: Vec<&'a Book>)
    ensures
        books_of(found@) == picked(books@, hits@),
{
    let mut found: Vec<&'a Book> = Vec::new();
    let mut i: usize = 0;
    assert(books_of(found@) =~= Seq::<Book>::empty());
    while i < books.len()
        invariant
            i <= books.len(),
            books_of(found@) == picked_upto(books@, hits@, i as int),
        decreases books.len() - i,
    {
        let book = &books[i];
        if i < hits.len() && hits[i] {
            assert(books_of(found@.push(book)) =~= books_of(found@).push(*book));
            found.push(book);
        }
        i += 1;
    }
    found
}

impl Bookshelf {
    /// The books on the shelf, in the order in which they were added.
    pub closed spec fn books(&self) -> Seq<Book> {
        self.books@
    }

    /// An empty shelf.
    pub fn new() -> (shelf: Bookshelf)
        ensures
            shelf.books() == Seq::<Book>::empty(),
    {
        let matcher = TitleMatcher::new();
        Bookshelf { books: Vec::new(), matcher }
    }

    /// Puts a book on the shelf, behind the others.
    pub fn add_book(&mut self, book: Book)
        ensures
            final(self).books() == old(self).books().push(book),
    {
        self.books.push(book);
    }

    /// The shelf can be searched for `title_query`: neither the query nor
    /// any title on the shelf is longer than `MAX_SEARCH_LEN` characters.
    pub open spec fn searchable(&self, title_query: Seq<char>) -> bool {
        &&& title_query.len() <= MAX_SEARCH_LEN
        &&& forall|i: int|
            0 <= i < self.books().len() ==> (#[trigger] self.books()[i]).title@.len()
                <= MAX_SEARCH_LEN
    }

    /// Tells whether the shelf can be searched for `title_query`.
    pub fn can_search(&self, title_query: &str) -> (r: bool)
        ensures
            r == self.searchable(title_query@),
    {
        if title_query.unicode_len() > MAX_SEARCH_LEN {
            return false;
        }
        let mut i: usize = 0;
        while i < self.books.len()
            invariant
                i <= self.books.len(),
                forall|k: int|
                    0 <= k < i ==> (#[trigger] self.books@[k]).title@.len() <= MAX_SEARCH_LEN,
            decreases self.books.len() - i,
        {
            if self.books[i].title.as_str().unicode_len() > MAX_SEARCH_LEN {
                assert(self.books()[i as int].title@.len() > MAX_SEARCH_LEN);
                return false;
            }
            i += 1;
        }
        true
    }

    /// The books whose title matches `title_query`, in the order in which they
    /// stand on the shelf.
    pub fn search_books(&self, title_query: &str) -> (found: Vec<&Book>)
        requires
            self.searchable(title_query@),
        ensures
            books_of(found@) == self.books().filter(|book: Book| found_by(title_query@, book)),
    {
        let ghost wanted = |book: Book| found_by(title_query@, book);
        let mut hits: Vec<bool> = Vec::new();
        let mut i: usize = 0;
        while i < self.books.len()
            invariant
                i <= self.books.len(),
                hits.len() == i,
                self.searchable(title_query@),
                wanted == |book: Book| found_by(title_query@, book),
                forall|k: int| 0 <= k < i ==> hits@[k] == wanted(#[trigger] self.books@[k]),
            decreases self.books.len() - i,
        {
            assert(self.books()[i as int] == self.books@[i as int]);
            let hit = self.matcher.finds(self.books[i].title.as_str(), title_query);
            hits.push(hit);
            i += 1;
        }
        proof {
            lemma_picked_is_filter(self.books@, hits@, wanted, self.books@.len() as int);
            assert(self.books@.take(self.books@.len() as int) =~= self.books@);
        }
        pick_books(self.books.as_slice(), hits.as_slice())
    }
}

impl Default for Bookshelf {
    /// An empty shelf.
    fn default() -> (shelf: Bookshelf)
        ensures
            shelf.books() == Seq::<Book>::empty(),
    {
        Bookshelf::new()
    }
}

} // verus!
