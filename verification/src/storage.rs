//! The data model of the persisted library and the read-modify-write
//! operations on it.
//!
//! The library is a single in-memory value: an ordered sequence of books,
//! each with an append-only session history. Every operation here is pure
//! and exactly specified; reading the value from disk and writing it back
//! is the caller's concern, as is turning the document text into a value
//! (see the codec module).

use vstd::prelude::*;

verus! {

/// One contiguous interval of reading, immutable once created.
pub struct ReadingSession {
    pub book_title: String,
    pub start_page: usize,
    pub end_page: usize,
    pub duration_secs: u64,
    pub timestamp: String,
}

/// The mathematical value of a `ReadingSession`.
#[verifier::ext_equal]
pub ghost struct SessionView {
    pub book_title: Seq<char>,
    pub start_page: usize,
    pub end_page: usize,
    pub duration_secs: u64,
    pub timestamp: Seq<char>,
}

impl View for ReadingSession {
    type V = SessionView;

    open spec fn view(&self) -> SessionView {
        SessionView {
            book_title: self.book_title@,
            start_page: self.start_page,
            end_page: self.end_page,
            duration_secs: self.duration_secs,
            timestamp: self.timestamp@,
        }
    }
}

/// One book's durable state: title, page counts, session history.
pub struct BookProgress {
    pub book_title: String,
    pub total_pages: usize,
    pub current_page: usize,
    pub sessions: Vec<ReadingSession>,
}

/// The mathematical value of a `BookProgress`.
#[verifier::ext_equal]
pub ghost struct BookView {
    pub book_title: Seq<char>,
    pub total_pages: usize,
    pub current_page: usize,
    pub sessions: Seq<SessionView>,
}

impl View for BookProgress {
    type V = BookView;

    open spec fn view(&self) -> BookView {
        BookView {
            book_title: self.book_title@,
            total_pages: self.total_pages,
            current_page: self.current_page,
            sessions: self.sessions@.map_values(|s: ReadingSession| s@),
        }
    }
}

/// The whole persisted dataset: an ordered sequence of books, keyed by
/// position (the index is the book's identity).
pub struct Library {
    pub books: Vec<BookProgress>,
}

impl View for Library {
    type V = Seq<BookView>;

    open spec fn view(&self) -> Seq<BookView> {
        self.books@.map_values(|b: BookProgress| b@)
    }
}

impl Clone for ReadingSession {
    fn clone(&self) -> (r: Self)
        ensures
            r@ == self@,
    {
        ReadingSession {
            book_title: self.book_title.clone(),
            start_page: self.start_page,
            end_page: self.end_page,
            duration_secs: self.duration_secs,
            timestamp: self.timestamp.clone(),
        }
    }
}

impl Clone for BookProgress {
    fn clone(&self) -> (r: Self)
        ensures
            r@ == self@,
    {
        let mut sessions: Vec<ReadingSession> = Vec::new();
        let mut i: usize = 0;
        while i < self.sessions.len()
            invariant
                i <= self.sessions@.len(),
                sessions@.len() == i,
                forall|k: int| 0 <= k < i ==> sessions@[k]@ == self.sessions@[k]@,
            decreases self.sessions@.len() - i,
        {
            sessions.push(self.sessions[i].clone());
            i = i + 1;
        }
        let r = BookProgress {
            book_title: self.book_title.clone(),
            total_pages: self.total_pages,
            current_page: self.current_page,
            sessions,
        };
        proof {
            assert(r@.sessions =~~= self@.sessions);
        }
        r
    }
}

/// The library after a new book with the given title and page count is
/// appended: current page zero, no sessions yet.
pub open spec fn add_book_spec(l: Seq<BookView>, title: Seq<char>, total_pages: usize) -> Seq<
    BookView,
> {
    l.push(
        BookView {
            book_title: title,
            total_pages,
            current_page: 0,
            sessions: Seq::empty(),
        },
    )
}

/// The library after a session is committed to the book at `idx`: the
/// book's current page becomes the session's end page and the session is
/// appended to its history. An out-of-range index leaves the library
/// unchanged.
pub open spec fn commit_session_spec(l: Seq<BookView>, idx: int, s: SessionView) -> Seq<BookView> {
    if 0 <= idx < l.len() {
        l.update(
            idx,
            BookView {
                current_page: s.end_page,
                sessions: l[idx].sessions.push(s),
                ..l[idx]
            },
        )
    } else {
        l
    }
}

/// The library after the book at `idx` has its current page set to `page`.
/// An out-of-range index leaves the library unchanged.
pub open spec fn commit_page_spec(l: Seq<BookView>, idx: int, page: usize) -> Seq<BookView> {
    if 0 <= idx < l.len() {
        l.update(idx, BookView { current_page: page, ..l[idx] })
    } else {
        l
    }
}

/// The library after the book at `idx` is replaced wholesale by `b`.
/// An out-of-range index leaves the library unchanged.
pub open spec fn update_book_spec(l: Seq<BookView>, idx: int, b: BookView) -> Seq<BookView> {
    if 0 <= idx < l.len() {
        l.update(idx, b)
    } else {
        l
    }
}

/// Append a new book with an empty history and return its index.
pub fn add_book(library: &mut Library, book_title: String, total_pages: usize) -> (index: usize)
    ensures
        final(library)@ == add_book_spec(old(library)@, book_title@, total_pages),
        index == old(library)@.len(),
{
    let index = library.books.len();
    library.books.push(
        BookProgress { book_title, total_pages, current_page: 0, sessions: Vec::new() },
    );
    proof {
        assert(library@ =~~= add_book_spec(old(library)@, book_title@, total_pages));
    }
    index
}

/// Replace the book at `book_index` by a copy of `progress`; ignore an
/// out-of-range index.
pub fn update_book(library: &mut Library, book_index: usize, progress: &BookProgress)
    ensures
        final(library)@ == update_book_spec(old(library)@, book_index as int, progress@),
{
    if book_index < library.books.len() {
        let copy = progress.clone();
        library.books.set(book_index, copy);
        proof {
            assert(library@ =~~= update_book_spec(old(library)@, book_index as int, progress@));
        }
    }
}

/// Commit a finished session to the book at `book_index`: set the book's
/// current page to the session's end page and append the session to its
/// history; ignore an out-of-range index.
pub fn save_session(library: &mut Library, book_index: usize, session: &ReadingSession)
    ensures
        final(library)@ == commit_session_spec(old(library)@, book_index as int, session@),
{
    if book_index < library.books.len() {
        let mut book = library.books.remove(book_index);
        book.current_page = session.end_page;
        book.sessions.push(session.clone());
        library.books.insert(book_index, book);
        proof {
            assert(library@ =~~= commit_session_spec(
                old(library)@,
                book_index as int,
                session@,
            ));
        }
    }
}

/// Record just the current page of the book at `book_index`, without a
/// session; ignore an out-of-range index.
pub fn save_current_page(library: &mut Library, book_index: usize, current_page: usize)
    ensures
        final(library)@ == commit_page_spec(old(library)@, book_index as int, current_page),
{
    if book_index < library.books.len() {
        let mut book = library.books.remove(book_index);
        book.current_page = current_page;
        library.books.insert(book_index, book);
        proof {
            assert(library@ =~~= commit_page_spec(
                old(library)@,
                book_index as int,
                current_page,
            ));
        }
    }
}

/// Total reading time over a session history, saturating at `u64::MAX`:
/// the sum folded left with saturating addition.
pub open spec fn total_secs_spec(sessions: Seq<SessionView>) -> u64
    decreases sessions.len(),
{
    if sessions.len() == 0 {
        0
    } else {
        crate::session::sat_add64(
            total_secs_spec(sessions.drop_last()),
            sessions.last().duration_secs,
        )
    }
}

/// Aggregate statistics of one book: total reading time in seconds
/// (saturating) and the number of recorded sessions.
pub fn get_statistics(progress: &BookProgress) -> (r: (u64, usize))
    ensures
        r.0 == total_secs_spec(progress@.sessions),
        r.1 == progress@.sessions.len(),
{
    let mut total_time: u64 = 0;
    let mut i: usize = 0;
    while i < progress.sessions.len()
        invariant
            i <= progress.sessions@.len(),
            total_time == total_secs_spec(
                progress@.sessions.subrange(0, i as int),
            ),
            progress@.sessions.len() == progress.sessions@.len(),
        decreases progress.sessions@.len() - i,
    {
        proof {
            assert(progress@.sessions.subrange(0, i + 1 as int).drop_last() =~= progress@
                .sessions.subrange(0, i as int));
            assert(progress@.sessions.subrange(0, i + 1 as int).last() == progress@.sessions[
                i as int
            ]);
        }
        total_time = crate::session::sat_add_u64(total_time, progress.sessions[i].duration_secs);
        i = i + 1;
    }
    proof {
        assert(progress@.sessions.subrange(0, progress@.sessions.len() as int) =~= progress@
            .sessions);
    }
    (total_time, progress.sessions.len())
}

} // verus!
