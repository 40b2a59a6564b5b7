//! The book-selection state: which entry is highlighted, and the fields
//! of the new-book form being typed.

use vstd::prelude::*;

use crate::storage::Library;

verus! {

/// What the selection screen is doing: picking from the list, or typing
/// the title or the page count of a new book.
#[derive(Debug, Clone, Copy, PartialEq, Eq, Structural)]
pub enum InputMode {
    Selection,
    EnteringTitle,
    EnteringPages,
}

/// One key event on the selection screen, as the controller reads it.
#[derive(Debug, Clone, Copy, PartialEq, Eq, Structural)]
pub enum SelectKey {
    Up,
    Down,
    Enter,
    Backspace,
    Escape,
    Char(char),
}

/// What the caller must do after a key is handled: nothing, open the
/// book at an index, create a book with a title and a page count, or
/// quit.
#[derive(Debug)]
pub enum SelectAction {
    Stay,
    OpenBook(usize),
    CreateBook(String, usize),
    Quit,
}

/// The highlighted index after moving down: one further, modulo the
/// number of books; unchanged over an empty library.
pub open spec fn next_index_spec(i: usize, nbooks: int) -> int {
    if nbooks == 0 {
        i as int
    } else {
        (i + 1) % nbooks
    }
}

/// The highlighted index after moving up: one back, wrapping from the
/// first to the last; unchanged over an empty library.
pub open spec fn prev_index_spec(i: usize, nbooks: int) -> int {
    if nbooks == 0 {
        i as int
    } else if i == 0 {
        nbooks - 1
    } else {
        i - 1
    }
}

/// The selection screen's state.
pub struct BookSelector {
    pub selected_index: usize,
    pub input_mode: InputMode,
    pub new_book_title: String,
    pub new_book_pages: String,
}

impl BookSelector {
    /// A fresh selector: the first entry highlighted, picking from the
    /// list, the form empty.
    pub fn new() -> (r: BookSelector)
        ensures
            r.selected_index == 0,
            r.input_mode == InputMode::Selection,
            r.new_book_title@ == Seq::<char>::empty(),
            r.new_book_pages@ == Seq::<char>::empty(),
    {
        BookSelector {
            selected_index: 0,
            input_mode: InputMode::Selection,
            new_book_title: String::new(),
            new_book_pages: String::new(),
        }
    }

    /// Highlight the next book, wrapping from the last to the first; a
    /// no-op over an empty library.
    pub fn select_next(&mut self, library: &Library)
        ensures
            final(self).selected_index == next_index_spec(
                old(self).selected_index,
                library@.len() as int,
            ),
            final(self).input_mode == old(self).input_mode,
            final(self).new_book_title == old(self).new_book_title,
            final(self).new_book_pages == old(self).new_book_pages,
            library@.len() > 0 ==> final(self).selected_index < library@.len(),
    {
        if library.books.len() == 0 {
            return ;
        }
        let next: u128 = (self.selected_index as u128 + 1) % (library.books.len() as u128);
        self.selected_index = next as usize;
    }

    /// Highlight the previous book, wrapping from the first to the last;
    /// a no-op over an empty library.
    pub fn select_prev(&mut self, library: &Library)
        ensures
            final(self).selected_index == prev_index_spec(
                old(self).selected_index,
                library@.len() as int,
            ),
            final(self).input_mode == old(self).input_mode,
            final(self).new_book_title == old(self).new_book_title,
            final(self).new_book_pages == old(self).new_book_pages,
            (library@.len() > 0 && old(self).selected_index < library@.len()
                ==> final(self).selected_index < library@.len()),
    {
        if library.books.len() == 0 {
            return ;
        }
        if self.selected_index == 0 {
            self.selected_index = library.books.len() - 1;
        } else {
            self.selected_index = self.selected_index - 1;
        }
    }
}


/// Relies on `String::pop`: removes and returns the last character, or
/// nothing from an empty string.
#[verifier::external_body]
fn pop_char(s: &mut String) -> (r: Option<char>)
    ensures
        old(s)@.len() == 0 ==> r is None && final(s)@ == old(s)@,
        old(s)@.len() > 0 ==> r == Some(old(s)@.last()) && final(s)@ == old(s)@.drop_last(),
{
    s.pop()
}

/// The highlighted index after a key.
pub open spec fn post_selected_index(sel: BookSelector, nbooks: int, key: SelectKey) -> int {
    if sel.input_mode == InputMode::Selection {
        match key {
            SelectKey::Up => prev_index_spec(sel.selected_index, nbooks),
            SelectKey::Down => next_index_spec(sel.selected_index, nbooks),
            _ => sel.selected_index as int,
        }
    } else {
        sel.selected_index as int
    }
}

/// The input mode after a key: the new-book form is entered on `n`,
/// advances from title to pages on a nonempty title, and is left on
/// escape; a valid page-count entry keeps the form open until the
/// caller has durably created the book.
pub open spec fn post_input_mode(sel: BookSelector, key: SelectKey) -> InputMode {
    match sel.input_mode {
        InputMode::Selection => match key {
            SelectKey::Char(c) => if c == 'n' || c == 'N' {
                InputMode::EnteringTitle
            } else {
                InputMode::Selection
            },
            _ => InputMode::Selection,
        },
        InputMode::EnteringTitle => match key {
            SelectKey::Enter => if sel.new_book_title@.len() > 0 {
                InputMode::EnteringPages
            } else {
                InputMode::EnteringTitle
            },
            SelectKey::Escape => InputMode::Selection,
            _ => InputMode::EnteringTitle,
        },
        InputMode::EnteringPages => match key {
            SelectKey::Escape => InputMode::Selection,
            _ => InputMode::EnteringPages,
        },
    }
}

/// The title field after a key.
pub open spec fn post_title(sel: BookSelector, key: SelectKey) -> Seq<char> {
    match sel.input_mode {
        InputMode::Selection => match key {
            SelectKey::Char(c) => if c == 'n' || c == 'N' {
                Seq::empty()
            } else {
                sel.new_book_title@
            },
            _ => sel.new_book_title@,
        },
        InputMode::EnteringTitle => match key {
            SelectKey::Backspace => if sel.new_book_title@.len() > 0 {
                sel.new_book_title@.drop_last()
            } else {
                sel.new_book_title@
            },
            SelectKey::Char(c) => sel.new_book_title@.push(c),
            _ => sel.new_book_title@,
        },
        InputMode::EnteringPages => sel.new_book_title@,
    }
}

/// The page-count field after a key; only digits are taken in.
pub open spec fn post_pages(sel: BookSelector, key: SelectKey) -> Seq<char> {
    match sel.input_mode {
        InputMode::Selection => match key {
            SelectKey::Char(c) => if c == 'n' || c == 'N' {
                Seq::empty()
            } else {
                sel.new_book_pages@
            },
            _ => sel.new_book_pages@,
        },
        InputMode::EnteringTitle => sel.new_book_pages@,
        InputMode::EnteringPages => match key {
            SelectKey::Backspace => if sel.new_book_pages@.len() > 0 {
                sel.new_book_pages@.drop_last()
            } else {
                sel.new_book_pages@
            },
            SelectKey::Char(c) => if crate::codec::is_digit(c) {
                sel.new_book_pages@.push(c)
            } else {
                sel.new_book_pages@
            },
            _ => sel.new_book_pages@,
        },
    }
}

/// Whether a key asks to open the highlighted book.
pub open spec fn opens_book(sel: BookSelector, nbooks: int, key: SelectKey) -> bool {
    sel.input_mode == InputMode::Selection && key == SelectKey::Enter && nbooks > 0
        && sel.selected_index < nbooks
}

/// Whether a key asks to quit.
pub open spec fn quits(sel: BookSelector, key: SelectKey) -> bool {
    sel.input_mode == InputMode::Selection && (key == SelectKey::Char('q') || key
        == SelectKey::Char('Q'))
}

/// Whether a key confirms the new-book form with a positive page count.
pub open spec fn creates_book(sel: BookSelector, key: SelectKey) -> bool {
    sel.input_mode == InputMode::EnteringPages && key == SelectKey::Enter && (match crate::codec::page_count_of(
        sel.new_book_pages@,
    ) {
        Some(p) => p > 0,
        None => false,
    })
}

/// Interpret one key on the selection screen: move the highlight, edit
/// the new-book form, and say what the caller must do next. Creating
/// the book, which takes durable storage, is the caller's part; the
/// form stays open until it succeeds.
pub fn handle_selection_key(
    selector: &mut BookSelector,
    library: &Library,
    key: SelectKey,
) -> (r: SelectAction)
    ensures
        final(selector).selected_index == post_selected_index(
            *old(selector),
            library@.len() as int,
            key,
        ),
        final(selector).input_mode == post_input_mode(*old(selector), key),
        final(selector).new_book_title@ == post_title(*old(selector), key),
        final(selector).new_book_pages@ == post_pages(*old(selector), key),
        (match r {
            SelectAction::Stay => !opens_book(*old(selector), library@.len() as int, key)
                && !quits(*old(selector), key) && !creates_book(*old(selector), key),
            SelectAction::OpenBook(i) => opens_book(*old(selector), library@.len() as int, key)
                && i == old(selector).selected_index,
            SelectAction::CreateBook(title, pages) => creates_book(*old(selector), key) && title@
                == old(selector).new_book_title@ && crate::codec::page_count_of(
                old(selector).new_book_pages@,
            ) == Some(pages) && pages > 0,
            SelectAction::Quit => quits(*old(selector), key),
        }),
{
    match selector.input_mode {
        InputMode::Selection => match key {
            SelectKey::Up => {
                selector.select_prev(library);
                SelectAction::Stay
            },
            SelectKey::Down => {
                selector.select_next(library);
                SelectAction::Stay
            },
            SelectKey::Enter => {
                if library.books.len() > 0 && selector.selected_index < library.books.len() {
                    SelectAction::OpenBook(selector.selected_index)
                } else {
                    SelectAction::Stay
                }
            },
            SelectKey::Char(c) => {
                if c == 'n' || c == 'N' {
                    selector.input_mode = InputMode::EnteringTitle;
                    selector.new_book_title = String::new();
                    selector.new_book_pages = String::new();
                    SelectAction::Stay
                } else if c == 'q' || c == 'Q' {
                    SelectAction::Quit
                } else {
                    SelectAction::Stay
                }
            },
            _ => SelectAction::Stay,
        },
        InputMode::EnteringTitle => match key {
            SelectKey::Enter => {
                if selector.new_book_title.as_str().unicode_len() > 0 {
                    selector.input_mode = InputMode::EnteringPages;
                }
                SelectAction::Stay
            },
            SelectKey::Backspace => {
                pop_char(&mut selector.new_book_title);
                SelectAction::Stay
            },
            SelectKey::Escape => {
                selector.input_mode = InputMode::Selection;
                SelectAction::Stay
            },
            SelectKey::Char(c) => {
                crate::codec::push_char(&mut selector.new_book_title, c);
                SelectAction::Stay
            },
            _ => SelectAction::Stay,
        },
        InputMode::EnteringPages => match key {
            SelectKey::Enter => {
                match crate::codec::parse_page_count(selector.new_book_pages.as_str()) {
                    Some(pages) => {
                        if pages > 0 {
                            SelectAction::CreateBook(selector.new_book_title.clone(), pages)
                        } else {
                            SelectAction::Stay
                        }
                    },
                    None => SelectAction::Stay,
                }
            },
            SelectKey::Backspace => {
                pop_char(&mut selector.new_book_pages);
                SelectAction::Stay
            },
            SelectKey::Escape => {
                selector.input_mode = InputMode::Selection;
                SelectAction::Stay
            },
            SelectKey::Char(c) => {
                let u = c as u32;
                if 48 <= u && u <= 57 {
                    crate::codec::push_char(&mut selector.new_book_pages, c);
                }
                SelectAction::Stay
            },
            _ => SelectAction::Stay,
        },
    }
}

} // verus!
