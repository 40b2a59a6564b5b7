use book_tracker::book_select::{
    handle_selection_key, BookSelector, InputMode, SelectAction, SelectKey,
};
use book_tracker::storage::{add_book, Library};

fn library_of(n: usize) -> Library {
    let mut lib = Library { books: Vec::new() };
    for i in 0..n {
        add_book(&mut lib, format!("Book {}", i), 100);
    }
    lib
}

fn type_text(sel: &mut BookSelector, lib: &Library, text: &str) {
    for c in text.chars() {
        let action = handle_selection_key(sel, lib, SelectKey::Char(c));
        assert!(matches!(action, SelectAction::Stay));
    }
}

#[test]
fn arrows_move_the_highlight_in_selection_mode() {
    let lib = library_of(3);
    let mut sel = BookSelector::new();
    handle_selection_key(&mut sel, &lib, SelectKey::Down);
    assert_eq!(sel.selected_index, 1);
    handle_selection_key(&mut sel, &lib, SelectKey::Up);
    handle_selection_key(&mut sel, &lib, SelectKey::Up);
    assert_eq!(sel.selected_index, 2);
}

#[test]
fn enter_opens_the_highlighted_book() {
    let lib = library_of(2);
    let mut sel = BookSelector::new();
    handle_selection_key(&mut sel, &lib, SelectKey::Down);
    match handle_selection_key(&mut sel, &lib, SelectKey::Enter) {
        SelectAction::OpenBook(i) => assert_eq!(i, 1),
        _ => panic!("opening the highlighted book was expected"),
    }
}

#[test]
fn enter_on_an_empty_library_stays() {
    let lib = library_of(0);
    let mut sel = BookSelector::new();
    assert!(matches!(
        handle_selection_key(&mut sel, &lib, SelectKey::Enter),
        SelectAction::Stay
    ));
}

#[test]
fn quit_only_from_selection_mode() {
    let lib = library_of(1);
    let mut sel = BookSelector::new();
    assert!(matches!(
        handle_selection_key(&mut sel, &lib, SelectKey::Char('q')),
        SelectAction::Quit
    ));
    let mut sel2 = BookSelector::new();
    handle_selection_key(&mut sel2, &lib, SelectKey::Char('n'));
    assert!(matches!(
        handle_selection_key(&mut sel2, &lib, SelectKey::Char('q')),
        SelectAction::Stay
    ));
    assert_eq!(sel2.new_book_title, "q");
}

#[test]
fn the_new_book_form_runs_through_title_and_pages() {
    let lib = library_of(0);
    let mut sel = BookSelector::new();
    handle_selection_key(&mut sel, &lib, SelectKey::Char('n'));
    assert!(sel.input_mode == InputMode::EnteringTitle);
    type_text(&mut sel, &lib, "Dune!");
    handle_selection_key(&mut sel, &lib, SelectKey::Backspace);
    assert_eq!(sel.new_book_title, "Dune");
    handle_selection_key(&mut sel, &lib, SelectKey::Enter);
    assert!(sel.input_mode == InputMode::EnteringPages);
    type_text(&mut sel, &lib, "4x1y2");
    assert_eq!(sel.new_book_pages, "412");
    match handle_selection_key(&mut sel, &lib, SelectKey::Enter) {
        SelectAction::CreateBook(title, pages) => {
            assert_eq!(title, "Dune");
            assert_eq!(pages, 412);
        }
        _ => panic!("creating the book was expected"),
    }
    // The form stays open until the caller commits the new book.
    assert!(sel.input_mode == InputMode::EnteringPages);
}

#[test]
fn an_empty_title_does_not_advance() {
    let lib = library_of(0);
    let mut sel = BookSelector::new();
    handle_selection_key(&mut sel, &lib, SelectKey::Char('n'));
    handle_selection_key(&mut sel, &lib, SelectKey::Enter);
    assert!(sel.input_mode == InputMode::EnteringTitle);
}

#[test]
fn zero_or_empty_page_counts_do_not_create_a_book() {
    let lib = library_of(0);
    let mut sel = BookSelector::new();
    handle_selection_key(&mut sel, &lib, SelectKey::Char('n'));
    type_text(&mut sel, &lib, "T");
    handle_selection_key(&mut sel, &lib, SelectKey::Enter);
    assert!(matches!(
        handle_selection_key(&mut sel, &lib, SelectKey::Enter),
        SelectAction::Stay
    ));
    type_text(&mut sel, &lib, "0");
    assert!(matches!(
        handle_selection_key(&mut sel, &lib, SelectKey::Enter),
        SelectAction::Stay
    ));
}

#[test]
fn escape_cancels_the_form() {
    let lib = library_of(0);
    let mut sel = BookSelector::new();
    handle_selection_key(&mut sel, &lib, SelectKey::Char('n'));
    type_text(&mut sel, &lib, "T");
    handle_selection_key(&mut sel, &lib, SelectKey::Escape);
    assert!(sel.input_mode == InputMode::Selection);
}
