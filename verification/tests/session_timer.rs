use book_tracker::book_select::{BookSelector, InputMode};
use book_tracker::session::AppState;
use book_tracker::storage::{BookProgress, Library, ReadingSession};
use book_tracker::TimerState;

fn book(title: &str, total: usize) -> BookProgress {
    BookProgress {
        book_title: String::from(title),
        total_pages: total,
        current_page: 0,
        sessions: Vec::new(),
    }
}

fn empty_library() -> Library {
    Library { books: Vec::new() }
}

#[test]
fn elapsed_is_monotone_and_sums_intervals() {
    let b = book("Dune", 100);
    let mut app = AppState::new(0, &b);
    assert_eq!(app.elapsed(0), 0);
    app.start(1_000);
    assert_eq!(app.elapsed(1_000), 0);
    assert_eq!(app.elapsed(4_000), 3_000);
    assert_eq!(app.elapsed(9_000), 8_000);
    app.pause(11_000);
    assert_eq!(app.elapsed(50_000), 10_000);
    app.start(60_000);
    assert_eq!(app.elapsed(65_000), 15_000);
    app.pause(70_000);
    assert_eq!(app.elapsed(999_000), 20_000);
}

#[test]
fn start_is_idempotent_while_running() {
    let b = book("Dune", 100);
    let mut app = AppState::new(0, &b);
    app.start(1_000);
    app.start(5_000);
    assert_eq!(app.elapsed(6_000), 5_000);
}

#[test]
fn pause_outside_running_is_a_no_op() {
    let b = book("Dune", 100);
    let mut app = AppState::new(0, &b);
    app.pause(3_000);
    assert!(matches!(app.timer_state, TimerState::Stopped));
    assert_eq!(app.elapsed(9_000), 0);
}

#[test]
fn stop_with_time_appends_one_session_with_truncated_seconds() {
    let mut lib = empty_library();
    book_tracker::storage::add_book(&mut lib, String::from("Dune"), 100);
    let mut app = AppState::new(0, &lib.books[0]);
    app.start(0);
    app.add_pages(7);
    let recorded = app.stop_with_timestamp(&mut lib, 1_500, String::from("t0"));
    assert!(recorded);
    assert_eq!(lib.books[0].sessions.len(), 1);
    let s = &lib.books[0].sessions[0];
    assert_eq!(s.duration_secs, 1);
    assert_eq!(s.start_page, 0);
    assert_eq!(s.end_page, 7);
    assert_eq!(lib.books[0].current_page, 7);
    assert!(matches!(app.timer_state, TimerState::Stopped));
    assert_eq!(app.elapsed(99_999), 0);
    assert_eq!(app.total_sessions, 1);
    assert_eq!(app.total_time_secs, 1);
    assert_eq!(app.session_start_page, 7);
}

#[test]
fn stop_with_zero_time_appends_nothing_and_keeps_the_page() {
    let mut lib = empty_library();
    book_tracker::storage::add_book(&mut lib, String::from("Dune"), 100);
    let mut app = AppState::new(0, &lib.books[0]);
    app.add_pages(12);
    let recorded = app.stop_with_timestamp(&mut lib, 5_000, String::from("t0"));
    assert!(!recorded);
    assert_eq!(lib.books[0].sessions.len(), 0);
    assert_eq!(lib.books[0].current_page, 12);
    assert_eq!(app.total_sessions, 0);
    assert_eq!(app.total_time_secs, 0);
}

#[test]
fn page_navigation_stays_clamped() {
    let b = book("Dune", 50);
    let mut app = AppState::new(0, &b);
    app.decrement_page();
    assert_eq!(app.current_page, 0);
    for _ in 0..60 {
        app.increment_page();
    }
    assert_eq!(app.current_page, 50);
    app.add_pages(10);
    assert_eq!(app.current_page, 50);
    app.add_pages(-10);
    assert_eq!(app.current_page, 40);
    app.add_pages(5);
    app.add_pages(10);
    assert_eq!(app.current_page, 50);
    app.add_pages(-1000);
    assert_eq!(app.current_page, 0);
}

#[test]
fn overshooting_delta_is_cut_at_the_last_page() {
    let mut b = book("Dune", 50);
    b.current_page = 45;
    let mut app = AppState::new(0, &b);
    app.add_pages(10);
    assert_eq!(app.current_page, 50);
}

#[test]
fn loading_a_book_resets_the_timer() {
    let mut first = book("Dune", 100);
    first.current_page = 30;
    let other = book("Emma", 200);
    let mut app = AppState::new(0, &first);
    app.start(1_000);
    app.pause(61_000);
    app.start(70_000);
    assert!(matches!(app.timer_state, TimerState::Running(_)));
    app.load_book(1, &other);
    assert!(matches!(app.timer_state, TimerState::Stopped));
    assert_eq!(app.elapsed(999_000), 0);
    assert_eq!(app.elapsed_before_pause_ms, 0);
    assert_eq!(app.book_index, 1);
    assert_eq!(app.current_page, 0);
    assert_eq!(app.total_pages, 200);
    assert_eq!(app.book_title, "Emma");
}

#[test]
fn progress_is_zero_without_pages_and_capped_at_one() {
    let b = book("Empty", 0);
    let app = AppState::new(0, &b);
    assert_eq!(app.progress_permille(), 0);

    let mut b2 = book("Dune", 100);
    b2.current_page = 120;
    let app2 = AppState::new(0, &b2);
    assert_eq!(app2.progress_permille(), 1000);

    let mut b3 = book("Emma", 200);
    b3.current_page = 50;
    let app3 = AppState::new(0, &b3);
    assert_eq!(app3.progress_permille(), 250);
}

#[test]
fn pages_read_this_session_can_be_negative() {
    let mut b = book("Dune", 100);
    b.current_page = 30;
    let mut app = AppState::new(0, &b);
    app.start(0);
    app.add_pages(-10);
    assert_eq!(app.pages_read_this_session(), -10);
    app.add_pages(25);
    assert_eq!(app.pages_read_this_session(), 15);
}

#[test]
fn statistics_sum_durations_and_count_sessions() {
    let mut b = book("Dune", 100);
    b.sessions.push(ReadingSession {
        book_title: String::from("Dune"),
        start_page: 0,
        end_page: 10,
        duration_secs: 90,
        timestamp: String::from("t1"),
    });
    b.sessions.push(ReadingSession {
        book_title: String::from("Dune"),
        start_page: 10,
        end_page: 25,
        duration_secs: 210,
        timestamp: String::from("t2"),
    });
    let (total, count) = book_tracker::storage::get_statistics(&b);
    assert_eq!(total, 300);
    assert_eq!(count, 2);
    let app = AppState::new(0, &b);
    assert_eq!(app.total_time_secs, 300);
    assert_eq!(app.total_sessions, 2);
}

#[test]
fn selector_wraps_both_ways() {
    let mut lib = empty_library();
    book_tracker::storage::add_book(&mut lib, String::from("A"), 10);
    book_tracker::storage::add_book(&mut lib, String::from("B"), 10);
    book_tracker::storage::add_book(&mut lib, String::from("C"), 10);
    let mut sel = BookSelector::new();
    assert_eq!(sel.selected_index, 0);
    assert!(sel.input_mode == InputMode::Selection);
    sel.select_next(&lib);
    assert_eq!(sel.selected_index, 1);
    sel.select_next(&lib);
    sel.select_next(&lib);
    assert_eq!(sel.selected_index, 0);
    sel.select_prev(&lib);
    assert_eq!(sel.selected_index, 2);
    sel.select_prev(&lib);
    assert_eq!(sel.selected_index, 1);
    let empty = empty_library();
    let mut sel2 = BookSelector::new();
    sel2.select_next(&empty);
    sel2.select_prev(&empty);
    assert_eq!(sel2.selected_index, 0);
}

#[test]
fn selector_wraps_modulo_even_from_a_stale_index() {
    let mut lib = empty_library();
    book_tracker::storage::add_book(&mut lib, String::from("A"), 10);
    book_tracker::storage::add_book(&mut lib, String::from("B"), 10);
    book_tracker::storage::add_book(&mut lib, String::from("C"), 10);
    let mut sel = BookSelector::new();
    sel.selected_index = 3;
    sel.select_next(&lib);
    assert_eq!(sel.selected_index, 1);
}

#[test]
fn invalid_book_index_is_ignored_on_every_write() {
    let mut lib = empty_library();
    book_tracker::storage::add_book(&mut lib, String::from("Dune"), 100);
    let session = ReadingSession {
        book_title: String::from("Dune"),
        start_page: 0,
        end_page: 5,
        duration_secs: 60,
        timestamp: String::from("t"),
    };
    book_tracker::storage::save_session(&mut lib, 7, &session);
    book_tracker::storage::save_current_page(&mut lib, 7, 40);
    let replacement = BookProgress {
        book_title: String::from("Other"),
        total_pages: 1,
        current_page: 1,
        sessions: Vec::new(),
    };
    book_tracker::storage::update_book(&mut lib, 7, &replacement);
    assert_eq!(lib.books.len(), 1);
    assert_eq!(lib.books[0].book_title, "Dune");
    assert_eq!(lib.books[0].current_page, 0);
    assert_eq!(lib.books[0].sessions.len(), 0);
}

#[test]
fn update_book_replaces_the_entry() {
    let mut lib = empty_library();
    book_tracker::storage::add_book(&mut lib, String::from("Dune"), 100);
    let mut replacement = book("Dune", 100);
    replacement.current_page = 55;
    book_tracker::storage::update_book(&mut lib, 0, &replacement);
    assert_eq!(lib.books[0].current_page, 55);
}
