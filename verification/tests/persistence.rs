use book_tracker::codec::{encode_library, library_from_document, parse_library};
use book_tracker::session::AppState;
use book_tracker::storage::{add_book, BookProgress, Library, ReadingSession};

fn session(title: &str, start: usize, end: usize, secs: u64, ts: &str) -> ReadingSession {
    ReadingSession {
        book_title: String::from(title),
        start_page: start,
        end_page: end,
        duration_secs: secs,
        timestamp: String::from(ts),
    }
}

fn assert_same_library(a: &Library, b: &Library) {
    assert_eq!(a.books.len(), b.books.len());
    for (x, y) in a.books.iter().zip(b.books.iter()) {
        assert_eq!(x.book_title, y.book_title);
        assert_eq!(x.total_pages, y.total_pages);
        assert_eq!(x.current_page, y.current_page);
        assert_eq!(x.sessions.len(), y.sessions.len());
        for (s, t) in x.sessions.iter().zip(y.sessions.iter()) {
            assert_eq!(s.book_title, t.book_title);
            assert_eq!(s.start_page, t.start_page);
            assert_eq!(s.end_page, t.end_page);
            assert_eq!(s.duration_secs, t.duration_secs);
            assert_eq!(s.timestamp, t.timestamp);
        }
    }
}

fn round_trip(lib: &Library) {
    let doc = encode_library(lib);
    let back = parse_library(&doc).expect("the encoder's output must parse");
    assert_same_library(lib, &back);
}

#[test]
fn round_trip_empty_library() {
    round_trip(&Library { books: Vec::new() });
    assert_eq!(
        encode_library(&Library { books: Vec::new() }),
        "{\"books\":[]}"
    );
}

#[test]
fn round_trip_one_book_no_sessions() {
    let mut lib = Library { books: Vec::new() };
    add_book(&mut lib, String::from("Dune"), 412);
    round_trip(&lib);
}

#[test]
fn round_trip_many_books_many_sessions() {
    let mut lib = Library { books: Vec::new() };
    add_book(&mut lib, String::from("Dune"), 412);
    add_book(&mut lib, String::from("Emma"), 300);
    add_book(&mut lib, String::from("Ulysses"), 730);
    lib.books[0].current_page = 99;
    lib.books[0]
        .sessions
        .push(session("Dune", 0, 40, 1_200, "2024-01-01T10:00:00+01:00"));
    lib.books[0]
        .sessions
        .push(session("Dune", 40, 99, 2_500, "2024-01-02T10:00:00+01:00"));
    lib.books[2].current_page = 3;
    lib.books[2]
        .sessions
        .push(session("Ulysses", 0, 3, 60, "2024-02-01T23:59:59+00:00"));
    round_trip(&lib);
}

#[test]
fn round_trip_titles_needing_escapes() {
    let mut lib = Library { books: Vec::new() };
    add_book(&mut lib, String::from("A \"quoted\" title \\ with\nnewline\tand\u{1}ctrl"), 10);
    add_book(&mut lib, String::from(""), 1);
    add_book(&mut lib, String::from("Voyage au centre de la Terre — Jules Verne ❤"), 5);
    round_trip(&lib);
}

#[test]
fn round_trip_largest_values() {
    let mut lib = Library { books: Vec::new() };
    add_book(&mut lib, String::from("Big"), usize::MAX);
    lib.books[0].current_page = usize::MAX;
    lib.books[0]
        .sessions
        .push(session("Big", 0, usize::MAX, u64::MAX, "t"));
    round_trip(&lib);
}

#[test]
fn parsing_tolerates_whitespace_of_pretty_documents() {
    let doc = "{\n  \"books\": [\n    {\n      \"book_title\": \"Dune\",\n      \"total_pages\": 412,\n      \"current_page\": 42,\n      \"sessions\": [\n        {\n          \"book_title\": \"Dune\",\n          \"start_page\": 0,\n          \"end_page\": 42,\n          \"duration_secs\": 90,\n          \"timestamp\": \"2024-03-04T18:05:59.135166+01:00\"\n        }\n      ]\n    }\n  ]\n}";
    let lib = parse_library(doc).expect("a pretty document must parse");
    assert_eq!(lib.books.len(), 1);
    assert_eq!(lib.books[0].book_title, "Dune");
    assert_eq!(lib.books[0].total_pages, 412);
    assert_eq!(lib.books[0].current_page, 42);
    assert_eq!(lib.books[0].sessions.len(), 1);
    assert_eq!(lib.books[0].sessions[0].duration_secs, 90);
    assert_eq!(
        lib.books[0].sessions[0].timestamp,
        "2024-03-04T18:05:59.135166+01:00"
    );
}

#[test]
fn parsing_decodes_short_and_unicode_escapes() {
    let doc = "{\"books\":[{\"book_title\":\"a\\\"b\\\\c\\/d\\n\\t\\r\\b\\f\\u0041\\u000a\",\"total_pages\":1,\"current_page\":0,\"sessions\":[]}]}";
    let lib = parse_library(doc).expect("escapes must parse");
    assert_eq!(
        lib.books[0].book_title,
        "a\"b\\c/d\n\t\r\u{8}\u{c}A\n"
    );
}

#[test]
fn corrupt_documents_yield_the_empty_library() {
    assert_eq!(library_from_document(None).books.len(), 0);
    assert_eq!(library_from_document(Some("")).books.len(), 0);
    assert_eq!(library_from_document(Some("not a document")).books.len(), 0);
    assert_eq!(library_from_document(Some("{\"books\":[")).books.len(), 0);
    assert_eq!(
        library_from_document(Some("{\"books\":[]}trailing")).books.len(),
        0
    );
    assert_eq!(
        library_from_document(Some("{\"books\":[{\"book_title\":\"x\",\"total_pages\":-1,\"current_page\":0,\"sessions\":[]}]}"))
            .books
            .len(),
        0
    );
    let doc = "{\"books\":[{\"book_title\":\"x\",\"total_pages\":99999999999999999999999999,\"current_page\":0,\"sessions\":[]}]}";
    assert_eq!(library_from_document(Some(doc)).books.len(), 0);
}

#[test]
fn a_good_document_loads_through_the_recovery_path_unchanged() {
    let mut lib = Library { books: Vec::new() };
    add_book(&mut lib, String::from("Dune"), 412);
    let doc = encode_library(&lib);
    let back = library_from_document(Some(&doc));
    assert_same_library(&lib, &back);
}

#[test]
fn the_document_shape_matches_the_stored_format() {
    let mut lib = Library { books: Vec::new() };
    add_book(&mut lib, String::from("Dune"), 412);
    lib.books[0].current_page = 42;
    lib.books[0]
        .sessions
        .push(session("Dune", 0, 42, 90, "2024-03-04T18:05:59+01:00"));
    let doc = encode_library(&lib);
    let v: serde_json::Value = serde_json::from_str(&doc).expect("the encoder must emit valid data");
    let books = v.get("books").and_then(|b| b.as_array()).expect("books array");
    assert_eq!(books.len(), 1);
    let b0 = &books[0];
    assert_eq!(b0.get("book_title").and_then(|x| x.as_str()), Some("Dune"));
    assert_eq!(b0.get("total_pages").and_then(|x| x.as_u64()), Some(412));
    assert_eq!(b0.get("current_page").and_then(|x| x.as_u64()), Some(42));
    let ss = b0.get("sessions").and_then(|s| s.as_array()).expect("sessions array");
    assert_eq!(ss.len(), 1);
    assert_eq!(ss[0].get("start_page").and_then(|x| x.as_u64()), Some(0));
    assert_eq!(ss[0].get("end_page").and_then(|x| x.as_u64()), Some(42));
    assert_eq!(ss[0].get("duration_secs").and_then(|x| x.as_u64()), Some(90));
    assert_eq!(
        ss[0].get("timestamp").and_then(|x| x.as_str()),
        Some("2024-03-04T18:05:59+01:00")
    );
}

#[test]
fn escaped_titles_stay_valid_for_other_readers() {
    let mut lib = Library { books: Vec::new() };
    add_book(&mut lib, String::from("A \"quoted\"\ttitle\n"), 7);
    let doc = encode_library(&lib);
    let v: serde_json::Value = serde_json::from_str(&doc).expect("escapes must stay valid");
    assert_eq!(
        v["books"][0]["book_title"].as_str(),
        Some("A \"quoted\"\ttitle\n")
    );
}

#[test]
fn end_to_end_scenario_with_a_simulated_clock() {
    // A fresh store: add a book with 200 pages.
    let mut lib = Library { books: Vec::new() };
    let index = add_book(&mut lib, String::from("The Voyage"), 200);
    assert_eq!(index, 0);
    let stored = encode_library(&lib);

    // Open the book, start the timer, read for 90 seconds, reach page 20.
    let loaded = library_from_document(Some(&stored));
    let mut app = AppState::new(0, &loaded.books[0]);
    let mut lib_now = loaded;
    let t0: u64 = 5_000;
    app.start(t0);
    app.add_pages(10);
    app.add_pages(10);
    assert_eq!(app.current_page, 20);
    let recorded = app.stop_with_timestamp(
        &mut lib_now,
        t0 + 90_000,
        String::from("2024-03-04T18:05:59+01:00"),
    );
    assert!(recorded);
    let stored_again = encode_library(&lib_now);

    // Reload and check the durable record.
    let reloaded = library_from_document(Some(&stored_again));
    assert_eq!(reloaded.books.len(), 1);
    let b = &reloaded.books[0];
    assert_eq!(b.current_page, 20);
    assert_eq!(b.sessions.len(), 1);
    assert_eq!(b.sessions[0].start_page, 0);
    assert_eq!(b.sessions[0].end_page, 20);
    assert_eq!(b.sessions[0].duration_secs, 90);
    let fresh = AppState::new(0, b);
    assert_eq!(fresh.total_sessions, 1);
    assert_eq!(fresh.total_time_secs, 90);
}
