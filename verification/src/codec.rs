//! The persisted library document: a verified encoder and parser.
//!
//! The durable artifact is a single structured text document: an object
//! with a `books` array; each book carries `book_title`, `total_pages`,
//! `current_page` and a `sessions` array; each session carries
//! `book_title`, `start_page`, `end_page`, `duration_secs` and
//! `timestamp`. Field names, nesting and order are load-bearing: existing
//! documents must keep loading. The encoder emits the document without
//! insignificant whitespace; the parser skips whitespace between tokens,
//! so it reads pretty-printed documents from earlier versions of the data
//! as well. String values are escaped the usual way: `\"` and `\\`, and
//! control characters as `\u00` followed by two hex digits; the parser
//! additionally accepts the short escapes `\/ \b \f \n \r \t` and any
//! `\u` escape below 256.

use vstd::prelude::*;
use vstd::string::StrSliceExecFns;

use crate::storage::{BookProgress, BookView, Library, ReadingSession, SessionView};

verus! {

/// Relies on `String::push`: appends one character at the end.
#[verifier::external_body]
pub(crate) fn push_char(s: &mut String, c: char)
    ensures
        final(s)@ == old(s)@ + seq![c],
{
    s.push(c);
}

/// The characters of a string slice, one by one.
fn str_chars(s: &str) -> (r: Vec<char>)
    ensures
        r@ == s@,
{
    let n = s.unicode_len();
    let mut r: Vec<char> = Vec::new();
    let mut i: usize = 0;
    while i < n
        invariant
            i <= n,
            n == s@.len(),
            r@ == s@.subrange(0, i as int),
        decreases n - i,
    {
        r.push(s.get_char(i));
        proof {
            assert(r@ =~= s@.subrange(0, i + 1 as int));
        }
        i = i + 1;
    }
    proof {
        assert(s@.subrange(0, n as int) =~= s@);
    }
    r
}

/// A string holding exactly the given characters.
fn chars_to_string(v: &Vec<char>) -> (r: String)
    ensures
        r@ == v@,
{
    let mut r = String::new();
    let mut i: usize = 0;
    while i < v.len()
        invariant
            i <= v@.len(),
            r@ == v@.subrange(0, i as int),
        decreases v@.len() - i,
    {
        push_char(&mut r, v[i]);
        proof {
            assert(r@ =~= v@.subrange(0, i + 1 as int));
        }
        i = i + 1;
    }
    proof {
        assert(v@.subrange(0, v@.len() as int) =~= v@);
    }
    r
}

// ---------------------------------------------------------------------
// Encoding, at the specification level.
// ---------------------------------------------------------------------
pub open spec fn is_ws(c: char) -> bool {
    c == ' ' || c == '\n' || c == '\t' || c == '\r'
}

pub open spec fn is_digit(c: char) -> bool {
    48 <= c as u32 && c as u32 <= 57
}

pub open spec fn digit_val(c: char) -> int {
    c as u32 - 48
}

/// The decimal digit character for a value below ten.
pub open spec fn digit_char(v: int) -> char {
    ((48 + v) as u8) as char
}

/// The lowercase hex digit character for a value below sixteen.
pub open spec fn hex_char(v: int) -> char {
    if v < 10 {
        digit_char(v)
    } else {
        ((87 + v) as u8) as char
    }
}

/// The shortest decimal numeral of `n`.
pub open spec fn dec_digits(n: int) -> Seq<char>
    decreases n,
{
    if n < 10 {
        seq![digit_char(n)]
    } else {
        dec_digits(n / 10) + seq![digit_char(n % 10)]
    }
}

/// How one character stands inside a quoted string: itself, unless it is
/// the quote, the backslash or a control character, which are escaped.
pub open spec fn esc_char(c: char) -> Seq<char> {
    if c == '"' {
        seq!['\\', '"']
    } else if c == '\\' {
        seq!['\\', '\\']
    } else if (c as u32) < 32 {
        seq!['\\', 'u', '0', '0', hex_char((c as u32) as int / 16), hex_char((c as u32) as int % 16)]
    } else {
        seq![c]
    }
}

/// A string's characters, each escaped as it stands inside quotes.
pub open spec fn esc_str(s: Seq<char>) -> Seq<char>
    decreases s.len(),
{
    if s.len() == 0 {
        Seq::empty()
    } else {
        esc_char(s.first()) + esc_str(s.drop_first())
    }
}

/// A quoted, escaped string value.
pub open spec fn enc_string(s: Seq<char>) -> Seq<char> {
    seq!['"'] + esc_str(s) + seq!['"']
}

/// `"key":`, the opening of an object field.
pub open spec fn key_chunk(key: Seq<char>) -> Seq<char> {
    seq!['"'] + key + seq!['"', ':']
}

pub open spec fn key_books() -> Seq<char> {
    seq!['b', 'o', 'o', 'k', 's']
}

pub open spec fn key_book_title() -> Seq<char> {
    seq!['b', 'o', 'o', 'k', '_', 't', 'i', 't', 'l', 'e']
}

pub open spec fn key_total_pages() -> Seq<char> {
    seq!['t', 'o', 't', 'a', 'l', '_', 'p', 'a', 'g', 'e', 's']
}

pub open spec fn key_current_page() -> Seq<char> {
    seq!['c', 'u', 'r', 'r', 'e', 'n', 't', '_', 'p', 'a', 'g', 'e']
}

pub open spec fn key_sessions() -> Seq<char> {
    seq!['s', 'e', 's', 's', 'i', 'o', 'n', 's']
}

pub open spec fn key_start_page() -> Seq<char> {
    seq!['s', 't', 'a', 'r', 't', '_', 'p', 'a', 'g', 'e']
}

pub open spec fn key_end_page() -> Seq<char> {
    seq!['e', 'n', 'd', '_', 'p', 'a', 'g', 'e']
}

pub open spec fn key_duration_secs() -> Seq<char> {
    seq!['d', 'u', 'r', 'a', 't', 'i', 'o', 'n', '_', 's', 'e', 'c', 's']
}

pub open spec fn key_timestamp() -> Seq<char> {
    seq!['t', 'i', 'm', 'e', 's', 't', 'a', 'm', 'p']
}

/// One session object.
pub open spec fn enc_session(s: SessionView) -> Seq<char> {
    seq!['{'] + key_chunk(key_book_title()) + enc_string(s.book_title) + seq![','] + key_chunk(
        key_start_page(),
    ) + dec_digits(s.start_page as int) + seq![','] + key_chunk(key_end_page()) + dec_digits(
        s.end_page as int,
    ) + seq![','] + key_chunk(key_duration_secs()) + dec_digits(s.duration_secs as int) + seq![
        ',',
    ] + key_chunk(key_timestamp()) + enc_string(s.timestamp) + seq!['}']
}

/// A comma-separated tail of session objects.
pub open spec fn enc_session_tail(ss: Seq<SessionView>) -> Seq<char>
    decreases ss.len(),
{
    if ss.len() == 0 {
        Seq::empty()
    } else {
        seq![','] + enc_session(ss.first()) + enc_session_tail(ss.drop_first())
    }
}

/// A session array.
pub open spec fn enc_sessions(ss: Seq<SessionView>) -> Seq<char> {
    if ss.len() == 0 {
        seq!['[', ']']
    } else {
        seq!['['] + enc_session(ss.first()) + enc_session_tail(ss.drop_first()) + seq![']']
    }
}

/// One book object.
pub open spec fn enc_book(b: BookView) -> Seq<char> {
    seq!['{'] + key_chunk(key_book_title()) + enc_string(b.book_title) + seq![','] + key_chunk(
        key_total_pages(),
    ) + dec_digits(b.total_pages as int) + seq![','] + key_chunk(key_current_page()) + dec_digits(
        b.current_page as int,
    ) + seq![','] + key_chunk(key_sessions()) + enc_sessions(b.sessions) + seq!['}']
}

/// A comma-separated tail of book objects.
pub open spec fn enc_book_tail(bs: Seq<BookView>) -> Seq<char>
    decreases bs.len(),
{
    if bs.len() == 0 {
        Seq::empty()
    } else {
        seq![','] + enc_book(bs.first()) + enc_book_tail(bs.drop_first())
    }
}

/// A book array.
pub open spec fn enc_books(bs: Seq<BookView>) -> Seq<char> {
    if bs.len() == 0 {
        seq!['[', ']']
    } else {
        seq!['['] + enc_book(bs.first()) + enc_book_tail(bs.drop_first()) + seq![']']
    }
}

/// The whole document.
pub open spec fn enc_library(bs: Seq<BookView>) -> Seq<char> {
    seq!['{'] + key_chunk(key_books()) + enc_books(bs) + seq!['}']
}

// ---------------------------------------------------------------------
// Parsing, at the specification level. Each function consumes a prefix
// of the remaining text and returns the value read and the rest, or
// nothing where the text does not fit the grammar.
// ---------------------------------------------------------------------
/// The rest after leading whitespace.
pub open spec fn p_ws(s: Seq<char>) -> Seq<char>
    decreases s.len(),
{
    if s.len() > 0 && is_ws(s.first()) {
        p_ws(s.drop_first())
    } else {
        s
    }
}

/// The rest after the exact characters `pat`.
pub open spec fn p_lit(s: Seq<char>, pat: Seq<char>) -> Option<Seq<char>> {
    if pat.len() <= s.len() && s.subrange(0, pat.len() as int) == pat {
        Some(s.skip(pat.len() as int))
    } else {
        None
    }
}

/// The value of one hex digit, either case.
pub open spec fn hex_val(c: char) -> Option<int> {
    if is_digit(c) {
        Some(digit_val(c))
    } else if 97 <= c as u32 && c as u32 <= 102 {
        Some(c as u32 - 87)
    } else if 65 <= c as u32 && c as u32 <= 70 {
        Some(c as u32 - 55)
    } else {
        None
    }
}

/// What a short escape `\e` stands for.
pub open spec fn short_escape(e: char) -> Option<char> {
    if e == '"' {
        Some('"')
    } else if e == '\\' {
        Some('\\')
    } else if e == '/' {
        Some('/')
    } else if e == 'n' {
        Some('\n')
    } else if e == 't' {
        Some('\t')
    } else if e == 'r' {
        Some('\r')
    } else if e == 'b' {
        Some((8 as u8) as char)
    } else if e == 'f' {
        Some((12 as u8) as char)
    } else {
        None
    }
}

/// The content of a quoted string, read from just after the opening
/// quote through the closing quote: escapes are decoded, and a `\u`
/// escape only up to 255, the encoder's and the stored documents' whole
/// repertoire.
pub open spec fn p_str_body(s: Seq<char>) -> Option<(Seq<char>, Seq<char>)>
    decreases s.len(),
{
    if s.len() == 0 {
        None
    } else if s.first() == '"' {
        Some((Seq::empty(), s.drop_first()))
    } else if s.first() == '\\' {
        if s.len() < 2 {
            None
        } else if s[1] == 'u' {
            if s.len() < 6 {
                None
            } else {
                match (hex_val(s[2]), hex_val(s[3]), hex_val(s[4]), hex_val(s[5])) {
                    (Some(h0), Some(h1), Some(h2), Some(h3)) => {
                        let v = 4096 * h0 + 256 * h1 + 16 * h2 + h3;
                        if v < 256 {
                            match p_str_body(s.skip(6)) {
                                Some(t) => Some((seq![(v as u8) as char] + t.0, t.1)),
                                None => None,
                            }
                        } else {
                            None
                        }
                    },
                    _ => None,
                }
            }
        } else {
            match short_escape(s[1]) {
                Some(c) => match p_str_body(s.skip(2)) {
                    Some(t) => Some((seq![c] + t.0, t.1)),
                    None => None,
                },
                None => None,
            }
        }
    } else {
        match p_str_body(s.drop_first()) {
            Some(t) => Some((seq![s.first()] + t.0, t.1)),
            None => None,
        }
    }
}

/// A quoted string value.
pub open spec fn p_string(s: Seq<char>) -> Option<(Seq<char>, Seq<char>)> {
    if s.len() > 0 && s.first() == '"' {
        p_str_body(s.drop_first())
    } else {
        None
    }
}

/// The run of digits and its value, folded left onto `acc`.
pub open spec fn p_digits(s: Seq<char>, acc: int) -> (int, Seq<char>)
    decreases s.len(),
{
    if s.len() > 0 && is_digit(s.first()) {
        p_digits(s.drop_first(), acc * 10 + digit_val(s.first()))
    } else {
        (acc, s)
    }
}

/// An unsigned decimal number.
pub open spec fn p_number(s: Seq<char>) -> Option<(int, Seq<char>)> {
    if s.len() > 0 && is_digit(s.first()) {
        Some(p_digits(s, 0))
    } else {
        None
    }
}

/// A number that fits a `usize`.
pub open spec fn p_usize(s: Seq<char>) -> Option<(usize, Seq<char>)> {
    match p_number(s) {
        Some(t) => if t.0 <= usize::MAX {
            Some((t.0 as usize, t.1))
        } else {
            None
        },
        None => None,
    }
}

/// A number that fits a `u64`.
pub open spec fn p_u64(s: Seq<char>) -> Option<(u64, Seq<char>)> {
    match p_number(s) {
        Some(t) => if t.0 <= u64::MAX {
            Some((t.0 as u64, t.1))
        } else {
            None
        },
        None => None,
    }
}

/// `"key" :` with whitespace around the tokens; the rest starts at the
/// field's value.
pub open spec fn p_key(s: Seq<char>, key: Seq<char>) -> Option<Seq<char>> {
    match p_lit(p_ws(s), seq!['"'] + key + seq!['"']) {
        Some(r1) => match p_lit(p_ws(r1), seq![':']) {
            Some(r2) => Some(p_ws(r2)),
            None => None,
        },
        None => None,
    }
}

/// One session object.
pub open spec fn p_session(s: Seq<char>) -> Option<(SessionView, Seq<char>)> {
    match p_lit(p_ws(s), seq!['{']) {
        Some(r0) => match p_key(r0, key_book_title()) {
            Some(r1) => match p_string(r1) {
                Some(t_title) => match p_lit(p_ws(t_title.1), seq![',']) {
                    Some(r3) => match p_key(r3, key_start_page()) {
                        Some(r4) => match p_usize(r4) {
                            Some(t_sp) => match p_lit(p_ws(t_sp.1), seq![',']) {
                                Some(r6) => match p_key(r6, key_end_page()) {
                                    Some(r7) => match p_usize(r7) {
                                        Some(t_ep) => match p_lit(p_ws(t_ep.1), seq![',']) {
                                            Some(r9) => match p_key(r9, key_duration_secs()) {
                                                Some(r10) => match p_u64(r10) {
                                                    Some(t_d) => match p_lit(
                                                        p_ws(t_d.1),
                                                        seq![','],
                                                    ) {
                                                        Some(r12) => match p_key(
                                                            r12,
                                                            key_timestamp(),
                                                        ) {
                                                            Some(r13) => match p_string(r13) {
                                                                Some(t_ts) => match p_lit(
                                                                    p_ws(t_ts.1),
                                                                    seq!['}'],
                                                                ) {
                                                                    Some(r15) => Some(
                                                                        (
                                                                            SessionView {
                                                                                book_title: t_title.0,
                                                                                start_page: t_sp.0,
                                                                                end_page: t_ep.0,
                                                                                duration_secs: t_d.0,
                                                                                timestamp: t_ts.0,
                                                                            },
                                                                            r15,
                                                                        ),
                                                                    ),
                                                                    None => None,
                                                                },
                                                                None => None,
                                                            },
                                                            None => None,
                                                        },
                                                        None => None,
                                                    },
                                                    None => None,
                                                },
                                                None => None,
                                            },
                                            None => None,
                                        },
                                        None => None,
                                    },
                                    None => None,
                                },
                                None => None,
                            },
                            None => None,
                        },
                        None => None,
                    },
                    None => None,
                },
                None => None,
            },
            None => None,
        },
        None => None,
    }
}

pub proof fn lemma_p_ws_len(s: Seq<char>)
    ensures
        p_ws(s).len() <= s.len(),
    decreases s.len(),
{
    if s.len() > 0 && is_ws(s.first()) {
        lemma_p_ws_len(s.drop_first());
    }
}

pub proof fn lemma_p_str_body_len(s: Seq<char>)
    ensures
        (p_str_body(s) matches Some(t) ==> t.1.len() < s.len()),
    decreases s.len(),
{
    if s.len() == 0 {
    } else if s.first() == '"' {
    } else if s.first() == '\\' {
        if s.len() >= 6 {
            lemma_p_str_body_len(s.skip(6));
        }
        if s.len() >= 2 {
            lemma_p_str_body_len(s.skip(2));
        }
    } else {
        lemma_p_str_body_len(s.drop_first());
    }
}

pub proof fn lemma_p_digits_len(s: Seq<char>, acc: int)
    ensures
        p_digits(s, acc).1.len() <= s.len(),
    decreases s.len(),
{
    if s.len() > 0 && is_digit(s.first()) {
        lemma_p_digits_len(s.drop_first(), acc * 10 + digit_val(s.first()));
    }
}

pub proof fn lemma_p_key_len(s: Seq<char>, key: Seq<char>)
    ensures
        (p_key(s, key) matches Some(r) ==> r.len() < s.len()),
{
    lemma_p_ws_len(s);
    if let Some(r1) = p_lit(p_ws(s), seq!['"'] + key + seq!['"']) {
        lemma_p_ws_len(r1);
        if let Some(r2) = p_lit(p_ws(r1), seq![':']) {
            lemma_p_ws_len(r2);
        }
    }
}

pub proof fn lemma_p_session_len(s: Seq<char>)
    ensures
        (p_session(s) matches Some(t) ==> t.1.len() < s.len()),
{
    lemma_p_ws_len(s);
    if let Some(r0) = p_lit(p_ws(s), seq!['{']) {
        lemma_p_key_len(r0, key_book_title());
        if let Some(r1) = p_key(r0, key_book_title()) {
            lemma_p_str_body_len(r1.drop_first());
            if let Some(t_title) = p_string(r1) {
                lemma_p_ws_len(t_title.1);
                if let Some(r3) = p_lit(p_ws(t_title.1), seq![',']) {
                    lemma_p_key_len(r3, key_start_page());
                    if let Some(r4) = p_key(r3, key_start_page()) {
                        lemma_p_digits_len(r4, 0);
                        if let Some(t_sp) = p_usize(r4) {
                            lemma_p_ws_len(t_sp.1);
                            if let Some(r6) = p_lit(p_ws(t_sp.1), seq![',']) {
                                lemma_p_key_len(r6, key_end_page());
                                if let Some(r7) = p_key(r6, key_end_page()) {
                                    lemma_p_digits_len(r7, 0);
                                    if let Some(t_ep) = p_usize(r7) {
                                        lemma_p_ws_len(t_ep.1);
                                        if let Some(r9) = p_lit(p_ws(t_ep.1), seq![',']) {
                                            lemma_p_key_len(r9, key_duration_secs());
                                            if let Some(r10) = p_key(r9, key_duration_secs()) {
                                                lemma_p_digits_len(r10, 0);
                                                if let Some(t_d) = p_u64(r10) {
                                                    lemma_p_ws_len(t_d.1);
                                                    if let Some(r12) = p_lit(p_ws(t_d.1), seq![',']) {
                                                        lemma_p_key_len(r12, key_timestamp());
                                                        if let Some(r13) = p_key(r12, key_timestamp()) {
                                                            lemma_p_str_body_len(
                                                                r13.drop_first(),
                                                            );
                                                            if let Some(t_ts) = p_string(r13) {
                                                                lemma_p_ws_len(t_ts.1);
                                                            }
                                                        }
                                                    }
                                                }
                                            }
                                        }
                                    }
                                }
                            }
                        }
                    }
                }
            }
        }
    }
}

/// The sessions after the first in an array, each preceded by a comma,
/// through the closing bracket.
pub open spec fn p_session_tail(s: Seq<char>, acc: Seq<SessionView>) -> Option<
    (Seq<SessionView>, Seq<char>),
>
    decreases s.len(),
    via p_session_tail_dec
{
    let s0 = p_ws(s);
    if s0.len() > 0 && s0.first() == ']' {
        Some((acc, s0.drop_first()))
    } else if s0.len() > 0 && s0.first() == ',' {
        match p_session(s0.drop_first()) {
            Some(t) => p_session_tail(t.1, acc.push(t.0)),
            None => None,
        }
    } else {
        None
    }
}

#[via_fn]
proof fn p_session_tail_dec(s: Seq<char>, acc: Seq<SessionView>) {
    lemma_p_ws_len(s);
    let s0 = p_ws(s);
    if s0.len() > 0 && s0.first() == ',' {
        lemma_p_session_len(s0.drop_first());
    }
}

/// A session array.
pub open spec fn p_sessions(s: Seq<char>) -> Option<(Seq<SessionView>, Seq<char>)> {
    match p_lit(p_ws(s), seq!['[']) {
        Some(r0) => {
            let r1 = p_ws(r0);
            if r1.len() > 0 && r1.first() == ']' {
                Some((Seq::empty(), r1.drop_first()))
            } else {
                match p_session(r0) {
                    Some(t) => p_session_tail(t.1, seq![t.0]),
                    None => None,
                }
            }
        },
        None => None,
    }
}

pub proof fn lemma_p_session_tail_len(s: Seq<char>, acc: Seq<SessionView>)
    ensures
        (p_session_tail(s, acc) matches Some(t) ==> t.1.len() <= s.len()),
    decreases s.len(),
{
    lemma_p_ws_len(s);
    let s0 = p_ws(s);
    if s0.len() > 0 && s0.first() == ',' {
        lemma_p_session_len(s0.drop_first());
        if let Some(t) = p_session(s0.drop_first()) {
            lemma_p_session_tail_len(t.1, acc.push(t.0));
        }
    }
}

pub proof fn lemma_p_sessions_len(s: Seq<char>)
    ensures
        (p_sessions(s) matches Some(t) ==> t.1.len() < s.len()),
{
    lemma_p_ws_len(s);
    if let Some(r0) = p_lit(p_ws(s), seq!['[']) {
        lemma_p_ws_len(r0);
        lemma_p_session_len(r0);
        if let Some(t) = p_session(r0) {
            lemma_p_session_tail_len(t.1, seq![t.0]);
        }
    }
}

/// One book object.
pub open spec fn p_book(s: Seq<char>) -> Option<(BookView, Seq<char>)> {
    match p_lit(p_ws(s), seq!['{']) {
        Some(r0) => match p_key(r0, key_book_title()) {
            Some(r1) => match p_string(r1) {
                Some(t_title) => match p_lit(p_ws(t_title.1), seq![',']) {
                    Some(r3) => match p_key(r3, key_total_pages()) {
                        Some(r4) => match p_usize(r4) {
                            Some(t_tp) => match p_lit(p_ws(t_tp.1), seq![',']) {
                                Some(r6) => match p_key(r6, key_current_page()) {
                                    Some(r7) => match p_usize(r7) {
                                        Some(t_cp) => match p_lit(p_ws(t_cp.1), seq![',']) {
                                            Some(r9) => match p_key(r9, key_sessions()) {
                                                Some(r10) => match p_sessions(r10) {
                                                    Some(t_ss) => match p_lit(
                                                        p_ws(t_ss.1),
                                                        seq!['}'],
                                                    ) {
                                                        Some(r12) => Some(
                                                            (
                                                                BookView {
                                                                    book_title: t_title.0,
                                                                    total_pages: t_tp.0,
                                                                    current_page: t_cp.0,
                                                                    sessions: t_ss.0,
                                                                },
                                                                r12,
                                                            ),
                                                        ),
                                                        None => None,
                                                    },
                                                    None => None,
                                                },
                                                None => None,
                                            },
                                            None => None,
                                        },
                                        None => None,
                                    },
                                    None => None,
                                },
                                None => None,
                            },
                            None => None,
                        },
                        None => None,
                    },
                    None => None,
                },
                None => None,
            },
            None => None,
        },
        None => None,
    }
}

pub proof fn lemma_p_book_len(s: Seq<char>)
    ensures
        (p_book(s) matches Some(t) ==> t.1.len() < s.len()),
{
    lemma_p_ws_len(s);
    if let Some(r0) = p_lit(p_ws(s), seq!['{']) {
        lemma_p_key_len(r0, key_book_title());
        if let Some(r1) = p_key(r0, key_book_title()) {
            lemma_p_str_body_len(r1.drop_first());
            if let Some(t_title) = p_string(r1) {
                lemma_p_ws_len(t_title.1);
                if let Some(r3) = p_lit(p_ws(t_title.1), seq![',']) {
                    lemma_p_key_len(r3, key_total_pages());
                    if let Some(r4) = p_key(r3, key_total_pages()) {
                        lemma_p_digits_len(r4, 0);
                        if let Some(t_tp) = p_usize(r4) {
                            lemma_p_ws_len(t_tp.1);
                            if let Some(r6) = p_lit(p_ws(t_tp.1), seq![',']) {
                                lemma_p_key_len(r6, key_current_page());
                                if let Some(r7) = p_key(r6, key_current_page()) {
                                    lemma_p_digits_len(r7, 0);
                                    if let Some(t_cp) = p_usize(r7) {
                                        lemma_p_ws_len(t_cp.1);
                                        if let Some(r9) = p_lit(p_ws(t_cp.1), seq![',']) {
                                            lemma_p_key_len(r9, key_sessions());
                                            if let Some(r10) = p_key(r9, key_sessions()) {
                                                lemma_p_sessions_len(r10);
                                                if let Some(t_ss) = p_sessions(r10) {
                                                    lemma_p_ws_len(t_ss.1);
                                                }
                                            }
                                        }
                                    }
                                }
                            }
                        }
                    }
                }
            }
        }
    }
}

/// The books after the first in an array, each preceded by a comma,
/// through the closing bracket.
pub open spec fn p_book_tail(s: Seq<char>, acc: Seq<BookView>) -> Option<
    (Seq<BookView>, Seq<char>),
>
    decreases s.len(),
    via p_book_tail_dec
{
    let s0 = p_ws(s);
    if s0.len() > 0 && s0.first() == ']' {
        Some((acc, s0.drop_first()))
    } else if s0.len() > 0 && s0.first() == ',' {
        match p_book(s0.drop_first()) {
            Some(t) => p_book_tail(t.1, acc.push(t.0)),
            None => None,
        }
    } else {
        None
    }
}

#[via_fn]
proof fn p_book_tail_dec(s: Seq<char>, acc: Seq<BookView>) {
    lemma_p_ws_len(s);
    let s0 = p_ws(s);
    if s0.len() > 0 && s0.first() == ',' {
        lemma_p_book_len(s0.drop_first());
    }
}

/// A book array.
pub open spec fn p_books(s: Seq<char>) -> Option<(Seq<BookView>, Seq<char>)> {
    match p_lit(p_ws(s), seq!['[']) {
        Some(r0) => {
            let r1 = p_ws(r0);
            if r1.len() > 0 && r1.first() == ']' {
                Some((Seq::empty(), r1.drop_first()))
            } else {
                match p_book(r0) {
                    Some(t) => p_book_tail(t.1, seq![t.0]),
                    None => None,
                }
            }
        },
        None => None,
    }
}

// ---------------------------------------------------------------------
// The parser inverts the encoder. The lemmas compose token by token, in
// the encoder's order, towards the round-trip law at the end.
// ---------------------------------------------------------------------
proof fn lemma_p_ws_noop(s: Seq<char>)
    requires
        s.len() == 0 || !is_ws(s.first()),
    ensures
        p_ws(s) == s,
{
}

proof fn lemma_p_lit_prefix(pat: Seq<char>, rest: Seq<char>)
    ensures
        p_lit(pat + rest, pat) == Some(rest),
{
    assert((pat + rest).subrange(0, pat.len() as int) =~= pat);
    assert((pat + rest).skip(pat.len() as int) =~= rest);
}

proof fn lemma_esc_str_round(t: Seq<char>, rest: Seq<char>)
    ensures
        p_str_body(esc_str(t) + (seq!['"'] + rest)) == Some((t, rest)),
    decreases t.len(),
{
    let s = esc_str(t) + (seq!['"'] + rest);
    if t.len() == 0 {
        assert(s =~= seq!['"'] + rest);
        assert(s.drop_first() =~= rest);
    } else {
        let c = t.first();
        let t2 = t.drop_first();
        let tail = esc_str(t2) + (seq!['"'] + rest);
        assert(s =~= esc_char(c) + tail);
        lemma_esc_str_round(t2, rest);
        if c == '"' {
            assert(s.skip(2) =~= tail);
            assert(seq![c] + t2 =~= t);
        } else if c == '\\' {
            assert(s.skip(2) =~= tail);
            assert(seq![c] + t2 =~= t);
        } else if (c as u32) < 32 {
            let cv = (c as u32) as int;
            assert(s.skip(6) =~= tail);
            assert(hex_val('0') == Some(0int));
            assert(hex_val(hex_char(cv / 16)) == Some(cv / 16));
            assert(hex_val(hex_char(cv % 16)) == Some(cv % 16));
            assert(16 * (cv / 16) + cv % 16 == cv);
            assert(((cv as u8) as char) as u32 == c as u32);
            vstd::utf8::char_u32_cast(c, c as u32);
            vstd::utf8::char_u32_cast((cv as u8) as char, c as u32);
            assert(((cv as u8) as char) == c);
            assert(seq![c] + t2 =~= t);
        } else {
            assert(s.drop_first() =~= tail);
            assert(seq![c] + t2 =~= t);
        }
    }
}

proof fn lemma_enc_string_round(t: Seq<char>, rest: Seq<char>)
    ensures
        p_string(enc_string(t) + rest) == Some((t, rest)),
{
    let s = enc_string(t) + rest;
    assert(s.first() == '"');
    assert(s.drop_first() =~= esc_str(t) + (seq!['"'] + rest));
    lemma_esc_str_round(t, rest);
}

/// The value of a digit run folded left onto `acc`.
pub open spec fn fold_digits(acc: int, ds: Seq<char>) -> int
    decreases ds.len(),
{
    if ds.len() == 0 {
        acc
    } else {
        fold_digits(acc * 10 + digit_val(ds.first()), ds.drop_first())
    }
}

/// The power of ten just above `n`.
pub open spec fn ten_above(n: int) -> int
    decreases n,
{
    if n < 10 {
        10
    } else {
        10 * ten_above(n / 10)
    }
}

proof fn lemma_dec_digits_all_digits(n: int)
    requires
        0 <= n,
    ensures
        dec_digits(n).len() >= 1,
        forall|i: int| 0 <= i < dec_digits(n).len() ==> is_digit(#[trigger] dec_digits(n)[i]),
    decreases n,
{
    if n < 10 {
        assert(is_digit(digit_char(n)));
    } else {
        lemma_dec_digits_all_digits(n / 10);
        assert(is_digit(digit_char(n % 10)));
        assert(forall|i: int|
            0 <= i < dec_digits(n).len() ==> is_digit(#[trigger] dec_digits(n)[i])) by {
            assert(forall|i: int|
                0 <= i < dec_digits(n / 10).len() ==> dec_digits(n)[i] == #[trigger] dec_digits(
                    n / 10,
                )[i]);
            assert(dec_digits(n)[dec_digits(n).len() - 1] == digit_char(n % 10));
        }
    }
}

proof fn lemma_p_digits_run(ds: Seq<char>, rest: Seq<char>, acc: int)
    requires
        forall|i: int| 0 <= i < ds.len() ==> is_digit(#[trigger] ds[i]),
        rest.len() == 0 || !is_digit(rest.first()),
    ensures
        p_digits(ds + rest, acc) == (fold_digits(acc, ds), rest),
    decreases ds.len(),
{
    let s = ds + rest;
    if ds.len() == 0 {
        assert(s =~= rest);
    } else {
        assert(s.first() == ds.first());
        assert(s.drop_first() =~= ds.drop_first() + rest);
        lemma_p_digits_run(ds.drop_first(), rest, acc * 10 + digit_val(ds.first()));
    }
}

proof fn lemma_fold_dec_digits(n: int, acc: int)
    requires
        0 <= n,
    ensures
        fold_digits(acc, dec_digits(n)) == acc * ten_above(n) + n,
    decreases n,
{
    if n < 10 {
        let ds = dec_digits(n);
        assert(ds == seq![digit_char(n)]);
        assert(digit_val(digit_char(n)) == n);
        assert(ds.drop_first() =~= Seq::<char>::empty());
        assert(fold_digits(acc, ds) == fold_digits(
            acc * 10 + digit_val(ds.first()),
            ds.drop_first(),
        ));
        assert(fold_digits(acc * 10 + n, Seq::<char>::empty()) == acc * 10 + n);
        assert(ten_above(n) == 10);
    } else {
        let hi = dec_digits(n / 10);
        let d = digit_char(n % 10);
        lemma_fold_dec_digits(n / 10, acc);
        lemma_fold_digits_snoc(acc, hi, d);
        assert(dec_digits(n) =~= hi.push(d));
        assert(digit_val(d) == n % 10);
        assert(fold_digits(acc, dec_digits(n)) == (acc * ten_above(n / 10) + n / 10) * 10 + n
            % 10);
        assert((acc * ten_above(n / 10) + n / 10) * 10 + n % 10 == acc * (10 * ten_above(n / 10))
            + ((n / 10) * 10 + n % 10)) by (nonlinear_arith);
        assert((n / 10) * 10 + n % 10 == n);
        assert(ten_above(n) == 10 * ten_above(n / 10));
    }
}

proof fn lemma_fold_digits_snoc(acc: int, ds: Seq<char>, d: char)
    ensures
        fold_digits(acc, ds.push(d)) == fold_digits(acc, ds) * 10 + digit_val(d),
    decreases ds.len(),
{
    let dsp = ds.push(d);
    if ds.len() == 0 {
        assert(dsp.first() == d);
        assert(dsp.drop_first() =~= Seq::<char>::empty());
        assert(fold_digits(acc, dsp) == fold_digits(
            acc * 10 + digit_val(d),
            dsp.drop_first(),
        ));
    } else {
        assert(dsp.first() == ds.first());
        assert(dsp.drop_first() =~= ds.drop_first().push(d));
        assert(fold_digits(acc, dsp) == fold_digits(
            acc * 10 + digit_val(ds.first()),
            dsp.drop_first(),
        ));
        lemma_fold_digits_snoc(acc * 10 + digit_val(ds.first()), ds.drop_first(), d);
        assert(fold_digits(acc, ds) == fold_digits(
            acc * 10 + digit_val(ds.first()),
            ds.drop_first(),
        ));
    }
}

proof fn lemma_p_number_dec(n: int, rest: Seq<char>)
    requires
        0 <= n,
        rest.len() == 0 || !is_digit(rest.first()),
    ensures
        p_number(dec_digits(n) + rest) == Some((n, rest)),
{
    lemma_dec_digits_all_digits(n);
    assert((dec_digits(n) + rest).first() == dec_digits(n).first());
    assert(is_digit(dec_digits(n).first()));
    lemma_p_digits_run(dec_digits(n), rest, 0);
    lemma_fold_dec_digits(n, 0);
}

proof fn lemma_p_key_chunk(key: Seq<char>, rest: Seq<char>)
    requires
        rest.len() > 0,
        !is_ws(rest.first()),
    ensures
        p_key(key_chunk(key) + rest, key) == Some(rest),
{
    let s = key_chunk(key) + rest;
    let quoted = seq!['"'] + key + seq!['"'];
    assert(s =~= quoted + (seq![':'] + rest));
    assert(s.first() == '"');
    lemma_p_ws_noop(s);
    lemma_p_lit_prefix(quoted, seq![':'] + rest);
    let r1 = seq![':'] + rest;
    lemma_p_ws_noop(r1);
    lemma_p_lit_prefix(seq![':'], rest);
    assert(r1 =~= seq![':'] + rest);
    lemma_p_ws_noop(rest);
}

proof fn lemma_punct_step(r: Seq<char>, c: char, tail: Seq<char>)
    requires
        r == seq![c] + tail,
        !is_ws(c),
    ensures
        p_lit(p_ws(r), seq![c]) == Some(tail),
{
    assert(r.first() == c);
    lemma_p_ws_noop(r);
    lemma_p_lit_prefix(seq![c], tail);
}

proof fn lemma_key_string_step(r: Seq<char>, key: Seq<char>, val: Seq<char>, tail: Seq<char>)
    requires
        r == key_chunk(key) + (enc_string(val) + tail),
    ensures
        p_key(r, key) == Some(enc_string(val) + tail),
        p_string(enc_string(val) + tail) == Some((val, tail)),
{
    assert((enc_string(val) + tail).first() == '"');
    lemma_p_key_chunk(key, enc_string(val) + tail);
    lemma_enc_string_round(val, tail);
}

proof fn lemma_key_number_step(r: Seq<char>, key: Seq<char>, n: int, tail: Seq<char>)
    requires
        r == key_chunk(key) + (dec_digits(n) + tail),
        0 <= n,
        tail.len() > 0,
        !is_ws(tail.first()),
        !is_digit(tail.first()),
    ensures
        p_key(r, key) == Some(dec_digits(n) + tail),
        p_number(dec_digits(n) + tail) == Some((n, tail)),
{
    lemma_dec_digits_all_digits(n);
    assert((dec_digits(n) + tail).first() == dec_digits(n).first());
    assert(is_digit(dec_digits(n).first()));
    lemma_p_key_chunk(key, dec_digits(n) + tail);
    lemma_p_number_dec(n, tail);
}

#[verifier::rlimit(100)]
#[verifier::spinoff_prover]
proof fn lemma_enc_session_round(sv: SessionView, rest: Seq<char>)
    requires
        rest.len() > 0,
        !is_ws(rest.first()),
    ensures
        p_session(enc_session(sv) + rest) == Some((sv, rest)),
{
    let s = enc_session(sv) + rest;
    let w9 = seq!['}'] + rest;
    let w8 = enc_string(sv.timestamp) + w9;
    let w7 = key_chunk(key_timestamp()) + w8;
    let w6b = seq![','] + w7;
    let w6 = dec_digits(sv.duration_secs as int) + w6b;
    let w5 = key_chunk(key_duration_secs()) + w6;
    let w4b = seq![','] + w5;
    let w4 = dec_digits(sv.end_page as int) + w4b;
    let w3 = key_chunk(key_end_page()) + w4;
    let w2b = seq![','] + w3;
    let w2 = dec_digits(sv.start_page as int) + w2b;
    let w1 = key_chunk(key_start_page()) + w2;
    let w0b = seq![','] + w1;
    let w0 = enc_string(sv.book_title) + w0b;
    let wa = key_chunk(key_book_title()) + w0;
    assert(s =~= seq!['{'] + wa);
    lemma_punct_step(s, '{', wa);
    assert(wa == key_chunk(key_book_title()) + (enc_string(sv.book_title) + w0b));
    lemma_key_string_step(wa, key_book_title(), sv.book_title, w0b);
    lemma_punct_step(w0b, ',', w1);
    assert(w2b.first() == ',');
    lemma_key_number_step(w1, key_start_page(), sv.start_page as int, w2b);
    lemma_punct_step(w2b, ',', w3);
    assert(w4b.first() == ',');
    lemma_key_number_step(w3, key_end_page(), sv.end_page as int, w4b);
    lemma_punct_step(w4b, ',', w5);
    assert(w6b.first() == ',');
    lemma_key_number_step(w5, key_duration_secs(), sv.duration_secs as int, w6b);
    lemma_punct_step(w6b, ',', w7);
    assert(w7 == key_chunk(key_timestamp()) + (enc_string(sv.timestamp) + w9));
    lemma_key_string_step(w7, key_timestamp(), sv.timestamp, w9);
    lemma_punct_step(w9, '}', rest);
    assert(p_session(s) == Some((sv, rest)));
}

#[verifier::rlimit(100)]
#[verifier::spinoff_prover]
proof fn lemma_enc_session_tail_round(ss: Seq<SessionView>, acc: Seq<SessionView>, rest: Seq<char>)
    requires
        rest.len() > 0,
        !is_ws(rest.first()),
    ensures
        p_session_tail(enc_session_tail(ss) + (seq![']'] + rest), acc) == Some((acc + ss, rest)),
    decreases ss.len(),
{
    let s = enc_session_tail(ss) + (seq![']'] + rest);
    if ss.len() == 0 {
        assert(s =~= seq![']'] + rest);
        assert(s.first() == ']');
        lemma_p_ws_noop(s);
        assert(s.drop_first() =~= rest);
        assert(acc + ss =~= acc);
    } else {
        let s0 = ss.first();
        let tail_enc = enc_session_tail(ss.drop_first()) + (seq![']'] + rest);
        let w = enc_session(s0) + tail_enc;
        assert(s =~= seq![','] + w);
        assert(s.first() == ',');
        lemma_p_ws_noop(s);
        assert(s.drop_first() =~= w);
        if ss.drop_first().len() == 0 {
            assert(tail_enc =~= seq![']'] + rest);
            assert(tail_enc.first() == ']');
        } else {
            assert(tail_enc.first() == ',');
        }
        lemma_enc_session_round(s0, tail_enc);
        lemma_enc_session_tail_round(ss.drop_first(), acc.push(s0), rest);
        assert(acc.push(s0) + ss.drop_first() =~= acc + ss);
    }
}

#[verifier::rlimit(100)]
#[verifier::spinoff_prover]
proof fn lemma_enc_sessions_round(ss: Seq<SessionView>, rest: Seq<char>)
    requires
        rest.len() > 0,
        !is_ws(rest.first()),
    ensures
        p_sessions(enc_sessions(ss) + rest) == Some((ss, rest)),
{
    let s = enc_sessions(ss) + rest;
    if ss.len() == 0 {
        let r0 = seq![']'] + rest;
        assert(s =~= seq!['['] + r0);
        lemma_punct_step(s, '[', r0);
        assert(r0.first() == ']');
        lemma_p_ws_noop(r0);
        assert(r0.drop_first() =~= rest);
        assert(Seq::<SessionView>::empty() =~= ss);
    } else {
        let s0 = ss.first();
        let tail_enc = enc_session_tail(ss.drop_first()) + (seq![']'] + rest);
        let w = enc_session(s0) + tail_enc;
        assert(s =~= seq!['['] + w);
        lemma_punct_step(s, '[', w);
        assert(w.first() == '{');
        lemma_p_ws_noop(w);
        if ss.drop_first().len() == 0 {
            assert(tail_enc =~= seq![']'] + rest);
            assert(tail_enc.first() == ']');
        } else {
            assert(tail_enc.first() == ',');
        }
        lemma_enc_session_round(s0, tail_enc);
        lemma_enc_session_tail_round(ss.drop_first(), seq![s0], rest);
        assert(seq![s0] + ss.drop_first() =~= ss);
    }
}

#[verifier::rlimit(100)]
#[verifier::spinoff_prover]
proof fn lemma_enc_book_round(b: BookView, rest: Seq<char>)
    requires
        rest.len() > 0,
        !is_ws(rest.first()),
    ensures
        p_book(enc_book(b) + rest) == Some((b, rest)),
{
    let s = enc_book(b) + rest;
    let w9 = seq!['}'] + rest;
    let w8 = enc_sessions(b.sessions) + w9;
    let w7 = key_chunk(key_sessions()) + w8;
    let w6b = seq![','] + w7;
    let w6 = dec_digits(b.current_page as int) + w6b;
    let w5 = key_chunk(key_current_page()) + w6;
    let w4b = seq![','] + w5;
    let w4 = dec_digits(b.total_pages as int) + w4b;
    let w3 = key_chunk(key_total_pages()) + w4;
    let w2b = seq![','] + w3;
    let w2 = enc_string(b.book_title) + w2b;
    let wa = key_chunk(key_book_title()) + w2;
    assert(s =~= seq!['{'] + wa);
    lemma_punct_step(s, '{', wa);
    assert(wa == key_chunk(key_book_title()) + (enc_string(b.book_title) + w2b));
    lemma_key_string_step(wa, key_book_title(), b.book_title, w2b);
    lemma_punct_step(w2b, ',', w3);
    assert(w4b.first() == ',');
    lemma_key_number_step(w3, key_total_pages(), b.total_pages as int, w4b);
    lemma_punct_step(w4b, ',', w5);
    assert(w6b.first() == ',');
    lemma_key_number_step(w5, key_current_page(), b.current_page as int, w6b);
    lemma_punct_step(w6b, ',', w7);
    assert(w8.first() == '[');
    lemma_p_key_chunk(key_sessions(), w8);
    assert(w9.first() == '}');
    lemma_enc_sessions_round(b.sessions, w9);
    assert(w8 == enc_sessions(b.sessions) + w9);
    lemma_punct_step(w9, '}', rest);
    assert(p_book(s) == Some((b, rest)));
}

#[verifier::rlimit(100)]
#[verifier::spinoff_prover]
proof fn lemma_enc_book_tail_round(bs: Seq<BookView>, acc: Seq<BookView>, rest: Seq<char>)
    requires
        rest.len() > 0,
        !is_ws(rest.first()),
    ensures
        p_book_tail(enc_book_tail(bs) + (seq![']'] + rest), acc) == Some((acc + bs, rest)),
    decreases bs.len(),
{
    let s = enc_book_tail(bs) + (seq![']'] + rest);
    if bs.len() == 0 {
        assert(s =~= seq![']'] + rest);
        assert(s.first() == ']');
        lemma_p_ws_noop(s);
        assert(s.drop_first() =~= rest);
        assert(acc + bs =~= acc);
    } else {
        let b0 = bs.first();
        let tail_enc = enc_book_tail(bs.drop_first()) + (seq![']'] + rest);
        let w = enc_book(b0) + tail_enc;
        assert(s =~= seq![','] + w);
        assert(s.first() == ',');
        lemma_p_ws_noop(s);
        assert(s.drop_first() =~= w);
        if bs.drop_first().len() == 0 {
            assert(tail_enc =~= seq![']'] + rest);
            assert(tail_enc.first() == ']');
        } else {
            assert(tail_enc.first() == ',');
        }
        lemma_enc_book_round(b0, tail_enc);
        lemma_enc_book_tail_round(bs.drop_first(), acc.push(b0), rest);
        assert(acc.push(b0) + bs.drop_first() =~= acc + bs);
    }
}

#[verifier::rlimit(100)]
#[verifier::spinoff_prover]
proof fn lemma_enc_book_first(b: BookView)
    ensures
        enc_book(b).len() > 0,
        enc_book(b).first() == '{',
{
}

proof fn lemma_enc_book_tail_first(bs: Seq<BookView>)
    ensures
        bs.len() > 0 ==> enc_book_tail(bs).len() > 0 && enc_book_tail(bs).first() == ',',
        bs.len() == 0 ==> enc_book_tail(bs).len() == 0,
{
    if bs.len() > 0 {
        assert((seq![','] + enc_book(bs.first()) + enc_book_tail(bs.drop_first())).first()
            == ',');
    }
}

#[verifier::rlimit(100)]
#[verifier::spinoff_prover]
proof fn lemma_enc_books_decompose(bs: Seq<BookView>, rest: Seq<char>)
    requires
        bs.len() > 0,
    ensures
        enc_books(bs) + rest == seq!['['] + (enc_book(bs.first()) + (enc_book_tail(
            bs.drop_first(),
        ) + (seq![']'] + rest))),
{
    assert(enc_books(bs) + rest =~= seq!['['] + (enc_book(bs.first()) + (enc_book_tail(
        bs.drop_first(),
    ) + (seq![']'] + rest))));
}

#[verifier::rlimit(100)]
#[verifier::spinoff_prover]
proof fn lemma_enc_books_round_nonempty(bs: Seq<BookView>, rest: Seq<char>)
    requires
        bs.len() > 0,
        rest.len() > 0,
        !is_ws(rest.first()),
    ensures
        p_books(enc_books(bs) + rest) == Some((bs, rest)),
{
    let s = enc_books(bs) + rest;
    let b0 = bs.first();
    let tail_enc = enc_book_tail(bs.drop_first()) + (seq![']'] + rest);
    let w = enc_book(b0) + tail_enc;
    lemma_enc_books_decompose(bs, rest);
    lemma_punct_step(s, '[', w);
    lemma_enc_book_first(b0);
    assert(w.first() == enc_book(b0).first());
    lemma_p_ws_noop(w);
    lemma_enc_book_tail_first(bs.drop_first());
    if bs.drop_first().len() == 0 {
        assert(tail_enc =~= seq![']'] + rest);
        assert(tail_enc.first() == ']');
    } else {
        assert(tail_enc.first() == enc_book_tail(bs.drop_first()).first());
    }
    lemma_enc_book_round(b0, tail_enc);
    lemma_enc_book_tail_round(bs.drop_first(), seq![b0], rest);
    assert(seq![b0] + bs.drop_first() =~= bs);
}

#[verifier::rlimit(100)]
#[verifier::spinoff_prover]
proof fn lemma_enc_books_round(bs: Seq<BookView>, rest: Seq<char>)
    requires
        rest.len() > 0,
        !is_ws(rest.first()),
    ensures
        p_books(enc_books(bs) + rest) == Some((bs, rest)),
{
    let s = enc_books(bs) + rest;
    if bs.len() == 0 {
        let r0 = seq![']'] + rest;
        assert(s =~= seq!['['] + r0);
        lemma_punct_step(s, '[', r0);
        assert(r0.first() == ']');
        lemma_p_ws_noop(r0);
        assert(r0.drop_first() =~= rest);
        assert(Seq::<BookView>::empty() =~= bs);
    } else {
        lemma_enc_books_round_nonempty(bs, rest);
    }
}

/// The whole document: the `books` object, with nothing but whitespace
/// after it.
pub open spec fn p_library(s: Seq<char>) -> Option<Seq<BookView>> {
    match p_lit(p_ws(s), seq!['{']) {
        Some(r0) => match p_key(r0, key_books()) {
            Some(r1) => match p_books(r1) {
                Some(t) => match p_lit(p_ws(t.1), seq!['}']) {
                    Some(r3) => if p_ws(r3).len() == 0 {
                        Some(t.0)
                    } else {
                        None
                    },
                    None => None,
                },
                None => None,
            },
            None => None,
        },
        None => None,
    }
}

/// Saving a library and loading it back reproduces it exactly: the same
/// books, the same page positions, the same session histories.
#[verifier::rlimit(100)]
#[verifier::spinoff_prover]
pub proof fn lemma_library_round_trip(bs: Seq<BookView>)
    ensures
        p_library(enc_library(bs)) == Some(bs),
{
    let s = enc_library(bs);
    let w2 = enc_books(bs) + seq!['}'];
    let w1 = key_chunk(key_books()) + w2;
    assert(s =~= seq!['{'] + w1);
    lemma_punct_step(s, '{', w1);
    assert(w2.first() == '[');
    lemma_p_key_chunk(key_books(), w2);
    assert(seq!['}'].first() == '}');
    lemma_enc_books_round(bs, seq!['}']);
    assert(w2 == enc_books(bs) + seq!['}']);
    let e = Seq::<char>::empty();
    assert(seq!['}'] =~= seq!['}'] + e);
    lemma_punct_step(seq!['}'] + e, '}', e);
    assert(p_ws(e).len() == 0);
    assert(p_library(s) == Some(bs));
}


// ---------------------------------------------------------------------
// The executable encoder: builds the document character by character,
// provably equal to the specification-level encoding.
// ---------------------------------------------------------------------
fn push_all(out: &mut Vec<char>, cs: &Vec<char>)
    ensures
        final(out)@ == old(out)@ + cs@,
{
    let mut i: usize = 0;
    while i < cs.len()
        invariant
            i <= cs@.len(),
            out@ == old(out)@ + cs@.subrange(0, i as int),
        decreases cs@.len() - i,
    {
        out.push(cs[i]);
        proof {
            assert(old(out)@ + cs@.subrange(0, i + 1 as int) =~= (old(out)@ + cs@.subrange(
                0,
                i as int,
            )).push(cs@[i as int]));
        }
        i = i + 1;
    }
    proof {
        assert(cs@.subrange(0, cs@.len() as int) =~= cs@);
    }
}

fn key_books_vec() -> (r: Vec<char>)
    ensures
        r@ == key_books(),
{
    let mut r: Vec<char> = Vec::new();
    r.push('b');
    r.push('o');
    r.push('o');
    r.push('k');
    r.push('s');
    proof {
        assert(r@ =~= key_books());
    }
    r
}

fn key_book_title_vec() -> (r: Vec<char>)
    ensures
        r@ == key_book_title(),
{
    let mut r: Vec<char> = Vec::new();
    r.push('b');
    r.push('o');
    r.push('o');
    r.push('k');
    r.push('_');
    r.push('t');
    r.push('i');
    r.push('t');
    r.push('l');
    r.push('e');
    proof {
        assert(r@ =~= key_book_title());
    }
    r
}

fn key_total_pages_vec() -> (r: Vec<char>)
    ensures
        r@ == key_total_pages(),
{
    let mut r: Vec<char> = Vec::new();
    r.push('t');
    r.push('o');
    r.push('t');
    r.push('a');
    r.push('l');
    r.push('_');
    r.push('p');
    r.push('a');
    r.push('g');
    r.push('e');
    r.push('s');
    proof {
        assert(r@ =~= key_total_pages());
    }
    r
}

fn key_current_page_vec() -> (r: Vec<char>)
    ensures
        r@ == key_current_page(),
{
    let mut r: Vec<char> = Vec::new();
    r.push('c');
    r.push('u');
    r.push('r');
    r.push('r');
    r.push('e');
    r.push('n');
    r.push('t');
    r.push('_');
    r.push('p');
    r.push('a');
    r.push('g');
    r.push('e');
    proof {
        assert(r@ =~= key_current_page());
    }
    r
}

fn key_sessions_vec() -> (r: Vec<char>)
    ensures
        r@ == key_sessions(),
{
    let mut r: Vec<char> = Vec::new();
    r.push('s');
    r.push('e');
    r.push('s');
    r.push('s');
    r.push('i');
    r.push('o');
    r.push('n');
    r.push('s');
    proof {
        assert(r@ =~= key_sessions());
    }
    r
}

fn key_start_page_vec() -> (r: Vec<char>)
    ensures
        r@ == key_start_page(),
{
    let mut r: Vec<char> = Vec::new();
    r.push('s');
    r.push('t');
    r.push('a');
    r.push('r');
    r.push('t');
    r.push('_');
    r.push('p');
    r.push('a');
    r.push('g');
    r.push('e');
    proof {
        assert(r@ =~= key_start_page());
    }
    r
}

fn key_end_page_vec() -> (r: Vec<char>)
    ensures
        r@ == key_end_page(),
{
    let mut r: Vec<char> = Vec::new();
    r.push('e');
    r.push('n');
    r.push('d');
    r.push('_');
    r.push('p');
    r.push('a');
    r.push('g');
    r.push('e');
    proof {
        assert(r@ =~= key_end_page());
    }
    r
}

fn key_duration_secs_vec() -> (r: Vec<char>)
    ensures
        r@ == key_duration_secs(),
{
    let mut r: Vec<char> = Vec::new();
    r.push('d');
    r.push('u');
    r.push('r');
    r.push('a');
    r.push('t');
    r.push('i');
    r.push('o');
    r.push('n');
    r.push('_');
    r.push('s');
    r.push('e');
    r.push('c');
    r.push('s');
    proof {
        assert(r@ =~= key_duration_secs());
    }
    r
}

fn key_timestamp_vec() -> (r: Vec<char>)
    ensures
        r@ == key_timestamp(),
{
    let mut r: Vec<char> = Vec::new();
    r.push('t');
    r.push('i');
    r.push('m');
    r.push('e');
    r.push('s');
    r.push('t');
    r.push('a');
    r.push('m');
    r.push('p');
    proof {
        assert(r@ =~= key_timestamp());
    }
    r
}

fn push_key_chunk(out: &mut Vec<char>, key: &Vec<char>)
    ensures
        final(out)@ == old(out)@ + key_chunk(key@),
{
    out.push('"');
    push_all(out, key);
    out.push('"');
    out.push(':');
    proof {
        assert(out@ =~= old(out)@ + key_chunk(key@));
    }
}

proof fn lemma_esc_str_snoc(t: Seq<char>, c: char)
    ensures
        esc_str(t.push(c)) == esc_str(t) + esc_char(c),
    decreases t.len(),
{
    let tp = t.push(c);
    if t.len() == 0 {
        assert(tp.first() == c);
        assert(tp.drop_first() =~= Seq::<char>::empty());
        assert(esc_str(tp) == esc_char(c) + esc_str(tp.drop_first()));
        assert(esc_char(c) + Seq::<char>::empty() =~= esc_char(c));
        assert(Seq::<char>::empty() + esc_char(c) =~= esc_char(c));
    } else {
        assert(tp.first() == t.first());
        assert(tp.drop_first() =~= t.drop_first().push(c));
        lemma_esc_str_snoc(t.drop_first(), c);
        assert(esc_char(t.first()) + (esc_str(t.drop_first()) + esc_char(c)) =~= (esc_char(
            t.first(),
        ) + esc_str(t.drop_first())) + esc_char(c));
    }
}

fn hex_char_exec(d: u32) -> (r: char)
    requires
        d < 16,
    ensures
        r == hex_char(d as int),
{
    if d < 10 {
        (48 + d as u8) as char
    } else {
        (87 + d as u8) as char
    }
}

fn push_escaped(out: &mut Vec<char>, s: &String)
    ensures
        final(out)@ == old(out)@ + esc_str(s@),
{
    let slice = s.as_str();
    let n = slice.unicode_len();
    let mut i: usize = 0;
    proof {
        assert(s@.subrange(0, 0) =~= Seq::<char>::empty());
        assert(old(out)@ + Seq::<char>::empty() =~= old(out)@);
    }
    while i < n
        invariant
            i <= n,
            n == s@.len(),
            slice@ == s@,
            out@ == old(out)@ + esc_str(s@.subrange(0, i as int)),
        decreases n - i,
    {
        let c = slice.get_char(i);
        let ghost pre = out@;
        if c == '"' {
            out.push('\\');
            out.push('"');
        } else if c == '\\' {
            out.push('\\');
            out.push('\\');
        } else if (c as u32) < 32 {
            let v = c as u32;
            out.push('\\');
            out.push('u');
            out.push('0');
            out.push('0');
            out.push(hex_char_exec(v / 16));
            out.push(hex_char_exec(v % 16));
        } else {
            out.push(c);
        }
        proof {
            assert(out@ =~= pre + esc_char(c));
            assert(s@.subrange(0, i + 1 as int) =~= s@.subrange(0, i as int).push(c));
            lemma_esc_str_snoc(s@.subrange(0, i as int), c);
            assert(out@ =~= old(out)@ + esc_str(s@.subrange(0, i + 1 as int)));
        }
        i = i + 1;
    }
    proof {
        assert(s@.subrange(0, n as int) =~= s@);
    }
}

fn push_quoted(out: &mut Vec<char>, s: &String)
    ensures
        final(out)@ == old(out)@ + enc_string(s@),
{
    out.push('"');
    push_escaped(out, s);
    out.push('"');
    proof {
        assert(out@ =~= old(out)@ + enc_string(s@));
    }
}

fn push_number_u64(out: &mut Vec<char>, n: u64)
    ensures
        final(out)@ == old(out)@ + dec_digits(n as int),
    decreases n,
{
    if n < 10 {
        out.push((48 + n as u8) as char);
        proof {
            assert(out@ =~= old(out)@ + dec_digits(n as int));
        }
    } else {
        push_number_u64(out, n / 10);
        out.push((48 + (n % 10) as u8) as char);
        proof {
            assert(out@ =~= old(out)@ + dec_digits(n as int));
        }
    }
}

fn push_number_usize(out: &mut Vec<char>, n: usize)
    ensures
        final(out)@ == old(out)@ + dec_digits(n as int),
{
    push_number_u64(out, n as u64);
}


#[verifier::rlimit(100)]
#[verifier::spinoff_prover]
proof fn lemma_enc_session_tail_snoc(t: Seq<SessionView>, x: SessionView)
    ensures
        enc_session_tail(t.push(x)) == enc_session_tail(t) + (seq![','] + enc_session(x)),
    decreases t.len(),
{
    let tp = t.push(x);
    if t.len() == 0 {
        assert(tp.first() == x);
        assert(tp.drop_first() =~= Seq::<SessionView>::empty());
        assert(enc_session_tail(tp) == seq![','] + enc_session(tp.first()) + enc_session_tail(
            tp.drop_first(),
        ));
        assert(enc_session_tail(Seq::<SessionView>::empty()) == Seq::<char>::empty());
        assert(enc_session_tail(tp) =~= Seq::<char>::empty() + (seq![','] + enc_session(x)));
    } else {
        assert(tp.first() == t.first());
        assert(tp.drop_first() =~= t.drop_first().push(x));
        lemma_enc_session_tail_snoc(t.drop_first(), x);
        assert(enc_session_tail(tp) =~= enc_session_tail(t) + (seq![','] + enc_session(x)));
    }
}

#[verifier::rlimit(100)]
#[verifier::spinoff_prover]
proof fn lemma_enc_book_tail_snoc(t: Seq<BookView>, x: BookView)
    ensures
        enc_book_tail(t.push(x)) == enc_book_tail(t) + (seq![','] + enc_book(x)),
    decreases t.len(),
{
    let tp = t.push(x);
    if t.len() == 0 {
        assert(tp.first() == x);
        assert(tp.drop_first() =~= Seq::<BookView>::empty());
        assert(enc_book_tail(tp) == seq![','] + enc_book(tp.first()) + enc_book_tail(
            tp.drop_first(),
        ));
        assert(enc_book_tail(Seq::<BookView>::empty()) == Seq::<char>::empty());
        assert(enc_book_tail(tp) =~= Seq::<char>::empty() + (seq![','] + enc_book(x)));
    } else {
        assert(tp.first() == t.first());
        assert(tp.drop_first() =~= t.drop_first().push(x));
        lemma_enc_book_tail_snoc(t.drop_first(), x);
        assert(enc_book_tail(tp) =~= enc_book_tail(t) + (seq![','] + enc_book(x)));
    }
}

#[verifier::rlimit(100)]
#[verifier::spinoff_prover]
fn push_session(out: &mut Vec<char>, s: &ReadingSession)
    ensures
        final(out)@ == old(out)@ + enc_session(s@),
{
    out.push('{');
    let k1 = key_book_title_vec();
    push_key_chunk(out, &k1);
    push_quoted(out, &s.book_title);
    out.push(',');
    let k2 = key_start_page_vec();
    push_key_chunk(out, &k2);
    push_number_usize(out, s.start_page);
    out.push(',');
    let k3 = key_end_page_vec();
    push_key_chunk(out, &k3);
    push_number_usize(out, s.end_page);
    out.push(',');
    let k4 = key_duration_secs_vec();
    push_key_chunk(out, &k4);
    push_number_u64(out, s.duration_secs);
    out.push(',');
    let k5 = key_timestamp_vec();
    push_key_chunk(out, &k5);
    push_quoted(out, &s.timestamp);
    out.push('}');
    proof {
        assert(out@ =~= old(out)@ + enc_session(s@));
    }
}

#[verifier::rlimit(100)]
#[verifier::spinoff_prover]
fn push_sessions(out: &mut Vec<char>, ss: &Vec<ReadingSession>)
    ensures
        final(out)@ == old(out)@ + enc_sessions(ss@.map_values(|x: ReadingSession| x@)),
{
    let ghost svs = ss@.map_values(|x: ReadingSession| x@);
    out.push('[');
    if ss.len() == 0 {
        out.push(']');
        proof {
            assert(out@ =~= old(out)@ + enc_sessions(svs));
        }
    } else {
        push_session(out, &ss[0]);
        let mut i: usize = 1;
        while i < ss.len()
            invariant
                1 <= i <= ss@.len(),
                svs == ss@.map_values(|x: ReadingSession| x@),
                svs.len() == ss@.len(),
                out@ == old(out)@ + seq!['['] + enc_session(svs[0]) + enc_session_tail(
                    svs.subrange(1, i as int),
                ),
            decreases ss@.len() - i,
        {
            let ghost pre = out@;
            out.push(',');
            push_session(out, &ss[i]);
            proof {
                lemma_enc_session_tail_snoc(svs.subrange(1, i as int), svs[i as int]);
                assert(svs.subrange(1, i + 1 as int) =~= svs.subrange(1, i as int).push(
                    svs[i as int],
                ));
                assert(out@ =~= pre + (seq![','] + enc_session(svs[i as int])));
                assert(out@ =~= old(out)@ + seq!['['] + enc_session(svs[0]) + enc_session_tail(
                    svs.subrange(1, i + 1 as int),
                ));
            }
            i = i + 1;
        }
        out.push(']');
        proof {
            assert(svs.subrange(1, svs.len() as int) =~= svs.drop_first());
            assert(out@ =~= old(out)@ + enc_sessions(svs));
        }
    }
}

#[verifier::rlimit(100)]
#[verifier::spinoff_prover]
fn push_book(out: &mut Vec<char>, b: &BookProgress)
    ensures
        final(out)@ == old(out)@ + enc_book(b@),
{
    out.push('{');
    let k1 = key_book_title_vec();
    push_key_chunk(out, &k1);
    push_quoted(out, &b.book_title);
    out.push(',');
    let k2 = key_total_pages_vec();
    push_key_chunk(out, &k2);
    push_number_usize(out, b.total_pages);
    out.push(',');
    let k3 = key_current_page_vec();
    push_key_chunk(out, &k3);
    push_number_usize(out, b.current_page);
    out.push(',');
    let k4 = key_sessions_vec();
    push_key_chunk(out, &k4);
    push_sessions(out, &b.sessions);
    out.push('}');
    proof {
        assert(out@ =~= old(out)@ + enc_book(b@));
    }
}

#[verifier::rlimit(100)]
#[verifier::spinoff_prover]
fn push_books(out: &mut Vec<char>, bs: &Vec<BookProgress>)
    ensures
        final(out)@ == old(out)@ + enc_books(bs@.map_values(|x: BookProgress| x@)),
{
    let ghost bvs = bs@.map_values(|x: BookProgress| x@);
    out.push('[');
    if bs.len() == 0 {
        out.push(']');
        proof {
            assert(out@ =~= old(out)@ + enc_books(bvs));
        }
    } else {
        push_book(out, &bs[0]);
        let mut i: usize = 1;
        while i < bs.len()
            invariant
                1 <= i <= bs@.len(),
                bvs == bs@.map_values(|x: BookProgress| x@),
                bvs.len() == bs@.len(),
                out@ == old(out)@ + seq!['['] + enc_book(bvs[0]) + enc_book_tail(
                    bvs.subrange(1, i as int),
                ),
            decreases bs@.len() - i,
        {
            let ghost pre = out@;
            out.push(',');
            push_book(out, &bs[i]);
            proof {
                lemma_enc_book_tail_snoc(bvs.subrange(1, i as int), bvs[i as int]);
                assert(bvs.subrange(1, i + 1 as int) =~= bvs.subrange(1, i as int).push(
                    bvs[i as int],
                ));
                assert(out@ =~= pre + (seq![','] + enc_book(bvs[i as int])));
                assert(out@ =~= old(out)@ + seq!['['] + enc_book(bvs[0]) + enc_book_tail(
                    bvs.subrange(1, i + 1 as int),
                ));
            }
            i = i + 1;
        }
        out.push(']');
        proof {
            assert(bvs.subrange(1, bvs.len() as int) =~= bvs.drop_first());
            assert(out@ =~= old(out)@ + enc_books(bvs));
        }
    }
}

/// The document text of a library, exactly the specification encoding.
pub fn encode_library(library: &Library) -> (r: String)
    ensures
        r@ == enc_library(library@),
{
    let mut out: Vec<char> = Vec::new();
    out.push('{');
    let k = key_books_vec();
    push_key_chunk(&mut out, &k);
    push_books(&mut out, &library.books);
    out.push('}');
    proof {
        assert(out@ =~= enc_library(library@));
    }
    chars_to_string(&out)
}


// ---------------------------------------------------------------------
// The executable parser: index-based over the document's characters,
// provably equal to the specification-level parser on the remaining
// suffix.
// ---------------------------------------------------------------------
fn is_ws_exec(c: char) -> (r: bool)
    ensures
        r == is_ws(c),
{
    c == ' ' || c == '\n' || c == '\t' || c == '\r'
}

fn is_digit_exec(c: char) -> (r: bool)
    ensures
        r == is_digit(c),
{
    let u = c as u32;
    48 <= u && u <= 57
}

fn x_ws(v: &Vec<char>, i: usize) -> (j: usize)
    requires
        i <= v@.len(),
    ensures
        i <= j <= v@.len(),
        p_ws(v@.skip(i as int)) == v@.skip(j as int),
        j == v@.len() || !is_ws(v@[j as int]),
{
    let mut j = i;
    while j < v.len() && is_ws_exec(v[j])
        invariant
            i <= j <= v@.len(),
            p_ws(v@.skip(i as int)) == p_ws(v@.skip(j as int)),
        decreases v@.len() - j,
    {
        proof {
            assert(v@.skip(j as int).first() == v@[j as int]);
            assert(v@.skip(j as int).drop_first() =~= v@.skip(j + 1 as int));
        }
        j = j + 1;
    }
    proof {
        assert(p_ws(v@.skip(j as int)) == v@.skip(j as int));
    }
    j
}

fn x_lit(v: &Vec<char>, i: usize, pat: &Vec<char>) -> (r: Option<usize>)
    requires
        i <= v@.len(),
    ensures
        (match r {
            Some(j) => i <= j <= v@.len() && p_lit(v@.skip(i as int), pat@) == Some(
                v@.skip(j as int),
            ),
            None => p_lit(v@.skip(i as int), pat@) is None,
        }),
{
    let n = v.len();
    if n - i < pat.len() {
        return None;
    }
    let mut k: usize = 0;
    while k < pat.len()
        invariant
            i + pat@.len() <= v@.len(),
            v@.len() <= usize::MAX,
            k <= pat@.len(),
            forall|m: int| 0 <= m < k ==> v@[i + m] == pat@[m],
        decreases pat@.len() - k,
    {
        if v[i + k] != pat[k] {
            proof {
                let sub = v@.skip(i as int).subrange(0, pat@.len() as int);
                assert(sub[k as int] == v@[i + k]);
                assert(sub != pat@);
            }
            return None;
        }
        k = k + 1;
    }
    proof {
        assert(v@.skip(i as int).subrange(0, pat@.len() as int) =~= pat@);
        assert(v@.skip(i as int).skip(pat@.len() as int) =~= v@.skip(i + pat@.len()));
    }
    Some(i + pat.len())
}

fn x_punct(v: &Vec<char>, i: usize, c: char) -> (r: Option<usize>)
    requires
        i <= v@.len(),
        !is_ws(c),
    ensures
        (match r {
            Some(j) => i <= j <= v@.len() && p_lit(p_ws(v@.skip(i as int)), seq![c]) == Some(
                v@.skip(j as int),
            ),
            None => p_lit(p_ws(v@.skip(i as int)), seq![c]) is None,
        }),
{
    let j0 = x_ws(v, i);
    if j0 < v.len() && v[j0] == c {
        proof {
            assert(v@.skip(j0 as int).subrange(0, 1) =~= seq![c]);
            assert(v@.skip(j0 as int).skip(1) =~= v@.skip(j0 + 1 as int));
        }
        Some(j0 + 1)
    } else {
        proof {
            let s0 = v@.skip(j0 as int);
            if j0 < v@.len() {
                assert(s0.subrange(0, 1)[0] == v@[j0 as int]);
                assert(s0.subrange(0, 1) != seq![c]);
            }
        }
        None
    }
}

fn x_key(v: &Vec<char>, i: usize, key: &Vec<char>) -> (r: Option<usize>)
    requires
        i <= v@.len(),
    ensures
        (match r {
            Some(j) => i <= j <= v@.len() && p_key(v@.skip(i as int), key@) == Some(
                v@.skip(j as int),
            ),
            None => p_key(v@.skip(i as int), key@) is None,
        }),
{
    let j0 = x_ws(v, i);
    let mut pat: Vec<char> = Vec::new();
    pat.push('"');
    push_all(&mut pat, key);
    pat.push('"');
    proof {
        assert(pat@ =~= seq!['"'] + key@ + seq!['"']);
    }
    let step1 = x_lit(v, j0, &pat);
    match step1 {
        None => None,
        Some(j1) => {
            let mut colon: Vec<char> = Vec::new();
            colon.push(':');
            proof {
                assert(colon@ =~= seq![':']);
            }
            let j2 = x_ws(v, j1);
            let step2 = x_lit(v, j2, &colon);
            match step2 {
                None => None,
                Some(j3) => {
                    let j4 = x_ws(v, j3);
                    Some(j4)
                },
            }
        },
    }
}


fn x_digits(v: &Vec<char>, i: usize) -> (r: (Option<u64>, usize))
    requires
        i < v@.len(),
        is_digit(v@[i as int]),
    ensures
        i <= r.1 <= v@.len(),
        p_digits(v@.skip(i as int), 0).1 == v@.skip(r.1 as int),
        (match r.0 {
            Some(x) => p_digits(v@.skip(i as int), 0).0 == x,
            None => p_digits(v@.skip(i as int), 0).0 > u64::MAX,
        }),
{
    let n = v.len();
    let mut j = i;
    let mut acc: u64 = 0;
    let mut over = false;
    let ghost mut gacc: int = 0;
    while j < n && is_digit_exec(v[j])
        invariant
            i <= j <= v@.len(),
            n == v@.len(),
            p_digits(v@.skip(i as int), 0) == p_digits(v@.skip(j as int), gacc),
            0 <= gacc,
            over ==> gacc > u64::MAX,
            !over ==> gacc == acc,
        decreases v@.len() - j,
    {
        let d = (v[j] as u32 - 48) as u64;
        proof {
            assert(v@.skip(j as int).first() == v@[j as int]);
            assert(v@.skip(j as int).drop_first() =~= v@.skip(j + 1 as int));
            assert(p_digits(v@.skip(j as int), gacc) == p_digits(
                v@.skip(j + 1 as int),
                gacc * 10 + digit_val(v@[j as int]),
            ));
        }
        if over || acc > (u64::MAX - d) / 10 {
            proof {
                if !over {
                    let m = (u64::MAX - d) as int;
                    assert(acc * 10 >= (m / 10 + 1) * 10) by (nonlinear_arith)
                        requires
                            acc >= m / 10 + 1,
                    ;
                    assert((m / 10) * 10 + m % 10 == m);
                    assert(acc * 10 + d > u64::MAX);
                }
                if over {
                    assert(gacc * 10 + d as int >= gacc) by (nonlinear_arith)
                        requires
                            gacc >= 0,
                            d >= 0,
                    ;
                }
            }
            over = true;
        } else {
            proof {
                let m = (u64::MAX - d) as int;
                assert(acc * 10 <= (m / 10) * 10) by (nonlinear_arith)
                    requires
                        acc <= m / 10,
                ;
                assert((m / 10) * 10 + m % 10 == m);
            }
            acc = acc * 10 + d;
        }
        proof {
            gacc = gacc * 10 + digit_val(v@[j as int]);
        }
        j = j + 1;
    }
    proof {
        assert(p_digits(v@.skip(j as int), gacc) == (gacc, v@.skip(j as int)));
    }
    if over {
        (None, j)
    } else {
        (Some(acc), j)
    }
}

fn x_u64(v: &Vec<char>, i: usize) -> (r: Option<(u64, usize)>)
    requires
        i <= v@.len(),
    ensures
        (match r {
            Some(t) => i <= t.1 <= v@.len() && p_u64(v@.skip(i as int)) == Some(
                (t.0, v@.skip(t.1 as int)),
            ),
            None => p_u64(v@.skip(i as int)) is None,
        }),
{
    if i == v.len() || !is_digit_exec(v[i]) {
        proof {
            if i < v@.len() {
                assert(v@.skip(i as int).first() == v@[i as int]);
            }
        }
        return None;
    }
    proof {
        assert(v@.skip(i as int).first() == v@[i as int]);
    }
    let (x, j) = x_digits(v, i);
    match x {
        Some(value) => Some((value, j)),
        None => None,
    }
}

fn x_usize(v: &Vec<char>, i: usize) -> (r: Option<(usize, usize)>)
    requires
        i <= v@.len(),
    ensures
        (match r {
            Some(t) => i <= t.1 <= v@.len() && p_usize(v@.skip(i as int)) == Some(
                (t.0, v@.skip(t.1 as int)),
            ),
            None => p_usize(v@.skip(i as int)) is None,
        }),
{
    if i == v.len() || !is_digit_exec(v[i]) {
        proof {
            if i < v@.len() {
                assert(v@.skip(i as int).first() == v@[i as int]);
            }
        }
        return None;
    }
    proof {
        assert(v@.skip(i as int).first() == v@[i as int]);
    }
    let (x, j) = x_digits(v, i);
    match x {
        Some(value) => {
            if value <= usize::MAX as u64 {
                Some((value as usize, j))
            } else {
                None
            }
        },
        None => None,
    }
}

fn hex_val_exec(c: char) -> (r: Option<u32>)
    ensures
        (match r {
            Some(x) => hex_val(c) == Some(x as int) && x < 16,
            None => hex_val(c) is None,
        }),
{
    let u = c as u32;
    if 48 <= u && u <= 57 {
        Some(u - 48)
    } else if 97 <= u && u <= 102 {
        Some(u - 87)
    } else if 65 <= u && u <= 70 {
        Some(u - 55)
    } else {
        None
    }
}

fn short_escape_exec(e: char) -> (r: Option<char>)
    ensures
        r == short_escape(e),
{
    if e == '"' {
        Some('"')
    } else if e == '\\' {
        Some('\\')
    } else if e == '/' {
        Some('/')
    } else if e == 'n' {
        Some('\n')
    } else if e == 't' {
        Some('\t')
    } else if e == 'r' {
        Some('\r')
    } else if e == 'b' {
        Some((8 as u8) as char)
    } else if e == 'f' {
        Some((12 as u8) as char)
    } else {
        None
    }
}

/// What reading the rest of a string contributes after `pre` has been
/// read already.
pub open spec fn prepend_content(pre: Seq<char>, o: Option<(Seq<char>, Seq<char>)>) -> Option<
    (Seq<char>, Seq<char>),
> {
    match o {
        Some(t) => Some((pre + t.0, t.1)),
        None => None,
    }
}

#[verifier::rlimit(100)]
#[verifier::spinoff_prover]
fn x_string(v: &Vec<char>, i: usize) -> (r: Option<(String, usize)>)
    requires
        i <= v@.len(),
    ensures
        (match r {
            Some(t) => i <= t.1 <= v@.len() && p_string(v@.skip(i as int)) == Some(
                (t.0@, v@.skip(t.1 as int)),
            ),
            None => p_string(v@.skip(i as int)) is None,
        }),
{
    let n = v.len();
    if i == n || v[i] != '"' {
        proof {
            if i < v@.len() {
                assert(v@.skip(i as int).first() == v@[i as int]);
            }
        }
        return None;
    }
    proof {
        assert(v@.skip(i as int).first() == v@[i as int]);
        assert(v@.skip(i as int).drop_first() =~= v@.skip(i + 1 as int));
    }
    let ghost start = i + 1 as int;
    let mut j = i + 1;
    let mut acc: Vec<char> = Vec::new();
    while j < n
        invariant
            i + 1 <= j <= v@.len(),
            n == v@.len(),
            p_str_body(v@.skip(start)) == prepend_content(acc@, p_str_body(v@.skip(j as int))),
            start == i + 1,
            i < v@.len(),
            v@[i as int] == '"',
            v@.skip(i as int).len() > 0,
            v@.skip(i as int).first() == '"',
            v@.skip(i as int).drop_first() == v@.skip(start),
        decreases v@.len() - j,
    {
        let c = v[j];
        proof {
            assert(v@.skip(j as int).first() == v@[j as int]);
        }
        if c == '"' {
            proof {
                assert(v@.skip(j as int).drop_first() =~= v@.skip(j + 1 as int));
                assert(acc@ + Seq::<char>::empty() =~= acc@);
            }
            let out = chars_to_string(&acc);
            return Some((out, j + 1));
        } else if c == '\\' {
            if n - j < 2 {
                return None;
            }
            let e = v[j + 1];
            proof {
                assert(v@.skip(j as int)[1] == v@[j + 1]);
            }
            if e == 'u' {
                if n - j < 6 {
                    return None;
                }
                proof {
                    assert(v@.skip(j as int)[2] == v@[j + 2]);
                    assert(v@.skip(j as int)[3] == v@[j + 3]);
                    assert(v@.skip(j as int)[4] == v@[j + 4]);
                    assert(v@.skip(j as int)[5] == v@[j + 5]);
                }
                let h0 = hex_val_exec(v[j + 2]);
                let h1 = hex_val_exec(v[j + 3]);
                let h2 = hex_val_exec(v[j + 4]);
                let h3 = hex_val_exec(v[j + 5]);
                match (h0, h1, h2, h3) {
                    (Some(a0), Some(a1), Some(a2), Some(a3)) => {
                        let val = 4096 * a0 + 256 * a1 + 16 * a2 + a3;
                        if val >= 256 {
                            return None;
                        }
                        let c2 = (val as u8) as char;
                        let ghost pre = acc@;
                        acc.push(c2);
                        proof {
                            assert(v@.skip(j as int).skip(6) =~= v@.skip(j + 6 as int));
                            lemma_prepend_push(pre, c2, p_str_body(v@.skip(j + 6 as int)));
                        }
                        j = j + 6;
                    },
                    _ => {
                        return None;
                    },
                }
            } else {
                let dec = short_escape_exec(e);
                match dec {
                    Some(c2) => {
                        let ghost pre = acc@;
                        acc.push(c2);
                        proof {
                            assert(v@.skip(j as int).skip(2) =~= v@.skip(j + 2 as int));
                            lemma_prepend_push(pre, c2, p_str_body(v@.skip(j + 2 as int)));
                        }
                        j = j + 2;
                    },
                    None => {
                        return None;
                    },
                }
            }
        } else {
            let ghost pre = acc@;
            acc.push(c);
            proof {
                assert(v@.skip(j as int).drop_first() =~= v@.skip(j + 1 as int));
                lemma_prepend_push(pre, c, p_str_body(v@.skip(j + 1 as int)));
            }
            j = j + 1;
        }
    }
    proof {
        assert(v@.skip(j as int).len() == 0);
    }
    None
}

proof fn lemma_prepend_push(pre: Seq<char>, c: char, o: Option<(Seq<char>, Seq<char>)>)
    ensures
        prepend_content(pre, prepend_content(seq![c], o)) == prepend_content(pre.push(c), o),
{
    match o {
        Some(t) => {
            assert(pre + (seq![c] + t.0) =~= pre.push(c) + t.0);
        },
        None => {},
    }
}


#[verifier::rlimit(100)]
#[verifier::spinoff_prover]
fn x_session(v: &Vec<char>, i: usize) -> (r: Option<(ReadingSession, usize)>)
    requires
        i <= v@.len(),
    ensures
        (match r {
            Some(t) => i <= t.1 <= v@.len() && p_session(v@.skip(i as int)) == Some(
                (t.0@, v@.skip(t.1 as int)),
            ),
            None => p_session(v@.skip(i as int)) is None,
        }),
{
    let r0 = match x_punct(v, i, '{') {
        Some(j) => j,
        None => {
            return None;
        },
    };
    let k1 = key_book_title_vec();
    let r1 = match x_key(v, r0, &k1) {
        Some(j) => j,
        None => {
            return None;
        },
    };
    let (book_title, r2) = match x_string(v, r1) {
        Some(t) => t,
        None => {
            return None;
        },
    };
    let r3 = match x_punct(v, r2, ',') {
        Some(j) => j,
        None => {
            return None;
        },
    };
    let k2 = key_start_page_vec();
    let r4 = match x_key(v, r3, &k2) {
        Some(j) => j,
        None => {
            return None;
        },
    };
    let (start_page, r5) = match x_usize(v, r4) {
        Some(t) => t,
        None => {
            return None;
        },
    };
    let r6 = match x_punct(v, r5, ',') {
        Some(j) => j,
        None => {
            return None;
        },
    };
    let k3 = key_end_page_vec();
    let r7 = match x_key(v, r6, &k3) {
        Some(j) => j,
        None => {
            return None;
        },
    };
    let (end_page, r8) = match x_usize(v, r7) {
        Some(t) => t,
        None => {
            return None;
        },
    };
    let r9 = match x_punct(v, r8, ',') {
        Some(j) => j,
        None => {
            return None;
        },
    };
    let k4 = key_duration_secs_vec();
    let r10 = match x_key(v, r9, &k4) {
        Some(j) => j,
        None => {
            return None;
        },
    };
    let (duration_secs, r11) = match x_u64(v, r10) {
        Some(t) => t,
        None => {
            return None;
        },
    };
    let r12 = match x_punct(v, r11, ',') {
        Some(j) => j,
        None => {
            return None;
        },
    };
    let k5 = key_timestamp_vec();
    let r13 = match x_key(v, r12, &k5) {
        Some(j) => j,
        None => {
            return None;
        },
    };
    let (timestamp, r14) = match x_string(v, r13) {
        Some(t) => t,
        None => {
            return None;
        },
    };
    let r15 = match x_punct(v, r14, '}') {
        Some(j) => j,
        None => {
            return None;
        },
    };
    Some((ReadingSession { book_title, start_page, end_page, duration_secs, timestamp }, r15))
}

#[verifier::rlimit(100)]
#[verifier::spinoff_prover]
fn x_sessions(v: &Vec<char>, i: usize) -> (r: Option<(Vec<ReadingSession>, usize)>)
    requires
        i <= v@.len(),
    ensures
        (match r {
            Some(t) => i <= t.1 <= v@.len() && p_sessions(v@.skip(i as int)) == Some(
                (t.0@.map_values(|x: ReadingSession| x@), v@.skip(t.1 as int)),
            ),
            None => p_sessions(v@.skip(i as int)) is None,
        }),
{
    let n = v.len();
    let r0 = match x_punct(v, i, '[') {
        Some(j) => j,
        None => {
            return None;
        },
    };
    let j1 = x_ws(v, r0);
    if j1 < n && v[j1] == ']' {
        let out: Vec<ReadingSession> = Vec::new();
        proof {
            assert(v@.skip(j1 as int).first() == v@[j1 as int]);
            assert(v@.skip(j1 as int).drop_first() =~= v@.skip(j1 + 1 as int));
            assert(out@.map_values(|x: ReadingSession| x@) =~= Seq::<SessionView>::empty());
        }
        return Some((out, j1 + 1));
    }
    proof {
        if j1 < v@.len() {
            assert(v@.skip(j1 as int).first() == v@[j1 as int]);
        }
    }
    let (first_session, mut j) = match x_session(v, r0) {
        Some(t) => t,
        None => {
            return None;
        },
    };
    let mut acc: Vec<ReadingSession> = Vec::new();
    acc.push(first_session);
    proof {
        assert(acc@.map_values(|x: ReadingSession| x@) =~= seq![acc@[0]@]);
    }
    loop
        invariant
            i <= j <= v@.len(),
            n == v@.len(),
            p_sessions(v@.skip(i as int)) == p_session_tail(
                v@.skip(j as int),
                acc@.map_values(|x: ReadingSession| x@),
            ),
        decreases v@.len() - j,
    {
        let j2 = x_ws(v, j);
        if j2 < n && v[j2] == ']' {
            proof {
                assert(v@.skip(j2 as int).first() == v@[j2 as int]);
                assert(v@.skip(j2 as int).drop_first() =~= v@.skip(j2 + 1 as int));
            }
            return Some((acc, j2 + 1));
        }
        if j2 < n && v[j2] == ',' {
            proof {
                assert(v@.skip(j2 as int).first() == v@[j2 as int]);
                assert(v@.skip(j2 as int).drop_first() =~= v@.skip(j2 + 1 as int));
            }
            let (sv, j3) = match x_session(v, j2 + 1) {
                Some(t) => t,
                None => {
                    return None;
                },
            };
            let ghost pre = acc@.map_values(|x: ReadingSession| x@);
            acc.push(sv);
            proof {
                assert(acc@.map_values(|x: ReadingSession| x@) =~= pre.push(sv@));
            }
            proof {
                assert(j < j3);
            }
            j = j3;
        } else {
            proof {
                if j2 < v@.len() {
                    assert(v@.skip(j2 as int).first() == v@[j2 as int]);
                }
            }
            return None;
        }
    }
}


#[verifier::rlimit(100)]
#[verifier::spinoff_prover]
fn x_book(v: &Vec<char>, i: usize) -> (r: Option<(BookProgress, usize)>)
    requires
        i <= v@.len(),
    ensures
        (match r {
            Some(t) => i <= t.1 <= v@.len() && p_book(v@.skip(i as int)) == Some(
                (t.0@, v@.skip(t.1 as int)),
            ),
            None => p_book(v@.skip(i as int)) is None,
        }),
{
    let r0 = match x_punct(v, i, '{') {
        Some(j) => j,
        None => {
            return None;
        },
    };
    let k1 = key_book_title_vec();
    let r1 = match x_key(v, r0, &k1) {
        Some(j) => j,
        None => {
            return None;
        },
    };
    let (book_title, r2) = match x_string(v, r1) {
        Some(t) => t,
        None => {
            return None;
        },
    };
    let r3 = match x_punct(v, r2, ',') {
        Some(j) => j,
        None => {
            return None;
        },
    };
    let k2 = key_total_pages_vec();
    let r4 = match x_key(v, r3, &k2) {
        Some(j) => j,
        None => {
            return None;
        },
    };
    let (total_pages, r5) = match x_usize(v, r4) {
        Some(t) => t,
        None => {
            return None;
        },
    };
    let r6 = match x_punct(v, r5, ',') {
        Some(j) => j,
        None => {
            return None;
        },
    };
    let k3 = key_current_page_vec();
    let r7 = match x_key(v, r6, &k3) {
        Some(j) => j,
        None => {
            return None;
        },
    };
    let (current_page, r8) = match x_usize(v, r7) {
        Some(t) => t,
        None => {
            return None;
        },
    };
    let r9 = match x_punct(v, r8, ',') {
        Some(j) => j,
        None => {
            return None;
        },
    };
    let k4 = key_sessions_vec();
    let r10 = match x_key(v, r9, &k4) {
        Some(j) => j,
        None => {
            return None;
        },
    };
    let (sessions, r11) = match x_sessions(v, r10) {
        Some(t) => t,
        None => {
            return None;
        },
    };
    let r12 = match x_punct(v, r11, '}') {
        Some(j) => j,
        None => {
            return None;
        },
    };
    Some((BookProgress { book_title, total_pages, current_page, sessions }, r12))
}

#[verifier::rlimit(100)]
#[verifier::spinoff_prover]
fn x_books(v: &Vec<char>, i: usize) -> (r: Option<(Vec<BookProgress>, usize)>)
    requires
        i <= v@.len(),
    ensures
        (match r {
            Some(t) => i <= t.1 <= v@.len() && p_books(v@.skip(i as int)) == Some(
                (t.0@.map_values(|x: BookProgress| x@), v@.skip(t.1 as int)),
            ),
            None => p_books(v@.skip(i as int)) is None,
        }),
{
    let n = v.len();
    let r0 = match x_punct(v, i, '[') {
        Some(j) => j,
        None => {
            return None;
        },
    };
    let j1 = x_ws(v, r0);
    if j1 < n && v[j1] == ']' {
        let out: Vec<BookProgress> = Vec::new();
        proof {
            assert(v@.skip(j1 as int).first() == v@[j1 as int]);
            assert(v@.skip(j1 as int).drop_first() =~= v@.skip(j1 + 1 as int));
            assert(out@.map_values(|x: BookProgress| x@) =~= Seq::<BookView>::empty());
        }
        return Some((out, j1 + 1));
    }
    proof {
        if j1 < v@.len() {
            assert(v@.skip(j1 as int).first() == v@[j1 as int]);
        }
    }
    let (first_book, mut j) = match x_book(v, r0) {
        Some(t) => t,
        None => {
            return None;
        },
    };
    let mut acc: Vec<BookProgress> = Vec::new();
    acc.push(first_book);
    proof {
        assert(acc@.map_values(|x: BookProgress| x@) =~= seq![acc@[0]@]);
    }
    loop
        invariant
            i <= j <= v@.len(),
            n == v@.len(),
            p_books(v@.skip(i as int)) == p_book_tail(
                v@.skip(j as int),
                acc@.map_values(|x: BookProgress| x@),
            ),
        decreases v@.len() - j,
    {
        let j2 = x_ws(v, j);
        if j2 < n && v[j2] == ']' {
            proof {
                assert(v@.skip(j2 as int).first() == v@[j2 as int]);
                assert(v@.skip(j2 as int).drop_first() =~= v@.skip(j2 + 1 as int));
            }
            return Some((acc, j2 + 1));
        }
        if j2 < n && v[j2] == ',' {
            proof {
                assert(v@.skip(j2 as int).first() == v@[j2 as int]);
                assert(v@.skip(j2 as int).drop_first() =~= v@.skip(j2 + 1 as int));
            }
            let (bv, j3) = match x_book(v, j2 + 1) {
                Some(t) => t,
                None => {
                    return None;
                },
            };
            let ghost pre = acc@.map_values(|x: BookProgress| x@);
            acc.push(bv);
            proof {
                assert(acc@.map_values(|x: BookProgress| x@) =~= pre.push(bv@));
            }
            proof {
                assert(j < j3);
            }
            j = j3;
        } else {
            proof {
                if j2 < v@.len() {
                    assert(v@.skip(j2 as int).first() == v@[j2 as int]);
                }
            }
            return None;
        }
    }
}

/// The library a document's text holds, where the text fits the
/// document grammar exactly.
#[verifier::rlimit(100)]
#[verifier::spinoff_prover]
pub fn parse_library(text: &str) -> (r: Option<Library>)
    ensures
        (match r {
            Some(l) => p_library(text@) == Some(l@),
            None => p_library(text@) is None,
        }),
{
    let v = str_chars(text);
    proof {
        assert(v@.skip(0) =~= text@);
    }
    let r0 = match x_punct(&v, 0, '{') {
        Some(j) => j,
        None => {
            return None;
        },
    };
    let k = key_books_vec();
    let r1 = match x_key(&v, r0, &k) {
        Some(j) => j,
        None => {
            return None;
        },
    };
    let (books, r2) = match x_books(&v, r1) {
        Some(t) => t,
        None => {
            return None;
        },
    };
    let r3 = match x_punct(&v, r2, '}') {
        Some(j) => j,
        None => {
            return None;
        },
    };
    let j_end = x_ws(&v, r3);
    if j_end == v.len() {
        let library = Library { books };
        proof {
            assert(v@.skip(j_end as int).len() == 0);
        }
        Some(library)
    } else {
        proof {
            assert(v@.skip(j_end as int).len() > 0);
        }
        None
    }
}

/// The library a stored document stands for, under the recovery policy:
/// no document, or one that does not parse, yields the empty library
/// rather than an error.
pub fn library_from_document(text: Option<&str>) -> (r: Library)
    ensures
        (match text {
            Some(t) => (match p_library(t@) {
                Some(bs) => r@ == bs,
                None => r@ == Seq::<BookView>::empty(),
            }),
            None => r@ == Seq::<BookView>::empty(),
        }),
{
    match text {
        Some(t) => match parse_library(t) {
            Some(l) => l,
            None => {
                let r = Library { books: Vec::new() };
                proof {
                    assert(r@ =~= Seq::<BookView>::empty());
                }
                r
            },
        },
        None => {
            let r = Library { books: Vec::new() };
            proof {
                assert(r@ =~= Seq::<BookView>::empty());
            }
            r
        },
    }
}


/// The page count a form field holds: the field must be nothing but a
/// number, and the number must fit.
pub open spec fn page_count_of(s: Seq<char>) -> Option<usize> {
    match p_usize(s) {
        Some(t) => if t.1.len() == 0 {
            Some(t.0)
        } else {
            None
        },
        None => None,
    }
}

/// Read a whole text as a page count.
pub fn parse_page_count(s: &str) -> (r: Option<usize>)
    ensures
        r == page_count_of(s@),
{
    let v = str_chars(s);
    proof {
        assert(v@.skip(0) =~= s@);
    }
    match x_usize(&v, 0) {
        Some((value, j)) => {
            if j == v.len() {
                proof {
                    assert(v@.skip(j as int).len() == 0);
                }
                Some(value)
            } else {
                proof {
                    assert(v@.skip(j as int).len() > 0);
                }
                None
            }
        },
        None => None,
    }
}

} // verus!
