//! Book reading tracker: a session timer state machine, page navigation,
//! and a persistence model for a library of books, with the persisted
//! document encoded and decoded by a verified codec.

pub mod book_select;
pub mod codec;
pub mod session;
pub mod storage;

pub use session::TimerState;
