//! Image-color search core: a perceptual color metric, a dominant-color
//! cache with a persistent text record format, candidate classification,
//! a bounded reservoir with top-K extraction, and the search orchestration
//! state machine. Network and file I/O live outside this crate; every
//! decision the service takes is a verified function here.
pub mod cache;
pub mod classify;
pub mod color;
pub mod fetch;
pub mod json;
pub mod loggable;
pub mod ord;
pub mod worker;
pub mod numfmt;
pub mod reservoir;
pub mod session;
pub mod text;
