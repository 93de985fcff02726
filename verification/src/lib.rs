//! BogoForge: shuffles of 25 values, dealt from seeds, and the search for the
//! seed that deals them in order.
pub mod compute;
pub mod decimal;
pub mod digits;
pub mod double;
pub mod float;
pub mod logging;
pub mod runtime;
pub mod text;
pub mod tui;
