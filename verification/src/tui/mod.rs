//! The terminal interface: what is on the screen, and what keeps it current.
pub mod board;
pub mod dials;
pub mod figures;
pub mod history;
pub mod layout;
pub mod masthead;
pub mod paint;
pub mod palette;
pub mod piece;
pub mod sampler;
pub mod scene;
pub mod screen;
pub mod smi;
pub mod stats;
pub mod ticker;
pub mod view;
