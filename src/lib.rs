//! Organises photo files into a `year/month/extension` tree.
//!
//! The library decides which timestamp each file carries, where its copy goes,
//! and which destination names are still free; the program around it does the
//! reading, copying and locking.
pub mod text;
pub mod timestamp;
pub mod index;
pub mod placement;
pub mod reservation;
pub mod resolve;
