//! Collecting, ordering and uploading a batch of event photographs.
//!
//! The library holds the logic: which dropped paths become images, how the
//! in-memory collection is reordered and rotated, how a session names its
//! directories and files, and the tick-driven upload state machine. The caller
//! performs the file and network work that the state machines ask for.
pub mod text;
pub mod season;
pub mod paths;
pub mod ingest;
pub mod pixels;
pub mod collection;
pub mod session;
pub mod pipeline;
pub mod form;
