//! Keeps local directory trees synchronised with remote media lists.
//!
//! The library holds the decisions of the synchronisation engine: reading
//! blacklists, indexing the files already on disk, classifying URLs,
//! reconciling the download cache and pacing the downloads. Everything that
//! touches the file system, the network or the terminal is left to callers.
pub mod blacklist;
pub mod builder;
pub mod cache;
pub mod config;
pub mod dl;
pub mod index;
pub mod lists;
pub mod platforms;
pub mod scheduler;
pub mod sync;
pub mod text;
pub mod util;
pub mod ytdlp;
