//! The adapters that turn a snippet into something a backend can run.

pub mod languages;
