//! A verified log-record extraction pipeline.
//!
//! A raw record arrives as bytes: a bracket-delimited metadata header
//! followed by a message body.  The library splits the record, tokenizes
//! the header into attributes, resolves the encoding the header declares,
//! decodes the body, and matches the decoded text against configuration
//! driven regular-expression rules to build structured log entries with
//! typed fields.

pub mod clock;
pub mod encoding;
pub mod error;
pub mod header;
pub mod laws;
pub mod models;
pub mod parser;
pub mod pattern;
pub mod store;
pub mod util;
