//! Extraction of recorded activity tracks from a Core-Data-style SQLite
//! schema into an in-memory GPX 1.1 document model.
//!
//! The library holds the verified core of the converter: selecting tracks
//! by name, formatting the track-id restriction list for the point query,
//! converting reference-epoch timestamps (milliseconds since
//! 2001-01-01T00:00:00 UTC) into civil date-times and their ISO-8601
//! rendering, and assembling the output document with the points of each
//! track grouped under it in time order. Reading the database and writing
//! the XML are left to a thin unverified front end.

pub mod cli;
pub mod datetime;
pub mod extract;
pub mod records;
