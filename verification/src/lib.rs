//! Reconstruction and analysis of a radio broadcast log.
//!
//! A log lists, in broadcast order, what each of a fixed set of stations
//! played and for how long.  The library rebuilds the moment at which every
//! item started, and answers a handful of questions about the resulting
//! schedule.
//!
//! - [`clock`]: times as hours, minutes and seconds, and their arithmetic.
//! - [`text`]: whitespace, cutting at a separator, decimal numbers.
//! - [`matcher`]: the fuzzy match of a text against a search term.
//! - [`record`]: the records of a log, and what can go wrong in reading one.
//! - [`line`]: one record line.
//! - [`schedule`]: the running clocks of the stations.
//! - [`parser`]: a whole log.
//! - [`query`]: the questions asked of a schedule.
//! - [`report`]: the answers as lines of text.

pub mod clock;
pub mod line;
pub mod matcher;
pub mod parser;
pub mod query;
pub mod record;
pub mod report;
pub mod schedule;
pub mod text;
