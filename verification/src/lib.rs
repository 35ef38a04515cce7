//! Builds an Atom feed description of a gemlog directory.
//!
//! A caller scans the directory and hands each entry's metadata over as
//! a plain [`types::RawEntry`]. [`select::select_candidates`] filters
//! that listing to eligible post files, ranks them by modification time,
//! and keeps the most recent ones up to a cap. The caller then reads the
//! lines of each selected file, and [`feed::get_feed`] assembles the
//! complete [`types::Feed`] — titles extracted by [`heading::get_title`],
//! timestamps rendered as RFC 3339 — ready for XML serialization.
//!
//! Filesystem access, command-line handling, and the XML writer stay
//! outside this crate; everything here is a pure function of the values
//! passed in, with its behavior stated in contracts.

pub mod feed;
pub mod heading;
pub mod select;
pub mod strs;
pub mod types;
