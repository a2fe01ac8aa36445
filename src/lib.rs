//! Sorting photos into a date-structured tree: naming, destination layout,
//! collision resolution and setup decisions, with capture times read from
//! embedded Exif metadata.

pub mod naming;
pub mod timestamp;
pub mod metadata;
pub mod layout;
pub mod collision;
pub mod setup;
pub mod summary;
