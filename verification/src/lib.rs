//! Dev-facing tools of the Arris kernel, verified: the refusal histogram,
//! the differential's outcome classes, exclusions and shrink, the oracle
//! cache's keys, the corpus runner's dump diff, the fixture lints, the
//! survey's records and the small text formats they share.

pub mod histogram;
pub mod sorted;
pub mod text;
pub mod lines;
pub mod corpus;
pub mod differential;
pub mod battery;
pub mod survey;
pub mod ops;
pub mod cache;
pub mod prop;
pub mod oracle;
pub mod fixtures;
pub mod part;
pub mod render;
pub mod geometry;
pub mod bench;
pub mod expr;
