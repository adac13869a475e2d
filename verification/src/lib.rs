//! Verified core of the git time metrics service: timeline aggregation,
//! interval generation, path grouping, request validation and the
//! decisions taken by the services around them.

pub mod clock;
pub mod commit;
pub mod common;
pub mod errors;
pub mod file;
pub mod git;
pub mod tally;
pub mod text;
pub mod timeline;
pub mod sync;
pub mod user;
pub mod group;
pub mod repository;
pub mod hosts;
