//! Timelines of the work recorded for a group of repositories.

pub mod dwh;
pub mod helper;
pub mod mapper;
pub mod resources;
pub mod routes;
