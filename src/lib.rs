//! Counts the stars of a user's public repositories: the page requests to
//! make, the aggregation of the fetched pages into a total and a list of the
//! repositories at or above a threshold, most starred first, and a plain
//! text listing of that result that can be read back.

pub mod aggregate;
pub mod laws;
pub mod model;
pub mod ordering;
pub mod paging;
pub mod plain;
pub mod table;
