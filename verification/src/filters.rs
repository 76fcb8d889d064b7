//! The closed set of composable record filters: tag membership in groups,
//! distances, and temperatures.

pub mod filter;
pub mod is_in_distances;
pub mod is_in_groups;
pub mod is_in_temperatures;
