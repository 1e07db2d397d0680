//! Verified core of an ant colony optimiser for the travelling salesman
//! problem: tour construction, ranking of the ants' tours, the running
//! best distance, and reads from a little-endian distance matrix.

pub mod best;
pub mod distance_matrix;
pub mod pheromone;
pub mod ranking;
pub mod tour;
