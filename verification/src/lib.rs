pub mod digit_ops;
pub mod pangram;
pub mod unvisited_stones;
