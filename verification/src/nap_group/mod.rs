//! The groups of processes kept asleep.
pub mod group;
pub mod killer;
