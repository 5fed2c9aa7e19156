//! The stages of a run. Each function takes what a run has been told and gives the state
//! that follows, with the next step; a relation beside it says which.
pub mod beginning;
pub mod ending;
pub mod hashing;
pub mod planning;
pub mod resuming;
pub mod scanning;
