//! Finds duplicate files, plans which of them to delete, and carries the plan out.
//!
//! The library decides and its caller acts: a run (see [`state::Run`]) takes what it is
//! told and says what is to be done next. What it does at each step is stated in [`steps`],
//! what every run promises in [`promises`], [`history`] and [`success`], and what those
//! promise that are told the truth in [`faithful`], [`saved`] and [`results`]. What the flags
//! of the command line ask for is stated in [`flags`].
pub mod again;
pub mod agree;
pub mod config;
pub mod dashboard;
pub mod display;
pub mod exchange;
pub mod faithful;
pub mod flags;
pub mod form;
pub mod hashing;
pub mod history;
pub mod metadata;
pub mod model;
pub mod number;
pub mod order;
pub mod outcome;
pub mod paths;
pub mod plan;
pub mod prefilter;
pub mod promises;
pub mod rank;
pub mod results;
pub mod resume;
pub mod run;
pub mod saved;
pub mod scan;
pub mod select;
pub mod stages;
pub mod state;
pub mod steps;
pub mod success;
pub mod table;
pub mod text;
pub mod truth;
