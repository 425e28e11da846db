//! Turn a year-shaped grid of daily intensities into a linear chain of
//! version-control commits whose timestamps reproduce the grid.
//!
//! The grid model maps cells to consecutive calendar days starting at an
//! anchor Monday; the synthesizer replays a grid's intensities as commits
//! in a repository, one commit per unit of intensity, timestamped at each
//! cell's midnight.

pub mod builder;
pub mod config;
pub mod consts;
pub mod date;
pub mod fonts;
pub mod git;
pub mod state;
