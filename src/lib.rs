//! Installation core of a binary package manager: dependency resolution over
//! a formula repository, and the decisions of the bottle fetch pipeline.

pub mod deps;
pub mod repo;
pub mod text;
pub mod fetch;
pub mod pool;
pub mod index;
pub mod ui;
pub mod platform;
pub mod util;
pub mod args;
pub mod config;
