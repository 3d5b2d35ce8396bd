//! Sequential file naming for a folder of saved videos, and the plan by which
//! one video is fetched and stored.

pub mod commands;
pub mod download;
pub mod naming;
pub mod number;
pub mod paths;
pub mod text;
