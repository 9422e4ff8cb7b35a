//! Verified core of a small web viewer for Git repositories.

pub mod text;
pub mod html_diff;
pub mod context;
pub mod order;
pub mod paths;
pub mod config;
pub mod git;
pub mod framework;
pub mod pages;
pub mod highlight;
