use vstd::prelude::*;

pub mod text;
pub mod meta;
pub mod package;
pub mod db;
pub mod config;
pub mod laws;
