//! The Legends of Taria wiki builder: the logic that turns the site's records and
//! markdown into pages, links references between them, and runs the preview server's
//! and watch mode's decisions.

pub mod cli;
pub mod config;
pub mod data;
pub mod order;
pub mod paths;
pub mod postprocess;
pub mod server;
pub mod text;
pub mod watch;
