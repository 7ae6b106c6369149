pub mod text;
pub mod cgroup;
pub mod procs;
pub mod color;
pub mod config;
pub mod cli;
pub mod shutdown;
pub mod ui;
pub mod picture;
pub mod laws;
