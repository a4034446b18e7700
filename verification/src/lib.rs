pub mod apps;
pub mod cli;
pub mod config;
pub mod menu;
pub mod plan;
pub mod text;
pub mod quit;
