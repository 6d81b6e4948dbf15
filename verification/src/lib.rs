use vstd::prelude::*;

pub mod text;
pub mod strmap;
pub mod config;
pub mod metadata;
pub mod paths;
pub mod urls;
pub mod queue;
pub mod error;
pub mod engine;
pub mod external;
pub mod cookies;
pub mod scheduler;
pub mod native;
pub mod settings;
pub mod spider;
pub mod updater;
pub mod av;
pub mod media;
pub mod cli;
pub mod types;
pub mod gui;
