use vstd::prelude::*;

pub mod text;
pub mod config;
pub mod desktop;
pub mod matching;
pub mod apps;
pub mod files;
pub mod chars;
pub mod emoji;
pub mod calc;
pub mod system;
pub mod plugin;
pub mod window;
pub mod spawn;
