pub mod text;
pub mod config;
pub mod launch;
pub mod local_mods;
pub mod workshop;
