pub mod actions;
pub mod camera;
pub mod config;
pub mod mqtt;
pub mod text;
pub mod viewer;
