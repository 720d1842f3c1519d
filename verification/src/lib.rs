pub mod text;
pub mod git;
pub mod auth;
pub mod config;
pub mod github;
pub mod tree;
pub mod ui;
pub mod model;
pub mod events;
pub mod context;
pub mod views;
pub mod syntax;
pub mod suggest;
