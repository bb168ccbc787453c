//! Task backlog validation and GitHub import planning.

pub mod text;
pub mod json;
pub mod strmap;
pub mod tasks;
pub mod github;
pub mod state;
pub mod graphql;
pub mod importer;
pub mod auth;
pub mod secrets;
pub mod commands;
