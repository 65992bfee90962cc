//! Verified core of a blog editor and two desktop-style portfolio sites.
pub mod text;
pub mod utils;
pub mod models;
pub mod config;
pub mod state;
pub mod worker;
pub mod post;
pub mod encoding;
pub mod prose;
pub mod compress;
pub mod github;
pub mod dashboard;
pub mod editor;
pub mod desktop;
pub mod frontmatter;
pub mod auth;
