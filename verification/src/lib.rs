//! MindCache: a filesystem-first personal knowledge base kept as Markdown files
//! with YAML front matter, and the static dashboard built from them.
pub mod text;
pub mod frontmatter;
pub mod state;
pub mod state_laws;
pub mod dates;
pub mod entry;
pub mod escape;
pub mod render;
pub mod site;
pub mod lists;
pub mod tags;
pub mod pages;
pub mod dashboard;
pub mod site_build;
pub mod cli;
pub mod config;
pub mod serve;
pub mod newentry;
pub mod report;
