//! A vertical diff viewer: files are compared column by column.

pub mod app;
pub mod app_laws;
pub mod changes;
pub mod cli;
pub mod columns;
pub mod content;
pub mod content_laws;
pub mod diff;
pub mod fake_git;
pub mod file_laws;
pub mod git;
pub mod git_laws;
pub mod grid_laws;
pub mod jump_laws;
pub mod key_laws;
pub mod keys;
pub mod lcs;
pub mod lcs_laws;
pub mod render;
pub mod reply_laws;
pub mod repo;
pub mod report;
pub mod report_laws;
pub mod resolve_laws;
pub mod revs;
pub mod row_laws;
pub mod rows;
pub mod screen;
pub mod screen_laws;
pub mod text;
pub mod text_laws;
pub mod view_laws;
pub mod width;
pub mod width_laws;
