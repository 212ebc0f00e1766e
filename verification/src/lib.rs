//! Verified core of `sitectl`, a web server project administration tool:
//! naming rules for per-site system users and PHP-FPM pools, nginx vhost
//! generation and parsing, security audit rules, backup planning, project
//! repair and removal, and the command lines that the tool runs.

pub mod text;
pub mod numfmt;
pub mod order;
pub mod system;
pub mod nginx;
pub mod vhost_readback;
pub mod audit;
pub mod backup;
pub mod project;
pub mod env_files;
pub mod site_exec;
pub mod provision;
pub mod removal;
