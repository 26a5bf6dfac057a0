//! Verified core of a command-line tool that keeps Redash queries under
//! version control: the naming of query files, the reading of ids back from
//! file names and from `git status`, the selection of what to deploy, the
//! polling of query executions, the repository scaffold plan and the update
//! check.
pub mod text;
pub mod naming;
pub mod models;
pub mod id_set;
pub mod by_id;
pub mod commands;
pub mod api;
pub mod update_checker;
