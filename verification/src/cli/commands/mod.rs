//! The rules of the package manager's commands.
pub mod audit;
pub mod install;
pub mod list;
pub mod uninstall;
pub mod update;
pub mod run;
pub mod search;
pub mod cache;
pub mod exec;
pub mod init;
pub mod new;
