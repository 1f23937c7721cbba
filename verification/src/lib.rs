//! The decisions of ArchBrew, a Homebrew-style package manager for Arch.

pub mod aur;
pub mod clean;
pub mod command;
pub mod conf;
pub mod database;
pub mod dialogue;
pub mod install;
pub mod local;
pub mod makepkg;
pub mod number;
pub mod order;
pub mod paths;
pub mod process;
pub mod prompt;
pub mod report;
pub mod request;
pub mod resolve;
pub mod script;
pub mod snapshot;
pub mod style;
pub mod suggest;
pub mod text;
pub mod transaction;
pub mod units;
