//! Transaction engine of a package manager: dependency resolution, conflict
//! detection, install/remove/upgrade decisions and repository synchronisation,
//! stated over plain values and proved against their contracts.

pub mod lists;
pub mod records;
pub mod database;
pub mod ledger;
pub mod dependencies;
pub mod conflict;
pub mod version;
pub mod digest;
pub mod text;
pub mod sync;
pub mod transaction;
pub mod install;
pub mod commands;
pub mod config;
pub mod display;
pub mod repogen;
