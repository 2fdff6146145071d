//! The decisions behind each command of the command line.
pub mod accounts;
pub mod upload;
