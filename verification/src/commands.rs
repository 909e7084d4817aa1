pub mod install;
pub mod list;
pub mod remove;
