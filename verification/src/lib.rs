//! A reconciler of packages: the operator declares which packages are wanted of
//! each package manager, and the installed packages are brought into line.
//!
//! This library decides; it runs no program and reads no file. For each package
//! manager, its backend says which programs are to be invoked and reads what they
//! print. The backends are `arch`, `cargo` and `rustup`; `engine` compares what is
//! desired with what is installed.

pub mod arch;
pub mod cargo;
pub mod config;
pub mod engine;
pub mod failure;
pub mod json;
pub mod package_map;
pub mod process;
pub mod rustup;
pub mod startup;
pub mod text;
