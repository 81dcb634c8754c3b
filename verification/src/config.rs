//! The part of the configuration that the backends read.

use crate::process::Perms;
use vstd::prelude::*;

verus! {

/// The program that stands for the system package manager of the Arch family, and
/// whether it has to be run with elevation when it changes the system.
#[derive(Debug)]
pub struct ArchPackageManager {
    pub command: String,
    pub perms: Perms,
}

impl ArchPackageManager {
    /// The name of the program to invoke.
    pub fn as_command(&self) -> (command: &str)
        ensures
            command@ == self.command@,
    {
        self.command.as_str()
    }

    /// The permissions with which invocations that change the system are run.
    pub fn change_perms(&self) -> (perms: Perms)
        ensures
            perms == self.perms,
    {
        self.perms
    }
}

/// What the operator has configured.
#[derive(Debug)]
pub struct Config {
    pub arch_package_manager: ArchPackageManager,
}

} // verus!
