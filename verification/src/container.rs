//! Ephemeral database containers.
use vstd::prelude::*;

verus! {

/// Database container type to spin up.
#[derive(Debug, Clone, Copy, PartialEq, Eq, Structural)]
pub enum DatabaseKind {
    Postgres,
    Mysql,
}

/// Manages ephemeral database containers for testing and migration replay.
#[derive(Debug)]
pub struct ContainerManager;

impl ContainerManager {
    pub fn new() -> (r: Self)
        ensures
            r == ContainerManager,
    {
        ContainerManager
    }
}

impl Default for ContainerManager {
    fn default() -> (r: Self)
        ensures
            r == ContainerManager,
    {
        ContainerManager::new()
    }
}

} // verus!
