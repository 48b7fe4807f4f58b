use std::collections::HashMap;
use std::collections::HashSet;
use vstd::prelude::*;

use crate::ctrl::{DependencyId, ModuleIdentifier};

verus! {

/// How a module exposes its exports to an importer.
#[derive(Clone, Copy, Debug, PartialEq, Eq, Structural)]
pub enum ExportsType {
    DefaultOnly,
    Namespace,
    DefaultWithNamed,
    Dynamic,
}

/// A connection of the module graph: the dependency that makes it, the
/// module that holds that dependency (none for an entry), and the module
/// it points at.
#[derive(Clone, Copy, Debug, PartialEq, Eq, Structural)]
pub struct Connection {
    pub dependency_id: DependencyId,
    pub original_module_identifier: Option<ModuleIdentifier>,
    pub module_identifier: ModuleIdentifier,
}

/// What the controller and the dependencies read of the module graph.
#[derive(Debug)]
pub struct ModuleGraph {
    /// The modules of the graph.
    pub modules: HashSet<ModuleIdentifier>,
    /// For each module, the dependencies of its incoming connections.
    pub incoming_connections: HashMap<ModuleIdentifier, Vec<DependencyId>>,
    /// The connection that each dependency makes.
    pub connections: HashMap<DependencyId, Connection>,
    /// The ids that the graph recorded for a dependency, where it did.
    pub dep_meta_ids: HashMap<DependencyId, Vec<String>>,
    /// The module that holds each dependency.
    pub parent_modules: HashMap<DependencyId, ModuleIdentifier>,
    /// How the module that a dependency imports exposes its exports to
    /// the module that holds the dependency.
    pub exports_types: HashMap<DependencyId, ExportsType>,
}

impl ModuleGraph {
    pub fn new() -> (r: ModuleGraph)
        ensures
            r.modules@ == Set::<ModuleIdentifier>::empty(),
            r.incoming_connections@ == Map::<ModuleIdentifier, Vec<DependencyId>>::empty(),
            r.connections@ == Map::<DependencyId, Connection>::empty(),
            r.dep_meta_ids@ == Map::<DependencyId, Vec<String>>::empty(),
            r.parent_modules@ == Map::<DependencyId, ModuleIdentifier>::empty(),
            r.exports_types@ == Map::<DependencyId, ExportsType>::empty(),
    {
        ModuleGraph {
            modules: HashSet::new(),
            incoming_connections: HashMap::new(),
            connections: HashMap::new(),
            dep_meta_ids: HashMap::new(),
            parent_modules: HashMap::new(),
            exports_types: HashMap::new(),
        }
    }
}

} // verus!
