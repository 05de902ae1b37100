//! A packed component store for an entity-component-system.
//!
//! Every entity is a contiguous run of component values inside one flat array;
//! an offset table marks where each run begins. Removing an entity compacts the
//! array and renumbers the entities above it, and a fixed table of links keeps
//! track of entities across such renumbering.

use vstd::prelude::*;

pub mod component;
pub mod laws;
pub mod layout;
pub mod model;
pub mod registry;

use crate::component::Component;
use crate::registry::Registry;

verus! {

/// A unit of behaviour that is run over a whole store.
///
/// A system is handed a well-formed store and has to leave a well-formed store
/// behind; beyond that it may create, change and remove entities as it likes.
pub trait System<T: Component> {
    fn run(&mut self, registry: &mut Registry<T>)
        requires
            old(registry).wf(),
        ensures
            final(registry).wf(),
    ;
}

} // verus!
