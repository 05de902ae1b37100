//! The mathematical model of a store: a sequence of entities, each a sequence
//! of components, and a table of links into it.

use vstd::prelude::*;

verus! {

/// The number of slots in the link table.
pub const MAX_LINKS: usize = 200;

/// Sum of the lengths of the given entities.
pub open spec fn total_len<T>(entities: Seq<Seq<T>>) -> nat
    decreases entities.len(),
{
    if entities.len() == 0 {
        0
    } else {
        total_len(entities.drop_last()) + entities.last().len()
    }
}

/// What a store holds: its entities in index order and its link table.
///
/// `links[l]` is `Some(i)` when link `l` is taken and points at entity `i`,
/// and `None` when slot `l` is free.
pub struct RegistryView<T> {
    pub entities: Seq<Seq<T>>,
    pub links: Seq<Option<int>>,
}

impl<T> RegistryView<T> {
    /// The link table has `MAX_LINKS` slots and every taken slot points at a
    /// live entity.
    pub open spec fn wf(self) -> bool {
        &&& self.links.len() == MAX_LINKS
        &&& forall|l: int|
            0 <= l < self.links.len() ==> (#[trigger] self.links[l] matches Some(i) ==> 0 <= i
                < self.entities.len())
    }

    /// The store without entities and without links.
    pub open spec fn empty() -> Self {
        RegistryView { entities: Seq::empty(), links: Seq::new(MAX_LINKS as nat, |l: int| None) }
    }

    pub open spec fn entity_count(self) -> nat {
        self.entities.len()
    }

    pub open spec fn component_count(self) -> nat {
        total_len(self.entities)
    }

    /// Every entity has at least one component.
    pub open spec fn no_entity_empty(self) -> bool {
        forall|i: int| 0 <= i < self.entities.len() ==> (#[trigger] self.entities[i]).len() > 0
    }

    /// A new entity with the given components is appended; its index is the
    /// former entity count.
    pub open spec fn create(self, components: Seq<T>) -> Self {
        RegistryView { entities: self.entities.push(components), links: self.links }
    }

    /// Where a link that pointed at `target` points after entity `removed` is
    /// gone: nowhere if it pointed at that entity, one lower if it pointed
    /// above it, unchanged if it pointed below it.
    pub open spec fn renumber(target: Option<int>, removed: int) -> Option<int> {
        match target {
            Some(i) => if i > removed {
                Some(i - 1)
            } else if i == removed {
                None
            } else {
                Some(i)
            },
            None => None,
        }
    }

    /// Entity `index` is taken out, the entities above it move down by one, and
    /// the link table follows.
    pub open spec fn remove(self, index: int) -> Self {
        RegistryView {
            entities: self.entities.remove(index),
            links: Seq::new(self.links.len(), |l: int| Self::renumber(self.links[l], index)),
        }
    }

    /// The components of entity `index` are replaced, in place.
    pub open spec fn replace(self, index: int, components: Seq<T>) -> Self {
        RegistryView { entities: self.entities.update(index, components), links: self.links }
    }

    /// Some slot of the link table is free.
    pub open spec fn has_free_slot(self) -> bool {
        exists|l: int| 0 <= l < self.links.len() && #[trigger] self.links[l] is None
    }

    /// `slot` is the free slot with the lowest position.
    pub open spec fn is_first_free(self, slot: int) -> bool {
        &&& 0 <= slot < self.links.len()
        &&& self.links[slot] is None
        &&& forall|l: int| 0 <= l < slot ==> #[trigger] self.links[l] is Some
    }

    /// Slot `slot` is taken and points at entity `index`.
    pub open spec fn link(self, slot: int, index: int) -> Self {
        RegistryView { entities: self.entities, links: self.links.update(slot, Some(index)) }
    }

    /// Slot `slot` is free again.
    pub open spec fn free(self, slot: int) -> Self {
        RegistryView { entities: self.entities, links: self.links.update(slot, None) }
    }

    /// The components that link `slot` resolves to, if the slot is taken.
    pub open spec fn resolve(self, slot: int) -> Option<Seq<T>> {
        match self.links[slot] {
            Some(i) => Some(self.entities[i]),
            None => None,
        }
    }

    /// The entities of `batch` are created one after the other.
    pub open spec fn create_all(self, batch: Seq<Seq<T>>) -> Self
        decreases batch.len(),
    {
        if batch.len() == 0 {
            self
        } else {
            self.create_all(batch.drop_last()).create(batch.last())
        }
    }

    /// The entities at `indices` are removed one after the other, each index
    /// read in the store as it is when its turn comes.
    pub open spec fn remove_all(self, indices: Seq<int>) -> Self
        decreases indices.len(),
    {
        if indices.len() == 0 {
            self
        } else {
            self.remove(indices.first()).remove_all(indices.drop_first())
        }
    }

    /// Every index of `indices` names a live entity when its turn comes, and
    /// none of them the entity that link `slot` points at.
    pub open spec fn spares(self, slot: int, indices: Seq<int>) -> bool
        decreases indices.len(),
    {
        indices.len() > 0 ==> {
            &&& 0 <= indices.first() < self.entities.len()
            &&& self.links[slot] != Some(indices.first())
            &&& self.remove(indices.first()).spares(slot, indices.drop_first())
        }
    }

    /// The taken slots.
    pub open spec fn live_links(self) -> Set<int> {
        Set::new(|l: int| 0 <= l < self.links.len() && self.links[l] is Some)
    }

    /// After a removal every remaining link points at a live entity.
    pub proof fn lemma_remove_keeps_links_valid(self, index: int)
        requires
            self.wf(),
            0 <= index < self.entities.len(),
        ensures
            self.remove(index).wf(),
    {
        assert forall|l: int| 0 <= l < self.links.len() implies (#[trigger] self.remove(
            index,
        ).links[l] matches Some(i) ==> 0 <= i < self.entities.len() - 1) by {
            assert(self.remove(index).links[l] == Self::renumber(self.links[l], index));
        }
    }
}

/// The index of the entity that a cursor hands out next when it has handed out
/// `count` of `total` entities, if any is left.
pub open spec fn stream_next(count: nat, total: nat) -> Option<nat> {
    if count < total {
        Some(count)
    } else {
        None
    }
}

/// How many entities the cursor has handed out after that.
pub open spec fn stream_advance(count: nat, total: nat) -> nat {
    if count < total {
        count + 1
    } else {
        count
    }
}

/// How many of `total` entities a cursor has handed out after `calls` requests
/// for the next one.
pub open spec fn stream_position(total: nat, calls: nat) -> nat
    decreases calls,
{
    if calls == 0 {
        0
    } else {
        stream_advance(stream_position(total, (calls - 1) as nat), total)
    }
}

} // verus!
