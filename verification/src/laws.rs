//! What holds of every store, stated over the model and proved.

use vstd::prelude::*;
use crate::component::{Component, ComponentMask};
use crate::model::{RegistryView, MAX_LINKS};
use crate::registry::Registry;

verus! {

/// Taking an entity out takes its length off the sum of lengths.
pub proof fn lemma_total_len_remove<T>(entities: Seq<Seq<T>>, index: int)
    requires
        0 <= index < entities.len(),
    ensures
        crate::model::total_len(entities.remove(index)) == crate::model::total_len(entities)
            - entities[index].len(),
    decreases entities.len(),
{
    if index < entities.len() - 1 {
        lemma_total_len_remove(entities.drop_last(), index);
        assert(entities.remove(index).drop_last() =~= entities.drop_last().remove(index));
    } else {
        assert(entities.remove(index) =~= entities.drop_last());
    }
}

/// The sum of lengths of a concatenation is the sum of the two sums.
pub proof fn lemma_total_len_concat<T>(front: Seq<Seq<T>>, back: Seq<Seq<T>>)
    ensures
        crate::model::total_len(front + back) == crate::model::total_len(front)
            + crate::model::total_len(back),
    decreases back.len(),
{
    if back.len() > 0 {
        lemma_total_len_concat(front, back.drop_last());
        assert((front + back).drop_last() =~= front + back.drop_last());
    } else {
        assert(front + back =~= front);
    }
}

/// Every mask is contained in the union that it went into.
pub proof fn lemma_mask_union_holds(masks: Seq<ComponentMask>, index: int)
    requires
        0 <= index < masks.len(),
    ensures
        masks[index] & crate::component::mask_union(masks) == masks[index],
    decreases masks.len(),
{
    let front = crate::component::mask_union(masks.drop_last());
    let last = masks.last();
    if index == masks.len() - 1 {
        assert(last & (front | last) == last) by (bit_vector);
    } else {
        lemma_mask_union_holds(masks.drop_last(), index);
        let mask = masks[index];
        assert(mask & (front | last) == mask) by (bit_vector)
            requires
                mask & front == mask,
        ;
    }
}

/// The union of masks has some of the given bits exactly when one of the
/// masks has: nothing is in the union that no mask brought.
pub proof fn lemma_mask_union_bits(masks: Seq<ComponentMask>, bits: ComponentMask)
    ensures
        crate::component::mask_union(masks) & bits != 0 <==> exists|i: int|
            0 <= i < masks.len() && #[trigger] masks[i] & bits != 0,
    decreases masks.len(),
{
    if masks.len() == 0 {
        assert(0u32 & bits == 0) by (bit_vector);
    } else {
        let front = crate::component::mask_union(masks.drop_last());
        let last = masks.last();
        lemma_mask_union_bits(masks.drop_last(), bits);
        assert((front | last) & bits != 0 <==> front & bits != 0 || last & bits != 0)
            by (bit_vector);
        if front & bits != 0 {
            let i = choose|i: int|
                0 <= i < masks.drop_last().len() && #[trigger] masks.drop_last()[i] & bits != 0;
            assert(masks[i] & bits != 0);
        }
        if exists|i: int| 0 <= i < masks.len() && #[trigger] masks[i] & bits != 0 {
            let i = choose|i: int| 0 <= i < masks.len() && #[trigger] masks[i] & bits != 0;
            if i < masks.len() - 1 {
                assert(masks.drop_last()[i] & bits != 0);
            }
        }
    }
}

/// A pass over `total` entities hands them out in index order, one with each
/// request, and nothing from then on: request number `calls`, counted from 0,
/// yields entity `calls` if there is one and nothing otherwise.
pub proof fn lemma_stream_pass(total: nat, calls: nat)
    ensures
        crate::model::stream_position(total, calls) == (if calls < total {
            calls
        } else {
            total
        }),
        crate::model::stream_next(crate::model::stream_position(total, calls), total) == (if calls
            < total {
            Some(calls)
        } else {
            None
        }),
    decreases calls,
{
    if calls > 0 {
        lemma_stream_pass(total, (calls - 1) as nat);
    }
}

impl<T: Component> Registry<T> {
    /// The flat array is dense. The offsets start at 0 and never decrease,
    /// every entity ends where its components end, which is where the next
    /// entity begins, and the last entity ends at the end of the array, so
    /// that the component count is the sum of the entities' lengths. Where no
    /// entity is empty the offsets increase strictly.
    pub proof fn lemma_density(&self)
        requires
            self.wf(),
        ensures
            self.offsets().len() == self@.entity_count(),
            self.components().len() == self@.component_count(),
            self.components() == self@.entities.flatten(),
            self.offsets().len() > 0 ==> self.offsets()[0] == 0,
            forall|i: int, j: int|
                0 <= i <= j < self.offsets().len() ==> self.offsets()[i] <= self.offsets()[j],
            forall|i: int|
                0 <= i < self.offsets().len() ==> (#[trigger] self.offsets()[i])
                    + self@.entities[i].len() == crate::layout::entity_end(
                    self.components().len() as int,
                    self.offsets(),
                    i,
                ),
            self.offsets().len() > 0 ==> crate::layout::entity_end(
                self.components().len() as int,
                self.offsets(),
                self.offsets().len() - 1,
            ) == self@.component_count(),
            self@.no_entity_empty() ==> forall|i: int, j: int|
                0 <= i < j < self.offsets().len() ==> self.offsets()[i] < self.offsets()[j],
    {
        let total = self.components().len() as int;
        let offsets = self.offsets();
        crate::layout::lemma_layout_total(self.components(), offsets);
        crate::layout::lemma_layout_flat(self.components(), offsets);
        assert forall|i: int| 0 <= i < offsets.len() implies (#[trigger] offsets[i])
            + self@.entities[i].len() == crate::layout::entity_end(total, offsets, i) by {}
        if self@.no_entity_empty() {
            assert forall|i: int, j: int| 0 <= i < j < offsets.len() implies offsets[i]
                < offsets[j] by {
                assert(offsets[i] + self@.entities[i].len() == offsets[i + 1]);
                assert(offsets[i + 1] <= offsets[j]);
            }
        }
    }
}

impl<T> RegistryView<T> {
    /// Creating the entities of `batch` appends them in their order: the
    /// entity count grows by their number and the component count by the sum
    /// of their lengths. The links stay as they are.
    pub proof fn lemma_create_all(self, batch: Seq<Seq<T>>)
        ensures
            self.create_all(batch).entities == self.entities + batch,
            self.create_all(batch).links == self.links,
            self.create_all(batch).entity_count() == self.entity_count() + batch.len(),
            self.create_all(batch).component_count() == self.component_count()
                + crate::model::total_len(batch),
        decreases batch.len(),
    {
        if batch.len() > 0 {
            self.lemma_create_all(batch.drop_last());
        }
        lemma_total_len_concat(self.entities, batch);
    }

    /// Created in an empty store, the entities of `batch` are all that it
    /// holds.
    pub proof fn lemma_create_from_empty(batch: Seq<Seq<T>>)
        ensures
            Self::empty().create_all(batch).entities == batch,
            Self::empty().create_all(batch).entity_count() == batch.len(),
            Self::empty().create_all(batch).component_count() == crate::model::total_len(batch),
    {
        Self::empty().lemma_create_all(batch);
    }

    /// Removing an entity takes one off the entity count and the entity's
    /// length off the component count, and leaves the content of every other
    /// entity as it was.
    pub proof fn lemma_remove_counts(self, index: int)
        requires
            0 <= index < self.entities.len(),
        ensures
            self.remove(index).entity_count() == self.entity_count() - 1,
            self.remove(index).component_count() == self.component_count()
                - self.entities[index].len(),
            forall|j: int| 0 <= j < index ==> self.remove(index).entities[j] == self.entities[j],
            forall|j: int|
                index < j < self.entities.len() ==> self.remove(index).entities[j - 1]
                    == self.entities[j],
    {
        lemma_total_len_remove(self.entities, index);
    }

    /// After the removal of entity `index`, the entity that had index `other`
    /// above it has index `other - 1`, with the same content.
    pub proof fn lemma_remove_renumbers(self, index: int, other: int)
        requires
            0 <= index < other < self.entities.len(),
        ensures
            other - 1 < self.remove(index).entity_count(),
            self.remove(index).entities[other - 1] == self.entities[other],
    {
    }

    /// A link outlives the removal of any entity but its own: it resolves to
    /// the same content as before. With its own entity it goes.
    pub proof fn lemma_link_stable(self, slot: int, index: int)
        requires
            self.wf(),
            0 <= slot < MAX_LINKS,
            0 <= index < self.entities.len(),
        ensures
            self.links[slot] != Some(index) ==> self.remove(index).resolve(slot) == self.resolve(
                slot,
            ),
            self.links[slot] == Some(index) ==> self.remove(index).resolve(slot) is None,
            self.remove(index).links[slot] is None <==> self.links[slot] is None
                || self.links[slot] == Some(index),
    {
    }

    /// A link resolves to the same content after any number of removals of
    /// entities other than its own, however often its entity has moved down.
    pub proof fn lemma_link_survives(self, slot: int, indices: Seq<int>)
        requires
            self.wf(),
            0 <= slot < MAX_LINKS,
            self.spares(slot, indices),
        ensures
            self.remove_all(indices).wf(),
            self.remove_all(indices).resolve(slot) == self.resolve(slot),
        decreases indices.len(),
    {
        if indices.len() > 0 {
            let index = indices.first();
            self.lemma_remove_keeps_links_valid(index);
            self.lemma_link_stable(slot, index);
            self.remove(index).lemma_link_survives(slot, indices.drop_first());
        }
    }

    /// Creating an entity leaves every link pointing at the content that it
    /// pointed at.
    pub proof fn lemma_create_keeps_links(self, components: Seq<T>, slot: int)
        requires
            self.wf(),
            0 <= slot < MAX_LINKS,
        ensures
            self.create(components).wf(),
            self.create(components).resolve(slot) == self.resolve(slot),
    {
    }

    /// A link that was just made resolves to the content of its entity, and
    /// leaves the other links as they were.
    pub proof fn lemma_link_resolves(self, slot: int, index: int)
        requires
            self.wf(),
            0 <= slot < MAX_LINKS,
            0 <= index < self.entities.len(),
        ensures
            self.link(slot, index).wf(),
            self.link(slot, index).resolve(slot) == Some(self.entities[index]),
            forall|other: int|
                0 <= other < MAX_LINKS && other != slot ==> self.link(slot, index).resolve(other)
                    == self.resolve(other),
    {
    }

    /// The link table is full exactly when `MAX_LINKS` links are taken, and
    /// never holds more.
    pub proof fn lemma_capacity(self)
        requires
            self.wf(),
        ensures
            self.live_links().finite(),
            self.live_links().len() <= MAX_LINKS,
            self.live_links().len() == MAX_LINKS <==> !self.has_free_slot(),
    {
        let all = vstd::set_lib::set_int_range(0, MAX_LINKS as int);
        vstd::set_lib::lemma_int_range(0, MAX_LINKS as int);
        let live = self.live_links();
        vstd::set_lib::lemma_len_subset(live, all);
        if self.has_free_slot() {
            let free = choose|l: int| 0 <= l < self.links.len() && #[trigger] self.links[l] is None;
            vstd::set_lib::lemma_len_subset(live, all.remove(free));
        } else {
            assert(live =~= all);
        }
    }
}

} // verus!
