//! The store itself: the flat component array, the offset table and the link
//! table, with creation, lookup, removal with compaction, and links.

use vstd::prelude::*;
use crate::component::{Component, ComponentMask};
use crate::model::{RegistryView, MAX_LINKS};

verus! {

/// A stable handle on an entity: a position in the link table.
pub type Link = usize;

/// An entity index at or beyond the number of live entities was used.
#[derive(Debug)]
pub struct EntityError {
    pub index: usize,
}

/// A link could not be made or resolved.
#[derive(Debug)]
pub struct LinkError;

/// The store: every entity is a run of components in one flat array.
///
/// `self@` is what the store holds, as a `RegistryView`. All functions that
/// change a store take a well-formed store (`wf`) and leave one behind.
pub struct Registry<T: Component> {
    /// The components of all entities, entity after entity.
    components: Vec<T>,
    /// For each entity, where in `components` its run begins.
    entity_indicies: Vec<usize>,
    /// For each link, the index of the entity that it points at.
    links: [Option<usize>; MAX_LINKS],
}

/// The offset table as mathematical integers.
spec fn offsets_of(indices: Seq<usize>) -> Seq<int> {
    Seq::new(indices.len(), |i: int| indices[i] as int)
}

/// One slot of the link table as a mathematical integer.
spec fn slot_of(link: Option<usize>) -> Option<int> {
    match link {
        Some(i) => Some(i as int),
        None => None,
    }
}

/// The link table as mathematical integers.
spec fn slots_of(links: Seq<Option<usize>>) -> Seq<Option<int>> {
    Seq::new(links.len(), |l: int| slot_of(links[l]))
}

/// The part of `components` from `begin` to `end`, for reading and writing.
fn run_mut<T>(components: &mut Vec<T>, begin: usize, end: usize) -> (run: &mut [T])
    requires
        begin <= end <= old(components)@.len(),
    ensures
        run@ == old(components)@.subrange(begin as int, end as int),
        final(components)@ == crate::layout::splice(
            old(components)@,
            begin as int,
            end as int,
            final(run)@,
        ),
{
    let (_, rest) = components.as_mut_slice().split_at_mut(begin);
    let (run, _) = rest.split_at_mut(end - begin);
    run
}

impl<T: Component> View for Registry<T> {
    type V = RegistryView<T>;

    /// The entities that the flat array and the offset table stand for, and
    /// the link table.
    open spec fn view(&self) -> RegistryView<T> {
        RegistryView {
            entities: crate::layout::entities_of(self.components(), self.offsets()),
            links: self.link_table(),
        }
    }
}

impl<T: Component> Registry<T> {
    /// The flat component array.
    pub closed spec fn components(&self) -> Seq<T> {
        self.components@
    }

    /// The offset table: where in the flat array each entity begins.
    pub closed spec fn offsets(&self) -> Seq<int> {
        offsets_of(self.entity_indicies@)
    }

    /// The link table.
    pub closed spec fn link_table(&self) -> Seq<Option<int>> {
        slots_of(self.links@)
    }

    /// The offset table fits the component array, and every link points at a
    /// live entity.
    pub open spec fn wf(&self) -> bool {
        &&& crate::layout::layout_ok(self.components().len() as int, self.offsets())
        &&& self@.wf()
    }

    /// How the store `after` relates to this one when entity `index` was lent
    /// out as a mutable slice that held `content` in the end: the offset table
    /// and the links are the same, and the component array differs only in the
    /// run of that entity.
    pub open spec fn lent_out(&self, index: int, after: Self, content: Seq<T>) -> bool {
        &&& after.offsets() =~= self.offsets()
        &&& after.link_table() =~= self.link_table()
        &&& after.components() =~= crate::layout::splice(
            self.components(),
            self.offsets()[index],
            crate::layout::entity_end(self.components().len() as int, self.offsets(), index),
            content,
        )
    }

    /// A store without entities and without links.
    pub fn new() -> (registry: Registry<T>)
        ensures
            registry.wf(),
            registry@ == RegistryView::<T>::empty(),
    {
        let registry = Registry {
            components: Vec::new(),
            entity_indicies: Vec::new(),
            links: [None; MAX_LINKS],
        };
        assert(registry@.entities =~= Seq::empty());
        assert(registry@.links =~= RegistryView::<T>::empty().links);
        registry
    }

    /// An empty store whose backing storage is sized ahead for the given
    /// numbers of components and entities. A size that cannot be had is no
    /// failure: the storage then grows as entities are created.
    pub fn with_capacity(component_capacity: usize, entity_capacity: usize) -> (registry: Registry<
        T,
    >)
        ensures
            registry.wf(),
            registry@ == RegistryView::<T>::empty(),
    {
        let mut components: Vec<T> = Vec::new();
        let mut entity_indicies: Vec<usize> = Vec::new();
        let _ = components.try_reserve(component_capacity);
        let _ = entity_indicies.try_reserve(entity_capacity);
        let registry = Registry { components, entity_indicies, links: [None; MAX_LINKS] };
        assert(registry@.entities =~= Seq::empty());
        assert(registry@.links =~= RegistryView::<T>::empty().links);
        registry
    }

    /// The number of live entities.
    pub fn get_num_entities(&self) -> (n: usize)
        ensures
            n == self@.entity_count(),
    {
        self.entity_indicies.len()
    }

    /// The number of components of all entities together.
    pub fn get_num_components(&self) -> (n: usize)
        requires
            self.wf(),
        ensures
            n == self@.component_count(),
    {
        proof {
            crate::layout::lemma_layout_total(self.components(), self.offsets());
        }
        self.components.len()
    }

    /// Appends a new entity that holds the given components, in their order,
    /// and returns its index, which is the former number of entities. An
    /// entity may have no components at all.
    pub fn make_entity(&mut self, components_to_add: Vec<T>) -> (entity_index: usize)
        requires
            old(self).wf(),
        ensures
            final(self).wf(),
            final(self)@ == old(self)@.create(components_to_add@),
            entity_index == old(self)@.entity_count(),
    {
        proof {
            crate::layout::lemma_append_entity(
                self.components(),
                self.offsets(),
                components_to_add@,
            );
        }
        let entity_index = self.entity_indicies.len();
        self.entity_indicies.push(self.components.len());
        let mut components_to_add = components_to_add;
        self.components.append(&mut components_to_add);
        assert(self.offsets() =~= old(self).offsets().push(old(self).components().len() as int));
        entity_index
    }

    /// Where in the flat array the run of entity `entity_index` ends.
    fn get_entity_end(&self, entity_index: usize) -> (end: usize)
        requires
            self.wf(),
            entity_index < self.offsets().len(),
        ensures
            end == crate::layout::entity_end(
                self.components().len() as int,
                self.offsets(),
                entity_index as int,
            ),
            self.offsets()[entity_index as int] <= end <= self.components().len(),
    {
        if self.entity_indicies.len() > entity_index + 1 {
            self.entity_indicies[entity_index + 1]
        } else {
            self.components.len()
        }
    }

    /// The components of entity `entity_index`, for reading and writing.
    ///
    /// The store is borrowed for as long as the slice is in use. What the store
    /// holds afterwards is its former content with the slice's final content in
    /// the place of that entity. A slice keeps its length whatever is written
    /// through it; Verus does not take that for granted, so the statement on
    /// the entities of the store afterwards is made for a slice of unchanged
    /// length.
    pub fn try_get_entity(&mut self, entity_index: usize) -> (result: Result<&mut [T], EntityError>)
        requires
            old(self).wf(),
        ensures
            entity_index >= old(self)@.entity_count() ==> ({
                &&& result is Err
                &&& result->Err_0 == (EntityError { index: entity_index })
                &&& *final(self) == *old(self)
            }),
            entity_index < old(self)@.entity_count() ==> ({
                &&& result is Ok
                &&& result->Ok_0@ == old(self)@.entities[entity_index as int]
                &&& old(self).lent_out(entity_index as int, *final(self), final(result->Ok_0)@)
            }),
            result is Ok && final(result->Ok_0)@.len() == result->Ok_0@.len() ==> ({
                &&& final(self).wf()
                &&& final(self)@ == old(self)@.replace(entity_index as int, final(result->Ok_0)@)
            }),
    {
        if self.entity_indicies.len() <= entity_index {
            Err(EntityError { index: entity_index })
        } else {
            let entity_end = self.get_entity_end(entity_index);
            let entity_begin = self.entity_indicies[entity_index];
            proof {
                crate::layout::lemma_replace_in_place(
                    self.components(),
                    self.offsets(),
                    entity_index as int,
                );
            }
            Ok(run_mut(&mut self.components, entity_begin, entity_end))
        }
    }

    /// The components of entity `entity_index`, which has to exist.
    pub fn get_entity(&mut self, entity_index: usize) -> (entity: &mut [T])
        requires
            old(self).wf(),
            entity_index < old(self)@.entity_count(),
        ensures
            entity@ == old(self)@.entities[entity_index as int],
            old(self).lent_out(entity_index as int, *final(self), final(entity)@),
            final(entity)@.len() == entity@.len() ==> ({
                &&& final(self).wf()
                &&& final(self)@ == old(self)@.replace(entity_index as int, final(entity)@)
            }),
    {
        self.try_get_entity(entity_index).unwrap()
    }

    /// Brings the link table in line with the removal of the entity that had
    /// index `removed_entity_index`: every link to it is cleared, and every
    /// link to an entity above it follows that entity down by one.
    fn update_links(&mut self, removed_entity_index: usize)
        ensures
            final(self).components() == old(self).components(),
            final(self).offsets() == old(self).offsets(),
            final(self).link_table() == Seq::new(
                old(self).link_table().len(),
                |l: int|
                    RegistryView::<T>::renumber(
                        old(self).link_table()[l],
                        removed_entity_index as int,
                    ),
            ),
    {
        let mut i: usize = 0;
        while i < MAX_LINKS
            invariant
                i <= MAX_LINKS,
                self.components == old(self).components,
                self.entity_indicies == old(self).entity_indicies,
                forall|l: int|
                    0 <= l < i ==> slot_of(#[trigger] self.links@[l]) == RegistryView::<
                        T,
                    >::renumber(slot_of(old(self).links@[l]), removed_entity_index as int),
                forall|l: int|
                    i <= l < MAX_LINKS ==> #[trigger] self.links@[l] == old(self).links@[l],
            decreases MAX_LINKS - i,
        {
            match self.links[i] {
                Some(index) => {
                    if index > removed_entity_index {
                        self.links[i] = Some(index - 1);
                    } else if index == removed_entity_index {
                        self.links[i] = None;
                    }
                },
                None => {},
            }
            i += 1;
        }
        assert(self.link_table() =~= Seq::new(
            old(self).link_table().len(),
            |l: int|
                RegistryView::<T>::renumber(old(self).link_table()[l], removed_entity_index as int),
        ));
    }

    /// Removes entity `entity_index`: its components are cut out of the flat
    /// array, the entities above it move down by one index, and the links
    /// follow. Fails, and changes nothing, if there is no such entity.
    pub fn try_remove_entity(&mut self, entity_index: usize) -> (result: Result<(), EntityError>)
        requires
            old(self).wf(),
        ensures
            final(self).wf(),
            entity_index >= old(self)@.entity_count() ==> ({
                &&& result is Err
                &&& result->Err_0 == (EntityError { index: entity_index })
                &&& *final(self) == *old(self)
            }),
            entity_index < old(self)@.entity_count() ==> ({
                &&& result is Ok
                &&& final(self)@ == old(self)@.remove(entity_index as int)
            }),
    {
        if self.entity_indicies.len() <= entity_index {
            Err(EntityError { index: entity_index })
        } else {
            let entity_end = self.get_entity_end(entity_index);
            let entity_begin = self.entity_indicies[entity_index];
            proof {
                crate::layout::lemma_remove_entity(
                    self.components(),
                    self.offsets(),
                    entity_index as int,
                );
                old(self)@.lemma_remove_keeps_links_valid(entity_index as int);
            }

            // Cut the run of the entity out of the flat array.
            let mut rest = self.components.split_off(entity_end);
            self.components.truncate(entity_begin);
            self.components.append(&mut rest);

            let ghost cut = self.components@;
            assert(cut =~= old(self).components().subrange(0, entity_begin as int) + old(
                self,
            ).components().subrange(entity_end as int, old(self).components().len() as int));
            let num_components_removed = entity_end - entity_begin;
            let num_entities = self.entity_indicies.len();
            assert forall|j: int| entity_index < j < num_entities implies num_components_removed
                <= #[trigger] old(self).entity_indicies@[j] by {
                assert(old(self).offsets()[entity_index + 1] <= old(self).offsets()[j]);
            }
            // The entities behind it begin that much earlier now.
            let mut i = entity_index + 1;
            while i < num_entities
                invariant
                    entity_index < i <= num_entities,
                    num_entities == self.entity_indicies@.len(),
                    num_entities == old(self).entity_indicies@.len(),
                    self.components@ == cut,
                    self.links == old(self).links,
                    forall|j: int|
                        0 <= j < num_entities ==> #[trigger] self.entity_indicies@[j]
                            == if entity_index < j < i {
                            old(self).entity_indicies@[j] - num_components_removed
                        } else {
                            old(self).entity_indicies@[j] as int
                        },
                    forall|j: int|
                        entity_index < j < num_entities ==> num_components_removed
                            <= #[trigger] old(self).entity_indicies@[j],
                decreases num_entities - i,
            {
                self.entity_indicies[i] = self.entity_indicies[i] - num_components_removed;
                i += 1;
            }
            // Take the entity out of the offset table.
            self.entity_indicies.remove(entity_index);
            assert(self.offsets() =~= crate::layout::offsets_without(
                old(self).components().len() as int,
                old(self).offsets(),
                entity_index as int,
            ));

            self.update_links(entity_index);
            Ok(())
        }
    }

    /// Removes entity `entity_index`, which has to exist.
    pub fn remove_entity(&mut self, entity_index: usize)
        requires
            old(self).wf(),
            entity_index < old(self)@.entity_count(),
        ensures
            final(self).wf(),
            final(self)@ == old(self)@.remove(entity_index as int),
    {
        self.try_remove_entity(entity_index).unwrap();
    }

    /// Takes the free slot of the link table with the lowest position and lets
    /// it point at entity `index`. Fails, and changes nothing, if there is no
    /// such entity or no free slot.
    pub fn try_make_link(&mut self, index: usize) -> (result: Result<Link, LinkError>)
        requires
            old(self).wf(),
        ensures
            final(self).wf(),
            (match result {
                Ok(link) => {
                    &&& index < old(self)@.entity_count()
                    &&& old(self)@.is_first_free(link as int)
                    &&& final(self)@ == old(self)@.link(link as int, index as int)
                },
                Err(_) => {
                    &&& index >= old(self)@.entity_count() || !old(self)@.has_free_slot()
                    &&& *final(self) == *old(self)
                },
            }),
    {
        if index < self.entity_indicies.len() {
            let mut i: usize = 0;
            while i < MAX_LINKS
                invariant
                    i <= MAX_LINKS,
                    *self == *old(self),
                    self.wf(),
                    index < self@.entity_count(),
                    forall|l: int| 0 <= l < i ==> #[trigger] self.links@[l] is Some,
                decreases MAX_LINKS - i,
            {
                if self.links[i].is_none() {
                    self.links[i] = Some(index);
                    assert(self@.links =~= old(self)@.link(i as int, index as int).links);
                    return Ok(i);
                }
                i += 1;
            }
        }
        Err(LinkError)
    }

    /// Makes a link to entity `index`, which has to exist, in a table that has
    /// to have a free slot.
    pub fn make_link(&mut self, index: usize) -> (link: Link)
        requires
            old(self).wf(),
            index < old(self)@.entity_count(),
            old(self)@.has_free_slot(),
        ensures
            final(self).wf(),
            old(self)@.is_first_free(link as int),
            final(self)@ == old(self)@.link(link as int, index as int),
    {
        self.try_make_link(index).unwrap()
    }

    /// Creates an entity and makes a link to it, in a table that has to have a
    /// free slot.
    pub fn link_make_entity(&mut self, components: Vec<T>) -> (link: Link)
        requires
            old(self).wf(),
            old(self)@.has_free_slot(),
        ensures
            final(self).wf(),
            old(self)@.is_first_free(link as int),
            final(self)@ == old(self)@.create(components@).link(
                link as int,
                old(self)@.entity_count() as int,
            ),
    {
        let entity_index = self.make_entity(components);
        self.make_link(entity_index)
    }

    /// Clears slot `link` of the link table, taken or not.
    pub fn free_link(&mut self, link: Link)
        requires
            old(self).wf(),
            link < MAX_LINKS,
        ensures
            final(self).wf(),
            final(self)@ == old(self)@.free(link as int),
    {
        self.links[link] = None;
        assert(self@.links =~= old(self)@.free(link as int).links);
    }

    /// The components of the entity that `link` points at, for reading and
    /// writing, as `try_get_entity` hands them out. Fails, and changes
    /// nothing, if slot `link` is free.
    pub fn try_get_entity_by_link(&mut self, link: Link) -> (result: Result<&mut [T], LinkError>)
        requires
            old(self).wf(),
            link < MAX_LINKS,
        ensures
            old(self)@.links[link as int] is None ==> ({
                &&& result is Err
                &&& *final(self) == *old(self)
            }),
            old(self)@.links[link as int] matches Some(index) ==> ({
                &&& result is Ok
                &&& result->Ok_0@ == old(self)@.entities[index]
                &&& old(self).lent_out(index, *final(self), final(result->Ok_0)@)
            }),
            result is Ok && final(result->Ok_0)@.len() == result->Ok_0@.len() ==> ({
                &&& final(self).wf()
                &&& final(self)@ == old(self)@.replace(
                    old(self)@.links[link as int]->0,
                    final(result->Ok_0)@,
                )
            }),
    {
        match self.links[link] {
            Some(entity_index) => Ok(self.get_entity(entity_index)),
            None => Err(LinkError),
        }
    }

    /// The components of the entity that `link` points at; slot `link` has to
    /// be taken.
    pub fn get_entity_by_link(&mut self, link: Link) -> (entity: &mut [T])
        requires
            old(self).wf(),
            link < MAX_LINKS,
            old(self)@.links[link as int] is Some,
        ensures
            entity@ == old(self)@.entities[old(self)@.links[link as int]->0],
            old(self).lent_out(old(self)@.links[link as int]->0, *final(self), final(entity)@),
            final(entity)@.len() == entity@.len() ==> ({
                &&& final(self).wf()
                &&& final(self)@ == old(self)@.replace(
                    old(self)@.links[link as int]->0,
                    final(entity)@,
                )
            }),
    {
        self.try_get_entity_by_link(link).unwrap()
    }

    /// The capabilities of an entity: the union of the masks that its
    /// components report.
    pub fn mask_of(entity: &[T]) -> (mask: ComponentMask)
        ensures
            exists|masks: Seq<ComponentMask>|
                crate::component::masks_of(entity@, masks) && mask == crate::component::mask_union(
                    masks,
                ),
    {
        let mut mask: ComponentMask = 0;
        let ghost mut masks: Seq<ComponentMask> = Seq::empty();
        let mut i: usize = 0;
        while i < entity.len()
            invariant
                i <= entity@.len(),
                crate::component::masks_of(entity@.take(i as int), masks),
                mask == crate::component::mask_union(masks),
            decreases entity@.len() - i,
        {
            let component_mask = entity[i].get_mask();
            proof {
                let ghost before = masks;
                masks = masks.push(component_mask);
                assert(masks.drop_last() =~= before);
                assert forall|j: int| 0 <= j < i + 1 implies call_ensures(
                    T::get_mask,
                    (&#[trigger] entity@.take(i + 1)[j],),
                    masks[j],
                ) by {
                    if j < i {
                        assert(entity@.take(i + 1)[j] == entity@.take(i as int)[j]);
                    }
                }
            }
            mask |= component_mask;
            i += 1;
        }
        mask
    }

    /// A cursor over the entities that the store holds now.
    pub fn stream<'registry>(&'registry mut self) -> (stream: EntityStream<'registry, T>)
        requires
            old(self).wf(),
        ensures
            stream.wf(),
            stream.count == 0,
            stream.remaining() == old(self)@.entities,
            *stream.registry == *old(self),
            *final(stream.registry) == *final(self),
    {
        EntityStream::new(self)
    }
}

/// A cursor that hands out every entity of a store once, in index order.
///
/// The store is borrowed for as long as the cursor lives, so no entity can be
/// created or removed during a pass. The fields are public so that contracts
/// can speak of the borrowed store; `wf` says how they belong together.
pub struct EntityStream<'registry, T: 'registry + Component> {
    /// How many entities were handed out.
    pub count: usize,
    /// How many entities the store held when the pass began.
    pub num_entities: usize,
    /// The store that the pass goes over.
    pub registry: &'registry mut Registry<T>,
}

impl<'registry, T: Component> EntityStream<'registry, T> {
    /// The store is well formed and still holds as many entities as when the
    /// pass began, and the cursor is not beyond them.
    pub open spec fn wf(&self) -> bool {
        &&& self.registry.wf()
        &&& self.num_entities == self.registry@.entity_count()
        &&& self.count <= self.num_entities
    }

    /// The entities that are still to come, in the order in which they come.
    pub open spec fn remaining(&self) -> Seq<Seq<T>> {
        self.registry@.entities.skip(self.count as int)
    }

    /// A cursor in front of the first entity of `registry`.
    pub fn new(registry: &'registry mut Registry<T>) -> (stream: EntityStream<'registry, T>)
        requires
            old(registry).wf(),
        ensures
            stream.wf(),
            stream.count == 0,
            stream.remaining() == old(registry)@.entities,
            *stream.registry == *old(registry),
            *final(stream.registry) == *final(registry),
    {
        EntityStream { count: 0, num_entities: registry.get_num_entities(), registry }
    }

    /// Hands out the next entity, as `Registry::get_entity` does, and moves on;
    /// `None`, then and ever after, when every entity was handed out.
    pub fn next(&mut self) -> (entity: Option<&mut [T]>)
        requires
            old(self).wf(),
        ensures
            final(self).num_entities == old(self).num_entities,
            final(self).count == crate::model::stream_advance(
                old(self).count as nat,
                old(self).num_entities as nat,
            ),
            *final(final(self).registry) == *final(old(self).registry),
            (match crate::model::stream_next(
                old(self).count as nat,
                old(self).num_entities as nat,
            ) {
                Some(index) => {
                    &&& entity is Some
                    &&& entity->0@ == old(self).registry@.entities[index as int]
                    &&& old(self).registry.lent_out(
                        index as int,
                        *final(self).registry,
                        final(entity->0)@,
                    )
                },
                None => {
                    &&& entity is None
                    &&& *final(self).registry == *old(self).registry
                },
            }),
            entity is Some && final(entity->0)@.len() == entity->0@.len() ==> ({
                &&& final(self).wf()
                &&& final(self).registry@ == old(self).registry@.replace(
                    old(self).count as int,
                    final(entity->0)@,
                )
                &&& final(self).remaining() == old(self).remaining().drop_first()
            }),
            entity is Some ==> entity->0@ == old(self).remaining().first(),
            entity is None ==> final(self).wf() && final(self).remaining().len() == 0,
    {
        if self.count < self.num_entities {
            let index = self.count;
            self.count = self.count + 1;
            Some(self.registry.get_entity(index))
        } else {
            None
        }
    }
}

} // verus!
