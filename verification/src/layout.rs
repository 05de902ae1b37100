//! How a store lays its entities out: one flat array of components and a
//! table of offsets into it, and what creation, removal and writing in place
//! do to the two.

use vstd::prelude::*;

verus! {

/// The offset table fits a flat array of `total` components: the offsets start
/// at 0, never decrease and stay within the array, and without entities the
/// array is empty.
pub open spec fn layout_ok(total: int, offsets: Seq<int>) -> bool {
    &&& offsets.len() == 0 ==> total == 0
    &&& offsets.len() > 0 ==> offsets[0] == 0
    &&& forall|i: int, j: int| 0 <= i <= j < offsets.len() ==> offsets[i] <= offsets[j]
    &&& forall|i: int| 0 <= i < offsets.len() ==> #[trigger] offsets[i] <= total
}

/// Where the run of entity `index` ends: at the next entity's offset, or at
/// the end of the array for the last entity.
pub open spec fn entity_end(total: int, offsets: Seq<int>, index: int) -> int {
    if index + 1 < offsets.len() {
        offsets[index + 1]
    } else {
        total
    }
}

/// The entities that a flat array and its offset table stand for.
pub open spec fn entities_of<T>(components: Seq<T>, offsets: Seq<int>) -> Seq<Seq<T>> {
    Seq::new(
        offsets.len(),
        |i: int| components.subrange(offsets[i], entity_end(components.len() as int, offsets, i)),
    )
}

/// The flat array with the run from `begin` to `end` replaced by `content`.
pub open spec fn splice<T>(components: Seq<T>, begin: int, end: int, content: Seq<T>) -> Seq<T> {
    components.subrange(0, begin) + content + components.subrange(end, components.len() as int)
}

/// Overwriting the run of one entity in the flat array, without changing its
/// length, changes that entity and no other.
pub proof fn lemma_replace_in_place<T>(components: Seq<T>, offsets: Seq<int>, index: int)
    requires
        layout_ok(components.len() as int, offsets),
        0 <= index < offsets.len(),
    ensures
        forall|content: Seq<T>|
            content.len() == entity_end(components.len() as int, offsets, index) - offsets[index]
                ==> ({
                let after = #[trigger] splice(
                    components,
                    offsets[index],
                    entity_end(components.len() as int, offsets, index),
                    content,
                );
                &&& after.len() == components.len()
                &&& entities_of(after, offsets) == entities_of(components, offsets).update(
                    index,
                    content,
                )
            }),
{
    let total = components.len() as int;
    let begin = offsets[index];
    let end = entity_end(total, offsets, index);
    assert forall|content: Seq<T>| content.len() == end - begin implies ({
        let after = #[trigger] splice(components, begin, end, content);
        &&& after.len() == components.len()
        &&& entities_of(after, offsets) == entities_of(components, offsets).update(index, content)
    }) by {
        // Entity by entity: the runs before and behind `index` lie outside the
        // replaced part, and the run of `index` is the replaced part.
        let after = splice(components, begin, end, content);
        assert forall|i: int| 0 <= i < offsets.len() implies #[trigger] entities_of(
            after,
            offsets,
        )[i] == entities_of(components, offsets).update(index, content)[i] by {}
        assert(entities_of(after, offsets) =~= entities_of(components, offsets).update(
            index,
            content,
        ));
    }
}

/// The entities before entity `count` take up the flat array up to where
/// entity `count` begins.
proof fn lemma_layout_prefix<T>(components: Seq<T>, offsets: Seq<int>, count: int)
    requires
        layout_ok(components.len() as int, offsets),
        0 <= count <= offsets.len(),
    ensures
        crate::model::total_len(entities_of(components, offsets).take(count)) == (if count
            < offsets.len() {
            offsets[count]
        } else {
            components.len() as int
        }),
    decreases count,
{
    let entities = entities_of(components, offsets);
    if count > 0 {
        lemma_layout_prefix(components, offsets, count - 1);
        assert(entities.take(count).drop_last() =~= entities.take(count - 1));
    }
}

/// The entities before entity `count`, one after the other, are the flat
/// array up to where entity `count` begins.
proof fn lemma_layout_flat_prefix<T>(components: Seq<T>, offsets: Seq<int>, count: int)
    requires
        layout_ok(components.len() as int, offsets),
        0 <= count <= offsets.len(),
    ensures
        entities_of(components, offsets).take(count).flatten() == components.subrange(
            0,
            (if count < offsets.len() {
                offsets[count]
            } else {
                components.len() as int
            }),
        ),
    decreases count,
{
    let entities = entities_of(components, offsets);
    let total = components.len() as int;
    if count > 0 {
        lemma_layout_flat_prefix(components, offsets, count - 1);
        let begin = offsets[count - 1];
        let end = entity_end(total, offsets, count - 1);
        assert(begin <= end <= total);
        assert(entities.take(count) =~= entities.take(count - 1).push(entities[count - 1]));
        entities.take(count - 1).lemma_flatten_push(entities[count - 1]);
        assert(components.subrange(0, begin) + components.subrange(begin, end)
            =~= components.subrange(0, end));
    }
}

/// The entities of a well-formed layout, one after the other, are the flat
/// array: every component belongs to exactly one entity.
pub proof fn lemma_layout_flat<T>(components: Seq<T>, offsets: Seq<int>)
    requires
        layout_ok(components.len() as int, offsets),
    ensures
        entities_of(components, offsets).flatten() == components,
{
    let entities = entities_of(components, offsets);
    lemma_layout_flat_prefix(components, offsets, offsets.len() as int);
    assert(entities.take(offsets.len() as int) =~= entities);
}

/// The entities of a well-formed layout take up the whole flat array.
pub proof fn lemma_layout_total<T>(components: Seq<T>, offsets: Seq<int>)
    requires
        layout_ok(components.len() as int, offsets),
    ensures
        crate::model::total_len(entities_of(components, offsets)) == components.len(),
{
    let entities = entities_of(components, offsets);
    lemma_layout_prefix(components, offsets, offsets.len() as int);
    assert(entities.take(offsets.len() as int) =~= entities);
}

/// The offset table after entity `index` is gone: the offsets above it move
/// down by one place and shrink by the length of the removed run.
pub open spec fn offsets_without(total: int, offsets: Seq<int>, index: int) -> Seq<int> {
    let removed = entity_end(total, offsets, index) - offsets[index];
    Seq::new(
        (offsets.len() - 1) as nat,
        |j: int|
            if j < index {
                offsets[j]
            } else {
                offsets[j + 1] - removed
            },
    )
}

/// Appending a run to the flat array and its start to the offset table appends
/// one entity and leaves the others alone.
pub proof fn lemma_append_entity<T>(components: Seq<T>, offsets: Seq<int>, added: Seq<T>)
    requires
        layout_ok(components.len() as int, offsets),
    ensures
        layout_ok((components + added).len() as int, offsets.push(components.len() as int)),
        entities_of(components + added, offsets.push(components.len() as int)) == entities_of(
            components,
            offsets,
        ).push(added),
{
    // Entity by entity: the runs that were there lie before the appended part,
    // and the run of the new entity is the appended part.
    let after = components + added;
    let table = offsets.push(components.len() as int);
    assert forall|i: int| 0 <= i < table.len() implies #[trigger] entities_of(after, table)[i]
        == entities_of(components, offsets).push(added)[i] by {}
}

/// Cutting the run of entity `index` out of the flat array and adjusting the
/// offset table removes that entity and leaves the others alone.
pub proof fn lemma_remove_entity<T>(components: Seq<T>, offsets: Seq<int>, index: int)
    requires
        layout_ok(components.len() as int, offsets),
        0 <= index < offsets.len(),
    ensures
        ({
            let total = components.len() as int;
            let begin = offsets[index];
            let end = entity_end(total, offsets, index);
            let after = components.subrange(0, begin) + components.subrange(end, total);
            let table = offsets_without(total, offsets, index);
            &&& 0 <= begin <= end <= total
            &&& layout_ok(after.len() as int, table)
            &&& entities_of(after, table) == entities_of(components, offsets).remove(index)
        }),
{
    let total = components.len() as int;
    let begin = offsets[index];
    let end = entity_end(total, offsets, index);
    let after = components.subrange(0, begin) + components.subrange(end, total);
    let table = offsets_without(total, offsets, index);
    // The new table is in order and within the shorter array.
    assert forall|i: int, j: int| 0 <= i <= j < table.len() implies table[i] <= table[j] by {}
    assert forall|i: int| 0 <= i < table.len() implies #[trigger] table[i] <= after.len() by {}
    // Entity by entity: the runs before `index` lie before the cut, and the
    // runs behind it have moved down by its length.
    assert forall|i: int| 0 <= i < table.len() implies #[trigger] entities_of(after, table)[i]
        == entities_of(components, offsets).remove(index)[i] by {
        if i >= index {
            assert(offsets[i + 1] <= entity_end(total, offsets, i + 1) <= total);
        }
    }
}

} // verus!
