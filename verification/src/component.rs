//! Component values and their capability masks.

use vstd::prelude::*;

verus! {

/// A capability bitmask: one bit for each variant of a component type.
pub type ComponentMask = u32;

/// One piece of per-entity data, drawn from a closed set of variants that the
/// caller chooses.
pub trait Component {
    /// The bit of the variant that this value belongs to.
    fn get_mask(&self) -> ComponentMask;
}

/// The union of the given masks: the bits that at least one of them has.
pub open spec fn mask_union(masks: Seq<ComponentMask>) -> ComponentMask
    decreases masks.len(),
{
    if masks.len() == 0 {
        0
    } else {
        mask_union(masks.drop_last()) | masks.last()
    }
}

/// `masks` holds, one by one, what `get_mask` may return for `components`.
pub open spec fn masks_of<T: Component>(components: Seq<T>, masks: Seq<ComponentMask>) -> bool {
    &&& masks.len() == components.len()
    &&& forall|i: int|
        0 <= i < components.len() ==> call_ensures(
            T::get_mask,
            (&#[trigger] components[i],),
            masks[i],
        )
}

} // verus!
