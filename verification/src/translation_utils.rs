//! Helpers for the code that translates resume instructions.

use vstd::prelude::*;

verus! {

/// Whether `max` is the greatest number of parameters among `tags`, where
/// `tag_param_counts` holds the number of parameters of each tag of the
/// module.
pub open spec fn is_max_num_tag_payloads(
    tags: Seq<u32>,
    tag_param_counts: Seq<usize>,
    max: usize,
) -> bool {
    &&& forall|i: int| 0 <= i < tags.len() ==> tag_param_counts[#[trigger] tags[i] as int] <= max
    &&& exists|i: int| 0 <= i < tags.len() && tag_param_counts[#[trigger] tags[i] as int] == max
}

/// The greatest number of values that a suspension to one of `tags` may
/// supply: the greatest number of parameters among the tags.
pub fn resumetable_max_num_tag_payloads(tags: &[u32], tag_param_counts: &[usize]) -> (max: usize)
    requires
        tags@.len() > 0,
        forall|i: int| 0 <= i < tags@.len() ==> (#[trigger] tags@[i] as int) < tag_param_counts@.len(),
    ensures
        is_max_num_tag_payloads(tags@, tag_param_counts@, max),
{
    let mut max: usize = tag_param_counts[tags[0] as usize];
    let mut index: usize = 1;
    while index < tags.len()
        invariant
            1 <= index <= tags@.len(),
            forall|i: int|
                0 <= i < tags@.len() ==> (#[trigger] tags@[i] as int) < tag_param_counts@.len(),
            forall|i: int| 0 <= i < index ==> tag_param_counts@[#[trigger] tags@[i] as int] <= max,
            exists|i: int| 0 <= i < index && tag_param_counts@[#[trigger] tags@[i] as int] == max,
        decreases tags@.len() - index,
    {
        let count: usize = tag_param_counts[tags[index] as usize];
        if count > max {
            max = count;
        }
        index = index + 1;
    }
    max
}

} // verus!
