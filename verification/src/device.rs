//! The decision logic of the Vulkan-style backend's device selection:
//! which queue family a render is dispatched on.

use vstd::prelude::*;

verus! {

/// What the selection reads of one queue family: whether it advertises
/// compute and transfer capability, and how many queues it offers.
#[derive(Clone, Copy, Debug, PartialEq, Eq, Structural)]
pub struct QueueFamilyInfo {
    /// The family advertises compute capability.
    pub compute: bool,
    /// The family advertises transfer capability.
    pub transfer: bool,
    /// Number of queues the family offers.
    pub queue_count: u32,
}

/// A family can run the dispatch when it advertises both compute and
/// transfer capability.
pub open spec fn usable_family(f: QueueFamilyInfo) -> bool {
    f.compute && f.transfer
}

/// Picks the queue family for the compute dispatch: the earliest usable
/// family with the greatest queue count, provided some usable family
/// offers a queue at all; `None` otherwise.
pub fn pick_queue_family(families: &Vec<QueueFamilyInfo>) -> (r: Option<usize>)
    ensures
        match r {
            Some(i) => {
                &&& i < families@.len()
                &&& usable_family(families@[i as int])
                &&& families@[i as int].queue_count > 0
                &&& forall|j: int|
                    0 <= j < families@.len() && usable_family(#[trigger] families@[j])
                        ==> families@[j].queue_count <= families@[i as int].queue_count
                &&& forall|j: int|
                    0 <= j < i && usable_family(#[trigger] families@[j])
                        ==> families@[j].queue_count < families@[i as int].queue_count
            },
            None => forall|j: int|
                0 <= j < families@.len() && usable_family(#[trigger] families@[j])
                    ==> families@[j].queue_count == 0,
        },
{
    let mut best: Option<usize> = None;
    let mut max_queue_count: u32 = 0;
    let mut idx: usize = 0;
    while idx < families.len()
        invariant
            idx <= families@.len(),
            best is None ==> (max_queue_count == 0 && forall|j: int|
                0 <= j < idx && usable_family(#[trigger] families@[j]) ==> families@[j].queue_count
                    == 0),
            best is Some ==> ({
                let i = best->Some_0 as int;
                &&& i < idx
                &&& usable_family(families@[i])
                &&& families@[i].queue_count == max_queue_count
                &&& max_queue_count > 0
                &&& forall|j: int|
                    0 <= j < idx && usable_family(#[trigger] families@[j])
                        ==> families@[j].queue_count <= max_queue_count
                &&& forall|j: int|
                    0 <= j < i && usable_family(#[trigger] families@[j])
                        ==> families@[j].queue_count < max_queue_count
            }),
        decreases families@.len() - idx,
    {
        let f = families[idx];
        if f.compute && f.transfer && f.queue_count > max_queue_count {
            max_queue_count = f.queue_count;
            best = Some(idx);
        }
        idx = idx + 1;
    }
    best
}

} // verus!
