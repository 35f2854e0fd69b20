//! The choice of the physical device that renders: what the choice reads of each device, and
//! the choice.

use vstd::prelude::*;

verus! {

/// The kind of a physical device.
#[derive(Debug, Copy, Clone, Eq, PartialEq, Structural)]
pub enum DeviceKind {
    DiscreteGpu,
    IntegratedGpu,
    VirtualGpu,
    Cpu,
    Other,
}

/// A queue family of a physical device: whether it does graphics, and whether it can present to
/// the surface of the window.
#[derive(Debug, Copy, Clone, Eq, PartialEq, Structural)]
pub struct QueueFamily {
    pub graphics: bool,
    pub presents: bool,
}

/// What the choice reads of a physical device: whether it has the swapchain extension, its queue
/// families in order, and its kind.
#[derive(Debug, Clone)]
pub struct DeviceCandidate {
    pub swapchain: bool,
    pub queue_families: Vec<QueueFamily>,
    pub kind: DeviceKind,
}

/// The rank of a kind of device: discrete GPUs first, then integrated GPUs, virtual GPUs, CPUs
/// and the others.
pub open spec fn kind_rank(kind: DeviceKind) -> nat {
    match kind {
        DeviceKind::DiscreteGpu => 0,
        DeviceKind::IntegratedGpu => 1,
        DeviceKind::VirtualGpu => 2,
        DeviceKind::Cpu => 3,
        DeviceKind::Other => 4,
    }
}

/// The first queue family, from index `i` on, that does graphics and presents.
pub open spec fn first_family(families: Seq<QueueFamily>, i: int) -> Option<int>
    decreases families.len() - i,
{
    if i >= families.len() || i < 0 {
        None
    } else if families[i].graphics && families[i].presents {
        Some(i)
    } else {
        first_family(families, i + 1)
    }
}

/// The device can render: it has the swapchain extension and a queue family that does graphics
/// and presents.
pub open spec fn usable(c: DeviceCandidate) -> bool {
    c.swapchain && first_family(c.queue_families@, 0) is Some
}

/// The rank of the kind of a device (see [`kind_rank`]).
fn rank_of_kind(kind: DeviceKind) -> (r: u8)
    ensures
        r == kind_rank(kind),
{
    match kind {
        DeviceKind::DiscreteGpu => 0,
        DeviceKind::IntegratedGpu => 1,
        DeviceKind::VirtualGpu => 2,
        DeviceKind::Cpu => 3,
        DeviceKind::Other => 4,
    }
}

/// The first queue family that does graphics and presents.
fn find_family(families: &Vec<QueueFamily>) -> (r: Option<usize>)
    ensures
        match first_family(families@, 0) {
            None => r is None,
            Some(q) => r == Some(q as usize),
        },
{
    let mut i: usize = 0;
    while i < families.len()
        invariant
            i <= families@.len(),
            first_family(families@, 0) == first_family(families@, i as int),
        decreases families@.len() - i,
    {
        if families[i].graphics && families[i].presents {
            return Some(i);
        }
        i = i + 1;
    }
    None
}

/// Chooses the device that renders: among the usable devices (see [`usable`]), the first of
/// those whose kind has the best rank (see [`kind_rank`]), with its first queue family that does
/// graphics and presents (its index as a `u32`). `None` when no device is usable.
pub fn choose_device(candidates: &Vec<DeviceCandidate>) -> (r: Option<(usize, u32)>)
    ensures
        r is None <==> forall|j: int| 0 <= j < candidates@.len() ==> !usable(#[trigger] candidates@[j]),
        r matches Some((i, q)) ==> {
            &&& i < candidates@.len()
            &&& usable(candidates@[i as int])
            &&& q == ((first_family(candidates@[i as int].queue_families@, 0)->0) as usize) as u32
            &&& forall|j: int|
                0 <= j < candidates@.len() && usable(#[trigger] candidates@[j]) ==> kind_rank(candidates@[i as int].kind)
                    <= kind_rank(candidates@[j].kind)
            &&& forall|j: int|
                0 <= j < i && usable(#[trigger] candidates@[j]) ==> kind_rank(candidates@[i as int].kind) < kind_rank(
                    candidates@[j].kind,
                )
        },
{
    let mut best: Option<(usize, u32)> = None;
    let mut best_rank: u8 = 0;
    for k in 0..candidates.len()
        invariant
            best is None <==> forall|j: int| 0 <= j < k ==> !usable(#[trigger] candidates@[j]),
            best matches Some((i, q)) ==> {
                &&& i < k
                &&& usable(candidates@[i as int])
                &&& q == ((first_family(candidates@[i as int].queue_families@, 0)->0) as usize) as u32
                &&& best_rank == kind_rank(candidates@[i as int].kind)
                &&& forall|j: int|
                    0 <= j < k && usable(#[trigger] candidates@[j]) ==> kind_rank(candidates@[i as int].kind)
                        <= kind_rank(candidates@[j].kind)
                &&& forall|j: int|
                    0 <= j < i && usable(#[trigger] candidates@[j]) ==> kind_rank(candidates@[i as int].kind) < kind_rank(
                        candidates@[j].kind,
                    )
            },
    {
        let c = &candidates[k];
        assert(*c == candidates@[k as int]);
        if c.swapchain {
            if let Some(q) = find_family(&c.queue_families) {
                let rank = rank_of_kind(c.kind);
                assert(usable(candidates@[k as int]));
                let better = match best {
                    None => true,
                    Some(_) => rank < best_rank,
                };
                if better {
                    let ghost old_best = best;
                    best = Some((k, q as u32));
                    best_rank = rank;
                    proof {
                        assert forall|j: int|
                            0 <= j < k + 1 && usable(#[trigger] candidates@[j]) implies kind_rank(candidates@[k as int].kind)
                            <= kind_rank(candidates@[j].kind) by {
                            if j < k {
                                assert(old_best is Some);
                            }
                        }
                        assert forall|j: int|
                            0 <= j < k && usable(#[trigger] candidates@[j]) implies kind_rank(candidates@[k as int].kind)
                            < kind_rank(candidates@[j].kind) by {
                            assert(old_best is Some);
                        }
                    }
                }
            } else {
                assert(!usable(candidates@[k as int]));
            }
        } else {
            assert(!usable(candidates@[k as int]));
        }
    }
    best
}

} // verus!
