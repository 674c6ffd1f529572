//! Policy engine: scores backend properties against allocation requirements.
use vstd::prelude::*;
use crate::memory::resource::{
    BandwidthClass, LatencyClass, MemoryProperties, PersistenceType,
};

verus! {

/// High-level placement preference.
#[derive(Debug, Clone, Copy, PartialEq, Eq, Structural)]
pub enum PlacementPolicy {
    Fastest,
    Largest,
    Persistent,
    Balanced,
}

/// Detailed allocation requirements.
///
/// The policy engine picks the backend whose properties best match these
/// requirements. Fields set to `None` are not constrained.
#[derive(Debug, Clone, Copy, PartialEq, Eq, Structural)]
pub struct AllocationRequirements {
    pub size: u64,
    pub align: u64,
    pub preferred_policy: PlacementPolicy,
    /// Maximum acceptable latency. `None` = don't care.
    pub max_latency_ns: Option<u32>,
    /// Minimum acceptable bandwidth. `None` = don't care.
    pub min_bandwidth_mb_s: Option<u64>,
    /// If `Some(true)`, only persistent backends qualify.
    pub require_persistence: Option<bool>,
}

impl AllocationRequirements {
    /// Requirements for `size` bytes, page aligned, balanced placement, no
    /// hard constraints.
    pub fn new(size: u64) -> (r: Self)
        ensures
            r == (AllocationRequirements {
                size,
                align: 4096,
                preferred_policy: PlacementPolicy::Balanced,
                max_latency_ns: None,
                min_bandwidth_mb_s: None,
                require_persistence: None,
            }),
    {
        AllocationRequirements {
            size,
            align: 4096,
            preferred_policy: PlacementPolicy::Balanced,
            max_latency_ns: None,
            min_bandwidth_mb_s: None,
            require_persistence: None,
        }
    }
}

// ---------------------------------------------------------------------------
// Scoring model
// ---------------------------------------------------------------------------

pub open spec fn latency_score(c: LatencyClass) -> int {
    match c {
        LatencyClass::Near => 100,
        LatencyClass::Main => 60,
        LatencyClass::Far => 20,
        LatencyClass::Storage => 0,
    }
}

pub open spec fn bandwidth_score(c: BandwidthClass) -> int {
    match c {
        BandwidthClass::Extreme => 100,
        BandwidthClass::High => 70,
        BandwidthClass::Medium => 40,
        BandwidthClass::Low => 10,
    }
}

/// Capacity score from whole GiB (at least one counted).
pub open spec fn capacity_score(capacity: usize) -> int {
    let gib = if capacity / 0x4000_0000 >= 1 { capacity / 0x4000_0000 } else { 1 };
    if gib >= 64 {
        100
    } else if gib >= 8 {
        80
    } else if gib >= 1 {
        50
    } else {
        10
    }
}

pub open spec fn persistence_score(p: PersistenceType) -> int {
    match p {
        PersistenceType::Persistent => 100,
        PersistenceType::Volatile => 0,
    }
}

/// Weights (latency, bandwidth, capacity, persistence) of each policy.
pub open spec fn policy_weights(p: PlacementPolicy) -> (int, int, int, int) {
    match p {
        PlacementPolicy::Fastest => (60, 25, 10, 5),
        PlacementPolicy::Largest => (10, 10, 70, 10),
        PlacementPolicy::Persistent => (10, 10, 20, 60),
        PlacementPolicy::Balanced => (30, 25, 25, 20),
    }
}

/// The hard constraints of `req` that `props` meets.
pub open spec fn meets_constraints(props: MemoryProperties, req: AllocationRequirements) -> bool {
    &&& (req.max_latency_ns matches Some(max_lat) ==> props.latency_ns <= max_lat)
    &&& (req.min_bandwidth_mb_s matches Some(min_bw) ==> props.bandwidth_mb_s >= min_bw)
    &&& (req.require_persistence == Some(true) ==> props.persistence
        == PersistenceType::Persistent)
    &&& props.capacity >= req.size as usize
}

/// Score in [0, 100] of a backend for the requirements: 0 when a hard
/// constraint is violated, else the policy-weighted sum of the dimension
/// scores divided by 100.
pub open spec fn spec_evaluate(props: MemoryProperties, req: AllocationRequirements) -> int {
    if !meets_constraints(props, req) {
        0
    } else {
        let (w0, w1, w2, w3) = policy_weights(req.preferred_policy);
        (latency_score(props.latency_class) * w0 + bandwidth_score(props.bandwidth_class) * w1
            + capacity_score(props.capacity) * w2 + persistence_score(props.persistence) * w3)
            / 100
    }
}

/// Scores are in the range 0..100 per dimension.
struct DimensionScores {
    latency: u32,
    bandwidth: u32,
    capacity: u32,
    persistence: u32,
}

fn score_dimensions(props: &MemoryProperties) -> (r: DimensionScores)
    ensures
        r.latency == latency_score(props.latency_class),
        r.bandwidth == bandwidth_score(props.bandwidth_class),
        r.capacity == capacity_score(props.capacity),
        r.persistence == persistence_score(props.persistence),
{
    let latency: u32 = match props.latency_class {
        LatencyClass::Near => 100,
        LatencyClass::Main => 60,
        LatencyClass::Far => 20,
        LatencyClass::Storage => 0,
    };
    let bandwidth: u32 = match props.bandwidth_class {
        BandwidthClass::Extreme => 100,
        BandwidthClass::High => 70,
        BandwidthClass::Medium => 40,
        BandwidthClass::Low => 10,
    };
    let g = props.capacity / 0x4000_0000;
    let gib = if g >= 1 { g } else { 1 };
    let capacity: u32 = if gib >= 64 {
        100
    } else if gib >= 8 {
        80
    } else if gib >= 1 {
        50
    } else {
        10
    };
    let persistence: u32 = match props.persistence {
        PersistenceType::Persistent => 100,
        PersistenceType::Volatile => 0,
    };
    DimensionScores { latency, bandwidth, capacity, persistence }
}

/// Weighted sum of dimension scores.
fn weighted_score(dim: &DimensionScores, w: &[u32; 4]) -> (r: u32)
    requires
        dim.latency <= 100,
        dim.bandwidth <= 100,
        dim.capacity <= 100,
        dim.persistence <= 100,
        w@[0] <= 100,
        w@[1] <= 100,
        w@[2] <= 100,
        w@[3] <= 100,
    ensures
        r == (dim.latency * w@[0] + dim.bandwidth * w@[1] + dim.capacity * w@[2] + dim.persistence
            * w@[3]) / 100,
        r <= w@[0] + w@[1] + w@[2] + w@[3],
{
    assert(dim.latency * w@[0] <= 100 * w@[0] && dim.bandwidth * w@[1] <= 100 * w@[1]
        && dim.capacity * w@[2] <= 100 * w@[2] && dim.persistence * w@[3] <= 100 * w@[3])
        by (nonlinear_arith)
        requires
            dim.latency <= 100,
            dim.bandwidth <= 100,
            dim.capacity <= 100,
            dim.persistence <= 100,
    ;
    assert(dim.latency * w@[0] <= 10000 && dim.bandwidth * w@[1] <= 10000 && dim.capacity * w@[2]
        <= 10000 && dim.persistence * w@[3] <= 10000) by (nonlinear_arith)
        requires
            dim.latency <= 100,
            dim.bandwidth <= 100,
            dim.capacity <= 100,
            dim.persistence <= 100,
            w@[0] <= 100,
            w@[1] <= 100,
            w@[2] <= 100,
            w@[3] <= 100,
    ;
    let a = dim.latency * w[0];
    let b = dim.bandwidth * w[1];
    let c = dim.capacity * w[2];
    let d = dim.persistence * w[3];
    (a + b + c + d) / 100
}

/// Compute a single [0..100] score for a backend given the requirements.
pub fn evaluate(props: &MemoryProperties, req: &AllocationRequirements) -> (r: u32)
    ensures
        r == spec_evaluate(*props, *req),
        r <= 100,
{
    // Hard filters: disqualify if constraints are violated.
    if let Some(max_lat) = req.max_latency_ns {
        if props.latency_ns > max_lat {
            return 0;
        }
    }
    if let Some(min_bw) = req.min_bandwidth_mb_s {
        if props.bandwidth_mb_s < min_bw {
            return 0;
        }
    }
    if let Some(true) = req.require_persistence {
        if props.persistence != PersistenceType::Persistent {
            return 0;
        }
    }
    if props.capacity < req.size as usize {
        return 0;
    }
    let dim = score_dimensions(props);
    let r = match req.preferred_policy {
        PlacementPolicy::Fastest => weighted_score(&dim, &[60, 25, 10, 5]),
        PlacementPolicy::Largest => weighted_score(&dim, &[10, 10, 70, 10]),
        PlacementPolicy::Persistent => weighted_score(&dim, &[10, 10, 20, 60]),
        PlacementPolicy::Balanced => weighted_score(&dim, &[30, 25, 25, 20]),
    };
    r
}

/// Index of the first backend with the highest positive score, if any.
pub open spec fn is_best_choice(backends: Seq<MemoryProperties>, req: AllocationRequirements, i: int) -> bool {
    &&& 0 <= i < backends.len()
    &&& spec_evaluate(backends[i], req) > 0
    &&& forall|k: int|
        0 <= k < backends.len() ==> spec_evaluate(#[trigger] backends[k], req) <= spec_evaluate(
            backends[i],
            req,
        )
    &&& forall|k: int|
        0 <= k < i ==> spec_evaluate(#[trigger] backends[k], req) < spec_evaluate(backends[i], req)
}

/// Evaluate the backends in order and return the index of the best match:
/// the first one with the highest score, never one that scores 0.
pub fn select_best(backends: &[MemoryProperties], req: &AllocationRequirements) -> (r: Option<usize>)
    ensures
        r matches Some(i) ==> is_best_choice(backends@, *req, i as int),
        r is None <==> forall|k: int|
            0 <= k < backends@.len() ==> spec_evaluate(#[trigger] backends@[k], *req) == 0,
{
    let mut best: Option<(usize, u32)> = None;
    let mut i: usize = 0;
    while i < backends.len()
        invariant
            0 <= i <= backends@.len(),
            best is None ==> forall|k: int|
                0 <= k < i ==> spec_evaluate(#[trigger] backends@[k], *req) == 0,
            best matches Some((b, s)) ==> {
                &&& b < i
                &&& s == spec_evaluate(backends@[b as int], *req)
                &&& s > 0
                &&& forall|k: int|
                    0 <= k < i ==> spec_evaluate(#[trigger] backends@[k], *req) <= s
                &&& forall|k: int|
                    0 <= k < b ==> spec_evaluate(#[trigger] backends@[k], *req) < s
            },
        decreases backends@.len() - i,
    {
        let score = evaluate(&backends[i], req);
        if score != 0 {
            let better = match best {
                None => true,
                Some((_, s)) => score > s,
            };
            if better {
                best = Some((i, score));
            }
        }
        i = i + 1;
    }
    match best {
        Some((b, _)) => Some(b),
        None => None,
    }
}

} // verus!
