//! Value types carried by gossip messages, and the delta encoding of sparse
//! index lists.

use vstd::prelude::*;

verus! {

/// Largest magnitude (in micro-units) a model parameter or an inbound tensor
/// value may have; the wire codec rejects anything larger, so blends never
/// overflow.
pub const VALUE_LIMIT: i64 = 1_000_000_000_000;

/// A geographic position in micro-degrees.
#[derive(Clone, Copy, Debug)]
pub struct GeoPoint {
    pub lat_micro: i64,
    pub lon_micro: i64,
}

impl GeoPoint {
    pub open spec fn wf(&self) -> bool {
        &&& -90_000_000 <= self.lat_micro <= 90_000_000
        &&& -180_000_000 <= self.lon_micro <= 180_000_000
    }

    /// A uniformly random position with latitude in [-60, 60) degrees and
    /// longitude in [-180, 180) degrees.
    pub fn random() -> (r: GeoPoint)
        ensures
            r.wf(),
            -60_000_000 <= r.lat_micro < 60_000_000,
            -180_000_000 <= r.lon_micro < 180_000_000,
    {
        GeoPoint {
            lat_micro: crate::rng::gen_range_i64(-60_000_000, 60_000_000),
            lon_micro: crate::rng::gen_range_i64(-180_000_000, 180_000_000),
        }
    }
}

/// A full copy of the parameter vector at some version.
#[derive(Clone, Debug)]
pub struct TensorSnapshot {
    pub dim: usize,
    pub values: Vec<i64>,
    pub version: u64,
}

impl TensorSnapshot {
    pub open spec fn wf(&self) -> bool {
        &&& self.dim == self.values@.len()
        &&& forall|i: int|
            0 <= i < self.values@.len() ==> -VALUE_LIMIT <= #[trigger] self.values@[i]
                <= VALUE_LIMIT
    }

    pub fn new(values: Vec<i64>, version: u64) -> (r: TensorSnapshot)
        ensures
            r.dim == values@.len(),
            r.values@ == values@,
            r.version == version,
    {
        let dim = values.len();
        TensorSnapshot { dim, values, version }
    }
}

/// The absolute index that position `i` of a delta-encoded index list stands
/// for: the running sum of the first `i + 1` deltas.
pub open spec fn spec_abs_index(diffs: Seq<u32>, i: int) -> int
    decreases i,
{
    if i < 0 {
        0
    } else if i == 0 {
        diffs[0] as int
    } else {
        spec_abs_index(diffs, i - 1) + diffs[i]
    }
}

/// The whole decoded index list.
pub open spec fn spec_decoded_indices(diffs: Seq<u32>) -> Seq<int> {
    Seq::new(diffs.len(), |i: int| spec_abs_index(diffs, i))
}

/// Decoded indices are strictly ascending exactly when every delta after the
/// first is positive.
pub open spec fn spec_deltas_ascending(diffs: Seq<u32>) -> bool {
    forall|i: int| 1 <= i < diffs.len() ==> #[trigger] diffs[i] >= 1
}

/// `spec_abs_index` reads only the first `i + 1` deltas.
pub proof fn lemma_abs_index_prefix(a: Seq<u32>, b: Seq<u32>, i: int)
    requires
        i < a.len(),
        i < b.len(),
        forall|j: int| 0 <= j <= i ==> a[j] == b[j],
    ensures
        spec_abs_index(a, i) == spec_abs_index(b, i),
    decreases i,
{
    if i >= 1 {
        lemma_abs_index_prefix(a, b, i - 1);
    }
}

/// Decoded indices never decrease along the list.
pub proof fn lemma_abs_index_nondecreasing(diffs: Seq<u32>, i: int, j: int)
    requires
        0 <= i <= j < diffs.len(),
    ensures
        spec_abs_index(diffs, i) <= spec_abs_index(diffs, j),
    decreases j - i,
{
    if i < j {
        lemma_abs_index_nondecreasing(diffs, i, j - 1);
    }
}

/// A compressed delta of the k largest-magnitude parameter deltas.
#[derive(Clone, Debug)]
pub struct SparseUpdate {
    pub indices: Vec<u32>,
    pub values: Vec<i64>,
    pub version: u64,
}

impl SparseUpdate {
    pub open spec fn wf(&self) -> bool {
        &&& self.indices@.len() == self.values@.len()
        &&& spec_deltas_ascending(self.indices@)
        &&& (self.indices@.len() > 0 ==> spec_abs_index(self.indices@, self.indices@.len() - 1)
            <= u32::MAX)
        &&& forall|i: int|
            0 <= i < self.values@.len() ==> -VALUE_LIMIT <= #[trigger] self.values@[i]
                <= VALUE_LIMIT
    }
}

/// Decodes a delta-encoded index list: the first element is an absolute index,
/// each later element the distance from the previous index.
pub fn decompress_indices(compressed: &[u32]) -> (out: Vec<usize>)
    requires
        forall|i: int|
            0 <= i < compressed@.len() ==> spec_abs_index(compressed@, i) <= usize::MAX,
    ensures
        out@.len() == compressed@.len(),
        forall|i: int| 0 <= i < out@.len() ==> out@[i] == spec_abs_index(compressed@, i),
{
    let n = compressed.len();
    let mut out: Vec<usize> = Vec::new();
    let mut last: usize = 0;
    for idx in 0..n
        invariant
            n == compressed@.len(),
            out@.len() == idx,
            last == spec_abs_index(compressed@, idx - 1),
            forall|i: int| 0 <= i < idx ==> out@[i] == spec_abs_index(compressed@, i),
            forall|i: int|
                0 <= i < compressed@.len() ==> spec_abs_index(compressed@, i) <= usize::MAX,
    {
        proof {
            assert(spec_abs_index(compressed@, idx as int) <= usize::MAX);
        }
        let next = last + (compressed[idx] as usize);
        out.push(next);
        last = next;
    }
    out
}

/// Delta-encodes a strictly ascending index list. Its `ensures` is the
/// round-trip law: decoding the result gives back exactly the input.
pub fn compress_indices(indices: &Vec<usize>) -> (out: Vec<u32>)
    requires
        forall|i: int, j: int| 0 <= i < j < indices@.len() ==> indices@[i] < indices@[j],
        forall|i: int| 0 <= i < indices@.len() ==> #[trigger] indices@[i] <= u32::MAX,
    ensures
        out@.len() == indices@.len(),
        forall|i: int| 0 <= i < out@.len() ==> spec_abs_index(out@, i) == indices@[i],
        spec_deltas_ascending(out@),
{
    let n = indices.len();
    let mut out: Vec<u32> = Vec::new();
    let mut last: usize = 0;
    for idx in 0..n
        invariant
            n == indices@.len(),
            out@.len() == idx,
            idx > 0 ==> last == indices@[idx - 1],
            idx == 0 ==> last == 0,
            forall|i: int| 0 <= i < idx ==> spec_abs_index(out@, i) == indices@[i],
            spec_deltas_ascending(out@),
            forall|i: int, j: int| 0 <= i < j < indices@.len() ==> indices@[i] < indices@[j],
            forall|i: int| 0 <= i < indices@.len() ==> #[trigger] indices@[i] <= u32::MAX,
    {
        let here = indices[idx];
        proof {
            if idx > 0 {
                assert(indices@[idx - 1] < indices@[idx as int]);
            }
        }
        let diff: u32 = if idx == 0 {
            here as u32
        } else {
            (here - last) as u32
        };
        let ghost old_out = out@;
        out.push(diff);
        proof {
            assert forall|i: int| 0 <= i < idx implies spec_abs_index(out@, i) == indices@[i] by {
                lemma_abs_index_prefix(old_out, out@, i);
            }
            if idx > 0 {
                assert(spec_abs_index(out@, idx - 1) == indices@[idx - 1]);
                assert(spec_abs_index(out@, idx as int) == spec_abs_index(out@, idx - 1)
                    + out@[idx as int]);
            }
            assert(spec_abs_index(out@, idx as int) == indices@[idx as int]);
        }
        last = here;
    }
    out
}

/// One gossip payload.
#[derive(Clone, Debug)]
pub enum GgsMessage {
    Heartbeat { peer: String, model_hash: String },
    SparseUpdate { update: SparseUpdate, sender: String },
    DenseSnapshot { snapshot: TensorSnapshot, sender: String },
    SimilarityProbe { embedding: Vec<i64>, position: GeoPoint, sender: String },
}

impl GgsMessage {
    pub open spec fn wf(&self) -> bool {
        match self {
            GgsMessage::Heartbeat { .. } => true,
            GgsMessage::SparseUpdate { update, .. } => update.wf(),
            GgsMessage::DenseSnapshot { snapshot, .. } => snapshot.wf(),
            GgsMessage::SimilarityProbe { embedding, position, .. } => {
                &&& position.wf()
                &&& forall|i: int|
                    0 <= i < embedding@.len() ==> -VALUE_LIMIT <= #[trigger] embedding@[i]
                        <= VALUE_LIMIT
            },
        }
    }

    /// The peer id embedded in the payload: the heartbeat's subject, or the
    /// sender of every other variant.
    pub open spec fn spec_peer(&self) -> Seq<char> {
        match self {
            GgsMessage::Heartbeat { peer, .. } => peer@,
            GgsMessage::SparseUpdate { sender, .. } => sender@,
            GgsMessage::DenseSnapshot { sender, .. } => sender@,
            GgsMessage::SimilarityProbe { sender, .. } => sender@,
        }
    }

    /// The peer id embedded in the payload.
    pub fn peer_id(&self) -> (r: &String)
        ensures
            r@ == self.spec_peer(),
    {
        match self {
            GgsMessage::Heartbeat { peer, .. } => peer,
            GgsMessage::SparseUpdate { sender, .. } => sender,
            GgsMessage::DenseSnapshot { sender, .. } => sender,
            GgsMessage::SimilarityProbe { sender, .. } => sender,
        }
    }
}

} // verus!
