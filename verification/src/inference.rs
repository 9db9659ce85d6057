//! The model store: top-k sparse delta extraction with error-feedback
//! residuals, sparse and dense blending, and noise-injection training steps.

use vstd::prelude::*;
use crate::types::{SparseUpdate, TensorSnapshot, VALUE_LIMIT};
use crate::types::{spec_abs_index, spec_decoded_indices, spec_deltas_ascending};

verus! {

/// Largest magnitude (in micro-units) the error-feedback residual may reach;
/// updates clip at this bound instead of overflowing.
pub const RESIDUAL_LIMIT: i64 = 1_000_000_000_000_000;

/// `x` clipped into [-lim, lim].
pub open spec fn spec_clamp(x: int, lim: int) -> int {
    if x > lim {
        lim
    } else if x < -lim {
        -lim
    } else {
        x
    }
}

/// Magnitude of `x`.
pub open spec fn spec_mag(x: int) -> int {
    if x < 0 {
        -x
    } else {
        x
    }
}

/// Division rounding toward zero, as the machine divides signed integers.
pub open spec fn spec_div_trunc(x: int, d: int) -> int
    recommends
        d > 0,
{
    if x >= 0 {
        x / d
    } else {
        -((-x) / d)
    }
}

/// The equal-weight blend a sparse entry applies: (old + v) / 2.
pub open spec fn spec_merge_sparse(o: int, v: int) -> int {
    spec_div_trunc(o + v, 2)
}

/// The 80/20 blend a dense snapshot applies: (4·old + v) / 5.
pub open spec fn spec_blend_dense(o: int, v: int) -> int {
    spec_div_trunc(4 * o + v, 5)
}

/// The version counter after a bump; it saturates instead of wrapping.
pub open spec fn spec_next_version(v: u64) -> u64 {
    if v == u64::MAX {
        v
    } else {
        (v + 1) as u64
    }
}

/// What one applied sparse entry leaves at position `pos`: the parameter at
/// the midpoint of its old value and `v`, and the displaced half carried into
/// the residual, clipped at the residual bound.
pub open spec fn spec_sparse_applied(
    gp: Seq<i64>,
    gr: Seq<i64>,
    params: Seq<i64>,
    residual: Seq<i64>,
    pos: int,
    v: int,
) -> bool {
    &&& params[pos] as int == spec_merge_sparse(gp[pos] as int, v)
    &&& residual[pos] as int == spec_clamp(
        gr[pos] + gp[pos] - spec_merge_sparse(gp[pos] as int, v),
        RESIDUAL_LIMIT as int,
    )
}

/// Whether some position before `bound` in `s` holds value `v`.
pub open spec fn spec_in_prefix(s: Seq<int>, bound: int, v: int) -> bool {
    exists|k: int| 0 <= k < bound && s[k] == v
}

/// The pending delta at position `i`: parameter plus carried residual.
pub open spec fn spec_delta(params: Seq<i64>, residual: Seq<i64>, i: int) -> int {
    params[i] + residual[i]
}

/// `best` is the position of the largest-magnitude delta among [lo, len),
/// with ties broken toward the smallest index.
pub open spec fn spec_best_in_range(params: Seq<i64>, residual: Seq<i64>, lo: int, best: int) -> bool {
    &&& lo <= best < params.len()
    &&& forall|j: int|
        lo <= j < params.len() ==> spec_mag(spec_delta(params, residual, j)) < spec_mag(
            spec_delta(params, residual, best),
        ) || (spec_mag(spec_delta(params, residual, j)) == spec_mag(
            spec_delta(params, residual, best),
        ) && best <= j)
}

/// `x` clipped into [-lim, lim].
pub fn clamp_i64(x: i64, lim: i64) -> (r: i64)
    requires
        lim >= 0,
    ensures
        r as int == spec_clamp(x as int, lim as int),
{
    if x > lim {
        lim
    } else if x < -lim {
        -lim
    } else {
        x
    }
}

/// Divides by two rounding toward zero.
fn half_trunc(x: i64) -> (r: i64)
    requires
        x > i64::MIN,
    ensures
        r as int == spec_div_trunc(x as int, 2),
{
    if x >= 0 {
        (((x as u64) / 2) as i64)
    } else {
        -((((-x) as u64) / 2) as i64)
    }
}

/// Divides by five rounding toward zero.
fn fifth_trunc(x: i64) -> (r: i64)
    requires
        x > i64::MIN,
    ensures
        r as int == spec_div_trunc(x as int, 5),
{
    if x >= 0 {
        (((x as u64) / 5) as i64)
    } else {
        -((((-x) as u64) / 5) as i64)
    }
}

/// What applying a whole sparse update leaves behind: every in-range decoded
/// position blended and its displaced half carried into the residual, every
/// other position untouched, and the version raised to the update's if that
/// is higher.
pub open spec fn spec_sparse_blended(o: InferenceEngine, n: InferenceEngine, u: SparseUpdate) -> bool {
    &&& n.params@.len() == o.params@.len()
    &&& n.version == if u.version > o.version {
        u.version
    } else {
        o.version
    }
    &&& forall|t: int|
        0 <= t < u.indices@.len() && spec_abs_index(u.indices@, t) < o.params@.len()
            ==> spec_sparse_applied(
            o.params@,
            o.residual@,
            n.params@,
            n.residual@,
            #[trigger] spec_abs_index(u.indices@, t),
            u.values@[t] as int,
        )
    &&& forall|i: int|
        0 <= i < o.params@.len() && !spec_decoded_indices(u.indices@).contains(i)
            ==> n.params@[i] == o.params@[i] && n.residual@[i] == o.residual@[i]
}

/// What blending a dense snapshot leaves behind: the 80/20 blend over the
/// shared prefix, everything else untouched, and the version raised to the
/// snapshot's if that is higher.
pub open spec fn spec_dense_blended(o: InferenceEngine, n: InferenceEngine, s: TensorSnapshot) -> bool {
    &&& n.params@.len() == o.params@.len()
    &&& n.residual@ == o.residual@
    &&& n.version == if s.version > o.version {
        s.version
    } else {
        o.version
    }
    &&& forall|i: int|
        0 <= i < o.params@.len() && i < s.values@.len() ==> #[trigger] n.params@[i] as int
            == spec_blend_dense(o.params@[i] as int, s.values@[i] as int)
    &&& forall|i: int|
        s.values@.len() <= i < o.params@.len() ==> #[trigger] n.params@[i] == o.params@[i]
}

#[derive(Clone, Debug)]
pub struct InferenceConfig {
    pub model_dim: usize,
}

impl InferenceConfig {
    /// The stock model size.
    pub fn default_config() -> (r: InferenceConfig)
        ensures
            r.model_dim == 256,
    {
        InferenceConfig { model_dim: 256 }
    }
}

impl Default for InferenceConfig {
    /// The stock model size (see `default_config`).
    fn default() -> (r: InferenceConfig)
        ensures
            r.model_dim == 256,
    {
        InferenceConfig::default_config()
    }
}

/// The local model: parameters, error-feedback residuals and a version
/// counter. The version never decreases.
pub struct InferenceEngine {
    pub params: Vec<i64>,
    pub residual: Vec<i64>,
    pub version: u64,
}

impl InferenceEngine {
    pub open spec fn wf(&self) -> bool {
        &&& self.params@.len() == self.residual@.len()
        &&& self.params@.len() <= u32::MAX
        &&& forall|i: int|
            0 <= i < self.params@.len() ==> -VALUE_LIMIT <= #[trigger] self.params@[i]
                <= VALUE_LIMIT
        &&& forall|i: int|
            0 <= i < self.residual@.len() ==> -RESIDUAL_LIMIT <= #[trigger] self.residual@[i]
                <= RESIDUAL_LIMIT
    }

    /// A fresh model of `config.model_dim` random parameters in
    /// [-0.1, 0.1) units, zero residuals, version 1.
    #[verifier::loop_isolation(false)]
    pub fn new(config: InferenceConfig) -> (r: InferenceEngine)
        requires
            config.model_dim <= u32::MAX,
        ensures
            r.wf(),
            r.params@.len() == config.model_dim,
            r.version == 1,
            forall|i: int|
                0 <= i < r.params@.len() ==> -100_000 <= #[trigger] r.params@[i] < 100_000,
            forall|i: int| 0 <= i < r.residual@.len() ==> r.residual@[i] == 0,
    {
        let dim = config.model_dim;
        let mut params: Vec<i64> = Vec::new();
        let mut residual: Vec<i64> = Vec::new();
        for i in 0..dim
            invariant
                params@.len() == i,
                residual@.len() == i,
                forall|j: int| 0 <= j < i ==> -100_000 <= #[trigger] params@[j] < 100_000,
                forall|j: int| 0 <= j < i ==> residual@[j] == 0,
        {
            params.push(crate::rng::gen_range_i64(-100_000, 100_000));
            residual.push(0);
        }
        InferenceEngine { params, residual, version: 1 }
    }

    /// A model over the given parameters (for instance ones loaded from a
    /// weights file), zero residuals, version 1.
    #[verifier::loop_isolation(false)]
    pub fn with_params(params: Vec<i64>) -> (r: InferenceEngine)
        requires
            params@.len() <= u32::MAX,
            forall|i: int|
                0 <= i < params@.len() ==> -VALUE_LIMIT <= #[trigger] params@[i] <= VALUE_LIMIT,
        ensures
            r.wf(),
            r.params@ == params@,
            r.version == 1,
            forall|i: int| 0 <= i < r.residual@.len() ==> r.residual@[i] == 0,
    {
        let n = params.len();
        let mut residual: Vec<i64> = Vec::new();
        for i in 0..n
            invariant
                residual@.len() == i,
                forall|j: int| 0 <= j < i ==> residual@[j] == 0,
        {
            residual.push(0);
        }
        InferenceEngine { params, residual, version: 1 }
    }

    pub fn model_dim(&self) -> (r: usize)
        ensures
            r == self.params@.len(),
    {
        self.params.len()
    }

    pub fn version(&self) -> (r: u64)
        ensures
            r == self.version,
    {
        self.version
    }

    /// A copy of the current parameters, used as this node's embedding.
    #[verifier::loop_isolation(false)]
    pub fn embedding(&self) -> (r: Vec<i64>)
        ensures
            r@ == self.params@,
    {
        let n = self.params.len();
        let mut out: Vec<i64> = Vec::new();
        for i in 0..n
            invariant
                n == self.params@.len(),
                out@.len() == i,
                forall|j: int| 0 <= j < i ==> out@[j] == self.params@[j],
        {
            out.push(self.params[i]);
        }
        proof {
            assert(out@ =~= self.params@);
        }
        out
    }

    /// A copy of the residual vector.
    #[verifier::loop_isolation(false)]
    pub fn residual_snapshot(&self) -> (r: Vec<i64>)
        ensures
            r@ == self.residual@,
    {
        let n = self.residual.len();
        let mut out: Vec<i64> = Vec::new();
        for i in 0..n
            invariant
                n == self.residual@.len(),
                out@.len() == i,
                forall|j: int| 0 <= j < i ==> out@[j] == self.residual@[j],
        {
            out.push(self.residual[i]);
        }
        proof {
            assert(out@ =~= self.residual@);
        }
        out
    }

    /// The current parameters and version as a value object.
    pub fn tensor_snapshot(&self) -> (r: TensorSnapshot)
        requires
            self.wf(),
        ensures
            r.dim == self.params@.len(),
            r.values@ == self.params@,
            r.version == self.version,
            r.wf(),
    {
        TensorSnapshot::new(self.embedding(), self.version)
    }

    /// The position of the largest-magnitude pending delta at or after `lo`,
    /// ties broken toward the smallest index.
    #[verifier::loop_isolation(false)]
    fn scan_best(&self, lo: usize) -> (best: usize)
        requires
            self.params@.len() == self.residual@.len(),
            lo < self.params@.len(),
            forall|i: int|
                lo <= i < self.params@.len() ==> -VALUE_LIMIT <= #[trigger] self.params@[i]
                    <= VALUE_LIMIT,
            forall|i: int|
                lo <= i < self.residual@.len() ==> -RESIDUAL_LIMIT <= #[trigger] self.residual@[i]
                    <= RESIDUAL_LIMIT,
        ensures
            spec_best_in_range(self.params@, self.residual@, lo as int, best as int),
    {
        let dim = self.params.len();
        let mut best: usize = lo;
        let mut best_mag: i64 = {
            let d0 = self.params[lo] + self.residual[lo];
            if d0 < 0 {
                -d0
            } else {
                d0
            }
        };
        let mut j = lo + 1;
        while j < dim
            invariant
                lo <= best < j <= dim,
                best_mag as int == spec_mag(spec_delta(self.params@, self.residual@, best as int)),
                forall|jj: int|
                    lo <= jj < j ==> spec_mag(spec_delta(self.params@, self.residual@, jj))
                        < best_mag as int || (spec_mag(
                        spec_delta(self.params@, self.residual@, jj),
                    ) == best_mag as int && best <= jj),
            decreases dim - j,
        {
            let d = self.params[j] + self.residual[j];
            let m: i64 = if d < 0 {
                -d
            } else {
                d
            };
            if m > best_mag {
                best = j;
                best_mag = m;
            }
            j = j + 1;
        }
        best
    }

    /// The deterministic content hash of the current model.
    pub fn tensor_hash(&self) -> (r: String)
        requires
            self.wf(),
        ensures
            r@ == crate::codec::spec_tensor_hash(
                TensorSnapshot {
                    dim: self.params@.len() as usize,
                    values: self.params,
                    version: self.version,
                },
            ),
    {
        self.tensor_snapshot().hash()
    }

    /// Extracts min(k, D) pending deltas as a delta-encoded sparse update.
    /// The picks come from a left-to-right walk: each is the
    /// largest-magnitude delta at or after the previous pick (ties toward the
    /// lower index); when the walk runs off the end before k picks, the
    /// largest remaining deltas fill the rest, so a nonempty model always
    /// yields exactly min(k, D) entries. Emitted positions keep only the part
    /// of their delta that the clip bound cut off (zero in every realistic
    /// run); un-emitted positions carry their residual forward. Bumps the
    /// version unless the model or the request is empty.
    #[verifier::rlimit(100)]
    pub fn make_sparse_update(&mut self, k: usize) -> (u: SparseUpdate)
        requires
            old(self).wf(),
        ensures
            final(self).wf(),
            u.wf(),
            final(self).params@ == old(self).params@,
            u.indices@.len() == u.values@.len(),
            u.indices@.len() == if k <= old(self).params@.len() {
                k as int
            } else {
                old(self).params@.len() as int
            },
            u.version == final(self).version,
            (k == 0 || old(self).params@.len() == 0) ==> (final(self).version == old(self).version
                && final(self).residual@ == old(self).residual@),
            (k > 0 && old(self).params@.len() > 0) ==> final(self).version == spec_next_version(
                old(self).version,
            ),
            // every decoded index lies in the model, and the globally best
            // delta (ties toward the lower index) is always among them
            forall|t: int|
                0 <= t < u.indices@.len() ==> 0 <= #[trigger] spec_abs_index(u.indices@, t) < old(
                    self,
                ).params@.len(),
            (k > 0 && old(self).params@.len() > 0) ==> exists|t: int|
                0 <= t < u.indices@.len() && spec_best_in_range(
                    old(self).params@,
                    old(self).residual@,
                    0,
                    #[trigger] spec_abs_index(u.indices@, t),
                ),
            // emitted values are the pending deltas, clipped
            forall|t: int|
                0 <= t < u.values@.len() ==> u.values@[t] as int == spec_clamp(
                    spec_delta(
                        old(self).params@,
                        old(self).residual@,
                        spec_abs_index(u.indices@, t),
                    ),
                    VALUE_LIMIT as int,
                ),
            // error feedback: emitted positions keep the clipped-off part,
            // all others carry their residual unchanged
            forall|t: int|
                0 <= t < u.indices@.len() ==> final(self).residual@[spec_abs_index(
                    u.indices@,
                    t,
                )] == spec_delta(old(self).params@, old(self).residual@, spec_abs_index(u.indices@, t))
                    - u.values@[t],
            forall|i: int|
                0 <= i < old(self).residual@.len() && !spec_decoded_indices(u.indices@).contains(i)
                    ==> final(self).residual@[i] == old(self).residual@[i],
    {
        let dim = self.params.len();
        if k == 0 || dim == 0 {
            return SparseUpdate { indices: Vec::new(), values: Vec::new(), version: self.version };
        }
        let ghost gp = self.params@;
        let ghost gr = self.residual@;
        let mut selected: Vec<bool> = Vec::new();
        let mut j0: usize = 0;
        while j0 < dim
            invariant
                j0 <= dim,
                selected@.len() == j0,
                spec_count_trues(selected@) == 0,
                forall|j: int| 0 <= j < j0 ==> !selected@[j],
            decreases dim - j0,
        {
            let ghost prev = selected@;
            selected.push(false);
            proof {
                assert(selected@.drop_last() =~= prev);
            }
            j0 = j0 + 1;
        }
        let mut count: usize = 0;
        let ghost mut g0: int = 0;
        // first pass: the ascending walk, each pick the best at or after the
        // previous one
        let mut lo: usize = 0;
        while count < k && lo < dim
            invariant
                dim == gp.len(),
                0 < dim <= u32::MAX,
                0 < k,
                old(self).wf(),
                self.params@ == gp,
                self.residual@ == gr,
                gr == old(self).residual@,
                gp == old(self).params@,
                self.version == old(self).version,
                selected@.len() == dim,
                count == spec_count_trues(selected@),
                count <= k,
                count <= lo,
                count == 0 ==> lo == 0,
                lo <= dim,
                forall|j: int| lo <= j < dim ==> !selected@[j],
                forall|j: int| 0 <= j < dim && selected@[j] ==> j < lo,
                count > 0 ==> (0 <= g0 < dim && selected@[g0] && spec_best_in_range(gp, gr, 0, g0)),
            decreases dim - lo,
        {
            let best = self.scan_best(lo);
            proof {
                lemma_count_trues_set_true(selected@, best as int);
                if count == 0 {
                    g0 = best as int;
                }
            }
            selected.set(best, true);
            count = count + 1;
            lo = best + 1;
        }
        // second pass: when the walk ran off the end early, fill with the
        // best remaining deltas until min(k, D) picks stand
        while count < k && count < dim
            invariant
                dim == gp.len(),
                0 < dim <= u32::MAX,
                0 < k,
                old(self).wf(),
                self.params@ == gp,
                self.residual@ == gr,
                gr == old(self).residual@,
                gp == old(self).params@,
                self.version == old(self).version,
                selected@.len() == dim,
                count == spec_count_trues(selected@),
                count <= k,
                count >= 1,
                0 <= g0 < dim && selected@[g0] && spec_best_in_range(gp, gr, 0, g0),
            decreases k - count,
        {
            let best = self.scan_best_skipping(&selected);
            proof {
                lemma_count_trues_set_true(selected@, best as int);
            }
            selected.set(best, true);
            count = count + 1;
        }
        proof {
            lemma_count_trues_bound(selected@);
            assert(count == if k <= dim {
                k as int
            } else {
                dim as int
            });
        }
        // emission: walk the model left to right, emit each selected delta
        // and zero its residual (up to the clip bound)
        let mut sel: Vec<usize> = Vec::new();
        let mut vals: Vec<i64> = Vec::new();
        let mut i: usize = 0;
        while i < dim
            invariant
                dim == gp.len(),
                old(self).wf(),
                i <= dim,
                self.params@ == gp,
                self.residual@.len() == gp.len(),
                gr == old(self).residual@,
                gp == old(self).params@,
                self.version == old(self).version,
                selected@.len() == dim,
                sel@.len() == vals@.len(),
                sel@.len() == spec_count_trues(selected@.take(i as int)),
                forall|t: int| 0 <= t < sel@.len() ==> #[trigger] sel@[t] < i,
                forall|t1: int, t2: int| 0 <= t1 < t2 < sel@.len() ==> sel@[t1] < sel@[t2],
                forall|t: int|
                    0 <= t < sel@.len() ==> selected@[#[trigger] sel@[t] as int],
                forall|j: int| 0 <= j < i && selected@[j] ==> spec_in_sel(sel@, j),
                forall|t: int|
                    0 <= t < vals@.len() ==> #[trigger] vals@[t] as int == spec_clamp(
                        spec_delta(gp, gr, sel@[t] as int),
                        VALUE_LIMIT as int,
                    ),
                forall|t: int|
                    0 <= t < sel@.len() ==> #[trigger] self.residual@[sel@[t] as int] == spec_delta(
                        gp,
                        gr,
                        sel@[t] as int,
                    ) - vals@[t],
                forall|j: int|
                    0 <= j < gp.len() && !spec_in_sel(sel@, j) ==> self.residual@[j] == gr[j],
                forall|j: int|
                    0 <= j < self.residual@.len() ==> -RESIDUAL_LIMIT
                        <= #[trigger] self.residual@[j] <= RESIDUAL_LIMIT,
            decreases dim - i,
        {
            proof {
                assert(selected@.take(i + 1).drop_last() =~= selected@.take(i as int));
                assert(selected@.take(i + 1).last() == selected@[i as int]);
            }
            if selected[i] {
                proof {
                    assert(!spec_in_sel(sel@, i as int));
                }
                let d = self.params[i] + self.residual[i];
                let v = clamp_i64(d, VALUE_LIMIT);
                let ghost old_sel = sel@;
                sel.push(i);
                vals.push(v);
                self.residual.set(i, d - v);
                proof {
                    assert forall|jj: int| spec_in_sel(old_sel, jj) implies spec_in_sel(
                        sel@,
                        jj,
                    ) by {
                        let t = choose|t: int| 0 <= t < old_sel.len() && old_sel[t] == jj;
                        assert(sel@[t] == jj);
                    }
                    assert(sel@[sel@.len() - 1] == i);
                    assert(spec_in_sel(sel@, i as int));
                    assert forall|jj: int|
                        0 <= jj < gp.len() && !spec_in_sel(sel@, jj) implies self.residual@[jj]
                        == gr[jj] by {
                        assert(!spec_in_sel(old_sel, jj));
                    }
                }
            }
            i = i + 1;
        }
        proof {
            assert(selected@.take(dim as int) =~= selected@);
        }
        let indices = compress_from_selection(&sel);
        self.version = self.version.saturating_add(1);
        let u = SparseUpdate { indices, values: vals, version: self.version };
        proof {
            assert forall|t: int| 0 <= t < u.indices@.len() implies spec_abs_index(u.indices@, t)
                == sel@[t] as int by {
            }
            assert forall|j: int|
                0 <= j < old(self).residual@.len() && !spec_decoded_indices(
                    u.indices@,
                ).contains(j) implies self.residual@[j] == gr[j] by {
                if spec_in_sel(sel@, j) {
                    let t = choose|t: int| 0 <= t < sel@.len() && sel@[t] == j;
                    assert(spec_decoded_indices(u.indices@)[t] == j);
                    assert(spec_decoded_indices(u.indices@).contains(j));
                }
            }
            // the walk's first pick is the global best and was emitted
            assert(spec_in_sel(sel@, g0));
            let t0 = choose|t: int| 0 <= t < sel@.len() && sel@[t] == g0;
            assert(spec_abs_index(u.indices@, t0) == g0);
        }
        u
    }

    /// The position of the largest-magnitude pending delta among the
    /// unselected positions, ties broken toward the smallest index.
    #[verifier::loop_isolation(false)]
    fn scan_best_skipping(&self, selected: &Vec<bool>) -> (best: usize)
        requires
            self.params@.len() == self.residual@.len(),
            selected@.len() == self.params@.len(),
            spec_count_trues(selected@) < selected@.len(),
            forall|i: int|
                0 <= i < self.params@.len() ==> -VALUE_LIMIT <= #[trigger] self.params@[i]
                    <= VALUE_LIMIT,
            forall|i: int|
                0 <= i < self.residual@.len() ==> -RESIDUAL_LIMIT <= #[trigger] self.residual@[i]
                    <= RESIDUAL_LIMIT,
        ensures
            best < selected@.len(),
            !selected@[best as int],
    {
        let dim = self.params.len();
        let mut best: usize = 0;
        let mut found = false;
        let mut best_mag: i64 = 0;
        let mut j: usize = 0;
        while j < dim
            invariant
                j <= dim,
                found ==> (best < j && !selected@[best as int]),
                !found ==> forall|q: int| 0 <= q < j ==> selected@[q],
            decreases dim - j,
        {
            if !selected[j] {
                let d = self.params[j] + self.residual[j];
                let m: i64 = if d < 0 {
                    -d
                } else {
                    d
                };
                if !found || m > best_mag {
                    found = true;
                    best = j;
                    best_mag = m;
                }
            }
            j = j + 1;
        }
        proof {
            if !found {
                lemma_count_trues_full(selected@);
            }
        }
        best
    }

    /// Blends a sparse update in: every in-range decoded position moves to the
    /// midpoint of its old value and the update's value (rounding toward
    /// zero), and the displaced half is carried into the residual, clipped at
    /// the residual bound. Out-of-range positions are skipped. The version
    /// rises to the update's if that is higher.
    #[verifier::loop_isolation(false)]
    pub fn apply_sparse_update(&mut self, u: &SparseUpdate)
        requires
            old(self).wf(),
            u.wf(),
        ensures
            final(self).wf(),
            spec_sparse_blended(*old(self), *final(self), *u),
    {
        let dim = self.params.len();
        let ghost gp = self.params@;
        let ghost gr = self.residual@;
        let ghost dec = spec_decoded_indices(u.indices@);
        proof {
            assert forall|i: int|
                0 <= i < u.indices@.len() implies spec_abs_index(u.indices@, i)
                <= usize::MAX by {
                crate::types::lemma_abs_index_nondecreasing(u.indices@, i, u.indices@.len() - 1);
            }
        }
        let idxs = crate::types::decompress_indices(u.indices.as_slice());
        let n = idxs.len();
        let mut t: usize = 0;
        while t < n
            invariant
                t <= n,
                self.params@.len() == dim,
                self.residual@.len() == dim,
                self.version == old(self).version,
                forall|s: int|
                    0 <= s < t && dec[s] < gp.len() ==> spec_sparse_applied(
                        gp,
                        gr,
                        self.params@,
                        self.residual@,
                        #[trigger] dec[s],
                        u.values@[s] as int,
                    ),
                forall|i: int|
                    0 <= i < gp.len() && !spec_in_prefix(dec, t as int, i) ==> self.params@[i]
                        == gp[i] && self.residual@[i] == gr[i],
                forall|i: int|
                    0 <= i < dim ==> -VALUE_LIMIT <= #[trigger] self.params@[i] <= VALUE_LIMIT,
                forall|i: int|
                    0 <= i < dim ==> -RESIDUAL_LIMIT <= #[trigger] self.residual@[i]
                        <= RESIDUAL_LIMIT,
            decreases n - t,
        {
            let pos = idxs[t];
            proof {
                lemma_decoded_distinct(u.indices@, t as int);
                assert(pos == dec[t as int]);
                assert(!spec_in_prefix(dec, t as int, pos as int)) by {
                    if spec_in_prefix(dec, t as int, pos as int) {
                        let k = choose|k: int| 0 <= k < t && dec[k] == pos;
                        assert(dec[k] < dec[t as int]);
                    }
                }
            }
            let ghost params_before = self.params@;
            let ghost residual_before = self.residual@;
            if pos < dim {
                let old_v = self.params[pos];
                let v = u.values[t];
                let merged = half_trunc(old_v + v);
                proof {
                    lemma_div_trunc_bound(old_v as int + v as int, 2, VALUE_LIMIT as int);
                }
                self.params.set(pos, merged);
                let carried = clamp_i64(self.residual[pos] + old_v - merged, RESIDUAL_LIMIT);
                self.residual.set(pos, carried);
            }
            proof {
                assert forall|i: int|
                    0 <= i < gp.len() && !spec_in_prefix(dec, t + 1, i) implies self.params@[i]
                    == gp[i] && self.residual@[i] == gr[i] by {
                    assert(!spec_in_prefix(dec, t as int, i)) by {
                        if spec_in_prefix(dec, t as int, i) {
                            let k = choose|k: int| 0 <= k < t && dec[k] == i;
                            assert(0 <= k < t + 1 && dec[k] == i);
                        }
                    }
                    assert(i != pos as int) by {
                        if i == pos as int {
                            assert(dec[t as int] == i);
                        }
                    }
                }
                assert forall|s: int|
                    0 <= s < t + 1 && dec[s] < gp.len() implies spec_sparse_applied(
                    gp,
                    gr,
                    self.params@,
                    self.residual@,
                    #[trigger] dec[s],
                    u.values@[s] as int,
                ) by {
                    if s < t {
                        assert(dec[s] < dec[t as int]);
                        assert(self.params@[dec[s]] == params_before[dec[s]]);
                        assert(self.residual@[dec[s]] == residual_before[dec[s]]);
                    }
                }
            }
            t = t + 1;
        }
        proof {
            assert forall|tt: int|
                0 <= tt < u.indices@.len() && spec_abs_index(u.indices@, tt) < gp.len() implies spec_sparse_applied(
                gp,
                gr,
                self.params@,
                self.residual@,
                spec_abs_index(u.indices@, tt),
                u.values@[tt] as int,
            ) by {
                assert(dec[tt] == spec_abs_index(u.indices@, tt));
            }
            assert forall|i: int|
                0 <= i < gp.len() && !dec.contains(i) implies self.params@[i] == gp[i]
                && self.residual@[i] == gr[i] by {
                assert(!spec_in_prefix(dec, n as int, i)) by {
                    if spec_in_prefix(dec, n as int, i) {
                        let k = choose|k: int| 0 <= k < n && dec[k] == i;
                        assert(dec.contains(i));
                    }
                }
            }
        }
                if u.version > self.version {
            self.version = u.version;
        }
    }

    /// Blends a dense snapshot in: over the shared prefix every parameter
    /// moves four fifths toward itself and one fifth toward the snapshot,
    /// rounding toward zero. The version rises to the snapshot's if that is
    /// higher.
    #[verifier::loop_isolation(false)]
    pub fn apply_dense_snapshot(&mut self, s: &TensorSnapshot)
        requires
            old(self).wf(),
            s.wf(),
        ensures
            final(self).wf(),
            spec_dense_blended(*old(self), *final(self), *s),
    {
        let dim = self.params.len();
        let ghost gp = self.params@;
        let n = if dim < s.values.len() {
            dim
        } else {
            s.values.len()
        };
        let mut i: usize = 0;
        while i < n
            invariant
                old(self).wf(),
                s.wf(),
                gp == old(self).params@,
                dim == gp.len(),
                n <= dim,
                n <= s.values@.len(),
                n == if dim < s.values@.len() {
                    dim as int
                } else {
                    s.values@.len() as int
                },
                i <= n,
                self.params@.len() == dim,
                self.residual@ == old(self).residual@,
                self.version == old(self).version,
                forall|j: int|
                    0 <= j < i ==> #[trigger] self.params@[j] as int == spec_blend_dense(
                        gp[j] as int,
                        s.values@[j] as int,
                    ),
                forall|j: int| i <= j < dim ==> #[trigger] self.params@[j] == gp[j],
                forall|j: int|
                    0 <= j < dim ==> -VALUE_LIMIT <= #[trigger] self.params@[j] <= VALUE_LIMIT,
            decreases n - i,
        {
            let blended = fifth_trunc(4 * self.params[i] + s.values[i]);
            proof {
                lemma_div_trunc_bound(4 * gp[i as int] + s.values@[i as int], 5, VALUE_LIMIT as int);
            }
            self.params.set(i, blended);
            i = i + 1;
        }
        if s.version > self.version {
            self.version = s.version;
        }
    }

    /// One local training step: every parameter takes a uniform random nudge
    /// of at most a thousandth of a unit (clipped at the value bound), and the
    /// version is bumped. Of a random draw only the bound can be promised.
    #[verifier::loop_isolation(false)]
    pub fn local_train_step(&mut self)
        requires
            old(self).wf(),
        ensures
            final(self).wf(),
            final(self).params@.len() == old(self).params@.len(),
            final(self).residual@ == old(self).residual@,
            final(self).version == spec_next_version(old(self).version),
            forall|i: int|
                0 <= i < old(self).params@.len() ==> spec_mag(
                    final(self).params@[i] - old(self).params@[i],
                ) <= 1000,
    {
        let dim = self.params.len();
        let ghost gp = self.params@;
        let mut i: usize = 0;
        while i < dim
            invariant
                old(self).wf(),
                gp == old(self).params@,
                dim == gp.len(),
                i <= dim,
                self.params@.len() == dim,
                self.residual@ == old(self).residual@,
                self.version == old(self).version,
                forall|j: int|
                    0 <= j < i ==> spec_mag(#[trigger] self.params@[j] - gp[j]) <= 1000,
                forall|j: int| i <= j < dim ==> #[trigger] self.params@[j] == gp[j],
                forall|j: int|
                    0 <= j < dim ==> -VALUE_LIMIT <= #[trigger] self.params@[j] <= VALUE_LIMIT,
            decreases dim - i,
        {
            let noise = crate::rng::gen_range_i64(-1000, 1001);
            let nudged = clamp_i64(self.params[i] + noise, VALUE_LIMIT);
            self.params.set(i, nudged);
            i = i + 1;
        }
        self.version = self.version.saturating_add(1);
    }

}

/// Whether position `i` occurs in the selection.
pub open spec fn spec_in_sel(sel: Seq<usize>, i: int) -> bool {
    exists|t: int| 0 <= t < sel.len() && sel[t] == i
}

/// Positions decoded from strictly ascending deltas are pairwise distinct
/// before index `t`.
proof fn lemma_decoded_distinct(diffs: Seq<u32>, t: int)
    requires
        spec_deltas_ascending(diffs),
        0 <= t < diffs.len(),
    ensures
        forall|s: int|
            0 <= s < t ==> spec_abs_index(diffs, s) < spec_abs_index(diffs, t),
{
    assert forall|s: int| 0 <= s < t implies spec_abs_index(diffs, s) < spec_abs_index(
        diffs,
        t,
    ) by {
        lemma_decoded_ascending(diffs, s, t);
    }
}

/// With ascending deltas the decoded indices strictly ascend.
pub proof fn lemma_decoded_ascending(diffs: Seq<u32>, i: int, j: int)
    requires
        spec_deltas_ascending(diffs),
        0 <= i < j < diffs.len(),
    ensures
        spec_abs_index(diffs, i) < spec_abs_index(diffs, j),
    decreases j - i,
{
    if i < j - 1 {
        lemma_decoded_ascending(diffs, i, j - 1);
    }
}

/// How many entries of a selection mask are set.
pub open spec fn spec_count_trues(s: Seq<bool>) -> int
    decreases s.len(),
{
    if s.len() == 0 {
        0
    } else {
        spec_count_trues(s.drop_last()) + if s.last() {
            1int
        } else {
            0int
        }
    }
}

/// A mask never holds more set entries than positions.
proof fn lemma_count_trues_bound(s: Seq<bool>)
    ensures
        0 <= spec_count_trues(s) <= s.len(),
    decreases s.len(),
{
    if s.len() > 0 {
        lemma_count_trues_bound(s.drop_last());
    }
}

/// Setting an unset position raises the count by one.
proof fn lemma_count_trues_set_true(s: Seq<bool>, i: int)
    requires
        0 <= i < s.len(),
        !s[i],
    ensures
        spec_count_trues(s.update(i, true)) == spec_count_trues(s) + 1,
    decreases s.len(),
{
    if i == s.len() - 1 {
        assert(s.update(i, true).drop_last() =~= s.drop_last());
    } else {
        assert(s.update(i, true).drop_last() =~= s.drop_last().update(i, true));
        lemma_count_trues_set_true(s.drop_last(), i);
    }
}

/// A mask with every position set has a full count.
proof fn lemma_count_trues_full(s: Seq<bool>)
    requires
        forall|q: int| 0 <= q < s.len() ==> s[q],
    ensures
        spec_count_trues(s) == s.len(),
    decreases s.len(),
{
    if s.len() > 0 {
        assert forall|q: int| 0 <= q < s.drop_last().len() implies s.drop_last()[q] by {
            assert(s[q]);
        }
        lemma_count_trues_full(s.drop_last());
    }
}

/// Truncating division by a positive constant keeps a convex bound: if the
/// numerator is at most d·lim in magnitude, the quotient is at most lim.
proof fn lemma_div_trunc_bound(x: int, d: int, lim: int)
    requires
        d > 0,
        lim >= 0,
        -d * lim <= x <= d * lim,
    ensures
        -lim <= spec_div_trunc(x, d) <= lim,
{
    if x >= 0 {
        assert(x / d <= lim) by (nonlinear_arith)
            requires
                d > 0,
                lim >= 0,
                0 <= x <= d * lim,
        ;
        assert(x / d >= 0) by (nonlinear_arith)
            requires
                d > 0,
                x >= 0,
        ;
    } else {
        assert((-d) * lim == -(d * lim)) by (nonlinear_arith);
        assert(0 <= -x <= d * lim);
        assert((-x) / d <= lim) by (nonlinear_arith)
            requires
                d > 0,
                lim >= 0,
                0 <= -x <= d * lim,
        ;
        assert((-x) / d >= 0) by (nonlinear_arith)
            requires
                d > 0,
                -x >= 0,
        ;
    }
}

/// Delta-encodes an ascending selection of positions.
fn compress_from_selection(sel: &Vec<usize>) -> (out: Vec<u32>)
    requires
        forall|i: int, j: int| 0 <= i < j < sel@.len() ==> sel@[i] < sel@[j],
        forall|i: int| 0 <= i < sel@.len() ==> #[trigger] sel@[i] < u32::MAX,
    ensures
        out@.len() == sel@.len(),
        forall|i: int| 0 <= i < out@.len() ==> spec_abs_index(out@, i) == sel@[i],
        crate::types::spec_deltas_ascending(out@),
{
    crate::types::compress_indices(sel)
}

} // verus!
