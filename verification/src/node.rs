//! The node's decision core: what each tick publishes, and how each verified
//! inbound message changes the model, the ledger and the topology. The
//! surrounding event loop performs the sends and hands events (and the few
//! floating-point scores) back in as plain values.

use vstd::prelude::*;
use crate::bandwidth::{spec_rotated, BandwidthBudget};
use crate::codec::spec_tensor_hash;
use crate::consensus::{spec_signed_by, spec_stake_credited, ConsensusEngine, SignedGossip};
use crate::inference::{
    spec_clamp, spec_delta, spec_dense_blended, spec_next_version, spec_sparse_blended,
    InferenceEngine,
};
use crate::topology::{
    spec_geo_affinity, spec_has_peer, spec_profile_of, spec_score, TopologySelector,
};
use crate::types::{spec_abs_index, VALUE_LIMIT};
use crate::types::{GeoPoint, GgsMessage, SparseUpdate, TensorSnapshot};

verus! {

/// How many parameters a sparse update carries at most.
pub const SPARSE_TOP_K: usize = 16;

/// Every how many ticks a dense snapshot is attempted.
pub const DENSE_EVERY_TICKS: u64 = 12;

/// What a topology health check found.
#[derive(Clone, Copy, Debug, PartialEq, Eq, Structural)]
pub enum TopologyHealth {
    BackupsEngaged,
    BackupsLow,
    Healthy,
}

pub struct Node {
    pub peer_id: String,
    pub inference: InferenceEngine,
    pub topology: TopologySelector,
    pub consensus: ConsensusEngine,
    pub bandwidth: BandwidthBudget,
    pub tick_counter: u64,
}

/// The tick counter after a tick; it wraps around.
pub open spec fn spec_next_tick(t: u64) -> u64 {
    if t == u64::MAX {
        0u64
    } else {
        (t + 1) as u64
    }
}

impl Node {
    pub open spec fn wf(&self) -> bool {
        &&& self.inference.wf()
        &&& self.topology.wf()
        &&& self.consensus.wf()
        &&& self.bandwidth.wf()
    }

    pub fn new(
        peer_id: String,
        inference: InferenceEngine,
        topology: TopologySelector,
        consensus: ConsensusEngine,
        bandwidth: BandwidthBudget,
    ) -> (r: Node)
        requires
            inference.wf(),
            topology.wf(),
            consensus.wf(),
            bandwidth.wf(),
        ensures
            r.wf(),
            r.peer_id == peer_id,
            r.inference == inference,
            r.topology == topology,
            r.consensus == consensus,
            r.bandwidth == bandwidth,
            r.tick_counter == 0,
    {
        Node { peer_id, inference, topology, consensus, bandwidth, tick_counter: 0 }
    }

    /// One tick: a signed heartbeat with the current model hash, then a
    /// signed similarity probe with the current embedding and position, then
    /// a local training step and a ledger prune; every twelfth tick a dense
    /// snapshot of the trained model follows, if the byte budget admits its
    /// cost of four bytes per parameter. The messages come back in publish
    /// order. `raw_weight_micro` is this node's own raw ledger weight; the
    /// signer applies the lookup-or-default rule to it.
    #[verifier::rlimit(100)]
    pub fn on_tick(&mut self, now_ms: u64, raw_weight_micro: i64) -> (out: Vec<SignedGossip>)
        requires
            old(self).wf(),
        ensures
            final(self).wf(),
            final(self).peer_id == old(self).peer_id,
            final(self).tick_counter == spec_next_tick(old(self).tick_counter),
            2 <= out@.len() <= 3,
            // the heartbeat goes first and hashes the pre-training model
            spec_signed_by(old(self).consensus.crypto, out@[0]),
            out@[0].payload matches GgsMessage::Heartbeat { peer, model_hash } ==> peer@ == old(self).peer_id@ && model_hash@ == spec_tensor_hash(
                TensorSnapshot {
                    dim: old(self).inference.params@.len() as usize,
                    values: old(self).inference.params,
                    version: old(self).inference.version,
                },
            ),
            out@[0].payload is Heartbeat,
            // the probe goes second, with the pre-training embedding
            spec_signed_by(old(self).consensus.crypto, out@[1]),
            out@[1].payload matches GgsMessage::SimilarityProbe { embedding, position, sender }
                ==> embedding@ == old(self).inference.params@ && position == old(self).topology.position && sender@ == old(self).peer_id@,
            out@[1].payload is SimilarityProbe,
            // training nudges every parameter by at most a thousandth
            final(self).inference.params@.len() == old(self).inference.params@.len(),
            final(self).inference.version == spec_next_version(old(self).inference.version),
            // a third message can only be a dense snapshot of the trained
            // model, and only on a twelfth tick that the byte budget admits
            out@.len() == 3 ==> spec_signed_by(old(self).consensus.crypto, out@[2])
                && out@[2].payload is DenseSnapshot && spec_next_tick(old(self).tick_counter)
                % DENSE_EVERY_TICKS == 0,
            out@.len() == 3 ==> (out@[2].payload matches GgsMessage::DenseSnapshot {
                snapshot,
                sender,
            } ==> sender@ == old(self).peer_id@ && snapshot.values@ == final(self).inference.params@ && snapshot.version == final(self).inference.version),
            spec_next_tick(old(self).tick_counter) % DENSE_EVERY_TICKS != 0 ==> out@.len() == 2,
            // on a twelfth tick whose byte cost the budget admits, the dense
            // snapshot is owed
            (spec_next_tick(old(self).tick_counter) % DENSE_EVERY_TICKS == 0 && 4 * old(self).inference.params@.len() <= usize::MAX && spec_rotated(
                old(self).bandwidth,
                now_ms,
            ).dense_sent + 4 * old(self).inference.params@.len() <= old(self).bandwidth.config.dense_bytes_per_window) ==> out@.len() == 3,
            // the tick prunes the ledger: kept records are inside the
            // heartbeat window, drawn unchanged from before, and every record
            // still inside the window survives
            final(self).consensus.crypto == old(self).consensus.crypto,
            final(self).consensus.config == old(self).consensus.config,
            forall|i: int|
                0 <= i < final(self).consensus.ledger@.len() ==> #[trigger] final(self).consensus.ledger@[i].1.last_seen_ms as int >= now_ms as int - old(self).consensus.config.heartbeat_timeout_secs * 1000,
            forall|i: int|
                0 <= i < final(self).consensus.ledger@.len() ==> old(self).consensus.ledger@.contains(#[trigger] final(self).consensus.ledger@[i]),
            forall|j: int|
                0 <= j < old(self).consensus.ledger@.len() && #[trigger] old(self).consensus.ledger@[j].1.last_seen_ms as int >= now_ms as int - old(self).consensus.config.heartbeat_timeout_secs * 1000 ==> final(self).consensus.ledger@.contains(old(self).consensus.ledger@[j]),
    {
        self.tick_counter = if self.tick_counter == u64::MAX {
            0
        } else {
            self.tick_counter + 1
        };
        let snapshot = self.inference.tensor_snapshot();
        let hash = snapshot.hash();
        let heartbeat = GgsMessage::Heartbeat {
            peer: clone_string(&self.peer_id),
            model_hash: hash,
        };
        let signed_heartbeat = self.consensus.sign(heartbeat, raw_weight_micro);
        let probe = GgsMessage::SimilarityProbe {
            embedding: self.inference.embedding(),
            position: self.topology.position(),
            sender: clone_string(&self.peer_id),
        };
        let signed_probe = self.consensus.sign(probe, raw_weight_micro);
        let mut out: Vec<SignedGossip> = Vec::new();
        out.push(signed_heartbeat);
        out.push(signed_probe);
        self.inference.local_train_step();
        self.consensus.prune_stale(now_ms);
        proof {
            assert(forall|j: int|
                0 <= j < old(self).consensus.ledger@.len() && #[trigger] old(self).consensus.ledger@[j].1.last_seen_ms as int >= now_ms as int - old(self).consensus.config.heartbeat_timeout_secs * 1000
                    ==> self.consensus.ledger@.contains(old(self).consensus.ledger@[j]));
        }
        if self.tick_counter % DENSE_EVERY_TICKS == 0 {
            let trained = self.inference.tensor_snapshot();
            let cost: usize = match trained.dim.checked_mul(4) {
                Some(c) => c,
                None => usize::MAX,
            };
            if self.bandwidth.allow_dense(now_ms, cost) {
                let msg = GgsMessage::DenseSnapshot {
                    snapshot: trained,
                    sender: clone_string(&self.peer_id),
                };
                let signed_dense = self.consensus.sign(msg, raw_weight_micro);
                out.push(signed_dense);
            }
        }
        out
    }

    /// A verified heartbeat credits its peer a small reputation gain.
    pub fn handle_heartbeat(&mut self, peer: String, now_ms: u64)
        requires
            old(self).wf(),
        ensures
            final(self).wf(),
            final(self).peer_id == old(self).peer_id,
            final(self).tick_counter == old(self).tick_counter,
            spec_stake_credited(
                old(self).consensus.ledger@,
                final(self).consensus.ledger@,
                peer@,
                0,
                0,
                50_000,
                now_ms,
            ),
            final(self).consensus.crypto == old(self).consensus.crypto,
            final(self).consensus.config == old(self).consensus.config,
            final(self).inference == old(self).inference,
            final(self).topology == old(self).topology,
            final(self).bandwidth == old(self).bandwidth,
    {
        self.consensus.update_stake(peer, 0, 0, 50_000, now_ms);
    }

    /// A verified sparse update is blended into the model and earns its
    /// sender stake and reputation.
    pub fn handle_sparse(&mut self, sender: String, update: &SparseUpdate, now_ms: u64)
        requires
            old(self).wf(),
            update.wf(),
        ensures
            final(self).wf(),
            final(self).peer_id == old(self).peer_id,
            final(self).tick_counter == old(self).tick_counter,
            spec_sparse_blended(old(self).inference, final(self).inference, *update),
            spec_stake_credited(
                old(self).consensus.ledger@,
                final(self).consensus.ledger@,
                sender@,
                100_000,
                0,
                100_000,
                now_ms,
            ),
            final(self).consensus.crypto == old(self).consensus.crypto,
            final(self).consensus.config == old(self).consensus.config,
            final(self).topology == old(self).topology,
            final(self).bandwidth == old(self).bandwidth,
    {
        self.inference.apply_sparse_update(update);
        self.consensus.update_stake(sender, 100_000, 0, 100_000, now_ms);
    }

    /// A verified dense snapshot is blended into the model and earns its
    /// sender stake and reputation.
    pub fn handle_dense(&mut self, sender: String, snapshot: &TensorSnapshot, now_ms: u64)
        requires
            old(self).wf(),
            snapshot.wf(),
        ensures
            final(self).wf(),
            final(self).peer_id == old(self).peer_id,
            final(self).tick_counter == old(self).tick_counter,
            spec_dense_blended(old(self).inference, final(self).inference, *snapshot),
            spec_stake_credited(
                old(self).consensus.ledger@,
                final(self).consensus.ledger@,
                sender@,
                0,
                200_000,
                50_000,
                now_ms,
            ),
            final(self).consensus.crypto == old(self).consensus.crypto,
            final(self).consensus.config == old(self).consensus.config,
            final(self).topology == old(self).topology,
            final(self).bandwidth == old(self).bandwidth,
    {
        self.inference.apply_dense_snapshot(snapshot);
        self.consensus.update_stake(sender, 0, 200_000, 50_000, now_ms);
    }

    /// Whether a sparse update should go to `target`: yes if it is a current
    /// primary neighbor; a peer that probed us without being one is demoted
    /// out of the topology.
    pub fn should_send_sparse_update(&mut self, target: &String) -> (r: bool)
        requires
            old(self).wf(),
        ensures
            final(self).wf(),
            final(self).peer_id == old(self).peer_id,
            final(self).inference == old(self).inference,
            final(self).consensus == old(self).consensus,
            final(self).bandwidth == old(self).bandwidth,
            final(self).tick_counter == old(self).tick_counter,
            final(self).topology.position == old(self).topology.position,
            final(self).topology.config == old(self).topology.config,
            !r ==> !spec_has_peer(final(self).topology.peers@, target@),
            r ==> final(self).topology == old(self).topology,
            r ==> spec_has_peer(final(self).topology.peers@, target@) && spec_profile_of(
                final(self).topology.peers@,
                target@,
            ).score >= final(self).topology.config.min_score,
    {
        let primary = self.topology.select_neighbors();
        if contains_string(&primary, target) {
            proof {
                let k = choose|k: int| 0 <= k < primary@.len() && primary@[k]@ == target@;
                assert(spec_has_peer(self.topology.peers@, primary@[k]@));
                assert(spec_profile_of(self.topology.peers@, primary@[k]@).score
                    >= self.topology.config.min_score);
            }
            true
        } else {
            self.topology.mark_unreachable(target);
            false
        }
    }

    /// Builds the signed sparse reply to a neighbor's probe, if the window's
    /// sparse budget admits one more publish.
    fn sparse_reply(&mut self, now_ms: u64, staking_score_micro: i64) -> (r: Option<SignedGossip>)
        requires
            old(self).wf(),
        ensures
            final(self).wf(),
            final(self).peer_id == old(self).peer_id,
            final(self).tick_counter == old(self).tick_counter,
            final(self).topology == old(self).topology,
            final(self).consensus == old(self).consensus,
            // the window's budget alone decides whether the reply is built
            r is Some <==> spec_rotated(old(self).bandwidth, now_ms).sparse_sent < old(self).bandwidth.config.sparse_per_window,
            r is None ==> final(self).inference == old(self).inference,
            r is Some ==> final(self).inference.version == (
            if old(self).inference.params@.len() > 0 {
                spec_next_version(old(self).inference.version)
            } else {
                old(self).inference.version
            }) && final(self).inference.params@ == old(self).inference.params@,
            r is Some ==> spec_signed_by(old(self).consensus.crypto, r->Some_0)
                && r->Some_0.payload is SparseUpdate,
            r is Some ==> (r->Some_0.payload matches GgsMessage::SparseUpdate { update, sender: s }
                ==> s@ == old(self).peer_id@ && update.wf() && update.indices@.len() == (
                if SPARSE_TOP_K <= old(self).inference.params@.len() {
                    SPARSE_TOP_K as int
                } else {
                    old(self).inference.params@.len() as int
                }) && (forall|t: int|
                    0 <= t < update.values@.len() ==> #[trigger] update.values@[t] as int
                        == spec_clamp(
                        spec_delta(
                            old(self).inference.params@,
                            old(self).inference.residual@,
                            spec_abs_index(update.indices@, t),
                        ),
                        VALUE_LIMIT as int,
                    ))),
    {
        if self.bandwidth.allow_sparse(now_ms) {
            let update = self.inference.make_sparse_update(SPARSE_TOP_K);
            let msg = GgsMessage::SparseUpdate { update, sender: clone_string(&self.peer_id) };
            Some(self.consensus.sign(msg, staking_score_micro))
        } else {
            None
        }
    }

    /// A verified similarity probe refreshes the sender's topology profile;
    /// if the sender is a primary neighbor and the window's sparse budget
    /// admits one more publish, a fresh signed top-16 sparse update goes
    /// back out. A sender that is not a primary neighbor is demoted instead.
    /// Similarity and distance arrive as plain values from the caller.
    #[verifier::rlimit(100)]
    pub fn handle_probe(
        &mut self,
        sender: String,
        embedding: Vec<i64>,
        position: GeoPoint,
        similarity_micro: i64,
        dist_micro_km: u64,
        now_ms: u64,
        staking_score_micro: i64,
    ) -> (r: Option<SignedGossip>)
        requires
            old(self).wf(),
            -1_000_000 <= similarity_micro <= 1_000_000,
        ensures
            final(self).wf(),
            final(self).peer_id == old(self).peer_id,
            final(self).tick_counter == old(self).tick_counter,
            final(self).consensus == old(self).consensus,
            final(self).topology.position == old(self).topology.position,
            final(self).topology.config == old(self).topology.config,
            // the sender was refreshed; if it survived the demote rule, its
            // profile is exactly the freshly scored one
            spec_has_peer(final(self).topology.peers@, sender@) ==> spec_probe_profile(
                final(self).topology,
                sender@,
                embedding@,
                position,
                similarity_micro,
                dist_micro_km,
                now_ms,
            ),
            // the reply is owed exactly when the sender stayed a primary
            // neighbor and the window's sparse budget admits one more publish
            r is Some <==> (spec_has_peer(final(self).topology.peers@, sender@) && spec_rotated(
                old(self).bandwidth,
                now_ms,
            ).sparse_sent < old(self).bandwidth.config.sparse_per_window),
            r is None ==> final(self).inference == old(self).inference,
            r is Some ==> final(self).inference.version == (
            if old(self).inference.params@.len() > 0 {
                spec_next_version(old(self).inference.version)
            } else {
                old(self).inference.version
            }) && final(self).inference.params@ == old(self).inference.params@,
            r is Some ==> spec_signed_by(old(self).consensus.crypto, r->Some_0)
                && r->Some_0.payload is SparseUpdate,
            r is Some ==> (r->Some_0.payload matches GgsMessage::SparseUpdate { update, sender: s }
                ==> s@ == old(self).peer_id@ && update.wf() && update.indices@.len() == (
                if SPARSE_TOP_K <= old(self).inference.params@.len() {
                    SPARSE_TOP_K as int
                } else {
                    old(self).inference.params@.len() as int
                })),
    {
        let ghost pid = sender@;
        self.topology.update_peer(
            clone_string(&sender),
            embedding,
            position,
            similarity_micro,
            dist_micro_km,
            now_ms,
        );
        if self.should_send_sparse_update(&sender) {
            self.sparse_reply(now_ms, staking_score_micro)
        } else {
            None
        }
    }

    /// Dispatches one inbound envelope. A failed signature check drops the
    /// message with no state change at all; otherwise the matching handler
    /// runs, and only a neighbor's probe can produce an outbound reply.
    #[verifier::rlimit(100)]
    pub fn handle_signed_message(
        &mut self,
        signed: SignedGossip,
        similarity_micro: i64,
        dist_micro_km: u64,
        now_ms: u64,
        staking_score_micro: i64,
    ) -> (r: Option<SignedGossip>)
        requires
            old(self).wf(),
            signed.payload.wf(),
            -1_000_000 <= similarity_micro <= 1_000_000,
        ensures
            final(self).wf(),
            final(self).peer_id == old(self).peer_id,
            final(self).tick_counter == old(self).tick_counter,
            // a bad signature leaves every store untouched
            !spec_bundle_accepted_here(old(self).consensus, signed) ==> *final(self) == *old(self)
                && r is None,
            r is Some ==> spec_signed_by(old(self).consensus.crypto, r->Some_0)
                && r->Some_0.payload is SparseUpdate,
            signed.payload is Heartbeat || signed.payload is SparseUpdate || signed.payload
                is DenseSnapshot ==> r is None,
            // an accepted heartbeat credits its subject a small reputation
            // gain and touches nothing else
            (spec_bundle_accepted_here(old(self).consensus, signed) && signed.payload
                is Heartbeat) ==> (signed.payload matches GgsMessage::Heartbeat { peer, .. }
                ==> spec_stake_credited(
                old(self).consensus.ledger@,
                final(self).consensus.ledger@,
                peer@,
                0,
                0,
                50_000,
                now_ms,
            ) && final(self).inference == old(self).inference && final(self).topology == old(self).topology && final(self).bandwidth == old(self).bandwidth),
            // an accepted sparse update is blended into the model and earns
            // its sender stake and reputation
            (spec_bundle_accepted_here(old(self).consensus, signed) && signed.payload
                is SparseUpdate) ==> (signed.payload matches GgsMessage::SparseUpdate {
                update,
                sender,
            } ==> spec_sparse_blended(old(self).inference, final(self).inference, update)
                && spec_stake_credited(
                old(self).consensus.ledger@,
                final(self).consensus.ledger@,
                sender@,
                100_000,
                0,
                100_000,
                now_ms,
            ) && final(self).topology == old(self).topology && final(self).bandwidth == old(self).bandwidth),
            // an accepted dense snapshot is blended into the model and earns
            // its sender stake and reputation
            (spec_bundle_accepted_here(old(self).consensus, signed) && signed.payload
                is DenseSnapshot) ==> (signed.payload matches GgsMessage::DenseSnapshot {
                snapshot,
                sender,
            } ==> spec_dense_blended(old(self).inference, final(self).inference, snapshot)
                && spec_stake_credited(
                old(self).consensus.ledger@,
                final(self).consensus.ledger@,
                sender@,
                0,
                200_000,
                50_000,
                now_ms,
            ) && final(self).topology == old(self).topology && final(self).bandwidth == old(self).bandwidth),
            // an accepted probe refreshes or demotes its sender, and the
            // reply is owed exactly when the sender stayed a primary neighbor
            // and the sparse budget admits one more publish
            (spec_bundle_accepted_here(old(self).consensus, signed) && signed.payload
                is SimilarityProbe) ==> (signed.payload matches GgsMessage::SimilarityProbe {
                embedding,
                position,
                sender,
            } ==> final(self).consensus == old(self).consensus && (spec_has_peer(
                final(self).topology.peers@,
                sender@,
            ) ==> spec_probe_profile(
                final(self).topology,
                sender@,
                embedding@,
                position,
                similarity_micro,
                dist_micro_km,
                now_ms,
            )) && (r is Some <==> (spec_has_peer(final(self).topology.peers@, sender@)
                && spec_rotated(old(self).bandwidth, now_ms).sparse_sent < old(self).bandwidth.config.sparse_per_window))),
    {
        if !self.consensus.verify(&signed) {
            return None;
        }
        match signed.payload {
            GgsMessage::Heartbeat { peer, .. } => {
                self.handle_heartbeat(peer, now_ms);
                None
            },
            GgsMessage::SimilarityProbe { embedding, position, sender } => {
                self.handle_probe(
                    sender,
                    embedding,
                    position,
                    similarity_micro,
                    dist_micro_km,
                    now_ms,
                    staking_score_micro,
                )
            },
            GgsMessage::SparseUpdate { update, sender } => {
                self.handle_sparse(sender, &update, now_ms);
                None
            },
            GgsMessage::DenseSnapshot { snapshot, sender } => {
                self.handle_dense(sender, &snapshot, now_ms);
                None
            },
        }
    }

    /// Classifies the topology: backups engaged when the primary pool is
    /// short but backups exist, short backups flagged, healthy otherwise.
    /// Returns the pools it judged.
    pub fn check_topology_health(&self) -> (r: (TopologyHealth, Vec<String>, Vec<String>))
        requires
            self.wf(),
        ensures
            r.0 == TopologyHealth::BackupsEngaged <==> (r.1@.len()
                < self.topology.config.max_neighbors && r.2@.len() > 0),
            r.0 == TopologyHealth::BackupsLow <==> (!(r.1@.len()
                < self.topology.config.max_neighbors && r.2@.len() > 0) && r.2@.len()
                < self.topology.config.failover_pool),
            r.1@.len() <= self.topology.config.max_neighbors,
            r.2@.len() <= self.topology.config.failover_pool,
    {
        let (primary, backups) = self.topology.neighbor_sets();
        let health = if primary.len() < self.topology.max_neighbors() && backups.len() > 0 {
            TopologyHealth::BackupsEngaged
        } else if backups.len() < self.topology.failover_pool() {
            TopologyHealth::BackupsLow
        } else {
            TopologyHealth::Healthy
        };
        (health, primary, backups)
    }
}

/// What a handled probe leaves for the sender, when it survives the demote
/// rule: the profile freshly computed from the given similarity and distance,
/// stamped now, at or above the admission threshold.
pub open spec fn spec_probe_profile(
    t: TopologySelector,
    sender: Seq<char>,
    embedding: Seq<i64>,
    position: GeoPoint,
    similarity: i64,
    dist_micro_km: u64,
    now_ms: u64,
) -> bool {
    let p = spec_profile_of(t.peers@, sender);
    &&& p.similarity == similarity
    &&& p.geo_affinity as int == spec_geo_affinity(t.config.geo_scale_micro_km, dist_micro_km)
    &&& p.score as int == spec_score(similarity as int, p.geo_affinity as int)
    &&& p.last_seen_ms == now_ms
    &&& p.embedding@ == embedding
    &&& p.position == position
    &&& p.score >= t.config.min_score
}

/// What the dispatcher's signature check accepts, over this engine's keys.
pub open spec fn spec_bundle_accepted_here(c: ConsensusEngine, sg: SignedGossip) -> bool {
    crate::crypto::spec_bundle_accepted(
        c.crypto.eth_secret@,
        c.crypto.sol_secret@,
        c.crypto.eth_address@,
        c.crypto.sol_pubkey_b58@,
        crate::codec::spec_enc_message(sg.payload),
        sg.signature.eth.address@,
        sg.signature.eth.signature@,
        sg.signature.sol.pubkey@,
        sg.signature.sol.signature@,
    )
}

/// Whether a string occurs in the list.
fn contains_string(v: &Vec<String>, s: &String) -> (r: bool)
    ensures
        r == exists|i: int| 0 <= i < v@.len() && v@[i]@ == s@,
{
    let n = v.len();
    for i in 0..n
        invariant
            n == v@.len(),
            forall|j: int| 0 <= j < i ==> v@[j]@ != s@,
    {
        if string_eq(&v[i], s) {
            return true;
        }
    }
    false
}

/// Compares two owned strings; relies on vstd's specification of String
/// equality.
fn string_eq(a: &String, b: &String) -> (r: bool)
    ensures
        r == (a@ == b@),
{
    a.eq(b)
}

/// Copies a string; relies on vstd's specification of String::clone.
fn clone_string(s: &String) -> (r: String)
    ensures
        r@ == s@,
{
    s.clone()
}

} // verus!
