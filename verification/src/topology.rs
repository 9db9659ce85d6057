//! The neighbor topology: peers scored by embedding similarity and geographic
//! affinity, ranked into a primary pool and a failover pool, and evicted when
//! stale.

use vstd::prelude::*;
use crate::types::GeoPoint;
use crate::inference::spec_div_trunc;

verus! {

/// Weight of the similarity part of a score, in tenths.
pub const EMBEDDING_WEIGHT_TENTHS: i64 = 6;

/// Weight of the geographic part of a score, in tenths.
pub const GEO_WEIGHT_TENTHS: i64 = 4;

/// Largest accepted geographic scale, in micro-kilometers; keeps the affinity
/// arithmetic inside u64.
pub const GEO_SCALE_MAX: u64 = 1_000_000_000_000;

#[derive(Clone, Debug)]
pub struct PeerProfile {
    pub embedding: Vec<i64>,
    pub position: GeoPoint,
    pub similarity: i64,
    pub geo_affinity: i64,
    pub score: i64,
    pub last_seen_ms: u64,
}

#[derive(Clone, Debug)]
pub struct TopologyConfig {
    pub max_neighbors: usize,
    pub failover_pool: usize,
    pub min_score: i64,
    pub geo_scale_micro_km: u64,
    pub peer_stale_secs: u64,
}

impl TopologyConfig {
    /// The stock topology: 8 primary neighbors, 4 backups, an admission
    /// threshold of 0.15, a 500 km geographic scale and 120 s staleness.
    pub fn default_config() -> (r: TopologyConfig)
        ensures
            r.max_neighbors == 8,
            r.failover_pool == 4,
            r.min_score == 150_000,
            r.geo_scale_micro_km == 500_000_000,
            r.peer_stale_secs == 120,
            r.geo_scale_micro_km <= GEO_SCALE_MAX,
    {
        TopologyConfig {
            max_neighbors: 8,
            failover_pool: 4,
            min_score: 150_000,
            geo_scale_micro_km: 500_000_000,
            peer_stale_secs: 120,
        }
    }
}

impl Default for TopologyConfig {
    /// The stock topology (see `default_config`).
    fn default() -> (r: TopologyConfig)
        ensures
            r.max_neighbors == 8,
            r.failover_pool == 4,
            r.min_score == 150_000,
            r.geo_scale_micro_km == 500_000_000,
            r.peer_stale_secs == 120,
    {
        TopologyConfig::default_config()
    }
}

/// A read-only view of one tracked peer.
#[derive(Clone, Debug)]
pub struct PeerSnapshot {
    pub similarity: i64,
    pub geo_affinity: i64,
    pub position: GeoPoint,
    pub embedding_dim: usize,
}

/// Geographic affinity in micro-units: scale / (scale + distance), which is 1
/// at distance zero and falls toward 0; a zero scale pins it at 0.
pub open spec fn spec_geo_affinity(scale_micro_km: u64, dist_micro_km: u64) -> int {
    if scale_micro_km == 0 {
        0
    } else {
        (scale_micro_km * 1_000_000) / (scale_micro_km + dist_micro_km)
    }
}

/// A peer's score: 0.6 times similarity plus 0.4 times geographic affinity,
/// rounded toward zero.
pub open spec fn spec_score(similarity: int, geo_affinity: int) -> int {
    spec_div_trunc(
        EMBEDDING_WEIGHT_TENTHS * similarity + GEO_WEIGHT_TENTHS * geo_affinity,
        10,
    )
}

/// Whether some position before `bound` in the rank order holds value `v`.
pub open spec fn spec_rank_has(ranked: Seq<usize>, bound: int, v: int) -> bool {
    exists|t: int| 0 <= t < bound && ranked[t] == v
}

/// Whether some entry of a source list holds rank position `v`.
pub open spec fn spec_src_has(src: Seq<int>, v: int) -> bool {
    exists|k: int| 0 <= k < src.len() && src[k] == v
}

/// The peer map position of key `id` (unique keys make the choice
/// determined); it stands for insertion order.
pub open spec fn spec_peer_index(peers: Seq<(String, PeerProfile)>, id: Seq<char>) -> int {
    choose|i: int| 0 <= i < peers.len() && peers[i].0@ == id
}

/// Whether `id` is a tracked peer key.
pub open spec fn spec_has_peer(peers: Seq<(String, PeerProfile)>, id: Seq<char>) -> bool {
    exists|i: int| 0 <= i < peers.len() && peers[i].0@ == id
}

/// The profile stored under `id` (unique keys make the choice determined).
pub open spec fn spec_profile_of(peers: Seq<(String, PeerProfile)>, id: Seq<char>) -> PeerProfile {
    peers[choose|i: int| 0 <= i < peers.len() && peers[i].0@ == id].1
}

/// The peer list with every entry older than `deadline_ms` dropped, in order.
pub open spec fn spec_retain_fresh(peers: Seq<(String, PeerProfile)>, deadline_ms: int) -> Seq<
    (String, PeerProfile),
>
    decreases peers.len(),
{
    if peers.len() == 0 {
        Seq::empty()
    } else {
        let prefix = spec_retain_fresh(peers.drop_last(), deadline_ms);
        if peers.last().1.last_seen_ms >= deadline_ms {
            prefix.push(peers.last())
        } else {
            prefix
        }
    }
}

pub struct TopologySelector {
    pub position: GeoPoint,
    pub peers: Vec<(String, PeerProfile)>,
    pub config: TopologyConfig,
}

impl TopologySelector {
    /// Keys are unique, and the geographic scale small enough to compute with.
    pub open spec fn wf(&self) -> bool {
        &&& forall|i: int, j: int|
            0 <= i < j < self.peers@.len() ==> self.peers@[i].0@ != self.peers@[j].0@
        &&& self.config.geo_scale_micro_km <= GEO_SCALE_MAX
    }

    pub fn new(position: GeoPoint, config: TopologyConfig) -> (r: TopologySelector)
        requires
            config.geo_scale_micro_km <= GEO_SCALE_MAX,
        ensures
            r.wf(),
            r.position == position,
            r.config == config,
            r.peers@.len() == 0,
    {
        TopologySelector { position, peers: Vec::new(), config }
    }

    pub fn position(&self) -> (r: GeoPoint)
        ensures
            r == self.position,
    {
        self.position
    }

    pub fn max_neighbors(&self) -> (r: usize)
        ensures
            r == self.config.max_neighbors,
    {
        self.config.max_neighbors
    }

    pub fn failover_pool(&self) -> (r: usize)
        ensures
            r == self.config.failover_pool,
    {
        self.config.failover_pool
    }

    /// Geographic affinity of a peer at the given great-circle distance.
    pub fn geo_affinity_from_distance(&self, dist_micro_km: u64) -> (r: i64)
        requires
            self.wf(),
        ensures
            r as int == spec_geo_affinity(self.config.geo_scale_micro_km, dist_micro_km),
            0 <= r <= 1_000_000,
    {
        let scale = self.config.geo_scale_micro_km;
        if scale == 0 {
            return 0;
        }
        let num = scale * 1_000_000;
        let den = match scale.checked_add(dist_micro_km) {
            Some(d) => d,
            None => u64::MAX,
        };
        proof {
            if scale + dist_micro_km > u64::MAX {
                assert((scale * 1_000_000) / (scale + dist_micro_km) < (scale * 1_000_000) / (
                u64::MAX as int) + 1) by (nonlinear_arith)
                    requires
                        scale >= 1,
                        scale + dist_micro_km > u64::MAX,
                        scale <= GEO_SCALE_MAX,
                ;
            }
        }
        let q = num / den;
        proof {
            assert(num / den <= 1_000_000) by (nonlinear_arith)
                requires
                    num == scale * 1_000_000,
                    den >= scale,
                    scale >= 1,
            ;
        }
        q as i64
    }

    /// Inserts or refreshes a peer's profile from its probe: the score blends
    /// the given embedding similarity with the geographic affinity of the
    /// given distance, and the entry is stamped `now_ms`. Every entry the
    /// stale window has outlived is then evicted, so afterward all entries
    /// are fresh.
    #[verifier::loop_isolation(false)]
    #[verifier::rlimit(60)]
    pub fn update_peer(
        &mut self,
        peer_id: String,
        embedding: Vec<i64>,
        position: GeoPoint,
        similarity: i64,
        dist_micro_km: u64,
        now_ms: u64,
    )
        requires
            old(self).wf(),
            -1_000_000 <= similarity <= 1_000_000,
        ensures
            final(self).wf(),
            final(self).position == old(self).position,
            final(self).config == old(self).config,
            // the updated peer is present with the freshly computed profile
            spec_has_peer(final(self).peers@, peer_id@),
            ({
                let p = spec_profile_of(final(self).peers@, peer_id@);
                &&& p.similarity == similarity
                &&& p.geo_affinity as int == spec_geo_affinity(
                    old(self).config.geo_scale_micro_km,
                    dist_micro_km,
                )
                &&& p.score as int == spec_score(similarity as int, p.geo_affinity as int)
                &&& p.last_seen_ms == now_ms
                &&& p.embedding@ == embedding@
                &&& p.position == position
            }),
            // staleness eviction: everything kept was seen inside the window
            forall|i: int|
                0 <= i < final(self).peers@.len()
                    ==> #[trigger] final(self).peers@[i].1.last_seen_ms as int >= now_ms as int
                    - old(self).config.peer_stale_secs * 1000,
            // nothing is invented: every kept entry other than the update is
            // drawn unchanged from the old map
            forall|i: int|
                0 <= i < final(self).peers@.len() ==> (#[trigger] final(self).peers@[i].0@
                    == peer_id@ || old(self).peers@.contains(final(self).peers@[i])),
            // every other entry still inside the stale window survives
            forall|j: int|
                0 <= j < old(self).peers@.len() && old(self).peers@[j].0@ != peer_id@ && #[trigger] old(
                    self,
                ).peers@[j].1.last_seen_ms as int >= now_ms as int - old(
                    self,
                ).config.peer_stale_secs * 1000 ==> final(self).peers@.contains(
                    old(self).peers@[j]),
    {
        let geo = self.geo_affinity_from_distance(dist_micro_km);
        let ghost pid = peer_id@;
        let weighted = EMBEDDING_WEIGHT_TENTHS * similarity + GEO_WEIGHT_TENTHS * geo;
        let score: i64 = if weighted >= 0 {
            ((weighted as u64) / 10) as i64
        } else {
            -((((-weighted) as u64) / 10) as i64)
        };
        let profile = PeerProfile {
            embedding,
            position,
            similarity,
            geo_affinity: geo,
            score,
            last_seen_ms: now_ms,
        };
        let ghost gprofile = profile;
        let n = self.peers.len();
        let mut found = false;
        let mut at: usize = 0;
        for i in 0..n
            invariant
                n == self.peers@.len(),
                found ==> (at < n && self.peers@[at as int].0@ == pid),
                !found ==> forall|j: int| 0 <= j < i ==> self.peers@[j].0@ != pid,
        {
            if !found && string_eq(&self.peers[i].0, &peer_id) {
                found = true;
                at = i;
            }
        }
        let ghost before = self.peers@;
        if found {
            self.peers.set(at, (peer_id, profile));
            proof {
                assert forall|i: int, j: int|
                    0 <= i < j < self.peers@.len() implies self.peers@[i].0@
                    != self.peers@[j].0@ by {
                    assert(before[i].0@ != before[j].0@);
                }
            }
        } else {
            self.peers.push((peer_id, profile));
        }
        proof {
            let up = self.peers@;
            assert forall|i: int, j: int|
                0 <= i < j < up.len() implies up[i].0@ != up[j].0@ by {
                if i < before.len() && j < before.len() {
                    assert(before[i].0@ != before[j].0@);
                }
            }
            assert forall|i: int| 0 <= i < up.len() && up[i].0@ == pid implies up[i].1
                == gprofile by {
                if found {
                    if i != at {
                        assert(before[i].0@ == up[i].0@);
                    }
                }
            }
            assert(spec_has_peer(up, pid)) by {
                if found {
                    assert(up[at as int].0@ == pid);
                } else {
                    assert(up[up.len() - 1].0@ == pid);
                }
            }
            assert(up[at as int].1.last_seen_ms == now_ms || !found);
        }
        // eviction pass: drop everything the stale window has outlived
        let stale_window: u64 = match self.config.peer_stale_secs.checked_mul(1000) {
            Some(w) => w,
            None => u64::MAX,
        };
        let deadline: u64 = now_ms.saturating_sub(stale_window);
        let ghost all = self.peers@;
        let mut i: usize = 0;
        let ghost mut j: int = 0;
        while i < self.peers.len()
            invariant
                0 <= j <= all.len(),
                i == spec_retain_fresh(all.take(j), deadline as int).len(),
                self.peers@ == spec_retain_fresh(all.take(j), deadline as int) + all.skip(j),
                self.position == old(self).position,
                self.config == old(self).config,
            decreases all.len() - j,
        {
            proof {
                assert(all.skip(j).len() > 0);
                assert(self.peers@[i as int] == all.skip(j)[0]);
                assert(all.skip(j)[0] == all[j]);
                assert(all.take(j + 1).drop_last() =~= all.take(j));
                assert(all.take(j + 1).last() == all[j]);
            }
            if self.peers[i].1.last_seen_ms >= deadline {
                i = i + 1;
                proof {
                    assert(self.peers@ =~= spec_retain_fresh(all.take(j + 1), deadline as int)
                        + all.skip(j + 1));
                    j = j + 1;
                }
            } else {
                self.peers.remove(i);
                proof {
                    assert(self.peers@ =~= spec_retain_fresh(all.take(j + 1), deadline as int)
                        + all.skip(j + 1));
                    j = j + 1;
                }
            }
        }
        proof {
            assert(all.take(all.len() as int) =~= all);
            assert(j == all.len());
            assert(self.peers@ =~= spec_retain_fresh(all, deadline as int));
            lemma_retain_fresh_facts(all, deadline as int);
            let jj = choose|jj: int|
                0 <= jj < all.len() && all[jj].0@ == pid && all[jj].1.last_seen_ms == now_ms;
            assert(all[jj].1 == gprofile);
            assert(all[jj].1.last_seen_ms >= deadline);
            assert(self.peers@.contains(all[jj]));
            let w = choose|w: int| 0 <= w < self.peers@.len() && self.peers@[w] == all[jj];
            assert(self.peers@[w].0@ == pid);
            assert(spec_has_peer(self.peers@, pid));
            let c = choose|c: int| 0 <= c < self.peers@.len() && self.peers@[c].0@ == pid;
            let jc = choose|jc: int| 0 <= jc < all.len() && all[jc] == self.peers@[c];
            assert(all[jc].0@ == pid);
            assert(all[jc].1 == gprofile);
            assert(spec_profile_of(self.peers@, pid) == gprofile);
            // kept entries with another key come unchanged from the old map
            assert forall|i: int|
                0 <= i < self.peers@.len() && self.peers@[i].0@ != pid implies before.contains(
                self.peers@[i],
            ) by {
                let j2 = choose|j2: int| 0 <= j2 < all.len() && all[j2] == self.peers@[i];
                if found {
                    assert(j2 != at);
                    assert(all[j2] == before[j2]);
                } else {
                    assert(j2 < before.len());
                    assert(all[j2] == before[j2]);
                }
            }
            // other fresh old entries survive the eviction
            assert forall|j2: int|
                0 <= j2 < before.len() && before[j2].0@ != pid && before[j2].1.last_seen_ms as int
                    >= now_ms as int - self.config.peer_stale_secs * 1000 implies self.peers@.contains(
                before[j2],
            ) by {
                if found {
                    assert(all[j2] == before[j2]);
                } else {
                    assert(all[j2] == before[j2]);
                }
                assert(all[j2].1.last_seen_ms >= deadline);
            }
        }
    }

    /// Ranks every tracked peer by score, highest first and ties by
    /// insertion order, drops those below the admission threshold, and fills
    /// the primary pool first and then the failover pool. A peer below
    /// `min_score` never appears in either pool; the failover pool only opens
    /// once the primary pool is full; and while the primary pool has room no
    /// admissible peer is left out.
    #[verifier::loop_isolation(false)]
    #[verifier::rlimit(100)]
    #[verifier::spinoff_prover]
    pub fn neighbor_sets(&self) -> (r: (Vec<String>, Vec<String>))
        requires
            self.wf(),
        ensures
            r.0@.len() <= self.config.max_neighbors,
            r.1@.len() <= self.config.failover_pool,
            forall|k: int|
                0 <= k < r.0@.len() ==> spec_has_peer(self.peers@, #[trigger] r.0@[k]@)
                    && spec_profile_of(self.peers@, r.0@[k]@).score >= self.config.min_score,
            forall|k: int|
                0 <= k < r.1@.len() ==> spec_has_peer(self.peers@, #[trigger] r.1@[k]@)
                    && spec_profile_of(self.peers@, r.1@[k]@).score >= self.config.min_score,
            forall|k1: int, k2: int| 0 <= k1 < k2 < r.0@.len() ==> r.0@[k1]@ != r.0@[k2]@,
            forall|k1: int, k2: int| 0 <= k1 < k2 < r.1@.len() ==> r.1@[k1]@ != r.1@[k2]@,
            forall|k1: int, k2: int|
                0 <= k1 < r.0@.len() && 0 <= k2 < r.1@.len() ==> r.0@[k1]@ != r.1@[k2]@,
            r.1@.len() > 0 ==> r.0@.len() == self.config.max_neighbors,
            // both pools are listed in rank order — score falling, ties by
            // insertion order — and every primary entry outranks or ties
            // every backup
            forall|k1: int, k2: int|
                0 <= k1 < k2 < r.0@.len() ==> spec_profile_of(self.peers@, r.0@[k1]@).score
                    > spec_profile_of(self.peers@, r.0@[k2]@).score || (spec_profile_of(
                    self.peers@,
                    r.0@[k1]@,
                ).score == spec_profile_of(self.peers@, r.0@[k2]@).score && spec_peer_index(
                    self.peers@,
                    r.0@[k1]@,
                ) < spec_peer_index(self.peers@, r.0@[k2]@)),
            forall|k1: int, k2: int|
                0 <= k1 < k2 < r.1@.len() ==> spec_profile_of(self.peers@, r.1@[k1]@).score
                    > spec_profile_of(self.peers@, r.1@[k2]@).score || (spec_profile_of(
                    self.peers@,
                    r.1@[k1]@,
                ).score == spec_profile_of(self.peers@, r.1@[k2]@).score && spec_peer_index(
                    self.peers@,
                    r.1@[k1]@,
                ) < spec_peer_index(self.peers@, r.1@[k2]@)),
            forall|k1: int, k2: int|
                0 <= k1 < r.0@.len() && 0 <= k2 < r.1@.len() ==> spec_profile_of(
                    self.peers@,
                    r.0@[k1]@,
                ).score >= spec_profile_of(self.peers@, r.1@[k2]@).score,
            // while the primary pool has room, every admissible peer stands
            // in it
            r.0@.len() < self.config.max_neighbors ==> forall|i: int|
                0 <= i < self.peers@.len() && #[trigger] self.peers@[i].1.score
                    >= self.config.min_score ==> exists|k: int|
                    0 <= k < r.0@.len() && r.0@[k]@ == self.peers@[i].0@,
            // while the failover pool has room, every admissible peer stands
            // in one of the pools
            r.1@.len() < self.config.failover_pool ==> forall|i: int|
                0 <= i < self.peers@.len() && #[trigger] self.peers@[i].1.score
                    >= self.config.min_score ==> (exists|k: int|
                    0 <= k < r.0@.len() && r.0@[k]@ == self.peers@[i].0@) || (exists|k: int|
                    0 <= k < r.1@.len() && r.1@[k]@ == self.peers@[i].0@),
            // an admissible peer left out of both pools never outscores a
            // backup member
            forall|i: int, k2: int|
                #![trigger self.peers@[i].1.score, r.1@[k2]]
                0 <= i < self.peers@.len() && self.peers@[i].1.score >= self.config.min_score && !(
                exists|k: int| 0 <= k < r.0@.len() && r.0@[k]@ == self.peers@[i].0@) && !(
                exists|k: int| 0 <= k < r.1@.len() && r.1@[k]@ == self.peers@[i].0@) && 0 <= k2
                    < r.1@.len() ==> spec_profile_of(self.peers@, r.1@[k2]@).score
                    >= self.peers@[i].1.score,
    {
        let ghost peers = self.peers@;
        let n = self.peers.len();
        // rank by score, highest first, stable by insertion order
        let mut ranked: Vec<usize> = Vec::new();
        let mut i: usize = 0;
        while i < n
            invariant
                i <= n,
                ranked@.len() == i,
                forall|t: int| 0 <= t < i ==> #[trigger] ranked@[t] < i,
                forall|t1: int, t2: int|
                    0 <= t1 < t2 < i ==> peers[ranked@[t1] as int].1.score > peers[ranked@[t2] as int].1.score
                        || (peers[ranked@[t1] as int].1.score == peers[ranked@[t2] as int].1.score
                        && ranked@[t1] < ranked@[t2]),
                forall|v: int| 0 <= v < i ==> #[trigger] spec_rank_has(ranked@, i as int, v),
            decreases n - i,
        {
            let sc = self.peers[i].1.score;
            let mut p: usize = 0;
            while p < ranked.len() && self.peers[ranked[p]].1.score >= sc
                invariant
                    p <= i,
                    ranked@.len() == i,
                    forall|t: int| 0 <= t < i ==> #[trigger] ranked@[t] < i,
                    forall|q: int|
                        0 <= q < p ==> peers[#[trigger] ranked@[q] as int].1.score >= sc,
                decreases ranked@.len() - p,
            {
                p = p + 1;
            }
            let ghost oldr = ranked@;
            ranked.insert(p, i);
            proof {
                assert forall|t: int| 0 <= t < i + 1 implies #[trigger] ranked@[t] < i + 1 by {
                    if t < p {
                        assert(ranked@[t] == oldr[t]);
                    } else if t > p {
                        assert(ranked@[t] == oldr[t - 1]);
                    }
                }
                assert forall|v: int|
                    0 <= v < i + 1 implies #[trigger] spec_rank_has(ranked@, i + 1, v) by {
                    if v == i {
                        assert(ranked@[p as int] == v);
                    } else {
                        assert(spec_rank_has(oldr, i as int, v));
                        let t = choose|t: int| 0 <= t < i && oldr[t] == v;
                        if t < p {
                            assert(ranked@[t] == v);
                        } else {
                            assert(ranked@[t + 1] == v);
                        }
                    }
                }
                assert forall|t1: int, t2: int|
                    0 <= t1 < t2 < i + 1 implies peers[ranked@[t1] as int].1.score > peers[ranked@[t2] as int].1.score
                        || (peers[ranked@[t1] as int].1.score == peers[ranked@[t2] as int].1.score
                        && ranked@[t1] < ranked@[t2]) by {
                    if t1 < p && t2 < p {
                        assert(ranked@[t1] == oldr[t1] && ranked@[t2] == oldr[t2]);
                    } else if t1 < p && t2 == p {
                        assert(ranked@[t1] == oldr[t1] && ranked@[t2] == i);
                        assert(peers[oldr[t1] as int].1.score >= sc);
                        assert(oldr[t1] < i);
                    } else if t1 < p && t2 > p {
                        assert(ranked@[t1] == oldr[t1] && ranked@[t2] == oldr[t2 - 1]);
                    } else if t1 == p && t2 > p {
                        // everything at or past the insertion point scores under sc
                        assert(ranked@[t1] == i && ranked@[t2] == oldr[t2 - 1]);
                        if p < oldr.len() {
                            assert(peers[oldr[p as int] as int].1.score < sc);
                            if t2 - 1 > p {
                                assert(peers[oldr[p as int] as int].1.score >= peers[oldr[t2 - 1] as int].1.score);
                            }
                        }
                    } else {
                        assert(ranked@[t1] == oldr[t1 - 1] && ranked@[t2] == oldr[t2 - 1]);
                    }
                }
            }
            i = i + 1;
        }
        // fill the pools in rank order
        let max_n = self.config.max_neighbors;
        let cap_b = self.config.failover_pool;
        let min_s = self.config.min_score;
        let mut primary: Vec<String> = Vec::new();
        let mut backups: Vec<String> = Vec::new();
        let ghost mut srcp: Seq<int> = Seq::empty();
        let ghost mut srcb: Seq<int> = Seq::empty();
        let mut t: usize = 0;
        while t < n
            invariant
                t <= n,
                ranked@.len() == n,
                forall|q: int| 0 <= q < n ==> #[trigger] ranked@[q] < n,
                forall|t1: int, t2: int|
                    0 <= t1 < t2 < n ==> peers[ranked@[t1] as int].1.score > peers[ranked@[t2] as int].1.score
                        || (peers[ranked@[t1] as int].1.score == peers[ranked@[t2] as int].1.score
                        && ranked@[t1] < ranked@[t2]),
                forall|v: int| 0 <= v < n ==> #[trigger] spec_rank_has(ranked@, n as int, v),
                srcp.len() == primary@.len(),
                srcb.len() == backups@.len(),
                primary@.len() <= max_n,
                backups@.len() <= cap_b,
                forall|k: int| 0 <= k < srcp.len() ==> 0 <= #[trigger] srcp[k] < t,
                forall|k: int| 0 <= k < srcb.len() ==> 0 <= #[trigger] srcb[k] < t,
                forall|k1: int, k2: int| 0 <= k1 < k2 < srcp.len() ==> srcp[k1] < srcp[k2],
                forall|k1: int, k2: int| 0 <= k1 < k2 < srcb.len() ==> srcb[k1] < srcb[k2],
                forall|k1: int, k2: int|
                    0 <= k1 < srcp.len() && 0 <= k2 < srcb.len() ==> srcp[k1] < srcb[k2],
                forall|k: int|
                    0 <= k < srcp.len() ==> primary@[k]@ == peers[ranked@[#[trigger] srcp[k]] as int].0@
                        && peers[ranked@[srcp[k]] as int].1.score >= min_s,
                forall|k: int|
                    0 <= k < srcb.len() ==> backups@[k]@ == peers[ranked@[#[trigger] srcb[k]] as int].0@
                        && peers[ranked@[srcb[k]] as int].1.score >= min_s,
                backups@.len() > 0 ==> primary@.len() == max_n,
                primary@.len() < max_n ==> backups@.len() == 0 && (forall|s: int|
                    0 <= s < t && peers[#[trigger] ranked@[s] as int].1.score >= min_s
                        ==> spec_src_has(srcp, s)),
                backups@.len() < cap_b ==> (forall|s: int|
                    0 <= s < t && peers[#[trigger] ranked@[s] as int].1.score >= min_s
                        ==> spec_src_has(srcp, s) || spec_src_has(srcb, s)),
                forall|s: int|
                    0 <= s < t && peers[#[trigger] ranked@[s] as int].1.score >= min_s
                        && !spec_src_has(srcp, s) && !spec_src_has(srcb, s) ==> (srcb.len()
                        == cap_b && forall|k2: int| 0 <= k2 < srcb.len() ==> srcb[k2] < s),
            decreases n - t,
        {
            let ghost srcp0 = srcp;
            let ghost srcb0 = srcb;
            let ghost prim_len0 = primary@.len();
            let ghost back_len0 = backups@.len();
            let idx = ranked[t];
            let sc = self.peers[idx].1.score;
            if sc >= min_s {
                if primary.len() < max_n {
                    primary.push(clone_string(&self.peers[idx].0));
                    proof {
                        srcp = srcp.push(t as int);
                    }
                } else if backups.len() < cap_b {
                    backups.push(clone_string(&self.peers[idx].0));
                    proof {
                        srcb = srcb.push(t as int);
                    }
                }
            }
            proof {
                assert forall|s: int| spec_src_has(srcp0, s) implies spec_src_has(srcp, s) by {
                    let k = choose|k: int| 0 <= k < srcp0.len() && srcp0[k] == s;
                    assert(srcp[k] == s);
                }
                assert forall|s: int| spec_src_has(srcb0, s) implies spec_src_has(srcb, s) by {
                    let k = choose|k: int| 0 <= k < srcb0.len() && srcb0[k] == s;
                    assert(srcb[k] == s);
                }
                if primary@.len() > prim_len0 {
                    assert(srcp[srcp.len() - 1] == t);
                    assert(spec_src_has(srcp, t as int));
                }
                if backups@.len() > back_len0 {
                    assert(srcb[srcb.len() - 1] == t);
                    assert(spec_src_has(srcb, t as int));
                }
                if primary@.len() < max_n {
                    assert forall|s: int|
                        0 <= s < t + 1 && peers[#[trigger] ranked@[s] as int].1.score
                            >= min_s implies spec_src_has(srcp, s) by {
                        if s < t {
                            assert(prim_len0 < max_n);
                            assert(spec_src_has(srcp0, s));
                        }
                    }
                }
                if backups@.len() < cap_b {
                    assert forall|s: int|
                        0 <= s < t + 1 && peers[#[trigger] ranked@[s] as int].1.score
                            >= min_s implies spec_src_has(srcp, s) || spec_src_has(srcb, s) by {
                        if s < t {
                            assert(back_len0 < cap_b);
                            assert(spec_src_has(srcp0, s) || spec_src_has(srcb0, s));
                        }
                    }
                }
                assert forall|s: int|
                    0 <= s < t + 1 && peers[#[trigger] ranked@[s] as int].1.score >= min_s
                        && !spec_src_has(srcp, s) && !spec_src_has(srcb, s) implies (srcb.len()
                        == cap_b && forall|k2: int| 0 <= k2 < srcb.len() ==> srcb[k2] < s) by {
                    if s < t {
                        assert(!spec_src_has(srcp0, s));
                        assert(!spec_src_has(srcb0, s));
                        assert(srcb0.len() == cap_b);
                        assert(srcb == srcb0);
                    } else {
                        // skipped here: both pools were already full
                        assert(srcb == srcb0);
                        assert(srcb.len() == cap_b);
                    }
                }
            }
            t = t + 1;
        }
        proof {
            // distinct ranks give distinct peers give distinct keys
            assert forall|k1: int, k2: int|
                0 <= k1 < k2 < primary@.len() implies primary@[k1]@ != primary@[k2]@ by {
                lemma_rank_keys_differ(peers, ranked@, srcp[k1], srcp[k2]);
            }
            assert forall|k1: int, k2: int|
                0 <= k1 < k2 < backups@.len() implies backups@[k1]@ != backups@[k2]@ by {
                lemma_rank_keys_differ(peers, ranked@, srcb[k1], srcb[k2]);
            }
            assert forall|k1: int, k2: int|
                0 <= k1 < primary@.len() && 0 <= k2 < backups@.len() implies primary@[k1]@
                != backups@[k2]@ by {
                lemma_rank_keys_differ(peers, ranked@, srcp[k1], srcb[k2]);
            }
            // each listed key names a tracked peer that passes the threshold
            assert forall|k: int|
                0 <= k < primary@.len() implies spec_has_peer(peers, #[trigger] primary@[k]@)
                    && spec_profile_of(peers, primary@[k]@).score >= min_s && spec_peer_index(
                    peers,
                    primary@[k]@,
                ) == ranked@[srcp[k]] as int by {
                let i = ranked@[srcp[k]] as int;
                assert(peers[i].0@ == primary@[k]@);
                assert(spec_has_peer(peers, primary@[k]@));
                let c = choose|c: int| 0 <= c < peers.len() && peers[c].0@ == primary@[k]@;
                assert(c == i);
                let ci = spec_peer_index(peers, primary@[k]@);
                assert(0 <= ci < peers.len() && peers[ci].0@ == primary@[k]@);
                assert(ci == i);
            }
            assert forall|k: int|
                0 <= k < backups@.len() implies spec_has_peer(peers, #[trigger] backups@[k]@)
                    && spec_profile_of(peers, backups@[k]@).score >= min_s && spec_peer_index(
                    peers,
                    backups@[k]@,
                ) == ranked@[srcb[k]] as int by {
                let i = ranked@[srcb[k]] as int;
                assert(peers[i].0@ == backups@[k]@);
                assert(spec_has_peer(peers, backups@[k]@));
                let c = choose|c: int| 0 <= c < peers.len() && peers[c].0@ == backups@[k]@;
                assert(c == i);
                let ci = spec_peer_index(peers, backups@[k]@);
                assert(0 <= ci < peers.len() && peers[ci].0@ == backups@[k]@);
                assert(ci == i);
            }
            // rank order carries over into the pools, ties by insertion order
            assert forall|k1: int, k2: int|
                0 <= k1 < k2 < primary@.len() implies spec_profile_of(
                peers,
                primary@[k1]@,
            ).score > spec_profile_of(peers, primary@[k2]@).score || (spec_profile_of(
                peers,
                primary@[k1]@,
            ).score == spec_profile_of(peers, primary@[k2]@).score && spec_peer_index(
                peers,
                primary@[k1]@,
            ) < spec_peer_index(peers, primary@[k2]@)) by {
                let s1 = srcp[k1];
                let s2 = srcp[k2];
                assert(peers[ranked@[s1] as int].1.score > peers[ranked@[s2] as int].1.score || (
                peers[ranked@[s1] as int].1.score == peers[ranked@[s2] as int].1.score
                    && ranked@[s1] < ranked@[s2]));
            }
            assert forall|k1: int, k2: int|
                0 <= k1 < k2 < backups@.len() implies spec_profile_of(
                peers,
                backups@[k1]@,
            ).score > spec_profile_of(peers, backups@[k2]@).score || (spec_profile_of(
                peers,
                backups@[k1]@,
            ).score == spec_profile_of(peers, backups@[k2]@).score && spec_peer_index(
                peers,
                backups@[k1]@,
            ) < spec_peer_index(peers, backups@[k2]@)) by {
                let s1 = srcb[k1];
                let s2 = srcb[k2];
                assert(peers[ranked@[s1] as int].1.score > peers[ranked@[s2] as int].1.score || (
                peers[ranked@[s1] as int].1.score == peers[ranked@[s2] as int].1.score
                    && ranked@[s1] < ranked@[s2]));
            }
            assert forall|k1: int, k2: int|
                0 <= k1 < primary@.len() && 0 <= k2 < backups@.len() implies spec_profile_of(
                peers,
                primary@[k1]@,
            ).score >= spec_profile_of(peers, backups@[k2]@).score by {
                lemma_pool_rank_order(peers, ranked@, srcp[k1], srcb[k2]);
            }
            // with room left in the primary pool, every admissible peer is in it
            if primary@.len() < max_n {
                assert forall|i: int|
                    0 <= i < peers.len() && #[trigger] peers[i].1.score >= min_s implies exists|k: int|
                    0 <= k < primary@.len() && primary@[k]@ == peers[i].0@ by {
                    assert(spec_rank_has(ranked@, n as int, i));
                    let s = choose|s: int| 0 <= s < n && ranked@[s] == i;
                    assert(peers[ranked@[s] as int].1.score >= min_s);
                    assert(spec_src_has(srcp, s));
                    let k = choose|k: int| 0 <= k < srcp.len() && srcp[k] == s;
                    assert(primary@[k]@ == peers[i].0@);
                }
            }
            // with room left in the failover pool, every admissible peer is
            // in one of the pools
            if backups@.len() < cap_b {
                assert forall|i: int|
                    0 <= i < peers.len() && #[trigger] peers[i].1.score >= min_s implies (exists|k: int|
                    0 <= k < primary@.len() && primary@[k]@ == peers[i].0@) || (exists|k: int|
                    0 <= k < backups@.len() && backups@[k]@ == peers[i].0@) by {
                    assert(spec_rank_has(ranked@, n as int, i));
                    let s = choose|s: int| 0 <= s < n && ranked@[s] == i;
                    assert(peers[ranked@[s] as int].1.score >= min_s);
                    assert(spec_src_has(srcp, s) || spec_src_has(srcb, s));
                    if spec_src_has(srcp, s) {
                        let k = choose|k: int| 0 <= k < srcp.len() && srcp[k] == s;
                        assert(primary@[k]@ == peers[i].0@);
                    } else {
                        let k = choose|k: int| 0 <= k < srcb.len() && srcb[k] == s;
                        assert(backups@[k]@ == peers[i].0@);
                    }
                }
            }
            // an excluded admissible peer never outscores a backup member
            assert forall|i: int, k2: int|
                #![trigger peers[i].1.score, backups@[k2]]
                0 <= i < peers.len() && peers[i].1.score >= min_s && !(exists|k: int|
                    0 <= k < primary@.len() && primary@[k]@ == peers[i].0@) && !(exists|k: int|
                    0 <= k < backups@.len() && backups@[k]@ == peers[i].0@) && 0 <= k2
                    < backups@.len() implies spec_profile_of(peers, backups@[k2]@).score
                >= peers[i].1.score by {
                assert(spec_rank_has(ranked@, n as int, i));
                let s = choose|s: int| 0 <= s < n && ranked@[s] == i;
                assert(peers[ranked@[s] as int].1.score >= min_s);
                assert(!spec_src_has(srcp, s)) by {
                    if spec_src_has(srcp, s) {
                        let k = choose|k: int| 0 <= k < srcp.len() && srcp[k] == s;
                        assert(primary@[k]@ == peers[i].0@);
                    }
                }
                assert(!spec_src_has(srcb, s)) by {
                    if spec_src_has(srcb, s) {
                        let k = choose|k: int| 0 <= k < srcb.len() && srcb[k] == s;
                        assert(backups@[k]@ == peers[i].0@);
                    }
                }
                assert(srcb[k2] < s);
                lemma_pool_rank_order(peers, ranked@, srcb[k2], s);
            }
        }
        (primary, backups)
    }

    /// The primary neighbor list alone.
    pub fn select_neighbors(&self) -> (r: Vec<String>)
        requires
            self.wf(),
        ensures
            r@.len() <= self.config.max_neighbors,
            forall|k: int|
                0 <= k < r@.len() ==> spec_has_peer(self.peers@, #[trigger] r@[k]@)
                    && spec_profile_of(self.peers@, r@[k]@).score >= self.config.min_score,
    {
        let (primary, _backups) = self.neighbor_sets();
        primary
    }

    /// Removes a peer outright. Every other entry stays, unchanged and in
    /// order.
    #[verifier::loop_isolation(false)]
    pub fn mark_unreachable(&mut self, peer_id: &String)
        requires
            old(self).wf(),
        ensures
            final(self).wf(),
            final(self).position == old(self).position,
            final(self).config == old(self).config,
            !spec_has_peer(final(self).peers@, peer_id@),
            forall|i: int|
                0 <= i < final(self).peers@.len() ==> old(self).peers@.contains(
                    #[trigger] final(self).peers@[i],
                ),
            forall|j: int|
                0 <= j < old(self).peers@.len() && old(self).peers@[j].0@ != peer_id@ ==> final(self).peers@.contains(#[trigger] old(self).peers@[j]),
    {
        let ghost all = self.peers@;
        let n = self.peers.len();
        let mut found = false;
        let mut at: usize = 0;
        for i in 0..n
            invariant
                n == self.peers@.len(),
                all == self.peers@,
                found ==> (at < n && all[at as int].0@ == peer_id@),
                !found ==> forall|j: int| 0 <= j < i ==> all[j].0@ != peer_id@,
        {
            if !found && string_eq(&self.peers[i].0, peer_id) {
                found = true;
                at = i;
            }
        }
        if !found {
            proof {
                assert forall|i: int|
                    0 <= i < self.peers@.len() implies all.contains(
                    #[trigger] self.peers@[i],
                ) by {
                    assert(all[i] == self.peers@[i]);
                }
            }
        }
        if found {
            self.peers.remove(at);
            proof {
                assert forall|i: int|
                    0 <= i < self.peers@.len() implies all.contains(
                    #[trigger] self.peers@[i],
                ) by {
                    if i < at {
                        assert(all[i] == self.peers@[i]);
                    } else {
                        assert(all[i + 1] == self.peers@[i]);
                    }
                }
                assert forall|i: int| 0 <= i < self.peers@.len() implies self.peers@[i].0@
                    != peer_id@ by {
                    if i < at {
                        assert(self.peers@[i] == all[i]);
                    } else {
                        assert(self.peers@[i] == all[i + 1]);
                    }
                }
                assert forall|j: int|
                    0 <= j < all.len() && all[j].0@ != peer_id@ implies self.peers@.contains(
                    #[trigger] all[j],
                ) by {
                    if j < at {
                        assert(self.peers@[j] == all[j]);
                    } else {
                        assert(j > at);
                        assert(self.peers@[j - 1] == all[j]);
                    }
                }
                assert forall|i: int, j: int|
                    0 <= i < j < self.peers@.len() implies self.peers@[i].0@
                    != self.peers@[j].0@ by {
                    let i0: int = if i < at {
                        i
                    } else {
                        i + 1
                    };
                    let j0: int = if j < at {
                        j
                    } else {
                        j + 1
                    };
                    assert(self.peers@[i] == all[i0]);
                    assert(self.peers@[j] == all[j0]);
                }
            }
        }
    }

    /// A view of one peer's stored profile, if it is tracked.
    #[verifier::loop_isolation(false)]
    pub fn peer_snapshot(&self, peer_id: &String) -> (r: Option<PeerSnapshot>)
        requires
            self.wf(),
        ensures
            r is Some <==> spec_has_peer(self.peers@, peer_id@),
            r is Some ==> ({
                let p = spec_profile_of(self.peers@, peer_id@);
                &&& r->Some_0.similarity == p.similarity
                &&& r->Some_0.geo_affinity == p.geo_affinity
                &&& r->Some_0.position == p.position
                &&& r->Some_0.embedding_dim == p.embedding@.len()
            }),
    {
        let n = self.peers.len();
        for i in 0..n
            invariant
                n == self.peers@.len(),
                forall|j: int| 0 <= j < i ==> self.peers@[j].0@ != peer_id@,
                self.wf(),
        {
            if string_eq(&self.peers[i].0, peer_id) {
                let p = &self.peers[i].1;
                return Some(
                    PeerSnapshot {
                        similarity: p.similarity,
                        geo_affinity: p.geo_affinity,
                        position: p.position,
                        embedding_dim: p.embedding.len(),
                    },
                );
            }
        }
        None
    }
}

/// What the eviction pass guarantees: kept entries are fresh, drawn from the
/// input, keep distinct keys, and every fresh input entry is kept.
proof fn lemma_retain_fresh_facts(peers: Seq<(String, PeerProfile)>, deadline: int)
    requires
        forall|i: int, j: int| 0 <= i < j < peers.len() ==> peers[i].0@ != peers[j].0@,
    ensures
        forall|i: int|
            0 <= i < spec_retain_fresh(peers, deadline).len()
                ==> #[trigger] spec_retain_fresh(peers, deadline)[i].1.last_seen_ms >= deadline,
        forall|i: int|
            0 <= i < spec_retain_fresh(peers, deadline).len() ==> exists|j: int|
                0 <= j < peers.len() && peers[j] == #[trigger] spec_retain_fresh(peers, deadline)[i],
        forall|i: int, j: int|
            0 <= i < j < spec_retain_fresh(peers, deadline).len() ==> spec_retain_fresh(
                peers,
                deadline,
            )[i].0@ != spec_retain_fresh(peers, deadline)[j].0@,
        forall|j: int|
            0 <= j < peers.len() && peers[j].1.last_seen_ms >= deadline ==> spec_retain_fresh(
                peers,
                deadline,
            ).contains(#[trigger] peers[j]),
    decreases peers.len(),
{
    if peers.len() > 0 {
        lemma_retain_fresh_facts(peers.drop_last(), deadline);
        let out = spec_retain_fresh(peers, deadline);
        let prefix = spec_retain_fresh(peers.drop_last(), deadline);
        assert forall|j: int|
            0 <= j < peers.len() && peers[j].1.last_seen_ms >= deadline implies out.contains(
            #[trigger] peers[j],
        ) by {
            if j == peers.len() - 1 {
                assert(out[out.len() - 1] == peers[j]);
            } else {
                assert(peers.drop_last()[j] == peers[j]);
                assert(prefix.contains(peers[j]));
                let k = choose|k: int| 0 <= k < prefix.len() && prefix[k] == peers[j];
                assert(out[k] == peers[j]);
            }
        }
    }
}

/// An earlier rank position scores at least as high as a later one.
proof fn lemma_pool_rank_order(
    peers: Seq<(String, PeerProfile)>,
    ranked: Seq<usize>,
    s1: int,
    s2: int,
)
    requires
        forall|q: int| 0 <= q < ranked.len() ==> #[trigger] ranked[q] < peers.len(),
        forall|t1: int, t2: int|
            0 <= t1 < t2 < ranked.len() ==> peers[ranked[t1] as int].1.score > peers[ranked[t2] as int].1.score
                || (peers[ranked[t1] as int].1.score == peers[ranked[t2] as int].1.score
                && ranked[t1] < ranked[t2]),
        0 <= s1 < s2 < ranked.len(),
    ensures
        peers[ranked[s1] as int].1.score >= peers[ranked[s2] as int].1.score,
{
}

/// Two positions in the rank order name different peers, so their keys
/// differ.
proof fn lemma_rank_keys_differ(
    peers: Seq<(String, PeerProfile)>,
    ranked: Seq<usize>,
    s1: int,
    s2: int,
)
    requires
        forall|i: int, j: int| 0 <= i < j < peers.len() ==> peers[i].0@ != peers[j].0@,
        ranked.len() == peers.len(),
        forall|q: int| 0 <= q < ranked.len() ==> #[trigger] ranked[q] < peers.len(),
        forall|t1: int, t2: int|
            0 <= t1 < t2 < ranked.len() ==> peers[ranked[t1] as int].1.score > peers[ranked[t2] as int].1.score
                || (peers[ranked[t1] as int].1.score == peers[ranked[t2] as int].1.score
                && ranked[t1] < ranked[t2]),
        0 <= s1 < s2 < ranked.len(),
    ensures
        peers[ranked[s1] as int].0@ != peers[ranked[s2] as int].0@,
{
    assert(ranked[s1] != ranked[s2]);
    if ranked[s1] < ranked[s2] {
        assert(peers[ranked[s1] as int].0@ != peers[ranked[s2] as int].0@);
    } else {
        assert(peers[ranked[s2] as int].0@ != peers[ranked[s1] as int].0@);
    }
}

/// Compares two owned strings; relies on vstd's specification of String
/// equality.
fn string_eq(a: &String, b: &String) -> (r: bool)
    ensures
        r == (a@ == b@),
{
    a.eq(b)
}

/// Copies a string; relies on vstd's specification of String::clone.
fn clone_string(s: &String) -> (r: String)
    ensures
        r@ == s@,
{
    s.clone()
}

} // verus!
