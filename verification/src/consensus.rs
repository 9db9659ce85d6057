//! The consensus layer: a stake-and-reputation ledger keyed by peer id, and
//! signing/verification of canonical message bytes through the crypto suite.

use vstd::prelude::*;
use crate::codec::{decode_message, encode_message, spec_enc_message, take_i64, take_string};
use crate::crypto::{
    spec_bundle_accepted, spec_eth_sig_hex, spec_sol_sig_b58, CryptoSuite, EthSignature,
    SignatureBundle, SolSignature,
};
use crate::types::GgsMessage;

verus! {

/// The combined stake weight is clipped into [0, 5] units.
pub const WEIGHT_CAP: i64 = 5_000_000;

/// Default stake on first observation: 1.0 units on curve A.
pub const DEFAULT_STAKE_A: u64 = 1_000_000;

/// Default stake on first observation: 0.1 units on curve B.
pub const DEFAULT_STAKE_B: u64 = 100_000;

/// Default reputation on first observation: 1.0 units.
pub const DEFAULT_REPUTATION: i64 = 1_000_000;

/// Reputation never falls below -1 unit.
pub const REPUTATION_FLOOR: i64 = -1_000_000;

/// One peer's stakes (micro-units, never negative), reputation (micro-units,
/// floored at -1 unit) and last-seen stamp.
#[derive(Clone, Debug)]
pub struct StakeRecord {
    pub stake_a: u64,
    pub stake_b: u64,
    pub reputation: i64,
    pub last_seen_ms: u64,
}

impl StakeRecord {
    pub open spec fn wf(&self) -> bool {
        self.reputation >= REPUTATION_FLOOR
    }
}

/// A stake amount after a signed delta: clipped at zero from below and at the
/// machine bound from above.
pub open spec fn spec_apply_stake(a: u64, d: i64) -> u64 {
    let s = a + d;
    if s < 0 {
        0u64
    } else if s > u64::MAX {
        u64::MAX
    } else {
        s as u64
    }
}

/// A reputation after a signed delta: floored at -1 unit, clipped at the
/// machine bound from above.
pub open spec fn spec_apply_reputation(rep: i64, d: i64) -> i64 {
    let s = rep + d;
    if s < REPUTATION_FLOOR {
        REPUTATION_FLOOR
    } else if s > i64::MAX {
        i64::MAX
    } else {
        s as i64
    }
}

/// Applies a signed delta to an unsigned stake.
fn apply_stake(a: u64, d: i64) -> (r: u64)
    ensures
        r == spec_apply_stake(a, d),
{
    if d >= 0 {
        a.saturating_add(d as u64)
    } else if d > i64::MIN {
        a.saturating_sub((-d) as u64)
    } else {
        a.saturating_sub(9_223_372_036_854_775_808u64)
    }
}

/// Applies a signed delta to a reputation, keeping the floor.
fn apply_reputation(rep: i64, d: i64) -> (r: i64)
    requires
        rep >= REPUTATION_FLOOR,
    ensures
        r == spec_apply_reputation(rep, d),
        r >= REPUTATION_FLOOR,
{
    match rep.checked_add(d) {
        Some(s) => {
            if s < REPUTATION_FLOOR {
                REPUTATION_FLOOR
            } else {
                s
            }
        },
        None => {
            if d > 0 {
                i64::MAX
            } else {
                REPUTATION_FLOOR
            }
        },
    }
}

/// Law: a combined weight is always inside [0, 5] units, whatever the ledger
/// holds; this clip is the last step of the weight formula.
pub fn clamp_weight_micro(w: i64) -> (r: i64)
    ensures
        r == spec_weight_clip(w as int),
        0 <= r <= WEIGHT_CAP,
{
    if w < 0 {
        0
    } else if w > WEIGHT_CAP {
        WEIGHT_CAP
    } else {
        w
    }
}

/// The weight clip: into [0, 5] units.
pub open spec fn spec_weight_clip(w: int) -> int {
    if w < 0 {
        0
    } else if w > WEIGHT_CAP {
        WEIGHT_CAP as int
    } else {
        w
    }
}

/// A signed gossip envelope: the payload, both signatures over its canonical
/// bytes, and the sender's staking weight in micro-units.
pub struct SignedGossip {
    pub payload: GgsMessage,
    pub signature: SignatureBundle,
    pub staking_score: i64,
}

pub struct ConsensusConfig {
    pub heartbeat_timeout_secs: u64,
}

impl ConsensusConfig {
    /// The stock staleness bound of 300 seconds.
    pub fn default_config() -> (r: ConsensusConfig)
        ensures
            r.heartbeat_timeout_secs == 300,
    {
        ConsensusConfig { heartbeat_timeout_secs: 300 }
    }
}

impl Default for ConsensusConfig {
    /// The stock staleness bound (see `default_config`).
    fn default() -> (r: ConsensusConfig)
        ensures
            r.heartbeat_timeout_secs == 300,
    {
        ConsensusConfig::default_config()
    }
}

/// Whether `id` has a ledger entry.
pub open spec fn spec_has_record(ledger: Seq<(String, StakeRecord)>, id: Seq<char>) -> bool {
    exists|i: int| 0 <= i < ledger.len() && ledger[i].0@ == id
}

/// The record stored under `id` (unique keys make the choice determined).
pub open spec fn spec_record_of(ledger: Seq<(String, StakeRecord)>, id: Seq<char>) -> StakeRecord {
    ledger[choose|i: int| 0 <= i < ledger.len() && ledger[i].0@ == id].1
}

/// The ledger with every entry older than `deadline_ms` dropped, in order.
pub open spec fn spec_ledger_fresh(ledger: Seq<(String, StakeRecord)>, deadline_ms: int) -> Seq<
    (String, StakeRecord),
>
    decreases ledger.len(),
{
    if ledger.len() == 0 {
        Seq::empty()
    } else {
        let prefix = spec_ledger_fresh(ledger.drop_last(), deadline_ms);
        if ledger.last().1.last_seen_ms >= deadline_ms {
            prefix.push(ledger.last())
        } else {
            prefix
        }
    }
}

/// What one stake update leaves behind: the peer's record holds the deltas
/// applied (with their floors) to its old values, or to the first-observation
/// defaults when it had none, stamped `now_ms`; every other old entry
/// survives unchanged, and nothing else is invented.
pub open spec fn spec_stake_credited(
    old_l: Seq<(String, StakeRecord)>,
    new_l: Seq<(String, StakeRecord)>,
    peer: Seq<char>,
    delta_a: i64,
    delta_b: i64,
    delta_rep: i64,
    now_ms: u64,
) -> bool {
    &&& spec_has_record(new_l, peer)
    &&& {
        let base_a: u64 = if spec_has_record(old_l, peer) {
            spec_record_of(old_l, peer).stake_a
        } else {
            DEFAULT_STAKE_A
        };
        let base_b: u64 = if spec_has_record(old_l, peer) {
            spec_record_of(old_l, peer).stake_b
        } else {
            DEFAULT_STAKE_B
        };
        let base_rep: i64 = if spec_has_record(old_l, peer) {
            spec_record_of(old_l, peer).reputation
        } else {
            DEFAULT_REPUTATION
        };
        let rec = spec_record_of(new_l, peer);
        &&& rec.stake_a == spec_apply_stake(base_a, delta_a)
        &&& rec.stake_b == spec_apply_stake(base_b, delta_b)
        &&& rec.reputation == spec_apply_reputation(base_rep, delta_rep)
        &&& rec.last_seen_ms == now_ms
    }
    &&& forall|j: int|
        0 <= j < old_l.len() && old_l[j].0@ != peer ==> new_l.contains(#[trigger] old_l[j])
    &&& forall|i: int|
        0 <= i < new_l.len() ==> (#[trigger] new_l[i].0@ == peer || old_l.contains(new_l[i]))
}

/// Whether an envelope carries exactly the signatures this suite produces
/// over the payload's canonical bytes.
pub open spec fn spec_signed_by(c: CryptoSuite, sg: SignedGossip) -> bool {
    &&& sg.signature.eth.address@ == c.eth_address@
    &&& sg.signature.eth.signature@ == spec_eth_sig_hex(c.eth_secret@, spec_enc_message(sg.payload))
    &&& sg.signature.sol.pubkey@ == c.sol_pubkey_b58@
    &&& sg.signature.sol.signature@ == spec_sol_sig_b58(
        c.sol_secret@,
        spec_enc_message(sg.payload),
    )
}

pub struct ConsensusEngine {
    pub crypto: CryptoSuite,
    pub ledger: Vec<(String, StakeRecord)>,
    pub config: ConsensusConfig,
}

impl ConsensusEngine {
    pub open spec fn wf(&self) -> bool {
        &&& self.crypto.wf()
        &&& forall|i: int, j: int|
            0 <= i < j < self.ledger@.len() ==> self.ledger@[i].0@ != self.ledger@[j].0@
        &&& forall|i: int| 0 <= i < self.ledger@.len() ==> (#[trigger] self.ledger@[i].1).wf()
    }

    pub fn new(crypto: CryptoSuite, config: ConsensusConfig) -> (r: ConsensusEngine)
        requires
            crypto.wf(),
        ensures
            r.wf(),
            r.crypto == crypto,
            r.config == config,
            r.ledger@.len() == 0,
    {
        ConsensusEngine { crypto, ledger: Vec::new(), config }
    }

    /// Signs a payload: both curves over the payload's canonical bytes. The
    /// attached staking weight follows the ledger: when the peer embedded in
    /// the payload has a record, the caller-computed raw weight of that
    /// record, clipped into [0, 5] units; a tenth of a unit by default when
    /// it has none.
    pub fn sign(&self, payload: GgsMessage, raw_weight_micro: i64) -> (r: SignedGossip)
        requires
            self.wf(),
        ensures
            r.payload == payload,
            r.staking_score as int == if spec_has_record(self.ledger@, payload.spec_peer()) {
                spec_weight_clip(raw_weight_micro as int)
            } else {
                100_000int
            },
            spec_signed_by(self.crypto, r),
    {
        let staking_score = match self.stake_of(payload.peer_id()) {
            Some(_) => clamp_weight_micro(raw_weight_micro),
            None => 100_000,
        };
        let bytes = encode_message(&payload);
        let signature = self.crypto.sign_bytes(&bytes);
        SignedGossip { payload, signature, staking_score }
    }

    /// Re-serializes the payload canonically and checks both signatures
    /// against this node's own identity. An envelope this engine signed over
    /// the same payload always passes.
    pub fn verify(&self, msg: &SignedGossip) -> (r: bool)
        requires
            self.wf(),
        ensures
            r == spec_bundle_accepted(
                self.crypto.eth_secret@,
                self.crypto.sol_secret@,
                self.crypto.eth_address@,
                self.crypto.sol_pubkey_b58@,
                spec_enc_message(msg.payload),
                msg.signature.eth.address@,
                msg.signature.eth.signature@,
                msg.signature.sol.pubkey@,
                msg.signature.sol.signature@,
            ),
            spec_signed_by(self.crypto, *msg) ==> r,
    {
        let bytes = encode_message(&msg.payload);
        self.crypto.verify(&bytes, &msg.signature)
    }

    /// Upserts a peer's record: a fresh peer starts at the defaults, the
    /// deltas are applied with their floors, and the entry is stamped
    /// `now_ms`. Every other entry is untouched.
    #[verifier::loop_isolation(false)]
    #[verifier::rlimit(30)]
    pub fn update_stake(
        &mut self,
        peer: String,
        delta_a: i64,
        delta_b: i64,
        delta_rep: i64,
        now_ms: u64,
    )
        requires
            old(self).wf(),
        ensures
            final(self).wf(),
            final(self).crypto == old(self).crypto,
            final(self).config == old(self).config,
            spec_stake_credited(
                old(self).ledger@,
                final(self).ledger@,
                peer@,
                delta_a,
                delta_b,
                delta_rep,
                now_ms,
            ),
    {
        let ghost pid = peer@;
        let ghost before = self.ledger@;
        let n = self.ledger.len();
        let mut found = false;
        let mut at: usize = 0;
        for i in 0..n
            invariant
                n == self.ledger@.len(),
                self.ledger@ == before,
                found ==> (at < n && before[at as int].0@ == pid),
                !found ==> forall|j: int| 0 <= j < i ==> before[j].0@ != pid,
        {
            if !found && string_eq(&self.ledger[i].0, &peer) {
                found = true;
                at = i;
            }
        }
        let (base_a, base_b, base_rep): (u64, u64, i64) = if found {
            let rec = &self.ledger[at].1;
            (rec.stake_a, rec.stake_b, rec.reputation)
        } else {
            (DEFAULT_STAKE_A, DEFAULT_STAKE_B, DEFAULT_REPUTATION)
        };
        proof {
            if found {
                assert(spec_record_of(before, pid) == before[at as int].1);
            }
        }
        let rec = StakeRecord {
            stake_a: apply_stake(base_a, delta_a),
            stake_b: apply_stake(base_b, delta_b),
            reputation: apply_reputation(base_rep, delta_rep),
            last_seen_ms: now_ms,
        };
        if found {
            self.ledger.set(at, (peer, rec));
        } else {
            self.ledger.push((peer, rec));
        }
        proof {
            let after = self.ledger@;
            assert forall|i: int, j: int|
                0 <= i < j < after.len() implies after[i].0@ != after[j].0@ by {
                if i < before.len() && j < before.len() {
                    assert(before[i].0@ != before[j].0@);
                }
            }
            assert forall|i: int| 0 <= i < after.len() && after[i].0@ == pid implies after[i].1
                == rec by {
                if found && i != at {
                    assert(before[i].0@ == after[i].0@);
                }
            }
            if found {
                assert(after[at as int].0@ == pid);
            } else {
                assert(after[after.len() - 1].0@ == pid);
            }
            let c = choose|c: int| 0 <= c < after.len() && after[c].0@ == pid;
            assert(spec_record_of(after, pid) == rec);
            assert forall|j: int|
                0 <= j < before.len() && before[j].0@ != pid implies after.contains(
                #[trigger] before[j],
            ) by {
                assert(after[j] == before[j]);
            }
            assert forall|i: int|
                0 <= i < after.len() implies (#[trigger] after[i].0@ == pid || before.contains(
                after[i],
            )) by {
                if !(found && i == at) && i < before.len() {
                    assert(after[i] == before[i]);
                }
            }
        }
    }

    /// Drops every record whose last-seen stamp is older than the heartbeat
    /// timeout.
    #[verifier::loop_isolation(false)]
    pub fn prune_stale(&mut self, now_ms: u64)
        requires
            old(self).wf(),
        ensures
            final(self).wf(),
            final(self).crypto == old(self).crypto,
            final(self).config == old(self).config,
            forall|i: int|
                0 <= i < final(self).ledger@.len() ==> #[trigger] final(self).ledger@[i].1.last_seen_ms as int >= now_ms as int - old(
                    self,
                ).config.heartbeat_timeout_secs * 1000,
            forall|i: int|
                0 <= i < final(self).ledger@.len() ==> old(self).ledger@.contains(
                    #[trigger] final(self).ledger@[i],
                ),
            forall|j: int|
                0 <= j < old(self).ledger@.len() && #[trigger] old(
                    self,
                ).ledger@[j].1.last_seen_ms as int >= now_ms as int - old(
                    self,
                ).config.heartbeat_timeout_secs * 1000 ==> final(self).ledger@.contains(
                    old(self).ledger@[j],
                ),
    {
        let timeout: u64 = match self.config.heartbeat_timeout_secs.checked_mul(1000) {
            Some(w) => w,
            None => u64::MAX,
        };
        let deadline: u64 = now_ms.saturating_sub(timeout);
        let ghost all = self.ledger@;
        let mut i: usize = 0;
        let ghost mut j: int = 0;
        while i < self.ledger.len()
            invariant
                0 <= j <= all.len(),
                i == spec_ledger_fresh(all.take(j), deadline as int).len(),
                self.ledger@ == spec_ledger_fresh(all.take(j), deadline as int) + all.skip(j),
                self.crypto == old(self).crypto,
                self.config == old(self).config,
            decreases all.len() - j,
        {
            proof {
                assert(all.skip(j).len() > 0);
                assert(self.ledger@[i as int] == all.skip(j)[0]);
                assert(all.skip(j)[0] == all[j]);
                assert(all.take(j + 1).drop_last() =~= all.take(j));
                assert(all.take(j + 1).last() == all[j]);
            }
            if self.ledger[i].1.last_seen_ms >= deadline {
                i = i + 1;
                proof {
                    assert(self.ledger@ =~= spec_ledger_fresh(all.take(j + 1), deadline as int)
                        + all.skip(j + 1));
                    j = j + 1;
                }
            } else {
                self.ledger.remove(i);
                proof {
                    assert(self.ledger@ =~= spec_ledger_fresh(all.take(j + 1), deadline as int)
                        + all.skip(j + 1));
                    j = j + 1;
                }
            }
        }
        proof {
            assert(all.take(all.len() as int) =~= all);
            assert(self.ledger@ =~= spec_ledger_fresh(all, deadline as int));
            lemma_ledger_fresh_facts(all, deadline as int);
        }
    }

    /// The stored stakes and reputation of a peer, if it has a record.
    pub fn stake_of(&self, peer: &String) -> (r: Option<(u64, u64, i64)>)
        requires
            self.wf(),
        ensures
            r is Some <==> spec_has_record(self.ledger@, peer@),
            r is Some ==> ({
                let rec = spec_record_of(self.ledger@, peer@);
                r->Some_0.0 == rec.stake_a && r->Some_0.1 == rec.stake_b && r->Some_0.2
                    == rec.reputation
            }),
    {
        let n = self.ledger.len();
        for i in 0..n
            invariant
                n == self.ledger@.len(),
                self.wf(),
                forall|j: int| 0 <= j < i ==> self.ledger@[j].0@ != peer@,
        {
            if string_eq(&self.ledger[i].0, peer) {
                let rec = &self.ledger[i].1;
                proof {
                    let c = choose|c: int|
                        0 <= c < self.ledger@.len() && self.ledger@[c].0@ == peer@;
                    assert(c == i);
                }
                return Some((rec.stake_a, rec.stake_b, rec.reputation));
            }
        }
        None
    }
}

/// What pruning guarantees: kept entries are fresh, drawn from the input,
/// keep distinct keys and well-formed records, and entries stamped `now` or
/// later are kept.
proof fn lemma_ledger_fresh_facts(ledger: Seq<(String, StakeRecord)>, deadline: int)
    requires
        forall|i: int, j: int| 0 <= i < j < ledger.len() ==> ledger[i].0@ != ledger[j].0@,
    ensures
        forall|i: int|
            0 <= i < spec_ledger_fresh(ledger, deadline).len() ==> #[trigger] spec_ledger_fresh(
                ledger,
                deadline,
            )[i].1.last_seen_ms >= deadline,
        forall|i: int|
            0 <= i < spec_ledger_fresh(ledger, deadline).len() ==> ledger.contains(
                #[trigger] spec_ledger_fresh(ledger, deadline)[i],
            ),
        forall|i: int, j: int|
            0 <= i < j < spec_ledger_fresh(ledger, deadline).len() ==> spec_ledger_fresh(
                ledger,
                deadline,
            )[i].0@ != spec_ledger_fresh(ledger, deadline)[j].0@,
        forall|j: int|
            0 <= j < ledger.len() && ledger[j].1.last_seen_ms >= deadline ==> spec_ledger_fresh(
                ledger,
                deadline,
            ).contains(#[trigger] ledger[j]),
    decreases ledger.len(),
{
    if ledger.len() > 0 {
        lemma_ledger_fresh_facts(ledger.drop_last(), deadline);
        let out = spec_ledger_fresh(ledger, deadline);
        let prefix = spec_ledger_fresh(ledger.drop_last(), deadline);
        assert forall|i: int|
            0 <= i < out.len() implies ledger.contains(#[trigger] out[i]) by {
            if ledger.last().1.last_seen_ms >= deadline && i == out.len() - 1 {
                assert(out[i] == ledger[ledger.len() - 1]);
            } else {
                assert(out[i] == prefix[i]);
                assert(ledger.drop_last().contains(prefix[i]));
                let k = choose|k: int|
                    0 <= k < ledger.drop_last().len() && ledger.drop_last()[k] == prefix[i];
                assert(ledger[k] == prefix[i]);
            }
        }
        assert forall|j: int|
            0 <= j < ledger.len() && ledger[j].1.last_seen_ms >= deadline implies out.contains(
            #[trigger] ledger[j],
        ) by {
            if j == ledger.len() - 1 {
                assert(out[out.len() - 1] == ledger[j]);
            } else {
                assert(ledger.drop_last()[j] == ledger[j]);
                assert(prefix.contains(ledger[j]));
                let k = choose|k: int| 0 <= k < prefix.len() && prefix[k] == ledger[j];
                assert(out[k] == ledger[j]);
            }
        }
        assert forall|i: int, j: int|
            0 <= i < j < out.len() implies out[i].0@ != out[j].0@ by {
            assert(ledger.contains(out[i]));
            assert(ledger.contains(out[j]));
        }
    }
}

/// Encodes a signed envelope: the four signature strings, the staking weight,
/// then the payload.
pub open spec fn spec_enc_signed(sg: SignedGossip) -> Seq<u8> {
    crate::codec::spec_enc_str(sg.signature.eth.address@) + crate::codec::spec_enc_str(
        sg.signature.eth.signature@,
    ) + crate::codec::spec_enc_str(sg.signature.sol.pubkey@) + crate::codec::spec_enc_str(
        sg.signature.sol.signature@,
    ) + crate::codec::spec_enc_i64(sg.staking_score) + spec_enc_message(sg.payload)
}

/// Encodes a signed envelope for the wire.
pub fn encode_signed(sg: &SignedGossip) -> (r: Vec<u8>)
    ensures
        r@ == spec_enc_signed(*sg),
{
    let mut out: Vec<u8> = Vec::new();
    crate::codec::push_str(&mut out, &sg.signature.eth.address);
    crate::codec::push_str(&mut out, &sg.signature.eth.signature);
    crate::codec::push_str(&mut out, &sg.signature.sol.pubkey);
    crate::codec::push_str(&mut out, &sg.signature.sol.signature);
    crate::codec::push_i64(&mut out, sg.staking_score);
    let body = encode_message(&sg.payload);
    crate::codec::push_bytes(&mut out, &body);
    proof {
        assert(out@ =~= spec_enc_signed(*sg));
    }
    out
}

/// How a signed envelope's fields follow one another on the wire.
proof fn lemma_signed_hyp(b: Seq<u8>, sg: SignedGossip)
    requires
        b == spec_enc_signed(sg),
    ensures
        b.subrange(0, b.len() as int) == crate::codec::spec_enc_str(sg.signature.eth.address@) + (
        crate::codec::spec_enc_str(sg.signature.eth.signature@) + (crate::codec::spec_enc_str(
            sg.signature.sol.pubkey@,
        ) + (crate::codec::spec_enc_str(sg.signature.sol.signature@) + (crate::codec::spec_enc_i64(
            sg.staking_score,
        ) + (spec_enc_message(sg.payload) + Seq::<u8>::empty()))))),
        b.len() == crate::codec::spec_enc_str(sg.signature.eth.address@).len()
            + crate::codec::spec_enc_str(sg.signature.eth.signature@).len()
            + crate::codec::spec_enc_str(sg.signature.sol.pubkey@).len()
            + crate::codec::spec_enc_str(sg.signature.sol.signature@).len() + 8 + spec_enc_message(
            sg.payload,
        ).len(),
{
    assert(b.subrange(0, b.len() as int) =~= b);
    assert(b.subrange(0, b.len() as int) =~= crate::codec::spec_enc_str(
        sg.signature.eth.address@,
    ) + (crate::codec::spec_enc_str(sg.signature.eth.signature@) + (crate::codec::spec_enc_str(
        sg.signature.sol.pubkey@,
    ) + (crate::codec::spec_enc_str(sg.signature.sol.signature@) + (crate::codec::spec_enc_i64(
        sg.staking_score,
    ) + (spec_enc_message(sg.payload) + Seq::<u8>::empty()))))));
    vstd::bytes::lemma_auto_spec_u64_to_from_le_bytes();
}

/// Decodes a signed envelope; malformed bytes give nothing back. What it
/// accepts re-encodes to exactly the input, its payload is well formed, and
/// every canonical envelope of a well-formed payload is accepted.
#[verifier::rlimit(100)]
#[verifier::spinoff_prover]
pub fn decode_signed(b: &Vec<u8>) -> (r: Option<SignedGossip>)
    ensures
        r is Some ==> spec_enc_signed(r->Some_0) == b@ && r->Some_0.payload.wf(),
        forall|sg: SignedGossip|
            sg.payload.wf() && b@ == spec_enc_signed(sg) ==> r is Some,
{
    let ghost blen = b@.len() as int;
    let sres1 = take_string(b, 0);
    proof {
        assert forall|sg: SignedGossip|
            sg.payload.wf() && b@ == spec_enc_signed(sg) implies sres1 is Some by {
            lemma_signed_hyp(b@, sg);
        }
    }
    let (eth_address, p1) = match sres1 {
        Some(x) => x,
        None => {
            return None;
        },
    };
    let sres2 = take_string(b, p1);
    proof {
        assert forall|sg: SignedGossip|
            sg.payload.wf() && b@ == spec_enc_signed(sg) implies sres2 is Some && p1
            == crate::codec::spec_enc_str(sg.signature.eth.address@).len() && b@.subrange(
            p1 as int,
            blen,
        ) == crate::codec::spec_enc_str(sg.signature.eth.signature@) + (crate::codec::spec_enc_str(
            sg.signature.sol.pubkey@,
        ) + (crate::codec::spec_enc_str(sg.signature.sol.signature@) + (crate::codec::spec_enc_i64(
            sg.staking_score,
        ) + (spec_enc_message(sg.payload) + Seq::<u8>::empty())))) by {
            lemma_signed_hyp(b@, sg);
            vstd::bytes::lemma_auto_spec_u64_to_from_le_bytes();
            crate::codec::lemma_tail_shift(
                b@,
                0,
                p1 as int,
                crate::codec::spec_enc_str(sg.signature.eth.address@),
                crate::codec::spec_enc_str(sg.signature.eth.signature@) + (
                crate::codec::spec_enc_str(sg.signature.sol.pubkey@) + (
                crate::codec::spec_enc_str(sg.signature.sol.signature@) + (
                crate::codec::spec_enc_i64(sg.staking_score) + (spec_enc_message(sg.payload)
                    + Seq::<u8>::empty())))),
            );
        }
    }
    let (eth_signature, p2) = match sres2 {
        Some(x) => x,
        None => {
            return None;
        },
    };
    let sres3 = take_string(b, p2);
    proof {
        assert forall|sg: SignedGossip|
            sg.payload.wf() && b@ == spec_enc_signed(sg) implies sres3 is Some && b@.subrange(
            p2 as int,
            blen,
        ) == crate::codec::spec_enc_str(sg.signature.sol.pubkey@) + (crate::codec::spec_enc_str(
            sg.signature.sol.signature@,
        ) + (crate::codec::spec_enc_i64(sg.staking_score) + (spec_enc_message(sg.payload)
            + Seq::<u8>::empty()))) by {
            vstd::bytes::lemma_auto_spec_u64_to_from_le_bytes();
            crate::codec::lemma_tail_shift(
                b@,
                p1 as int,
                p2 as int,
                crate::codec::spec_enc_str(sg.signature.eth.signature@),
                crate::codec::spec_enc_str(sg.signature.sol.pubkey@) + (
                crate::codec::spec_enc_str(sg.signature.sol.signature@) + (
                crate::codec::spec_enc_i64(sg.staking_score) + (spec_enc_message(sg.payload)
                    + Seq::<u8>::empty()))),
            );
        }
    }
    let (sol_pubkey, p3) = match sres3 {
        Some(x) => x,
        None => {
            return None;
        },
    };
    let sres4 = take_string(b, p3);
    proof {
        assert forall|sg: SignedGossip|
            sg.payload.wf() && b@ == spec_enc_signed(sg) implies sres4 is Some && b@.subrange(
            p3 as int,
            blen,
        ) == crate::codec::spec_enc_str(sg.signature.sol.signature@) + (crate::codec::spec_enc_i64(
            sg.staking_score,
        ) + (spec_enc_message(sg.payload) + Seq::<u8>::empty())) by {
            vstd::bytes::lemma_auto_spec_u64_to_from_le_bytes();
            crate::codec::lemma_tail_shift(
                b@,
                p2 as int,
                p3 as int,
                crate::codec::spec_enc_str(sg.signature.sol.pubkey@),
                crate::codec::spec_enc_str(sg.signature.sol.signature@) + (
                crate::codec::spec_enc_i64(sg.staking_score) + (spec_enc_message(sg.payload)
                    + Seq::<u8>::empty())),
            );
        }
    }
    let (sol_signature, p4) = match sres4 {
        Some(x) => x,
        None => {
            return None;
        },
    };
    let ires = take_i64(b, p4);
    proof {
        assert forall|sg: SignedGossip|
            sg.payload.wf() && b@ == spec_enc_signed(sg) implies ires is Some && b@.subrange(
            p4 as int,
            blen,
        ) == crate::codec::spec_enc_i64(sg.staking_score) + (spec_enc_message(sg.payload)
            + Seq::<u8>::empty()) by {
            vstd::bytes::lemma_auto_spec_u64_to_from_le_bytes();
            crate::codec::lemma_tail_shift(
                b@,
                p3 as int,
                p4 as int,
                crate::codec::spec_enc_str(sg.signature.sol.signature@),
                crate::codec::spec_enc_i64(sg.staking_score) + (spec_enc_message(sg.payload)
                    + Seq::<u8>::empty()),
            );
        }
    }
    let (staking_score, p5) = match ires {
        Some(x) => x,
        None => {
            return None;
        },
    };
    let mres = decode_message(b, p5);
    proof {
        assert forall|sg: SignedGossip|
            sg.payload.wf() && b@ == spec_enc_signed(sg) implies mres is Some
            && mres->Some_0.1 == blen by {
            vstd::bytes::lemma_auto_spec_u64_to_from_le_bytes();
            crate::codec::lemma_tail_shift(
                b@,
                p4 as int,
                p5 as int,
                crate::codec::spec_enc_i64(sg.staking_score),
                spec_enc_message(sg.payload) + Seq::<u8>::empty(),
            );
            assert(b@.subrange(p5 as int, blen) == spec_enc_message(sg.payload)
                + Seq::<u8>::empty());
            lemma_signed_hyp(b@, sg);
            assert(p5 + spec_enc_message(sg.payload).len() == blen);
        }
    }
    let (payload, p6) = match mres {
        Some(x) => x,
        None => {
            return None;
        },
    };
    if p6 != b.len() {
        return None;
    }
    let sg = SignedGossip {
        payload,
        signature: SignatureBundle {
            eth: EthSignature { address: eth_address, signature: eth_signature },
            sol: SolSignature { pubkey: sol_pubkey, signature: sol_signature },
        },
        staking_score,
    };
    proof {
        assert(b@.subrange(0, b@.len() as int) =~= b@.subrange(0, p1 as int) + b@.subrange(
            p1 as int,
            p2 as int,
        ) + b@.subrange(p2 as int, p3 as int) + b@.subrange(p3 as int, p4 as int) + b@.subrange(
            p4 as int,
            p5 as int,
        ) + b@.subrange(p5 as int, p6 as int));
        assert(b@.subrange(0, b@.len() as int) =~= b@);
        assert(spec_enc_signed(sg) =~= b@);
    }
    Some(sg)
}

/// Compares two owned strings; relies on vstd's specification of String
/// equality.
fn string_eq(a: &String, b: &String) -> (r: bool)
    ensures
        r == (a@ == b@),
{
    a.eq(b)
}

} // verus!
