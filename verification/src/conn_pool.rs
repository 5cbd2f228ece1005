//! The decisions of the connection pool: when a peer may be dialled, which of
//! two connections stays, when one is closed.
//!
//! Times are nanoseconds of a monotonic clock. A connection is known by a
//! number; the caller holds the connection itself and closes it when told to.

use crate::endpoint::EndpointId;
use crate::text::{join3, trim_end, trim_end_of};
use vstd::arithmetic::power2::{lemma2_to64, lemma_pow2_strictly_increases, pow2};
use vstd::bits::lemma_u64_shl_is_mul;
use vstd::prelude::*;

verus! {

/// Idle connections are closed after this many seconds.
pub const DEFAULT_IDLE_SECS: u64 = 120;

/// How long a dial may take, in nanoseconds.
pub const RECONNECT_TIMEOUT: u64 = 5_000_000_000;

pub const NANOS_PER_MS: u64 = 1_000_000;

pub const NANOS_PER_SEC: u64 = 1_000_000_000;

pub const BACKOFF_BASE_MS: u64 = 200;

pub const BACKOFF_CAP_MS: u64 = 30_000;

pub const REMOTE_RETRY_BASE_SECS: u64 = 10;

pub const REMOTE_RETRY_CAP_MS: u64 = 300_000;

pub const REMOTE_RETRY_MAX_SHIFT: u64 = 5;

/// The outcome of the dial decision.
#[derive(Debug, Clone, Copy, PartialEq, Eq, Structural)]
pub enum Readiness {
    /// The peer may be dialled.
    Dial,
    /// Membership denies the peer. `shed` is true once per episode: queued load goes then.
    Deny { shed: bool },
    /// A backoff or a cooldown runs.
    Wait,
}

/// Why a dial failed.
#[derive(Debug, Clone, Copy, PartialEq, Eq, Structural)]
pub enum DialFailure {
    LocalDenied,
    RemoteRejected,
    Transient,
}

/// Where the pool stands with a peer.
#[derive(Debug, Clone, Copy, PartialEq, Eq, Structural)]
pub enum PeerConnState {
    Connected { auth_gen: u64 },
    Dialing,
    Idle,
    Backoff { until: u64, step: u32 },
    Blocked { generation: u64 },
    Rejected { generation: u64, first: u64, retry_after: u64 },
}

/// The name of a state.
pub open spec fn state_name(s: PeerConnState) -> Seq<char> {
    match s {
        PeerConnState::Connected { .. } => "connected"@,
        PeerConnState::Dialing => "dialing"@,
        PeerConnState::Idle => "idle"@,
        PeerConnState::Backoff { .. } => "backoff"@,
        PeerConnState::Blocked { .. } => "blocked"@,
        PeerConnState::Rejected { .. } => "rejected"@,
    }
}

impl PeerConnState {
    pub fn as_str(self) -> (r: &'static str)
        ensures
            r@ == state_name(self),
    {
        match self {
            PeerConnState::Connected { .. } => "connected",
            PeerConnState::Dialing => "dialing",
            PeerConnState::Idle => "idle",
            PeerConnState::Backoff { .. } => "backoff",
            PeerConnState::Blocked { .. } => "blocked",
            PeerConnState::Rejected { .. } => "rejected",
        }
    }
}

/// What membership says of a peer, and the generation that it says it in.
#[derive(Debug, Clone, Copy, PartialEq, Eq, Structural)]
pub struct Gate {
    pub allows: bool,
    pub generation: u64,
}

/// How it stands with a held connection.
#[derive(Debug, Clone, Copy, PartialEq, Eq, Structural)]
pub enum ConnStatus {
    Open,
    /// Closed, and whether the peer closed it because it does not authorise this node.
    Closed { by_authorization: bool },
}

/// `lo + (r mod (lo + 1))` with `lo` half of the cap: between half of the cap and the cap.
pub open spec fn jittered(cap: int, random: u64) -> int {
    cap / 2 + (random as int) % (cap / 2 + 1)
}

/// The longest wait after `step` transient failures, in milliseconds.
pub open spec fn backoff_cap(step: u32) -> int {
    let base = BACKOFF_BASE_MS * pow2(
        if step < 8 {
            step as nat
        } else {
            8
        },
    );
    if base < BACKOFF_CAP_MS {
        base
    } else {
        BACKOFF_CAP_MS as int
    }
}

/// The longest cooldown of a rejection that has lasted `elapsed` nanoseconds, in milliseconds.
pub open spec fn remote_retry_cap(elapsed: int) -> int {
    let periods = elapsed / 1_000_000_000 / REMOTE_RETRY_BASE_SECS as int;
    let base = REMOTE_RETRY_BASE_SECS * 1000 * pow2(
        if periods < REMOTE_RETRY_MAX_SHIFT {
            periods as nat
        } else {
            REMOTE_RETRY_MAX_SHIFT as nat
        },
    );
    if base < REMOTE_RETRY_CAP_MS {
        base
    } else {
        REMOTE_RETRY_CAP_MS as int
    }
}

/// Calls `rand::random`: any number may come back.
#[verifier::external_body]
fn random_u64() -> (r: u64) {
    rand::random()
}

fn jitter(cap: u64, random: u64) -> (r: u64)
    requires
        cap <= 1_000_000_000,
    ensures
        r == jittered(cap as int, random),
        cap / 2 <= r <= cap,
{
    cap / 2 + random % (cap / 2 + 1)
}

fn scaled(base: u64, shift: u64, cap: u64) -> (r: u64)
    requires
        shift <= 8,
        base <= 10_000,
        cap <= 1_000_000_000,
    ensures
        r == (if base * pow2(shift as nat) < cap {
            base * pow2(shift as nat)
        } else {
            cap as int
        }),
        r <= cap,
{
    proof {
        lemma2_to64();
        if shift < 8 {
            lemma_pow2_strictly_increases(shift as nat, 8);
        }
        lemma_u64_shl_is_mul(1, shift);
        assert(base * pow2(shift as nat) <= 10_000 * 256) by (nonlinear_arith)
            requires
                base <= 10_000,
                pow2(shift as nat) <= 256,
        ;
        assert(1 * pow2(shift as nat) == pow2(shift as nat));
    }
    let factor: u64 = 1u64 << shift;
    let n: u64 = base * factor;
    if n < cap {
        n
    } else {
        cap
    }
}

/// The wait after `step` transient failures for a random number, in milliseconds.
pub fn backoff_delay_from(step: u32, random: u64) -> (r: u64)
    ensures
        r == jittered(backoff_cap(step), random),
        backoff_cap(step) / 2 <= r <= backoff_cap(step),
        r <= BACKOFF_CAP_MS,
{
    let shift: u64 = if step < 8 {
        step as u64
    } else {
        8
    };
    let cap: u64 = scaled(BACKOFF_BASE_MS, shift, BACKOFF_CAP_MS);
    jitter(cap, random)
}

/// The wait after `step` transient failures, in milliseconds: at least half of
/// its cap and at most the cap.
pub fn backoff_delay(step: u32) -> (r: u64)
    ensures
        backoff_cap(step) / 2 <= r <= backoff_cap(step),
        r <= BACKOFF_CAP_MS,
{
    backoff_delay_from(step, random_u64())
}

/// The cooldown of a rejection that has lasted `elapsed` nanoseconds for a
/// random number, in milliseconds.
pub fn remote_retry_delay_from(elapsed: u64, random: u64) -> (r: u64)
    ensures
        r == jittered(remote_retry_cap(elapsed as int), random),
        remote_retry_cap(elapsed as int) / 2 <= r <= remote_retry_cap(elapsed as int),
        r <= REMOTE_RETRY_CAP_MS,
{
    let periods: u64 = elapsed / NANOS_PER_SEC / REMOTE_RETRY_BASE_SECS;
    let shift: u64 = if periods < REMOTE_RETRY_MAX_SHIFT {
        periods
    } else {
        REMOTE_RETRY_MAX_SHIFT
    };
    let cap: u64 = scaled(REMOTE_RETRY_BASE_SECS * 1000, shift, REMOTE_RETRY_CAP_MS);
    jitter(cap, random)
}

/// The cooldown of a rejection that has lasted `elapsed` nanoseconds, in
/// milliseconds: at least half of its cap and at most the cap.
pub fn remote_retry_delay(elapsed: u64) -> (r: u64)
    ensures
        remote_retry_cap(elapsed as int) / 2 <= r <= remote_retry_cap(elapsed as int),
        r <= REMOTE_RETRY_CAP_MS,
{
    remote_retry_delay_from(elapsed, random_u64())
}

/// A longer episode of rejections never waits less at most.
pub proof fn law_rejection_cooldown_grows(a: int, b: int)
    requires
        0 <= a <= b,
    ensures
        remote_retry_cap(a) <= remote_retry_cap(b) <= REMOTE_RETRY_CAP_MS,
        remote_retry_cap(a) >= REMOTE_RETRY_BASE_SECS * 1000,
{
    let p = a / 1_000_000_000 / 10;
    let q = b / 1_000_000_000 / 10;
    assert(p <= q);
    let x: nat = if p < 5 {
        p as nat
    } else {
        5
    };
    let y: nat = if q < 5 {
        q as nat
    } else {
        5
    };
    lemma2_to64();
    if x < y {
        lemma_pow2_strictly_increases(x, y);
    }
    if x > 0 {
        lemma_pow2_strictly_increases(0, x);
    }
}

/// The trailing slashes of a relay address do not matter.
pub fn normalize_relay_url(url: &str) -> (r: String)
    ensures
        r@ == trim_end_of(url@, '/'),
{
    trim_end(url, '/')
}

/// What was done for the pool's peers, counted modulo 2^64.
#[derive(Debug, Clone, Copy, PartialEq, Eq, Structural)]
pub struct PoolMetrics {
    pub reconnect_attempts: u64,
    pub reconnect_success: u64,
    pub reconnect_fail: u64,
    pub packets_buffered: u64,
    pub packets_dropped_timeout: u64,
    pub packets_dropped_blocked: u64,
    pub dials_suppressed: u64,
    pub reconnect_latency_sum_us: u64,
    pub reconnect_latency_max_us: u64,
}

/// The counters as they are reported.
#[derive(Debug, Clone, Copy, PartialEq, Eq, Structural)]
pub struct OnDemandStats {
    pub reconnect_attempts: u64,
    pub reconnect_success: u64,
    pub reconnect_fail: u64,
    pub packets_buffered: u64,
    pub packets_dropped_timeout: u64,
    pub packets_dropped_blocked: u64,
    pub dials_suppressed: u64,
    pub reconnect_latency_avg_us: u64,
    pub reconnect_latency_max_us: u64,
}

/// No dial so far.
pub open spec fn no_metrics() -> PoolMetrics {
    PoolMetrics {
        reconnect_attempts: 0,
        reconnect_success: 0,
        reconnect_fail: 0,
        packets_buffered: 0,
        packets_dropped_timeout: 0,
        packets_dropped_blocked: 0,
        dials_suppressed: 0,
        reconnect_latency_sum_us: 0,
        reconnect_latency_max_us: 0,
    }
}

impl PoolMetrics {
    pub fn new() -> (r: PoolMetrics)
        ensures
            r == no_metrics(),
    {
        PoolMetrics {
            reconnect_attempts: 0,
            reconnect_success: 0,
            reconnect_fail: 0,
            packets_buffered: 0,
            packets_dropped_timeout: 0,
            packets_dropped_blocked: 0,
            dials_suppressed: 0,
            reconnect_latency_sum_us: 0,
            reconnect_latency_max_us: 0,
        }
    }

    /// The counters for a report, with the mean latency of the dials that succeeded.
    pub fn on_demand_stats(&self) -> (r: OnDemandStats)
        ensures
            r == (OnDemandStats {
                reconnect_attempts: self.reconnect_attempts,
                reconnect_success: self.reconnect_success,
                reconnect_fail: self.reconnect_fail,
                packets_buffered: self.packets_buffered,
                packets_dropped_timeout: self.packets_dropped_timeout,
                packets_dropped_blocked: self.packets_dropped_blocked,
                dials_suppressed: self.dials_suppressed,
                reconnect_latency_avg_us: if self.reconnect_success == 0 {
                    0
                } else {
                    self.reconnect_latency_sum_us / self.reconnect_success
                },
                reconnect_latency_max_us: self.reconnect_latency_max_us,
            }),
    {
        OnDemandStats {
            reconnect_attempts: self.reconnect_attempts,
            reconnect_success: self.reconnect_success,
            reconnect_fail: self.reconnect_fail,
            packets_buffered: self.packets_buffered,
            packets_dropped_timeout: self.packets_dropped_timeout,
            packets_dropped_blocked: self.packets_dropped_blocked,
            dials_suppressed: self.dials_suppressed,
            reconnect_latency_avg_us: if self.reconnect_success == 0 {
                0
            } else {
                self.reconnect_latency_sum_us / self.reconnect_success
            },
            reconnect_latency_max_us: self.reconnect_latency_max_us,
        }
    }
}

/// The counters after a dial that membership or a cooldown held back.
pub open spec fn one_suppressed(m: PoolMetrics) -> PoolMetrics {
    PoolMetrics { dials_suppressed: m.dials_suppressed.wrapping_add(1), ..m }
}

/// The counters after a dial that failed.
pub open spec fn one_failed(m: PoolMetrics) -> PoolMetrics {
    PoolMetrics { reconnect_fail: m.reconnect_fail.wrapping_add(1), ..m }
}

/// The dial decision: the state it leaves, the decision, and whether a dial was held back.
pub open spec fn ready(s: PeerConnState, gate: Gate, now: u64) -> (PeerConnState, Readiness, bool) {
    if !gate.allows {
        if s == (PeerConnState::Blocked { generation: gate.generation }) {
            (s, Readiness::Deny { shed: false }, true)
        } else {
            (
                PeerConnState::Blocked { generation: gate.generation },
                Readiness::Deny { shed: true },
                false,
            )
        }
    } else {
        match s {
            PeerConnState::Blocked { .. } => (PeerConnState::Idle, Readiness::Dial, false),
            PeerConnState::Rejected { generation, retry_after, .. } => {
                if generation != gate.generation {
                    (PeerConnState::Idle, Readiness::Dial, false)
                } else if now >= retry_after {
                    (s, Readiness::Dial, false)
                } else {
                    (s, Readiness::Wait, true)
                }
            },
            PeerConnState::Backoff { until, .. } => if now < until {
                (s, Readiness::Wait, true)
            } else {
                (s, Readiness::Dial, false)
            },
            _ => (s, Readiness::Dial, false),
        }
    }
}

/// Decides whether a peer may be dialled.
pub fn readiness(state: &mut PeerConnState, metrics: &mut PoolMetrics, gate: Gate, now: u64) -> (r:
    Readiness)
    ensures
        ({
            let out = ready(*old(state), gate, now);
            &&& *final(state) == out.0
            &&& r == out.1
            &&& *final(metrics) == (if out.2 {
                one_suppressed(*old(metrics))
            } else {
                *old(metrics)
            })
        }),
{
    if !gate.allows {
        if *state == (PeerConnState::Blocked { generation: gate.generation }) {
            metrics.dials_suppressed = metrics.dials_suppressed.wrapping_add(1);
            return Readiness::Deny { shed: false };
        }
        *state = PeerConnState::Blocked { generation: gate.generation };
        return Readiness::Deny { shed: true };
    }
    match *state {
        PeerConnState::Blocked { .. } => {
            *state = PeerConnState::Idle;
            Readiness::Dial
        },
        PeerConnState::Rejected { generation, first: _, retry_after } => {
            if generation != gate.generation {
                *state = PeerConnState::Idle;
                Readiness::Dial
            } else if now >= retry_after {
                Readiness::Dial
            } else {
                metrics.dials_suppressed = metrics.dials_suppressed.wrapping_add(1);
                Readiness::Wait
            }
        },
        PeerConnState::Backoff { until, step: _ } => {
            if now < until {
                metrics.dials_suppressed = metrics.dials_suppressed.wrapping_add(1);
                Readiness::Wait
            } else {
                Readiness::Dial
            }
        },
        _ => Readiness::Dial,
    }
}

/// A peer that membership denies is never dialled, and queued load is shed only
/// when the block begins: a second decision in the same generation sheds nothing
/// and changes nothing.
pub proof fn law_denied_peers_are_never_dialled(s: PeerConnState, gate: Gate, now: u64, later: u64)
    requires
        !gate.allows,
    ensures
        ready(s, gate, now).1 is Deny,
        ready(ready(s, gate, now).0, gate, later) == (
            ready(s, gate, now).0,
            Readiness::Deny { shed: false },
            true,
        ),
{
}

/// A block ends as soon as membership admits the peer again.
pub proof fn law_block_ends_with_membership(g: u64, gate: Gate, now: u64)
    requires
        gate.allows,
    ensures
        ready(PeerConnState::Blocked { generation: g }, gate, now).1 == Readiness::Dial,
{
}

/// A peer that rejected this node is not dialled again before its cooldown is
/// over, unless membership has changed since.
pub proof fn law_rejection_holds_until_cooldown_or_change(
    generation: u64,
    first: u64,
    retry_after: u64,
    gate: Gate,
    now: u64,
)
    requires
        gate.allows,
    ensures
        ready(
            PeerConnState::Rejected { generation, first, retry_after },
            gate,
            now,
        ).1 == Readiness::Dial <==> now >= retry_after || generation != gate.generation,
{
}

/// A run of rejections: the generation it belongs to, and when it began.
#[derive(Debug, Clone, Copy, PartialEq, Eq, Structural)]
pub struct Episode {
    pub generation: u64,
    pub first: u64,
}

/// What a dialler knew when it was elected.
#[derive(Debug, Clone, Copy, PartialEq, Eq, Structural)]
pub struct DialContext {
    pub rejected: Option<Episode>,
    pub step: u32,
}

/// The pool's entry for a peer.
#[derive(Debug, Clone, Copy, PartialEq, Eq, Structural)]
pub struct PeerSlot {
    pub conn: Option<u64>,
    /// The connection was dialled here, not accepted.
    pub opened_by_us: bool,
    pub state: PeerConnState,
    pub last_activity: u64,
    pub peer_keep_alive: bool,
    /// A dial is on its way; others wait for its result.
    pub dialing: bool,
}

/// What to do for a caller that wants a connection.
#[derive(Debug, Clone, Copy, PartialEq, Eq, Structural)]
pub enum GetStep {
    /// Use this connection.
    Use { conn: u64 },
    /// Fail: membership denies the peer. A revoked connection is closed.
    Denied { close: Option<u64> },
    /// Fail: the peer rejects this node.
    RejectedByPeer,
    /// Fail: a backoff or cooldown runs.
    Suppressed,
    /// Wait for the dial that is on its way.
    Join,
    /// Dial.
    Dial { ctx: DialContext },
}

/// What a dial came to.
#[derive(Debug, Clone, Copy, PartialEq, Eq, Structural)]
pub enum DialOutcome {
    Connected { conn: u64 },
    Failed { why: DialFailure },
}

/// What to do once a dial is over.
#[derive(Debug, Clone, Copy, PartialEq, Eq, Structural)]
pub enum DialEnd {
    /// Use `conn`; close the other one, if there is one.
    Use { conn: u64, close: Option<u64> },
    /// Membership turned against the peer meanwhile: close both.
    NotAuthorized { close_new: u64, close_old: Option<u64> },
    /// Fail; close what the slot held.
    Failed { close: Option<u64> },
}

/// What to do with an accepted connection.
#[derive(Debug, Clone, Copy, PartialEq, Eq, Structural)]
pub enum AdoptStep {
    /// Membership denies the peer: close the new connection.
    Refused,
    /// It is the connection that is held already.
    Same,
    /// The held connection stays.
    KeptExisting,
    /// It is held from now on; close the other one, if there is one.
    Installed { close: Option<u64> },
}

/// A slot that nothing has happened in.
pub open spec fn fresh_slot(now: u64) -> PeerSlot {
    PeerSlot {
        conn: None,
        opened_by_us: false,
        state: PeerConnState::Idle,
        last_activity: now,
        peer_keep_alive: false,
        dialing: false,
    }
}

/// The slot holds a connection that is open.
pub open spec fn live(slot: PeerSlot, status: ConnStatus) -> bool {
    slot.conn is Some && status == ConnStatus::Open
}

/// The slot pinned blocked, without its connection.
pub open spec fn blocked(slot: PeerSlot, generation: u64) -> PeerSlot {
    PeerSlot { conn: None, state: PeerConnState::Blocked { generation }, ..slot }
}

/// Of two connections with a peer the one that the endpoint with the lower key
/// opened is kept: the incoming one replaces the existing one exactly when it
/// is that one and the existing one is not.
pub open spec fn incoming_wins(
    local: EndpointId,
    peer: EndpointId,
    existing_by_us: bool,
    incoming_by_us: bool,
) -> bool {
    let wanted = local.rank() < peer.rank();
    existing_by_us != wanted && incoming_by_us == wanted
}

/// Whether an incoming connection replaces the existing one.
pub fn prefer_incoming(
    local: &EndpointId,
    peer: &EndpointId,
    existing_opened_by_us: bool,
    incoming_opened_by_us: bool,
) -> (r: bool)
    ensures
        r == incoming_wins(*local, *peer, existing_opened_by_us, incoming_opened_by_us),
{
    let wanted = local.is_below(peer);
    existing_opened_by_us != wanted && incoming_opened_by_us == wanted
}

/// The connection that stays at one end when two arrive in turn: `first_by_us`
/// and `second_by_us` say which of them this end opened. True when the first stays.
pub open spec fn first_stays(
    local: EndpointId,
    peer: EndpointId,
    first_by_us: bool,
    second_by_us: bool,
) -> bool {
    !incoming_wins(local, peer, first_by_us, second_by_us)
}

/// When both ends open a connection to each other at once, both keep the same
/// one, in whatever order the two connections come up at each end: the one that
/// the endpoint with the lower key opened.
pub proof fn law_both_ends_keep_the_same_connection(
    a: EndpointId,
    b: EndpointId,
    own_first_at_a: bool,
    own_first_at_b: bool,
)
    requires
        a != b,
    ensures
        ({
            // At `a` the connection that `a` opened stays ...
            let at_a = if own_first_at_a {
                first_stays(a, b, true, false)
            } else {
                !first_stays(a, b, false, true)
            };
            // ... exactly when it does at `b`.
            let at_b = if own_first_at_b {
                !first_stays(b, a, true, false)
            } else {
                first_stays(b, a, false, true)
            };
            &&& at_a == at_b
            &&& at_a == (a.rank() < b.rank())
        }),
{
    if a.rank() == b.rank() {
        crate::endpoint::law_rank_is_injective(a, b);
    }
}

/// What a caller that wants a connection gets: the slot and the counters
/// afterwards, and what to do. `retry_ms` is the cooldown if the peer turns out
/// to have rejected this node.
pub open spec fn get_step(
    slot: PeerSlot,
    m: PoolMetrics,
    gate: Gate,
    status: ConnStatus,
    now: u64,
    retry_ms: u64,
) -> (PeerSlot, PoolMetrics, GetStep) {
    if live(slot, status) {
        if slot.state == (PeerConnState::Connected { auth_gen: gate.generation }) || gate.allows {
            (
                PeerSlot {
                    state: PeerConnState::Connected { auth_gen: gate.generation },
                    last_activity: now,
                    ..slot
                },
                m,
                GetStep::Use { conn: slot.conn->0 },
            )
        } else {
            (blocked(slot, gate.generation), m, GetStep::Denied { close: slot.conn })
        }
    } else {
        let idle = PeerSlot { conn: None, ..slot };
        if slot.conn is Some && cooling(slot.state, gate.generation) {
            (idle, m, GetStep::RejectedByPeer)
        } else if slot.conn is Some && status == (ConnStatus::Closed { by_authorization: true }) {
            (
                PeerSlot {
                    state: PeerConnState::Rejected {
                        generation: gate.generation,
                        first: now,
                        retry_after: (now + retry_ms * NANOS_PER_MS) as u64,
                    },
                    ..idle
                },
                m,
                GetStep::RejectedByPeer,
            )
        } else {
            let (state, decision, held) = ready(slot.state, gate, now);
            let counted = if held {
                one_suppressed(m)
            } else {
                m
            };
            let decided = PeerSlot { state, ..idle };
            match decision {
                Readiness::Deny { .. } => (decided, counted, GetStep::Denied { close: None }),
                Readiness::Wait => (decided, counted, GetStep::Suppressed),
                Readiness::Dial => if slot.dialing {
                    (decided, counted, GetStep::Join)
                } else {
                    (
                        PeerSlot { state: PeerConnState::Dialing, dialing: true, ..decided },
                        counted,
                        GetStep::Dial { ctx: context_of(state) },
                    )
                },
            }
        }
    }
}

/// A rejection of this generation governs.
pub open spec fn cooling(s: PeerConnState, generation: u64) -> bool {
    s matches PeerConnState::Rejected { generation: g, .. } && g == generation
}

/// What the next failure builds on.
pub open spec fn context_of(s: PeerConnState) -> DialContext {
    DialContext {
        rejected: match s {
            PeerConnState::Rejected { generation, first, .. } => Some(Episode { generation, first }),
            _ => None,
        },
        step: match s {
            PeerConnState::Backoff { step, .. } => step,
            _ => 0,
        },
    }
}

/// When the episode began that a rejection now belongs to.
pub open spec fn episode_start(prev: Option<Episode>, generation: u64, now: u64) -> u64 {
    match prev {
        Some(e) => if e.generation == generation {
            e.first
        } else {
            now
        },
        None => now,
    }
}

/// The slot and the counters after a dial failed, and what it waits `wait_ms` for.
pub open spec fn after_failure(
    slot: PeerSlot,
    m: PoolMetrics,
    ctx: DialContext,
    why: DialFailure,
    generation: u64,
    now: u64,
    wait_ms: u64,
) -> (PeerSlot, PoolMetrics, DialEnd) {
    match why {
        DialFailure::LocalDenied => (
            PeerSlot { dialing: false, ..blocked(slot, generation) },
            one_failed(m),
            DialEnd::Failed { close: slot.conn },
        ),
        DialFailure::RemoteRejected => (
            PeerSlot {
                state: PeerConnState::Rejected {
                    generation,
                    first: episode_start(ctx.rejected, generation, now),
                    retry_after: (now + wait_ms * NANOS_PER_MS) as u64,
                },
                dialing: false,
                ..slot
            },
            one_failed(m),
            DialEnd::Failed { close: None },
        ),
        DialFailure::Transient => (
            PeerSlot {
                state: PeerConnState::Backoff {
                    until: (now + wait_ms * NANOS_PER_MS) as u64,
                    step: ctx.step.saturating_add(1),
                },
                dialing: false,
                ..slot
            },
            one_failed(m),
            DialEnd::Failed { close: None },
        ),
    }
}

/// The slot with a connection that was just opened here.
pub open spec fn dialled(slot: PeerSlot, conn: u64, generation: u64, now: u64) -> PeerSlot {
    PeerSlot {
        conn: Some(conn),
        opened_by_us: true,
        state: PeerConnState::Connected { auth_gen: generation },
        last_activity: now,
        dialing: false,
        ..slot
    }
}

/// The slot after membership turned against a peer while it was dialled: those
/// who wait are sent away when the block is new.
pub open spec fn denied_late(slot: PeerSlot, generation: u64) -> PeerSlot {
    PeerSlot {
        dialing: slot.dialing && slot.state == (PeerConnState::Blocked { generation }),
        ..blocked(slot, generation)
    }
}

/// What a finished dial leads to.
pub open spec fn dial_end(
    slot: PeerSlot,
    m: PoolMetrics,
    ctx: DialContext,
    local: EndpointId,
    peer: EndpointId,
    outcome: DialOutcome,
    gate: Gate,
    status: ConnStatus,
    now: u64,
    wait_ms: u64,
) -> (PeerSlot, PoolMetrics, DialEnd) {
    match outcome {
        DialOutcome::Failed { why } => after_failure(
            slot,
            m,
            ctx,
            why,
            gate.generation,
            now,
            wait_ms,
        ),
        DialOutcome::Connected { conn } => if !gate.allows {
            (
                denied_late(slot, gate.generation),
                m,
                DialEnd::NotAuthorized { close_new: conn, close_old: slot.conn },
            )
        } else if live(slot, status) && !incoming_wins(local, peer, slot.opened_by_us, true) {
            (
                PeerSlot { dialing: false, ..slot },
                m,
                DialEnd::Use { conn: slot.conn->0, close: Some(conn) },
            )
        } else {
            (
                dialled(slot, conn, gate.generation, now),
                m,
                DialEnd::Use {
                    conn,
                    close: if live(slot, status) {
                        slot.conn
                    } else {
                        None
                    },
                },
            )
        },
    }
}

/// A slot after a connection was accepted.
pub open spec fn adopted(
    s: PeerSlot,
    gate: Gate,
    local: EndpointId,
    peer: EndpointId,
    conn: u64,
    status: ConnStatus,
    now: u64,
) -> (PeerSlot, AdoptStep) {
    if !gate.allows {
        (s, AdoptStep::Refused)
    } else if live(s, status) && s.conn == Some(conn) {
        (PeerSlot { last_activity: now, ..s }, AdoptStep::Same)
    } else if live(s, status) && !incoming_wins(local, peer, s.opened_by_us, false) {
        (s, AdoptStep::KeptExisting)
    } else {
        (
            PeerSlot {
                conn: Some(conn),
                opened_by_us: false,
                state: PeerConnState::Connected { auth_gen: gate.generation },
                last_activity: now,
                ..s
            },
            AdoptStep::Installed {
                close: if live(s, status) {
                    s.conn
                } else {
                    None
                },
            },
        )
    }
}

/// A slot in line with changed membership, and the connection that goes.
pub open spec fn reconciled(s: PeerSlot, gate: Gate, status: ConnStatus) -> (
    PeerSlot,
    Option<u64>,
) {
    if !gate.allows {
        (denied_late(s, gate.generation), s.conn)
    } else if s.state is Blocked || s.state is Rejected {
        (
            PeerSlot {
                state: if live(s, status) {
                    PeerConnState::Connected { auth_gen: gate.generation }
                } else {
                    PeerConnState::Idle
                },
                ..s
            },
            None,
        )
    } else {
        (s, None)
    }
}

/// A secondary protocol's slot in line with changed membership, and the
/// connection that goes.
pub open spec fn reconciled_extra(s: PeerSlot, gate: Gate) -> (PeerSlot, Option<u64>) {
    if !gate.allows {
        (denied_late(s, gate.generation), s.conn)
    } else if s.state is Blocked || s.state is Rejected {
        (PeerSlot { state: PeerConnState::Idle, ..s }, None)
    } else {
        (s, None)
    }
}

/// A slot without its connection, as the data plane goes down.
pub open spec fn shut_slot(s: PeerSlot) -> PeerSlot {
    PeerSlot { conn: None, opened_by_us: false, state: PeerConnState::Idle, ..s }
}

/// A slot after traffic.
pub open spec fn touched(s: PeerSlot, generation: u64, status: ConnStatus, now: u64) -> PeerSlot {
    PeerSlot {
        last_activity: now,
        state: if s.state == PeerConnState::Idle && live(s, status) {
            PeerConnState::Connected { auth_gen: generation }
        } else {
            s.state
        },
        ..s
    }
}

/// A slot after a look at how long it has been idle, and the connection that goes.
pub open spec fn swept(
    s: PeerSlot,
    keep_alive: bool,
    kept_peer: bool,
    timeout: u64,
    now: u64,
) -> (PeerSlot, Option<u64>) {
    if !keep_alive && !kept_peer && !s.peer_keep_alive && s.state is Connected
        && now.saturating_sub(s.last_activity) >= timeout {
        (PeerSlot { conn: None, state: PeerConnState::Idle, ..s }, s.conn)
    } else {
        (s, None)
    }
}

impl PeerSlot {
    pub fn new(now: u64) -> (r: PeerSlot)
        ensures
            r == fresh_slot(now),
    {
        PeerSlot {
            conn: None,
            opened_by_us: false,
            state: PeerConnState::Idle,
            last_activity: now,
            peer_keep_alive: false,
            dialing: false,
        }
    }

    fn is_live(&self, status: ConnStatus) -> (r: bool)
        ensures
            r == live(*self, status),
    {
        self.conn.is_some() && status == ConnStatus::Open
    }

    /// Pins the slot blocked, hands the connection out to be closed, and says
    /// whether the block is new.
    fn mark_local_blocked(&mut self, generation: u64) -> (r: (Option<u64>, bool))
        ensures
            *final(self) == blocked(*old(self), generation),
            r.0 == old(self).conn,
            r.1 == (old(self).state != (PeerConnState::Blocked { generation })),
    {
        let conn = self.conn;
        let fresh = !(self.state == (PeerConnState::Blocked { generation }));
        self.conn = None;
        self.state = PeerConnState::Blocked { generation };
        (conn, fresh)
    }

    /// Decides for a caller that wants a connection, with the cooldown for a
    /// rejection given.
    pub fn begin_get_with(
        &mut self,
        metrics: &mut PoolMetrics,
        gate: Gate,
        status: ConnStatus,
        now: u64,
        retry_ms: u64,
    ) -> (r: GetStep)
        requires
            now + retry_ms * NANOS_PER_MS <= u64::MAX,
        ensures
            ({
                let out = get_step(*old(self), *old(metrics), gate, status, now, retry_ms);
                &&& *final(self) == out.0
                &&& *final(metrics) == out.1
                &&& r == out.2
            }),
    {
        if self.is_live(status) {
            if let Some(conn) = self.conn {
                if self.state == (PeerConnState::Connected { auth_gen: gate.generation })
                    || gate.allows {
                    self.state = PeerConnState::Connected { auth_gen: gate.generation };
                    self.last_activity = now;
                    return GetStep::Use { conn };
                }
                let (close, _) = self.mark_local_blocked(gate.generation);
                return GetStep::Denied { close };
            }
        }
        if self.conn.is_some() {
            self.conn = None;
            let governed = match self.state {
                PeerConnState::Rejected { generation, .. } => generation == gate.generation,
                _ => false,
            };
            if governed {
                return GetStep::RejectedByPeer;
            }
            if status == (ConnStatus::Closed { by_authorization: true }) {
                self.state = PeerConnState::Rejected {
                    generation: gate.generation,
                    first: now,
                    retry_after: now + retry_ms * NANOS_PER_MS,
                };
                return GetStep::RejectedByPeer;
            }
        }
        let mut state = self.state;
        let decision = readiness(&mut state, metrics, gate, now);
        self.state = state;
        match decision {
            Readiness::Deny { .. } => GetStep::Denied { close: None },
            Readiness::Wait => GetStep::Suppressed,
            Readiness::Dial => {
                if self.dialing {
                    GetStep::Join
                } else {
                    let ctx = DialContext {
                        rejected: match state {
                            PeerConnState::Rejected { generation, first, .. } => Some(
                                Episode { generation, first },
                            ),
                            _ => None,
                        },
                        step: match state {
                            PeerConnState::Backoff { step, .. } => step,
                            _ => 0,
                        },
                    };
                    self.state = PeerConnState::Dialing;
                    self.dialing = true;
                    GetStep::Dial { ctx }
                }
            },
        }
    }

    /// Decides for a caller that wants a connection. A rejection that comes to
    /// light cools down for between five and ten seconds.
    pub fn begin_get(
        &mut self,
        metrics: &mut PoolMetrics,
        gate: Gate,
        status: ConnStatus,
        now: u64,
    ) -> (r: GetStep)
        requires
            now + REMOTE_RETRY_CAP_MS * NANOS_PER_MS <= u64::MAX,
        ensures
            exists|retry_ms: u64|
                remote_retry_cap(0) / 2 <= retry_ms <= remote_retry_cap(0) && (
                *final(self),
                *final(metrics),
                r,
            ) == #[trigger] get_step(*old(self), *old(metrics), gate, status, now, retry_ms),
    {
        let retry_ms: u64 = remote_retry_delay(0);
        self.begin_get_with(metrics, gate, status, now, retry_ms)
    }

    /// Takes the outcome of a dial in, with the wait after a failure given.
    pub fn finish_dial_with(
        &mut self,
        metrics: &mut PoolMetrics,
        ctx: DialContext,
        local: &EndpointId,
        peer: &EndpointId,
        outcome: DialOutcome,
        gate: Gate,
        status: ConnStatus,
        now: u64,
        wait_ms: u64,
    ) -> (r: DialEnd)
        requires
            now + wait_ms * NANOS_PER_MS <= u64::MAX,
        ensures
            ({
                let out = dial_end(
                    *old(self),
                    *old(metrics),
                    ctx,
                    *local,
                    *peer,
                    outcome,
                    gate,
                    status,
                    now,
                    wait_ms,
                );
                &&& *final(self) == out.0
                &&& *final(metrics) == out.1
                &&& r == out.2
            }),
    {
        match outcome {
            DialOutcome::Failed { why } => {
                metrics.reconnect_fail = metrics.reconnect_fail.wrapping_add(1);
                self.dialing = false;
                match why {
                    DialFailure::LocalDenied => {
                        let (close, _) = self.mark_local_blocked(gate.generation);
                        DialEnd::Failed { close }
                    },
                    DialFailure::RemoteRejected => {
                        self.state = PeerConnState::Rejected {
                            generation: gate.generation,
                            first: episode_began(ctx.rejected, gate.generation, now),
                            retry_after: now + wait_ms * NANOS_PER_MS,
                        };
                        DialEnd::Failed { close: None }
                    },
                    DialFailure::Transient => {
                        self.state = PeerConnState::Backoff {
                            until: now + wait_ms * NANOS_PER_MS,
                            step: ctx.step.saturating_add(1),
                        };
                        DialEnd::Failed { close: None }
                    },
                }
            },
            DialOutcome::Connected { conn } => {
                if !gate.allows {
                    let (close_old, fresh) = self.mark_local_blocked(gate.generation);
                    if fresh {
                        self.dialing = false;
                    }
                    return DialEnd::NotAuthorized { close_new: conn, close_old };
                }
                let mut close: Option<u64> = None;
                if self.is_live(status) {
                    if let Some(existing) = self.conn {
                        if !prefer_incoming(local, peer, self.opened_by_us, true) {
                            self.dialing = false;
                            return DialEnd::Use { conn: existing, close: Some(conn) };
                        }
                        close = Some(existing);
                    }
                }
                self.conn = Some(conn);
                self.opened_by_us = true;
                self.state = PeerConnState::Connected { auth_gen: gate.generation };
                self.last_activity = now;
                self.dialing = false;
                DialEnd::Use { conn, close }
            },
        }
    }

    /// Takes the outcome of a dial in. After a failure the wait is drawn: for a
    /// rejection by the age of its episode, for a transient failure by how many
    /// went before.
    pub fn finish_dial(
        &mut self,
        metrics: &mut PoolMetrics,
        ctx: DialContext,
        local: &EndpointId,
        peer: &EndpointId,
        outcome: DialOutcome,
        gate: Gate,
        status: ConnStatus,
        now: u64,
    ) -> (r: DialEnd)
        requires
            now + REMOTE_RETRY_CAP_MS * NANOS_PER_MS <= u64::MAX,
        ensures
            exists|wait_ms: u64|
                wait_range(ctx, outcome, gate, now, wait_ms) && (
                *final(self),
                *final(metrics),
                r,
            ) == #[trigger] dial_end(
                    *old(self),
                    *old(metrics),
                    ctx,
                    *local,
                    *peer,
                    outcome,
                    gate,
                    status,
                    now,
                    wait_ms,
                ),
    {
        let wait_ms: u64 = dial_wait(ctx, outcome, gate, now);
        self.finish_dial_with(metrics, ctx, local, peer, outcome, gate, status, now, wait_ms)
    }

    /// Takes the outcome of a dial for a secondary protocol in: there is no
    /// second connection to choose from.
    pub fn finish_extra_dial_with(
        &mut self,
        metrics: &mut PoolMetrics,
        ctx: DialContext,
        outcome: DialOutcome,
        gate: Gate,
        now: u64,
        wait_ms: u64,
    ) -> (r: DialEnd)
        requires
            now + wait_ms * NANOS_PER_MS <= u64::MAX,
        ensures
            ({
                let out = extra_dial_end(
                    *old(self),
                    *old(metrics),
                    ctx,
                    outcome,
                    gate,
                    now,
                    wait_ms,
                );
                &&& *final(self) == out.0
                &&& *final(metrics) == out.1
                &&& r == out.2
            }),
    {
        match outcome {
            DialOutcome::Connected { conn } if gate.allows => {
                self.conn = Some(conn);
                self.opened_by_us = true;
                self.state = PeerConnState::Connected { auth_gen: gate.generation };
                self.last_activity = now;
                self.dialing = false;
                DialEnd::Use { conn, close: None }
            },
            _ => {
                let nobody = EndpointId { hi: 0, lo: 0 };
                self.finish_dial_with(
                    metrics,
                    ctx,
                    &nobody,
                    &nobody,
                    outcome,
                    gate,
                    ConnStatus::Open,
                    now,
                    wait_ms,
                )
            },
        }
    }

    /// Takes an accepted connection in.
    pub fn adopt(
        &mut self,
        gate: Gate,
        local: &EndpointId,
        peer: &EndpointId,
        conn: u64,
        status: ConnStatus,
        now: u64,
    ) -> (r: AdoptStep)
        ensures
            (*final(self), r) == adopted(*old(self), gate, *local, *peer, conn, status, now),
    {
        if !gate.allows {
            return AdoptStep::Refused;
        }
        let mut close: Option<u64> = None;
        if self.is_live(status) {
            if let Some(existing) = self.conn {
                if existing == conn {
                    self.last_activity = now;
                    return AdoptStep::Same;
                }
                if !prefer_incoming(local, peer, self.opened_by_us, false) {
                    return AdoptStep::KeptExisting;
                }
                close = Some(existing);
            }
        }
        self.conn = Some(conn);
        self.opened_by_us = false;
        self.state = PeerConnState::Connected { auth_gen: gate.generation };
        self.last_activity = now;
        AdoptStep::Installed { close }
    }

    /// Brings the slot in line with changed membership, and hands out the
    /// connection to close, if one goes.
    pub fn reconcile(&mut self, gate: Gate, status: ConnStatus) -> (r: Option<u64>)
        ensures
            (*final(self), r) == reconciled(*old(self), gate, status),
    {
        if gate.allows {
            match self.state {
                PeerConnState::Blocked { .. } | PeerConnState::Rejected { .. } => {
                    if self.is_live(status) {
                        self.state = PeerConnState::Connected { auth_gen: gate.generation };
                    } else {
                        self.state = PeerConnState::Idle;
                    }
                },
                _ => {},
            }
            return None;
        }
        let (close, fresh) = self.mark_local_blocked(gate.generation);
        if fresh {
            self.dialing = false;
        }
        close
    }

    /// Brings the slot of a secondary protocol in line with changed membership.
    pub fn reconcile_extra(&mut self, gate: Gate) -> (r: Option<u64>)
        ensures
            (*final(self), r) == reconciled_extra(*old(self), gate),
    {
        if gate.allows {
            match self.state {
                PeerConnState::Blocked { .. } | PeerConnState::Rejected { .. } => {
                    self.state = PeerConnState::Idle;
                },
                _ => {},
            }
            return None;
        }
        let (close, fresh) = self.mark_local_blocked(gate.generation);
        if fresh {
            self.dialing = false;
        }
        close
    }

    /// Revokes the peer: blocked until membership changes, nobody waits.
    pub fn revoke(&mut self, generation: u64) -> (r: Option<u64>)
        ensures
            r == old(self).conn,
            *final(self) == (PeerSlot { dialing: false, ..blocked(*old(self), generation) }),
    {
        let (close, _) = self.mark_local_blocked(generation);
        self.dialing = false;
        close
    }

    /// Closes the connection because the data plane goes down.
    pub fn shut(&mut self) -> (r: Option<u64>)
        ensures
            r == old(self).conn,
            *final(self) == shut_slot(*old(self)),
    {
        let close = self.conn;
        self.conn = None;
        self.opened_by_us = false;
        self.state = PeerConnState::Idle;
        close
    }

    /// Notes traffic. An idle slot with an open connection counts as connected
    /// again; the generation of an established one stays as it is.
    pub fn touch(&mut self, generation: u64, status: ConnStatus, now: u64)
        ensures
            *final(self) == touched(*old(self), generation, status, now),
    {
        let promote = self.state == PeerConnState::Idle && self.is_live(status);
        self.last_activity = now;
        if promote {
            self.state = PeerConnState::Connected { auth_gen: generation };
        }
    }

    /// Closes a connection that has been idle for the timeout, unless something keeps it alive.
    pub fn sweep(&mut self, keep_alive: bool, kept_peer: bool, timeout: u64, now: u64) -> (r: Option<
        u64,
    >)
        ensures
            (*final(self), r) == swept(*old(self), keep_alive, kept_peer, timeout, now),
    {
        if keep_alive || kept_peer || self.peer_keep_alive {
            return None;
        }
        match self.state {
            PeerConnState::Connected { .. } => {},
            _ => {
                return None;
            },
        }
        if now.saturating_sub(self.last_activity) < timeout {
            return None;
        }
        let close = self.conn;
        self.conn = None;
        self.state = PeerConnState::Idle;
        close
    }
}

/// How long to wait after a dial: by the age of the episode after a rejection,
/// by how many failures went before after a transient one.
pub fn dial_wait(ctx: DialContext, outcome: DialOutcome, gate: Gate, now: u64) -> (r: u64)
    ensures
        wait_range(ctx, outcome, gate, now, r),
        r <= REMOTE_RETRY_CAP_MS,
{
    match outcome {
        DialOutcome::Failed { why: DialFailure::RemoteRejected } => {
            let first: u64 = episode_began(ctx.rejected, gate.generation, now);
            remote_retry_delay(now.saturating_sub(first))
        },
        DialOutcome::Failed { why: DialFailure::Transient } => backoff_delay(ctx.step),
        _ => 0,
    }
}

fn episode_began(prev: Option<Episode>, generation: u64, now: u64) -> (r: u64)
    ensures
        r == episode_start(prev, generation, now),
{
    match prev {
        Some(e) => if e.generation == generation {
            e.first
        } else {
            now
        },
        None => now,
    }
}

/// The wait that a failure may be given.
pub open spec fn wait_range(
    ctx: DialContext,
    outcome: DialOutcome,
    gate: Gate,
    now: u64,
    wait_ms: u64,
) -> bool {
    match outcome {
        DialOutcome::Failed { why: DialFailure::RemoteRejected } => {
            let age = now.saturating_sub(episode_start(ctx.rejected, gate.generation, now));
            remote_retry_cap(age as int) / 2 <= wait_ms <= remote_retry_cap(age as int)
        },
        DialOutcome::Failed { why: DialFailure::Transient } => backoff_cap(ctx.step) / 2 <= wait_ms
            <= backoff_cap(ctx.step),
        _ => wait_ms == 0,
    }
}

/// What a finished dial of a secondary protocol leads to.
pub open spec fn extra_dial_end(
    slot: PeerSlot,
    m: PoolMetrics,
    ctx: DialContext,
    outcome: DialOutcome,
    gate: Gate,
    now: u64,
    wait_ms: u64,
) -> (PeerSlot, PoolMetrics, DialEnd) {
    match outcome {
        DialOutcome::Failed { why } => after_failure(
            slot,
            m,
            ctx,
            why,
            gate.generation,
            now,
            wait_ms,
        ),
        DialOutcome::Connected { conn } => if !gate.allows {
            (
                denied_late(slot, gate.generation),
                m,
                DialEnd::NotAuthorized { close_new: conn, close_old: slot.conn },
            )
        } else {
            (
                dialled(slot, conn, gate.generation, now),
                m,
                DialEnd::Use { conn, close: None },
            )
        },
    }
}

/// A connection to a peer that membership denies is never handed out once the
/// generation moved since it was checked: it is closed and the peer is blocked.
pub proof fn law_revoked_connections_are_not_used(
    slot: PeerSlot,
    m: PoolMetrics,
    gate: Gate,
    status: ConnStatus,
    now: u64,
    retry_ms: u64,
)
    requires
        !gate.allows,
        slot.state != (PeerConnState::Connected { auth_gen: gate.generation }),
    ensures
        ({
            let out = get_step(slot, m, gate, status, now, retry_ms);
            &&& !(out.2 is Use)
            &&& !(out.2 is Dial)
            &&& !(out.2 is Join)
            &&& live(slot, status) ==> out.2 == (GetStep::Denied { close: slot.conn })
                && out.0.conn is None && out.0.state == (PeerConnState::Blocked {
                generation: gate.generation,
            })
        }),
{
}

/// At most one dial per peer is on its way: while one is, further callers wait for it.
pub proof fn law_one_dial_at_a_time(
    slot: PeerSlot,
    m: PoolMetrics,
    gate: Gate,
    status: ConnStatus,
    now: u64,
    retry_ms: u64,
)
    requires
        slot.dialing,
    ensures
        !(get_step(slot, m, gate, status, now, retry_ms).2 is Dial),
        get_step(slot, m, gate, status, now, retry_ms).0.dialing,
{
}

/// Consecutive rejections in one generation belong to one episode, so that
/// their cooldown grows; a changed generation or a success starts a new one.
pub proof fn law_rejections_in_a_row_are_one_episode(
    slot: PeerSlot,
    m: PoolMetrics,
    first: u64,
    retry_after: u64,
    gate: Gate,
    now: u64,
    later: u64,
    retry_ms: u64,
    wait_ms: u64,
)
    requires
        gate.allows,
        slot.conn is None,
        !slot.dialing,
        slot.state == (PeerConnState::Rejected {
            generation: gate.generation,
            first,
            retry_after,
        }),
        now >= retry_after,
    ensures
        ({
            let begun = get_step(slot, m, gate, ConnStatus::Open, now, retry_ms);
            &&& begun.2 matches GetStep::Dial { ctx } && after_failure(
                begun.0,
                m,
                ctx,
                DialFailure::RemoteRejected,
                gate.generation,
                later,
                wait_ms,
            ).0.state == (PeerConnState::Rejected {
                generation: gate.generation,
                first,
                retry_after: (later + wait_ms * NANOS_PER_MS) as u64,
            })
        }),
{
}

/// What the transport says of a failed connect.
#[derive(Debug, Clone, Copy, PartialEq, Eq, Structural)]
pub enum ConnectFault {
    /// This node's own hook refused the connection.
    LocallyRejected,
    /// The connection was closed, and whether by the peer's authorization.
    Closed { by_authorization: bool },
    Other,
}

/// What a connect came to within the time it had.
#[derive(Debug, Clone, Copy, PartialEq, Eq, Structural)]
pub enum ConnectResult {
    /// Connected after so many microseconds; the connection may have been closed already.
    Connected { conn: u64, status: ConnStatus, latency_us: u64 },
    Fault { fault: ConnectFault },
    TimedOut,
}

/// Why a connect failed.
pub fn classify_connect_error(fault: ConnectFault) -> (r: DialFailure)
    ensures
        r == (match fault {
            ConnectFault::LocallyRejected => DialFailure::LocalDenied,
            ConnectFault::Closed { by_authorization: true } => DialFailure::RemoteRejected,
            _ => DialFailure::Transient,
        }),
{
    match fault {
        ConnectFault::LocallyRejected => DialFailure::LocalDenied,
        ConnectFault::Closed { by_authorization } => if by_authorization {
            DialFailure::RemoteRejected
        } else {
            DialFailure::Transient
        },
        ConnectFault::Other => DialFailure::Transient,
    }
}

/// The outcome of a connect. A connection that is dead on arrival is a failure:
/// a rejection by the peer shows only after the handshake.
pub open spec fn dial_outcome(c: ConnectResult) -> DialOutcome {
    match c {
        ConnectResult::Connected { conn, status: ConnStatus::Open, .. } => DialOutcome::Connected {
            conn,
        },
        ConnectResult::Connected { status: ConnStatus::Closed { by_authorization }, .. } =>
            DialOutcome::Failed {
                why: if by_authorization {
                    DialFailure::RemoteRejected
                } else {
                    DialFailure::Transient
                },
            },
        ConnectResult::Fault { fault } => DialOutcome::Failed {
            why: match fault {
                ConnectFault::LocallyRejected => DialFailure::LocalDenied,
                ConnectFault::Closed { by_authorization: true } => DialFailure::RemoteRejected,
                _ => DialFailure::Transient,
            },
        },
        ConnectResult::TimedOut => DialOutcome::Failed { why: DialFailure::Transient },
    }
}

/// The counters after a connect.
pub open spec fn dial_counted(m: PoolMetrics, result: ConnectResult) -> PoolMetrics {
    let tried = PoolMetrics { reconnect_attempts: m.reconnect_attempts.wrapping_add(1), ..m };
    match result {
        ConnectResult::Connected { status: ConnStatus::Open, latency_us, .. } => PoolMetrics {
            reconnect_success: m.reconnect_success.wrapping_add(1),
            reconnect_latency_sum_us: m.reconnect_latency_sum_us.wrapping_add(latency_us),
            reconnect_latency_max_us: if latency_us > m.reconnect_latency_max_us {
                latency_us
            } else {
                m.reconnect_latency_max_us
            },
            ..tried
        },
        _ => tried,
    }
}

/// Counts a connect and classifies it.
pub fn dial_once(metrics: &mut PoolMetrics, result: ConnectResult) -> (r: DialOutcome)
    ensures
        r == dial_outcome(result),
        *final(metrics) == dial_counted(*old(metrics), result),
{
    metrics.reconnect_attempts = metrics.reconnect_attempts.wrapping_add(1);
    match result {
        ConnectResult::Connected { conn, status, latency_us } => match status {
            ConnStatus::Open => {
                metrics.reconnect_success = metrics.reconnect_success.wrapping_add(1);
                metrics.reconnect_latency_sum_us = metrics.reconnect_latency_sum_us.wrapping_add(
                    latency_us,
                );
                if latency_us > metrics.reconnect_latency_max_us {
                    metrics.reconnect_latency_max_us = latency_us;
                }
                DialOutcome::Connected { conn }
            },
            ConnStatus::Closed { by_authorization } => DialOutcome::Failed {
                why: if by_authorization {
                    DialFailure::RemoteRejected
                } else {
                    DialFailure::Transient
                },
            },
        },
        ConnectResult::Fault { fault } => DialOutcome::Failed {
            why: classify_connect_error(fault),
        },
        ConnectResult::TimedOut => DialOutcome::Failed { why: DialFailure::Transient },
    }
}

/// What a caller is told of a peer that membership denies.
pub fn not_authorized(peer: &EndpointId) -> (r: String)
    ensures
        r@ == "not_authorized: "@ + peer.hex() + " is not an authorized peer"@,
{
    let hex = peer.to_hex();
    join3("not_authorized: ", hex.as_str(), " is not an authorized peer")
}

/// What a caller is told of a peer that rejects this node.
pub fn not_authorized_remote(peer: &EndpointId) -> (r: String)
    ensures
        r@ == "not_authorized: "@ + peer.hex() + " rejected the connection"@,
{
    let hex = peer.to_hex();
    join3("not_authorized: ", hex.as_str(), " rejected the connection")
}

/// What a caller is told while a backoff or cooldown runs.
pub fn dial_suppressed(peer: &EndpointId) -> (r: String)
    ensures
        r@ == "dial to "@ + peer.hex() + " suppressed by backoff"@,
{
    let hex = peer.to_hex();
    join3("dial to ", hex.as_str(), " suppressed by backoff")
}

/// What a caller is told of a dial that took too long.
pub fn dial_timed_out(peer: &EndpointId) -> (r: String)
    ensures
        r@ == "reconnect to "@ + peer.hex() + " timed out"@,
{
    let hex = peer.to_hex();
    join3("reconnect to ", hex.as_str(), " timed out")
}

/// A peer's connection as it is reported.
#[derive(Debug)]
pub struct PeerConnSnapshot {
    pub state: String,
    pub keep_alive: bool,
    pub last_activity_secs_ago: u64,
    pub live: bool,
    pub path: String,
}

/// A look at a peer's slot.
#[derive(Debug, Clone, Copy, PartialEq, Eq, Structural)]
pub enum SlotAccess {
    /// The pool does not know the peer.
    Absent,
    /// Someone is working on the slot.
    Busy,
    Seen { slot: PeerSlot, status: ConnStatus },
}

/// Whether a peer counts as connected: its slot holds an open connection, or is
/// being worked on.
pub fn has_live(access: &SlotAccess) -> (r: bool)
    ensures
        r == (match *access {
            SlotAccess::Absent => false,
            SlotAccess::Busy => true,
            SlotAccess::Seen { slot, status } => live(slot, status),
        }),
{
    match access {
        SlotAccess::Absent => false,
        SlotAccess::Busy => true,
        SlotAccess::Seen { slot, status } => slot.is_live(*status),
    }
}

/// The report on a peer's connection. `keep_alive` says that the pool or its
/// settings keep the peer's connection alive.
pub fn peer_snapshot(access: &SlotAccess, keep_alive: bool, now: u64) -> (r: PeerConnSnapshot)
    ensures
        r.path@ == "unknown"@,
        ({
            match *access {
                SlotAccess::Absent => {
                    &&& r.state@ == "idle"@
                    &&& r.keep_alive == keep_alive
                    &&& r.last_activity_secs_ago == u64::MAX
                    &&& !r.live
                },
                SlotAccess::Busy => {
                    &&& r.state@ == (if keep_alive {
                        "connected"@
                    } else {
                        "idle"@
                    })
                    &&& r.keep_alive == keep_alive
                    &&& r.last_activity_secs_ago == 0
                    &&& r.live
                },
                SlotAccess::Seen { slot, status } => {
                    &&& r.state@ == state_name(slot.state)
                    &&& r.keep_alive == (keep_alive || slot.peer_keep_alive)
                    &&& r.last_activity_secs_ago == now.saturating_sub(slot.last_activity)
                        / NANOS_PER_SEC
                    &&& r.live == live(slot, status)
                },
            }
        }),
{
    match access {
        SlotAccess::Absent => PeerConnSnapshot {
            state: "idle".to_owned(),
            keep_alive,
            last_activity_secs_ago: u64::MAX,
            live: false,
            path: "unknown".to_owned(),
        },
        SlotAccess::Busy => PeerConnSnapshot {
            state: if keep_alive {
                "connected".to_owned()
            } else {
                "idle".to_owned()
            },
            keep_alive,
            last_activity_secs_ago: 0,
            live: true,
            path: "unknown".to_owned(),
        },
        SlotAccess::Seen { slot, status } => PeerConnSnapshot {
            state: slot.state.as_str().to_owned(),
            keep_alive: keep_alive || slot.peer_keep_alive,
            last_activity_secs_ago: now.saturating_sub(slot.last_activity) / NANOS_PER_SEC,
            live: slot.is_live(*status),
            path: "unknown".to_owned(),
        },
    }
}

} // verus!
