//! What is done after a connection: two optional jobs, each run at most twice in one
//! burst.

use vstd::prelude::*;
use vstd::string::*;
use vstd::utf8::*;

use crate::digest::{sha256, sha256_digest};

verus! {

/// The pairing that a client certificate stands for.
pub fn compute_pairing_generation(client_cert_pem: &str) -> (r: [u8; 32])
    ensures
        r@ == sha256_digest(encode_utf8(client_cert_pem@)),
{
    sha256(client_cert_pem.as_bytes())
}

/// The passes of one job in a burst.
#[derive(Debug, PartialEq, Eq, Structural)]
pub struct LaneBurst {
    pub pass_count: u8,
    pub in_flight: bool,
    pub follow_up_requested: bool,
    pub attempt_id: u64,
}

/// A job that has not run.
pub open spec fn idle_lane() -> LaneBurst {
    LaneBurst { pass_count: 0, in_flight: false, follow_up_requested: false, attempt_id: 0 }
}

impl Default for LaneBurst {
    fn default() -> (r: Self)
        ensures
            r == idle_lane(),
    {
        LaneBurst { pass_count: 0, in_flight: false, follow_up_requested: false, attempt_id: 0 }
    }
}

#[derive(Clone, Copy, Debug, PartialEq, Eq, Structural)]
pub enum LaneKind {
    Metadata,
    Access,
}

/// The two jobs, and whether a burst of them is under way.
#[derive(Debug, PartialEq, Eq, Structural)]
pub struct BurstState {
    pub active: bool,
    pub burst_id: u64,
    pub metadata: LaneBurst,
    pub access: LaneBurst,
    /// A description that came after the second pass; the next burst picks it up.
    pub deferred_metadata: bool,
}

/// What the two jobs do after an event: the attempts to start.
#[derive(Clone, Copy, Debug, PartialEq, Eq, Structural)]
pub struct BurstStart {
    pub metadata: Option<u64>,
    pub access: Option<u64>,
}

/// The state of all that is done after a connection.
#[derive(Debug, PartialEq, Eq, Structural)]
pub struct PostConnect {
    pub alive: bool,
    pub attempt_counter: u64,
    pub burst: BurstState,
}

/// The number after `n`, around the limit.
pub open spec fn following(n: u64) -> u64 {
    if n == u64::MAX {
        0
    } else {
        (n + 1) as u64
    }
}

/// A pass may start: none is under way and there was at most one.
pub open spec fn may_start(lane: LaneBurst) -> bool {
    !lane.in_flight && lane.pass_count < 2
}

/// A lane that starts a pass under the next attempt.
pub open spec fn lane_started(lane: LaneBurst, counter: u64) -> LaneBurst {
    LaneBurst {
        pass_count: (lane.pass_count + 1) as u8,
        in_flight: true,
        attempt_id: following(counter),
        ..lane
    }
}

/// What holds of a lane: at most two passes, and none under way before the first.
pub open spec fn lane_ok(lane: LaneBurst) -> bool {
    &&& lane.pass_count <= 2
    &&& lane.in_flight ==> lane.pass_count >= 1
    &&& lane.follow_up_requested ==> lane.in_flight && lane.pass_count == 1
}

impl LaneBurst {
    pub fn start(&mut self, counter: &mut u64) -> (r: Option<u64>)
        ensures
            if may_start(*old(self)) {
                &&& *final(self) == lane_started(*old(self), *old(counter))
                &&& *final(counter) == following(*old(counter))
                &&& r == Some(following(*old(counter)))
            } else {
                *final(self) == *old(self) && *final(counter) == *old(counter) && r is None
            },
    {
        if self.in_flight || self.pass_count >= 2 {
            return None;
        }
        self.pass_count = self.pass_count + 1;
        self.in_flight = true;
        *counter = (*counter).wrapping_add(1);
        self.attempt_id = *counter;
        Some(self.attempt_id)
    }

    /// Asks for one more pass: at once, or after the one under way; never for a third.
    pub fn request_follow_up(&mut self, counter: &mut u64) -> (r: Option<u64>)
        ensures
            if old(self).pass_count >= 2 {
                *final(self) == *old(self) && *final(counter) == *old(counter) && r is None
            } else if old(self).in_flight {
                &&& *final(self) == (LaneBurst { follow_up_requested: true, ..*old(self) })
                &&& *final(counter) == *old(counter)
                &&& r is None
            } else {
                &&& *final(self) == lane_started(*old(self), *old(counter))
                &&& *final(counter) == following(*old(counter))
                &&& r == Some(following(*old(counter)))
            },
    {
        if self.pass_count >= 2 {
            return None;
        }
        if self.in_flight {
            self.follow_up_requested = true;
            return None;
        }
        self.start(counter)
    }
}

/// The next lane and attempt number after a request for one more pass.
pub open spec fn follow_up(lane: LaneBurst, counter: u64) -> (LaneBurst, u64, Option<u64>) {
    if lane.pass_count >= 2 {
        (lane, counter, None)
    } else if lane.in_flight {
        (LaneBurst { follow_up_requested: true, ..lane }, counter, None)
    } else {
        (lane_started(lane, counter), following(counter), Some(following(counter)))
    }
}

/// What an event from outside does: it starts a burst, or asks each job of the burst
/// under way for its second pass.
pub open spec fn triggered(p: PostConnect) -> (PostConnect, BurstStart) {
    if !p.alive {
        (p, BurstStart { metadata: None, access: None })
    } else if !p.burst.active {
        let first = following(p.attempt_counter);
        let second = following(first);
        (
            PostConnect {
                attempt_counter: second,
                burst: BurstState {
                    active: true,
                    burst_id: following(p.burst.burst_id),
                    metadata: lane_started(idle_lane(), p.attempt_counter),
                    access: lane_started(idle_lane(), first),
                    deferred_metadata: false,
                },
                ..p
            },
            BurstStart { metadata: Some(first), access: Some(second) },
        )
    } else {
        let metadata = follow_up(p.burst.metadata, p.attempt_counter);
        let access = follow_up(p.burst.access, metadata.1);
        (
            PostConnect {
                attempt_counter: access.1,
                burst: BurstState { metadata: metadata.0, access: access.0, ..p.burst },
                ..p
            },
            BurstStart { metadata: metadata.2, access: access.2 },
        )
    }
}

/// What a dial that succeeded does: during a burst, nothing.
pub open spec fn dialled(p: PostConnect) -> (PostConnect, BurstStart) {
    if p.burst.active {
        (p, BurstStart { metadata: None, access: None })
    } else {
        triggered(p)
    }
}

/// A lane whose pass has ended: the second one starts where it was asked for.
pub open spec fn pass_ended(lane: LaneBurst, counter: u64, alive: bool) -> (
    LaneBurst,
    u64,
    Option<u64>,
) {
    let rested = LaneBurst { in_flight: false, follow_up_requested: false, ..lane };
    if lane.follow_up_requested && lane.pass_count < 2 && alive {
        (lane_started(rested, counter), following(counter), Some(following(counter)))
    } else {
        (rested, counter, None)
    }
}

/// Nothing is under way and nothing is asked for.
pub open spec fn is_quiescent(burst: BurstState) -> bool {
    !burst.metadata.in_flight && !burst.access.in_flight && !burst.metadata.follow_up_requested
        && !burst.access.follow_up_requested
}

/// A burst that has nothing left to do is over.
pub open spec fn settled(burst: BurstState) -> BurstState {
    if is_quiescent(burst) {
        BurstState { active: false, ..burst }
    } else {
        burst
    }
}

/// What the end of a pass does. The end of a pass that is not the last one counts for
/// nothing.
pub open spec fn completed(p: PostConnect, kind: LaneKind, attempt_id: u64) -> (
    PostConnect,
    Option<u64>,
    bool,
) {
    let lane = match kind {
        LaneKind::Metadata => p.burst.metadata,
        LaneKind::Access => p.burst.access,
    };
    if lane.attempt_id != attempt_id {
        (p, None, false)
    } else {
        let ended = pass_ended(lane, p.attempt_counter, p.alive);
        let burst = match kind {
            LaneKind::Metadata => BurstState {
                metadata: ended.0,
                deferred_metadata: p.burst.deferred_metadata || (lane.follow_up_requested
                    && lane.pass_count >= 2),
                ..p.burst
            },
            LaneKind::Access => BurstState { access: ended.0, ..p.burst },
        };
        (
            PostConnect { attempt_counter: ended.1, burst: settled(burst), ..p },
            ended.2,
            is_quiescent(burst),
        )
    }
}

/// The session is over: what is under way ends, and nothing follows it.
pub open spec fn shut_down(p: PostConnect) -> PostConnect {
    PostConnect {
        alive: false,
        burst: BurstState {
            metadata: LaneBurst { follow_up_requested: false, ..p.burst.metadata },
            access: LaneBurst { follow_up_requested: false, ..p.burst.access },
            ..p.burst
        },
        ..p
    }
}

fn end_pass(lane: &mut LaneBurst, counter: &mut u64, alive: bool) -> (r: Option<u64>)
    ensures
        (*final(lane), *final(counter), r) == pass_ended(*old(lane), *old(counter), alive),
{
    lane.in_flight = false;
    if lane.follow_up_requested && lane.pass_count < 2 && alive {
        lane.follow_up_requested = false;
        lane.start(counter)
    } else {
        lane.follow_up_requested = false;
        None
    }
}

impl PostConnect {
    pub fn new() -> (r: Self)
        ensures
            r == (PostConnect {
                alive: true,
                attempt_counter: 0,
                burst: BurstState {
                    active: false,
                    burst_id: 0,
                    metadata: idle_lane(),
                    access: idle_lane(),
                    deferred_metadata: false,
                },
            }),
    {
        PostConnect {
            alive: true,
            attempt_counter: 0,
            burst: BurstState {
                active: false,
                burst_id: 0,
                metadata: LaneBurst::default(),
                access: LaneBurst::default(),
                deferred_metadata: false,
            },
        }
    }

    pub fn is_alive(&self) -> (r: bool)
        ensures
            r == self.alive,
    {
        self.alive
    }

    pub fn burst_is_active(&self) -> (r: bool)
        ensures
            r == self.burst.active,
    {
        self.burst.active
    }

    pub fn shutdown(&mut self)
        ensures
            *final(self) == shut_down(*old(self)),
    {
        self.alive = false;
        self.burst.metadata.follow_up_requested = false;
        self.burst.access.follow_up_requested = false;
    }

    /// Something happened outside: a connection, an attachment, a request. The result is
    /// the attempts to start.
    pub fn trigger_external(&mut self) -> (r: BurstStart)
        ensures
            (*final(self), r) == triggered(*old(self)),
    {
        if !self.alive {
            return BurstStart { metadata: None, access: None };
        }
        let mut counter: u64 = self.attempt_counter;
        let start = if !self.burst.active {
            self.burst.active = true;
            self.burst.burst_id = self.burst.burst_id.wrapping_add(1);
            self.burst.deferred_metadata = false;
            self.burst.metadata = LaneBurst::default();
            self.burst.access = LaneBurst::default();
            let metadata = self.burst.metadata.start(&mut counter);
            let access = self.burst.access.start(&mut counter);
            BurstStart { metadata, access }
        } else {
            let metadata = self.burst.metadata.request_follow_up(&mut counter);
            let access = self.burst.access.request_follow_up(&mut counter);
            BurstStart { metadata, access }
        };
        self.attempt_counter = counter;
        start
    }

    /// A dial that succeeded. During a burst one of its jobs brought it about, and it
    /// starts nothing.
    pub fn note_successful_dial(&mut self) -> (r: BurstStart)
        ensures
            (*final(self), r) == dialled(*old(self)),
    {
        if self.burst.active {
            return BurstStart { metadata: None, access: None };
        }
        self.trigger_external()
    }

    /// A pass has ended. The result is the attempt to start, and whether the burst is
    /// over.
    pub fn on_complete(&mut self, kind: LaneKind, attempt_id: u64) -> (r: (Option<u64>, bool))
        ensures
            (*final(self), r.0, r.1) == completed(*old(self), kind, attempt_id),
    {
        let alive = self.alive;
        let mut counter: u64 = self.attempt_counter;
        let next = match kind {
            LaneKind::Metadata => {
                if self.burst.metadata.attempt_id != attempt_id {
                    return (None, false);
                }
                if self.burst.metadata.follow_up_requested && self.burst.metadata.pass_count >= 2 {
                    self.burst.deferred_metadata = true;
                }
                end_pass(&mut self.burst.metadata, &mut counter, alive)
            },
            LaneKind::Access => {
                if self.burst.access.attempt_id != attempt_id {
                    return (None, false);
                }
                end_pass(&mut self.burst.access, &mut counter, alive)
            },
        };
        let quiescent = !self.burst.metadata.in_flight && !self.burst.access.in_flight
            && !self.burst.metadata.follow_up_requested && !self.burst.access.follow_up_requested;
        if quiescent {
            self.burst.active = false;
        }
        self.attempt_counter = counter;
        (next, quiescent)
    }
}

// ---------------------------------------------------------------------------
// What a burst keeps
// ---------------------------------------------------------------------------

/// What holds after every event.
pub open spec fn burst_ok(p: PostConnect) -> bool {
    &&& lane_ok(p.burst.metadata)
    &&& lane_ok(p.burst.access)
    &&& !p.burst.active ==> is_quiescent(p.burst)
}

/// A job runs at most twice in one burst, whatever happens: every event keeps it so.
pub proof fn lemma_two_passes_per_burst(p: PostConnect, kind: LaneKind, attempt_id: u64)
    requires
        burst_ok(p),
    ensures
        burst_ok(triggered(p).0),
        burst_ok(completed(p, kind, attempt_id).0),
        burst_ok(shut_down(p)),
{
}

/// A pass is started only by a trigger from outside or by the end of a pass that was
/// asked to be followed; what starts always belongs to an active burst.
pub proof fn lemma_starts_belong_to_burst(p: PostConnect, kind: LaneKind, attempt_id: u64)
    requires
        burst_ok(p),
    ensures
        triggered(p).1.metadata is Some ==> triggered(p).0.burst.active && triggered(
            p,
        ).0.burst.metadata.in_flight,
        triggered(p).1.access is Some ==> triggered(p).0.burst.active && triggered(
            p,
        ).0.burst.access.in_flight,
        completed(p, kind, attempt_id).1 is Some ==> !completed(p, kind, attempt_id).2,
{
}

/// After a shutdown no pass starts any more.
pub proof fn lemma_nothing_starts_after_shutdown(p: PostConnect, kind: LaneKind, attempt_id: u64)
    requires
        !p.alive,
    ensures
        triggered(p) == (p, BurstStart { metadata: None, access: None }),
        completed(p, kind, attempt_id).1 is None,
        !completed(p, kind, attempt_id).0.alive,
{
}

/// The end of a pass that another has replaced changes nothing.
pub proof fn lemma_stale_completion_is_ignored(p: PostConnect, kind: LaneKind, attempt_id: u64)
    requires
        attempt_id != match kind {
            LaneKind::Metadata => p.burst.metadata.attempt_id,
            LaneKind::Access => p.burst.access.attempt_id,
        },
    ensures
        completed(p, kind, attempt_id) == (p, None::<u64>, false),
{
}

/// A burst ends: once both jobs have ended their last passes, a trigger starts a new
/// one with both of them.
pub proof fn lemma_burst_restarts_when_quiescent(p: PostConnect)
    requires
        p.alive,
        !p.burst.active,
    ensures
        triggered(p).1.metadata is Some,
        triggered(p).1.access is Some,
        triggered(p).1.metadata != triggered(p).1.access,
{
}

/// A trigger that comes while the first pass of a job is under way is not lost: the
/// second pass starts when that one ends, and the burst goes on. A shutdown in between
/// takes it back.
pub proof fn lemma_trigger_during_pass_is_followed_up(p: PostConnect)
    requires
        p.alive,
        p.burst.active,
        p.burst.metadata.in_flight,
        p.burst.metadata.pass_count == 1,
        p.burst.access.in_flight,
        p.burst.access.pass_count == 1,
    ensures
        ({
            let asked = triggered(p).0;
            let first = completed(asked, LaneKind::Metadata, asked.burst.metadata.attempt_id);
            let second = completed(asked, LaneKind::Access, asked.burst.access.attempt_id);
            let stopped = shut_down(asked);
            &&& triggered(p).1.metadata is None && triggered(p).1.access is None
            &&& asked.burst.metadata.attempt_id == p.burst.metadata.attempt_id
            &&& asked.burst.access.attempt_id == p.burst.access.attempt_id
            &&& asked.attempt_counter == p.attempt_counter
            &&& first.1 is Some && !first.2
            &&& first.0.burst.metadata.in_flight && first.0.burst.metadata.pass_count == 2
            &&& first.0.burst.metadata.attempt_id == first.1->0
            &&& first.0.burst.active
            &&& first.0.burst.access == asked.burst.access
            &&& second.1 is Some && !second.2
            &&& second.0.burst.access.in_flight && second.0.burst.access.pass_count == 2
            &&& second.0.burst.access.attempt_id == second.1->0
            &&& second.0.burst.active
            &&& second.0.burst.metadata == asked.burst.metadata
            &&& completed(stopped, LaneKind::Metadata, stopped.burst.metadata.attempt_id).1 is None
            &&& completed(stopped, LaneKind::Access, stopped.burst.access.attempt_id).1 is None
        }),
{
}

/// A trigger that comes after the first pass of a job has ended, while the other job is
/// still at work, starts the second pass at once; after the second none is started.
pub proof fn lemma_trigger_after_pass_starts_at_once(p: PostConnect)
    requires
        p.alive,
        p.burst.active,
    ensures
        !p.burst.metadata.in_flight && p.burst.metadata.pass_count < 2 ==> {
            &&& triggered(p).1.metadata is Some
            &&& triggered(p).0.burst.metadata.in_flight
            &&& triggered(p).0.burst.metadata.pass_count == p.burst.metadata.pass_count + 1
            &&& triggered(p).0.burst.metadata.attempt_id == triggered(p).1.metadata->0
        },
        !p.burst.access.in_flight && p.burst.access.pass_count < 2 ==> {
            &&& triggered(p).1.access is Some
            &&& triggered(p).0.burst.access.in_flight
            &&& triggered(p).0.burst.access.pass_count == p.burst.access.pass_count + 1
            &&& triggered(p).0.burst.access.attempt_id == triggered(p).1.access->0
        },
        p.burst.metadata.pass_count >= 2 ==> triggered(p).1.metadata is None && triggered(
            p,
        ).0.burst.metadata == p.burst.metadata,
        p.burst.access.pass_count >= 2 ==> triggered(p).1.access is None && triggered(
            p,
        ).0.burst.access == p.burst.access,
        triggered(p).0.burst.burst_id == p.burst.burst_id,
        triggered(p).0.alive,
{
}

/// A new burst starts the first pass of both jobs under numbers that were not used, and is
/// a burst of its own.
pub proof fn lemma_new_burst_starts_both(p: PostConnect)
    requires
        p.alive,
        !p.burst.active,
        p.attempt_counter <= u64::MAX - 2,
        p.burst.burst_id < u64::MAX,
    ensures
        ({
            let (after, start) = triggered(p);
            &&& after.burst.active
            &&& after.burst.burst_id == p.burst.burst_id + 1
            &&& start.metadata == Some((p.attempt_counter + 1) as u64)
            &&& start.access == Some((p.attempt_counter + 2) as u64)
            &&& after.attempt_counter == p.attempt_counter + 2
            &&& after.burst.metadata.attempt_id == start.metadata->0
            &&& after.burst.access.attempt_id == start.access->0
            &&& after.burst.metadata.in_flight && after.burst.metadata.pass_count == 1
            &&& after.burst.access.in_flight && after.burst.access.pass_count == 1
            &&& !after.burst.metadata.follow_up_requested
            &&& !after.burst.access.follow_up_requested
            &&& !after.burst.deferred_metadata
        }),
{
}

/// The end of a pass that nothing is to follow leaves its job at rest, and the burst is
/// over exactly where the other job is at rest too.
pub proof fn lemma_burst_is_over_when_both_rest(p: PostConnect)
    requires
        burst_ok(p),
        p.burst.active,
    ensures
        !p.burst.metadata.follow_up_requested ==> {
            let (after, next, over) = completed(
                p,
                LaneKind::Metadata,
                p.burst.metadata.attempt_id,
            );
            &&& next is None
            &&& !after.burst.metadata.in_flight
            &&& after.burst.metadata.pass_count == p.burst.metadata.pass_count
            &&& over <==> !p.burst.access.in_flight
            &&& after.burst.active <==> !over
            &&& after.burst.access == p.burst.access
            &&& after.burst.deferred_metadata == p.burst.deferred_metadata
            &&& after.attempt_counter == p.attempt_counter
            &&& after.alive == p.alive
        },
        !p.burst.access.follow_up_requested ==> {
            let (after, next, over) = completed(p, LaneKind::Access, p.burst.access.attempt_id);
            &&& next is None
            &&& !after.burst.access.in_flight
            &&& after.burst.access.pass_count == p.burst.access.pass_count
            &&& over <==> !p.burst.metadata.in_flight
            &&& after.burst.active <==> !over
            &&& after.burst.metadata == p.burst.metadata
            &&& after.burst.deferred_metadata == p.burst.deferred_metadata
            &&& after.attempt_counter == p.attempt_counter
            &&& after.alive == p.alive
        },
{
}

/// A dial that one of the jobs brought about starts nothing; any other starts a burst.
pub proof fn lemma_dials_of_a_burst_start_nothing(p: PostConnect)
    ensures
        p.burst.active ==> dialled(p).0 == p && dialled(p).1.metadata is None && dialled(
            p,
        ).1.access is None,
        p.alive && !p.burst.active ==> dialled(p).0.burst.active && dialled(p).1.metadata is Some
            && dialled(p).1.access is Some,
        !p.alive ==> dialled(p).0 == p && dialled(p).1.metadata is None && dialled(p).1.access
            is None,
{
}

/// A shutdown keeps what is under way and ends what was asked for.
pub proof fn lemma_shutdown_keeps_passes(p: PostConnect)
    ensures
        !shut_down(p).alive,
        shut_down(p).burst.metadata.in_flight == p.burst.metadata.in_flight,
        shut_down(p).burst.access.in_flight == p.burst.access.in_flight,
        shut_down(p).burst.metadata.attempt_id == p.burst.metadata.attempt_id,
        shut_down(p).burst.access.attempt_id == p.burst.access.attempt_id,
        !shut_down(p).burst.metadata.follow_up_requested,
        !shut_down(p).burst.access.follow_up_requested,
        shut_down(p).burst.active == p.burst.active,
{
}

/// A third pass is never started, whatever was asked for.
pub proof fn lemma_no_third_pass(p: PostConnect)
    ensures
        p.burst.metadata.pass_count >= 2 ==> completed(
            p,
            LaneKind::Metadata,
            p.burst.metadata.attempt_id,
        ).1 is None,
        p.burst.access.pass_count >= 2 ==> completed(
            p,
            LaneKind::Access,
            p.burst.access.attempt_id,
        ).1 is None,
        p.burst.metadata.pass_count >= 2 && p.burst.metadata.follow_up_requested ==> completed(
            p,
            LaneKind::Metadata,
            p.burst.metadata.attempt_id,
        ).0.burst.deferred_metadata,
{
}

/// Attempts are numbered one after the other, and the numbers start over at the limit.
pub proof fn lemma_attempts_are_numbered(n: u64)
    ensures
        n < u64::MAX ==> following(n) == n + 1,
        n == u64::MAX ==> following(n) == 0,
{
}

} // verus!
