//! The single-instance lock: the persisted ownership record of a project and
//! the protocol that decides whether to own, forward, or refuse.
//!
//! A lock record either names a live control endpoint (`WithListener`) or
//! only the moment the project was claimed (`WithoutListener`).  Reading and
//! writing the record file, and probing the endpoint, are the caller's
//! business; the decisions are made here from plain values.

use vstd::prelude::*;

verus! {

/// How long a lock without a listener is honoured before it is presumed
/// dead, in seconds.
pub const SECS_OF_GRACE_FOR_NONLISTENING_LOCK: u64 = 60;

/// How long a forwarding client waits for the recorded listener to accept,
/// in milliseconds.
pub const LOCK_CONNECTION_TIMEOUT_MS: u64 = 250;

/// A lock record naming a reachable control endpoint.
pub struct LockedWithListener {
    pub hostname: String,
    pub listener_port: u16,
}

/// A lock record of an instance that has not (yet) published a listener;
/// `time_locked` is seconds since the Unix epoch.
pub struct LockedWithoutListener {
    pub time_locked: i64,
}

/// The persisted claim of ownership over a project.
pub enum Lock {
    WithListener(LockedWithListener),
    WithoutListener(LockedWithoutListener),
}

impl Lock {
    /// The record written the instant a project is opened, before any
    /// listener exists.
    pub fn without_listener(now: i64) -> (r: Self)
        ensures
            r == Lock::WithoutListener(LockedWithoutListener { time_locked: now }),
    {
        Lock::WithoutListener(LockedWithoutListener { time_locked: now })
    }

    /// The record written once the control endpoint is bound.
    pub fn with_listener(hostname: String, listener_port: u16) -> (r: Self)
        ensures
            r == Lock::WithListener(LockedWithListener { hostname, listener_port }),
    {
        Lock::WithListener(LockedWithListener { hostname, listener_port })
    }
}

/// The lock record file of a project; the path is `None` once released.
pub struct LockFile {
    pub path: Option<String>,
}

impl LockFile {
    /// Claims a project: names the record file under `root` and yields the
    /// fresh `WithoutListener` record the caller must persist there.
    pub fn new(root: &str, now: i64) -> (r: (LockFile, Lock))
        ensures
            r.0.path matches Option::Some(p) && p@ == root@ + "/flist.lock"@,
            r.1 == Lock::WithoutListener(LockedWithoutListener { time_locked: now }),
    {
        let path = root.to_owned().concat("/flist.lock");
        (LockFile { path: Option::Some(path) }, Lock::without_listener(now))
    }

    /// Upgrades the claim: yields the `WithListener` record the caller must
    /// persist over the old one.
    pub fn set_listener(&self, hostname: String, listener_port: u16) -> (r: Lock)
        ensures
            r == Lock::WithListener(LockedWithListener { hostname, listener_port }),
    {
        Lock::with_listener(hostname, listener_port)
    }
}

// ---------------------------------------------------------------------------
// The acquisition protocol.
// ---------------------------------------------------------------------------

/// A lock without a listener has outlived the grace window.
pub open spec fn lock_is_stale(time_locked: int, now: int) -> bool {
    now - time_locked >= SECS_OF_GRACE_FOR_NONLISTENING_LOCK as int
}

/// The first decision of the acquisition protocol, before any endpoint is
/// probed.
#[derive(Debug, PartialEq, Eq)]
pub enum AcquireStep {
    /// No record exists: claim the project with a fresh record.
    Fresh,
    /// A listener is recorded: attempt a bounded-timeout connection to it.
    TryForward { hostname: String, listener_port: u16 },
    /// A listenerless record is still within its grace window: give up and
    /// report when it was taken.
    Refused { time_locked: i64 },
    /// The record is stale: delete it and claim the project with a fresh
    /// record.
    Reclaim,
}

/// What acquisition decides before probing: forward to a recorded listener,
/// refuse a fresh listenerless lock, reclaim a stale one, claim freely when
/// no record exists.
pub open spec fn spec_acquire_step(existing: Option<Lock>, now: int) -> AcquireStep {
    match existing {
        Option::None => AcquireStep::Fresh,
        Option::Some(Lock::WithListener(l)) => AcquireStep::TryForward {
            hostname: l.hostname,
            listener_port: l.listener_port,
        },
        Option::Some(Lock::WithoutListener(t)) => if lock_is_stale(t.time_locked as int, now) {
            AcquireStep::Reclaim
        } else {
            AcquireStep::Refused { time_locked: t.time_locked }
        },
    }
}

/// Decides the first step of acquisition from the decoded record (or its
/// absence) and the current time.
pub fn acquire_step(existing: Option<Lock>, now: i64) -> (r: AcquireStep)
    ensures
        r == spec_acquire_step(existing, now as int),
{
    match existing {
        Option::None => AcquireStep::Fresh,
        Option::Some(Lock::WithListener(l)) => AcquireStep::TryForward {
            hostname: l.hostname,
            listener_port: l.listener_port,
        },
        Option::Some(Lock::WithoutListener(t)) => {
            match t.time_locked.checked_add(SECS_OF_GRACE_FOR_NONLISTENING_LOCK as i64) {
                Option::Some(cut) => {
                    if cut <= now {
                        AcquireStep::Reclaim
                    } else {
                        AcquireStep::Refused { time_locked: t.time_locked }
                    }
                },
                // the grace window reaches past any representable time
                Option::None => AcquireStep::Refused { time_locked: t.time_locked },
            }
        },
    }
}

/// The outcome of the whole acquisition, once any needed probe is done.
#[derive(Clone, Copy, Debug, PartialEq, Eq, Structural)]
pub enum AcquireOutcome {
    /// This process owns the project; a fresh record was (or must be)
    /// persisted.
    Owned,
    /// A live instance took the forwarded command; this process is done.
    Forwarded,
    /// Another instance claimed the project within the grace window, at the
    /// reported time; do not touch it.
    Refused(i64),
}

/// The acquisition protocol as a whole: `listener_reachable` is the result
/// of the bounded-timeout probe of the recorded endpoint, and is only looked
/// at when a listener is recorded.  An unreachable listener and a stale
/// listenerless record are both reclaimed.
pub open spec fn spec_acquire_outcome(
    existing: Option<Lock>,
    now: int,
    listener_reachable: bool,
) -> AcquireOutcome {
    match existing {
        Option::None => AcquireOutcome::Owned,
        Option::Some(Lock::WithListener(_)) => if listener_reachable {
            AcquireOutcome::Forwarded
        } else {
            AcquireOutcome::Owned
        },
        Option::Some(Lock::WithoutListener(t)) => if lock_is_stale(t.time_locked as int, now) {
            AcquireOutcome::Owned
        } else {
            AcquireOutcome::Refused(t.time_locked)
        },
    }
}

/// Decides the outcome of acquisition.  The caller hands in the decoded
/// record and, when one names a listener, whether its probe connected.
pub fn acquire_or_forward(existing: Option<Lock>, now: i64, listener_reachable: bool) -> (r:
    AcquireOutcome)
    ensures
        r == spec_acquire_outcome(existing, now as int, listener_reachable),
{
    match acquire_step(existing, now) {
        AcquireStep::Fresh => AcquireOutcome::Owned,
        AcquireStep::Reclaim => AcquireOutcome::Owned,
        AcquireStep::TryForward { hostname: _, listener_port: _ } => {
            if listener_reachable {
                AcquireOutcome::Forwarded
            } else {
                AcquireOutcome::Owned
            }
        },
        AcquireStep::Refused { time_locked } => AcquireOutcome::Refused(time_locked),
    }
}

// ---------------------------------------------------------------------------
// Laws of the protocol.
// ---------------------------------------------------------------------------

/// Staleness of a listenerless lock: one taken at least the whole grace
/// window ago (61 seconds and more) is reclaimed and the project owned; one
/// taken moments ago (10 seconds) is refused, reporting when it was taken.
pub proof fn lemma_lock_staleness(now: int)
    ensures
        spec_acquire_outcome(
            Option::Some(Lock::WithoutListener(LockedWithoutListener { time_locked: 0 })),
            now,
            false,
        ) == (if now >= 60 {
            AcquireOutcome::Owned
        } else {
            AcquireOutcome::Refused(0)
        }),
        forall|t: i64|
            now - t >= 61 ==> #[trigger] spec_acquire_outcome(
                Option::Some(Lock::WithoutListener(LockedWithoutListener { time_locked: t })),
                now,
                false,
            ) == AcquireOutcome::Owned,
        forall|t: i64|
            now - t == 10 ==> #[trigger] spec_acquire_outcome(
                Option::Some(Lock::WithoutListener(LockedWithoutListener { time_locked: t })),
                now,
                false,
            ) == AcquireOutcome::Refused(t),
{
}

/// Forwarding: a recorded listener that answers the probe takes the command
/// (`Forwarded`); one that does not answer is treated as dead and the
/// project is owned after reclaiming, whatever endpoint was recorded and
/// whatever the time.
pub proof fn lemma_lock_forwarding(l: LockedWithListener, now: int)
    ensures
        spec_acquire_outcome(Option::Some(Lock::WithListener(l)), now, true)
            == AcquireOutcome::Forwarded,
        spec_acquire_outcome(Option::Some(Lock::WithListener(l)), now, false)
            == AcquireOutcome::Owned,
{
}

/// The two stages agree: the probe-free first step refuses exactly when the
/// whole protocol refuses, claims exactly when it owns without probing, and
/// asks for a probe exactly when the outcome hangs on reachability.
pub proof fn lemma_acquire_step_agrees(existing: Option<Lock>, now: int, listener_reachable: bool)
    ensures
        ({
            let step = spec_acquire_step(existing, now);
            let outcome = spec_acquire_outcome(existing, now, listener_reachable);
            match step {
                AcquireStep::Fresh => outcome == AcquireOutcome::Owned,
                AcquireStep::Reclaim => outcome == AcquireOutcome::Owned,
                AcquireStep::TryForward { hostname: _, listener_port: _ } => outcome == (
                if listener_reachable {
                    AcquireOutcome::Forwarded
                } else {
                    AcquireOutcome::Owned
                }),
                AcquireStep::Refused { time_locked } => outcome == AcquireOutcome::Refused(
                    time_locked,
                ),
            }
        }),
{
}

} // verus!
