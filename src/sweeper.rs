//! The sweeper's schedule: expiry of packets and demotion of stale
//! registrations, each on its own period. A sweep that comes due runs at
//! once and is next due one period after it ran, so late ticks never stack.
use vstd::prelude::*;

use crate::mailbox::{after_expire, Mailbox};
use crate::models::{EncryptedPacket, Registration};
use crate::registry::{after_demotion, stale_pred, Registry, STALE_AFTER_SECONDS};
use crate::sources::now_seconds;

verus! {

/// Period of the expiry sweep, in seconds.
pub const EXPIRE_PERIOD_SECONDS: u64 = 60;

/// Period of the demotion sweep, in seconds.
pub const DEMOTE_PERIOD_SECONDS: u64 = 60;

/// `now + period`, or the last representable instant when that is later.
pub open spec fn next_due(now: int, period: int) -> int {
    if now + period > i64::MAX {
        i64::MAX as int
    } else {
        now + period
    }
}

/// When each sweep is next due, and the periods between them.
pub struct Sweeper {
    pub expire_period: u64,
    pub demote_period: u64,
    pub next_expire: i64,
    pub next_demote: i64,
}

/// What one tick did: when it ran, and the count of each sweep that ran.
pub struct SweepReport {
    pub at: i64,
    pub expired: Option<u64>,
    pub demoted: Option<u64>,
}

/// A tick at `r.at` took the schedule from `s0` to `s1`, the packets from
/// `m0` to `m1` and the registrations from `g0` to `g1`: each due sweep ran
/// at that time, reported its count and is next due one period later; a
/// sweep not due left everything as it was.
pub open spec fn ticked(
    s0: Sweeper,
    s1: Sweeper,
    m0: Seq<EncryptedPacket>,
    m1: Seq<EncryptedPacket>,
    g0: Seq<Registration>,
    g1: Seq<Registration>,
    r: SweepReport,
) -> bool {
    let now = r.at as int;
    &&& s1.expire_period == s0.expire_period
    &&& s1.demote_period == s0.demote_period
    &&& s0.next_expire <= now ==> m1 == after_expire(m0, now) && r.expired == Some((m0.len() - m1.len()) as u64)
        && s1.next_expire == next_due(now, s0.expire_period as int)
    &&& now < s0.next_expire ==> m1 == m0 && r.expired is None && s1.next_expire == s0.next_expire
    &&& s0.next_demote <= now ==> g1 == after_demotion(g0, now, STALE_AFTER_SECONDS as int) && r.demoted == Some(
        g0.filter(stale_pred(now, STALE_AFTER_SECONDS as int)).len() as u64,
    ) && s1.next_demote == next_due(now, s0.demote_period as int)
    &&& now < s0.next_demote ==> g1 == g0 && r.demoted is None && s1.next_demote == s0.next_demote
}

fn add_period(now: i64, period: u64) -> (r: i64)
    ensures
        r == next_due(now as int, period as int),
{
    let end: i128 = now as i128 + period as i128;
    if end > i64::MAX as i128 {
        i64::MAX
    } else {
        end as i64
    }
}

impl Sweeper {
    /// A schedule with the default periods whose sweeps are both due at `start`.
    pub fn new(start: i64) -> (r: Sweeper)
        ensures
            r.expire_period == EXPIRE_PERIOD_SECONDS,
            r.demote_period == DEMOTE_PERIOD_SECONDS,
            r.next_expire == start,
            r.next_demote == start,
    {
        Sweeper {
            expire_period: EXPIRE_PERIOD_SECONDS,
            demote_period: DEMOTE_PERIOD_SECONDS,
            next_expire: start,
            next_demote: start,
        }
    }

    /// Runs, at time `now`, each sweep that is due and schedules it again.
    /// A sweep that is not due changes nothing.
    pub fn tick_at(&mut self, now: i64, mailbox: &mut Mailbox, registry: &mut Registry) -> (r: SweepReport)
        requires
            old(mailbox).wf(),
            old(registry).wf(),
        ensures
            final(mailbox).wf(),
            final(registry).wf(),
            r.at == now,
            ticked(*old(self), *final(self), old(mailbox)@, final(mailbox)@, old(registry)@, final(registry)@, r),
    {
        let expired = if self.next_expire <= now {
            let n = mailbox.expire_at(now);
            self.next_expire = add_period(now, self.expire_period);
            Some(n)
        } else {
            None
        };
        let demoted = if self.next_demote <= now {
            let n = registry.demote_stale_at(now, STALE_AFTER_SECONDS);
            self.next_demote = add_period(now, self.demote_period);
            Some(n)
        } else {
            None
        };
        SweepReport { at: now, expired, demoted }
    }

    /// One tick of the schedule at the current time.
    pub fn tick(&mut self, mailbox: &mut Mailbox, registry: &mut Registry) -> (r: SweepReport)
        requires
            old(mailbox).wf(),
            old(registry).wf(),
        ensures
            final(mailbox).wf(),
            final(registry).wf(),
            ticked(*old(self), *final(self), old(mailbox)@, final(mailbox)@, old(registry)@, final(registry)@, r),
    {
        let now = now_seconds();
        self.tick_at(now, mailbox, registry)
    }
}

} // verus!
