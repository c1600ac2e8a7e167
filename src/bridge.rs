//! The decisions of one state bridge: which roots to relay downstream, and
//! when, with a minimum period between relays.

use vstd::prelude::*;
use crate::hash::Field;
use crate::retry::{ClientError, CustomRetryPolicy, RetryBudget, RetryDecision, retry_step};

verus! {

/// What a bridge does with a root it received.
#[derive(PartialEq, Eq, Structural, Clone, Copy, Debug)]
pub enum BridgeAction {
    /// The root was relayed last: nothing to do.
    Skip,
    /// The relaying period has not passed: wait this many milliseconds, then
    /// ask again.
    Wait(u64),
    /// Read the downstream root, then hand it to `on_downstream_root`.
    CheckDownstream,
}

/// The relay state of one bridge. Instants are milliseconds on a monotonic
/// clock.
pub struct StateBridge {
    /// The least time between two relays.
    pub relaying_period: u64,
    pub last_relayed_root: Option<Field>,
    pub last_relay_instant: Option<u64>,
    /// The instants of all relays so far, in order.
    pub relays: Ghost<Seq<u64>>,
}

impl StateBridge {
    pub open spec fn wf(&self) -> bool {
        &&& (self.relays@.len() == 0) == (self.last_relay_instant is None)
        &&& self.relays@.len() > 0 ==> self.last_relay_instant == Some(self.relays@.last())
        &&& forall|i: int|
            1 <= i < self.relays@.len() ==> self.relays@[i - 1] + self.relaying_period
                <= #[trigger] self.relays@[i]
    }

    /// Whether a relay may start at `now`: none yet, or the period has passed
    /// since the last.
    pub open spec fn may_relay(&self, now: u64) -> bool {
        match self.last_relay_instant {
            None => true,
            Some(t) => t + self.relaying_period <= now,
        }
    }

    pub fn new(relaying_period: u64) -> (r: StateBridge)
        ensures
            r.wf(),
            r.relaying_period == relaying_period,
            r.last_relayed_root is None,
            r.relays@.len() == 0,
    {
        StateBridge {
            relaying_period,
            last_relayed_root: None,
            last_relay_instant: None,
            relays: Ghost(Seq::empty()),
        }
    }

    /// The next step for a received root at `now`: skip the root relayed
    /// last; else wait out the rest of the period; else check downstream.
    pub fn next_action(&self, root: Field, now: u64) -> (r: BridgeAction)
        ensures
            self.last_relayed_root == Some(root) ==> r == BridgeAction::Skip,
            self.last_relayed_root != Some(root) && self.may_relay(now) ==> r
                == BridgeAction::CheckDownstream,
            self.last_relayed_root != Some(root) && !self.may_relay(now) ==> r
                == BridgeAction::Wait(
                if self.last_relay_instant->0 + self.relaying_period - now > u64::MAX {
                    u64::MAX
                } else {
                    (self.last_relay_instant->0 + self.relaying_period - now) as u64
                },
            ),
    {
        if self.last_relayed_root == Some(root) {
            return BridgeAction::Skip;
        }
        match self.last_relay_instant {
            None => BridgeAction::CheckDownstream,
            Some(t) => {
                if now >= t && now - t >= self.relaying_period {
                    BridgeAction::CheckDownstream
                } else if now >= t {
                    BridgeAction::Wait(self.relaying_period - (now - t))
                } else if t - now > u64::MAX - self.relaying_period {
                    BridgeAction::Wait(u64::MAX)
                } else {
                    BridgeAction::Wait(t - now + self.relaying_period)
                }
            },
        }
    }

    /// After reading the downstream root: when it already is `root`, records
    /// it as relayed and returns false; otherwise returns true, meaning that
    /// `root` is to be propagated.
    pub fn on_downstream_root(&mut self, root: Field, downstream: Field) -> (r: bool)
        requires
            old(self).wf(),
        ensures
            final(self).wf(),
            r == (root != downstream),
            final(self).relaying_period == old(self).relaying_period,
            final(self).last_relay_instant == old(self).last_relay_instant,
            final(self).relays == old(self).relays,
            final(self).last_relayed_root == if r {
                old(self).last_relayed_root
            } else {
                Some(root)
            },
    {
        if root == downstream {
            self.last_relayed_root = Some(root);
            false
        } else {
            true
        }
    }

    /// Records a relay of `root` completed at `now`. A relay sooner than the
    /// period after the last one is refused: nothing changes and the result
    /// is false.
    pub fn record_relay(&mut self, root: Field, now: u64) -> (r: bool)
        requires
            old(self).wf(),
        ensures
            final(self).wf(),
            r == old(self).may_relay(now),
            final(self).relaying_period == old(self).relaying_period,
            r ==> final(self).last_relayed_root == Some(root) && final(self).last_relay_instant
                == Some(now) && final(self).relays@ == old(self).relays@.push(now),
            !r ==> *final(self) == *old(self),
    {
        let ok = match self.last_relay_instant {
            None => true,
            Some(t) => now >= t && now - t >= self.relaying_period,
        };
        if ok {
            let ghost old_relays = self.relays@;
            self.last_relayed_root = Some(root);
            self.last_relay_instant = Some(now);
            self.relays = Ghost(self.relays@.push(now));
            proof {
                assert forall|i: int| 1 <= i < self.relays@.len() implies self.relays@[i - 1]
                    + self.relaying_period <= #[trigger] self.relays@[i] by {
                    if i < old_relays.len() {
                        assert(self.relays@[i] == old_relays[i]);
                        assert(self.relays@[i - 1] == old_relays[i - 1]);
                    } else {
                        assert(self.relays@[i - 1] == old_relays.last());
                    }
                }
            }
        }
        ok
    }
}

/// Why a bridge stopped.
#[derive(PartialEq, Eq, Structural, Clone, Copy, Debug)]
pub enum BridgeError {
    /// A relay transaction failed and is not to be retried.
    BridgeRelayFailed,
}

/// After a failed relay: the failure is classified by the retry policy; a
/// retryable one within the budget is retried after the returned number of
/// milliseconds, any other ends the bridge. The bridge's own state is not
/// touched: only a successful relay changes it.
pub fn on_relay_failed(budget: &mut RetryBudget, policy: &CustomRetryPolicy, error: &ClientError) -> (r:
    Result<u64, BridgeError>)
    ensures
        *final(budget) == retry_step(*old(budget), *error).1,
        r == match retry_step(*old(budget), *error).0 {
            RetryDecision::Retry(d) => Ok::<u64, BridgeError>(d),
            RetryDecision::GiveUp => Err(BridgeError::BridgeRelayFailed),
        },
{
    match budget.on_error(policy, error) {
        RetryDecision::Retry(d) => Ok(d),
        RetryDecision::GiveUp => Err(BridgeError::BridgeRelayFailed),
    }
}

/// Any two relays of a bridge, the later `k` relays after the earlier, are
/// at least `k` relaying periods apart.
pub proof fn lemma_relays_spaced(b: StateBridge, i: int, j: int)
    requires
        b.wf(),
        0 <= i <= j < b.relays@.len(),
    ensures
        b.relays@[i] + (j - i) * b.relaying_period <= b.relays@[j],
    decreases j - i,
{
    if i < j {
        lemma_relays_spaced(b, i, j - 1);
        assert(b.relays@[j - 1] + b.relaying_period <= b.relays@[j]);
        assert((j - i) * b.relaying_period == (j - 1 - i) * b.relaying_period + b.relaying_period)
            by (nonlinear_arith);
    } else {
        assert((j - i) * b.relaying_period == 0) by (nonlinear_arith)
            requires
                i == j,
        ;
    }
}

} // verus!
