//! Which failed RPC requests are worth retrying, and how long to wait first.

use vstd::prelude::*;
use crate::merkle::pow2;

verus! {

/// A provider's requested wait, as read from `data.rate.backoff_seconds`.
#[derive(PartialEq, Eq, Structural, Clone, Copy, Debug)]
pub enum BackoffSeconds {
    /// The error carries no such field, or not a number.
    Absent,
    /// A whole number of seconds.
    Whole(u64),
    /// A fractional number of seconds, by its whole part.
    Fractional(u64),
}

/// A JSON-RPC error object.
pub struct JsonRpcError {
    pub code: i64,
    pub message: String,
    pub backoff: BackoffSeconds,
}

/// A failed request to an HTTP JSON-RPC endpoint.
pub enum ClientError {
    /// The transport failed, with the HTTP status if one came back, and
    /// whether it failed by timing out.
    Transport { status: Option<u16>, timed_out: bool },
    /// The endpoint answered with a JSON-RPC error.
    JsonRpc(JsonRpcError),
    /// The answer was not a valid JSON-RPC response; its text.
    Malformed { text: String },
}

/// HTTP status "too many requests".
pub const TOO_MANY_REQUESTS: u16 = 429;

/// Whether `pat` occurs in `s` as a contiguous run.
pub open spec fn contains_text(s: Seq<char>, pat: Seq<char>) -> bool {
    exists|i: int| 0 <= i && i + pat.len() <= s.len() && #[trigger] s.subrange(i, i + pat.len()) == pat
}

/// The `error` object that a malformed response's text holds, by its code and
/// message, if the text is JSON with such an object.
pub uninterp spec fn embedded_error_of(text: Seq<char>) -> Option<(int, Seq<char>)>;

/// Whether a JSON-RPC error signals a rate limit or a passing fault of the
/// provider.
pub open spec fn rpc_error_retryable(code: int, message: Seq<char>) -> bool {
    ||| code == 429
    ||| code == -32603
    ||| code == -32005
    ||| code == -32016 && contains_text(message, "rate limit"@)
    ||| message == "header not found"@
    ||| message == "daily request count exceeded, request rate limited"@
}

pub open spec fn should_retry_spec(e: ClientError) -> bool {
    match e {
        ClientError::Transport { status, .. } => status == Some(TOO_MANY_REQUESTS),
        ClientError::JsonRpc(j) => rpc_error_retryable(j.code as int, j.message@),
        ClientError::Malformed { text } => match embedded_error_of(text@) {
            Some(ce) => rpc_error_retryable(ce.0, ce.1),
            None => false,
        },
    }
}

pub open spec fn backoff_hint_spec(e: ClientError) -> Option<u64> {
    match e {
        ClientError::JsonRpc(j) => match j.backoff {
            BackoffSeconds::Absent => None,
            BackoffSeconds::Whole(s) => Some(s),
            BackoffSeconds::Fractional(s) => Some(
                if s == u64::MAX {
                    s
                } else {
                    (s + 1) as u64
                },
            ),
        },
        _ => None,
    }
}

/// Relies on `str::contains`: true exactly when `pat` matches a sub-slice of `s`.
#[verifier::external_body]
fn text_contains(s: &str, pat: &str) -> (r: bool)
    ensures
        r == contains_text(s@, pat@),
{
    s.contains(pat)
}

/// Relies on `serde_json::from_str` into a `serde_json::Value`: the text is
/// parsed, and the `error` member's `code` (an `i64`) and `message` (a string)
/// read. The outcome depends on the text alone.
#[verifier::external_body]
fn embedded_error(text: &str) -> (r: Option<(i64, String)>)
    ensures
        match r {
            None => embedded_error_of(text@) is None,
            Some(ce) => embedded_error_of(text@) == Some((ce.0 as int, ce.1@)),
        },
{
    let v: serde_json::Value = serde_json::from_str(text).ok()?;
    let e = v.get("error")?;
    Some((e.get("code")?.as_i64()?, e.get("message")?.as_str()?.to_string()))
}

fn rpc_retryable(code: i64, message: &String) -> (r: bool)
    ensures
        r == rpc_error_retryable(code as int, message@),
{
    if code == 429 || code == -32603 || code == -32005 {
        return true;
    }
    if code == -32016 && text_contains(message.as_str(), "rate limit") {
        return true;
    }
    let header = "header not found".to_owned();
    let daily = "daily request count exceeded, request rate limited".to_owned();
    *message == header || *message == daily
}

/// The retry policy of the RPC client: retries rate limits and the
/// provider's passing faults.
#[derive(Clone, Copy, Debug, Default)]
pub struct CustomRetryPolicy;

impl CustomRetryPolicy {
    pub fn new() -> (r: CustomRetryPolicy) {
        CustomRetryPolicy
    }

    /// Whether the failed request is to be sent again: an HTTP 429; a
    /// JSON-RPC error with code 429, -32603, -32005, or -32016 with "rate
    /// limit" in its message, or with the message "header not found" or
    /// "daily request count exceeded, request rate limited"; or a malformed
    /// response whose text embeds such an error.
    pub fn should_retry(&self, error: &ClientError) -> (r: bool)
        ensures
            r == should_retry_spec(*error),
    {
        match error {
            ClientError::Transport { status, .. } => match status {
                Some(s) => *s == TOO_MANY_REQUESTS,
                None => false,
            },
            ClientError::JsonRpc(j) => rpc_retryable(j.code, &j.message),
            ClientError::Malformed { text } => match embedded_error(text.as_str()) {
                Some(ce) => rpc_retryable(ce.0, &ce.1),
                None => false,
            },
        }
    }

    /// The wait in seconds that the provider asked for, if any: a whole
    /// number as given, a fraction rounded up past its whole part.
    pub fn backoff_hint(&self, error: &ClientError) -> (r: Option<u64>)
        ensures
            r == backoff_hint_spec(*error),
    {
        match error {
            ClientError::JsonRpc(j) => match j.backoff {
                BackoffSeconds::Absent => None,
                BackoffSeconds::Whole(s) => Some(s),
                BackoffSeconds::Fractional(s) => Some(
                    if s == u64::MAX {
                        s
                    } else {
                        s + 1
                    },
                ),
            },
            _ => None,
        }
    }
}

pub open spec fn is_timeout_spec(e: ClientError) -> bool {
    match e {
        ClientError::Transport { timed_out, .. } => timed_out,
        _ => false,
    }
}

/// `x`, or `u64::MAX` where `x` is larger.
pub open spec fn saturate(x: int) -> u64 {
    if x > u64::MAX {
        u64::MAX
    } else {
        x as u64
    }
}

/// The wait before retry number `n + 1`: the initial wait doubled `n` times.
pub open spec fn exp_backoff_ms(initial_ms: u64, n: nat) -> u64 {
    saturate(initial_ms * pow2(n))
}

/// What to do after a failed request.
#[derive(PartialEq, Eq, Structural, Clone, Copy, Debug)]
pub enum RetryDecision {
    /// Send it again after this many milliseconds.
    Retry(u64),
    /// Hand the error to the caller.
    GiveUp,
}

fn exp_backoff(initial_ms: u64, n: u32) -> (r: u64)
    ensures
        r == exp_backoff_ms(initial_ms, n as nat),
{
    let mut d: u64 = initial_ms;
    let mut k: u32 = 0;
    proof {
        assert(pow2(0) == 1);
        assert(initial_ms * pow2(0) == initial_ms);
    }
    while k < n
        invariant
            k <= n,
            d == exp_backoff_ms(initial_ms, k as nat),
        decreases n - k,
    {
        proof {
            let a = initial_ms * pow2(k as nat);
            assert(initial_ms * pow2((k + 1) as nat) == 2 * a) by (nonlinear_arith)
                requires
                    pow2((k + 1) as nat) == 2 * pow2(k as nat),
                    a == initial_ms * pow2(k as nat),
            ;
            assert(a >= 0) by (nonlinear_arith)
                requires
                    a == initial_ms * pow2(k as nat),
            ;
        }
        d = if d > u64::MAX / 2 {
            u64::MAX
        } else {
            d * 2
        };
        k = k + 1;
    }
    d
}

/// The retries left to one request, counted apart for rate limits and for
/// timeouts, and the initial wait of the exponential backoff.
pub struct RetryBudget {
    pub rate_limit_retries: u32,
    pub timeout_retries: u32,
    pub initial_backoff_ms: u64,
    pub rate_limits_seen: u32,
    pub timeouts_seen: u32,
}

/// The decision on a failed request and the budget after it.
pub open spec fn retry_step(b: RetryBudget, e: ClientError) -> (RetryDecision, RetryBudget) {
    if should_retry_spec(e) {
        if b.rate_limits_seen < b.rate_limit_retries {
            (
                RetryDecision::Retry(
                    match backoff_hint_spec(e) {
                        Some(s) => saturate(s * 1000),
                        None => exp_backoff_ms(b.initial_backoff_ms, b.rate_limits_seen as nat),
                    },
                ),
                RetryBudget { rate_limits_seen: (b.rate_limits_seen + 1) as u32, ..b },
            )
        } else {
            (RetryDecision::GiveUp, b)
        }
    } else if is_timeout_spec(e) && b.timeouts_seen < b.timeout_retries {
        (
            RetryDecision::Retry(exp_backoff_ms(b.initial_backoff_ms, b.timeouts_seen as nat)),
            RetryBudget { timeouts_seen: (b.timeouts_seen + 1) as u32, ..b },
        )
    } else {
        (RetryDecision::GiveUp, b)
    }
}

impl RetryBudget {
    pub fn new(rate_limit_retries: u32, timeout_retries: u32, initial_backoff_ms: u64) -> (r:
        RetryBudget)
        ensures
            r.rate_limit_retries == rate_limit_retries,
            r.timeout_retries == timeout_retries,
            r.initial_backoff_ms == initial_backoff_ms,
            r.rate_limits_seen == 0,
            r.timeouts_seen == 0,
    {
        RetryBudget {
            rate_limit_retries,
            timeout_retries,
            initial_backoff_ms,
            rate_limits_seen: 0,
            timeouts_seen: 0,
        }
    }

    /// Decides on a failed request. A retryable error uses up one
    /// rate-limit retry and waits the provider's hint, else the exponential
    /// backoff; a timeout that is not retryable uses up one timeout retry
    /// and waits the exponential backoff; anything else, or an exhausted
    /// budget, gives up.
    pub fn on_error(&mut self, policy: &CustomRetryPolicy, error: &ClientError) -> (r:
        RetryDecision)
        ensures
            (r, *final(self)) == retry_step(*old(self), *error),
            final(self).rate_limit_retries == old(self).rate_limit_retries,
            final(self).timeout_retries == old(self).timeout_retries,
            final(self).initial_backoff_ms == old(self).initial_backoff_ms,
            should_retry_spec(*error) ==> {
                if old(self).rate_limits_seen < old(self).rate_limit_retries {
                    &&& final(self).rate_limits_seen == old(self).rate_limits_seen + 1
                    &&& final(self).timeouts_seen == old(self).timeouts_seen
                    &&& r == RetryDecision::Retry(
                        match backoff_hint_spec(*error) {
                            Some(s) => saturate(s * 1000),
                            None => exp_backoff_ms(
                                old(self).initial_backoff_ms,
                                old(self).rate_limits_seen as nat,
                            ),
                        },
                    )
                } else {
                    r == RetryDecision::GiveUp && *final(self) == *old(self)
                }
            },
            !should_retry_spec(*error) && is_timeout_spec(*error) ==> {
                if old(self).timeouts_seen < old(self).timeout_retries {
                    &&& final(self).timeouts_seen == old(self).timeouts_seen + 1
                    &&& final(self).rate_limits_seen == old(self).rate_limits_seen
                    &&& r == RetryDecision::Retry(
                        exp_backoff_ms(old(self).initial_backoff_ms, old(self).timeouts_seen as nat),
                    )
                } else {
                    r == RetryDecision::GiveUp && *final(self) == *old(self)
                }
            },
            !should_retry_spec(*error) && !is_timeout_spec(*error) ==> r == RetryDecision::GiveUp
                && *final(self) == *old(self),
    {
        if policy.should_retry(error) {
            if self.rate_limits_seen < self.rate_limit_retries {
                let delay = match policy.backoff_hint(error) {
                    Some(s) => {
                        if s > u64::MAX / 1000 {
                            u64::MAX
                        } else {
                            s * 1000
                        }
                    },
                    None => exp_backoff(self.initial_backoff_ms, self.rate_limits_seen),
                };
                self.rate_limits_seen = self.rate_limits_seen + 1;
                RetryDecision::Retry(delay)
            } else {
                RetryDecision::GiveUp
            }
        } else {
            let timed_out = match error {
                ClientError::Transport { timed_out, .. } => *timed_out,
                _ => false,
            };
            if timed_out && self.timeouts_seen < self.timeout_retries {
                let delay = exp_backoff(self.initial_backoff_ms, self.timeouts_seen);
                self.timeouts_seen = self.timeouts_seen + 1;
                RetryDecision::Retry(delay)
            } else {
                RetryDecision::GiveUp
            }
        }
    }
}

} // verus!
