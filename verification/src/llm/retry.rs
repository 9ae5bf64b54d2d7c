//! When a failed call to the language model is made again, and after how long.

use vstd::prelude::*;

use crate::llm::{Delay, LlmError, LlmErrorView};
use crate::text::{
    chars_of, decimal, lemma_run_is, lemma_tail_run_is, trim, trimmed, Class,
};

verus! {

/// How often and how patiently to try.
#[derive(Debug, Clone, Copy, PartialEq, Eq, Structural)]
pub struct RetryLimits {
    /// How many calls there are at most.
    pub max_attempts: usize,
    /// The longest wait that the backoff comes to.
    pub max_backoff: Delay,
}

impl Default for RetryLimits {
    /// What suits a server on the same machine.
    fn default() -> (l: Self)
        ensures
            l.max_attempts == 3,
            l.max_backoff == (Delay { secs: 5, nanos: 0 }),
    {
        RetryLimits { max_attempts: 3, max_backoff: Delay { secs: 5, nanos: 0 } }
    }
}

/// What to do after a call.
#[derive(Debug)]
pub enum RetryStep<T> {
    /// Wait, and call again.
    Wait(Delay),
    /// Return this.
    Done(Result<T, LlmError>),
}

// ---------- the model ----------

impl Delay {
    /// Whether this is no longer than another length of time.
    pub open spec fn at_most(self, other: Delay) -> bool {
        self.secs < other.secs || (self.secs == other.secs && self.nanos <= other.nanos)
    }

    /// The shorter of two lengths of time.
    pub open spec fn shorter(self, other: Delay) -> Delay {
        if self.at_most(other) {
            self
        } else {
            other
        }
    }
}

/// A result of a call, as far as retrying goes.
pub open spec fn call_view<T>(r: Result<T, LlmError>) -> Result<T, LlmErrorView> {
    match r {
        Ok(v) => Ok(v),
        Err(e) => Err(e@),
    }
}

/// Whether a call failed in a way that trying again can help with.
pub open spec fn transient<T>(r: Result<T, LlmErrorView>) -> bool {
    r matches Err(LlmErrorView::Transient { reason: _, retry_after: _ })
}

/// Whether the call of this number, counted from 0, is the last.
pub open spec fn settles<T>(r: Result<T, LlmErrorView>, attempt: nat, max_attempts: nat) -> bool {
    !transient(r) || attempt + 1 >= max_attempts
}

/// How long to wait after a failure: as long as the server asks for, however
/// long that is, or else for the backoff within its limit.
pub open spec fn wait_after(
    retry_after: Option<Delay>,
    backoff: Delay,
    max_backoff: Delay,
) -> Delay {
    match retry_after {
        Some(d) => d,
        None => backoff.shorter(max_backoff),
    }
}

/// Whether a text is a number in decimal digits.
pub open spec fn is_number(s: Seq<char>) -> bool {
    s.len() > 0 && forall|i: int| 0 <= i < s.len() ==> '0' <= #[trigger] s[i] <= '9'
}

/// The number that decimal digits make up.
pub open spec fn number(s: Seq<char>) -> nat
    decreases s.len(),
{
    if s.len() == 0 {
        0
    } else {
        (number(s.drop_last()) * 10 + (s.last() as int - '0' as int)) as nat
    }
}

/// The wait that the value of a `Retry-After` header asks for, in whole seconds.
/// A date, the header's other form, asks for none, and neither does a number
/// that is out of range.
pub open spec fn requested_wait(header: Seq<char>) -> Option<Delay> {
    let s = trim(header);
    if is_number(s) && number(s) <= u64::MAX {
        Some(Delay { secs: number(s) as u64, nanos: 0 })
    } else {
        None
    }
}

/// The call that the result comes from, of calls with these results.
pub open spec fn settling_call<T>(
    results: spec_fn(nat) -> Result<T, LlmErrorView>,
    attempt: nat,
    max_attempts: nat,
) -> nat
    decreases max_attempts - attempt,
{
    if settles(results(attempt), attempt, max_attempts) {
        attempt
    } else {
        settling_call(results, attempt + 1, max_attempts)
    }
}

// ---------- the code ----------

/// The shorter of two lengths of time.
pub fn shorter_delay(a: Delay, b: Delay) -> (d: Delay)
    ensures
        d == a.shorter(b),
{
    if a.secs < b.secs || (a.secs == b.secs && a.nanos <= b.nanos) {
        a
    } else {
        b
    }
}

proof fn lemma_number_grows(s: Seq<char>, n: int)
    requires
        0 <= n <= s.len(),
        forall|i: int| 0 <= i < s.len() ==> '0' <= #[trigger] s[i] <= '9',
    ensures
        number(s.take(n)) <= number(s),
    decreases s.len() - n,
{
    if n < s.len() {
        assert(s.take(n + 1).drop_last() =~= s.take(n));
        assert('0' <= s[n] <= '9');
        lemma_number_grows(s, n + 1);
    } else {
        assert(s.take(n) =~= s);
    }
}

/// The wait that the value of a `Retry-After` header asks for.
pub fn wait_in_header(header: &str) -> (r: Option<Delay>)
    ensures
        r == requested_wait(header@),
{
    let chars = chars_of(header);
    let s = trimmed(&chars);
    let n = s.len();
    if n == 0 {
        return None;
    }
    let mut i: usize = 0;
    while i < n
        invariant
            n == s@.len(),
            i <= n,
            forall|j: int| 0 <= j < i ==> '0' <= #[trigger] s@[j] <= '9',
            s@ == trim(header@),
        decreases n - i,
    {
        if s[i] < '0' || s[i] > '9' {
            assert(!('0' <= s@[i as int] <= '9'));
            return None;
        }
        i = i + 1;
    }
    let mut secs: u64 = 0;
    i = 0;
    assert(s@.take(0) =~= seq![]);
    while i < n
        invariant
            n == s@.len(),
            n > 0,
            i <= n,
            is_number(s@),
            secs == number(s@.take(i as int)),
            s@ == trim(header@),
        decreases n - i,
    {
        assert('0' <= s@[i as int] <= '9');
        let digit: u64 = (s[i] as u32 - 48) as u64;
        assert(s@.take(i + 1).drop_last() =~= s@.take(i as int));
        assert(number(s@.take(i + 1)) == secs * 10 + digit);
        if secs > (u64::MAX - digit) / 10 {
            proof {
                lemma_number_grows(s@, i + 1);
            }
            return None;
        }
        secs = secs * 10 + digit;
        i = i + 1;
    }
    assert(s@.take(n as int) =~= s@);
    Some(Delay { secs, nanos: 0 })
}

/// What is returned without any call: nothing, unless no call is allowed.
pub fn before_first_call(limits: &RetryLimits) -> (r: Option<LlmError>)
    ensures
        match r {
            Some(e) => limits.max_attempts == 0 && e@ == (LlmErrorView::Config {
                reason: "no attempts made"@,
            }),
            None => limits.max_attempts > 0,
        },
{
    if limits.max_attempts == 0 {
        Some(LlmError::Config { reason: "no attempts made".to_string() })
    } else {
        None
    }
}

/// What to do after the call of this number, counted from 0. `backoff` is how
/// long the policy would wait before the next.
pub fn after_call<T>(
    limits: &RetryLimits,
    attempt: usize,
    result: Result<T, LlmError>,
    backoff: Delay,
) -> (step: RetryStep<T>)
    requires
        attempt < limits.max_attempts,
    ensures
        match step {
            RetryStep::Done(r) => call_view(r) == call_view(result) && settles(
                call_view(result),
                attempt as nat,
                limits.max_attempts as nat,
            ),
            RetryStep::Wait(d) => !settles(
                call_view(result),
                attempt as nat,
                limits.max_attempts as nat,
            ) && match call_view(result) {
                Err(LlmErrorView::Transient { reason: _, retry_after }) => d == wait_after(
                    retry_after,
                    backoff,
                    limits.max_backoff,
                ),
                _ => false,
            },
        },
{
    match result {
        Err(LlmError::Transient { reason, retry_after }) => {
            if attempt == limits.max_attempts - 1 {
                RetryStep::Done(Err(LlmError::Transient { reason, retry_after }))
            } else {
                match retry_after {
                    Some(d) => RetryStep::Wait(d),
                    None => RetryStep::Wait(shorter_delay(backoff, limits.max_backoff)),
                }
            }
        },
        other => RetryStep::Done(other),
    }
}

// ---------- laws ----------

/// However the calls turn out, there are at most as many as allowed; every
/// call but the last fails in a way that trying again can help with; and the
/// result is that of the last call: the first that settles the matter.
pub proof fn law_retrying_ends<T>(
    results: spec_fn(nat) -> Result<T, LlmErrorView>,
    attempt: nat,
    max_attempts: nat,
)
    requires
        attempt < max_attempts,
    ensures
        ({
            let last = settling_call(results, attempt, max_attempts);
            &&& attempt <= last < max_attempts
            &&& settles(results(last), last, max_attempts)
            &&& forall|i: nat| attempt <= i < last ==> transient(#[trigger] results(i))
        }),
    decreases max_attempts - attempt,
{
    if !settles(results(attempt), attempt, max_attempts) {
        law_retrying_ends(results, attempt + 1, max_attempts);
    }
}

/// Where every call fails in a way that trying again can help with, all that
/// are allowed are made.
pub proof fn law_transient_failures_use_all_attempts<T>(
    results: spec_fn(nat) -> Result<T, LlmErrorView>,
    attempt: nat,
    max_attempts: nat,
)
    requires
        attempt < max_attempts,
        forall|i: nat| attempt <= i < max_attempts ==> transient(#[trigger] results(i)),
    ensures
        settling_call(results, attempt, max_attempts) == max_attempts - 1,
    decreases max_attempts - attempt,
{
    assert(transient(results(attempt)));
    if attempt + 1 < max_attempts {
        law_transient_failures_use_all_attempts(results, attempt + 1, max_attempts);
    }
}

/// A wait without a request of the server's is never longer than the limit.
pub proof fn law_backoff_is_capped(backoff: Delay, max_backoff: Delay)
    ensures
        wait_after(None, backoff, max_backoff).at_most(max_backoff),
{
}

proof fn lemma_decimal(n: nat)
    ensures
        is_number(decimal(n)),
        number(decimal(n)) == n,
    decreases n,
{
    let d = decimal(n);
    if n < 10 {
        assert(d.drop_last() =~= seq![]);
        assert(number(d.drop_last()) == 0);
    } else {
        lemma_decimal(n / 10);
        assert(d.drop_last() =~= decimal(n / 10));
        assert forall|i: int| 0 <= i < d.len() implies '0' <= #[trigger] d[i] <= '9' by {
            if i < d.len() - 1 {
                assert(d[i] == decimal(n / 10)[i]);
            }
        }
    }
}

/// A number of seconds in a `Retry-After` header is waited for exactly, however
/// patient the policy is.
pub proof fn law_requested_seconds_are_waited_for(secs: u64, backoff: Delay, max_backoff: Delay)
    ensures
        wait_after(requested_wait(decimal(secs as nat)), backoff, max_backoff) == (Delay {
            secs,
            nanos: 0,
        }),
{
    let d = decimal(secs as nat);
    lemma_decimal(secs as nat);
    assert('0' <= d[0] <= '9');
    assert('0' <= d[d.len() - 1] <= '9');
    lemma_run_is(d, Class::White, 0);
    assert(d.skip(0) =~= d);
    lemma_tail_run_is(d, Class::White, 0);
    assert(d.take(d.len() as int) =~= d);
}

/// A call settles the matter unless it failed in a way that trying again can help
/// with and another is allowed.
pub proof fn law_what_settles<T>(
    value: T,
    reason: Seq<char>,
    wait: Option<Delay>,
    attempt: nat,
    max_attempts: nat,
)
    ensures
        settles(Ok::<T, LlmErrorView>(value), attempt, max_attempts),
        settles(Err::<T, LlmErrorView>(LlmErrorView::BadInput { reason }), attempt, max_attempts),
        settles(Err::<T, LlmErrorView>(LlmErrorView::Config { reason }), attempt, max_attempts),
        settles(
            Err::<T, LlmErrorView>(LlmErrorView::Transient { reason, retry_after: wait }),
            attempt,
            max_attempts,
        ) <==> attempt + 1 >= max_attempts,
{
}

/// Without a request of the server's, the wait is the shorter of the backoff and
/// its limit; with one, it is just what was requested.
pub proof fn law_waits_are_the_shorter(requested: Delay, backoff: Delay, max_backoff: Delay)
    ensures
        ({
            let w = wait_after(None, backoff, max_backoff);
            &&& w == backoff || w == max_backoff
            &&& w.at_most(backoff) && w.at_most(max_backoff)
        }),
        wait_after(Some(requested), backoff, max_backoff) == requested,
{
}

/// Lengths of time are in one order: the seconds decide, and within one the
/// nanoseconds.
pub proof fn law_delays_are_ordered(a: Delay, b: Delay)
    ensures
        a.secs < b.secs ==> a.at_most(b) && !b.at_most(a),
        a.secs == b.secs ==> (a.at_most(b) <==> a.nanos <= b.nanos),
{
}

/// A header asks for a wait only if it is a number that is in range, but for white
/// space around it, and the wait is that number of seconds.
pub proof fn law_only_numbers_are_waited_for(header: Seq<char>)
    ensures
        match requested_wait(header) {
            Some(d) => is_number(trim(header)) && d.secs == number(trim(header)) && d.nanos == 0,
            None => is_number(trim(header)) ==> number(trim(header)) > u64::MAX,
        },
{
}

/// After a call that settles the matter its result is returned; after any other the
/// wait is what the server asked for, or the backoff within its limit.
pub proof fn law_after_a_call<T>(
    limits: &RetryLimits,
    attempt: usize,
    result: Result<T, LlmError>,
    backoff: Delay,
    step: RetryStep<T>,
)
    requires
        attempt < limits.max_attempts,
        call_ensures(after_call::<T>, (limits, attempt, result, backoff), step),
    ensures
        (result matches Err(LlmError::Transient { reason, retry_after }) && attempt + 1
            < limits.max_attempts) ==> (step matches RetryStep::Wait(d) && d == wait_after(
            result->Err_0->retry_after,
            backoff,
            limits.max_backoff,
        )),
        !(result matches Err(LlmError::Transient { reason, retry_after }) && attempt + 1
            < limits.max_attempts) ==> (step matches RetryStep::Done(r) && call_view(r)
            == call_view(result)),
{
}

/// Without any call allowed none is made; otherwise nothing stands in the way.
pub proof fn law_before_any_call(limits: &RetryLimits, r: Option<LlmError>)
    requires
        call_ensures(before_first_call, (limits,), r),
    ensures
        r is Some <==> limits.max_attempts == 0,
        r matches Some(e) ==> e@ == (LlmErrorView::Config { reason: "no attempts made"@ }),
{
}

} // verus!
