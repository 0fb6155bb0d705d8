//! How long to wait between one failed accept of a mediated query and the next try.

use vstd::arithmetic::power2::{lemma2_to64, lemma_pow2_strictly_increases, lemma_pow2_unfold, pow2};
use vstd::prelude::*;

verus! {

/// The wait after the first failure, in milliseconds.
pub const MEDIATION_RETRY_DELAY_MILLIS: u64 = 100;

/// The longest wait, in milliseconds.
pub const MEDIATION_MAX_RETRY_DELAY_MILLIS: u64 = 5000;

/// What to do about an accept that has ended.
#[derive(Debug, PartialEq, Eq)]
pub enum AcceptStep<Q> {
    /// Hand the query on.
    Deliver(Q),
    /// Wait as many milliseconds, then accept again.
    RetryAfter(u64),
}

/// The wait that follows one of `delay` milliseconds: twice as long, up to the longest.
pub open spec fn next_delay(delay: nat) -> nat {
    if delay * 2 <= MEDIATION_MAX_RETRY_DELAY_MILLIS {
        delay * 2
    } else {
        MEDIATION_MAX_RETRY_DELAY_MILLIS as nat
    }
}

/// The wait that as many failures in a row lead up to, from the first wait on.
pub open spec fn delay_after(failures: nat) -> nat
    decreases failures,
{
    if failures == 0 {
        MEDIATION_RETRY_DELAY_MILLIS as nat
    } else {
        next_delay(delay_after((failures - 1) as nat))
    }
}

/// The wait after as many failures and one more.
pub open spec fn retry_delay(failures: nat) -> nat {
    let doubled = MEDIATION_RETRY_DELAY_MILLIS * pow2(failures);
    if doubled <= MEDIATION_MAX_RETRY_DELAY_MILLIS {
        doubled as nat
    } else {
        MEDIATION_MAX_RETRY_DELAY_MILLIS as nat
    }
}

/// How long as many failures in a row are waited out together.
pub open spec fn total_delay(failures: nat) -> nat
    decreases failures,
{
    if failures == 0 {
        0
    } else {
        total_delay((failures - 1) as nat) + retry_delay((failures - 1) as nat)
    }
}

/// One query's accept, tried until it succeeds.
#[derive(Debug)]
pub struct AcceptBackoff {
    delay_millis: u64,
}

impl View for AcceptBackoff {
    type V = nat;

    /// The wait after the next failure, in milliseconds.
    closed spec fn view(&self) -> nat {
        self.delay_millis as nat
    }
}

impl AcceptBackoff {
    #[verifier::type_invariant]
    spec fn bounded(self) -> bool {
        self.delay_millis <= MEDIATION_MAX_RETRY_DELAY_MILLIS
    }

    /// An accept that has not failed yet.
    pub fn new() -> (backoff: Self)
        ensures
            backoff@ == retry_delay(0),
    {
        proof {
            lemma2_to64();
        }
        AcceptBackoff { delay_millis: MEDIATION_RETRY_DELAY_MILLIS }
    }

    /// What to do about an accept that has ended with `outcome`: a query, or none where it failed.
    pub fn step<Q>(&mut self, outcome: Option<Q>) -> (step: AcceptStep<Q>)
        ensures
            match outcome {
                Some(query) => step == AcceptStep::Deliver(query) && final(self)@ == old(self)@,
                None => {
                    &&& step matches AcceptStep::RetryAfter(millis) && millis == old(self)@
                    &&& final(self)@ == next_delay(old(self)@)
                },
            },
    {
        proof {
            use_type_invariant(&*self);
        }
        match outcome {
            Some(query) => AcceptStep::Deliver(query),
            None => {
                let delay: u64 = self.delay_millis;
                let doubled: u64 = delay * 2;
                self.delay_millis = if doubled <= MEDIATION_MAX_RETRY_DELAY_MILLIS {
                    doubled
                } else {
                    MEDIATION_MAX_RETRY_DELAY_MILLIS
                };
                AcceptStep::RetryAfter(delay)
            },
        }
    }
}

/// Each failure makes the wait twice as long until it is the longest: what the steps come to after
/// any number of failures is the first wait times a power of two, or the longest.
pub proof fn law_waits_double(failures: nat)
    ensures
        delay_after(failures) == retry_delay(failures),
        next_delay(retry_delay(failures)) == retry_delay(failures + 1),
    decreases failures,
{
    lemma2_to64();
    lemma_pow2_unfold(failures + 1);
    if failures > 0 {
        law_waits_double((failures - 1) as nat);
    }
}

/// No wait is shorter than one before it, or longer than the longest.
pub proof fn law_waits_grow_to_the_longest(earlier: nat, later: nat)
    requires
        earlier <= later,
    ensures
        MEDIATION_RETRY_DELAY_MILLIS <= retry_delay(earlier) <= retry_delay(later)
            <= MEDIATION_MAX_RETRY_DELAY_MILLIS,
        6 <= later ==> retry_delay(later) == MEDIATION_MAX_RETRY_DELAY_MILLIS,
{
    lemma2_to64();
    if earlier < later {
        lemma_pow2_strictly_increases(earlier, later);
    }
    if 0 < earlier {
        lemma_pow2_strictly_increases(0, earlier);
    }
    if 6 < later {
        lemma_pow2_strictly_increases(6, later);
    }
}

/// While the waits still double, the failures so far are waited out together for the first wait
/// times one less than the power of two that they come to.
pub proof fn law_total_wait(failures: nat)
    requires
        failures <= 6,
    ensures
        total_delay(failures) == MEDIATION_RETRY_DELAY_MILLIS * (pow2(failures) - 1),
    decreases failures,
{
    lemma2_to64();
    if failures > 0 {
        law_total_wait((failures - 1) as nat);
    }
}

/// Once the waits are the longest, each failure adds one of those.
pub proof fn law_total_wait_at_the_longest(failures: nat)
    requires
        6 <= failures,
    ensures
        total_delay(failures) == 6300 + MEDIATION_MAX_RETRY_DELAY_MILLIS * (failures - 6),
    decreases failures,
{
    if failures == 6 {
        lemma2_to64();
        law_total_wait(6);
    } else {
        let earlier = (failures - 1) as nat;
        law_total_wait_at_the_longest(earlier);
        law_waits_grow_to_the_longest(earlier, earlier);
    }
}

/// The first wait is a tenth of a second. Each one after it is twice the one before, unless that
/// is more than five seconds: then it is five seconds.
pub proof fn law_next_wait(failures: nat)
    ensures
        retry_delay(0) == 100,
        retry_delay(failures) <= 2500 ==> retry_delay(failures + 1) == 2 * retry_delay(failures),
        retry_delay(failures) > 2500 ==> retry_delay(failures + 1) == 5000,
        next_delay(retry_delay(failures)) == retry_delay(failures + 1),
{
    lemma2_to64();
    law_waits_double(failures);
}

/// A wait is followed by one of twice the length, or by the longest where that is shorter.
pub proof fn law_waits_follow_each_other(delay: nat)
    ensures
        delay <= 2500 ==> next_delay(delay) == delay + delay,
        delay >= 2500 ==> next_delay(delay) == 5000,
{
}

/// A step hands every query on and keeps the wait; a failure is waited out for the wait at hand,
/// which is then twice as long, up to five seconds.
pub proof fn law_accept_step<Q>(
    backoff: &mut AcceptBackoff,
    outcome: Option<Q>,
    step: AcceptStep<Q>,
)
    requires
        call_ensures(AcceptBackoff::step::<Q>, (backoff, outcome), step),
    ensures
        outcome is Some ==> step == AcceptStep::Deliver(outcome->0) && final(backoff)@
            == old(backoff)@,
        outcome is None ==> {
            &&& step is RetryAfter
            &&& step->RetryAfter_0 == old(backoff)@
            &&& old(backoff)@ <= 2500 ==> final(backoff)@ == old(backoff)@ * 2
            &&& old(backoff)@ >= 2500 ==> final(backoff)@ == 5000
        },
{
}

/// The first failure is waited out for a tenth of a second.
pub proof fn law_first_wait(backoff: AcceptBackoff)
    requires
        call_ensures(AcceptBackoff::new, (), backoff),
    ensures
        backoff@ == 100,
{
    lemma2_to64();
}

}
