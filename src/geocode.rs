//! When to retry a geocoding request, and how long to wait first.
//!
//! The request itself goes over the network and is made by the caller; each
//! answer is handed to `GeocodeAttempts::on_reply`, which says what to do
//! next: take the location, ask again at once with the consent parameter, ask
//! again after a pause, or give up.
use vstd::prelude::*;
use crate::record::{Location, LocationModel};

verus! {

/// Retries after the first attempt, not counting the one with the consent
/// parameter.
pub const MAX_RETRIES: u32 = 3;

/// Pause before the first retry; each later pause is half as long again.
pub const BASE_DELAY_MS: u64 = 2000;

/// Status of a successful answer.
pub const SUCCESS_STATUS: i32 = 0;

/// Status by which the provider asks for the consent parameter.
pub const POLICY_STATUS: i32 = 348;

/// `b` to the power `e`.
pub open spec fn power(b: nat, e: nat) -> nat
    decreases e,
{
    if e == 0 {
        1
    } else {
        b * power(b, (e - 1) as nat)
    }
}

/// The pause before retry number `attempt + 1`: `BASE_DELAY_MS * 1.5^attempt`,
/// in whole milliseconds.
pub open spec fn backoff_ms(attempt: nat) -> nat {
    ((BASE_DELAY_MS as nat * power(3, attempt)) as int / power(2, attempt) as int) as nat
}

/// One answer of the provider.
#[derive(Debug, Clone)]
pub struct GeocodeReply {
    pub status: i32,
    pub message: String,
    pub location: Option<Location>,
}

/// Why an address could not be resolved: the status and message of the
/// provider's last answer.
#[derive(Debug, Clone, PartialEq, Eq)]
pub struct GeocodeError {
    pub status: i32,
    pub message: String,
}

/// What to do after an answer.
#[derive(Debug)]
pub enum GeocodeStep {
    /// The address is resolved.
    Resolved(Location),
    /// Ask again at once, now with the consent parameter.
    RetryNow,
    /// Ask again after this many milliseconds.
    RetryAfter(u64),
    /// Give up.
    Failed(GeocodeError),
}

/// What a `GeocodeStep` says.
pub enum StepModel {
    Resolved(LocationModel),
    RetryNow,
    RetryAfter(nat),
    Failed(i32, Seq<char>),
}

pub open spec fn step_model(s: GeocodeStep) -> StepModel {
    match s {
        GeocodeStep::Resolved(l) => StepModel::Resolved(l@),
        GeocodeStep::RetryNow => StepModel::RetryNow,
        GeocodeStep::RetryAfter(ms) => StepModel::RetryAfter(ms as nat),
        GeocodeStep::Failed(e) => StepModel::Failed(e.status, e.message@),
    }
}

/// The progress of the attempts to resolve one address.
#[derive(Debug, Clone, Copy, PartialEq, Eq, Structural)]
pub struct GeocodeAttempts {
    /// Retries with a pause made so far.
    pub attempt: u32,
    /// Whether requests carry the consent parameter.
    pub use_policy: bool,
}

/// The state after an answer.
pub open spec fn next_attempts(s: GeocodeAttempts, status: i32) -> GeocodeAttempts {
    if status == SUCCESS_STATUS {
        s
    } else if status == POLICY_STATUS && !s.use_policy {
        GeocodeAttempts { attempt: s.attempt, use_policy: true }
    } else if s.attempt < MAX_RETRIES {
        GeocodeAttempts { attempt: (s.attempt + 1) as u32, use_policy: s.use_policy }
    } else {
        s
    }
}

/// What to do after an answer. A success with a location resolves the
/// address; a success without one fails at once. The consent status, the
/// first time, asks for an immediate retry that uses up no attempt. Any other
/// status is retried after `backoff_ms(attempt)` while retries are left, and
/// fails with the provider's message once they are spent.
pub open spec fn next_step(
    s: GeocodeAttempts,
    status: i32,
    message: Seq<char>,
    location: Option<LocationModel>,
) -> StepModel {
    if status == SUCCESS_STATUS {
        match location {
            Some(l) => StepModel::Resolved(l),
            None => StepModel::Failed(status, message),
        }
    } else if status == POLICY_STATUS && !s.use_policy {
        StepModel::RetryNow
    } else if s.attempt < MAX_RETRIES {
        StepModel::RetryAfter(backoff_ms(s.attempt as nat))
    } else {
        StepModel::Failed(status, message)
    }
}

proof fn lemma_power_monotone(b: nat, e1: nat, e2: nat)
    requires
        b >= 1,
        e1 <= e2,
    ensures
        power(b, e1) <= power(b, e2),
    decreases e2,
{
    if e1 < e2 {
        lemma_power_monotone(b, e1, (e2 - 1) as nat);
        assert(power(b, e2) == b * power(b, (e2 - 1) as nat));
        assert(b * power(b, (e2 - 1) as nat) >= power(b, (e2 - 1) as nat)) by (nonlinear_arith)
            requires
                b >= 1,
        ;
    }
}

/// The pause before the retry that follows attempt `attempt`.
pub fn backoff_delay_ms(attempt: u32) -> (r: u64)
    requires
        attempt < MAX_RETRIES,
    ensures
        r == backoff_ms(attempt as nat),
{
    proof {
        lemma_power_monotone(3, attempt as nat, 2);
        assert(power(3, 2) == 9) by {
            assert(power(3, 1) == 3 * power(3, 0));
        }
    }
    let mut num: u64 = BASE_DELAY_MS;
    let mut den: u64 = 1;
    let mut i: u32 = 0;
    while i < attempt
        invariant
            i <= attempt < MAX_RETRIES,
            power(3, attempt as nat) <= 9,
            num == BASE_DELAY_MS * power(3, i as nat),
            den == power(2, i as nat),
            1 <= den <= 4,
            i <= 2,
        decreases attempt - i,
    {
        proof {
            lemma_power_monotone(3, (i + 1) as nat, attempt as nat);
            assert(power(3, (i + 1) as nat) == 3 * power(3, i as nat));
            assert(power(2, (i + 1) as nat) == 2 * power(2, i as nat));
            if i == 1 {
                assert(power(2, 1) == 2 * power(2, 0));
            }
        }
        num = num * 3;
        den = den * 2;
        i = i + 1;
    }
    num / den
}

impl GeocodeAttempts {
    /// No attempt made yet, without the consent parameter.
    pub fn new() -> (r: GeocodeAttempts)
        ensures
            r.attempt == 0,
            !r.use_policy,
    {
        GeocodeAttempts { attempt: 0, use_policy: false }
    }

    /// Takes the provider's answer to the latest request and says what to do
    /// next.
    pub fn on_reply(&mut self, reply: GeocodeReply) -> (r: GeocodeStep)
        requires
            old(self).attempt <= MAX_RETRIES,
        ensures
            *final(self) == next_attempts(*old(self), reply.status),
            final(self).attempt <= MAX_RETRIES,
            step_model(r) == next_step(
                *old(self),
                reply.status,
                reply.message@,
                match reply.location {
                    Some(l) => Some(l@),
                    None => None,
                },
            ),
    {
        if reply.status == SUCCESS_STATUS {
            match reply.location {
                Some(l) => GeocodeStep::Resolved(l),
                None => GeocodeStep::Failed(GeocodeError { status: reply.status, message: reply.message }),
            }
        } else if reply.status == POLICY_STATUS && !self.use_policy {
            self.use_policy = true;
            GeocodeStep::RetryNow
        } else if self.attempt < MAX_RETRIES {
            let delay = backoff_delay_ms(self.attempt);
            self.attempt = self.attempt + 1;
            GeocodeStep::RetryAfter(delay)
        } else {
            GeocodeStep::Failed(GeocodeError { status: reply.status, message: reply.message })
        }
    }

    /// The query parameters of the next request: the address and the key, and
    /// the consent parameter once the provider asked for it.
    pub fn query(&self, address: &str, key: &str) -> (r: Vec<(String, String)>)
        ensures
            r.deep_view() == if self.use_policy {
                seq![("address"@, address@), ("key"@, key@), ("policy"@, "1"@)]
            } else {
                seq![("address"@, address@), ("key"@, key@)]
            },
    {
        let mut r: Vec<(String, String)> = Vec::new();
        r.push((String::from_str("address"), String::from_str(address)));
        r.push((String::from_str("key"), String::from_str(key)));
        if self.use_policy {
            r.push((String::from_str("policy"), String::from_str("1")));
        }
        assert(r.deep_view() =~= if self.use_policy {
            seq![("address"@, address@), ("key"@, key@), ("policy"@, "1"@)]
        } else {
            seq![("address"@, address@), ("key"@, key@)]
        });
        r
    }
}

} // verus!
