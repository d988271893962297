use vstd::prelude::*;

verus! {

/// How many times one transport operation is attempted at most.
pub const MAX_ATTEMPTS: u32 = 10;

/// The unit of the quadratic backoff, in milliseconds.
pub const BACKOFF_UNIT_MS: u64 = 75;

/// Why a call to the ledger service failed.
#[derive(Clone, Copy, Debug, PartialEq, Eq, Structural)]
pub enum TransportFailure {
    /// Credentials were missing, expired or refused.
    Credentials,
    /// The service answered without a session.
    EmptyResponse,
    /// The service answered with a session that holds no token.
    MissingToken,
    /// Any other failure of the service or of the network.
    Service,
}

#[derive(Clone, Copy, Debug, PartialEq, Eq, Structural)]
pub enum ErrorClass {
    Recoverable,
    Unrecoverable,
}

/// What to do after a failed attempt.
#[derive(Clone, Copy, Debug, PartialEq, Eq, Structural)]
pub enum RetryStep {
    /// Attempt again after this many milliseconds.
    RetryAfter(u64),
    /// Stop: the failure is final.
    GiveUp,
}

/// Credential failures cannot be cured by waiting; everything else may be.
pub open spec fn class_of(f: TransportFailure) -> ErrorClass {
    match f {
        TransportFailure::Credentials => ErrorClass::Unrecoverable,
        _ => ErrorClass::Recoverable,
    }
}

/// The pause between attempt `n` and attempt `n + 1`.
pub open spec fn backoff_ms(n: nat) -> nat {
    (n * n * BACKOFF_UNIT_MS) as nat
}

/// The step after attempt number `attempt` failed with an error of `class`.
pub open spec fn step_after(attempt: nat, class: ErrorClass) -> RetryStep {
    if class == ErrorClass::Unrecoverable || attempt >= MAX_ATTEMPTS {
        RetryStep::GiveUp
    } else {
        RetryStep::RetryAfter(backoff_ms(attempt) as u64)
    }
}

pub fn classify(failure: TransportFailure) -> (r: ErrorClass)
    ensures
        r == class_of(failure),
{
    match failure {
        TransportFailure::Credentials => ErrorClass::Unrecoverable,
        _ => ErrorClass::Recoverable,
    }
}

/// Decides what follows the failure of attempt number `attempt` (counted
/// from one): an unrecoverable error or a spent budget ends the operation at
/// once, otherwise the next attempt waits `attempt² × 75` milliseconds.
pub fn after_failure(attempt: u32, class: ErrorClass) -> (r: RetryStep)
    requires
        attempt >= 1,
    ensures
        r == step_after(attempt as nat, class),
        class == ErrorClass::Unrecoverable ==> r == RetryStep::GiveUp,
        attempt < MAX_ATTEMPTS && class == ErrorClass::Recoverable ==> r == RetryStep::RetryAfter(
            (attempt * attempt * BACKOFF_UNIT_MS) as u64,
        ),
{
    if class == ErrorClass::Unrecoverable || attempt >= MAX_ATTEMPTS {
        return RetryStep::GiveUp;
    }
    let n = attempt as u64;
    assert(n * n <= 81) by (nonlinear_arith)
        requires
            n <= 9,
    ;
    RetryStep::RetryAfter(n * n * BACKOFF_UNIT_MS)
}

/// The token of a session-start answer, where `start` holds the answer's
/// session part and that part's token.
pub fn start_token(start: Option<Option<String>>) -> (r: Result<String, TransportFailure>)
    ensures
        start is None ==> r == Err::<String, TransportFailure>(TransportFailure::EmptyResponse),
        start == Some(None::<String>) ==> r == Err::<String, TransportFailure>(
            TransportFailure::MissingToken,
        ),
        start matches Some(Some(t)) ==> r == Ok::<String, TransportFailure>(t),
{
    match start {
        None => Err(TransportFailure::EmptyResponse),
        Some(None) => Err(TransportFailure::MissingToken),
        Some(Some(token)) => Ok(token),
    }
}

/// Every failed attempt is followed by another one, or by giving up, and an
/// operation is never attempted more than the budget allows; only
/// recoverable failures earn a retry, and its pause grows with the square of
/// the attempt number.
pub proof fn retry_schedule(attempt: nat, class: ErrorClass)
    requires
        attempt >= 1,
    ensures
        step_after(attempt, class) is RetryAfter ==> {
            &&& class == ErrorClass::Recoverable
            &&& attempt + 1 <= MAX_ATTEMPTS
            &&& step_after(attempt, class)->RetryAfter_0 == attempt * attempt * 75
        },
        class == ErrorClass::Unrecoverable ==> step_after(attempt, class) == RetryStep::GiveUp,
{
    if attempt < MAX_ATTEMPTS {
        assert(attempt * attempt <= 81) by (nonlinear_arith)
            requires
                attempt <= 9,
        ;
    }
}

} // verus!
