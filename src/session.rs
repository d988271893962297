use vstd::prelude::*;

verus! {

/// How long a session stays usable after it was created, in milliseconds.
pub const SESSION_LIFETIME_MS: u64 = 600_000;

/// A session created at `created_ms` is still usable at `now_ms` when less
/// than the lifetime has elapsed. A clock reading earlier than the creation
/// time counts as no time elapsed.
pub open spec fn session_valid_at(created_ms: nat, now_ms: nat) -> bool {
    now_ms < created_ms + SESSION_LIFETIME_MS
}

/// An established session: the token that the ledger service handed out and
/// the monotonic time, in milliseconds, at which it was created.
#[derive(Debug)]
pub struct Session {
    session_id: String,
    created_ms: u64,
}

impl Session {
    pub closed spec fn id(&self) -> Seq<char> {
        self.session_id@
    }

    pub closed spec fn created_ms(&self) -> nat {
        self.created_ms as nat
    }

    pub open spec fn valid_at(&self, now_ms: nat) -> bool {
        session_valid_at(self.created_ms(), now_ms)
    }

    /// A session with the given token, created at `now_ms`.
    pub fn new(session_id: String, now_ms: u64) -> (r: Session)
        ensures
            r.id() == session_id@,
            r.created_ms() == now_ms,
    {
        Session { session_id, created_ms: now_ms }
    }

    pub fn get_session_id(&self) -> (r: &str)
        ensures
            r@ == self.id(),
    {
        self.session_id.as_str()
    }

    /// Whether the two sessions carry the same token.
    pub fn same_id(&self, other: &Session) -> (r: bool)
        ensures
            r == (self.id() == other.id()),
    {
        self.session_id == other.session_id
    }

    pub fn created_at_ms(&self) -> (r: u64)
        ensures
            r == self.created_ms(),
    {
        self.created_ms
    }

    /// Whether the session may still be handed out at `now_ms`.
    pub fn is_valid(&self, now_ms: u64) -> (r: bool)
        ensures
            r == self.valid_at(now_ms as nat),
    {
        now_ms < self.created_ms || now_ms - self.created_ms < SESSION_LIFETIME_MS
    }
}

} // verus!
