use crate::channel::offer;
use crate::session::Session;
use async_channel::Sender;
use std::collections::VecDeque;
use vstd::prelude::*;
use vstd::multiset::{lemma_multiset_empty_len, Multiset};
use vstd::seq_lib::{to_multiset_build, to_multiset_insert, to_multiset_len};

verus! {

/// No two sessions in `q` carry the same token.
pub open spec fn ids_distinct(q: Seq<Session>) -> bool {
    forall|i: int, j: int| 0 <= i < j < q.len() ==> q[i].id() != q[j].id()
}

/// Some session in `q` carries the token `id`.
pub open spec fn holds_id(q: Seq<Session>, id: Seq<char>) -> bool {
    exists|i: int| 0 <= i < q.len() && q[i].id() == id
}

/// How many sessions at the back (oldest end) of `q` have expired at `now`,
/// counted up to the first one that is still valid.
pub open spec fn expired_tail(q: Seq<Session>, now: nat) -> nat
    decreases q.len(),
{
    if q.len() == 0 {
        0
    } else if q.last().valid_at(now) {
        0
    } else {
        1 + expired_tail(q.drop_last(), now)
    }
}

/// The expired tail fits in the store, everything in it has expired, and
/// the session just before it is still valid.
pub proof fn lemma_expired_tail_bound(q: Seq<Session>, now: nat)
    ensures
        expired_tail(q, now) <= q.len(),
        expired_tail(q, now) < q.len() ==> q[q.len() - expired_tail(q, now) - 1].valid_at(now),
        forall|i: int|
            q.len() - expired_tail(q, now) <= i < q.len() ==> !(#[trigger] q[i]).valid_at(now),
    decreases q.len(),
{
    if q.len() > 0 && !q.last().valid_at(now) {
        lemma_expired_tail_bound(q.drop_last(), now);
        assert forall|i: int|
            q.len() - expired_tail(q, now) <= i < q.len() implies !(#[trigger] q[i]).valid_at(
            now,
        ) by {
            if i < q.len() - 1 {
                assert(q[i] == q.drop_last()[i]);
            }
        }
    }
}

/// What the worker decided on a caller's request for a session.
pub struct RequestOutcome {
    /// Expired sessions taken out of the idle store, oldest first; each is
    /// to be closed remotely. They no longer count against the ceiling.
    pub evicted: Vec<Session>,
    /// A valid idle session went to the caller.
    pub delivered: bool,
    /// No valid idle session was left: the caller now waits, and a demand
    /// for a new session is to be signalled.
    pub queued: bool,
}

/// The one failure a caller can see: the pool's worker is gone.
#[derive(Clone, Copy, Debug, PartialEq, Eq, Structural)]
pub enum PoolError {
    PoolClosed,
}

/// A command sent by a caller to the pool's worker.
pub enum PoolCommand {
    Request(Sender<Session>),
    Return(Session),
}

impl PoolCommand {
    /// The request for a session that is to arrive on `reply`.
    pub fn request(reply: Sender<Session>) -> (c: PoolCommand)
        ensures
            c == PoolCommand::Request(reply),
    {
        PoolCommand::Request(reply)
    }

    /// The return of `session` to the pool.
    pub fn give_back(session: Session) -> (c: PoolCommand)
        ensures
            c == PoolCommand::Return(session),
    {
        PoolCommand::Return(session)
    }
}

/// The state owned by the pool's worker: idle sessions, waiting callers, and
/// the count of sessions that exist or are being created.
///
/// Both stores take new entries at the front and serve from the back, so the
/// entry that waited longest is served first.
pub struct PoolCore {
    idle: VecDeque<Session>,
    waiters: VecDeque<Sender<Session>>,
    active: u16,
    checked_out: u16,
    creating: u16,
    max_sessions: u16,
}

impl PoolCore {
    pub closed spec fn idle_view(&self) -> Seq<Session> {
        self.idle@
    }

    pub closed spec fn waiters_view(&self) -> Seq<Sender<Session>> {
        self.waiters@
    }

    /// Sessions created and not yet evicted: those idle and those checked out.
    pub closed spec fn active_spec(&self) -> nat {
        self.active as nat
    }

    /// Sessions handed to callers and not given back yet.
    pub closed spec fn checked_out_spec(&self) -> nat {
        self.checked_out as nat
    }

    /// Creations that were admitted and have not finished yet.
    pub closed spec fn creating_spec(&self) -> nat {
        self.creating as nat
    }

    pub closed spec fn max_spec(&self) -> nat {
        self.max_sessions as nat
    }

    /// Sessions that are live or on their way, counted against the ceiling.
    pub open spec fn committed(&self) -> nat {
        self.active_spec() + self.creating_spec()
    }

    /// The ceiling holds and every idle or checked-out session is counted.
    pub open spec fn counted(&self) -> bool {
        &&& self.max_spec() >= 1
        &&& self.committed() <= self.max_spec()
        &&& self.idle_view().len() + self.checked_out_spec() <= self.active_spec()
    }

    /// The counts hold, no session is idle twice, and callers wait only
    /// while no session is idle.
    pub open spec fn wf(&self) -> bool {
        &&& self.counted()
        &&& ids_distinct(self.idle_view())
        &&& self.idle_view().len() == 0 || self.waiters_view().len() == 0
    }

    pub open spec fn same_counts(&self, other: &PoolCore) -> bool {
        &&& self.active_spec() == other.active_spec()
        &&& self.creating_spec() == other.creating_spec()
        &&& self.max_spec() == other.max_spec()
    }

    /// An empty pool that admits at most `max_sessions` sessions at a time.
    pub fn new(max_sessions: u16) -> (r: PoolCore)
        requires
            max_sessions >= 1,
        ensures
            r.wf(),
            r.idle_view().len() == 0,
            r.waiters_view().len() == 0,
            r.active_spec() == 0,
            r.checked_out_spec() == 0,
            r.creating_spec() == 0,
            r.max_spec() == max_sessions,
    {
        PoolCore {
            idle: VecDeque::new(),
            waiters: VecDeque::new(),
            active: 0,
            checked_out: 0,
            creating: 0,
            max_sessions,
        }
    }

    /// Hands idle sessions to waiting callers, oldest to oldest, until one of
    /// the two stores is empty. A session whose caller is gone goes back to
    /// the front of the idle store. Returns how many sessions were handed out.
    pub fn pair_waiting(&mut self) -> (delivered: usize)
        requires
            old(self).counted(),
            ids_distinct(old(self).idle_view()),
        ensures
            final(self).wf(),
            final(self).same_counts(old(self)),
            final(self).checked_out_spec() == old(self).checked_out_spec() + delivered,
            final(self).idle_view().len() == 0 || final(self).waiters_view().len() == 0,
            final(self).waiters_view() == old(self).waiters_view().take(
                final(self).waiters_view().len() as int,
            ),
            final(self).idle_view().len() + delivered == old(self).idle_view().len(),
            delivered + final(self).waiters_view().len() <= old(self).waiters_view().len(),
            final(self).idle_view().to_multiset().subset_of(old(self).idle_view().to_multiset()),
            forall|i: int|
                0 <= i < final(self).idle_view().len() ==> old(self).idle_view().contains(
                    #[trigger] final(self).idle_view()[i],
                ),
            old(self).waiters_view().len() == 0 ==> final(self).idle_view() == old(
                self,
            ).idle_view(),
    {
        let ghost old_idle = self.idle@;
        let ghost old_waiters = self.waiters@;
        let mut delivered: usize = 0;
        broadcast use vstd::multiset::group_multiset_axioms;

        let ghost handed: Seq<Session> = seq![];
        proof {
            to_multiset_len(handed);
            lemma_multiset_empty_len(handed.to_multiset());
        }
        assert(handed.to_multiset() =~= Multiset::empty());
        assert(self.idle@.to_multiset().add(handed.to_multiset()) =~= old_idle.to_multiset());
        let waiting: usize = self.waiters.len();
        let used: u16 = self.checked_out;
        while self.idle.len() > 0 && self.waiters.len() > 0
            invariant
                self.active == old(self).active,
                self.checked_out == old(self).checked_out + delivered,
                self.creating == old(self).creating,
                self.max_sessions == old(self).max_sessions,
                old_idle == old(self).idle@,
                old_waiters == old(self).waiters@,
                self.waiters@ == old_waiters.take(self.waiters@.len() as int),
                self.waiters@.len() <= old_waiters.len(),
                self.idle@.len() + delivered == old_idle.len(),
                delivered + self.waiters@.len() <= old_waiters.len(),
                old_waiters.len() == waiting,
                used == old(self).checked_out,
                self.checked_out as nat + self.idle@.len() == used as nat + old_idle.len(),
                used as nat + old_idle.len() <= self.active,
                old(self).counted(),
                ids_distinct(self.idle@),
                self.idle@.to_multiset().add(handed.to_multiset()) == old_idle.to_multiset(),
                forall|i: int|
                    0 <= i < self.idle@.len() ==> old_idle.contains(#[trigger] self.idle@[i]),
                old_waiters.len() == 0 ==> self.idle@ == old_idle,
            decreases self.waiters@.len(),
        {
            let ghost before = self.idle@;
            let session = self.idle.pop_back().unwrap();
            assert(old_idle.contains(before[before.len() - 1]));
            proof {
                assert(before =~= self.idle@.push(session));
                to_multiset_build(self.idle@, session);
                assert(before.to_multiset() =~= self.idle@.to_multiset().insert(session));
            }
            let waiter = self.waiters.pop_back().unwrap();
            assert(self.waiters@ =~= old_waiters.take(self.waiters@.len() as int));
            match offer(&waiter, session) {
                Ok(()) => {
                    proof {
                        to_multiset_build(handed, session);
                        assert(handed.push(session).to_multiset() =~= handed.to_multiset().insert(
                            session,
                        ));
                        handed = handed.push(session);
                    }
                    delivered = delivered + 1;
                    self.checked_out = self.checked_out + 1;
                },
                Err(session) => {
                    proof {
                        assert forall|i: int| 0 <= i < self.idle@.len() implies self.idle@[i].id()
                            != session.id() by {
                            assert(self.idle@[i] == before[i]);
                        }
                        to_multiset_insert(self.idle@, 0, session);
                        assert(self.idle@.insert(0, session) =~= seq![session] + self.idle@);
                    }
                    self.idle.push_front(session);
                },
            }
            assert(self.idle@.to_multiset().add(handed.to_multiset()) =~= old_idle.to_multiset());
            assert forall|i: int| 0 <= i < self.idle@.len() implies old_idle.contains(
                #[trigger] self.idle@[i],
            ) by {
                if self.idle@.len() > before.len() - 1 && i > 0 {
                    assert(self.idle@[i] == before[i - 1]);
                } else if self.idle@.len() == before.len() - 1 {
                    assert(self.idle@[i] == before[i]);
                }
            }
        }
        delivered
    }

    /// Takes the expired sessions at the oldest end of the idle store out of
    /// the pool, oldest first, up to the first one still valid at `now_ms`.
    /// Each is to be closed remotely and no longer counts against the
    /// ceiling.
    pub fn evict_expired(&mut self, now_ms: u64) -> (evicted: Vec<Session>)
        requires
            old(self).wf(),
        ensures
            final(self).wf(),
            ({
                let q = old(self).idle_view();
                let n = q.len();
                let k = expired_tail(q, now_ms as nat);
                &&& evicted@.len() == k
                &&& forall|i: int| 0 <= i < k ==> evicted@[i] == q[n - 1 - i]
                &&& forall|i: int| 0 <= i < k ==> !(#[trigger] evicted@[i]).valid_at(now_ms as nat)
                &&& final(self).idle_view() == q.take(n - k)
                &&& final(self).active_spec() == old(self).active_spec() - k
            }),
            final(self).waiters_view() == old(self).waiters_view(),
            final(self).checked_out_spec() == old(self).checked_out_spec(),
            final(self).creating_spec() == old(self).creating_spec(),
            final(self).max_spec() == old(self).max_spec(),
    {
        let ghost q = self.idle@;
        let ghost now = now_ms as nat;
        proof {
            lemma_expired_tail_bound(q, now);
        }
        let mut evicted: Vec<Session> = Vec::new();
        loop
            invariant_except_break
                now == now_ms as nat,
                q == old(self).idle@,
                self.waiters@ == old(self).waiters@,
                self.creating == old(self).creating,
                self.max_sessions == old(self).max_sessions,
                self.idle@.len() + evicted@.len() == q.len(),
                self.idle@ == q.take(self.idle@.len() as int),
                expired_tail(q, now) == evicted@.len() + expired_tail(self.idle@, now),
                forall|i: int| 0 <= i < evicted@.len() ==> evicted@[i] == q[q.len() - 1 - i],
                self.active as nat == old(self).active as nat - evicted@.len(),
                self.checked_out == old(self).checked_out,
                old(self).idle@.len() + old(self).checked_out <= old(self).active,
            ensures
                now == now_ms as nat,
                q == old(self).idle@,
                self.waiters@ == old(self).waiters@,
                self.creating == old(self).creating,
                self.max_sessions == old(self).max_sessions,
                self.checked_out == old(self).checked_out,
                evicted@.len() == expired_tail(q, now),
                forall|i: int| 0 <= i < evicted@.len() ==> evicted@[i] == q[q.len() - 1 - i],
                self.active as nat == old(self).active as nat - evicted@.len(),
                self.idle@ == q.take(q.len() - evicted@.len()),
            decreases self.idle@.len(),
        {
            let ghost cur = self.idle@;
            match self.idle.pop_back() {
                None => {
                    assert(cur =~= q.take(q.len() - evicted@.len()));
                    break;
                },
                Some(s) => {
                    assert(s == q[cur.len() - 1]);
                    assert(self.idle@ =~= q.take(self.idle@.len() as int));
                    assert(cur.drop_last() =~= self.idle@);
                    assert(cur.last() == s);
                    assert(expired_tail(cur, now) == if s.valid_at(now) {
                        0
                    } else {
                        1 + expired_tail(self.idle@, now)
                    });
                    if s.is_valid(now_ms) {
                        self.idle.push_back(s);
                        assert(self.idle@ =~= cur);
                        break;
                    }
                    self.active = self.active - 1;
                    evicted.push(s);
                },
            }
        }
        proof {
            assert forall|i: int|
                0 <= i < evicted@.len() implies !(#[trigger] evicted@[i]).valid_at(now) by {
                assert(evicted@[i] == q[q.len() - 1 - i]);
            }
        }
        evicted
    }

    /// A caller asks for a session. Expired sessions at the oldest end of the
    /// idle store are evicted; the oldest valid one, if any, is offered to
    /// the caller (and goes back to the front of the idle store if the
    /// caller is gone). With none left, the caller joins the waiters.
    pub fn handle_request(&mut self, reply: Sender<Session>, now_ms: u64) -> (r: RequestOutcome)
        requires
            old(self).wf(),
        ensures
            final(self).wf(),
            ({
                let q = old(self).idle_view();
                let n = q.len();
                let k = expired_tail(q, now_ms as nat);
                &&& r.evicted@.len() == k
                &&& forall|i: int| 0 <= i < k ==> r.evicted@[i] == q[n - 1 - i]
                &&& forall|i: int| 0 <= i < k ==> !(#[trigger] r.evicted@[i]).valid_at(now_ms as nat)
                &&& final(self).active_spec() == old(self).active_spec() - k
                &&& final(self).checked_out_spec() == old(self).checked_out_spec() + if r.delivered {
                    1nat
                } else {
                    0nat
                }
                &&& final(self).creating_spec() == old(self).creating_spec()
                &&& final(self).max_spec() == old(self).max_spec()
                &&& r.queued <==> k == n
                &&& r.queued ==> {
                    &&& !r.delivered
                    &&& final(self).idle_view().len() == 0
                    &&& final(self).waiters_view() == seq![reply] + old(self).waiters_view()
                }
                &&& !r.queued ==> {
                    &&& q[n - k - 1].valid_at(now_ms as nat)
                    &&& final(self).waiters_view() == old(self).waiters_view()
                    &&& r.delivered ==> final(self).idle_view() == q.take(n - k - 1)
                    &&& !r.delivered ==> final(self).idle_view() == seq![q[n - k - 1]] + q.take(
                        n - k - 1,
                    )
                }
            }),
    {
        let ghost q = self.idle@;
        let ghost now = now_ms as nat;
        proof {
            lemma_expired_tail_bound(q, now);
        }
        let evicted = self.evict_expired(now_ms);
        let ghost k = evicted@.len();
        let ghost rest = self.idle@;
        let delivered: bool;
        let queued: bool;
        match self.idle.pop_back() {
            None => {
                self.waiters.push_front(reply);
                delivered = false;
                queued = true;
            },
            Some(session) => {
                assert(session == rest[rest.len() - 1]);
                assert(self.idle@ =~= q.take(q.len() - k - 1));
                queued = false;
                match offer(&reply, session) {
                    Ok(()) => {
                        delivered = true;
                        self.checked_out = self.checked_out + 1;
                    },
                    Err(session) => {
                        self.idle.push_front(session);
                        delivered = false;
                    },
                }
            },
        }
        RequestOutcome { evicted, delivered, queued }
    }

    /// A caller gives a session back. While no session is checked out, or
    /// while a session with the same token is idle, the pool cannot have
    /// handed this one out: it is refused, and handed back to be closed
    /// remotely. An expired session is evicted and handed back
    /// to be closed remotely; a valid one joins the front of the idle store,
    /// and idle sessions are then paired with waiting callers.
    pub fn handle_return(&mut self, session: Session, now_ms: u64) -> (evicted: Option<Session>)
        requires
            old(self).wf(),
        ensures
            final(self).wf(),
            final(self).creating_spec() == old(self).creating_spec(),
            final(self).max_spec() == old(self).max_spec(),
            old(self).checked_out_spec() == 0 || holds_id(old(self).idle_view(), session.id())
                ==> {
                &&& evicted == Some(session)
                &&& *final(self) == *old(self)
            },
            old(self).checked_out_spec() > 0 && !holds_id(old(self).idle_view(), session.id())
                && !session.valid_at(now_ms as nat) ==> {
                &&& evicted == Some(session)
                &&& final(self).active_spec() == old(self).active_spec() - 1
                &&& final(self).checked_out_spec() == old(self).checked_out_spec() - 1
                &&& final(self).idle_view() == old(self).idle_view()
                &&& final(self).waiters_view() == old(self).waiters_view()
            },
            old(self).checked_out_spec() > 0 && !holds_id(old(self).idle_view(), session.id())
                && session.valid_at(now_ms as nat) ==> {
                let pushed = seq![session] + old(self).idle_view();
                &&& evicted is None
                &&& final(self).active_spec() == old(self).active_spec()
                &&& final(self).idle_view().len() + final(self).checked_out_spec()
                    == old(self).idle_view().len() + old(self).checked_out_spec()
                &&& final(self).waiters_view() == old(self).waiters_view().take(
                    final(self).waiters_view().len() as int,
                )
                &&& final(self).idle_view().to_multiset().subset_of(pushed.to_multiset())
                &&& old(self).waiters_view().len() == 0 ==> final(self).idle_view() == pushed
                &&& old(self).waiters_view().len() > 0 ==> {
                    &&& final(self).idle_view().len() <= 1
                    &&& final(self).idle_view().len() == 1 ==> final(self).idle_view()[0]
                        == session
                    &&& final(self).waiters_view().len() < old(self).waiters_view().len()
                }
            },
    {
        if self.checked_out == 0 || self.holds_idle(&session) {
            return Some(session);
        }
        self.checked_out = self.checked_out - 1;
        if !session.is_valid(now_ms) {
            self.active = self.active - 1;
            return Some(session);
        }
        proof {
            let q = self.idle@;
            assert forall|i: int| 0 <= i < q.len() implies q[i].id() != session.id() by {
                if q[i].id() == session.id() {
                    assert(holds_id(q, session.id()));
                }
            }
        }
        self.idle.push_front(session);
        assert(ids_distinct(self.idle@)) by {
            assert forall|i: int, j: int| 0 <= i < j < self.idle@.len() implies self.idle@[i].id()
                != self.idle@[j].id() by {
                assert(self.idle@[j] == old(self).idle@[j - 1]);
                if i > 0 {
                    assert(self.idle@[i] == old(self).idle@[i - 1]);
                }
            }
        }
        let ghost pushed = self.idle@;
        self.pair_waiting();
        proof {
            if old(self).waiters@.len() > 0 {
                assert(pushed =~= seq![session]);
                if self.idle@.len() > 0 {
                    assert(pushed.contains(self.idle@[0]));
                }
            }
        }
        None
    }

    /// A demand for one more session. It is admitted only while the sessions
    /// that exist or are being created stay under the ceiling.
    pub fn on_demand(&mut self) -> (start: bool)
        requires
            old(self).wf(),
        ensures
            final(self).wf(),
            start == (old(self).committed() < old(self).max_spec()),
            final(self).checked_out_spec() == old(self).checked_out_spec(),
            final(self).active_spec() == old(self).active_spec(),
            final(self).max_spec() == old(self).max_spec(),
            final(self).creating_spec() == old(self).creating_spec() + if start {
                1nat
            } else {
                0nat
            },
            final(self).idle_view() == old(self).idle_view(),
            final(self).waiters_view() == old(self).waiters_view(),
    {
        if self.active as u32 + self.creating as u32 >= self.max_sessions as u32 {
            return false;
        }
        self.creating = self.creating + 1;
        true
    }

    /// An admitted creation succeeded: the session joins the idle store and is
    /// paired with waiting callers. Returns whether callers still wait and
    /// room is left, so that another demand is to be signalled.
    pub fn on_created(&mut self, session: Session) -> (again: bool)
        requires
            old(self).wf(),
            old(self).creating_spec() > 0,
            !holds_id(old(self).idle_view(), session.id()),
        ensures
            final(self).wf(),
            final(self).active_spec() == old(self).active_spec() + 1,
            final(self).creating_spec() == old(self).creating_spec() - 1,
            final(self).max_spec() == old(self).max_spec(),
            final(self).idle_view().len() + final(self).checked_out_spec() == old(
                self,
            ).idle_view().len() + old(self).checked_out_spec() + 1,
            ({
                let pushed = seq![session] + old(self).idle_view();
                &&& final(self).waiters_view() == old(self).waiters_view().take(
                    final(self).waiters_view().len() as int,
                )
                &&& final(self).idle_view().to_multiset().subset_of(pushed.to_multiset())
                &&& old(self).waiters_view().len() == 0 ==> final(self).idle_view() == pushed
                &&& old(self).waiters_view().len() > 0 ==> {
                    &&& final(self).idle_view().len() <= 1
                    &&& final(self).idle_view().len() == 1 ==> final(self).idle_view()[0]
                        == session
                    &&& final(self).waiters_view().len() < old(self).waiters_view().len()
                }
            }),
            again == (final(self).waiters_view().len() > 0 && final(self).committed()
                < final(self).max_spec()),
    {
        self.creating = self.creating - 1;
        self.active = self.active + 1;
        proof {
            let q = self.idle@;
            assert forall|i: int| 0 <= i < q.len() implies q[i].id() != session.id() by {
                if q[i].id() == session.id() {
                    assert(holds_id(q, session.id()));
                }
            }
        }
        self.idle.push_front(session);
        assert(ids_distinct(self.idle@)) by {
            assert forall|i: int, j: int| 0 <= i < j < self.idle@.len() implies self.idle@[i].id()
                != self.idle@[j].id() by {
                assert(self.idle@[j] == old(self).idle@[j - 1]);
                if i > 0 {
                    assert(self.idle@[i] == old(self).idle@[i - 1]);
                }
            }
        }
        let ghost pushed = self.idle@;
        self.pair_waiting();
        proof {
            if old(self).waiters@.len() > 0 {
                assert(pushed =~= seq![session]);
                if self.idle@.len() > 0 {
                    assert(pushed.contains(self.idle@[0]));
                }
            }
        }
        self.waiters.len() > 0 && (self.active as u32 + self.creating as u32) < self.max_sessions as u32
    }

    /// An admitted creation failed for good: its room under the ceiling is
    /// given back. Waiting callers keep waiting for a later demand.
    pub fn on_create_failed(&mut self)
        requires
            old(self).creating_spec() > 0,
            old(self).wf(),
        ensures
            final(self).wf(),
            final(self).checked_out_spec() == old(self).checked_out_spec(),
            final(self).active_spec() == old(self).active_spec(),
            final(self).creating_spec() == old(self).creating_spec() - 1,
            final(self).max_spec() == old(self).max_spec(),
            final(self).idle_view() == old(self).idle_view(),
            final(self).waiters_view() == old(self).waiters_view(),
    {
        self.creating = self.creating - 1;
    }

    /// Whether an idle session carries the same token as `session`.
    pub fn holds_idle(&self, session: &Session) -> (r: bool)
        ensures
            r == holds_id(self.idle_view(), session.id()),
    {
        let mut i: usize = 0;
        while i < self.idle.len()
            invariant
                i <= self.idle@.len(),
                forall|j: int| 0 <= j < i ==> self.idle@[j].id() != session.id(),
            decreases self.idle@.len() - i,
        {
            if self.idle[i].same_id(session) {
                return true;
            }
            i = i + 1;
        }
        false
    }

    pub fn idle_count(&self) -> (r: usize)
        ensures
            r == self.idle_view().len(),
    {
        self.idle.len()
    }

    pub fn waiter_count(&self) -> (r: usize)
        ensures
            r == self.waiters_view().len(),
    {
        self.waiters.len()
    }

    pub fn active_count(&self) -> (r: u16)
        ensures
            r == self.active_spec(),
    {
        self.active
    }

    pub fn max_sessions(&self) -> (r: u16)
        ensures
            r == self.max_spec(),
    {
        self.max_sessions
    }
}

} // verus!

verus! {

/// Queues a caller's request, with the channel on which its session is to
/// arrive, without waiting. Fails when the worker no longer takes commands.
pub fn request_session(commands: &Sender<PoolCommand>, reply: Sender<Session>) -> (r: Result<
    (),
    PoolError,
>)
    ensures
        r is Err ==> r == Err::<(), PoolError>(PoolError::PoolClosed),
{
    let command = PoolCommand::request(reply);
    match offer(commands, command) {
        Ok(()) => Ok(()),
        Err(_) => Err(PoolError::PoolClosed),
    }
}

/// Gives a session back to the worker without waiting. Where the worker no
/// longer takes commands the session is dropped: the caller's work is done,
/// and only a chance of reuse is lost.
pub fn return_session(commands: &Sender<PoolCommand>, session: Session) {
    let command = PoolCommand::give_back(session);
    let _ = offer(commands, command);
}

/// However requests, returns, creations and evictions interleave, the
/// sessions that are live (idle or checked out) never outnumber the
/// ceiling: every transition of the pool keeps `wf`, and `wf` bounds them.
pub proof fn live_sessions_within_ceiling(p: PoolCore)
    requires
        p.wf(),
    ensures
        p.idle_view().len() + p.checked_out_spec() <= p.max_spec(),
        p.active_spec() + p.creating_spec() <= p.max_spec(),
{
}

/// A valid session given back to a pool whose other idle sessions have all
/// expired is the one offered to the next request, and that request signals
/// no demand for a new session.
pub proof fn returned_session_is_served_next(idle: Seq<Session>, s: Session, now: nat)
    requires
        s.valid_at(now),
        forall|i: int| 0 <= i < idle.len() ==> !(#[trigger] idle[i]).valid_at(now),
    ensures
        ({
            let q = seq![s] + idle;
            let k = expired_tail(q, now);
            &&& k < q.len()
            &&& q[q.len() - k - 1] == s
        }),
    decreases idle.len(),
{
    let q = seq![s] + idle;
    if idle.len() > 0 {
        let rest = idle.drop_last();
        assert forall|i: int| 0 <= i < rest.len() implies !(#[trigger] rest[i]).valid_at(now) by {
            assert(rest[i] == idle[i]);
        }
        returned_session_is_served_next(rest, s, now);
        assert(q.drop_last() =~= seq![s] + rest);
        assert(q.last() == idle[idle.len() - 1]);
    } else {
        assert(q.last() == s);
    }
}

} // verus!
