use async_channel::bounded;
use session_pool::{request_session, return_session, PoolCommand, PoolCore, PoolError, Session};

const MINUTE: u64 = 60_000;

fn session(id: &str, at: u64) -> Session {
    Session::new(id.to_string(), at)
}

#[test]
fn request_on_empty_pool_waits_and_signals_demand() {
    let mut core = PoolCore::new(2);
    let (tx, rx) = bounded::<Session>(1);
    let out = core.handle_request(tx, 0);
    assert!(out.queued);
    assert!(!out.delivered);
    assert!(out.evicted.is_empty());
    assert_eq!(core.waiter_count(), 1);
    assert!(rx.try_recv().is_err());
    assert!(core.on_demand());
}

#[test]
fn demand_is_refused_at_the_ceiling() {
    let mut core = PoolCore::new(2);
    assert!(core.on_demand());
    assert!(core.on_demand());
    assert!(!core.on_demand());
    core.on_create_failed();
    assert!(core.on_demand());
    assert_eq!(core.active_count(), 0);
    assert_eq!(core.max_sessions(), 2);
}

#[test]
fn created_session_goes_to_the_oldest_waiter() {
    let mut core = PoolCore::new(3);
    let (tx1, rx1) = bounded::<Session>(1);
    let (tx2, rx2) = bounded::<Session>(1);
    assert!(core.handle_request(tx1, 0).queued);
    assert!(core.handle_request(tx2, 0).queued);
    assert!(core.on_demand());
    let again = core.on_created(session("first", 0));
    assert!(again);
    assert_eq!(rx1.try_recv().unwrap().get_session_id(), "first");
    assert!(rx2.try_recv().is_err());
    assert_eq!(core.active_count(), 1);
    assert_eq!(core.idle_count(), 0);
    assert_eq!(core.waiter_count(), 1);
}

#[test]
fn single_session_serves_two_callers_in_turn() {
    let mut core = PoolCore::new(1);
    let (tx1, rx1) = bounded::<Session>(1);
    let (tx2, rx2) = bounded::<Session>(1);
    assert!(core.handle_request(tx1, 0).queued);
    assert!(core.on_demand());
    assert!(core.handle_request(tx2, 0).queued);
    assert!(!core.on_demand());
    let again = core.on_created(session("only", 10));
    assert!(!again);
    let got = rx1.try_recv().unwrap();
    assert_eq!(got.get_session_id(), "only");
    assert!(rx2.try_recv().is_err());
    assert_eq!(core.waiter_count(), 1);
    assert!(core.handle_return(got, 20).is_none());
    let second = rx2.try_recv().unwrap();
    assert_eq!(second.get_session_id(), "only");
    assert_eq!(core.active_count(), 1);
    assert_eq!(core.idle_count(), 0);
    assert_eq!(core.waiter_count(), 0);
}

#[test]
fn given_back_session_is_served_without_creation() {
    let mut core = PoolCore::new(2);
    assert!(core.on_demand());
    core.on_created(session("s1", 0));
    assert_eq!(core.idle_count(), 1);
    let (tx, rx) = bounded::<Session>(1);
    let out = core.handle_request(tx, 5);
    assert!(out.delivered && !out.queued);
    let got = rx.try_recv().unwrap();
    assert!(core.handle_return(got, 6).is_none());
    let (tx2, rx2) = bounded::<Session>(1);
    let out = core.handle_request(tx2, 7);
    assert!(out.delivered);
    assert!(!out.queued);
    assert!(out.evicted.is_empty());
    assert_eq!(rx2.try_recv().unwrap().get_session_id(), "s1");
    assert_eq!(core.active_count(), 1);
}

#[test]
fn expired_sessions_are_evicted_before_a_valid_one_is_offered() {
    let mut core = PoolCore::new(3);
    assert!(core.on_demand());
    core.on_created(session("old", 0));
    assert!(core.on_demand());
    core.on_created(session("young", 9 * MINUTE));
    let (tx, rx) = bounded::<Session>(1);
    let out = core.handle_request(tx, 10 * MINUTE);
    assert_eq!(out.evicted.len(), 1);
    assert_eq!(out.evicted[0].get_session_id(), "old");
    assert!(out.delivered);
    assert_eq!(rx.try_recv().unwrap().get_session_id(), "young");
    assert_eq!(core.active_count(), 1);
}

#[test]
fn only_expired_sessions_leave_the_caller_waiting() {
    let mut core = PoolCore::new(2);
    assert!(core.on_demand());
    core.on_created(session("a", 0));
    assert!(core.on_demand());
    core.on_created(session("b", 1));
    let (tx, _rx) = bounded::<Session>(1);
    let out = core.handle_request(tx, 20 * MINUTE);
    assert_eq!(out.evicted.len(), 2);
    assert_eq!(out.evicted[0].get_session_id(), "a");
    assert_eq!(out.evicted[1].get_session_id(), "b");
    assert!(out.queued);
    assert_eq!(core.active_count(), 0);
    assert_eq!(core.waiter_count(), 1);
}

#[test]
fn expired_return_is_evicted() {
    let mut core = PoolCore::new(1);
    assert!(core.on_demand());
    core.on_created(session("x", 0));
    let (tx, rx) = bounded::<Session>(1);
    core.handle_request(tx, 1);
    let got = rx.try_recv().unwrap();
    let evicted = core.handle_return(got, 10 * MINUTE).unwrap();
    assert_eq!(evicted.get_session_id(), "x");
    assert_eq!(core.active_count(), 0);
    assert_eq!(core.idle_count(), 0);
}

#[test]
fn session_for_a_departed_caller_is_requeued() {
    let mut core = PoolCore::new(1);
    assert!(core.on_demand());
    core.on_created(session("kept", 0));
    let (tx, rx) = bounded::<Session>(1);
    drop(rx);
    let out = core.handle_request(tx, 1);
    assert!(!out.delivered);
    assert!(!out.queued);
    assert_eq!(core.idle_count(), 1);
    let (tx2, rx2) = bounded::<Session>(1);
    assert!(core.handle_request(tx2, 2).delivered);
    assert_eq!(rx2.try_recv().unwrap().get_session_id(), "kept");
}

#[test]
fn pairing_skips_departed_waiters() {
    let mut core = PoolCore::new(2);
    let (tx1, rx1) = bounded::<Session>(1);
    let (tx2, rx2) = bounded::<Session>(1);
    core.handle_request(tx1, 0);
    core.handle_request(tx2, 0);
    drop(rx1);
    assert!(core.on_demand());
    core.on_created(session("s", 0));
    assert_eq!(rx2.try_recv().unwrap().get_session_id(), "s");
    assert_eq!(core.waiter_count(), 0);
    assert_eq!(core.idle_count(), 0);
}

#[test]
fn pair_waiting_without_waiters_keeps_idle_order() {
    let mut core = PoolCore::new(2);
    assert!(core.on_demand());
    core.on_created(session("a", 0));
    assert!(core.on_demand());
    core.on_created(session("b", 0));
    assert_eq!(core.pair_waiting(), 0);
    let (tx, rx) = bounded::<Session>(1);
    core.handle_request(tx, 1);
    assert_eq!(rx.try_recv().unwrap().get_session_id(), "a");
}

#[test]
fn commands_fail_once_the_worker_is_gone() {
    let (commands, receiver) = async_channel::unbounded::<PoolCommand>();
    let (reply, _reply_rx) = bounded::<Session>(1);
    assert_eq!(request_session(&commands, reply), Ok(()));
    assert!(matches!(receiver.try_recv(), Ok(PoolCommand::Request(_))));
    drop(receiver);
    let (reply, _reply_rx) = bounded::<Session>(1);
    assert_eq!(request_session(&commands, reply), Err(PoolError::PoolClosed));
    return_session(&commands, session("late", 0));
}

#[test]
fn mixed_traffic_never_exceeds_the_ceiling() {
    let mut core = PoolCore::new(2);
    let mut receivers = Vec::new();
    let mut checked_out: Vec<Session> = Vec::new();
    for round in 0..12u64 {
        let now = round * 1_000;
        let (tx, rx) = bounded::<Session>(1);
        if core.handle_request(tx, now).queued {
            while core.on_demand() {
                core.on_created(Session::new(format!("s{round}"), now));
            }
        }
        receivers.push(rx);
        for rx in &receivers {
            if let Ok(s) = rx.try_recv() {
                checked_out.push(s);
            }
        }
        if round % 3 == 2 {
            if let Some(s) = checked_out.pop() {
                assert!(core.handle_return(s, now).is_none());
            }
        }
        assert!(core.active_count() <= core.max_sessions());
        assert!(checked_out.len() + core.idle_count() <= 2);
    }
}

#[test]
fn foreign_return_is_refused() {
    let mut core = PoolCore::new(1);
    let refused = core.handle_return(session("stranger", 0), 0).unwrap();
    assert_eq!(refused.get_session_id(), "stranger");
    assert_eq!(core.idle_count(), 0);
    assert_eq!(core.active_count(), 0);
}

#[test]
fn evict_expired_stops_at_the_first_valid_session() {
    let mut core = PoolCore::new(3);
    assert!(core.on_demand());
    core.on_created(session("young", 9 * MINUTE));
    assert!(core.on_demand());
    core.on_created(session("old2", 1));
    assert!(core.on_demand());
    core.on_created(session("old1", 0));
    let evicted = core.evict_expired(10 * MINUTE);
    assert_eq!(evicted.len(), 0);
    assert_eq!(core.idle_count(), 3);
    let mut fresh = PoolCore::new(3);
    assert!(fresh.on_demand());
    fresh.on_created(session("a", 0));
    assert!(fresh.on_demand());
    fresh.on_created(session("b", 1));
    assert!(fresh.on_demand());
    fresh.on_created(session("c", 9 * MINUTE));
    let evicted = fresh.evict_expired(10 * MINUTE + 1);
    assert_eq!(evicted.len(), 2);
    assert_eq!(evicted[0].get_session_id(), "a");
    assert_eq!(evicted[1].get_session_id(), "b");
    assert_eq!(fresh.idle_count(), 1);
    assert_eq!(fresh.active_count(), 1);
}

#[test]
fn given_back_session_skips_a_departed_waiter() {
    let mut core = PoolCore::new(1);
    let (tx0, rx0) = bounded::<Session>(1);
    core.handle_request(tx0, 0);
    assert!(core.on_demand());
    core.on_created(session("s", 0));
    let got = rx0.try_recv().unwrap();
    let (tx1, rx1) = bounded::<Session>(1);
    let (tx2, rx2) = bounded::<Session>(1);
    assert!(core.handle_request(tx1, 1).queued);
    assert!(core.handle_request(tx2, 1).queued);
    drop(rx1);
    assert!(core.handle_return(got, 2).is_none());
    assert_eq!(rx2.try_recv().unwrap().get_session_id(), "s");
    assert_eq!(core.active_count(), 1);
    assert_eq!(core.waiter_count(), 0);
}

#[test]
fn command_builders_wrap_their_argument() {
    match PoolCommand::give_back(session("g", 0)) {
        PoolCommand::Return(s) => assert_eq!(s.get_session_id(), "g"),
        PoolCommand::Request(_) => panic!("expected a return"),
    }
    let (tx, _rx) = bounded::<Session>(1);
    assert!(matches!(PoolCommand::request(tx), PoolCommand::Request(_)));
}

#[test]
fn duplicate_return_is_refused() {
    let mut core = PoolCore::new(2);
    assert!(core.on_demand());
    core.on_created(session("dup", 0));
    assert!(core.on_demand());
    core.on_created(session("other", 0));
    let (tx, rx) = bounded::<Session>(1);
    assert!(core.handle_request(tx, 1).delivered);
    assert_eq!(rx.try_recv().unwrap().get_session_id(), "dup");
    assert!(core.holds_idle(&session("other", 5)));
    assert!(!core.holds_idle(&session("dup", 5)));
    let refused = core.handle_return(session("other", 0), 2).unwrap();
    assert_eq!(refused.get_session_id(), "other");
    assert_eq!(core.idle_count(), 1);
    assert_eq!(core.active_count(), 2);
}
