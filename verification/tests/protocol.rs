use paxos::acceptor::Acceptor;
use paxos::acceptor::PrepareReply;
use paxos::acceptor::Proposal;
use paxos::proposer::Proposer;
use paxos::proposer::RunError;
use paxos::proposer::choose_value;
use paxos::proposer::majority;
use paxos::version::Version;

fn ver(round: u64, proposer_id: u64) -> Version {
    Version { round, proposer_id }
}

#[test]
fn simple() {
}

#[test]
fn quorum_arithmetic() {
    assert_eq!(majority(3), 2);
    assert_eq!(majority(5), 3);
    assert_eq!(majority(1), 1);
    assert_eq!(majority(2), 2);
    assert_eq!(majority(4), 3);
    assert_eq!(majority(0), 1);
}

#[test]
fn version_order_is_lexicographic() {
    assert!(ver(1, 9).lt(&ver(2, 0)));
    assert!(ver(2, 1).lt(&ver(2, 2)));
    assert!(!ver(2, 2).lt(&ver(2, 2)));
    assert!(!ver(3, 0).lt(&ver(2, 9)));
    assert!(ver(2, 2).le(&ver(2, 2)));
    assert!(ver(1, 7).le(&ver(2, 0)));
    assert!(!ver(2, 0).le(&ver(1, 7)));
}

#[test]
fn monotonic_promise() {
    // prepare calls arriving out of order never lower the promise
    let mut acc: Acceptor<&str> = Acceptor::new();
    let first = acc.prepare(ver(1, 1));
    assert!(first.promised);
    let second = acc.prepare(ver(2, 1));
    assert!(second.promised);
    // a stale lower-version prepare is not promised any more
    let stale = acc.prepare(ver(1, 1));
    assert!(!stale.promised);
    assert_eq!(stale.previously_accepted, None);
    // the promise still stands at the maximum: an accept at it succeeds
    let accepted = acc.accept(Proposal { version: ver(2, 1), value: "X" });
    assert_eq!(accepted, Some(ver(2, 1)));
}

#[test]
fn prepare_idempotent() {
    // two prepares with the same version, no intervening call: identical
    // replies and no further state change
    let mut acc: Acceptor<&str> = Acceptor::new();
    let r1 = acc.prepare(ver(3, 1));
    let r2 = acc.prepare(ver(3, 1));
    assert_eq!(r1, r2);
    assert!(r2.promised);
    // the same holds once a proposal is accepted
    assert_eq!(acc.accept(Proposal { version: ver(3, 1), value: "X" }), Some(ver(3, 1)));
    let r3 = acc.prepare(ver(3, 1));
    let r4 = acc.prepare(ver(3, 1));
    assert_eq!(r3, r4);
    assert_eq!(r3.previously_accepted, Some(Proposal { version: ver(3, 1), value: "X" }));
}

#[test]
fn scenario_no_contention() {
    // 3 acceptors, one proposer, round 1, value "X"
    let mut accs: Vec<Acceptor<&str>> = vec![Acceptor::new(), Acceptor::new(), Acceptor::new()];
    let version = ver(1, 1);
    for acc in accs.iter_mut() {
        let reply = acc.prepare(version);
        assert!(reply.promised);
        assert_eq!(reply.previously_accepted, None);
    }
    for acc in accs.iter_mut() {
        assert_eq!(acc.accept(Proposal { version, value: "X" }), Some(version));
    }
}

#[test]
fn scenario_no_contention_run() {
    let accs: Vec<Acceptor<&str>> = vec![Acceptor::new(), Acceptor::new(), Acceptor::new()];
    let mut proposer = Proposer::new(1, accs, 100, 3);
    let committed = proposer.run("X").unwrap();
    assert_eq!(committed.value, "X");
    assert_eq!(committed.version, ver(1, 1));
}

#[test]
fn scenario_contention_adopts_prior_value() {
    // proposer A (id 1) committed "X" at (1,1) on acceptors 1 and 2;
    // proposer B (id 2) then prepares (2,2) against acceptors 2 and 3
    let mut acc2: Acceptor<&str> = Acceptor::new();
    assert!(acc2.prepare(ver(1, 1)).promised);
    assert_eq!(acc2.accept(Proposal { version: ver(1, 1), value: "X" }), Some(ver(1, 1)));
    let mut acc3: Acceptor<&str> = Acceptor::new();

    let reply2 = acc2.prepare(ver(2, 2));
    assert!(reply2.promised);
    assert_eq!(reply2.previously_accepted, Some(Proposal { version: ver(1, 1), value: "X" }));
    let reply3 = acc3.prepare(ver(2, 2));
    assert!(reply3.promised);
    assert_eq!(reply3.previously_accepted, None);

    // a prior acceptance exists, so B must adopt "X", not its own value
    let replies = vec![reply2, reply3];
    assert_eq!(choose_value(&replies, "B's own value"), "X");
}

#[test]
fn scenario_contention_run_adopts_prior_value() {
    // as above, but letting B run its whole round over acceptors 2 and 3
    let mut acc2: Acceptor<&str> = Acceptor::new();
    assert!(acc2.prepare(ver(1, 1)).promised);
    assert_eq!(acc2.accept(Proposal { version: ver(1, 1), value: "X" }), Some(ver(1, 1)));
    let acc3: Acceptor<&str> = Acceptor::new();

    let mut proposer_b = Proposer::new(2, vec![acc2, acc3], 100, 3);
    let committed = proposer_b.run("Y").unwrap();
    assert_eq!(committed.value, "X");
    assert_eq!(committed.version.proposer_id, 2);
}

#[test]
fn adoption_picks_highest_version() {
    // merely noticing that some prior proposal exists is not enough: the
    // highest-versioned one must win
    let replies = vec![
        PrepareReply {
            promised: true,
            previously_accepted: Some(Proposal { version: ver(1, 1), value: "old" }),
        },
        PrepareReply {
            promised: true,
            previously_accepted: Some(Proposal { version: ver(3, 2), value: "newest" }),
        },
        PrepareReply {
            promised: true,
            previously_accepted: Some(Proposal { version: ver(2, 1), value: "middle" }),
        },
    ];
    assert_eq!(choose_value(&replies, "initial"), "newest");
}

#[test]
fn adoption_ignores_non_promising_replies() {
    let replies = vec![
        PrepareReply {
            promised: false,
            previously_accepted: Some(Proposal { version: ver(9, 9), value: "stale" }),
        },
        PrepareReply { promised: true, previously_accepted: None },
    ];
    assert_eq!(choose_value(&replies, "initial"), "initial");
}

#[test]
fn scenario_stale_accept_rejected() {
    // the acceptor promised (2,1) and already holds an accepted proposal;
    // an accept bearing the older version (1,1) must be turned away
    let mut acc: Acceptor<&str> = Acceptor::new();
    assert!(acc.prepare(ver(2, 1)).promised);
    assert_eq!(acc.accept(Proposal { version: ver(2, 1), value: "A" }), Some(ver(2, 1)));

    let result = acc.accept(Proposal { version: ver(1, 1), value: "B" });
    // the returned version stays what the acceptor already held: a
    // well-defined mismatch, not an error
    assert_eq!(result, Some(ver(2, 1)));
    assert_ne!(result, Some(ver(1, 1)));
    // and the held value is untouched
    assert_eq!(
        acc.prepare(ver(3, 1)).previously_accepted,
        Some(Proposal { version: ver(2, 1), value: "A" })
    );
}

#[test]
fn scenario_stale_accept_rejected_when_nothing_held() {
    let mut acc: Acceptor<&str> = Acceptor::new();
    assert!(acc.prepare(ver(2, 1)).promised);
    assert_eq!(acc.accept(Proposal { version: ver(1, 1), value: "B" }), None);
}

#[test]
fn scenario_round_overflow() {
    // round bound 1: after round 1 fails its quorum, advancing the round
    // must fail with the fatal configuration error, not wrap
    let mut blocked: Vec<Acceptor<&str>> = Vec::new();
    for _ in 0..3 {
        let mut acc = Acceptor::new();
        assert!(acc.prepare(ver(7, 9)).promised);
        blocked.push(acc);
    }
    let mut proposer = Proposer::new(1, blocked, 1, 5);
    assert_eq!(proposer.run("X"), Err(RunError::RoundOverflow));
}

#[test]
fn next_version_overflow_is_fatal() {
    let mut proposer: Proposer<&str> = Proposer::new(4, Vec::new(), 1, 1);
    assert_eq!(proposer.next_version(), Ok(ver(1, 4)));
    assert_eq!(proposer.next_version(), Err(RunError::RoundOverflow));
}

#[test]
fn retry_budget_exhaustion_is_terminal() {
    // acceptors promised far ahead: every round fails its quorum until the
    // attempt budget runs out
    let mut blocked: Vec<Acceptor<&str>> = Vec::new();
    for _ in 0..3 {
        let mut acc = Acceptor::new();
        assert!(acc.prepare(ver(50, 2)).promised);
        blocked.push(acc);
    }
    let mut proposer = Proposer::new(1, blocked, 10, 4);
    assert_eq!(proposer.run("X"), Err(RunError::RoundLimitExceeded));
}

#[test]
fn quorum_needs_majority_not_just_one_response() {
    // two of five acceptors promised away; three promise: exactly a
    // majority, so the round commits
    let mut accs: Vec<Acceptor<&str>> = Vec::new();
    for k in 0..5 {
        let mut acc = Acceptor::new();
        if k < 2 {
            assert!(acc.prepare(ver(9, 9)).promised);
        }
        accs.push(acc);
    }
    let mut proposer = Proposer::new(1, accs, 100, 1);
    let committed = proposer.run("X").unwrap();
    assert_eq!(committed.value, "X");

    // but with three of five promised away, one response short of a
    // majority, the round must fail
    let mut accs: Vec<Acceptor<&str>> = Vec::new();
    for k in 0..5 {
        let mut acc = Acceptor::new();
        if k < 3 {
            assert!(acc.prepare(ver(9, 9)).promised);
        }
        accs.push(acc);
    }
    let mut proposer = Proposer::new(1, accs, 100, 1);
    assert_eq!(proposer.run("X"), Err(RunError::RoundLimitExceeded));
}

#[test]
fn rerun_keeps_committed_value() {
    // once a value is committed, a later round by the same proposer with a
    // different initial value re-adopts the committed one
    let accs: Vec<Acceptor<&str>> = vec![Acceptor::new(), Acceptor::new(), Acceptor::new()];
    let mut proposer = Proposer::new(1, accs, 100, 3);
    assert_eq!(proposer.run("X").unwrap().value, "X");
    let second = proposer.run("Y").unwrap();
    assert_eq!(second.value, "X");
    assert_eq!(second.version, ver(2, 1));
}

#[test]
fn empty_acceptor_set_never_commits() {
    // zero configured acceptors: no strict majority can ever form
    let mut proposer: Proposer<&str> = Proposer::new(1, Vec::new(), 10, 3);
    assert_eq!(proposer.run("X"), Err(RunError::RoundLimitExceeded));
}

#[test]
fn single_acceptor_is_its_own_majority() {
    let accs: Vec<Acceptor<&str>> = vec![Acceptor::new()];
    let mut proposer = Proposer::new(1, accs, 10, 1);
    let committed = proposer.run("X").unwrap();
    assert_eq!(committed.value, "X");
    assert_eq!(committed.version, ver(1, 1));
}

#[test]
fn round_space_top_is_usable() {
    // the whole round space up to the bound is usable; only passing the
    // bound is the fatal error
    let mut proposer: Proposer<&str> = Proposer::new(3, Vec::new(), u64::MAX, 1);
    assert_eq!(proposer.next_version(), Ok(ver(1, 3)));
}
