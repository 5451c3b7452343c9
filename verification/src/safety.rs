//! The agreement argument: under any interleaving of prepare, accept and
//! issue steps by any number of proposers against a fixed acceptor set, at
//! most one value is ever chosen.
//!
//! The model mirrors the running code: an acceptor's promise moves by the
//! same `prepare_promise` function its contract is stated with, and a vote
//! is cast under exactly the guard of `accept` — the proposal's version
//! must equal the current promise. The model additionally records every
//! vote an acceptor ever cast (the running acceptor keeps only the latest)
//! and the set of proposals issued into accept phases, and it constrains
//! issuing by what a prepare quorum shows a proposer that follows the
//! value-adoption rule.

use vstd::prelude::*;
use vstd::set_lib::lemma_int_range;
use vstd::set_lib::lemma_len_subset;
use vstd::set_lib::lemma_set_intersect_union_lens;
use vstd::set_lib::set_int_range;

use crate::acceptor::Acceptor;
use crate::acceptor::Proposal;
use crate::acceptor::prepare_promise;
use crate::acceptor::prepare_reply_of;
use crate::proposer::accepted_is_pred;
use crate::proposer::adoption_witnessed;
use crate::proposer::adopts;
use crate::proposer::all_wf;
use crate::proposer::any_reported;
use crate::proposer::committed;
use crate::proposer::count_matching;
use crate::proposer::evolved_before;
use crate::proposer::lemma_count_matching_set;
use crate::proposer::matching_set;
use crate::proposer::promised_pred;
use crate::proposer::replies_of;
use crate::proposer::reported;
use crate::proposer::spec_majority;
use crate::version::Version;
use crate::version::promise_le;

verus! {

/// One acceptor as the agreement argument sees it: its current promise and
/// the record of every proposal it ever accepted.
#[verifier::reject_recursive_types(V)]
pub struct VoterState<V> {
    pub promised: Option<Version>,
    pub votes: Set<Proposal<V>>,
}

/// A global protocol state: the fixed acceptor array and the set of
/// proposals that proposers have issued into their accept phases.
#[verifier::reject_recursive_types(V)]
pub struct Protocol<V> {
    pub voters: Seq<VoterState<V>>,
    pub issued: Set<Proposal<V>>,
}

/// A quorum: a set of acceptor indices forming a strict majority of the
/// configured count `n` — always measured against `n` itself.
pub open spec fn is_quorum(q: Set<int>, n: nat) -> bool {
    &&& q.finite()
    &&& q.subset_of(set_int_range(0, n as int))
    &&& q.len() >= spec_majority(n)
}

/// Two strict majorities of the same configured set always share a member:
/// the quorum-intersection fact the whole agreement property rests on.
pub proof fn lemma_quorums_overlap(q1: Set<int>, q2: Set<int>, n: nat)
    requires
        is_quorum(q1, n),
        is_quorum(q2, n),
    ensures
        exists|i: int| q1.contains(i) && q2.contains(i),
{
    lemma_int_range(0, n as int);
    if !(exists|i: int| q1.contains(i) && q2.contains(i)) {
        assert forall|x: int| !(#[trigger] q1.intersect(q2).contains(x)) by {
            if q1.contains(x) && q2.contains(x) {
                assert(exists|i: int| q1.contains(i) && q2.contains(i));
            }
        }
        assert(q1.intersect(q2) =~= Set::empty());
        lemma_set_intersect_union_lens(q1, q2);
        assert((q1 + q2).subset_of(set_int_range(0, n as int)));
        lemma_len_subset(q1 + q2, set_int_range(0, n as int));
        assert(false);
    }
}

/// Acceptor `i` handles `prepare(version)`: its promise moves exactly as
/// the running acceptor's contract says; votes and issued proposals do not
/// change.
pub open spec fn prepare_step<V>(s: Protocol<V>, s2: Protocol<V>, i: int, version: Version) -> bool {
    &&& 0 <= i < s.voters.len()
    &&& s2.issued == s.issued
    &&& s2.voters == s.voters.update(
        i,
        (VoterState {
            promised: prepare_promise(s.voters[i].promised, version),
            votes: s.voters[i].votes,
        }),
    )
}

/// Acceptor `i` handles an accept of `p` and stores it: under the running
/// acceptor's guard — the proposal's version equals the current promise —
/// and with the vote recorded. Only issued proposals are ever submitted.
pub open spec fn vote_step<V>(s: Protocol<V>, s2: Protocol<V>, i: int, p: Proposal<V>) -> bool {
    &&& 0 <= i < s.voters.len()
    &&& s.issued.contains(p)
    &&& s.voters[i].promised == Option::Some(p.version)
    &&& s2.issued == s.issued
    &&& s2.voters == s.voters.update(
        i,
        (VoterState { promised: s.voters[i].promised, votes: s.voters[i].votes.insert(p) }),
    )
}

/// The voter's promise stands at `version` or higher.
pub open spec fn promised_at_least<V>(a: VoterState<V>, version: Version) -> bool {
    a.promised matches Option::Some(pv) && version.spec_le(pv)
}

/// What a prepare quorum shows a proposer at the moment it issues proposal
/// `p`, having followed the value-adoption rule on the quorum's replies:
/// every member has promised at least `p.version`; when no member reported
/// a prior acceptance below `p.version`, no such vote exists in the quorum;
/// and otherwise `prior` is the highest-versioned prior acceptance reported
/// by the quorum, and `p` carries its value.
pub open spec fn issue_evidence<V>(
    s: Protocol<V>,
    q: Set<int>,
    prior: Option<Proposal<V>>,
    p: Proposal<V>,
) -> bool {
    &&& is_quorum(q, s.voters.len())
    &&& forall|i: int| #[trigger] q.contains(i) ==> promised_at_least(s.voters[i], p.version)
    &&& match prior {
        Option::None => forall|i: int, w: Proposal<V>|
            #[trigger] q.contains(i) && #[trigger] s.voters[i].votes.contains(w)
                ==> !w.version.spec_lt(p.version),
        Option::Some(pr) => {
            &&& pr.version.spec_lt(p.version)
            &&& p.value == pr.value
            &&& exists|i: int| #[trigger] q.contains(i) && s.voters[i].votes.contains(pr)
            &&& forall|i: int, w: Proposal<V>|
                #[trigger] q.contains(i) && #[trigger] s.voters[i].votes.contains(w)
                    && w.version.spec_lt(p.version) ==> w.version.spec_le(pr.version)
        },
    }
}

/// A proposer issues proposal `p` into its accept phase: `p`'s version is
/// fresh — the version-uniqueness invariant of the version scheme — and
/// some prepare quorum showed the adoption rule's evidence for `p`.
pub open spec fn issue_step<V>(s: Protocol<V>, s2: Protocol<V>, p: Proposal<V>) -> bool {
    &&& forall|q0: Proposal<V>| #[trigger] s.issued.contains(q0) ==> q0.version != p.version
    &&& exists|q: Set<int>, prior: Option<Proposal<V>>| issue_evidence(s, q, prior, p)
    &&& s2.voters == s.voters
    &&& s2.issued == s.issued.insert(p)
}

/// The initial state: no promises, no votes, nothing issued.
pub open spec fn init<V>(s: Protocol<V>) -> bool {
    &&& s.issued == Set::<Proposal<V>>::empty()
    &&& forall|i: int|
        0 <= i < s.voters.len() ==> s.voters[i] == (VoterState {
            promised: Option::<Version>::None,
            votes: Set::<Proposal<V>>::empty(),
        })
}

/// One protocol step: some acceptor handles a prepare or an accept, or
/// some proposer issues a proposal.
pub open spec fn next<V>(s: Protocol<V>, s2: Protocol<V>) -> bool {
    ||| exists|i: int, version: Version| prepare_step(s, s2, i, version)
    ||| exists|i: int, p: Proposal<V>| vote_step(s, s2, i, p)
    ||| exists|p: Proposal<V>| issue_step(s, s2, p)
}

/// The voter cast a vote for value `value` under version `w`.
pub open spec fn voted_for<V>(a: VoterState<V>, w: Version, value: V) -> bool {
    a.votes.contains(Proposal { version: w, value })
}

/// The voter can no longer vote at version `w`: it promised higher and
/// holds no vote there, and a vote requires the promise to equal the
/// version — so none can appear later either.
pub open spec fn cannot_vote_at<V>(a: VoterState<V>, w: Version) -> bool {
    &&& (a.promised matches Option::Some(pv) && w.spec_lt(pv))
    &&& forall|x: Proposal<V>| #[trigger] a.votes.contains(x) ==> x.version != w
}

/// Quorum `q` shows value `value` safe at version `w`: each member either
/// voted for `(w, value)` or can no longer vote at `w` at all.
pub open spec fn quorum_shows_safe<V>(s: Protocol<V>, q: Set<int>, w: Version, value: V) -> bool {
    &&& is_quorum(q, s.voters.len())
    &&& forall|i: int|
        #[trigger] q.contains(i) ==> voted_for(s.voters[i], w, value) || cannot_vote_at(
            s.voters[i],
            w,
        )
}

/// Value `value` is safe at version `ver`: at every lower version some
/// quorum shows it safe, so no other value can be or become chosen there.
pub open spec fn safe_at<V>(s: Protocol<V>, ver: Version, value: V) -> bool {
    forall|w: Version|
        #[trigger] w.spec_lt(ver) ==> exists|q: Set<int>| quorum_shows_safe(s, q, w, value)
}

/// The inductive invariant: versions identify issued proposals uniquely,
/// every vote is for an issued proposal, and every issued proposal is safe
/// at its version.
pub open spec fn inv<V>(s: Protocol<V>) -> bool {
    &&& forall|p: Proposal<V>, q: Proposal<V>|
        #[trigger] s.issued.contains(p) && #[trigger] s.issued.contains(q) && p.version
            == q.version ==> p == q
    &&& forall|i: int, p: Proposal<V>|
        0 <= i < s.voters.len() && #[trigger] s.voters[i].votes.contains(p) ==> s.issued.contains(
            p,
        )
    &&& forall|p: Proposal<V>| #[trigger] s.issued.contains(p) ==> safe_at(s, p.version, p.value)
}

/// Value `value` is chosen at version `ver`: a whole quorum voted for it —
/// the commit point of the protocol.
pub open spec fn chosen_at<V>(s: Protocol<V>, ver: Version, value: V) -> bool {
    exists|c: Set<int>|
        is_quorum(c, s.voters.len()) && (forall|i: int|
            #[trigger] c.contains(i) ==> voted_for(s.voters[i], ver, value))
}

/// The commit point of the running proposer is the model's choosing:
/// where a strict majority of the running acceptors hold `p` accepted, and
/// each voter of the model state records its acceptor's accepted proposal
/// among its votes, value `p.value` is chosen at `p.version`.
pub proof fn lemma_committed_is_chosen<V>(
    accs: Seq<Acceptor<V>>,
    s: Protocol<V>,
    p: Proposal<V>,
)
    requires
        s.voters.len() == accs.len(),
        forall|i: int|
            0 <= i < accs.len() ==> match #[trigger] accs[i].accepted() {
                Option::Some(x) => s.voters[i].votes.contains(x),
                Option::None => true,
            },
        committed(accs, p),
    ensures
        chosen_at(s, p.version, p.value),
{
    let pred = accepted_is_pred::<V>(p);
    let c = matching_set(accs, pred);
    lemma_count_matching_set(accs, pred);
    assert(c.subset_of(set_int_range(0, s.voters.len() as int)));
    assert(is_quorum(c, s.voters.len()));
    assert forall|i: int| #[trigger] c.contains(i) implies voted_for(s.voters[i], p.version, p.value) by {
        assert(accs[i].accepted() == Option::Some(p));
        assert(p == (Proposal { version: p.version, value: p.value }));
    }
}

/// Run-level agreement from a snapshot: suppose value `v` already stands
/// committed on a strict majority of the acceptors under version `cver`,
/// `cver` is the newest acceptance anywhere, and — as the version scheme
/// guarantees — every acceptance at `cver` carries `v`. Then any proposal
/// issued by the book over these acceptors, which is what `run`'s contract
/// guarantees of everything it commits, carries `v` as well: the run
/// re-proposes the committed value, never another.
pub proof fn lemma_witnessed_keeps_committed_value<V>(
    orig: Seq<Acceptor<V>>,
    id: u64,
    round0: u64,
    cver: Version,
    v: V,
    p: Proposal<V>,
    initial_value: V,
)
    requires
        all_wf(orig),
        committed(orig, (Proposal { version: cver, value: v })),
        forall|j: int|
            0 <= j < orig.len() ==> match #[trigger] orig[j].accepted() {
                Option::Some(q) => q.version.spec_le(cver),
                Option::None => true,
            },
        forall|j: int|
            0 <= j < orig.len() ==> match #[trigger] orig[j].accepted() {
                Option::Some(q) => q.version == cver ==> q.value == v,
                Option::None => true,
            },
        adoption_witnessed(orig, id, round0, p, initial_value),
    ensures
        p.value == v,
    decreases p.version.round,
{
    let n = orig.len();
    let cprop = Proposal { version: cver, value: v };
    let mid = choose|mid: Seq<Acceptor<V>>|
        #[trigger] evolved_before(orig, mid, id, round0, p, initial_value)
            && (forall|j: int|
            #![trigger mid[j].accepted()]
            0 <= j < mid.len() && mid[j].accepted() != orig[j].accepted()
                ==> adoption_witnessed(orig, id, round0, mid[j].accepted()->0, initial_value))
            && count_matching(replies_of(mid, p.version), promised_pred::<V>())
            >= spec_majority(n) && adopts(replies_of(mid, p.version), initial_value, p.value);
    let replies = replies_of(mid, p.version);
    // the promising replies and the committing acceptors are both quorums
    let cset = matching_set(orig, accepted_is_pred::<V>(cprop));
    lemma_count_matching_set(orig, accepted_is_pred::<V>(cprop));
    assert(is_quorum(cset, n));
    let qset = matching_set(replies, promised_pred::<V>());
    lemma_count_matching_set(replies, promised_pred::<V>());
    assert(is_quorum(qset, n));
    lemma_quorums_overlap(qset, cset, n);
    let i = choose|i: int| qset.contains(i) && cset.contains(i);
    // acceptor i committed (cver, v), so whatever it reports carries v at
    // a version no lower than cver
    assert(orig[i].accepted() == Option::Some(cprop));
    assert(replies[i] == prepare_reply_of(mid[i].promised(), mid[i].accepted(), p.version));
    let xi = mid[i].accepted()->0;
    if mid[i].accepted() != orig[i].accepted() {
        lemma_witnessed_keeps_committed_value(orig, id, round0, cver, v, xi, initial_value);
        assert(promise_le(orig[i].promised(), Option::Some(xi.version)));
    }
    assert(mid[i].accepted() is Some && xi.value == v && cver.spec_le(xi.version));
    assert(reported(replies, xi));
    // the adoption rule picked the highest reported proposal, which thus
    // stands at cver or above; it too carries v
    assert(any_reported(replies));
    let best = choose|best: Proposal<V>|
        #[trigger] reported(replies, best) && best.value == p.value && (forall|q: Proposal<V>|
            #[trigger] reported(replies, q) ==> q.version.spec_le(best.version));
    assert(cver.spec_le(best.version));
    let k = choose|k: int|
        0 <= k < replies.len() && replies[k].promised && replies[k].previously_accepted
            == Option::Some(best);
    assert(mid[k].accepted() == Option::Some(best));
    if mid[k].accepted() == orig[k].accepted() {
        assert(best.version.spec_le(cver));
        assert(best.version == cver);
    } else {
        lemma_witnessed_keeps_committed_value(orig, id, round0, cver, v, best, initial_value);
    }
}

/// An initial state satisfies the invariant.
pub proof fn lemma_init_inv<V>(s: Protocol<V>)
    requires
        init(s),
    ensures
        inv(s),
{
}

/// A step that removes no vote, lowers no promise, and adds votes only at
/// the exact version the old promise stood at preserves every safety
/// quorum, and with it `safe_at`.
proof fn lemma_safe_at_stable<V>(s: Protocol<V>, s2: Protocol<V>, ver: Version, value: V)
    requires
        safe_at(s, ver, value),
        s2.voters.len() == s.voters.len(),
        forall|i: int, x: Proposal<V>|
            0 <= i < s.voters.len() && #[trigger] s.voters[i].votes.contains(x)
                ==> s2.voters[i].votes.contains(x),
        forall|i: int|
            0 <= i < s.voters.len() ==> promise_le(s.voters[i].promised, s2.voters[i].promised),
        forall|i: int, x: Proposal<V>|
            0 <= i < s.voters.len() && #[trigger] s2.voters[i].votes.contains(x)
                && !s.voters[i].votes.contains(x) ==> s.voters[i].promised == Option::Some(
                x.version,
            ),
    ensures
        safe_at(s2, ver, value),
{
    assert forall|w: Version| #[trigger]
        w.spec_lt(ver) implies exists|q: Set<int>| quorum_shows_safe(s2, q, w, value) by {
        let q = choose|q: Set<int>| quorum_shows_safe(s, q, w, value);
        assert forall|i: int| #[trigger]
            q.contains(i) implies voted_for(s2.voters[i], w, value) || cannot_vote_at(
            s2.voters[i],
            w,
        ) by {
            assert(set_int_range(0, s.voters.len() as int).contains(i));
            if voted_for(s.voters[i], w, value) {
                assert(voted_for(s2.voters[i], w, value));
            } else {
                assert(cannot_vote_at(s.voters[i], w));
                assert forall|x: Proposal<V>| #[trigger]
                    s2.voters[i].votes.contains(x) implies x.version != w by {
                    if !s.voters[i].votes.contains(x) {
                        assert(s.voters[i].promised == Option::Some(x.version));
                    }
                }
                assert(cannot_vote_at(s2.voters[i], w));
            }
        }
        assert(quorum_shows_safe(s2, q, w, value));
    }
}

/// A prepare step preserves the invariant.
proof fn lemma_prepare_inv<V>(s: Protocol<V>, s2: Protocol<V>, i: int, version: Version)
    requires
        inv(s),
        prepare_step(s, s2, i, version),
    ensures
        inv(s2),
{
    assert forall|p: Proposal<V>| #[trigger]
        s2.issued.contains(p) implies safe_at(s2, p.version, p.value) by {
        lemma_safe_at_stable(s, s2, p.version, p.value);
    }
}

/// A vote step preserves the invariant.
proof fn lemma_vote_inv<V>(s: Protocol<V>, s2: Protocol<V>, i: int, p: Proposal<V>)
    requires
        inv(s),
        vote_step(s, s2, i, p),
    ensures
        inv(s2),
{
    assert forall|p2: Proposal<V>| #[trigger]
        s2.issued.contains(p2) implies safe_at(s2, p2.version, p2.value) by {
        lemma_safe_at_stable(s, s2, p2.version, p2.value);
    }
}

/// At the moment of issuing, the quorum evidence together with the
/// invariant makes the new proposal safe at its version.
proof fn lemma_issue_safe<V>(s: Protocol<V>, p: Proposal<V>)
    requires
        inv(s),
        exists|q: Set<int>, prior: Option<Proposal<V>>| issue_evidence(s, q, prior, p),
    ensures
        safe_at(s, p.version, p.value),
{
    let (q, prior) = choose|q: Set<int>, prior: Option<Proposal<V>>| issue_evidence(s, q, prior, p);
    assert forall|w: Version| #[trigger]
        w.spec_lt(p.version) implies exists|qq: Set<int>| quorum_shows_safe(s, qq, w, p.value) by {
        match prior {
            Option::None => {
                assert forall|i: int| #[trigger]
                    q.contains(i) implies voted_for(s.voters[i], w, p.value) || cannot_vote_at(
                    s.voters[i],
                    w,
                ) by {
                    assert(promised_at_least(s.voters[i], p.version));
                    assert forall|x: Proposal<V>| #[trigger]
                        s.voters[i].votes.contains(x) implies x.version != w by {
                        assert(!x.version.spec_lt(p.version));
                    }
                    assert(cannot_vote_at(s.voters[i], w));
                }
                assert(quorum_shows_safe(s, q, w, p.value));
            },
            Option::Some(pr) => {
                if w.spec_lt(pr.version) {
                    // below the reported maximum: the quorum that made the
                    // prior proposal safe covers w, and values agree
                    let j = choose|j: int|
                        #[trigger] q.contains(j) && s.voters[j].votes.contains(pr);
                    assert(set_int_range(0, s.voters.len() as int).contains(j));
                    assert(s.issued.contains(pr));
                    assert(safe_at(s, pr.version, pr.value));
                    let qq = choose|qq: Set<int>| quorum_shows_safe(s, qq, w, pr.value);
                    assert(quorum_shows_safe(s, qq, w, p.value));
                } else {
                    // at or between the reported maximum and the new
                    // version: the prepare quorum itself shows safety
                    assert forall|i: int| #[trigger]
                        q.contains(i) implies voted_for(s.voters[i], w, p.value) || cannot_vote_at(
                        s.voters[i],
                        w,
                    ) by {
                        assert(promised_at_least(s.voters[i], p.version));
                        assert(set_int_range(0, s.voters.len() as int).contains(i));
                        if w == pr.version {
                            if exists|x: Proposal<V>|
                                #[trigger] s.voters[i].votes.contains(x) && x.version == w {
                                let x = choose|x: Proposal<V>|
                                    #[trigger] s.voters[i].votes.contains(x) && x.version == w;
                                let j = choose|j: int|
                                    #[trigger] q.contains(j) && s.voters[j].votes.contains(pr);
                                assert(set_int_range(0, s.voters.len() as int).contains(j));
                                assert(s.issued.contains(x));
                                assert(s.issued.contains(pr));
                                assert(x == pr);
                                assert(voted_for(s.voters[i], w, p.value));
                            } else {
                                assert(cannot_vote_at(s.voters[i], w));
                            }
                        } else {
                            // strictly between: any vote below the new
                            // version is bounded by the reported maximum
                            assert(pr.version.spec_lt(w));
                            assert forall|x: Proposal<V>| #[trigger]
                                s.voters[i].votes.contains(x) implies x.version != w by {
                                if x.version.spec_lt(p.version) {
                                    assert(x.version.spec_le(pr.version));
                                }
                            }
                            assert(cannot_vote_at(s.voters[i], w));
                        }
                    }
                    assert(quorum_shows_safe(s, q, w, p.value));
                }
            },
        }
    }
}

/// An issue step preserves the invariant.
proof fn lemma_issue_inv<V>(s: Protocol<V>, s2: Protocol<V>, p: Proposal<V>)
    requires
        inv(s),
        issue_step(s, s2, p),
    ensures
        inv(s2),
{
    lemma_issue_safe(s, p);
    assert forall|p2: Proposal<V>| #[trigger]
        s2.issued.contains(p2) implies safe_at(s2, p2.version, p2.value) by {
        if p2 == p {
            lemma_safe_at_stable(s, s2, p.version, p.value);
        } else {
            assert(s.issued.contains(p2));
            lemma_safe_at_stable(s, s2, p2.version, p2.value);
        }
    }
}

/// Every protocol step preserves the invariant.
pub proof fn lemma_next_inv<V>(s: Protocol<V>, s2: Protocol<V>)
    requires
        inv(s),
        next(s, s2),
    ensures
        inv(s2),
{
    if exists|i: int, version: Version| prepare_step(s, s2, i, version) {
        let (i, version) = choose|i: int, version: Version| prepare_step(s, s2, i, version);
        lemma_prepare_inv(s, s2, i, version);
    } else if exists|i: int, p: Proposal<V>| vote_step(s, s2, i, p) {
        let (i, p) = choose|i: int, p: Proposal<V>| vote_step(s, s2, i, p);
        lemma_vote_inv(s, s2, i, p);
    } else {
        let p = choose|p: Proposal<V>| issue_step(s, s2, p);
        lemma_issue_inv(s, s2, p);
    }
}

/// Agreement for ordered versions: under the invariant, a value chosen at
/// a lower version forces any value chosen at a higher version to equal it.
proof fn lemma_agreement_ordered<V>(s: Protocol<V>, v1: Version, a: V, v2: Version, b: V)
    requires
        inv(s),
        chosen_at(s, v1, a),
        chosen_at(s, v2, b),
        v1.spec_lt(v2),
    ensures
        a == b,
{
    let n = s.voters.len();
    let c2 = choose|c: Set<int>|
        is_quorum(c, n) && (forall|i: int| #[trigger] c.contains(i) ==> voted_for(s.voters[i], v2, b));
    if !(exists|j: int| c2.contains(j)) {
        assert forall|j: int| !(#[trigger] c2.contains(j)) by {}
        assert(c2 =~= Set::empty());
        assert(false);
    }
    let j = choose|j: int| c2.contains(j);
    assert(set_int_range(0, n as int).contains(j));
    assert(voted_for(s.voters[j], v2, b));
    assert(s.issued.contains(Proposal { version: v2, value: b }));
    assert(safe_at(s, v2, b));
    let q = choose|q: Set<int>| quorum_shows_safe(s, q, v1, b);
    let c1 = choose|c: Set<int>|
        is_quorum(c, n) && (forall|i: int| #[trigger] c.contains(i) ==> voted_for(s.voters[i], v1, a));
    lemma_quorums_overlap(q, c1, n);
    let i = choose|i: int| q.contains(i) && c1.contains(i);
    assert(set_int_range(0, n as int).contains(i));
    assert(voted_for(s.voters[i], v1, a));
    assert(voted_for(s.voters[i], v1, b) || cannot_vote_at(s.voters[i], v1));
    assert(voted_for(s.voters[i], v1, b));
    assert(s.issued.contains(Proposal { version: v1, value: a }));
    assert(s.issued.contains(Proposal { version: v1, value: b }));
}

/// Agreement in one state: under the invariant, two chosen values are
/// equal, whatever their versions.
pub proof fn lemma_agreement<V>(s: Protocol<V>, v1: Version, a: V, v2: Version, b: V)
    requires
        inv(s),
        chosen_at(s, v1, a),
        chosen_at(s, v2, b),
    ensures
        a == b,
{
    if v1.spec_lt(v2) {
        lemma_agreement_ordered(s, v1, a, v2, b);
    } else if v2.spec_lt(v1) {
        lemma_agreement_ordered(s, v2, b, v1, a);
    } else {
        assert(v1 == v2);
        let n = s.voters.len();
        let c1 = choose|c: Set<int>|
            is_quorum(c, n) && (forall|i: int| #[trigger] c.contains(i) ==> voted_for(
                s.voters[i],
                v1,
                a,
            ));
        let c2 = choose|c: Set<int>|
            is_quorum(c, n) && (forall|i: int| #[trigger] c.contains(i) ==> voted_for(
                s.voters[i],
                v2,
                b,
            ));
        lemma_quorums_overlap(c1, c2, n);
        let i = choose|i: int| c1.contains(i) && c2.contains(i);
        assert(set_int_range(0, n as int).contains(i));
        assert(voted_for(s.voters[i], v1, a));
        assert(voted_for(s.voters[i], v1, b));
        assert(s.issued.contains(Proposal { version: v1, value: a }));
        assert(s.issued.contains(Proposal { version: v1, value: b }));
    }
}

/// A behavior: a sequence of states that starts initial and moves by
/// protocol steps.
pub open spec fn behavior<V>(tr: Seq<Protocol<V>>) -> bool {
    &&& tr.len() > 0
    &&& init(tr[0])
    &&& forall|k: int| 0 <= k < tr.len() - 1 ==> next(tr[k], #[trigger] tr[k + 1])
}

/// Every state of a behavior satisfies the invariant.
pub proof fn lemma_behavior_inv<V>(tr: Seq<Protocol<V>>, k: int)
    requires
        behavior(tr),
        0 <= k < tr.len(),
    ensures
        inv(tr[k]),
    decreases k,
{
    if k == 0 {
        lemma_init_inv(tr[0]);
    } else {
        lemma_behavior_inv(tr, k - 1);
        assert(tr[(k - 1) + 1] == tr[k]);
        lemma_next_inv(tr[k - 1], tr[k]);
    }
}

/// Once chosen, always chosen: no step removes a vote.
proof fn lemma_chosen_stable<V>(s: Protocol<V>, s2: Protocol<V>, ver: Version, value: V)
    requires
        next(s, s2),
        chosen_at(s, ver, value),
    ensures
        chosen_at(s2, ver, value),
{
    let n = s.voters.len();
    let c = choose|c: Set<int>|
        is_quorum(c, n) && (forall|i: int| #[trigger] c.contains(i) ==> voted_for(
            s.voters[i],
            ver,
            value,
        ));
    assert(s2.voters.len() == n);
    assert forall|i: int| #[trigger] c.contains(i) implies voted_for(s2.voters[i], ver, value) by {
        assert(set_int_range(0, n as int).contains(i));
    }
    assert(is_quorum(c, s2.voters.len()));
}

/// Safety — single-decree agreement: along any behavior of the protocol,
/// whatever the interleaving of prepare, accept and issue steps by any
/// number of proposers, if a value is ever chosen under one version and a
/// value is ever chosen under another, they are the same value.
pub proof fn theorem_agreement<V>(
    tr: Seq<Protocol<V>>,
    k1: int,
    v1: Version,
    a: V,
    k2: int,
    v2: Version,
    b: V,
)
    requires
        behavior(tr),
        0 <= k1 < tr.len(),
        0 <= k2 < tr.len(),
        chosen_at(tr[k1], v1, a),
        chosen_at(tr[k2], v2, b),
    ensures
        a == b,
{
    let k = if k1 >= k2 { k1 } else { k2 };
    lemma_chosen_carries(tr, k1, k, v1, a);
    lemma_chosen_carries(tr, k2, k, v2, b);
    lemma_behavior_inv(tr, k);
    lemma_agreement(tr[k], v1, a, v2, b);
}

/// A chosen value stays chosen along the rest of the behavior.
proof fn lemma_chosen_carries<V>(tr: Seq<Protocol<V>>, k: int, k2: int, ver: Version, value: V)
    requires
        behavior(tr),
        0 <= k <= k2 < tr.len(),
        chosen_at(tr[k], ver, value),
    ensures
        chosen_at(tr[k2], ver, value),
    decreases k2 - k,
{
    if k < k2 {
        lemma_chosen_stable(tr[k], tr[k + 1], ver, value);
        lemma_chosen_carries(tr, k + 1, k2, ver, value);
    }
}

} // verus!
