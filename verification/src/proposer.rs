//! The proposer: the active driver that runs two-phase rounds against a
//! fixed set of acceptors, computing quorums and adopting values.

use vstd::prelude::*;

use crate::acceptor::Acceptor;
use crate::acceptor::PrepareReply;
use crate::acceptor::accept_accepted;
use crate::acceptor::prepare_promise;
use crate::acceptor::prepare_reply_of;
use crate::acceptor::Proposal;
use crate::version::Version;
use crate::version::promise_le;

verus! {

/// Strict majority of `n` participants: the least count greater than `n / 2`.
pub open spec fn spec_majority(n: nat) -> nat {
    n / 2 + 1
}

/// Computes the strict-majority threshold for `n` configured acceptors.
/// A quorum is always measured against the full configured count, never
/// against the number of responses received.
pub fn majority(n: usize) -> (m: usize)
    ensures
        m == spec_majority(n as nat),
{
    n / 2 + 1
}

/// How many elements of `s` satisfy `pred`.
pub open spec fn count_matching<A>(s: Seq<A>, pred: spec_fn(A) -> bool) -> nat
    decreases s.len(),
{
    if s.len() == 0 {
        0
    } else {
        count_matching(s.drop_last(), pred) + if pred(s.last()) {
            1nat
        } else {
            0nat
        }
    }
}

/// Counting is pointwise monotone: where every element of `s1` that
/// satisfies `p1` stands beside an element of `s2` satisfying `p2`, the
/// first count cannot exceed the second.
pub proof fn lemma_count_matching_le<A, B>(
    s1: Seq<A>,
    s2: Seq<B>,
    p1: spec_fn(A) -> bool,
    p2: spec_fn(B) -> bool,
)
    requires
        s1.len() == s2.len(),
        forall|j: int| 0 <= j < s1.len() && p1(s1[j]) ==> p2(s2[j]),
    ensures
        count_matching(s1, p1) <= count_matching(s2, p2),
    decreases s1.len(),
{
    if s1.len() != 0 {
        lemma_count_matching_le(s1.drop_last(), s2.drop_last(), p1, p2);
    }
}

/// Counting is pointwise congruent: elementwise equivalent predicates over
/// equally long sequences count the same.
pub proof fn lemma_count_matching_eq<A, B>(
    s1: Seq<A>,
    s2: Seq<B>,
    p1: spec_fn(A) -> bool,
    p2: spec_fn(B) -> bool,
)
    requires
        s1.len() == s2.len(),
        forall|j: int| 0 <= j < s1.len() ==> p1(s1[j]) == p2(s2[j]),
    ensures
        count_matching(s1, p1) == count_matching(s2, p2),
{
    lemma_count_matching_le(s1, s2, p1, p2);
    lemma_count_matching_le(s2, s1, p2, p1);
}

/// The acceptor's promise does not bar `version`: a prepare request for
/// `version` would be promised.
pub open spec fn promise_open<V>(a: Acceptor<V>, version: Version) -> bool {
    match a.promised() {
        Option::None => true,
        Option::Some(pv) => pv.spec_le(version),
    }
}

/// The predicate picking the promising replies.
pub open spec fn promised_pred<V>() -> spec_fn(PrepareReply<V>) -> bool {
    |rp: PrepareReply<V>| rp.promised
}

/// The predicate picking the acceptors whose promise stands exactly at
/// `version`.
pub open spec fn promised_at_pred<V>(version: Version) -> spec_fn(Acceptor<V>) -> bool {
    |a: Acceptor<V>| a.promised() == Option::<Version>::Some(version)
}

/// The predicate picking the acceptors that hold `proposal` accepted.
pub open spec fn accepted_is_pred<V>(proposal: Proposal<V>) -> spec_fn(Acceptor<V>) -> bool {
    |a: Acceptor<V>| a.accepted() == Option::Some(proposal)
}

/// The predicate picking the acceptors whose promise does not bar `version`.
pub open spec fn promise_open_pred<V>(version: Version) -> spec_fn(Acceptor<V>) -> bool {
    |a: Acceptor<V>| promise_open(a, version)
}

/// The set of indices at which `s` satisfies `pred`.
pub open spec fn matching_set<A>(s: Seq<A>, pred: spec_fn(A) -> bool) -> Set<int> {
    Set::new(|i: int| 0 <= i < s.len() && pred(s[i]))
}

/// Counting the matching elements measures the set of matching indices.
pub proof fn lemma_count_matching_set<A>(s: Seq<A>, pred: spec_fn(A) -> bool)
    ensures
        matching_set(s, pred).finite(),
        matching_set(s, pred).len() == count_matching(s, pred),
    decreases s.len(),
{
    if s.len() == 0 {
        assert(matching_set(s, pred) =~= Set::empty());
    } else {
        lemma_count_matching_set(s.drop_last(), pred);
        if pred(s.last()) {
            assert(matching_set(s, pred) =~= matching_set(s.drop_last(), pred).insert(
                s.len() - 1,
            ));
            vstd::set::axiom_set_insert_len(matching_set(s.drop_last(), pred), s.len() - 1);
        } else {
            assert(matching_set(s, pred) =~= matching_set(s.drop_last(), pred));
        }
    }
}

/// Proposal `p` was reported by some promising reply: an acceptor that
/// granted the promise also returned `p` as its previously accepted
/// proposal.
pub open spec fn reported<V>(replies: Seq<PrepareReply<V>>, p: Proposal<V>) -> bool {
    exists|j: int|
        0 <= j < replies.len() && replies[j].promised && replies[j].previously_accepted
            == Option::Some(p)
}

/// Some promising reply carried a previously accepted proposal.
pub open spec fn any_reported<V>(replies: Seq<PrepareReply<V>>) -> bool {
    exists|p: Proposal<V>| reported(replies, p)
}

/// The value-adoption rule of one round, given the prepare replies: when at
/// least one promising reply carries a previously accepted proposal, the
/// proposer must adopt the value of the highest-versioned one, discarding
/// its own initial value; only when no promising reply reports a prior
/// acceptance may the initial value be proposed.
pub open spec fn adopts<V>(replies: Seq<PrepareReply<V>>, initial_value: V, chosen: V) -> bool {
    if any_reported(replies) {
        exists|p: Proposal<V>|
            #[trigger] reported(replies, p) && p.value == chosen && (forall|q: Proposal<V>|
                #[trigger] reported(replies, q) ==> q.version.spec_le(p.version))
    } else {
        chosen == initial_value
    }
}

/// Applies the value-adoption rule to the prepare replies of one round.
pub fn choose_value<V: Copy>(replies: &Vec<PrepareReply<V>>, initial_value: V) -> (chosen: V)
    ensures
        adopts(replies@, initial_value, chosen),
{
    let mut best: Option<Proposal<V>> = Option::None;
    let mut i: usize = 0;
    while i < replies.len()
        invariant
            i <= replies@.len(),
            best matches Option::None ==> forall|j: int|
                0 <= j < i ==> !(replies@[j].promised && replies@[j].previously_accepted is Some),
            best matches Option::Some(p) ==> (exists|j: int|
                0 <= j < i && replies@[j].promised && replies@[j].previously_accepted
                    == Option::Some(p)) && (forall|j: int|
                #![trigger replies@[j]]
                0 <= j < i && replies@[j].promised && replies@[j].previously_accepted is Some
                    ==> replies@[j].previously_accepted->0.version.spec_le(p.version)),
        decreases replies@.len() - i,
    {
        let reply = replies[i];
        if reply.promised {
            match (&best, &reply.previously_accepted) {
                (Option::None, Option::Some(q)) => {
                    best = Option::Some(*q);
                },
                (Option::Some(b), Option::Some(q)) => {
                    if b.version.lt(&q.version) {
                        best = Option::Some(*q);
                    }
                },
                _ => {},
            }
        }
        i += 1;
    }
    match best {
        Option::Some(p) => {
            proof {
                assert(reported(replies@, p));
                assert forall|q: Proposal<V>| #[trigger]
                    reported(replies@, q) implies q.version.spec_le(p.version) by {
                    let j = choose|j: int|
                        0 <= j < replies@.len() && replies@[j].promised
                            && replies@[j].previously_accepted == Option::Some(q);
                    assert(replies@[j].previously_accepted->0.version.spec_le(p.version));
                }
            }
            p.value
        },
        Option::None => {
            proof {
                assert(!any_reported(replies@)) by {
                    if any_reported(replies@) {
                        let p = choose|p: Proposal<V>| reported(replies@, p);
                        let j = choose|j: int|
                            0 <= j < replies@.len() && replies@[j].promised
                                && replies@[j].previously_accepted == Option::Some(p);
                        assert(!(replies@[j].promised && replies@[j].previously_accepted
                            is Some));
                    }
                }
            }
            initial_value
        },
    }
}

/// A terminal failure of a consensus attempt.
#[derive(Clone, Copy, PartialEq, Eq, Structural, Debug)]
pub enum RunError {
    /// The retry budget was exhausted without a committed value.
    RoundLimitExceeded,
    /// Advancing the round would pass the configured round bound: a fatal
    /// configuration error, never a silent wraparound.
    RoundOverflow,
}

/// Every acceptor in the sequence satisfies the acceptor invariant.
pub open spec fn all_wf<V>(accs: Seq<Acceptor<V>>) -> bool {
    forall|j: int| 0 <= j < accs.len() ==> accs[j].wf()
}

/// No acceptor holds an accepted proposal from proposer `id` above round
/// `round`: the freshness that the version-uniqueness invariant guarantees,
/// since rounds from one proposer strictly increase call-over-call.
pub open spec fn rounds_fresh<V>(accs: Seq<Acceptor<V>>, id: u64, round: u64) -> bool {
    forall|j: int|
        0 <= j < accs.len() ==> match #[trigger] accs[j].accepted() {
            Option::Some(p) => p.version.proposer_id == id ==> p.version.round <= round,
            Option::None => true,
        }
}

/// A strict majority of the configured acceptors hold `proposal` accepted.
pub open spec fn committed<V>(accs: Seq<Acceptor<V>>, proposal: Proposal<V>) -> bool {
    count_matching(accs, accepted_is_pred(proposal)) >= spec_majority(accs.len())
}

/// Some acceptor holds an accepted proposal carrying value `v`.
pub open spec fn value_present<V>(accs: Seq<Acceptor<V>>, v: V) -> bool {
    exists|j: int|
        0 <= j < accs.len() && (#[trigger] accs[j].accepted() matches Option::Some(p) && p.value
            == v)
}

/// How many of the acceptors would promise a prepare for `version`.
pub open spec fn open_promise_count<V>(accs: Seq<Acceptor<V>>, version: Version) -> nat {
    count_matching(accs, promise_open_pred(version))
}

/// The version of the round after `round`, for proposer `id`.
pub open spec fn next_ver(id: u64, round: u64) -> Version {
    Version { round: (round + 1) as u64, proposer_id: id }
}

/// The prepare replies a row of acceptors in the given states gives to a
/// prepare for `version`: reply `j` is determined by acceptor `j`'s state.
pub open spec fn replies_of<V>(accs: Seq<Acceptor<V>>, version: Version) -> Seq<PrepareReply<V>> {
    Seq::new(
        accs.len(),
        |j: int| prepare_reply_of(accs[j].promised(), accs[j].accepted(), version),
    )
}

/// `mid` is an acceptor row that one `run` call can have led `orig` to
/// before the round that issues proposal `p`: every promise only rose, and
/// whatever is newly accepted is an earlier proposal of that very run —
/// its version one of the proposer's own rounds below `p`'s, its value
/// under the same provenance as the run's proposals.
pub open spec fn evolved_before<V>(
    orig: Seq<Acceptor<V>>,
    mid: Seq<Acceptor<V>>,
    id: u64,
    round0: u64,
    p: Proposal<V>,
    initial_value: V,
) -> bool {
    &&& mid.len() == orig.len()
    &&& forall|j: int|
        0 <= j < orig.len() ==> promise_le(orig[j].promised(), #[trigger] mid[j].promised())
    &&& forall|j: int|
        0 <= j < orig.len() ==> (#[trigger] mid[j].accepted() == orig[j].accepted() || (
        mid[j].accepted() matches Option::Some(q) && q.version.proposer_id == id && round0
            < q.version.round && q.version.round < p.version.round && promise_le(
            orig[j].promised(),
            Option::Some(q.version),
        ) && (q.value == initial_value || value_present(orig, q.value))))
}

/// Every accepted value in `accs` is either `initial_value` or stood
/// accepted somewhere in `orig` already.
pub open spec fn values_from<V>(accs: Seq<Acceptor<V>>, orig: Seq<Acceptor<V>>, initial_value: V) -> bool {
    forall|j: int|
        0 <= j < accs.len() ==> match #[trigger] accs[j].accepted() {
            Option::Some(p) => p.value == initial_value || value_present(orig, p.value),
            Option::None => true,
        }
}

/// Counting a sequence one prefix longer adds the indicator of the new
/// element.
proof fn lemma_count_take_step<A>(s: Seq<A>, k: int, pred: spec_fn(A) -> bool)
    requires
        0 <= k < s.len(),
    ensures
        count_matching(s.take(k + 1), pred) == count_matching(s.take(k), pred) + if pred(s[k]) {
            1nat
        } else {
            0nat
        },
{
    assert(s.take(k + 1).drop_last() =~= s.take(k));
    assert(s.take(k + 1).last() == s[k]);
}

/// A run over acceptors that started in row `orig` issued `p` by the book:
/// some intermediate row `mid` that the run can have led `orig` to gave
/// `p`'s round a promising quorum — measured against the configured count —
/// and `p`'s value is what the value-adoption rule picks from that round's
/// replies: the highest-versioned previously accepted value, or
/// `initial_value` when no promising reply carried one. Whatever the run
/// itself planted in `mid` along the way was issued by the book in turn, so
/// no proposal of the run escapes the rule.
pub open spec fn adoption_witnessed<V>(
    orig: Seq<Acceptor<V>>,
    id: u64,
    round0: u64,
    p: Proposal<V>,
    initial_value: V,
) -> bool
    decreases p.version.round,
{
    exists|mid: Seq<Acceptor<V>>|
        #![trigger evolved_before(orig, mid, id, round0, p, initial_value)]
        evolved_before(orig, mid, id, round0, p, initial_value) && (forall|j: int|
            #![trigger mid[j].accepted()]
            0 <= j < mid.len() && mid[j].accepted() != orig[j].accepted()
                ==> adoption_witnessed(orig, id, round0, mid[j].accepted()->0, initial_value))
            && count_matching(replies_of(mid, p.version), promised_pred::<V>()) >= spec_majority(
            orig.len(),
        ) && adopts(replies_of(mid, p.version), initial_value, p.value)
}

/// The active driver of the protocol: holds its identity, its strictly
/// increasing round counter with its bound, its retry budget, and the
/// fixed, ordered set of acceptors it runs rounds against.
pub struct Proposer<V> {
    id: u64,
    round: u64,
    max_round: u64,
    max_attempts: u64,
    acceptors: Vec<Acceptor<V>>,
}

impl<V: Copy> Proposer<V> {
    /// This proposer's identity, the tiebreaker of the version order.
    pub closed spec fn id(self) -> u64 {
        self.id
    }

    /// The last round this proposer used; rounds strictly increase.
    pub closed spec fn round(self) -> u64 {
        self.round
    }

    /// The configured bound on the round counter.
    pub closed spec fn max_round(self) -> u64 {
        self.max_round
    }

    /// The configured retry budget of one `run` call.
    pub closed spec fn max_attempts(self) -> u64 {
        self.max_attempts
    }

    /// The configured acceptor set, in order.
    pub closed spec fn acceptors(self) -> Seq<Acceptor<V>> {
        self.acceptors@
    }

    /// The proposer invariant: the round counter never stands past its
    /// configured bound.
    pub open spec fn wf(self) -> bool {
        self.round() <= self.max_round()
    }

    /// A proposer at round zero over the given fixed acceptor set, with its
    /// round bound and retry budget.
    pub fn new(id: u64, acceptors: Vec<Acceptor<V>>, max_round: u64, max_attempts: u64) -> (p:
        Proposer<V>)
        ensures
            p.wf(),
            p.id() == id,
            p.round() == 0,
            p.max_round() == max_round,
            p.max_attempts() == max_attempts,
            p.acceptors() == acceptors@,
    {
        Proposer { id, round: 0, max_round, max_attempts, acceptors }
    }

    /// Advances the round and returns the version that identifies it.
    /// Fails with the fatal configuration error exactly when the round
    /// counter stands at its bound; the counter never silently wraps.
    pub fn next_version(&mut self) -> (r: Result<Version, RunError>)
        requires
            old(self).wf(),
        ensures
            final(self).wf(),
            final(self).id() == old(self).id(),
            final(self).max_round() == old(self).max_round(),
            final(self).max_attempts() == old(self).max_attempts(),
            final(self).acceptors() == old(self).acceptors(),
            r is Ok <==> old(self).round() < old(self).max_round(),
            r matches Ok(v) ==> final(self).round() == old(self).round() + 1 && v == next_ver(
                old(self).id(),
                old(self).round(),
            ),
            r is Err ==> final(self).round() == old(self).round() && r == Err::<
                Version,
                RunError,
            >(RunError::RoundOverflow),
    {
        if self.round >= self.max_round {
            return Result::Err(RunError::RoundOverflow);
        }
        self.round = self.round + 1;
        Result::Ok(Version { round: self.round, proposer_id: self.id })
    }

    /// One consensus attempt: loops across rounds up to the retry budget.
    /// Each round advances the version, sends a prepare to every configured
    /// acceptor, checks the promise quorum against the full configured
    /// count, adopts the value the rule dictates, sends the accept to every
    /// acceptor, and commits once a strict majority confirms by echoing the
    /// submitted version. Exhausting the budget is a terminal failure,
    /// never a success; hitting the round bound is a fatal configuration
    /// error.
    #[verifier::loop_isolation(false)]
    pub fn run(&mut self, initial_value: V) -> (r: Result<Proposal<V>, RunError>)
        requires
            old(self).wf(),
            all_wf(old(self).acceptors()),
            rounds_fresh(old(self).acceptors(), old(self).id(), old(self).round()),
        ensures
            final(self).wf(),
            final(self).id() == old(self).id(),
            final(self).max_round() == old(self).max_round(),
            final(self).max_attempts() == old(self).max_attempts(),
            final(self).acceptors().len() == old(self).acceptors().len(),
            old(self).round() <= final(self).round() <= old(self).max_round(),
            all_wf(final(self).acceptors()),
            rounds_fresh(final(self).acceptors(), final(self).id(), final(self).round()),
            values_from(final(self).acceptors(), old(self).acceptors(), initial_value),
            final(self).round() <= old(self).round() + old(self).max_attempts(),
            forall|j: int|
                0 <= j < old(self).acceptors().len() ==> promise_le(
                    old(self).acceptors()[j].promised(),
                    #[trigger] final(self).acceptors()[j].promised(),
                ),
            r matches Ok(p) ==> p.version.proposer_id == old(self).id() && old(self).round()
                < p.version.round <= final(self).round() && committed(final(self).acceptors(), p),
            r matches Ok(p) ==> p.value == initial_value || value_present(
                old(self).acceptors(),
                p.value,
            ),
            r matches Ok(p) ==> forall|j: int|
                0 <= j < old(self).acceptors().len() && #[trigger] promise_open(
                    old(self).acceptors()[j],
                    p.version,
                ) ==> final(self).acceptors()[j].accepted() == Option::Some(p),
            r matches Ok(p) ==> count_matching(final(self).acceptors(), accepted_is_pred::<V>(p))
                >= open_promise_count(old(self).acceptors(), p.version),
            r matches Ok(p) ==> adoption_witnessed(
                old(self).acceptors(),
                old(self).id(),
                old(self).round(),
                p,
                initial_value,
            ),
            r == Err::<Proposal<V>, RunError>(RunError::RoundLimitExceeded)
                ==> final(self).round() == old(self).round() + old(self).max_attempts(),
            r == Err::<Proposal<V>, RunError>(RunError::RoundOverflow) ==> final(self).round()
                == old(self).max_round() && old(self).max_round() - old(self).round()
                < old(self).max_attempts(),
            old(self).max_attempts() >= 1 && old(self).round() < old(self).max_round()
                && open_promise_count(
                old(self).acceptors(),
                next_ver(old(self).id(), old(self).round()),
            ) >= spec_majority(old(self).acceptors().len()) ==> r is Ok,
    {
        let ghost g_id = self.id;
        let ghost g_round0 = self.round;
        let ghost g_accs0 = self.acceptors@;
        let n = self.acceptors.len();
        let maj = majority(n);
        let ghost g_first_ok = self.max_attempts >= 1 && g_round0 < self.max_round
            && open_promise_count(g_accs0, next_ver(g_id, g_round0)) >= spec_majority(n as nat);
        let mut attempt: u64 = 0;
        while attempt < self.max_attempts
            invariant
                attempt <= self.max_attempts,
                self.id == g_id,
                self.max_round == old(self).max_round(),
                self.max_attempts == old(self).max_attempts(),
                self.acceptors@.len() == n,
                g_round0 <= self.round <= self.max_round,
                self.round == g_round0 + attempt,
                all_wf(self.acceptors@),
                rounds_fresh(self.acceptors@, g_id, self.round),
                values_from(self.acceptors@, g_accs0, initial_value),
                forall|j: int|
                    0 <= j < n ==> promise_le(
                        g_accs0[j].promised(),
                        #[trigger] self.acceptors@[j].promised(),
                    ),
                forall|j: int|
                    0 <= j < n ==> (#[trigger] self.acceptors@[j].promised() == g_accs0[j].promised() || (self.acceptors@[j].promised() matches Option::Some(pv)
                        && pv.proposer_id == g_id && pv.round <= self.round)),
                forall|j: int|
                    0 <= j < n ==> (#[trigger] self.acceptors@[j].accepted() == g_accs0[j].accepted() || (self.acceptors@[j].accepted() matches Option::Some(q)
                        && q.version.proposer_id == g_id && g_round0 < q.version.round
                        && q.version.round <= self.round && promise_le(
                        g_accs0[j].promised(),
                        Option::Some(q.version),
                    ) && (q.value == initial_value || value_present(g_accs0, q.value)))),
                forall|j: int|
                    0 <= j < n ==> (#[trigger] self.acceptors@[j].accepted() == g_accs0[j].accepted() || adoption_witnessed(
                        g_accs0,
                        g_id,
                        g_round0,
                        self.acceptors@[j].accepted()->0,
                        initial_value,
                    )),
                attempt == 0 ==> self.acceptors@ == g_accs0,
                attempt > 0 ==> !g_first_ok,
            decreases self.max_attempts - attempt,
        {
            let ghost g_r_prev = self.round;
            let version = match self.next_version() {
                Result::Ok(v) => v,
                Result::Err(e) => {
                    proof {
                        if attempt == 0 && g_first_ok {
                            assert(false);
                        }
                    }
                    return Result::Err(e);
                },
            };
            let ghost g_pre = self.acceptors@;
            proof {
                assert(rounds_fresh(g_pre, g_id, g_r_prev));
                assert(all_wf(g_pre));
                assert(forall|j: int|
                    0 <= j < n ==> promise_le(
                        g_accs0[j].promised(),
                        #[trigger] g_pre[j].promised(),
                    ));
                assert(forall|j: int|
                    0 <= j < n ==> (#[trigger] g_pre[j].promised() == g_accs0[j].promised() || (
                    g_pre[j].promised() matches Option::Some(pv) && pv.proposer_id == g_id
                        && pv.round <= g_r_prev)));
                assert(forall|j: int|
                    0 <= j < n ==> (#[trigger] g_pre[j].accepted() == g_accs0[j].accepted() || (
                    g_pre[j].accepted() matches Option::Some(q) && q.version.proposer_id == g_id
                        && g_round0 < q.version.round && q.version.round <= g_r_prev && promise_le(
                        g_accs0[j].promised(),
                        Option::Some(q.version),
                    ) && (q.value == initial_value || value_present(g_accs0, q.value)))));
                assert(forall|j: int|
                    #![trigger g_pre[j].accepted()]
                    0 <= j < n && g_pre[j].accepted() != g_accs0[j].accepted()
                        ==> adoption_witnessed(
                        g_accs0,
                        g_id,
                        g_round0,
                        g_pre[j].accepted()->0,
                        initial_value,
                    ));
            }
            // prepare phase: to every configured acceptor
            let mut replies: Vec<PrepareReply<V>> = Vec::new();
            let mut i: usize = 0;
            while i < n
                invariant
                    i <= n,
                    self.acceptors@.len() == n,
                    replies@.len() == i,
                    self.id == g_id,
                    self.round == version.round,
                    self.max_round == old(self).max_round(),
                    self.max_attempts == old(self).max_attempts(),
                    forall|j: int|
                        #![trigger self.acceptors@[j]]
                        0 <= j < i ==> self.acceptors@[j].promised() == prepare_promise(
                            g_pre[j].promised(),
                            version,
                        ) && self.acceptors@[j].accepted() == g_pre[j].accepted()
                            && self.acceptors@[j].wf(),
                    forall|j: int|
                        #![trigger replies@[j]]
                        0 <= j < i ==> replies@[j] == prepare_reply_of(
                            g_pre[j].promised(),
                            g_pre[j].accepted(),
                            version,
                        ),
                    forall|j: int| #![trigger self.acceptors@[j]] i <= j < n ==> self.acceptors@[j]
                        == g_pre[j],
                decreases n - i,
            {
                let reply = self.acceptors[i].prepare(version);
                replies.push(reply);
                i += 1;
            }
            // quorum check against the full configured count
            let mut promised_count: usize = 0;
            let mut k: usize = 0;
            while k < n
                invariant
                    k <= n,
                    promised_count <= k,
                    promised_count == count_matching(replies@.take(k as int), promised_pred::<V>()),
                decreases n - k,
            {
                proof {
                    lemma_count_take_step(replies@, k as int, promised_pred::<V>());
                }
                if replies[k].promised {
                    promised_count += 1;
                }
                k += 1;
            }
            proof {
                assert(replies@.take(n as int) =~= replies@);
                assert forall|j: int|
                    0 <= j < n implies promise_le(
                    g_accs0[j].promised(),
                    #[trigger] self.acceptors@[j].promised(),
                ) by {
                    assert(self.acceptors@[j].promised() == prepare_promise(
                        g_pre[j].promised(),
                        version,
                    ));
                    assert(promise_le(g_accs0[j].promised(), g_pre[j].promised()));
                }
                assert forall|j: int|
                    0 <= j < n implies (#[trigger] self.acceptors@[j].promised() == g_accs0[j].promised() || (self.acceptors@[j].promised() matches Option::Some(pv)
                    && pv.proposer_id == g_id && pv.round <= self.round)) by {
                    assert(self.acceptors@[j].promised() == prepare_promise(
                        g_pre[j].promised(),
                        version,
                    ));
                }
                assert(forall|j: int|
                    0 <= j < n ==> #[trigger] self.acceptors@[j].accepted() == g_pre[j].accepted());
            }
            if promised_count >= maj {
                // value adoption, then the accept phase
                let chosen = choose_value(&replies, initial_value);
                let ghost g_prop = Proposal { version, value: chosen };
                let ghost g_mid = self.acceptors@;
                proof {
                    assert(forall|j: int|
                        #![trigger g_mid[j]]
                        0 <= j < n ==> g_mid[j].promised() == prepare_promise(
                            g_pre[j].promised(),
                            version,
                        ) && g_mid[j].accepted() == g_pre[j].accepted() && g_mid[j].wf());
                    assert(forall|j: int|
                        0 <= j < n ==> promise_le(
                            g_accs0[j].promised(),
                            #[trigger] g_mid[j].promised(),
                        ));
                    if any_reported(replies@) {
                        let p = choose|p: Proposal<V>|
                            #[trigger] reported(replies@, p) && p.value == chosen && (forall|
                                q: Proposal<V>,
                            | #[trigger] reported(replies@, q) ==> q.version.spec_le(p.version));
                        let j = choose|j: int|
                            0 <= j < replies@.len() && replies@[j].promised
                                && replies@[j].previously_accepted == Option::Some(p);
                        assert(g_pre[j].accepted() == Option::Some(p));
                        assert(chosen == initial_value || value_present(g_accs0, chosen));
                    } else {
                        assert(chosen == initial_value);
                    }
                    assert(chosen == initial_value || value_present(g_accs0, chosen));
                }
                let mut confirmed: usize = 0;
                let mut i: usize = 0;
                while i < n
                    invariant
                        i <= n,
                        confirmed <= i,
                        self.acceptors@.len() == n,
                        self.id == g_id,
                        self.round == version.round,
                        self.max_round == old(self).max_round(),
                        self.max_attempts == old(self).max_attempts(),
                        forall|j: int|
                            #![trigger self.acceptors@[j]]
                            0 <= j < i ==> self.acceptors@[j].promised() == g_mid[j].promised()
                                && self.acceptors@[j].accepted() == accept_accepted(
                                g_mid[j].promised(),
                                g_mid[j].accepted(),
                                g_prop,
                            ) && self.acceptors@[j].wf(),
                        forall|j: int|
                            #![trigger self.acceptors@[j]]
                            i <= j < n ==> self.acceptors@[j] == g_mid[j],
                        confirmed >= count_matching(g_mid.take(i as int), promised_at_pred::<V>(version)),
                        confirmed <= count_matching(
                            self.acceptors@.take(i as int),
                            accepted_is_pred::<V>(g_prop),
                        ),
                    decreases n - i,
                {
                    let ghost g_before = self.acceptors@;
                    proof {
                        lemma_count_take_step(g_mid, i as int, promised_at_pred::<V>(version));
                    }
                    let response = self.acceptors[i].accept(
                        Proposal { version, value: chosen },
                    );
                    let ok = match response {
                        Option::Some(av) => av == version,
                        Option::None => false,
                    };
                    proof {
                        assert(self.acceptors@.take(i as int) =~= g_before.take(i as int));
                        lemma_count_take_step(
                            self.acceptors@,
                            i as int,
                            accepted_is_pred::<V>(g_prop),
                        );
                        if ok && self.acceptors@[i as int].accepted() != Option::Some(g_prop) {
                            // the echoed version can only come from this round's proposal:
                            // anything older from this proposer has a lower round
                            assert(g_mid[i as int].accepted() == g_pre[i as int].accepted());
                            assert(false);
                        }
                    }
                    if ok {
                        confirmed += 1;
                    }
                    i += 1;
                }
                proof {
                    assert(g_mid.take(n as int) =~= g_mid);
                    assert(self.acceptors@.take(n as int) =~= self.acceptors@);
                    assert forall|j: int|
                        0 <= j < n implies promise_le(
                        g_accs0[j].promised(),
                        #[trigger] self.acceptors@[j].promised(),
                    ) by {
                        assert(self.acceptors@[j].promised() == g_mid[j].promised());
                    }
                    assert forall|j: int|
                        0 <= j < n implies (#[trigger] self.acceptors@[j].promised() == g_accs0[j].promised() || (self.acceptors@[j].promised() matches Option::Some(pv)
                        && pv.proposer_id == g_id && pv.round <= self.round)) by {
                        assert(self.acceptors@[j].promised() == g_mid[j].promised());
                        assert(g_mid[j].promised() == prepare_promise(
                            g_pre[j].promised(),
                            version,
                        ));
                    }
                    assert forall|j: int|
                        0 <= j < n implies (#[trigger] self.acceptors@[j].accepted() == g_accs0[j].accepted() || (self.acceptors@[j].accepted() matches Option::Some(q)
                        && q.version.proposer_id == g_id && g_round0 < q.version.round
                        && q.version.round <= self.round && promise_le(
                        g_accs0[j].promised(),
                        Option::Some(q.version),
                    ) && (q.value == initial_value || value_present(g_accs0, q.value)))) by {
                        assert(promise_le(g_accs0[j].promised(), g_mid[j].promised()));
                        assert(self.acceptors@[j].accepted() == accept_accepted(
                            g_mid[j].promised(),
                            g_mid[j].accepted(),
                            g_prop,
                        ));
                        assert(g_mid[j].accepted() == g_pre[j].accepted());
                    }
                    // the proposal this round issued obeys the adoption rule,
                    // witnessed by the acceptor row its prepares answered from
                    let gp = Proposal { version, value: chosen };
                    assert(replies_of(g_pre, gp.version) =~= replies@);
                    assert(adopts(replies_of(g_pre, gp.version), initial_value, gp.value));
                    assert(count_matching(replies_of(g_pre, gp.version), promised_pred::<V>())
                        >= spec_majority(g_accs0.len()));
                    assert(evolved_before(g_accs0, g_pre, g_id, g_round0, gp, initial_value));
                    assert(adoption_witnessed(g_accs0, g_id, g_round0, gp, initial_value));
                    assert forall|j: int|
                        0 <= j < n implies (#[trigger] self.acceptors@[j].accepted() == g_accs0[j].accepted() || adoption_witnessed(
                        g_accs0,
                        g_id,
                        g_round0,
                        self.acceptors@[j].accepted()->0,
                        initial_value,
                    )) by {
                        assert(self.acceptors@[j].accepted() == accept_accepted(
                            g_mid[j].promised(),
                            g_mid[j].accepted(),
                            g_prop,
                        ));
                        assert(g_mid[j].accepted() == g_pre[j].accepted());
                    }
                }
                if confirmed >= maj {
                    proof {
                        assert(committed(self.acceptors@, (Proposal { version, value: chosen })));
                        assert(g_round0 < version.round <= self.round);
                        // every acceptor whose promise at the outset admitted
                        // this version promised it and then accepted it
                        assert forall|j: int|
                            0 <= j < n && #[trigger] promise_open(
                            g_accs0[j],
                            version,
                        ) implies self.acceptors@[j].accepted() == Option::Some(g_prop) by {
                            assert(promise_open(g_pre[j], version));
                            assert(g_mid[j].promised() == prepare_promise(
                                g_pre[j].promised(),
                                version,
                            ));
                            assert(g_mid[j].promised() == Option::Some(version));
                            assert(self.acceptors@[j].accepted() == accept_accepted(
                                g_mid[j].promised(),
                                g_mid[j].accepted(),
                                g_prop,
                            ));
                        }
                        lemma_count_matching_le(
                            g_accs0,
                            self.acceptors@,
                            promise_open_pred::<V>(version),
                            accepted_is_pred::<V>(g_prop),
                        );
                    }
                    return Result::Ok(Proposal { version, value: chosen });
                }
                proof {
                    if attempt == 0 && g_first_ok {
                        let p1 = promised_at_pred::<V>(version);
                        let p2 = promise_open_pred::<V>(next_ver(g_id, g_round0));
                        assert(g_pre == g_accs0);
                        assert(version == next_ver(g_id, g_round0));
                        assert forall|j: int| 0 <= j < n implies p1(g_mid[j]) == p2(
                            g_accs0[j],
                        ) by {
                            assert(g_mid[j].promised() == prepare_promise(
                                g_pre[j].promised(),
                                version,
                            ));
                        }
                        lemma_count_matching_eq(g_mid, g_accs0, p1, p2);
                        assert(false);
                    }
                }
            } else {
                proof {
                    if attempt == 0 && g_first_ok {
                        let p1 = promised_pred::<V>();
                        let p2 = promise_open_pred::<V>(next_ver(g_id, g_round0));
                        assert(g_pre == g_accs0);
                        assert(version == next_ver(g_id, g_round0));
                        assert forall|j: int| 0 <= j < n implies p1(replies@[j]) == p2(
                            g_accs0[j],
                        ) by {
                            assert(replies@[j] == prepare_reply_of(
                                g_pre[j].promised(),
                                g_pre[j].accepted(),
                                version,
                            ));
                        }
                        lemma_count_matching_eq(replies@, g_accs0, p1, p2);
                        assert(false);
                    }
                }
            }
            attempt = attempt + 1;
        }
        Result::Err(RunError::RoundLimitExceeded)
    }
}

} // verus!
