//! The acceptor: a passive participant that answers prepare and accept
//! requests from any proposer, enforcing the promise invariant.

use vstd::prelude::*;

use crate::version::Version;
use crate::version::promise_le;

verus! {

/// An immutable proposal: a totally ordered version paired with the opaque
/// value it carries.
#[derive(Clone, Copy, PartialEq, Eq, Debug)]
pub struct Proposal<V> {
    pub version: Version,
    pub value: V,
}

/// An acceptor's answer to a prepare request: whether the requested version
/// now holds the promise, and whatever proposal the acceptor had already
/// accepted, so a retrying proposer can learn about prior acceptances.
#[derive(Clone, Copy, PartialEq, Eq, Debug)]
pub struct PrepareReply<V> {
    pub promised: bool,
    pub previously_accepted: Option<Proposal<V>>,
}

/// The promise after an acceptor handles `prepare(version)`: the promise
/// rises to `version` when `version` is at least the current promise, and
/// never regresses.
pub open spec fn prepare_promise(promised: Option<Version>, version: Version) -> Option<Version> {
    match promised {
        Option::None => Option::Some(version),
        Option::Some(pv) => if pv.spec_le(version) {
            Option::Some(version)
        } else {
            Option::Some(pv)
        },
    }
}

/// The reply to `prepare(version)` from an acceptor whose state was
/// `(promised, accepted)`: the request is promised exactly when the promise
/// now stands at `version`, and the previously accepted proposal is reported
/// in every case.
pub open spec fn prepare_reply_of<V>(
    promised: Option<Version>,
    accepted: Option<Proposal<V>>,
    version: Version,
) -> PrepareReply<V> {
    PrepareReply {
        promised: prepare_promise(promised, version) == Option::Some(version),
        previously_accepted: accepted,
    }
}

/// The accepted proposal after an acceptor whose state was
/// `(promised, accepted)` handles `accept(proposal)`: the proposal is
/// stored exactly when its version equals the current promise.
pub open spec fn accept_accepted<V>(
    promised: Option<Version>,
    accepted: Option<Proposal<V>>,
    proposal: Proposal<V>,
) -> Option<Proposal<V>> {
    if promised == Option::Some(proposal.version) {
        Option::Some(proposal)
    } else {
        accepted
    }
}

/// The version of an optional accepted proposal.
pub open spec fn accepted_version<V>(accepted: Option<Proposal<V>>) -> Option<Version> {
    match accepted {
        Option::Some(p) => Option::Some(p.version),
        Option::None => Option::None,
    }
}

/// A passive, stateful participant. Its two fields are read and written as
/// one unit by every operation; the `&mut self` discipline makes each call
/// one mutually exclusive critical section over the pair.
pub struct Acceptor<V> {
    promised_version: Option<Version>,
    accepted_proposal: Option<Proposal<V>>,
}

impl<V> Acceptor<V> {
    /// The current promise: the highest version this acceptor has answered
    /// a prepare request for, a commitment to reject older accepts.
    pub closed spec fn promised(self) -> Option<Version> {
        self.promised_version
    }

    /// The proposal this acceptor last accepted, if any.
    pub closed spec fn accepted(self) -> Option<Proposal<V>> {
        self.accepted_proposal
    }

    /// The acceptor invariant: whatever is accepted never stands above the
    /// promise.
    pub open spec fn wf(self) -> bool {
        match self.accepted() {
            Option::None => true,
            Option::Some(p) => match self.promised() {
                Option::Some(pv) => p.version.spec_le(pv),
                Option::None => false,
            },
        }
    }

    /// A fresh acceptor: no promise made, nothing accepted.
    pub fn new() -> (a: Acceptor<V>)
        ensures
            a.promised() == Option::<Version>::None,
            a.accepted() == Option::<Proposal<V>>::None,
            a.wf(),
    {
        Acceptor { promised_version: Option::None, accepted_proposal: Option::None }
    }
}

impl<V: Copy> Acceptor<V> {
    /// Handles a prepare request: raises the promise to `version` unless a
    /// higher promise already stands, and reports the previously accepted
    /// proposal either way. The promise never regresses, and repeating the
    /// same request changes nothing further.
    pub fn prepare(&mut self, version: Version) -> (r: PrepareReply<V>)
        requires
            old(self).wf(),
        ensures
            final(self).wf(),
            final(self).promised() == prepare_promise(old(self).promised(), version),
            final(self).accepted() == old(self).accepted(),
            r == prepare_reply_of(old(self).promised(), old(self).accepted(), version),
            promise_le(old(self).promised(), final(self).promised()),
    {
        let granted = match &self.promised_version {
            Option::None => true,
            Option::Some(pv) => pv.le(&version),
        };
        if granted {
            self.promised_version = Option::Some(version);
        }
        PrepareReply { promised: granted, previously_accepted: self.accepted_proposal }
    }

    /// Handles an accept request: stores the proposal exactly when its
    /// version equals the current promise, and in all cases returns the
    /// version of whatever is accepted afterwards. The caller reads a
    /// returned version different from the submitted one as a well-defined
    /// rejection, not an error.
    pub fn accept(&mut self, proposal: Proposal<V>) -> (r: Option<Version>)
        requires
            old(self).wf(),
        ensures
            final(self).wf(),
            final(self).promised() == old(self).promised(),
            final(self).accepted() == accept_accepted(
                old(self).promised(),
                old(self).accepted(),
                proposal,
            ),
            r == accepted_version(final(self).accepted()),
    {
        let matches_promise = match &self.promised_version {
            Option::Some(pv) => *pv == proposal.version,
            Option::None => false,
        };
        if matches_promise {
            self.accepted_proposal = Option::Some(proposal);
        }
        match &self.accepted_proposal {
            Option::Some(p) => Option::Some(p.version),
            Option::None => Option::None,
        }
    }
}

/// The promise an acceptor holds after a whole sequence of prepare calls,
/// handled in order.
pub open spec fn promise_after(init: Option<Version>, versions: Seq<Version>) -> Option<Version>
    decreases versions.len(),
{
    if versions.len() == 0 {
        init
    } else {
        promise_after(prepare_promise(init, versions[0]), versions.skip(1))
    }
}

/// Monotonic promise: however a sequence of prepare calls is ordered, the
/// promise an acceptor ends with never stands below the promise it started
/// with — no call can lower it below its previous maximum.
pub proof fn lemma_promise_monotonic(init: Option<Version>, versions: Seq<Version>)
    ensures
        promise_le(init, promise_after(init, versions)),
    decreases versions.len(),
{
    if versions.len() != 0 {
        lemma_promise_monotonic(prepare_promise(init, versions[0]), versions.skip(1));
    }
}

/// Idempotence: calling `prepare(version)` twice in a row, with no
/// intervening call, leaves the acceptor exactly as after the first call
/// and returns the identical reply both times.
pub proof fn lemma_prepare_idempotent<V>(
    promised: Option<Version>,
    accepted: Option<Proposal<V>>,
    version: Version,
)
    ensures
        prepare_promise(prepare_promise(promised, version), version) == prepare_promise(
            promised,
            version,
        ),
        prepare_reply_of::<V>(prepare_promise(promised, version), accepted, version)
            == prepare_reply_of(promised, accepted, version),
{
}

} // verus!
