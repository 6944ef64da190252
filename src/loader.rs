use vstd::prelude::*;
use crate::content_id::bytes_equal;

verus! {

/// Where a loaded block came from. Informational only.
#[derive(Debug)]
pub enum Source {
    /// The local block store.
    Store,
    /// The peer-to-peer swarm.
    Bitswap,
    /// An HTTP gateway, named by its endpoint.
    Http(String),
}

/// The verified bytes of a block together with their provenance.
#[derive(Debug)]
pub struct LoadedCid {
    pub data: Vec<u8>,
    pub source: Source,
}

/// What one remote source reported for a request.
#[derive(Debug)]
pub enum FetchOutcome {
    /// The source delivered the block.
    Found(LoadedCid),
    /// The source was reachable but did not deliver the block.
    Missing,
    /// The source could not be used at all.
    Unavailable,
}

/// Why a load failed.
#[derive(Debug, Clone, Copy, PartialEq, Eq, Structural)]
pub enum LoadError {
    /// Neither remote source could be used.
    Offline,
    /// The reachable sources were asked and none held the block.
    NotFound,
    /// The local store failed to answer.
    Transport,
}

/// The two remote sources that race for a block.
#[derive(Debug, Clone, Copy, PartialEq, Eq, Structural)]
pub enum Branch {
    Bitswap,
    Gateway,
}

impl Branch {
    pub open spec fn spec_other(self) -> Branch {
        match self {
            Branch::Bitswap => Branch::Gateway,
            Branch::Gateway => Branch::Bitswap,
        }
    }

    /// The source racing against this one.
    pub fn other(self) -> (r: Branch)
        ensures
            r == self.spec_other(),
    {
        match self {
            Branch::Bitswap => Branch::Gateway,
            Branch::Gateway => Branch::Bitswap,
        }
    }
}

/// What the caller of a load does next.
#[derive(Debug)]
pub enum LoadStep {
    /// Hand these bytes back.
    Deliver(LoadedCid),
    /// Start both remote sources at once and report whichever finishes first.
    Race,
    /// Wait for the given source, which is still running.
    Await(Branch),
    /// Give up with this error.
    Fail(LoadError),
}

/// The first decision of a load, from the answer of the local store: a hit
/// is delivered at once and no remote source is started. A store that
/// failed to answer is passed over and the remote sources are raced; its
/// failure surfaces only if neither of them delivers.
pub open spec fn spec_after_store(lookup: Result<Option<Vec<u8>>, ()>) -> LoadStep {
    match lookup {
        Ok(Some(data)) => LoadStep::Deliver(LoadedCid { data, source: Source::Store }),
        Ok(None) => LoadStep::Race,
        Err(_) => LoadStep::Race,
    }
}

pub fn after_store(lookup: Result<Option<Vec<u8>>, ()>) -> (r: LoadStep)
    ensures
        r == spec_after_store(lookup),
{
    match lookup {
        Ok(Some(data)) => LoadStep::Deliver(LoadedCid { data, source: Source::Store }),
        Ok(None) => LoadStep::Race,
        Err(_) => LoadStep::Race,
    }
}

/// The decision when the first of the two racing sources finishes.
pub open spec fn spec_first_finished(branch: Branch, outcome: FetchOutcome) -> LoadStep {
    match outcome {
        FetchOutcome::Found(loaded) => LoadStep::Deliver(loaded),
        _ => LoadStep::Await(branch.spec_other()),
    }
}

/// The decision when the second source finishes after the first reported no
/// block; `first_unavailable` says whether the first could not be used at all,
/// and `store_failed` whether the local store failed to answer before.
pub open spec fn spec_second_finished(
    store_failed: bool,
    first_unavailable: bool,
    outcome: FetchOutcome,
) -> LoadStep {
    match outcome {
        FetchOutcome::Found(loaded) => LoadStep::Deliver(loaded),
        _ if store_failed => LoadStep::Fail(LoadError::Transport),
        FetchOutcome::Unavailable => if first_unavailable {
            LoadStep::Fail(LoadError::Offline)
        } else {
            LoadStep::Fail(LoadError::NotFound)
        },
        FetchOutcome::Missing => LoadStep::Fail(LoadError::NotFound),
    }
}

/// Where a race between the two remote sources stands.
#[derive(Debug, Clone, Copy, PartialEq, Eq, Structural)]
pub enum RacePhase {
    /// Both sources are running.
    Racing,
    /// One source finished without the block; the other is awaited.
    WaitingOnSecond { first: Branch, first_unavailable: bool },
    /// The race is decided.
    Done,
}

/// The first-hit-wins race between the swarm and the gateways, with
/// escalation to the slower source when the faster one has no block.
#[derive(Debug)]
pub struct Race {
    phase: RacePhase,
    store_failed: bool,
}

impl Race {
    pub closed spec fn spec_phase(&self) -> RacePhase {
        self.phase
    }

    /// Whether the local store failed to answer before the race.
    pub closed spec fn spec_store_failed(&self) -> bool {
        self.store_failed
    }

    /// A race with both sources running, after a store that answered
    /// (`store_failed` false) or failed to answer.
    pub fn new(store_failed: bool) -> (r: Race)
        ensures
            r.spec_phase() == RacePhase::Racing,
            r.spec_store_failed() == store_failed,
    {
        Race { phase: RacePhase::Racing, store_failed }
    }

    pub fn phase(&self) -> (r: RacePhase)
        ensures
            r == self.spec_phase(),
    {
        self.phase
    }

    /// Feeds the outcome of the source `branch` into the race.
    pub fn on_finished(&mut self, branch: Branch, outcome: FetchOutcome) -> (r: LoadStep)
        requires
            old(self).spec_phase() != RacePhase::Done,
            old(self).spec_phase() is WaitingOnSecond ==> branch
                == old(self).spec_phase()->first.spec_other(),
        ensures
            old(self).spec_phase() == RacePhase::Racing ==> r == spec_first_finished(
                branch,
                outcome,
            ),
            old(self).spec_phase() is WaitingOnSecond ==> r == spec_second_finished(
                old(self).spec_store_failed(),
                old(self).spec_phase()->first_unavailable,
                outcome,
            ),
            r is Await ==> final(self).spec_phase() == (RacePhase::WaitingOnSecond {
                first: branch,
                first_unavailable: outcome is Unavailable,
            }),
            !(r is Await) ==> final(self).spec_phase() == RacePhase::Done,
            final(self).spec_store_failed() == old(self).spec_store_failed(),
    {
        match self.phase {
            RacePhase::Racing => match outcome {
                FetchOutcome::Found(loaded) => {
                    self.phase = RacePhase::Done;
                    LoadStep::Deliver(loaded)
                },
                FetchOutcome::Missing => {
                    self.phase = RacePhase::WaitingOnSecond { first: branch, first_unavailable: false };
                    LoadStep::Await(branch.other())
                },
                FetchOutcome::Unavailable => {
                    self.phase = RacePhase::WaitingOnSecond { first: branch, first_unavailable: true };
                    LoadStep::Await(branch.other())
                },
            },
            RacePhase::WaitingOnSecond { first: _, first_unavailable } => {
                self.phase = RacePhase::Done;
                match outcome {
                    FetchOutcome::Found(loaded) => LoadStep::Deliver(loaded),
                    _ if self.store_failed => LoadStep::Fail(LoadError::Transport),
                    FetchOutcome::Unavailable => if first_unavailable {
                        LoadStep::Fail(LoadError::Offline)
                    } else {
                        LoadStep::Fail(LoadError::NotFound)
                    },
                    FetchOutcome::Missing => LoadStep::Fail(LoadError::NotFound),
                }
            },
            RacePhase::Done => LoadStep::Fail(LoadError::NotFound),
        }
    }
}

/// The result of a whole race in which `first` finished before the other
/// source: the first block delivered wins; with no block, `Transport` when
/// the local store had failed, else `Offline` when neither source could be
/// used and `NotFound` otherwise.
pub open spec fn race_result(store_failed: bool, first: FetchOutcome, second: FetchOutcome) -> LoadStep {
    match first {
        FetchOutcome::Found(loaded) => LoadStep::Deliver(loaded),
        _ => spec_second_finished(store_failed, first is Unavailable, second),
    }
}

/// Runs the race for two outcomes in the order in which their sources
/// finished: `first` from `first_branch`, then `second` from the other one.
pub fn decide_race(
    store_failed: bool,
    first_branch: Branch,
    first: FetchOutcome,
    second: FetchOutcome,
) -> (r: LoadStep)
    ensures
        r == race_result(store_failed, first, second),
{
    let mut race = Race::new(store_failed);
    let step = race.on_finished(first_branch, first);
    match step {
        LoadStep::Await(other) => race.on_finished(other, second),
        _ => step,
    }
}

/// When neither remote source can be used, a load fails with `Offline`,
/// whichever of them finishes first.
pub proof fn lemma_both_unavailable_is_offline()
    ensures
        race_result(false, FetchOutcome::Unavailable, FetchOutcome::Unavailable) == LoadStep::Fail(
            LoadError::Offline,
        ),
{
}

/// When both remote sources are reachable and neither holds the block, a
/// load fails with `NotFound`, whichever of them finishes first.
pub proof fn lemma_both_missing_is_not_found()
    ensures
        race_result(false, FetchOutcome::Missing, FetchOutcome::Missing) == LoadStep::Fail(
            LoadError::NotFound,
        ),
{
}

/// A load fails only when no source delivered. A failed local store is
/// reported only then; otherwise it never fails with `Offline` while one of
/// the sources was reachable.
pub proof fn lemma_race_outcomes(store_failed: bool, first: FetchOutcome, second: FetchOutcome)
    ensures
        (first is Found || second is Found) <==> race_result(store_failed, first, second) is Deliver,
        race_result(store_failed, first, second) == LoadStep::Fail(LoadError::Transport) <==> (
        store_failed && !(first is Found) && !(second is Found)),
        race_result(store_failed, first, second) == LoadStep::Fail(LoadError::Offline) <==> (
        !store_failed && first is Unavailable && second is Unavailable),
        race_result(store_failed, first, second) == LoadStep::Fail(LoadError::NotFound) <==> (
        !store_failed && !(first is Found) && !(second is Found) && !(first is Unavailable
            && second is Unavailable)),
{
}

/// What the swarm branch reports: no swarm at hand is unavailable, a fetch
/// that failed is missing, and fetched bytes are found, with the swarm as
/// their provenance.
pub fn bitswap_outcome(fetched: Option<Result<Vec<u8>, ()>>) -> (r: FetchOutcome)
    ensures
        fetched is None ==> r is Unavailable,
        fetched matches Some(Err(_)) ==> r is Missing,
        fetched matches Some(Ok(d)) ==> r == FetchOutcome::Found(
            LoadedCid { data: d, source: Source::Bitswap },
        ),
{
    match fetched {
        None => FetchOutcome::Unavailable,
        Some(Err(_)) => FetchOutcome::Missing,
        Some(Ok(data)) => FetchOutcome::Found(LoadedCid { data, source: Source::Bitswap }),
    }
}

/// Whether the swarm is told of a published block: only once the store took
/// it, and only where a swarm is at hand.
pub fn should_announce(stored: bool, swarm_available: bool) -> (r: bool)
    ensures
        r == (stored && swarm_available),
{
    stored && swarm_available
}

/// Whether the list `s` names the peer `p`.
pub open spec fn names_peer(s: Seq<Vec<u8>>, p: Seq<u8>) -> bool {
    exists|i: int| 0 <= i < s.len() && (#[trigger] s[i])@ == p
}

/// The peers to ask first for a block, from the answer of the optional
/// provider index: every provider it named, once each. Without an index, or
/// when the index failed, the swarm is asked with no hints.
pub fn provider_hints(lookup: Option<Result<Vec<Vec<u8>>, ()>>) -> (r: Vec<Vec<u8>>)
    ensures
        forall|i: int, j: int|
            0 <= i < j < r@.len() ==> (#[trigger] r@[i])@ != (#[trigger] r@[j])@,
        match lookup {
            Some(Ok(found)) => forall|p: Seq<u8>| #[trigger]
                names_peer(r@, p) == names_peer(found@, p),
            _ => r@.len() == 0,
        },
{
    let found = match lookup {
        Some(Ok(found)) => found,
        _ => return Vec::new(),
    };
    let mut hints: Vec<Vec<u8>> = Vec::new();
    let mut k: usize = 0;
    while k < found.len()
        invariant
            0 <= k <= found@.len(),
            forall|i: int, j: int|
                0 <= i < j < hints@.len() ==> (#[trigger] hints@[i])@ != (#[trigger] hints@[j])@,
            forall|p: Seq<u8>| #[trigger]
                names_peer(hints@, p) == names_peer(found@.subrange(0, k as int), p),
        decreases found@.len() - k,
    {
        let mut seen = false;
        let mut i: usize = 0;
        while i < hints.len()
            invariant
                0 <= i <= hints@.len(),
                k < found@.len(),
                seen ==> names_peer(hints@, found@[k as int]@),
                !seen ==> forall|q: int| 0 <= q < i ==> (#[trigger] hints@[q])@ != found@[k as int]@,
            decreases hints@.len() - i,
        {
            if !seen && bytes_equal(hints[i].as_slice(), found[k].as_slice()) {
                seen = true;
                assert(hints@[i as int]@ == found@[k as int]@);
            }
            i = i + 1;
        }
        let ghost old_hints = hints@;
        let ghost x = found@[k as int]@;
        if !seen {
            let peer = found[k].clone();
            assert(peer@ =~= x);
            hints.push(peer);
            assert(hints@[hints@.len() - 1]@ == x);
        }
        assert(hints@.len() >= old_hints.len());
        assert(forall|q: int| 0 <= q < old_hints.len() ==> hints@[q] == old_hints[q]);
        proof {
            let prefix = found@.subrange(0, k as int);
            let next = found@.subrange(0, k + 1);
            assert forall|p: Seq<u8>| #[trigger]
                names_peer(hints@, p) == names_peer(next, p) by {
                if names_peer(hints@, p) {
                    let i = choose|i: int| 0 <= i < hints@.len() && (#[trigger] hints@[i])@ == p;
                    if i < old_hints.len() {
                        assert(old_hints[i]@ == p);
                        assert(names_peer(old_hints, p));
                        assert(names_peer(old_hints, p) == names_peer(prefix, p));
                        let m = choose|m: int| 0 <= m < prefix.len() && (#[trigger] prefix[m])@ == p;
                        assert(next[m] == prefix[m]);
                    } else {
                        assert(next[k as int]@ == p);
                    }
                }
                if names_peer(next, p) {
                    let m = choose|m: int| 0 <= m < next.len() && (#[trigger] next[m])@ == p;
                    if m < k {
                        assert(prefix[m] == next[m]);
                        assert(names_peer(prefix, p));
                        assert(names_peer(old_hints, p) == names_peer(prefix, p));
                        let i = choose|i: int| 0 <= i < old_hints.len() && (#[trigger] old_hints[i])@ == p;
                        assert(hints@[i] == old_hints[i]);
                    } else if seen {
                        assert(x == p);
                    } else {
                        assert(hints@[hints@.len() - 1]@ == p);
                    }
                }
            }
        }
        k = k + 1;
    }
    proof {
        assert(found@.subrange(0, found@.len() as int) =~= found@);
    }
    hints
}

} // verus!
