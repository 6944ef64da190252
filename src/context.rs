use vstd::prelude::*;

verus! {

/// A process-unique identifier of a retrieval session.
#[derive(Debug, Copy, Clone, PartialEq, Eq, Structural, PartialOrd, Ord, Hash)]
pub struct ContextId(pub u64);

impl From<u64> for ContextId {
    fn from(id: u64) -> (r: ContextId)
        ensures
            r.0 == id,
    {
        ContextId(id)
    }
}

impl vstd::std_specs::convert::FromSpecImpl<u64> for ContextId {
    open spec fn obeys_from_spec() -> bool {
        true
    }

    open spec fn from_spec(v: u64) -> ContextId {
        ContextId(v)
    }
}

impl From<ContextId> for u64 {
    fn from(id: ContextId) -> (r: u64)
        ensures
            r == id.0,
    {
        id.0
    }
}

impl vstd::std_specs::convert::FromSpecImpl<ContextId> for u64 {
    open spec fn obeys_from_spec() -> bool {
        true
    }

    open spec fn from_spec(v: ContextId) -> u64 {
        v.0
    }
}

/// The session a group of block fetches belongs to.
#[derive(Debug, Clone, Copy)]
pub struct LoaderContext {
    id: ContextId,
}

impl LoaderContext {
    pub fn from_path(id: ContextId) -> (r: LoaderContext)
        ensures
            r.spec_id() == id,
    {
        LoaderContext { id }
    }

    pub closed spec fn spec_id(&self) -> ContextId {
        self.id
    }

    pub fn id(&self) -> (r: ContextId)
        ensures
            r == self.spec_id(),
    {
        self.id
    }
}

/// The reference count of one session handle, shared by all its clones.
///
/// The close notification for the session is released exactly once: by the
/// release that takes the count from one to zero.
#[derive(Debug)]
pub struct SessionRefs {
    id: ContextId,
    count: u64,
    closed: bool,
}

impl SessionRefs {
    /// Every live session has at least one holder; a closed one has none.
    pub closed spec fn wf(&self) -> bool {
        self.closed <==> self.count == 0
    }

    pub closed spec fn spec_id(&self) -> ContextId {
        self.id
    }

    pub closed spec fn holders(&self) -> nat {
        self.count as nat
    }

    pub closed spec fn is_closed(&self) -> bool {
        self.closed
    }

    /// A new session, held by its creator alone.
    pub fn new(id: ContextId) -> (r: SessionRefs)
        ensures
            r.wf(),
            r.spec_id() == id,
            r.holders() == 1,
            !r.is_closed(),
    {
        SessionRefs { id, count: 1, closed: false }
    }

    pub fn id(&self) -> (r: ContextId)
        ensures
            r == self.spec_id(),
    {
        self.id
    }

    pub fn holders_now(&self) -> (r: u64)
        ensures
            r == self.holders(),
    {
        self.count
    }

    pub fn closed(&self) -> (r: bool)
        ensures
            r == self.is_closed(),
    {
        self.closed
    }

    /// One more holder of a live session (a clone of the handle).
    pub fn acquire(&mut self)
        requires
            old(self).wf(),
            !old(self).is_closed(),
            old(self).holders() < u64::MAX,
        ensures
            final(self).wf(),
            final(self).spec_id() == old(self).spec_id(),
            final(self).holders() == old(self).holders() + 1,
            !final(self).is_closed(),
    {
        self.count = self.count + 1;
    }

    /// One holder lets go. Returns whether the close notification is due now,
    /// which is exactly when this was the last holder.
    pub fn release(&mut self) -> (fire: bool)
        requires
            old(self).wf(),
            !old(self).is_closed(),
        ensures
            final(self).wf(),
            final(self).spec_id() == old(self).spec_id(),
            final(self).holders() == old(self).holders() - 1,
            fire == (old(self).holders() == 1),
            (if fire { 1nat } else { 0nat }) == fired_by_releases(old(self).holders(), 1),
            final(self).is_closed() == fire,
    {
        assert(fired_by_releases((self.count - 1) as nat, 0) == 0);
        self.count = self.count - 1;
        if self.count == 0 {
            self.closed = true;
            true
        } else {
            false
        }
    }
}

/// The number of close notifications that `k` releases fire on a live
/// session held `n` times.
pub open spec fn fired_by_releases(n: nat, k: nat) -> nat
    decreases k,
{
    if k == 0 || n == 0 {
        0
    } else {
        (if n == 1 { 1nat } else { 0nat }) + fired_by_releases((n - 1) as nat, (k - 1) as nat)
    }
}

/// A session handle cloned into `n` holders fires its close notification
/// exactly once when all `n` let go, however the releases interleave: each
/// release is one step of the shared count, and only the step from one to
/// zero fires.
pub proof fn lemma_close_fires_once(n: nat)
    requires
        n >= 1,
    ensures
        fired_by_releases(n, n) == 1,
    decreases n,
{
    if n > 1 {
        lemma_close_fires_once((n - 1) as nat);
    } else {
        assert(fired_by_releases(0, 0) == 0);
    }
}

} // verus!
