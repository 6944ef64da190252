use vstd::prelude::*;
use crate::car::{car_header, car_record, encode_header, encode_record};
use crate::content_id::Cid;
use crate::store::{cid_views, lemma_store_finite, MemoryStore, StoredView};

verus! {

/// Why a graph export stopped.
#[derive(Debug, Clone, Copy, PartialEq, Eq, Structural)]
pub enum ExportError {
    /// A block lies deeper below the root than the configured limit allows.
    RecursionLimitExceeded,
    /// A block of the graph could not be fetched.
    BlockUnavailable,
    /// A block is too large to be framed as a record.
    BlockTooLarge,
}

/// A depth-first walk over the block graph below one root, visiting each
/// block once, in preorder, with the links of a block in their own order.
#[derive(Debug)]
pub struct GraphWalk {
    root: Cid,
    limit: u64,
    stack: Vec<(Cid, u64)>,
    visited: Vec<Cid>,
    current: Option<(Cid, u64)>,
}

/// The queue entries for the links of a block at `depth`: one level deeper,
/// in reverse, so that the first link is taken first.
pub open spec fn child_entries(links: Seq<Seq<u8>>, depth: u64) -> Seq<(Seq<u8>, u64)> {
    Seq::new(links.len(), |i: int| (links[links.len() - 1 - i], (depth + 1) as u64))
}

impl GraphWalk {
    /// The CIDs of the blocks emitted so far, in order.
    pub closed spec fn emitted(&self) -> Seq<Seq<u8>> {
        cid_views(self.visited@)
    }

    /// The blocks waiting to be visited with their depths; the last entry is
    /// taken first.
    pub closed spec fn queued(&self) -> Seq<(Seq<u8>, u64)> {
        self.stack@.map_values(|e: (Cid, u64)| (e.0@, e.1))
    }

    pub closed spec fn root_view(&self) -> Seq<u8> {
        self.root@
    }

    pub closed spec fn spec_limit(&self) -> u64 {
        self.limit
    }

    /// Whether a block handed out by `next_wanted` awaits `accept`.
    pub closed spec fn has_pending(&self) -> bool {
        self.current is Some
    }

    /// The CID of the pending block.
    pub closed spec fn pending_cid(&self) -> Seq<u8> {
        match self.current {
            Some((c, _)) => c@,
            None => Seq::empty(),
        }
    }

    /// The depth of the pending block below the root.
    pub closed spec fn pending_depth(&self) -> u64 {
        match self.current {
            Some((_, d)) => d,
            None => 0,
        }
    }

    pub closed spec fn wf(&self) -> bool {
        &&& self.root@.len() < u64::MAX
        &&& self.emitted().no_duplicates()
        &&& self.visited@.len() > 0 ==> self.visited@[0]@ == self.root@
        &&& self.visited@.len() == 0 ==> match self.current {
            Some((c, d)) => c@ == self.root@ && d == 0,
            None => self.stack@.len() == 1 && self.stack@[0].0@ == self.root@
                && self.stack@[0].1 == 0,
        }
        &&& forall|i: int|
            0 <= i < self.stack@.len() ==> #[trigger] self.stack@[i].1 <= self.limit
                && self.stack@[i].1 <= self.visited@.len()
        &&& match self.current {
            Some((c, d)) => d <= self.limit && d <= self.visited@.len() && !self.emitted().contains(c@),
            None => true,
        }
    }

    /// A walk that starts at `root` and descends at most `limit` links.
    pub fn new(root: Cid, limit: u64) -> (r: GraphWalk)
        requires
            root@.len() < u64::MAX,
        ensures
            r.wf(),
            r.root_view() == root@,
            r.spec_limit() == limit,
            r.emitted() == Seq::<Seq<u8>>::empty(),
            r.queued() == seq![(root@, 0u64)],
            !r.has_pending(),
    {
        let mut stack: Vec<(Cid, u64)> = Vec::new();
        let first = root.clone();
        stack.push((first, 0));
        let r = GraphWalk { root, limit, stack, visited: Vec::new(), current: None };
        assert(r.emitted() =~= Seq::<Seq<u8>>::empty());
        assert(r.queued() =~= seq![(r.root@, 0u64)]);
        r
    }

    /// The header naming the root, which precedes every record.
    pub fn header(&self) -> (r: Vec<u8>)
        requires
            self.wf(),
        ensures
            r@ == car_header(seq![self.root_view()]),
    {
        let mut roots: Vec<Cid> = Vec::new();
        roots.push(self.root.clone());
        assert(roots@.map_values(|c: Cid| c@) =~= seq![self.root@]);
        encode_header(&roots)
    }

    fn is_visited(&self, cid: &Cid) -> (r: bool)
        ensures
            r == self.emitted().contains(cid@),
    {
        let mut i: usize = 0;
        while i < self.visited.len()
            invariant
                0 <= i <= self.visited@.len(),
                forall|j: int| 0 <= j < i ==> self.visited@[j]@ != cid@,
            decreases self.visited@.len() - i,
        {
            if self.visited[i].same(cid) {
                assert(self.emitted()[i as int] == cid@);
                return true;
            }
            i = i + 1;
        }
        proof {
            if self.emitted().contains(cid@) {
                let k = choose|k: int| 0 <= k < self.emitted().len() && self.emitted()[k] == cid@;
                assert(self.visited@[k]@ == cid@);
            }
        }
        false
    }

    /// The next block the walk needs, or `None` once the walk is complete:
    /// the most recently queued block not yet emitted. Queued blocks that
    /// were emitted meanwhile are dropped on the way.
    pub fn next_wanted(&mut self) -> (r: Option<Cid>)
        requires
            old(self).wf(),
            !old(self).has_pending(),
        ensures
            final(self).wf(),
            final(self).emitted() == old(self).emitted(),
            final(self).root_view() == old(self).root_view(),
            final(self).spec_limit() == old(self).spec_limit(),
            r is Some <==> final(self).has_pending(),
            r is None ==> final(self).queued() == Seq::<(Seq<u8>, u64)>::empty() && forall|j: int|
                0 <= j < old(self).queued().len() ==> old(self).emitted().contains(
                    #[trigger] old(self).queued()[j].0,
                ),
            r is Some ==> exists|k: int|
                {
                    &&& 0 <= k < old(self).queued().len()
                    &&& final(self).queued() == old(self).queued().take(k)
                    &&& old(self).queued()[k] == (r->0@, final(self).pending_depth())
                    &&& forall|j: int|
                        k < j < old(self).queued().len() ==> old(self).emitted().contains(
                            #[trigger] old(self).queued()[j].0,
                        )
                },
            r is Some ==> r->0@ == final(self).pending_cid() && !old(self).emitted().contains(r->0@),
            r is Some && old(self).emitted().len() == 0 ==> r->0@ == old(self).root_view(),
    {
        while self.stack.len() > 0
            invariant
                self.wf(),
                self.current is None,
                self.emitted() == old(self).emitted(),
                self.root@ == old(self).root@,
                self.limit == old(self).limit,
                self.queued() == old(self).queued().take(self.stack@.len() as int),
                self.stack@.len() <= old(self).queued().len(),
                forall|j: int|
                    self.stack@.len() <= j < old(self).queued().len() ==> old(self).emitted().contains(
                        #[trigger] old(self).queued()[j].0,
                    ),
            decreases self.stack@.len(),
        {
            let ghost n = self.stack@.len() as int;
            let ghost top = self.queued()[n - 1];
            let (cid, depth) = self.stack.pop().unwrap();
            assert(top == (cid@, depth));
            assert(self.queued() =~= old(self).queued().take(n - 1));
            if !self.is_visited(&cid) {
                let out = cid.clone();
                self.current = Some((cid, depth));
                return Some(out);
            }
            assert(self.visited@.len() > 0);
        }
        assert(self.queued() =~= Seq::<(Seq<u8>, u64)>::empty());
        None
    }

    /// Takes the pending block's bytes and links. Returns its record, and
    /// queues its links one level deeper; a block at the depth limit that
    /// has links ends the walk with `RecursionLimitExceeded`.
    pub fn accept(&mut self, data: &[u8], links: Vec<Cid>) -> (r: Result<Vec<u8>, ExportError>)
        requires
            old(self).wf(),
            old(self).has_pending(),
        ensures
            final(self).root_view() == old(self).root_view(),
            final(self).spec_limit() == old(self).spec_limit(),
            r == Err::<Vec<u8>, ExportError>(ExportError::RecursionLimitExceeded) <==> (
            links@.len() > 0 && old(self).pending_depth() >= old(self).spec_limit()),
            r == Err::<Vec<u8>, ExportError>(ExportError::BlockTooLarge) <==> (!(links@.len() > 0
                && old(self).pending_depth() >= old(self).spec_limit()) && old(self).pending_cid().len()
                + data@.len() > u64::MAX),
            r is Err ==> r == Err::<Vec<u8>, ExportError>(ExportError::RecursionLimitExceeded) || r
                == Err::<Vec<u8>, ExportError>(ExportError::BlockTooLarge),
            r is Ok ==> {
                &&& final(self).wf()
                &&& r->Ok_0@ == car_record(old(self).pending_cid(), data@)
                &&& final(self).emitted() == old(self).emitted().push(old(self).pending_cid())
                &&& final(self).queued() == old(self).queued() + child_entries(
                    cid_views(links@),
                    old(self).pending_depth(),
                )
                &&& !final(self).has_pending()
            },
    {
        let (cid, depth) = self.current.take().unwrap();
        if links.len() > 0 && depth >= self.limit {
            return Err(ExportError::RecursionLimitExceeded);
        }
        if cid.len() as u64 > u64::MAX - data.len() as u64 {
            return Err(ExportError::BlockTooLarge);
        }
        let record = encode_record(&cid, data);
        let ghost before = self.emitted();
        let ghost old_queue = self.queued();
        let ghost cv = cid@;
        let ghost lv = cid_views(links@);
        assert(!before.contains(cv));
        self.visited.push(cid);
        assert(self.emitted() =~= before.push(cv));
        let mut i: usize = links.len();
        while i > 0
            invariant
                0 <= i <= links@.len(),
                lv == cid_views(links@),
                depth < self.limit || links@.len() == 0,
                depth + 1 <= self.visited@.len(),
                forall|k: int|
                    0 <= k < self.stack@.len() ==> #[trigger] self.stack@[k].1 <= self.limit
                        && self.stack@[k].1 <= self.visited@.len(),
                self.queued() == old_queue + child_entries(lv, depth).take(links@.len() - i),
                self.current is None,
                self.emitted() == before.push(cv),
                !before.contains(cv),
                self.visited@.len() > 0,
                self.visited@[0]@ == self.root@,
                self.root@ == old(self).root@,
                self.limit == old(self).limit,
            decreases i,
        {
            i = i - 1;
            let ghost prev = self.queued();
            let child = links[i].clone();
            assert(child@ == lv[i as int]);
            self.stack.push((child, depth + 1));
            assert(self.queued() =~= prev.push((lv[i as int], (depth + 1) as u64)));
            assert(child_entries(lv, depth)[links@.len() - 1 - i] == (lv[i as int], (depth + 1) as u64));
            assert(self.queued() =~= old_queue + child_entries(lv, depth).take(links@.len() - i));
        }
        assert(child_entries(lv, depth).take(links@.len() as int) =~= child_entries(lv, depth));
        proof {
            assert forall|a: int, b: int|
                0 <= a < self.emitted().len() && 0 <= b < self.emitted().len() && a != b implies
                self.emitted()[a] != self.emitted()[b] by {
                if a < before.len() && b < before.len() {
                } else {
                    if a == before.len() {
                        assert(before[b] == self.emitted()[b]);
                    } else {
                        assert(before[a] == self.emitted()[a]);
                    }
                }
            }
            if before.len() > 0 {
                assert(self.emitted()[0] == before[0]);
            }
        }
        Ok(record)
    }
}

/// The CIDs a walk emits never repeat, and the root comes first.
pub proof fn lemma_walk_emits_once(w: &GraphWalk)
    requires
        w.wf(),
    ensures
        w.emitted().no_duplicates(),
        w.emitted().len() > 0 ==> w.emitted()[0] == w.root_view(),
{
    if w.emitted().len() > 0 {
        assert(w.emitted()[0] == w.visited@[0]@);
    }
}

/// The records of the blocks `order`, in that order, with the bytes that
/// the store `m` holds for them.
pub open spec fn records_of(m: Map<Seq<u8>, StoredView>, order: Seq<Seq<u8>>) -> Seq<u8>
    decreases order.len(),
{
    if order.len() == 0 {
        Seq::empty()
    } else {
        records_of(m, order.drop_last()) + car_record(order.last(), m[order.last()].0)
    }
}

/// Every link of every stored block, and the root itself, is in the store.
pub open spec fn closed_under_links(m: Map<Seq<u8>, StoredView>, root: Seq<u8>) -> bool {
    &&& m.contains_key(root)
    &&& forall|k: Seq<u8>, i: int|
        m.contains_key(k) && 0 <= i < m[k].1.len() ==> m.contains_key(#[trigger] m[k].1[i])
}

/// Every stored block can be framed as a record.
pub open spec fn records_fit(m: Map<Seq<u8>, StoredView>) -> bool {
    forall|k: Seq<u8>| m.contains_key(k) ==> k.len() + (#[trigger] m[k]).0.len() <= u64::MAX
}

/// The queue once the entries at its top that were already emitted are
/// dropped, as `next_wanted` drops them.
pub open spec fn skip_emitted(queue: Seq<(Seq<u8>, u64)>, emitted: Seq<Seq<u8>>) -> Seq<(Seq<u8>, u64)>
    decreases queue.len(),
{
    if queue.len() == 0 {
        queue
    } else if emitted.contains(queue.last().0) {
        skip_emitted(queue.drop_last(), emitted)
    } else {
        queue
    }
}

/// The walk over the store `m` from the given queue and emitted blocks, one
/// emitted block per step: the blocks in the order they are emitted, or the
/// error that ends the walk. `fuel` bounds the steps; one more than the
/// number of stored blocks always suffices.
pub open spec fn walk_outcome(
    m: Map<Seq<u8>, StoredView>,
    queue: Seq<(Seq<u8>, u64)>,
    emitted: Seq<Seq<u8>>,
    limit: u64,
    fuel: nat,
) -> Result<Seq<Seq<u8>>, ExportError>
    decreases fuel,
{
    let q = skip_emitted(queue, emitted);
    if q.len() == 0 {
        Ok(emitted)
    } else if fuel == 0 {
        Err(ExportError::BlockUnavailable)
    } else {
        let c = q.last().0;
        let d = q.last().1;
        if !m.contains_key(c) {
            Err(ExportError::BlockUnavailable)
        } else if m[c].1.len() > 0 && d >= limit {
            Err(ExportError::RecursionLimitExceeded)
        } else if c.len() + m[c].0.len() > u64::MAX {
            Err(ExportError::BlockTooLarge)
        } else {
            walk_outcome(
                m,
                q.drop_last() + child_entries(m[c].1, d),
                emitted.push(c),
                limit,
                (fuel - 1) as nat,
            )
        }
    }
}

/// The depth-first preorder of the blocks below `root` in `m`, or the error
/// that ends the walk: a block missing from the store, a block with links at
/// depth `limit` or deeper, or a block too large for a record.
pub open spec fn export_order(m: Map<Seq<u8>, StoredView>, root: Seq<u8>, limit: u64) -> Result<
    Seq<Seq<u8>>,
    ExportError,
> {
    walk_outcome(m, seq![(root, 0u64)], Seq::empty(), limit, m.dom().len() + 1)
}

proof fn lemma_skip_to(queue: Seq<(Seq<u8>, u64)>, emitted: Seq<Seq<u8>>, k: int)
    requires
        0 <= k < queue.len(),
        !emitted.contains(queue[k].0),
        forall|j: int| k < j < queue.len() ==> emitted.contains(#[trigger] queue[j].0),
    ensures
        skip_emitted(queue, emitted) == queue.take(k + 1),
    decreases queue.len(),
{
    if k == queue.len() - 1 {
        assert(queue.take(k + 1) =~= queue);
    } else {
        let shorter = queue.drop_last();
        assert(emitted.contains(queue[queue.len() - 1].0));
        assert forall|j: int| k < j < shorter.len() implies emitted.contains(#[trigger] shorter[j].0) by {
            assert(shorter[j] == queue[j]);
        }
        lemma_skip_to(shorter, emitted, k);
        assert(shorter.take(k + 1) =~= queue.take(k + 1));
    }
}

proof fn lemma_skip_all(queue: Seq<(Seq<u8>, u64)>, emitted: Seq<Seq<u8>>)
    requires
        forall|j: int| 0 <= j < queue.len() ==> emitted.contains(#[trigger] queue[j].0),
    ensures
        skip_emitted(queue, emitted).len() == 0,
    decreases queue.len(),
{
    if queue.len() > 0 {
        let shorter = queue.drop_last();
        assert(emitted.contains(queue[queue.len() - 1].0));
        assert forall|j: int| 0 <= j < shorter.len() implies emitted.contains(#[trigger] shorter[j].0) by {
            assert(shorter[j] == queue[j]);
        }
        lemma_skip_all(shorter, emitted);
    }
}

proof fn lemma_skip_prefix(queue: Seq<(Seq<u8>, u64)>, emitted: Seq<Seq<u8>>)
    ensures
        skip_emitted(queue, emitted).len() <= queue.len(),
        skip_emitted(queue, emitted) == queue.take(skip_emitted(queue, emitted).len() as int),
        forall|j: int|
            skip_emitted(queue, emitted).len() <= j < queue.len() ==> emitted.contains(
                #[trigger] queue[j].0,
            ),
    decreases queue.len(),
{
    if queue.len() == 0 {
        assert(queue.take(0) =~= queue);
    } else if emitted.contains(queue.last().0) {
        let shorter = queue.drop_last();
        lemma_skip_prefix(shorter, emitted);
        let n = skip_emitted(shorter, emitted).len() as int;
        assert(shorter.take(n) =~= queue.take(n));
        assert forall|j: int| n <= j < queue.len() implies emitted.contains(#[trigger] queue[j].0) by {
            if j < shorter.len() {
                assert(shorter[j] == queue[j]);
            }
        }
    } else {
        assert(queue.take(queue.len() as int) =~= queue);
    }
}

/// Every link of every emitted block is emitted or still queued.
pub open spec fn links_covered(
    m: Map<Seq<u8>, StoredView>,
    queue: Seq<(Seq<u8>, u64)>,
    emitted: Seq<Seq<u8>>,
) -> bool {
    &&& forall|i: int| 0 <= i < emitted.len() ==> m.contains_key(#[trigger] emitted[i])
    &&& forall|i: int, t: int|
        0 <= i < emitted.len() && 0 <= t < m[emitted[i]].1.len() ==> emitted.contains(
            #[trigger] m[emitted[i]].1[t],
        ) || exists|j: int| 0 <= j < queue.len() && queue[j].0 == m[emitted[i]].1[t]
}

/// Every link of every block in `order` is in `order`.
pub open spec fn follows_links(m: Map<Seq<u8>, StoredView>, order: Seq<Seq<u8>>) -> bool {
    forall|i: int, t: int|
        0 <= i < order.len() && 0 <= t < m[order[i]].1.len() ==> order.contains(
            #[trigger] m[order[i]].1[t],
        )
}

proof fn lemma_walk_follows_links(
    m: Map<Seq<u8>, StoredView>,
    queue: Seq<(Seq<u8>, u64)>,
    emitted: Seq<Seq<u8>>,
    limit: u64,
    fuel: nat,
)
    requires
        links_covered(m, queue, emitted),
    ensures
        walk_outcome(m, queue, emitted, limit, fuel) matches Ok(order) ==> follows_links(m, order),
    decreases fuel,
{
    let q = skip_emitted(queue, emitted);
    lemma_skip_prefix(queue, emitted);
    if q.len() == 0 {
        assert forall|i: int, t: int|
            0 <= i < emitted.len() && 0 <= t < m[emitted[i]].1.len() implies emitted.contains(
                #[trigger] m[emitted[i]].1[t],
            ) by {
            let l = m[emitted[i]].1[t];
            if !emitted.contains(l) {
                let j = choose|j: int| 0 <= j < queue.len() && queue[j].0 == l;
                assert(emitted.contains(queue[j].0));
            }
        }
    } else if fuel > 0 {
        let c = q.last().0;
        let d = q.last().1;
        if m.contains_key(c) && !(m[c].1.len() > 0 && d >= limit) && !(c.len() + m[c].0.len()
            > u64::MAX) {
            let n = q.len() as int;
            let q2 = q.drop_last() + child_entries(m[c].1, d);
            let e2 = emitted.push(c);
            assert(queue[n - 1] == q[n - 1]);
            assert forall|i: int| 0 <= i < e2.len() implies m.contains_key(#[trigger] e2[i]) by {
                if i < emitted.len() {
                    assert(e2[i] == emitted[i]);
                }
            }
            assert forall|i: int, t: int|
                0 <= i < e2.len() && 0 <= t < m[e2[i]].1.len() implies e2.contains(
                    #[trigger] m[e2[i]].1[t],
                ) || exists|j: int| 0 <= j < q2.len() && q2[j].0 == m[e2[i]].1[t] by {
                let l = m[e2[i]].1[t];
                if i == emitted.len() {
                    let k = m[c].1.len() - 1 - t;
                    assert(q2[n - 1 + k] == child_entries(m[c].1, d)[k]);
                    assert(q2[n - 1 + k].0 == l);
                } else {
                    assert(e2[i] == emitted[i]);
                    assert(m[emitted[i]].1[t] == l);
                    if emitted.contains(l) {
                        let a = choose|a: int| 0 <= a < emitted.len() && emitted[a] == l;
                        assert(e2[a] == l);
                    } else {
                        let j = choose|j: int| 0 <= j < queue.len() && queue[j].0 == l;
                        if j >= n {
                            assert(emitted.contains(queue[j].0));
                        } else if j == n - 1 {
                            assert(e2[emitted.len() as int] == l);
                        } else {
                            assert(q2[j] == q[j]);
                            assert(q[j] == queue[j]);
                        }
                    }
                }
            }
            lemma_walk_follows_links(m, q2, e2, limit, (fuel - 1) as nat);
        }
    }
}

/// An export that succeeds holds every block that an exported block links
/// to: no link of the graph is left out.
pub proof fn lemma_export_follows_links(m: Map<Seq<u8>, StoredView>, root: Seq<u8>, limit: u64)
    ensures
        export_order(m, root, limit) matches Ok(order) ==> follows_links(m, order),
{
    lemma_walk_follows_links(m, seq![(root, 0u64)], Seq::empty(), limit, m.dom().len() + 1);
}

/// Exports the block graph below `root` from `store` as an archive: the
/// header naming the root, then one record per block in depth-first
/// preorder, each block once and the root first. The result is exactly the
/// walk `export_order` describes: its blocks' records, or its error.
pub fn export_graph(store: &MemoryStore, root: &Cid, limit: u64) -> (r: Result<Vec<u8>, ExportError>)
    requires
        root@.len() < u64::MAX,
    ensures
        match export_order(store@, root@, limit) {
            Ok(order) => r is Ok && r->Ok_0@ == car_header(seq![root@]) + records_of(store@, order),
            Err(e) => r == Err::<Vec<u8>, ExportError>(e),
        },
        r is Ok ==> exists|order: Seq<Seq<u8>>|
            {
                &&& export_order(store@, root@, limit) == Ok::<Seq<Seq<u8>>, ExportError>(order)
                &&& order.no_duplicates()
                &&& order.len() >= 1
                &&& order[0] == root@
                &&& forall|i: int| 0 <= i < order.len() ==> store@.contains_key(#[trigger] order[i])
                &&& follows_links(store@, order)
            },
        !store@.contains_key(root@) ==> r == Err::<Vec<u8>, ExportError>(ExportError::BlockUnavailable),
        closed_under_links(store@, root@) && records_fit(store@) ==> r is Ok || r == Err::<
            Vec<u8>,
            ExportError,
        >(ExportError::RecursionLimitExceeded),
{
    let ghost owed = closed_under_links(store@, root@) && records_fit(store@);
    let ghost target = export_order(store@, root@, limit);
    let mut walk = GraphWalk::new(root.clone(), limit);
    let mut out = walk.header();
    let ghost head = out@;
    proof {
        lemma_store_finite(store);
    }
    loop
        invariant
            walk.wf(),
            !walk.has_pending(),
            walk.root_view() == root@,
            walk.spec_limit() == limit,
            store@.dom().finite(),
            out@ == head + records_of(store@, walk.emitted()),
            head == car_header(seq![root@]),
            forall|i: int| 0 <= i < walk.emitted().len() ==> store@.contains_key(
                #[trigger] walk.emitted()[i],
            ),
            walk.emitted().len() <= store@.dom().len(),
            walk.emitted().len() > 0 ==> walk.emitted()[0] == root@,
            target == export_order(store@, root@, limit),
            target == walk_outcome(
                store@,
                walk.queued(),
                walk.emitted(),
                limit,
                (store@.dom().len() + 1 - walk.emitted().len()) as nat,
            ),
            owed == (closed_under_links(store@, root@) && records_fit(store@)),
            owed ==> forall|j: int|
                0 <= j < walk.queued().len() ==> store@.contains_key(#[trigger] walk.queued()[j].0),
        decreases store@.dom().len() - walk.emitted().len(),
    {
        let ghost before = walk.emitted();
        let ghost queue = walk.queued();
        let ghost fuel = (store@.dom().len() + 1 - before.len()) as nat;
        proof {
            lemma_walk_emits_once(&walk);
        }
        let cid = match walk.next_wanted() {
            Some(c) => c,
            None => {
                proof {
                    lemma_walk_emits_once(&walk);
                    assert(walk.queued().len() == walk.stack@.len());
                    assert(walk.visited@.len() > 0);
                    lemma_skip_all(queue, before);
                    lemma_export_follows_links(store@, root@, limit);
                }
                return Ok(out);
            },
        };
        let ghost depth = walk.pending_depth();
        proof {
            let k = choose|k: int|
                {
                    &&& 0 <= k < queue.len()
                    &&& walk.queued() == queue.take(k)
                    &&& queue[k] == (cid@, walk.pending_depth())
                    &&& forall|j: int| k < j < queue.len() ==> before.contains(#[trigger] queue[j].0)
                };
            lemma_skip_to(queue, before, k);
            assert(queue.take(k + 1).drop_last() =~= queue.take(k));
            if owed {
                assert(store@.contains_key(queue[k].0));
                assert forall|j: int| 0 <= j < walk.queued().len() implies store@.contains_key(
                    #[trigger] walk.queued()[j].0,
                ) by {
                    assert(walk.queued()[j] == queue[j]);
                }
            }
        }
        let data = match store.get(&cid) {
            Some(d) => d,
            None => return Err(ExportError::BlockUnavailable),
        };
        let links = match store.links(&cid) {
            Some(l) => l,
            None => return Err(ExportError::BlockUnavailable),
        };
        let ghost queue2 = walk.queued();
        proof {
            let grown = before.push(cid@);
            assert(grown.no_duplicates()) by {
                assert forall|a: int, b: int|
                    0 <= a < grown.len() && 0 <= b < grown.len() && a != b implies grown[a]
                    != grown[b] by {
                    if a < before.len() && b < before.len() {
                        assert(grown[a] == before[a] && grown[b] == before[b]);
                    } else if a == before.len() {
                        assert(grown[b] == before[b]);
                    } else {
                        assert(grown[a] == before[a]);
                    }
                }
            }
            grown.unique_seq_to_set();
            assert forall|x: Seq<u8>| grown.to_set().contains(x) implies store@.dom().contains(x) by {
                let i = choose|i: int| 0 <= i < grown.len() && grown[i] == x;
                if i < before.len() {
                    assert(walk.emitted()[i] == x);
                }
            }
            vstd::set_lib::lemma_len_subset(grown.to_set(), store@.dom());
            assert(fuel >= 1);
            assert(store@[cid@].0 == data@);
            assert(cid_views(links@).len() == links@.len());
        }
        let record = match walk.accept(data.as_slice(), links) {
            Ok(rec) => rec,
            Err(e) => return Err(e),
        };
        proof {
            let after = walk.emitted();
            assert(after.drop_last() =~= before);
            lemma_walk_emits_once(&walk);
            let lv = store@[cid@].1;
            assert((store@.dom().len() + 1 - after.len()) as nat == (fuel - 1) as nat);
            if owed {
                assert forall|j: int| 0 <= j < walk.queued().len() implies store@.contains_key(
                    #[trigger] walk.queued()[j].0,
                ) by {
                    if j < queue2.len() {
                        assert(walk.queued()[j] == queue2[j]);
                    } else {
                        let i = j - queue2.len();
                        assert(walk.queued()[j] == child_entries(lv, depth)[i]);
                        assert(store@.contains_key(lv[lv.len() - 1 - i]));
                    }
                }
            }
        }
        append_all(&mut out, &record);
        assert(out@ =~= head + records_of(store@, walk.emitted()));
    }
}

fn append_all(out: &mut Vec<u8>, bytes: &Vec<u8>)
    ensures
        final(out)@ == old(out)@ + bytes@,
{
    let mut i: usize = 0;
    while i < bytes.len()
        invariant
            0 <= i <= bytes@.len(),
            out@ == old(out)@ + bytes@.subrange(0, i as int),
        decreases bytes@.len() - i,
    {
        out.push(bytes[i]);
        i = i + 1;
        assert(out@ =~= old(out)@ + bytes@.subrange(0, i as int));
    }
    assert(bytes@.subrange(0, bytes@.len() as int) =~= bytes@);
}

} // verus!
