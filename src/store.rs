use vstd::prelude::*;
use crate::content_id::Cid;
use crate::loader::{spec_after_store, LoadStep, LoadedCid, Source};

verus! {

/// What the store holds for one CID: the block's bytes and its links.
pub type StoredView = (Seq<u8>, Seq<Seq<u8>>);

/// The CIDs of a list of links, as byte sequences.
pub open spec fn cid_views(links: Seq<Cid>) -> Seq<Seq<u8>> {
    links.map_values(|c: Cid| c@)
}

#[derive(Debug)]
struct StoredBlock {
    cid: Cid,
    data: Vec<u8>,
    links: Vec<Cid>,
}

/// The contents of a log of writes, where a later write of a CID replaces
/// an earlier one.
spec fn contents_of(log: Seq<StoredBlock>) -> Map<Seq<u8>, StoredView>
    decreases log.len(),
{
    if log.len() == 0 {
        Map::empty()
    } else {
        let last = log.last();
        contents_of(log.drop_last()).insert(last.cid@, (last.data@, cid_views(last.links@)))
    }
}

/// An in-memory block store: `get`, `put` and `has` over CIDs.
#[derive(Debug)]
pub struct MemoryStore {
    log: Vec<StoredBlock>,
}

impl View for MemoryStore {
    type V = Map<Seq<u8>, StoredView>;

    closed spec fn view(&self) -> Map<Seq<u8>, StoredView> {
        contents_of(self.log@)
    }
}

/// The bytes that a store with contents `m` holds for `cid`.
pub open spec fn stored_bytes(m: Map<Seq<u8>, StoredView>, cid: Seq<u8>) -> Option<Seq<u8>> {
    if m.contains_key(cid) {
        Some(m[cid].0)
    } else {
        None
    }
}

/// The contents after the background publisher stored a fetched block:
/// links that could not be parsed are stored as no links.
pub open spec fn published(
    m: Map<Seq<u8>, StoredView>,
    cid: Seq<u8>,
    data: Seq<u8>,
    links: Option<Vec<Cid>>,
) -> Map<Seq<u8>, StoredView> {
    match links {
        Some(l) => m.insert(cid, (data, cid_views(l@))),
        None => m.insert(cid, (data, Seq::empty())),
    }
}

proof fn lemma_contents_prefix(log: Seq<StoredBlock>, i: int, cid: Seq<u8>)
    requires
        0 <= i <= log.len(),
        forall|j: int| i <= j < log.len() ==> log[j].cid@ != cid,
    ensures
        contents_of(log).contains_key(cid) == contents_of(log.subrange(0, i)).contains_key(cid),
        contents_of(log).contains_key(cid) ==> contents_of(log)[cid] == contents_of(
            log.subrange(0, i),
        )[cid],
    decreases log.len() - i,
{
    if i < log.len() {
        let shorter = log.drop_last();
        assert(shorter.subrange(0, i) =~= log.subrange(0, i));
        lemma_contents_prefix(shorter, i, cid);
    } else {
        assert(log.subrange(0, i) =~= log);
    }
}

impl MemoryStore {
    /// An empty store.
    pub fn new() -> (r: MemoryStore)
        ensures
            r@ == Map::<Seq<u8>, StoredView>::empty(),
    {
        MemoryStore { log: Vec::new() }
    }

    /// Stores a block with its links, replacing what was stored for `cid`.
    pub fn put(&mut self, cid: Cid, data: Vec<u8>, links: Vec<Cid>)
        ensures
            final(self)@ == old(self)@.insert(cid@, (data@, cid_views(links@))),
    {
        let ghost before = self.log@;
        self.log.push(StoredBlock { cid, data, links });
        proof {
            assert(self.log@.drop_last() =~= before);
        }
    }

    /// The position in the log of the latest write of `cid`.
    fn find(&self, cid: &Cid) -> (r: Option<usize>)
        ensures
            r is Some <==> self@.contains_key(cid@),
            r is Some ==> r->0 < self.log@.len() && self.log@[r->0 as int].cid@ == cid@
                && self@[cid@] == (
                self.log@[r->0 as int].data@,
                cid_views(self.log@[r->0 as int].links@),
            ),
    {
        let mut i: usize = self.log.len();
        while i > 0
            invariant
                0 <= i <= self.log@.len(),
                forall|j: int| i <= j < self.log@.len() ==> self.log@[j].cid@ != cid@,
            decreases i,
        {
            if self.log[i - 1].cid.same(cid) {
                proof {
                    lemma_contents_prefix(self.log@, i as int, cid@);
                    let prefix = self.log@.subrange(0, i as int);
                    assert(prefix.drop_last() =~= self.log@.subrange(0, i - 1));
                }
                return Some(i - 1);
            }
            i = i - 1;
        }
        proof {
            lemma_contents_prefix(self.log@, 0, cid@);
        }
        None
    }

    /// Whether the store holds `cid`.
    pub fn has(&self, cid: &Cid) -> (r: bool)
        ensures
            r == self@.contains_key(cid@),
    {
        self.find(cid).is_some()
    }

    /// The bytes stored for `cid`, if any.
    pub fn get(&self, cid: &Cid) -> (r: Option<Vec<u8>>)
        ensures
            r is Some <==> stored_bytes(self@, cid@) is Some,
            r is Some ==> r->0@ == stored_bytes(self@, cid@)->0,
    {
        match self.find(cid) {
            Some(i) => {
                let data = self.log[i].data.clone();
                proof {
                    assert(data@ =~= self.log@[i as int].data@);
                }
                Some(data)
            },
            None => None,
        }
    }

    /// The links stored for `cid`, if any.
    pub fn links(&self, cid: &Cid) -> (r: Option<Vec<Cid>>)
        ensures
            r is Some <==> self@.contains_key(cid@),
            r is Some ==> cid_views(r->0@) == self@[cid@].1,
    {
        match self.find(cid) {
            Some(i) => {
                let stored = &self.log[i].links;
                let mut out: Vec<Cid> = Vec::new();
                let mut k: usize = 0;
                while k < stored.len()
                    invariant
                        0 <= k <= stored@.len(),
                        out@.len() == k,
                        forall|j: int| 0 <= j < k ==> out@[j]@ == stored@[j]@,
                    decreases stored@.len() - k,
                {
                    out.push(stored[k].clone());
                    k = k + 1;
                }
                proof {
                    assert(cid_views(out@) =~= cid_views(stored@));
                }
                Some(out)
            },
            None => None,
        }
    }

    /// The first step of a load against this store: a block held locally is
    /// delivered from the store and no remote source is asked.
    pub fn begin_load(&self, cid: &Cid) -> (r: LoadStep)
        ensures
            stored_bytes(self@, cid@) is Some ==> r is Deliver && r->Deliver_0.data@
                == stored_bytes(self@, cid@)->0 && r->Deliver_0.source is Store,
            stored_bytes(self@, cid@) is None ==> r is Race,
    {
        match self.get(cid) {
            Some(data) => LoadStep::Deliver(LoadedCid { data, source: Source::Store }),
            None => LoadStep::Race,
        }
    }

    /// Background publication of a block fetched from a remote source: it
    /// is stored with its links, or with none where they could not be
    /// parsed. Returns whether the swarm is to be told of the new block.
    pub fn publish(&mut self, cid: Cid, data: Vec<u8>, links: Option<Vec<Cid>>) -> (announce: bool)
        ensures
            final(self)@ == published(old(self)@, cid@, data@, links),
            announce,
    {
        let ghost parsed = links;
        let stored = publication_links(links);
        proof {
            if parsed is None {
                assert(stored@ =~= Seq::<Cid>::empty());
                assert(cid_views(stored@) =~= Seq::<Seq<u8>>::empty());
            }
        }
        self.put(cid, data, stored);
        true
    }
}

proof fn lemma_contents_finite(log: Seq<StoredBlock>)
    ensures
        contents_of(log).dom().finite(),
    decreases log.len(),
{
    if log.len() > 0 {
        lemma_contents_finite(log.drop_last());
    }
}

/// The links a published block is stored with: those parsed from it, or
/// none where parsing failed.
pub fn publication_links(parsed: Option<Vec<Cid>>) -> (r: Vec<Cid>)
    ensures
        match parsed {
            Some(l) => r == l,
            None => r@.len() == 0,
        },
{
    match parsed {
        Some(l) => l,
        None => Vec::new(),
    }
}

/// A store holds finitely many blocks.
pub proof fn lemma_store_finite(s: &MemoryStore)
    ensures
        s@.dom().finite(),
{
    lemma_contents_finite(s.log@);
}

/// A block that the background publisher stored for `cid` is afterwards
/// served from the local store, byte for byte as it was fetched.
pub proof fn lemma_published_block_is_local(
    m: Map<Seq<u8>, StoredView>,
    cid: Seq<u8>,
    data: Seq<u8>,
    links: Option<Vec<Cid>>,
)
    ensures
        stored_bytes(published(m, cid, data, links), cid) == Some(data),
{
}

/// A load of a block that the store holds is answered from the store: the
/// first step delivers the stored bytes and starts no remote source.
pub proof fn lemma_local_hit_needs_no_remote(
    m: Map<Seq<u8>, StoredView>,
    cid: Seq<u8>,
    data: Vec<u8>,
)
    requires
        m.contains_key(cid),
        data@ == m[cid].0,
    ensures
        stored_bytes(m, cid) == Some(data@),
        spec_after_store(Ok(Some(data))) == LoadStep::Deliver(
            LoadedCid { data, source: Source::Store },
        ),
{
}

} // verus!
