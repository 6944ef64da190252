use content_loader::{
    after_store, bitswap_outcome, decide_race, provider_hints, publication_links, should_announce, verify_hash, Branch, Cid, FetchOutcome, LoadError,
    LoadStep, LoadedCid, MemoryStore, Race, RacePhase, Source,
};
use multihash_codetable::{Code, MultihashDigest};

const RAW: u64 = 0x55;

fn cid_of(data: &[u8]) -> Cid {
    let c = cid::Cid::new_v1(RAW, Code::Sha2_256.digest(data));
    Cid::from_bytes(c.to_bytes())
}

fn found(data: &[u8], source: Source) -> FetchOutcome {
    FetchOutcome::Found(LoadedCid { data: data.to_vec(), source })
}

fn delivered(step: LoadStep) -> LoadedCid {
    match step {
        LoadStep::Deliver(l) => l,
        _ => panic!("expected a delivery"),
    }
}

fn failure(step: LoadStep) -> LoadError {
    match step {
        LoadStep::Fail(e) => e,
        _ => panic!("expected a failure"),
    }
}

#[test]
fn local_hit_is_served_without_remote() {
    let mut store = MemoryStore::new();
    let data = b"hello local".to_vec();
    let cid = cid_of(&data);
    store.put(cid.clone(), data.clone(), vec![]);
    match store.begin_load(&cid) {
        LoadStep::Deliver(l) => {
            assert_eq!(l.data, data);
            assert!(matches!(l.source, Source::Store));
        }
        _ => panic!("a stored block must be delivered from the store"),
    }
    let other = cid_of(b"elsewhere");
    assert!(matches!(store.begin_load(&other), LoadStep::Race));
}

#[test]
fn store_answers_decide_first_step() {
    let l = delivered(after_store(Ok(Some(vec![1, 2, 3]))));
    assert_eq!(l.data, vec![1, 2, 3]);
    assert!(matches!(l.source, Source::Store));
    assert!(matches!(after_store(Ok(None)), LoadStep::Race));
    assert!(matches!(after_store(Err(())), LoadStep::Race));
}

#[test]
fn both_unavailable_is_offline() {
    for first in [Branch::Bitswap, Branch::Gateway] {
        let step = decide_race(false, first, FetchOutcome::Unavailable, FetchOutcome::Unavailable);
        assert_eq!(failure(step), LoadError::Offline);
    }
}

#[test]
fn both_missing_is_not_found() {
    for first in [Branch::Bitswap, Branch::Gateway] {
        let step = decide_race(false, first, FetchOutcome::Missing, FetchOutcome::Missing);
        assert_eq!(failure(step), LoadError::NotFound);
    }
    let step = decide_race(false, Branch::Bitswap, FetchOutcome::Unavailable, FetchOutcome::Missing);
    assert_eq!(failure(step), LoadError::NotFound);
    let step = decide_race(false, Branch::Gateway, FetchOutcome::Missing, FetchOutcome::Unavailable);
    assert_eq!(failure(step), LoadError::NotFound);
}

#[test]
fn first_hit_wins_the_race() {
    let mut race = Race::new(false);
    let step = race.on_finished(Branch::Gateway, found(b"gw", Source::Http("g".to_string())));
    assert_eq!(delivered(step).data, b"gw".to_vec());
    assert_eq!(race.phase(), RacePhase::Done);
}

#[test]
fn escalates_to_the_slower_source() {
    let mut race = Race::new(false);
    let step = race.on_finished(Branch::Bitswap, FetchOutcome::Missing);
    assert!(matches!(step, LoadStep::Await(Branch::Gateway)));
    assert_eq!(
        race.phase(),
        RacePhase::WaitingOnSecond { first: Branch::Bitswap, first_unavailable: false }
    );
    let step = race.on_finished(Branch::Gateway, found(b"late", Source::Http("g".to_string())));
    let l = delivered(step);
    assert_eq!(l.data, b"late".to_vec());
    assert!(matches!(l.source, Source::Http(ref s) if s == "g"));
    assert_eq!(race.phase(), RacePhase::Done);
}

#[test]
fn unavailable_first_then_hit() {
    let l = delivered(decide_race(false, Branch::Gateway, FetchOutcome::Unavailable, found(b"p", Source::Bitswap)));
    assert_eq!(l.data, b"p".to_vec());
    assert!(matches!(l.source, Source::Bitswap));
}

#[test]
fn published_block_loads_locally() {
    let mut store = MemoryStore::new();
    let data = b"fetched from a gateway".to_vec();
    let cid = cid_of(&data);
    let link = cid_of(b"child");
    assert!(store.publish(cid.clone(), data.clone(), Some(vec![link.clone()])));
    let l = delivered(store.begin_load(&cid));
    assert_eq!(l.data, data);
    assert!(matches!(l.source, Source::Store));
    assert_eq!(store.links(&cid).unwrap(), vec![link]);
}

#[test]
fn publish_without_parsed_links_stores_none() {
    let mut store = MemoryStore::new();
    let cid = cid_of(b"x");
    store.publish(cid.clone(), b"x".to_vec(), None);
    assert!(store.has(&cid));
    assert_eq!(store.links(&cid).unwrap(), Vec::<Cid>::new());
    assert_eq!(store.get(&cid).unwrap(), b"x".to_vec());
}

#[test]
fn later_put_replaces_earlier() {
    let mut store = MemoryStore::new();
    let cid = cid_of(b"k");
    store.put(cid.clone(), b"one".to_vec(), vec![]);
    store.put(cid.clone(), b"two".to_vec(), vec![]);
    assert_eq!(store.get(&cid).unwrap(), b"two".to_vec());
    assert!(!store.has(&cid_of(b"absent")));
    assert_eq!(store.get(&cid_of(b"absent")), None);
}

#[test]
fn verify_hash_checks_digest() {
    let data = b"content".to_vec();
    let cid = cid_of(&data);
    assert_eq!(verify_hash(&cid, &data), Some(true));
    assert_eq!(verify_hash(&cid, b"tampered"), Some(false));
    assert_eq!(verify_hash(&Cid::from_bytes(vec![0xff]), &data), None);
    let v0 = cid::Cid::new_v0(Code::Sha2_256.digest(&data)).unwrap();
    assert_eq!(verify_hash(&Cid::from_bytes(v0.to_bytes()), &data), Some(true));
}

#[test]
fn provider_hints_dedupe_and_fallback() {
    let hints = provider_hints(Some(Ok(vec![vec![1], vec![2], vec![1]])));
    assert_eq!(hints, vec![vec![1], vec![2]]);
    assert!(provider_hints(Some(Err(()))).is_empty());
    assert!(provider_hints(None).is_empty());
}

#[test]
fn cid_equality_is_bytewise() {
    let a = cid_of(b"a");
    assert!(a == a.clone());
    assert!(a != cid_of(b"b"));
    assert!(a.same(&Cid::from_bytes(a.as_bytes().to_vec())));
}

#[test]
fn failed_store_is_passed_over() {
    let step = decide_race(true, Branch::Bitswap, FetchOutcome::Missing, found(b"gw", Source::Http("g".to_string())));
    assert_eq!(delivered(step).data, b"gw".to_vec());
    let step = decide_race(true, Branch::Gateway, FetchOutcome::Unavailable, FetchOutcome::Unavailable);
    assert_eq!(failure(step), LoadError::Transport);
    let step = decide_race(true, Branch::Gateway, FetchOutcome::Missing, FetchOutcome::Unavailable);
    assert_eq!(failure(step), LoadError::Transport);
}

#[test]
fn bitswap_outcomes() {
    assert!(matches!(bitswap_outcome(None), FetchOutcome::Unavailable));
    assert!(matches!(bitswap_outcome(Some(Err(()))), FetchOutcome::Missing));
    match bitswap_outcome(Some(Ok(vec![7]))) {
        FetchOutcome::Found(l) => {
            assert_eq!(l.data, vec![7]);
            assert!(matches!(l.source, Source::Bitswap));
        }
        _ => panic!("expected a found block"),
    }
}

#[test]
fn publication_decisions() {
    let link = cid_of(b"l");
    assert_eq!(publication_links(Some(vec![link.clone()])), vec![link]);
    assert!(publication_links(None).is_empty());
    assert!(should_announce(true, true));
    assert!(!should_announce(false, true));
    assert!(!should_announce(true, false));
}
