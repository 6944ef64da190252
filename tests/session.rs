use content_loader::{ContextId, LoaderContext, SessionRefs};

#[test]
fn context_id_conversions() {
    let id = ContextId::from(7u64);
    assert_eq!(id, ContextId(7));
    assert_eq!(u64::from(id), 7);
    assert!(ContextId(1) < ContextId(2));
    let ctx = LoaderContext::from_path(id);
    assert_eq!(ctx.id(), ContextId(7));
}

#[test]
fn close_fires_once_across_clones() {
    let n = 8;
    let mut refs = SessionRefs::new(ContextId(3));
    for _ in 1..n {
        refs.acquire();
    }
    assert_eq!(refs.holders_now(), n);
    let mut fired = 0;
    for i in 0..n {
        let fire = refs.release();
        if fire {
            fired += 1;
            assert_eq!(i, n - 1);
        }
    }
    assert_eq!(fired, 1);
    assert!(refs.closed());
    assert_eq!(refs.id(), ContextId(3));
}

#[test]
fn single_holder_fires_on_release() {
    let mut refs = SessionRefs::new(ContextId(9));
    assert!(!refs.closed());
    assert!(refs.release());
    assert!(refs.closed());
}
