use content_loader::{
    begin_ranged, is_sniff_trap, Materialize, MaterializeStep, encode_header, encode_record, export_graph, export_range, push_varint, ByteRange, Cid,
    ExportError, GraphWalk, MemoryStore, RangeWindow,
};
use multihash_codetable::{Code, MultihashDigest};

const RAW: u64 = 0x55;
const DAG_PB: u64 = 0x70;

fn cid_of(codec: u64, data: &[u8]) -> Cid {
    let c = cid::Cid::new_v1(codec, Code::Sha2_256.digest(data));
    Cid::from_bytes(c.to_bytes())
}

fn varint(n: u64) -> Vec<u8> {
    let mut v = Vec::new();
    push_varint(&mut v, n);
    v
}

/// Splits an archive into its header body and its (cid, data) records.
fn read_archive(bytes: &[u8], cid_len: usize) -> (Vec<u8>, Vec<(Vec<u8>, Vec<u8>)>) {
    fn read_varint(b: &[u8], pos: &mut usize) -> usize {
        let mut n = 0usize;
        let mut shift = 0;
        loop {
            let byte = b[*pos];
            *pos += 1;
            n |= ((byte & 0x7f) as usize) << shift;
            if byte < 0x80 {
                return n;
            }
            shift += 7;
        }
    }
    let mut pos = 0;
    let hlen = read_varint(bytes, &mut pos);
    let header = bytes[pos..pos + hlen].to_vec();
    pos += hlen;
    let mut records = Vec::new();
    while pos < bytes.len() {
        let len = read_varint(bytes, &mut pos);
        let rec = &bytes[pos..pos + len];
        records.push((rec[..cid_len].to_vec(), rec[cid_len..].to_vec()));
        pos += len;
    }
    (header, records)
}

#[test]
fn varint_encoding() {
    assert_eq!(varint(0), vec![0]);
    assert_eq!(varint(127), vec![127]);
    assert_eq!(varint(128), vec![0x80, 0x01]);
    assert_eq!(varint(300), vec![0xac, 0x02]);
}

#[test]
fn header_is_dag_cbor_roots_and_version() {
    let root = cid_of(DAG_PB, b"root");
    let header = encode_header(&vec![root.clone()]);
    let cid_bytes = root.as_bytes();
    let mut body = vec![0xa2, 0x65];
    body.extend_from_slice(b"roots");
    body.push(0x81);
    body.extend_from_slice(&[0xd8, 0x2a, 0x58, (cid_bytes.len() + 1) as u8, 0x00]);
    body.extend_from_slice(cid_bytes);
    body.push(0x67);
    body.extend_from_slice(b"version");
    body.push(0x01);
    let mut expected = varint(body.len() as u64);
    expected.extend_from_slice(&body);
    assert_eq!(header, expected);
}

#[test]
fn record_is_length_cid_data() {
    let cid = cid_of(RAW, b"abc");
    let rec = encode_record(&cid, b"abc");
    let mut expected = varint((cid.len() + 3) as u64);
    expected.extend_from_slice(cid.as_bytes());
    expected.extend_from_slice(b"abc");
    assert_eq!(rec, expected);
}

#[test]
fn export_dag_root_and_two_children() {
    let a = cid_of(RAW, b"A");
    let b = cid_of(RAW, b"B");
    let r = cid_of(DAG_PB, b"R");
    let mut store = MemoryStore::new();
    store.put(a.clone(), b"A".to_vec(), vec![]);
    store.put(b.clone(), b"B".to_vec(), vec![]);
    store.put(r.clone(), b"R".to_vec(), vec![a.clone(), b.clone()]);
    let out = export_graph(&store, &r, 16).unwrap();
    let header = encode_header(&vec![r.clone()]);
    assert_eq!(&out[..header.len()], &header[..]);
    let (_, records) = read_archive(&out, r.len());
    assert_eq!(records.len(), 3);
    assert_eq!(records[0], (r.as_bytes().to_vec(), b"R".to_vec()));
    assert_eq!(records[1], (a.as_bytes().to_vec(), b"A".to_vec()));
    assert_eq!(records[2], (b.as_bytes().to_vec(), b"B".to_vec()));
}

#[test]
fn export_visits_shared_block_once() {
    let shared = cid_of(RAW, b"S");
    let left = cid_of(DAG_PB, b"L");
    let right = cid_of(DAG_PB, b"Rt");
    let root = cid_of(DAG_PB, b"root");
    let mut store = MemoryStore::new();
    store.put(shared.clone(), b"S".to_vec(), vec![]);
    store.put(left.clone(), b"L".to_vec(), vec![shared.clone()]);
    store.put(right.clone(), b"Rt".to_vec(), vec![shared.clone(), root.clone()]);
    store.put(root.clone(), b"root".to_vec(), vec![left.clone(), right.clone()]);
    let out = export_graph(&store, &root, 16).unwrap();
    let (_, records) = read_archive(&out, root.len());
    let order: Vec<Vec<u8>> = records.iter().map(|(c, _)| c.clone()).collect();
    assert_eq!(
        order,
        vec![
            root.as_bytes().to_vec(),
            left.as_bytes().to_vec(),
            shared.as_bytes().to_vec(),
            right.as_bytes().to_vec()
        ]
    );
}

#[test]
fn export_deeper_than_limit_fails() {
    let mut store = MemoryStore::new();
    let mut chain = Vec::new();
    for i in 0..5u8 {
        chain.push(cid_of(DAG_PB, &[i]));
    }
    for i in 0..5 {
        let links = if i + 1 < 5 { vec![chain[i + 1].clone()] } else { vec![] };
        store.put(chain[i].clone(), vec![i as u8], links);
    }
    assert_eq!(export_graph(&store, &chain[0], 3), Err(ExportError::RecursionLimitExceeded));
    assert!(export_graph(&store, &chain[0], 4).is_ok());
}

#[test]
fn export_missing_block_fails() {
    let store = MemoryStore::new();
    let root = cid_of(DAG_PB, b"nowhere");
    assert_eq!(export_graph(&store, &root, 4), Err(ExportError::BlockUnavailable));
    let mut store = MemoryStore::new();
    store.put(root.clone(), b"r".to_vec(), vec![cid_of(RAW, b"gone")]);
    assert_eq!(export_graph(&store, &root, 4), Err(ExportError::BlockUnavailable));
}

#[test]
fn walk_step_by_step() {
    let a = cid_of(RAW, b"A");
    let r = cid_of(DAG_PB, b"R");
    let mut walk = GraphWalk::new(r.clone(), 1);
    let first = walk.next_wanted().unwrap();
    assert!(first == r);
    let rec = walk.accept(b"R", vec![a.clone(), r.clone()]).unwrap();
    assert_eq!(rec, encode_record(&r, b"R"));
    let second = walk.next_wanted().unwrap();
    assert!(second == a);
    assert_eq!(
        walk.accept(b"A", vec![r.clone()]),
        Err(ExportError::RecursionLimitExceeded)
    );
}

#[test]
fn range_of_hundred_bytes() {
    let mut object = b"<html><body>".to_vec();
    while object.len() < 100 {
        object.push(b'a' + (object.len() % 26) as u8);
    }
    let ranged = export_range(&object, Some(ByteRange { start: 10, end: 20 }));
    assert_eq!(ranged.body.len(), 10);
    assert_eq!(ranged.body, object[10..20].to_vec());
    assert_eq!(ranged.size_hint, Some(10));
    let whole = export_range(&object, None);
    assert_eq!(whole.body, object);
    assert_eq!(whole.size_hint, Some(100));
    assert_eq!(ranged.mime, whole.mime);
    assert_eq!(ranged.mime, "text/html");
    let shifted = export_range(&object[10..20], None);
    assert_ne!(shifted.mime, ranged.mime);
}

#[test]
fn range_edges() {
    let object: Vec<u8> = (0..50u8).collect();
    let past = export_range(&object, Some(ByteRange { start: 60, end: 80 }));
    assert!(past.body.is_empty());
    assert_eq!(past.size_hint, Some(0));
    let tail = export_range(&object, Some(ByteRange { start: 40, end: 80 }));
    assert_eq!(tail.body, object[40..].to_vec());
    let inverted = export_range(&object, Some(ByteRange { start: 30, end: 10 }));
    assert!(inverted.body.is_empty());
    let empty = export_range(&[], None);
    assert!(empty.body.is_empty());
    assert_eq!(empty.size_hint, Some(0));
}

#[test]
fn window_clips_stream_chunks() {
    let w = RangeWindow::new(Some(ByteRange { start: 10, end: 20 }));
    assert_eq!(w.clip(0, &[0u8; 8]), Vec::<u8>::new());
    assert_eq!(w.clip(8, &[1, 2, 3, 4]), vec![3, 4]);
    assert_eq!(w.clip(18, &[5, 6, 7]), vec![5, 6]);
    assert_eq!(w.size_hint(None), None);
    assert_eq!(w.size_hint(Some(15)), Some(5));
}

#[test]
fn sniff_trap_gets_generic_type() {
    let sample = [0x00, 0x00, 0x00, 0x0C, 0x66, 0x74, 0x79, 0x70, 0x61, 0x61, 0x61, 0x61];
    assert!(is_sniff_trap(&sample));
    let head = begin_ranged(&sample, Some(12), None);
    assert_eq!(head.mime, "application/octet-stream");
    assert_eq!(head.read_limit, Some(12));
    let ranged = export_range(&sample, Some(ByteRange { start: 2, end: 5 }));
    assert_eq!(ranged.mime, "application/octet-stream");
    assert_eq!(ranged.body, sample[2..5].to_vec());
    let mut mp4 = sample;
    mp4[8] = b'm';
    mp4[9] = b'p';
    mp4[10] = b'4';
    assert!(!is_sniff_trap(&mp4));
}

#[test]
fn ranged_head_read_limit() {
    let head = begin_ranged(b"abc", None, Some(ByteRange { start: 10, end: 25 }));
    assert_eq!(head.seek_to, 10);
    assert_eq!(head.size_hint, None);
    assert_eq!(head.read_limit, Some(15));
    let head = begin_ranged(b"abc", None, None);
    assert_eq!(head.read_limit, None);
    let head = begin_ranged(b"abc", Some(100), Some(ByteRange { start: 90, end: 200 }));
    assert_eq!(head.read_limit, Some(10));
}

#[test]
fn materialize_sends_then_aborts() {
    let mut m = Materialize::new();
    assert!(matches!(m.on_next(Some(Ok(b"one".to_vec()))), MaterializeStep::Send(ref b) if b == b"one"));
    assert!(matches!(m.on_next(Some(Ok(b"two".to_vec()))), MaterializeStep::Send(ref b) if b == b"two"));
    assert!(matches!(m.on_next(Some(Err(()))), MaterializeStep::Abort));
    assert!(m.is_aborted());
    let mut m = Materialize::new();
    assert!(matches!(m.on_next(None), MaterializeStep::Finish));
    assert!(!m.is_aborted());
}
