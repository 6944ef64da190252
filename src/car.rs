use vstd::prelude::*;
use crate::content_id::Cid;

verus! {

/// Unsigned LEB128: seven bits per byte, low bits first, the high bit set on
/// every byte but the last.
pub open spec fn varint(n: nat) -> Seq<u8>
    decreases n,
{
    if n < 128 {
        seq![n as u8]
    } else {
        seq![((n % 128) + 128) as u8] + varint(n / 128)
    }
}

/// The `k` low bytes of `n`, most significant first.
pub open spec fn be_bytes(n: nat, k: nat) -> Seq<u8>
    decreases k,
{
    if k == 0 {
        Seq::empty()
    } else {
        be_bytes(n / 256, (k - 1) as nat).push((n % 256) as u8)
    }
}

/// The head of a CBOR item of major type `major` with argument `n`, in its
/// shortest form.
pub open spec fn cbor_head(major: u8, n: nat) -> Seq<u8> {
    let m = (major as nat) * 32;
    if n < 24 {
        seq![(m + n) as u8]
    } else if n < 0x100 {
        seq![(m + 24) as u8] + be_bytes(n, 1)
    } else if n < 0x10000 {
        seq![(m + 25) as u8] + be_bytes(n, 2)
    } else if n < 0x1_0000_0000 {
        seq![(m + 26) as u8] + be_bytes(n, 4)
    } else {
        seq![(m + 27) as u8] + be_bytes(n, 8)
    }
}

/// A root CID in the header: tag 42 over a byte string of a zero byte and
/// the binary CID.
pub open spec fn root_link(cid: Seq<u8>) -> Seq<u8> {
    seq![0xd8u8, 0x2au8] + cbor_head(2, cid.len() + 1) + seq![0u8] + cid
}

pub open spec fn root_links(roots: Seq<Seq<u8>>) -> Seq<u8>
    decreases roots.len(),
{
    if roots.len() == 0 {
        Seq::empty()
    } else {
        root_links(roots.drop_last()) + root_link(roots.last())
    }
}

pub open spec fn roots_key() -> Seq<u8> {
    seq![0x72u8, 0x6fu8, 0x6fu8, 0x74u8, 0x73u8]
}

pub open spec fn version_key() -> Seq<u8> {
    seq![0x76u8, 0x65u8, 0x72u8, 0x73u8, 0x69u8, 0x6fu8, 0x6eu8]
}

/// The DAG-CBOR map `{"roots": [...], "version": 1}` of a version-1 archive.
pub open spec fn header_body(roots: Seq<Seq<u8>>) -> Seq<u8> {
    seq![0xa2u8, 0x65u8] + roots_key() + cbor_head(4, roots.len()) + root_links(roots) + seq![
        0x67u8,
    ] + version_key() + seq![0x01u8]
}

/// The archive header: the length of its body as a varint, then the body.
pub open spec fn car_header(roots: Seq<Seq<u8>>) -> Seq<u8> {
    varint(header_body(roots).len()) + header_body(roots)
}

/// One archive record: the length of CID and data together as a varint,
/// then the binary CID, then the data.
pub open spec fn car_record(cid: Seq<u8>, data: Seq<u8>) -> Seq<u8> {
    varint(cid.len() + data.len()) + cid + data
}

fn append_bytes(out: &mut Vec<u8>, bytes: &[u8])
    ensures
        final(out)@ == old(out)@ + bytes@,
{
    let mut i: usize = 0;
    while i < bytes.len()
        invariant
            0 <= i <= bytes@.len(),
            out@ == old(out)@ + bytes@.subrange(0, i as int),
        decreases bytes@.len() - i,
    {
        out.push(bytes[i]);
        i = i + 1;
        assert(out@ =~= old(out)@ + bytes@.subrange(0, i as int));
    }
    assert(bytes@.subrange(0, bytes@.len() as int) =~= bytes@);
}

/// Appends the varint of `n`.
pub fn push_varint(out: &mut Vec<u8>, n: u64)
    ensures
        final(out)@ == old(out)@ + varint(n as nat),
{
    let mut v: u64 = n;
    while v >= 128
        invariant
            old(out)@ + varint(n as nat) == out@ + varint(v as nat),
        decreases v,
    {
        let byte = ((v % 128) + 128) as u8;
        let ghost before = out@;
        out.push(byte);
        assert(varint(v as nat) == seq![byte] + varint((v / 128) as nat));
        assert(before + varint(v as nat) =~= out@ + varint((v / 128) as nat));
        v = v / 128;
    }
    let ghost before = out@;
    out.push(v as u8);
    assert(before + varint(v as nat) =~= out@);
}

fn push_be(out: &mut Vec<u8>, n: u64, k: u8)
    requires
        k <= 8,
    ensures
        final(out)@ == old(out)@ + be_bytes(n as nat, k as nat),
    decreases k,
{
    if k > 0 {
        push_be(out, n / 256, k - 1);
        let ghost mid = out@;
        out.push((n % 256) as u8);
        assert(out@ =~= old(out)@ + be_bytes(n as nat, k as nat));
    } else {
        assert(out@ =~= old(out)@ + be_bytes(n as nat, k as nat));
    }
}

fn push_cbor_head(out: &mut Vec<u8>, major: u8, n: u64)
    requires
        major < 8,
    ensures
        final(out)@ == old(out)@ + cbor_head(major, n as nat),
{
    let m: u8 = major * 32;
    let ghost before = out@;
    if n < 24 {
        out.push(m + n as u8);
    } else if n < 0x100 {
        out.push(m + 24);
        push_be(out, n, 1);
    } else if n < 0x10000 {
        out.push(m + 25);
        push_be(out, n, 2);
    } else if n < 0x1_0000_0000 {
        out.push(m + 26);
        push_be(out, n, 4);
    } else {
        out.push(m + 27);
        push_be(out, n, 8);
    }
    assert(out@ =~= before + cbor_head(major, n as nat));
}

/// The header of an archive that names `roots`.
pub fn encode_header(roots: &Vec<Cid>) -> (r: Vec<u8>)
    requires
        forall|i: int| 0 <= i < roots@.len() ==> roots@[i]@.len() < u64::MAX,
    ensures
        r@ == car_header(roots@.map_values(|c: Cid| c@)),
{
    let ghost views = roots@.map_values(|c: Cid| c@);
    let mut body: Vec<u8> = Vec::new();
    body.push(0xa2);
    body.push(0x65);
    body.push(0x72);
    body.push(0x6f);
    body.push(0x6f);
    body.push(0x74);
    body.push(0x73);
    push_cbor_head(&mut body, 4, roots.len() as u64);
    let ghost start = body@;
    assert(start =~= seq![0xa2u8, 0x65u8] + roots_key() + cbor_head(4, roots@.len()));
    let mut i: usize = 0;
    while i < roots.len()
        invariant
            0 <= i <= roots@.len(),
            views == roots@.map_values(|c: Cid| c@),
            forall|j: int| 0 <= j < roots@.len() ==> roots@[j]@.len() < u64::MAX,
            body@ == start + root_links(views.subrange(0, i as int)),
        decreases roots@.len() - i,
    {
        let ghost before = body@;
        let cid = roots[i].as_bytes();
        body.push(0xd8);
        body.push(0x2a);
        push_cbor_head(&mut body, 2, (cid.len() as u64) + 1);
        body.push(0);
        append_bytes(&mut body, cid);
        proof {
            assert(views.subrange(0, i + 1).drop_last() =~= views.subrange(0, i as int));
            assert(body@ =~= before + root_link(views[i as int]));
        }
        i = i + 1;
    }
    assert(views.subrange(0, roots@.len() as int) =~= views);
    body.push(0x67);
    body.push(0x76);
    body.push(0x65);
    body.push(0x72);
    body.push(0x73);
    body.push(0x69);
    body.push(0x6f);
    body.push(0x6e);
    body.push(0x01);
    assert(body@ =~= header_body(views));
    let mut out: Vec<u8> = Vec::new();
    push_varint(&mut out, body.len() as u64);
    append_bytes(&mut out, body.as_slice());
    assert(out@ =~= car_header(views));
    out
}

/// One archive record for the block `data` named `cid`.
pub fn encode_record(cid: &Cid, data: &[u8]) -> (r: Vec<u8>)
    requires
        cid@.len() + data@.len() <= u64::MAX,
    ensures
        r@ == car_record(cid@, data@),
{
    let mut out: Vec<u8> = Vec::new();
    push_varint(&mut out, (cid.len() as u64) + (data.len() as u64));
    append_bytes(&mut out, cid.as_bytes());
    append_bytes(&mut out, data);
    assert(out@ =~= car_record(cid@, data@));
    out
}

} // verus!
