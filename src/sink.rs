use vstd::prelude::*;

verus! {

#[verifier::external_type_specification]
#[verifier::external_body]
pub struct ExIoError(std::io::Error);

/// A destination for bytes, written in pieces: `std::io::Write` in the terms
/// this library reasons with. A write that fails has written nothing.
pub trait ByteSink {
    /// Every byte the sink has taken so far, in order. Sinks written in
    /// verified code define it; the default, no bytes, serves sinks written
    /// outside it, whose writes Verus does not hold to the contract below.
    open spec fn accepted(&self) -> Seq<u8> {
        Seq::empty()
    }

    /// Writes a prefix of `buf` and says how long it was.
    fn write(&mut self, buf: &[u8]) -> (r: Result<usize, std::io::Error>)
        ensures
            r is Ok ==> r->Ok_0 <= buf@.len() && final(self).accepted() == old(self).accepted()
                + buf@.subrange(0, r->Ok_0 as int),
            r is Err ==> final(self).accepted() == old(self).accepted(),
    ;
}

impl ByteSink for Vec<u8> {
    open spec fn accepted(&self) -> Seq<u8> {
        self@
    }

    fn write(&mut self, buf: &[u8]) -> (r: Result<usize, std::io::Error>)
        ensures
            r is Ok ==> r->Ok_0 <= buf@.len() && final(self).accepted() == old(self).accepted()
                + buf@.subrange(0, r->Ok_0 as int),
            r is Err ==> final(self).accepted() == old(self).accepted(),
            r is Ok && r->Ok_0 == buf@.len(),
    {
        let mut i: usize = 0;
        while i < buf.len()
            invariant
                0 <= i <= buf@.len(),
                self@ == old(self)@ + buf@.subrange(0, i as int),
            decreases buf@.len() - i,
        {
            self.push(buf[i]);
            i = i + 1;
            assert(self@ =~= old(self)@ + buf@.subrange(0, i as int));
        }
        assert(buf@.subrange(0, buf@.len() as int) =~= buf@);
        Ok(buf.len())
    }
}

/// Relies on `std::io::Error::from(ErrorKind::WriteZero)`: the error for a
/// sink that stopped taking bytes.
#[verifier::external_body]
fn write_zero_error() -> std::io::Error {
    std::io::Error::from(std::io::ErrorKind::WriteZero)
}

/// Like `write_all`, but reports how many bytes were written even when a
/// write fails. The sink takes exactly the first `r.0` bytes of `buf`, and
/// the result is `Ok` exactly when it took all of them. A sink that accepts
/// no bytes of a non-empty write fails the call with `WriteZero` rather than
/// being asked forever.
pub fn write_all_bytes<S: ByteSink>(sink: &mut S, buf: &[u8]) -> (r: (usize, Result<(), std::io::Error>))
    ensures
        r.0 <= buf@.len(),
        final(sink).accepted() == old(sink).accepted() + buf@.subrange(0, r.0 as int),
        r.1 is Ok <==> r.0 == buf@.len(),
{
    let mut written: usize = 0;
    while written < buf.len()
        invariant
            written <= buf@.len(),
            sink.accepted() == old(sink).accepted() + buf@.subrange(0, written as int),
        decreases buf@.len() - written,
    {
        let rest = vstd::slice::slice_subrange(buf, written, buf.len());
        let ghost before = sink.accepted();
        match sink.write(rest) {
            Ok(w) => {
                if w == 0 {
                    assert(rest@.subrange(0, 0) =~= Seq::<u8>::empty());
                    assert(sink.accepted() =~= before);
                    return (written, Err(write_zero_error()));
                }
                assert(buf@.subrange(0, written + w) =~= buf@.subrange(0, written as int)
                    + rest@.subrange(0, w as int));
                written = written + w;
            },
            Err(e) => return (written, Err(e)),
        }
    }
    (written, Ok(()))
}

} // verus!
