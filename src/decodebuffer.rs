use vstd::prelude::*;
use std::hash::Hasher;
use crate::sink::{write_all_bytes, ByteSink};

verus! {

#[verifier::external_type_specification]
#[verifier::external_body]
pub struct ExXxHash64(twox_hash::XxHash64);

/// Relies on `twox_hash::XxHash64::with_seed`: a fresh hasher with seed 0.
#[verifier::external_body]
fn fresh_hasher() -> twox_hash::XxHash64 {
    twox_hash::XxHash64::with_seed(0)
}

/// Relies on `Hasher::write` of `twox_hash::XxHash64`: feeds the bytes into
/// the running checksum.
#[verifier::external_body]
fn feed_hasher(hash: &mut twox_hash::XxHash64, bytes: &[u8]) {
    hash.write(bytes)
}

/// Why a back-reference could not be copied.
#[derive(Debug, Clone, Copy, PartialEq, Eq, Structural)]
#[non_exhaustive]
pub enum DecodebufferError {
    /// The reference reaches further into the dictionary than it is long.
    NotEnoughBytesInDictionary { got: usize, need: usize },
    /// The reference reaches before the start of the window.
    OffsetTooBig { offset: usize, buf_len: usize },
}

/// `n` bytes appended to `s`, each a copy of the byte `offset` places
/// before it: the back-reference copy of LZ77, which may overlap itself.
pub open spec fn lz_copy(s: Seq<u8>, offset: nat, n: nat) -> Seq<u8>
    decreases n,
{
    if n == 0 || offset == 0 || offset > s.len() {
        s
    } else {
        lz_copy(s.push(s[s.len() - offset]), offset, (n - 1) as nat)
    }
}

/// The buffer and output count after a back-reference of `match_length`
/// bytes at `offset`, reaching into the dictionary where the offset lies
/// before the start of the buffer and no more than a window has been
/// written.
pub open spec fn repeat_result(
    buf: Seq<u8>,
    dict: Seq<u8>,
    total: nat,
    window: nat,
    offset: nat,
    match_length: nat,
) -> Result<(Seq<u8>, nat), DecodebufferError> {
    if offset > buf.len() {
        if total <= window {
            let from_dict = (offset - buf.len()) as nat;
            if from_dict > dict.len() {
                Err(
                    DecodebufferError::NotEnoughBytesInDictionary {
                        got: dict.len() as usize,
                        need: from_dict as usize,
                    },
                )
            } else if from_dict < match_length {
                let with_dict = buf + dict.subrange(dict.len() - from_dict, dict.len() as int);
                Ok(
                    (
                        lz_copy(with_dict, with_dict.len(), (match_length - from_dict) as nat),
                        total + match_length,
                    ),
                )
            } else {
                let low = dict.len() - from_dict;
                Ok((buf + dict.subrange(low, low + match_length), total))
            }
        } else {
            Err(DecodebufferError::OffsetTooBig { offset: offset as usize, buf_len: buf.len() as usize })
        }
    } else {
        Ok((lz_copy(buf, offset, match_length), total + match_length))
    }
}

/// The output window of a decoder: decoded bytes that later back-references
/// may copy from, drained to the reader once they fall out of the window.
pub struct Decodebuffer {
    buffer: Vec<u8>,
    pub dict_content: Vec<u8>,
    pub window_size: usize,
    total_output_counter: u64,
    pub hash: twox_hash::XxHash64,
}

impl Decodebuffer {
    /// The decoded bytes held, oldest first.
    pub closed spec fn contents(&self) -> Seq<u8> {
        self.buffer@
    }

    /// The dictionary that back-references may reach into.
    pub closed spec fn dict(&self) -> Seq<u8> {
        self.dict_content@
    }

    /// The number of bytes kept for back-references.
    pub closed spec fn window(&self) -> nat {
        self.window_size as nat
    }

    /// How many bytes were decoded into the buffer since the last reset.
    pub closed spec fn total_output(&self) -> nat {
        self.total_output_counter as nat
    }

    pub fn new(window_size: usize) -> (r: Decodebuffer)
        ensures
            r.contents() == Seq::<u8>::empty(),
            r.dict() == Seq::<u8>::empty(),
            r.window() == window_size,
            r.total_output() == 0,
    {
        Decodebuffer {
            buffer: Vec::new(),
            dict_content: Vec::new(),
            window_size,
            total_output_counter: 0,
            hash: fresh_hasher(),
        }
    }

    pub fn reset(&mut self, window_size: usize)
        ensures
            final(self).contents() == Seq::<u8>::empty(),
            final(self).dict() == Seq::<u8>::empty(),
            final(self).window() == window_size,
            final(self).total_output() == 0,
    {
        self.window_size = window_size;
        self.buffer.clear();
        self.buffer.reserve(window_size);
        self.dict_content.clear();
        self.total_output_counter = 0;
        self.hash = fresh_hasher();
    }

    pub fn len(&self) -> (r: usize)
        ensures
            r == self.contents().len(),
    {
        self.buffer.len()
    }

    pub fn is_empty(&self) -> (r: bool)
        ensures
            r == (self.contents().len() == 0),
    {
        self.buffer.len() == 0
    }

    /// Appends decoded bytes.
    pub fn push(&mut self, data: &[u8])
        requires
            old(self).total_output() + data@.len() <= u64::MAX,
        ensures
            final(self).contents() == old(self).contents() + data@,
            final(self).total_output() == old(self).total_output() + data@.len(),
            final(self).dict() == old(self).dict(),
            final(self).window() == old(self).window(),
    {
        let mut i: usize = 0;
        while i < data.len()
            invariant
                0 <= i <= data@.len(),
                self.buffer@ == old(self).buffer@ + data@.subrange(0, i as int),
                self.total_output_counter == old(self).total_output_counter,
                self.dict_content == old(self).dict_content,
                self.window_size == old(self).window(),
            decreases data@.len() - i,
        {
            self.buffer.push(data[i]);
            i = i + 1;
            assert(self.buffer@ =~= old(self).buffer@ + data@.subrange(0, i as int));
        }
        assert(data@.subrange(0, data@.len() as int) =~= data@);
        self.total_output_counter = self.total_output_counter + data.len() as u64;
    }

    fn copy_within(&mut self, offset: usize, match_length: usize)
        requires
            offset <= old(self).buffer@.len(),
            offset > 0 || match_length == 0,
        ensures
            final(self).buffer@ == lz_copy(old(self).buffer@, offset as nat, match_length as nat),
            final(self).total_output_counter == old(self).total_output_counter,
            final(self).dict() == old(self).dict(),
            final(self).window() == old(self).window(),
    {
        let mut left: usize = match_length;
        while left > 0
            invariant
                offset <= self.buffer@.len(),
                offset > 0 || left == 0,
                lz_copy(self.buffer@, offset as nat, left as nat) == lz_copy(
                    old(self).buffer@,
                    offset as nat,
                    match_length as nat,
                ),
                self.total_output_counter == old(self).total_output_counter,
                self.dict_content == old(self).dict_content,
                self.window_size == old(self).window(),
            decreases left,
        {
            let byte = self.buffer[self.buffer.len() - offset];
            self.buffer.push(byte);
            left = left - 1;
        }
    }

    /// Copies `match_length` bytes from `offset` bytes back, taking them
    /// from the dictionary where the offset reaches before the buffer. A
    /// copy of bytes from offset zero would never end and is not asked for.
    pub fn repeat(&mut self, offset: usize, match_length: usize) -> (r: Result<(), DecodebufferError>)
        requires
            offset > 0 || match_length == 0,
            old(self).total_output() + match_length <= u64::MAX,
        ensures
            match repeat_result(
                old(self).contents(),
                old(self).dict(),
                old(self).total_output(),
                old(self).window() as nat,
                offset as nat,
                match_length as nat,
            ) {
                Ok((buf, total)) => r is Ok && final(self).contents() == buf && final(self).total_output() == total,
                Err(e) => r == Err::<(), DecodebufferError>(e) && final(self).contents() == old(self).contents() && final(self).total_output() == old(self).total_output(),
            },
            final(self).dict() == old(self).dict(),
            final(self).window() == old(self).window(),
    {
        if offset > self.buffer.len() {
            if self.total_output_counter <= self.window_size as u64 {
                let bytes_from_dict = offset - self.buffer.len();
                if bytes_from_dict > self.dict_content.len() {
                    return Err(
                        DecodebufferError::NotEnoughBytesInDictionary {
                            got: self.dict_content.len(),
                            need: bytes_from_dict,
                        },
                    );
                }
                let dict_len = self.dict_content.len();
                if bytes_from_dict < match_length {
                    self.extend_from_dict(dict_len - bytes_from_dict, dict_len);
                    self.total_output_counter = self.total_output_counter + bytes_from_dict as u64;
                    let buf_len = self.buffer.len();
                    self.copy_within(buf_len, match_length - bytes_from_dict);
                    self.total_output_counter = self.total_output_counter + (match_length
                        - bytes_from_dict) as u64;
                } else {
                    let low = dict_len - bytes_from_dict;
                    self.extend_from_dict(low, low + match_length);
                }
            } else {
                return Err(
                    DecodebufferError::OffsetTooBig { offset, buf_len: self.buffer.len() },
                );
            }
        } else {
            self.copy_within(offset, match_length);
            self.total_output_counter = self.total_output_counter + match_length as u64;
        }
        Ok(())
    }

    fn extend_from_dict(&mut self, low: usize, high: usize)
        requires
            low <= high <= old(self).dict().len(),
        ensures
            final(self).buffer@ == old(self).buffer@ + old(self).dict().subrange(
                low as int,
                high as int,
            ),
            final(self).total_output_counter == old(self).total_output_counter,
            final(self).dict() == old(self).dict(),
            final(self).window() == old(self).window(),
    {
        let mut i: usize = low;
        while i < high
            invariant
                low <= i <= high <= self.dict_content@.len(),
                self.buffer@ == old(self).buffer@ + self.dict_content@.subrange(low as int, i as int),
                self.total_output_counter == old(self).total_output_counter,
                self.dict_content == old(self).dict_content,
                self.window_size == old(self).window(),
            decreases high - i,
        {
            let byte = self.dict_content[i];
            self.buffer.push(byte);
            i = i + 1;
            assert(self.buffer@ =~= old(self).buffer@ + self.dict_content@.subrange(
                low as int,
                i as int,
            ));
        }
    }

    /// How many bytes can be drained while a full window stays behind.
    pub fn can_drain_to_window_size(&self) -> (r: Option<usize>)
        ensures
            self.contents().len() > self.window() ==> r is Some && r->0 == self.contents().len()
                - self.window(),
            self.contents().len() <= self.window() ==> r is None,
    {
        if self.buffer.len() > self.window_size {
            Some(self.buffer.len() - self.window_size)
        } else {
            None
        }
    }

    /// How many bytes can be drained when no window has to be kept.
    pub fn can_drain(&self) -> (r: usize)
        ensures
            r == self.contents().len(),
    {
        self.buffer.len()
    }

    /// Removes the `n` oldest bytes, which have been handed out, and feeds
    /// them into the checksum.
    fn drop_first(&mut self, n: usize)
        requires
            n <= old(self).buffer@.len(),
        ensures
            final(self).buffer@ == old(self).buffer@.subrange(n as int, old(self).buffer@.len() as int),
            final(self).total_output_counter == old(self).total_output_counter,
            final(self).dict() == old(self).dict(),
            final(self).window() == old(self).window(),
    {
        feed_hasher(&mut self.hash, vstd::slice::slice_subrange(self.buffer.as_slice(), 0, n));
        let rest = self.buffer.split_off(n);
        self.buffer = rest;
    }

    fn take_front(&mut self, n: usize) -> (r: Vec<u8>)
        requires
            n <= old(self).buffer@.len(),
        ensures
            r@ == old(self).buffer@.subrange(0, n as int),
            final(self).buffer@ == old(self).buffer@.subrange(n as int, old(self).buffer@.len() as int),
            final(self).total_output_counter == old(self).total_output_counter,
            final(self).dict() == old(self).dict(),
            final(self).window() == old(self).window(),
    {
        let mut out: Vec<u8> = Vec::new();
        let mut i: usize = 0;
        while i < n
            invariant
                0 <= i <= n <= self.buffer@.len(),
                self.buffer == old(self).buffer,
                out@ == self.buffer@.subrange(0, i as int),
            decreases n - i,
        {
            out.push(self.buffer[i]);
            i = i + 1;
            assert(out@ =~= self.buffer@.subrange(0, i as int));
        }
        self.drop_first(n);
        out
    }

    /// Drains everything but the last window, or `None` when no more than
    /// a window is held.
    pub fn drain_to_window_size(&mut self) -> (r: Option<Vec<u8>>)
        ensures
            old(self).contents().len() <= old(self).window() ==> r is None && final(self).contents()
                == old(self).contents(),
            old(self).contents().len() > old(self).window() ==> {
                let k = old(self).contents().len() - old(self).window();
                &&& r is Some
                &&& r->0@ == old(self).contents().subrange(0, k)
                &&& final(self).contents() == old(self).contents().subrange(
                    k,
                    old(self).contents().len() as int,
                )
            },
            final(self).window() == old(self).window(),
    {
        match self.can_drain_to_window_size() {
            None => None,
            Some(can_drain) => {
                assert(can_drain as int == self.buffer@.len() - self.window_size);
                Some(self.take_front(can_drain))
            },
        }
    }

    /// Drains everything.
    pub fn drain(&mut self) -> (r: Vec<u8>)
        ensures
            r@ == old(self).contents(),
            final(self).contents() == Seq::<u8>::empty(),
            final(self).window() == old(self).window(),
    {
        let n = self.buffer.len();
        let r = self.take_front(n);
        assert(self.buffer@ =~= Seq::<u8>::empty());
        assert(r@ =~= old(self).buffer@);
        r
    }

    /// Writes up to `amount` of the oldest bytes to `sink`; the bytes the
    /// sink took leave the buffer even when a later write fails.
    fn drain_to_sink<S: ByteSink>(&mut self, amount: usize, sink: &mut S) -> (r: Result<(), std::io::Error>)
        requires
            amount <= old(self).buffer@.len(),
        ensures
            ({
                let n = final(sink).accepted().len() - old(sink).accepted().len();
                &&& 0 <= n <= amount
                &&& final(sink).accepted() == old(sink).accepted() + old(self).buffer@.subrange(0, n)
                &&& final(self).buffer@ == old(self).buffer@.subrange(n, old(self).buffer@.len() as int)
                &&& (r is Ok <==> n == amount)
            }),
            final(self).total_output_counter == old(self).total_output_counter,
            final(self).dict() == old(self).dict(),
            final(self).window() == old(self).window(),
    {
        if amount == 0 {
            assert(self.buffer@.subrange(0, self.buffer@.len() as int) =~= self.buffer@);
            assert(sink.accepted() =~= sink.accepted() + self.buffer@.subrange(0, 0));
            return Ok(());
        }
        let (written, res) = write_all_bytes(
            sink,
            vstd::slice::slice_subrange(self.buffer.as_slice(), 0, amount),
        );
        assert(self.buffer@.subrange(0, amount as int).subrange(0, written as int)
            =~= self.buffer@.subrange(0, written as int));
        self.drop_first(written);
        res
    }

    /// Drains everything but the last window into `sink`; returns how many
    /// bytes that was. The bytes the sink took leave the buffer, in order,
    /// even when a write fails; the result is `Ok` exactly when it took all.
    pub fn drain_to_window_size_writer<S: ByteSink>(&mut self, sink: &mut S) -> (r: Result<usize, std::io::Error>)
        ensures
            ({
                let k = if old(self).contents().len() > old(self).window() {
                    old(self).contents().len() - old(self).window()
                } else {
                    0
                };
                let n = final(sink).accepted().len() - old(sink).accepted().len();
                &&& 0 <= n <= k
                &&& final(sink).accepted() == old(sink).accepted() + old(self).contents().subrange(0, n)
                &&& final(self).contents() == old(self).contents().subrange(n, old(self).contents().len() as int)
                &&& (r is Ok <==> n == k)
                &&& (r is Ok ==> r->Ok_0 == k)
            }),
            final(self).window() == old(self).window(),
    {
        match self.can_drain_to_window_size() {
            None => {
                assert(self.buffer@.subrange(0, self.buffer@.len() as int) =~= self.buffer@);
                assert(sink.accepted() =~= sink.accepted() + self.buffer@.subrange(0, 0));
                Ok(0)
            },
            Some(can_drain) => {
                assert(can_drain as int == self.buffer@.len() - self.window_size);
                match self.drain_to_sink(can_drain, sink) {
                    Ok(()) => Ok(can_drain),
                    Err(e) => Err(e),
                }
            },
        }
    }

    /// Drains everything into `sink`; returns how many bytes that was. The
    /// bytes the sink took leave the buffer, in order, even when a write
    /// fails; the result is `Ok` exactly when it took all.
    pub fn drain_to_writer<S: ByteSink>(&mut self, sink: &mut S) -> (r: Result<usize, std::io::Error>)
        ensures
            ({
                let n = final(sink).accepted().len() - old(sink).accepted().len();
                &&& 0 <= n <= old(self).contents().len()
                &&& final(sink).accepted() == old(sink).accepted() + old(self).contents().subrange(0, n)
                &&& final(self).contents() == old(self).contents().subrange(n, old(self).contents().len() as int)
                &&& (r is Ok <==> n == old(self).contents().len())
                &&& (r is Ok ==> r->Ok_0 == old(self).contents().len())
            }),
            final(self).window() == old(self).window(),
    {
        let len = self.buffer.len();
        match self.drain_to_sink(len, sink) {
            Ok(()) => {
                assert(self.buffer@ =~= Seq::<u8>::empty());
                Ok(len)
            },
            Err(e) => Err(e),
        }
    }

    fn copy_out(&mut self, target: &mut [u8], amount: usize)
        requires
            amount <= old(self).buffer@.len(),
            amount <= old(target)@.len(),
        ensures
            final(target)@.len() == old(target)@.len(),
            final(target)@.subrange(0, amount as int) == old(self).buffer@.subrange(0, amount as int),
            final(self).buffer@ == old(self).buffer@.subrange(amount as int, old(self).buffer@.len() as int),
            final(self).window() == old(self).window(),
    {
        let mut i: usize = 0;
        while i < amount
            invariant
                0 <= i <= amount <= self.buffer@.len(),
                amount <= target@.len(),
                target@.len() == old(target)@.len(),
                self.buffer == old(self).buffer,
                self.window_size == old(self).window(),
                forall|j: int| 0 <= j < i ==> target@[j] == self.buffer@[j],
            decreases amount - i,
        {
            target[i] = self.buffer[i];
            i = i + 1;
        }
        assert(target@.subrange(0, amount as int) =~= self.buffer@.subrange(0, amount as int));
        self.drop_first(amount);
    }

    /// Moves as many of the oldest bytes as fit into `target`, emptying the
    /// buffer if it can.
    pub fn read_all(&mut self, target: &mut [u8]) -> (r: Result<usize, std::io::Error>)
        ensures
            r is Ok,
            r->Ok_0 == if old(self).contents().len() < old(target)@.len() {
                old(self).contents().len()
            } else {
                old(target)@.len() as nat
            },
            final(target)@.len() == old(target)@.len(),
            final(target)@.subrange(0, r->Ok_0 as int) == old(self).contents().subrange(0, r->Ok_0 as int),
            final(self).contents() == old(self).contents().subrange(r->Ok_0 as int, old(self).contents().len() as int),
    {
        let amount = if self.buffer.len() < target.len() { self.buffer.len() } else { target.len() };
        self.copy_out(target, amount);
        Ok(amount)
    }

    /// Moves as many bytes as fit into `target` out of what lies beyond the
    /// window, as `std::io::Read::read` would.
    pub fn read(&mut self, target: &mut [u8]) -> (r: Result<usize, std::io::Error>)
        ensures
            r is Ok,
            ({
                let avail = if old(self).contents().len() > old(self).window() {
                    old(self).contents().len() - old(self).window()
                } else {
                    0
                };
                r->Ok_0 == if avail < old(target)@.len() { avail } else { old(target)@.len() as int }
            }),
            final(target)@.len() == old(target)@.len(),
            final(target)@.subrange(0, r->Ok_0 as int) == old(self).contents().subrange(0, r->Ok_0 as int),
            final(self).contents() == old(self).contents().subrange(r->Ok_0 as int, old(self).contents().len() as int),
    {
        let max_amount = match self.can_drain_to_window_size() {
            Some(n) => {
                assert(n as int == self.buffer@.len() - self.window_size);
                n
            },
            None => 0,
        };
        let amount = if max_amount < target.len() { max_amount } else { target.len() };
        self.copy_out(target, amount);
        Ok(amount)
    }
}

} // verus!
