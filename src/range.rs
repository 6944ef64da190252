use vstd::prelude::*;

verus! {

/// The MIME type that content sniffing assigns to a sample of an object's
/// first bytes, as text.
pub uninterp spec fn sniffed_mime(sample: Seq<u8>) -> Seq<char>;

/// A sample that opens with an `ftyp` box whose declared size is below 16
/// bytes and that does not name `mp4` right after the box type. The
/// classifier's mp4 check slices such a sample from byte 16 to the box size,
/// which panics, so such samples are never handed to it.
pub open spec fn sniff_trap(s: Seq<u8>) -> bool {
    &&& s.len() >= 12
    &&& s[0] == 0 && s[1] == 0 && s[2] == 0 && s[3] < 16 && s[3] % 4 == 0
    &&& s[4] == 0x66 && s[5] == 0x74 && s[6] == 0x79 && s[7] == 0x70
    &&& !(s[8] == 0x6d && s[9] == 0x70 && s[10] == 0x34)
}

/// Whether `sample` is one the classifier cannot be given.
pub fn is_sniff_trap(sample: &[u8]) -> (r: bool)
    ensures
        r == sniff_trap(sample@),
{
    sample.len() >= 12 && sample[0] == 0 && sample[1] == 0 && sample[2] == 0 && sample[3] < 16
        && sample[3] % 4 == 0 && sample[4] == 0x66 && sample[5] == 0x74 && sample[6] == 0x79
        && sample[7] == 0x70 && !(sample[8] == 0x6d && sample[9] == 0x70 && sample[10] == 0x34)
}

/// The type given to a sample that is not sniffed.
pub open spec fn fallback_mime() -> Seq<char> {
    "application/octet-stream"@
}

/// The MIME type of an object whose first bytes are `sample`.
pub open spec fn mime_of_sample(sample: Seq<u8>) -> Seq<char> {
    if sniff_trap(sample) {
        fallback_mime()
    } else {
        sniffed_mime(sample)
    }
}

/// Relies on `mime_classifier::MimeClassifier::classify` in the browsing
/// context, with no supplied type, no-sniff off and the Apache-bug flag on;
/// the resulting `Mime` is handed back as text.
#[verifier::external_body]
pub(crate) fn sniff_content_type(sample: &[u8]) -> (r: String)
    requires
        !sniff_trap(sample@),
    ensures
        r@ == sniffed_mime(sample@),
{
    let classifier = mime_classifier::MimeClassifier::new();
    classifier.classify(
        mime_classifier::LoadContext::Browsing,
        mime_classifier::NoSniffFlag::Off,
        mime_classifier::ApacheBugFlag::On,
        &None,
        sample,
    ).to_string()
}

/// How many leading bytes of an object are read ahead for sniffing.
pub const SNIFF_LEN: usize = 1048576;

/// A half-open byte range `[start, end)` of an object.
#[derive(Debug, Clone, Copy, PartialEq, Eq, Structural)]
pub struct ByteRange {
    pub start: u64,
    pub end: u64,
}

/// The part of an object that a ranged export serves.
#[derive(Debug, Clone, Copy, PartialEq, Eq, Structural)]
pub struct RangeWindow {
    pub start: u64,
    pub end: Option<u64>,
}

pub open spec fn min(a: int, b: int) -> int {
    if a <= b { a } else { b }
}

pub open spec fn max(a: int, b: int) -> int {
    if a >= b { a } else { b }
}

/// The first position of the window inside a chunk of `len` bytes that
/// starts at `offset` of the object.
pub open spec fn chunk_from(w: RangeWindow, offset: int, len: int) -> int {
    min(max(w.start - offset, 0), len)
}

/// The position after the window inside such a chunk.
pub open spec fn chunk_to(w: RangeWindow, offset: int, len: int) -> int {
    match w.end {
        None => len,
        Some(e) => max(min(e - offset, len), chunk_from(w, offset, len)),
    }
}

/// The bytes of `[from, to)` of an object of `len` bytes that the window
/// covers, in the most direct terms.
pub open spec fn served_bounds(w: RangeWindow, len: int) -> (int, int) {
    (chunk_from(w, 0, len), chunk_to(w, 0, len))
}

impl RangeWindow {
    /// The whole object, or the requested range of it.
    pub fn new(range: Option<ByteRange>) -> (r: RangeWindow)
        ensures
            match range {
                None => r.start == 0 && r.end is None,
                Some(b) => r.start == b.start && r.end == Some(b.end),
            },
    {
        match range {
            None => RangeWindow { start: 0, end: None },
            Some(b) => RangeWindow { start: b.start, end: Some(b.end) },
        }
    }

    /// The exact number of bytes the window serves of an object of `total`
    /// bytes; `None` where the size of the object is unknown.
    pub fn size_hint(&self, total: Option<u64>) -> (r: Option<u64>)
        ensures
            total is None ==> r is None,
            total is Some ==> r is Some && r->0 == served_bounds(*self, total->0 as int).1
                - served_bounds(*self, total->0 as int).0,
    {
        match total {
            None => None,
            Some(len) => {
                let from = if self.start < len { self.start } else { len };
                let to = match self.end {
                    None => len,
                    Some(e) => if e < len {
                        if e < from { from } else { e }
                    } else {
                        len
                    },
                };
                Some(to - from)
            },
        }
    }

    /// The part of `chunk`, read at `offset` of the object, that lies inside
    /// the window.
    pub fn clip(&self, offset: u64, chunk: &[u8]) -> (r: Vec<u8>)
        ensures
            r@ == chunk@.subrange(
                chunk_from(*self, offset as int, chunk@.len() as int),
                chunk_to(*self, offset as int, chunk@.len() as int),
            ),
    {
        let len = chunk.len();
        let from: usize = if self.start <= offset {
            0
        } else if self.start - offset < len as u64 {
            (self.start - offset) as usize
        } else {
            len
        };
        let to: usize = match self.end {
            None => len,
            Some(e) => {
                let upto: usize = if e <= offset {
                    0
                } else if e - offset < len as u64 {
                    (e - offset) as usize
                } else {
                    len
                };
                if upto < from { from } else { upto }
            },
        };
        let mut out: Vec<u8> = Vec::new();
        let mut i: usize = from;
        while i < to
            invariant
                from <= i <= to <= chunk@.len(),
                out@ == chunk@.subrange(from as int, i as int),
            decreases to - i,
        {
            out.push(chunk[i]);
            i = i + 1;
            assert(out@ =~= chunk@.subrange(from as int, i as int));
        }
        out
    }
}

/// The start of a ranged stream: what to sniff, where to seek, and what to
/// advertise, decided from the object's buffered prefix before any seek.
#[derive(Debug)]
pub struct RangedHead {
    /// The part of the object to serve.
    pub window: RangeWindow,
    /// The MIME type sniffed from the prefix.
    pub mime: String,
    /// The exact number of bytes served, where the object's size is known.
    pub size_hint: Option<u64>,
    /// The offset to seek the decoded object to once sniffing is done.
    pub seek_to: u64,
    /// How many bytes to read after seeking; `None` where the stream is read
    /// to its end.
    pub read_limit: Option<u64>,
}

/// Plans a ranged stream over an object of `size` bytes (where known) whose
/// first bytes are `sample`. Sniffing sees the true prefix whatever range is
/// asked for; the stream then starts at the range's start. A sample the
/// classifier cannot take gets the generic binary type.
pub fn begin_ranged(sample: &[u8], size: Option<u64>, range: Option<ByteRange>) -> (r: RangedHead)
    ensures
        r.window == RangeWindow::new_spec(range),
        r.mime@ == mime_of_sample(sample@),
        r.seek_to == r.window.start,
        size is None ==> r.size_hint is None,
        size is Some ==> r.size_hint == Some(
            (served_bounds(r.window, size->0 as int).1 - served_bounds(r.window, size->0 as int).0) as u64,
        ),
        size is Some ==> r.read_limit == r.size_hint,
        size is None && r.window.end is Some ==> r.read_limit == Some(
            (if r.window.end->0 > r.window.start { r.window.end->0 - r.window.start } else { 0 }) as u64,
        ),
        size is None && r.window.end is None ==> r.read_limit is None,
{
    let mime = if is_sniff_trap(sample) {
        String::from_str("application/octet-stream")
    } else {
        sniff_content_type(sample)
    };
    let window = RangeWindow::new(range);
    let size_hint = window.size_hint(size);
    let read_limit = match size_hint {
        Some(n) => Some(n),
        None => match window.end {
            Some(e) => Some(if e > window.start { e - window.start } else { 0 }),
            None => None,
        },
    };
    RangedHead { window, mime, size_hint, seek_to: window.start, read_limit }
}

/// A ranged export of one object: the served bytes, their exact count, and
/// the MIME type sniffed from the object's own first bytes.
#[derive(Debug)]
pub struct RangedExport {
    pub body: Vec<u8>,
    pub size_hint: Option<u64>,
    pub mime: String,
}

/// The leading bytes of an object that sniffing sees.
pub open spec fn sniff_sample(object: Seq<u8>) -> Seq<u8> {
    object.subrange(0, min(object.len() as int, SNIFF_LEN as int))
}

/// Serves `range` of `object` (all of it where `range` is `None`). The MIME
/// type is sniffed before the range applies, so it is the type of the
/// object's true prefix whatever range is asked for.
pub fn export_range(object: &[u8], range: Option<ByteRange>) -> (r: RangedExport)
    ensures
        r.body@ == object@.subrange(
            served_bounds(RangeWindow::new_spec(range), object@.len() as int).0,
            served_bounds(RangeWindow::new_spec(range), object@.len() as int).1,
        ),
        r.size_hint == Some((r.body@.len()) as u64),
        r.mime@ == mime_of_sample(sniff_sample(object@)),
{
    let n = if object.len() < SNIFF_LEN { object.len() } else { SNIFF_LEN };
    let sample = vstd::slice::slice_subrange(object, 0, n);
    let head = begin_ranged(sample, Some(object.len() as u64), range);
    let body = head.window.clip(0, object);
    RangedExport { body, size_hint: head.size_hint, mime: head.mime }
}

impl RangeWindow {
    pub open spec fn new_spec(range: Option<ByteRange>) -> RangeWindow {
        match range {
            None => RangeWindow { start: 0, end: None },
            Some(b) => RangeWindow { start: b.start, end: Some(b.end) },
        }
    }
}

} // verus!
