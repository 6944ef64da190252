use vstd::prelude::*;

verus! {

/// What the producer of a materialized export does with the next file.
#[derive(Debug)]
pub enum MaterializeStep {
    /// Send these decoded bytes to the consumer.
    Send(Vec<u8>),
    /// A file could not be decoded: abort the stream.
    Abort,
    /// Every file was sent: end the stream.
    Finish,
}

/// The decisions of a materialized export: the decoded bytes of each file
/// in traversal order, one after the other, and an abort at the first file
/// that fails to decode.
pub struct Materialize {
    sent: Ghost<Seq<u8>>,
    aborted: bool,
}

impl Materialize {
    /// Every byte sent so far, in order.
    pub closed spec fn sent(&self) -> Seq<u8> {
        self.sent@
    }

    pub closed spec fn aborted(&self) -> bool {
        self.aborted
    }

    pub fn new() -> (r: Materialize)
        ensures
            r.sent() == Seq::<u8>::empty(),
            !r.aborted(),
    {
        Materialize { sent: Ghost(Seq::empty()), aborted: false }
    }

    pub fn is_aborted(&self) -> (r: bool)
        ensures
            r == self.aborted(),
    {
        self.aborted
    }

    /// Takes the next decoded file (`Some(Ok(..))`), a decode failure
    /// (`Some(Err(()))`), or the end of the traversal (`None`).
    pub fn on_next(&mut self, next: Option<Result<Vec<u8>, ()>>) -> (r: MaterializeStep)
        requires
            !old(self).aborted(),
        ensures
            match next {
                Some(Ok(b)) => r == MaterializeStep::Send(b) && final(self).sent() == old(self).sent()
                    + b@ && !final(self).aborted(),
                Some(Err(_)) => r is Abort && final(self).aborted() && final(self).sent() == old(self).sent(),
                None => r is Finish && final(self).sent() == old(self).sent() && !final(self).aborted(),
            },
    {
        match next {
            Some(Ok(bytes)) => {
                self.sent = Ghost(self.sent@ + bytes@);
                MaterializeStep::Send(bytes)
            },
            Some(Err(_)) => {
                self.aborted = true;
                MaterializeStep::Abort
            },
            None => MaterializeStep::Finish,
        }
    }
}

} // verus!
