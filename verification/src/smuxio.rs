//! The buffering of one multiplexed stream: frames come in whole, and are read in pieces or whole.
use vstd::prelude::*;
use vstd::slice::{slice_subrange, slice_to_vec};

verus! {

/// What a read finds.
#[derive(Debug, PartialEq, Eq)]
pub enum Served {
    /// Some data.
    Data(Vec<u8>),
    /// Nothing: there is no room for any, or the peer's data have ended.
    Nothing,
    /// The next frame has to be received first.
    NeedFrame,
}

/// What a read of a whole frame finds.
#[derive(Debug, PartialEq, Eq)]
pub enum Frame {
    /// A frame, or the tail of one that was read in part.
    Whole(Vec<u8>),
    /// The peer's data have ended.
    End,
    /// The next frame has to be received first.
    NeedFrame,
}

/// The read side of a stream, and what has been closed of it.
pub struct FrameBuffer {
    /// The tail of a received frame that did not fit into the last caller buffer; empty for none.
    pending: Vec<u8>,
    /// Whether the peer's end of data has been seen.
    eof: bool,
    /// Whether the half-close has been issued.
    write_closed: bool,
    /// Whether the close has been issued.
    closed: bool,
    /// Everything received.
    received: Ghost<Seq<u8>>,
    /// Everything handed out.
    delivered: Ghost<Seq<u8>>,
}

impl FrameBuffer {
    /// Everything received.
    pub closed spec fn received(self) -> Seq<u8> {
        self.received@
    }

    /// Everything handed out.
    pub closed spec fn delivered(self) -> Seq<u8> {
        self.delivered@
    }

    /// What has been received and not handed out.
    pub closed spec fn tail(self) -> Seq<u8> {
        self.pending@
    }

    /// Whether the peer's end of data has been seen.
    pub closed spec fn ended(self) -> bool {
        self.eof
    }

    /// Whether the half-close has been issued.
    pub closed spec fn half_closed(self) -> bool {
        self.write_closed
    }

    /// Whether the close has been issued.
    pub closed spec fn is_closed(self) -> bool {
        self.closed
    }

    /// What has been received is handed out in order, whichever way it is read.
    pub closed spec fn wf(self) -> bool {
        self.received@ == self.delivered@ + self.pending@
    }

    /// A stream of which nothing has been received.
    pub fn new() -> (b: FrameBuffer)
        ensures
            b.wf(),
            b.received().len() == 0,
            b.delivered().len() == 0,
            b.tail().len() == 0,
            !b.ended(),
            !b.half_closed(),
            !b.is_closed(),
    {
        let b = FrameBuffer {
            pending: Vec::new(),
            eof: false,
            write_closed: false,
            closed: false,
            received: Ghost(Seq::empty()),
            delivered: Ghost(Seq::empty()),
        };
        assert(b.received@ =~= b.delivered@ + b.pending@);
        b
    }

    /// Hands out at most `max` bytes.
    pub fn read(&mut self, max: usize) -> (r: Served)
        requires
            old(self).wf(),
        ensures
            final(self).wf(),
            final(self).received() == old(self).received(),
            final(self).ended() == old(self).ended(),
            final(self).half_closed() == old(self).half_closed(),
            final(self).is_closed() == old(self).is_closed(),
            match r {
                Served::Data(d) => {
                    let have = old(self).tail();
                    let n = if max < have.len() {
                        max as int
                    } else {
                        have.len() as int
                    };
                    &&& have.len() > 0
                    &&& d@ == have.take(n)
                    &&& final(self).tail() == have.skip(n)
                    &&& final(self).delivered() == old(self).delivered() + d@
                },
                Served::Nothing => {
                    &&& old(self).tail().len() == 0
                    &&& old(self).ended() || max == 0
                    &&& *final(self) == *old(self)
                },
                Served::NeedFrame => {
                    &&& old(self).tail().len() == 0
                    &&& !old(self).ended()
                    &&& max > 0
                    &&& *final(self) == *old(self)
                },
            },
    {
        if self.pending.len() == 0 {
            return if self.eof || max == 0 {
                Served::Nothing
            } else {
                Served::NeedFrame
            };
        }
        let n: usize = if max < self.pending.len() {
            max
        } else {
            self.pending.len()
        };
        let d = slice_to_vec(slice_subrange(self.pending.as_slice(), 0, n));
        let rest = slice_to_vec(slice_subrange(self.pending.as_slice(), n, self.pending.len()));
        proof {
            assert(d@ =~= old(self).tail().take(n as int));
            assert(rest@ =~= old(self).tail().skip(n as int));
            self.delivered@ = self.delivered@ + d@;
            assert(self.received@ =~= self.delivered@ + rest@);
        }
        self.pending = rest;
        Served::Data(d)
    }

    /// Hands out the next frame whole. The tail of a frame that was read in part comes first, so
    /// mixing the two ways of reading cannot reorder the stream.
    pub fn read_frame(&mut self) -> (r: Frame)
        requires
            old(self).wf(),
        ensures
            final(self).wf(),
            final(self).received() == old(self).received(),
            final(self).ended() == old(self).ended(),
            final(self).half_closed() == old(self).half_closed(),
            final(self).is_closed() == old(self).is_closed(),
            match r {
                Frame::Whole(d) => {
                    &&& old(self).tail().len() > 0
                    &&& d@ == old(self).tail()
                    &&& final(self).tail().len() == 0
                    &&& final(self).delivered() == old(self).delivered() + d@
                },
                Frame::End => {
                    &&& old(self).tail().len() == 0
                    &&& old(self).ended()
                    &&& *final(self) == *old(self)
                },
                Frame::NeedFrame => {
                    &&& old(self).tail().len() == 0
                    &&& !old(self).ended()
                    &&& *final(self) == *old(self)
                },
            },
    {
        if self.pending.len() == 0 {
            return if self.eof {
                Frame::End
            } else {
                Frame::NeedFrame
            };
        }
        let mut d: Vec<u8> = Vec::new();
        std::mem::swap(&mut d, &mut self.pending);
        proof {
            self.delivered@ = self.delivered@ + d@;
            assert(self.received@ =~= self.delivered@ + self.pending@);
        }
        Frame::Whole(d)
    }

    /// A frame has been received, or the peer's data have ended. An empty frame is not the end.
    pub fn on_frame(&mut self, frame: Option<Vec<u8>>)
        requires
            old(self).wf(),
            old(self).tail().len() == 0,
        ensures
            final(self).wf(),
            final(self).delivered() == old(self).delivered(),
            final(self).half_closed() == old(self).half_closed(),
            final(self).is_closed() == old(self).is_closed(),
            match frame {
                Some(f) => {
                    &&& final(self).received() == old(self).received() + f@
                    &&& final(self).tail() == f@
                    &&& final(self).ended() == old(self).ended()
                },
                None => {
                    &&& final(self).received() == old(self).received()
                    &&& final(self).tail().len() == 0
                    &&& final(self).ended()
                },
            },
    {
        match frame {
            Some(f) => {
                proof {
                    self.received@ = self.received@ + f@;
                    assert(self.received@ =~= self.delivered@ + f@);
                }
                self.pending = f;
            },
            None => {
                self.eof = true;
            },
        }
    }

    /// A frame has been received for a reader of whole frames, or the peer's data have ended: it is
    /// handed on as it is, an empty one too.
    pub fn hand_on(&mut self, frame: Option<Vec<u8>>) -> (r: Option<Vec<u8>>)
        requires
            old(self).wf(),
            old(self).tail().len() == 0,
        ensures
            final(self).wf(),
            final(self).tail().len() == 0,
            final(self).half_closed() == old(self).half_closed(),
            final(self).is_closed() == old(self).is_closed(),
            r == frame,
            match frame {
                Some(f) => {
                    &&& final(self).received() == old(self).received() + f@
                    &&& final(self).delivered() == old(self).delivered() + f@
                    &&& final(self).ended() == old(self).ended()
                },
                None => {
                    &&& final(self).received() == old(self).received()
                    &&& final(self).delivered() == old(self).delivered()
                    &&& final(self).ended()
                },
            },
    {
        match frame {
            Some(f) => {
                proof {
                    self.received@ = self.received@ + f@;
                    self.delivered@ = self.delivered@ + f@;
                    assert(self.received@ =~= self.delivered@ + self.pending@);
                }
                Some(f)
            },
            None => {
                self.eof = true;
                None
            },
        }
    }

    /// Whether a half-close still has to be issued; a repeated one is not an error.
    pub fn needs_close_write(&self) -> (r: bool)
        ensures
            r == !self.half_closed(),
    {
        !self.write_closed
    }

    /// The half-close has been issued, whatever came of it.
    pub fn on_close_write(&mut self)
        requires
            old(self).wf(),
        ensures
            final(self).wf(),
            final(self).half_closed(),
            final(self).received() == old(self).received(),
            final(self).delivered() == old(self).delivered(),
            final(self).tail() == old(self).tail(),
            final(self).ended() == old(self).ended(),
            final(self).is_closed() == old(self).is_closed(),
    {
        self.write_closed = true;
    }

    /// Whether a close still has to be issued; a repeated one is not an error.
    pub fn needs_close(&self) -> (r: bool)
        ensures
            r == !self.is_closed(),
    {
        !self.closed
    }

    /// The close has been issued, whatever came of it.
    pub fn on_close(&mut self)
        requires
            old(self).wf(),
        ensures
            final(self).wf(),
            final(self).is_closed(),
            final(self).received() == old(self).received(),
            final(self).delivered() == old(self).delivered(),
            final(self).tail() == old(self).tail(),
            final(self).ended() == old(self).ended(),
            final(self).half_closed() == old(self).half_closed(),
    {
        self.closed = true;
    }
}

/// What has been handed out is always the beginning of what was received, and the rest of it is
/// still held.
pub proof fn reading_keeps_the_order(b: FrameBuffer)
    requires
        b.wf(),
    ensures
        b.received() == b.delivered() + b.tail(),
        b.delivered().is_prefix_of(b.received()),
{
    assert(b.received().take(b.delivered().len() as int) =~= b.delivered());
}

/// How many bytes of a write are reported: never more than were offered.
pub fn reported_write(written: usize, offered: usize) -> (n: usize)
    ensures
        n == (if written < offered { written } else { offered }),
{
    if written < offered {
        written
    } else {
        offered
    }
}

/// A write reports what was written, and never more than was offered.
pub proof fn a_write_reports_what_was_written(written: usize, offered: usize, n: usize)
    requires
        call_ensures(reported_write, (written, offered), n),
    ensures
        n <= offered,
        written <= offered ==> n == written,
        written > offered ==> n == offered,
{
}

} // verus!
