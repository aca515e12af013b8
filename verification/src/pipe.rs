//! The bidirectional proxy pipe: the state machine of one direction, and the buffer pool that it
//! copies through.
//!
//! What each direction does, in order:
//! 1. copy until the source ends or either side fails: that failure is the direction's result;
//! 2. flush the destination, then wait `close_wait` seconds if that is positive;
//! 3. half-close the destination, so that the peer sees the end of the stream while the other
//!    direction keeps running.
//!
//! A copy buffer is taken only once a read is attempted, and goes straight back when the source
//! has nothing: an idle connection holds no buffer at all. A source that hands out whole frames
//! never needs one.
use vstd::prelude::*;

verus! {

/// Size of one copy buffer, and so the largest read a direction issues.
pub const COPY_BUF_SIZE: usize = 32768;

/// How many buffers the process-wide pool keeps for reuse; beyond this, a returned buffer is
/// dropped. Buffers are allocated on demand, so this is a ceiling, not a reservation.
pub const DEFAULT_POOL_CAPACITY: usize = 1024;

// ---------------------------------------------------------------------------------------
// Buffer pool
// ---------------------------------------------------------------------------------------
/// `crossbeam_queue::ArrayQueue`, a bounded first-in first-out queue.
#[verifier::external_type_specification]
#[verifier::external_body]
#[verifier::reject_recursive_types(T)]
pub struct ExArrayQueue<T>(crossbeam_queue::ArrayQueue<T>);

/// The buffers in a queue, oldest first.
pub uninterp spec fn queued(q: crossbeam_queue::ArrayQueue<Vec<u8>>) -> Seq<Seq<u8>>;

/// How many buffers a queue can hold.
pub uninterp spec fn queue_capacity(q: crossbeam_queue::ArrayQueue<Vec<u8>>) -> nat;

/// `ArrayQueue::new`: an empty queue of the given capacity. It panics on a capacity of zero, and
/// on one whose slots the address space cannot hold.
#[verifier::external_body]
fn new_queue(capacity: usize) -> (q: crossbeam_queue::ArrayQueue<Vec<u8>>)
    requires
        0 < capacity <= usize::MAX / 128,
    ensures
        queued(q) == Seq::<Seq<u8>>::empty(),
        queue_capacity(q) == capacity,
{
    crossbeam_queue::ArrayQueue::new(capacity)
}

/// `ArrayQueue::pop`: takes the oldest buffer out, if there is one. With the queue borrowed
/// exclusively no other thread can be in the middle of an operation.
#[verifier::external_body]
fn pop(q: &mut crossbeam_queue::ArrayQueue<Vec<u8>>) -> (r: Option<Vec<u8>>)
    ensures
        queue_capacity(*final(q)) == queue_capacity(*old(q)),
        r is Some <==> queued(*old(q)).len() > 0,
        r is Some ==> r->0@ == queued(*old(q))[0],
        r is Some ==> queued(*final(q)) == queued(*old(q)).skip(1),
        r is None ==> queued(*final(q)) == queued(*old(q)),
{
    q.pop()
}

/// `ArrayQueue::push`: adds a buffer at the end, or hands it back when the queue is full.
#[verifier::external_body]
fn push(q: &mut crossbeam_queue::ArrayQueue<Vec<u8>>, v: Vec<u8>) -> (r: Result<(), Vec<u8>>)
    ensures
        queue_capacity(*final(q)) == queue_capacity(*old(q)),
        r is Ok <==> queued(*old(q)).len() < queue_capacity(*old(q)),
        r is Ok ==> queued(*final(q)) == queued(*old(q)).push(v@),
        r is Err ==> r->Err_0 == v && queued(*final(q)) == queued(*old(q)),
{
    q.push(v)
}

/// A pool of copy buffers: bounded, and counting what it hands out.
pub struct BufPool {
    free: crossbeam_queue::ArrayQueue<Vec<u8>>,
    buf_size: usize,
    outstanding: usize,
    allocated: usize,
}

/// A counter that has gone one up, as a machine word counts.
pub open spec fn counted_up(n: usize) -> usize {
    if n == usize::MAX {
        0
    } else {
        (n + 1) as usize
    }
}

/// A counter that has gone one down, as a machine word counts.
pub open spec fn counted_down(n: usize) -> usize {
    if n == 0 {
        usize::MAX
    } else {
        (n - 1) as usize
    }
}

impl BufPool {
    /// The buffers that wait to be used again, the next one first.
    pub closed spec fn free(self) -> Seq<Seq<u8>> {
        queued(self.free)
    }

    /// How many buffers the pool keeps at most.
    pub closed spec fn capacity(self) -> nat {
        queue_capacity(self.free)
    }

    /// The size of a buffer.
    pub closed spec fn size(self) -> usize {
        self.buf_size
    }

    /// How many buffers are checked out.
    pub closed spec fn out(self) -> usize {
        self.outstanding
    }

    /// How many buffers have ever been allocated.
    pub closed spec fn made(self) -> usize {
        self.allocated
    }

    /// A pool keeps no more buffers than its capacity, and all of them have its size.
    pub open spec fn wf(self) -> bool {
        &&& self.free().len() <= self.capacity()
        &&& self.capacity() > 0
        &&& forall|i: int| 0 <= i < self.free().len() ==> (#[trigger] self.free()[i]).len() == self.size()
    }

    /// A pool that keeps up to `capacity` buffers of `buf_size` bytes. A capacity of zero is
    /// raised to one.
    pub fn new(capacity: usize, buf_size: usize) -> (p: BufPool)
        requires
            capacity <= usize::MAX / 128,
        ensures
            p.wf(),
            p.free().len() == 0,
            p.capacity() == (if capacity == 0 { 1 } else { capacity as nat }),
            p.size() == buf_size,
            p.out() == 0,
            p.made() == 0,
    {
        let kept: usize = if capacity == 0 {
            1
        } else {
            capacity
        };
        BufPool { free: new_queue(kept), buf_size, outstanding: 0, allocated: 0 }
    }

    /// Takes a buffer, reusing a returned one when there is one. The contents of a reused buffer
    /// are whatever the previous user left.
    pub fn get(&mut self) -> (buf: Vec<u8>)
        requires
            old(self).wf(),
        ensures
            final(self).wf(),
            buf@.len() == old(self).size(),
            final(self).capacity() == old(self).capacity(),
            final(self).size() == old(self).size(),
            final(self).out() == counted_up(old(self).out()),
            if old(self).free().len() > 0 {
                &&& buf@ == old(self).free()[0]
                &&& final(self).free() == old(self).free().skip(1)
                &&& final(self).made() == old(self).made()
            } else {
                &&& buf@ == Seq::new(old(self).size() as nat, |i: int| 0u8)
                &&& final(self).free() == old(self).free()
                &&& final(self).made() == counted_up(old(self).made())
            },
    {
        self.outstanding = self.outstanding.wrapping_add(1);
        match pop(&mut self.free) {
            Some(buf) => buf,
            None => {
                self.allocated = self.allocated.wrapping_add(1);
                let mut buf: Vec<u8> = Vec::new();
                buf.resize(self.buf_size, 0);
                assert(buf@ =~= Seq::new(self.buf_size as nat, |i: int| 0u8));
                buf
            },
        }
    }

    /// Gives a buffer back. A full pool drops it.
    pub fn put(&mut self, buf: Vec<u8>)
        requires
            old(self).wf(),
            buf@.len() == old(self).size(),
        ensures
            final(self).wf(),
            final(self).capacity() == old(self).capacity(),
            final(self).size() == old(self).size(),
            final(self).made() == old(self).made(),
            final(self).out() == counted_down(old(self).out()),
            final(self).free() == (if old(self).free().len() < old(self).capacity() {
                old(self).free().push(buf@)
            } else {
                old(self).free()
            }),
    {
        self.outstanding = self.outstanding.wrapping_sub(1);
        let _ = push(&mut self.free, buf);
    }

    /// How many buffers are checked out right now.
    pub fn outstanding(&self) -> (n: usize)
        ensures
            n == self.out(),
    {
        self.outstanding
    }

    /// How many buffers this pool has ever allocated.
    pub fn allocated(&self) -> (n: usize)
        ensures
            n == self.made(),
    {
        self.allocated
    }
}

/// A pool of the process-wide size and capacity. Each call makes one; the program keeps the one that
/// all its pipes share.
pub fn default_buf_pool() -> (p: BufPool)
    ensures
        p.wf(),
        p.free().len() == 0,
        p.capacity() == DEFAULT_POOL_CAPACITY,
        p.size() == COPY_BUF_SIZE,
        p.out() == 0,
        p.made() == 0,
{
    BufPool::new(DEFAULT_POOL_CAPACITY, COPY_BUF_SIZE)
}

// ---------------------------------------------------------------------------------------
// One direction
// ---------------------------------------------------------------------------------------
/// Where one direction is in its life.
#[derive(Clone, Copy, Debug, PartialEq, Eq)]
pub enum Phase {
    /// Reading the source and writing the destination.
    Copying,
    /// The copy is over; flushing whatever the destination buffered.
    Flushing,
    /// Waiting out `close_wait` before the half-close.
    Waiting,
    /// Half-closing the destination.
    Closing,
    /// Finished; the result is final.
    Done,
}

/// Why a direction failed.
#[derive(Clone, Copy, Debug, PartialEq, Eq)]
pub enum Fault<E> {
    /// The destination accepted none of the bytes that it was offered.
    ShortWrite,
    /// The source or the destination failed.
    Io(E),
}

/// What is to be done next.
#[derive(Clone, Copy, Debug, PartialEq, Eq)]
pub enum Action {
    /// Write the bytes `from..to` of the buffer, or of the frame, to the destination.
    Write { from: usize, to: usize },
    /// Take the next frame from the source.
    ReadFrame,
    /// Take a buffer, unless one is held, and read the source into it.
    Read,
    /// The source is quiet: flush the destination, so that it does not sit on data.
    QuietFlush,
    /// Flush the destination.
    Flush,
    /// Wait so many seconds.
    Sleep(u64),
    /// Half-close the destination.
    CloseWrite,
    /// Nothing: the direction is done.
    Finish,
}

/// What came of an action.
#[derive(Clone, Copy, Debug, PartialEq, Eq)]
pub enum Event<E> {
    /// It could not be completed yet. A read may have left some bytes in the buffer all the same.
    Blocked(usize),
    /// So many bytes were written, or read, or are in the frame.
    Moved(usize),
    /// There are no more frames.
    End,
    /// The flush, the wait or the half-close is over. A half-close that failed counts as over.
    Completed,
    /// It failed.
    Failed(E),
}

/// Whether there is more to do before control is given up.
#[derive(Clone, Copy, Debug, PartialEq, Eq)]
pub enum Turn {
    /// There is another action to perform.
    Again,
    /// Nothing can be done until the source or the destination is ready.
    Yield,
    /// The direction is done.
    Ready,
}

/// One direction of the pipe.
pub struct Transfer<E> {
    /// Whether the source hands out whole frames.
    pub frame_source: bool,
    /// Seconds between the end of the copy and the half-close; none unless positive.
    pub close_wait: i64,
    pub phase: Phase,
    /// Whether a copy buffer is held.
    pub held: bool,
    /// Bytes `pos..cap` of the buffer, or of the frame, are read and not yet written.
    pub pos: usize,
    pub cap: usize,
    /// Whether a write has happened since the last flush.
    pub need_flush: bool,
    /// Whether the source has gone quiet with a flush still to be made.
    pub quiet: bool,
    /// The result of the copy.
    pub result: Result<(), Fault<E>>,
    /// How many bytes have been read from the source.
    pub taken: Ghost<nat>,
    /// How many bytes have been written to the destination.
    pub given: Ghost<nat>,
}

impl<E> Transfer<E> {
    /// What the direction does next.
    pub open spec fn action(self) -> Action {
        match self.phase {
            Phase::Copying => if self.quiet {
                Action::QuietFlush
            } else if self.pos < self.cap {
                Action::Write { from: self.pos, to: self.cap }
            } else if self.frame_source {
                Action::ReadFrame
            } else {
                Action::Read
            },
            Phase::Flushing => Action::Flush,
            Phase::Waiting => Action::Sleep(self.close_wait as u64),
            Phase::Closing => Action::CloseWrite,
            Phase::Done => Action::Finish,
        }
    }

    /// Whether an event can come of the next action.
    pub open spec fn fits(self, ev: Event<E>) -> bool {
        match self.action() {
            Action::Write { from, to } => match ev {
                Event::Blocked(n) => n == 0,
                Event::Moved(n) => n <= to - from,
                Event::Failed(_) => true,
                _ => false,
            },
            Action::ReadFrame => match ev {
                Event::Blocked(n) => n == 0,
                Event::Completed => false,
                _ => true,
            },
            Action::Read => match ev {
                Event::Blocked(_) | Event::Moved(_) | Event::Failed(_) => true,
                _ => false,
            },
            Action::QuietFlush | Action::Flush => match ev {
                Event::Blocked(n) => n == 0,
                Event::Completed | Event::Failed(_) => true,
                _ => false,
            },
            Action::Sleep(_) | Action::CloseWrite => match ev {
                Event::Blocked(n) => n == 0,
                Event::Completed => true,
                _ => false,
            },
            Action::Finish => false,
        }
    }

    /// The copy is over, cleanly or not.
    pub open spec fn copied(self, result: Result<(), Fault<E>>) -> Transfer<E> {
        Transfer {
            held: false,
            pos: 0,
            cap: 0,
            quiet: false,
            phase: Phase::Flushing,
            result,
            ..self
        }
    }

    /// New bytes have arrived.
    pub open spec fn filled(self, n: usize, held: bool) -> Transfer<E> {
        Transfer { pos: 0, cap: n, held, taken: Ghost(self.taken@ + n as nat), ..self }
    }

    /// The flush at the end of the copy is over.
    pub open spec fn flushed(self, result: Result<(), Fault<E>>) -> Transfer<E> {
        Transfer {
            phase: if self.close_wait > 0 {
                Phase::Waiting
            } else {
                Phase::Closing
            },
            result,
            ..self
        }
    }

    /// The direction after an event, and whether it goes on at once.
    pub open spec fn after(self, ev: Event<E>) -> (Transfer<E>, Turn) {
        match (self.action(), ev) {
            (Action::Write { .. }, Event::Moved(n)) => if n == 0 {
                (self.copied(Err(Fault::ShortWrite)), Turn::Again)
            } else {
                (
                    Transfer {
                        pos: (self.pos + n) as usize,
                        need_flush: true,
                        given: Ghost(self.given@ + n as nat),
                        ..self
                    },
                    Turn::Again,
                )
            },
            (Action::ReadFrame, Event::Moved(n)) => if n == 0 {
                // An empty frame is not the end of the stream.
                (self, Turn::Again)
            } else {
                (self.filled(n, self.held), Turn::Again)
            },
            (Action::Read, Event::Moved(n)) => if n == 0 {
                (self.copied(self.result), Turn::Again)
            } else {
                (self.filled(n, true), Turn::Again)
            },
            (Action::ReadFrame, Event::End) => (self.copied(self.result), Turn::Again),
            (Action::ReadFrame, Event::Blocked(_)) => (
                Transfer { quiet: self.need_flush, ..self },
                if self.need_flush {
                    Turn::Again
                } else {
                    Turn::Yield
                },
            ),
            (Action::Read, Event::Blocked(n)) => {
                let t = if n == 0 {
                    Transfer { held: false, ..self }
                } else {
                    self.filled(n, true)
                };
                (
                    Transfer { quiet: self.need_flush, ..t },
                    if self.need_flush {
                        Turn::Again
                    } else {
                        Turn::Yield
                    },
                )
            },
            (Action::QuietFlush, Event::Blocked(_)) => (
                Transfer { quiet: false, ..self },
                Turn::Yield,
            ),
            (Action::QuietFlush, Event::Completed) => (
                Transfer { quiet: false, need_flush: false, ..self },
                Turn::Yield,
            ),
            (Action::Flush, Event::Completed) => (self.flushed(self.result), Turn::Again),
            (Action::Flush, Event::Failed(e)) => (
                self.flushed(
                    if self.result is Ok {
                        Err(Fault::Io(e))
                    } else {
                        self.result
                    },
                ),
                Turn::Again,
            ),
            (Action::Sleep(_), Event::Completed) => (
                Transfer { phase: Phase::Closing, ..self },
                Turn::Again,
            ),
            (Action::CloseWrite, Event::Completed) => (
                Transfer { phase: Phase::Done, ..self },
                Turn::Ready,
            ),
            // The source or the destination failed while copying.
            (_, Event::Failed(e)) => (self.copied(Err(Fault::Io(e))), Turn::Again),
            // Nothing happened.
            _ => (self, Turn::Yield),
        }
    }

    /// What holds of a direction at all times:
    /// - only what was read is written, and what is neither written nor given up is still held;
    /// - a copy that has ended without a failure has written all that it read;
    /// - a failure is not reported before the copy has ended;
    /// - a source of frames never takes a buffer, and no buffer outlives the copy;
    /// - the wait happens only when there is one.
    pub open spec fn wf(self) -> bool {
        &&& self.pos <= self.cap
        &&& self.given@ <= self.taken@
        &&& self.phase == Phase::Copying ==> {
            &&& self.given@ + (self.cap - self.pos) == self.taken@
            &&& self.result is Ok
        }
        &&& self.phase != Phase::Copying ==> {
            &&& self.pos == self.cap
            &&& !self.held
            &&& !self.quiet
            &&& self.result is Ok ==> self.given@ == self.taken@
        }
        &&& self.frame_source ==> !self.held
        &&& self.quiet ==> !self.held || self.pos < self.cap
        &&& self.phase == Phase::Waiting ==> self.close_wait > 0
    }

    /// A direction that has not begun.
    pub fn new(frame_source: bool, close_wait: i64) -> (t: Transfer<E>)
        ensures
            t.wf(),
            t.frame_source == frame_source,
            t.close_wait == close_wait,
            t.phase == Phase::Copying,
            t.pos == t.cap,
            !t.held,
            !t.need_flush,
            !t.quiet,
            t.result == Ok::<(), Fault<E>>(()),
            t.taken@ == 0,
            t.given@ == 0,
    {
        Transfer {
            frame_source,
            close_wait,
            phase: Phase::Copying,
            held: false,
            pos: 0,
            cap: 0,
            need_flush: false,
            quiet: false,
            result: Ok(()),
            taken: Ghost(0),
            given: Ghost(0),
        }
    }

    /// What is to be done next.
    pub fn next_action(&self) -> (a: Action)
        requires
            self.wf(),
        ensures
            a == self.action(),
    {
        match self.phase {
            Phase::Copying => if self.quiet {
                Action::QuietFlush
            } else if self.pos < self.cap {
                Action::Write { from: self.pos, to: self.cap }
            } else if self.frame_source {
                Action::ReadFrame
            } else {
                Action::Read
            },
            Phase::Flushing => Action::Flush,
            Phase::Waiting => Action::Sleep(self.close_wait as u64),
            Phase::Closing => Action::CloseWrite,
            Phase::Done => Action::Finish,
        }
    }

    /// The copy is over, cleanly or not: the buffer is given up and the shutdown begins.
    fn end_copy(&mut self, fault: Option<Fault<E>>)
        ensures
            *final(self) == old(self).copied(
                match fault {
                    Some(f) => Err(f),
                    None => old(self).result,
                },
            ),
    {
        if let Some(f) = fault {
            self.result = Err(f);
        }
        self.held = false;
        self.pos = 0;
        self.cap = 0;
        self.quiet = false;
        self.phase = Phase::Flushing;
    }

    /// New bytes have arrived.
    fn fill(&mut self, n: usize)
        ensures
            *final(self) == old(self).filled(n, old(self).held),
    {
        self.pos = 0;
        self.cap = n;
        proof {
            self.taken@ = self.taken@ + n as nat;
        }
    }

    /// Moves on to the wait or the half-close.
    fn end_flush(&mut self)
        ensures
            *final(self) == old(self).flushed(old(self).result),
    {
        self.phase = if self.close_wait > 0 {
            Phase::Waiting
        } else {
            Phase::Closing
        };
    }

    /// The source has gone quiet. What the destination has buffered is flushed now, because
    /// nothing asks it again until the source speaks.
    fn go_quiet(&mut self) -> (turn: Turn)
        ensures
            *final(self) == (Transfer { quiet: old(self).need_flush, ..*old(self) }),
            turn == (if old(self).need_flush {
                Turn::Again
            } else {
                Turn::Yield
            }),
    {
        self.quiet = self.need_flush;
        if self.need_flush {
            Turn::Again
        } else {
            Turn::Yield
        }
    }

    /// Drives the direction on by what came of its action.
    pub fn on_event(&mut self, ev: Event<E>) -> (turn: Turn)
        requires
            old(self).wf(),
            old(self).fits(ev),
        ensures
            final(self).wf(),
            (*final(self), turn) == old(self).after(ev),
    {
        match self.next_action() {
            Action::Write { .. } => match ev {
                Event::Moved(n) => {
                    if n == 0 {
                        self.end_copy(Some(Fault::ShortWrite));
                    } else {
                        self.pos = self.pos + n;
                        self.need_flush = true;
                        proof {
                            self.given@ = self.given@ + n as nat;
                        }
                    }
                    Turn::Again
                },
                Event::Failed(e) => {
                    self.end_copy(Some(Fault::Io(e)));
                    Turn::Again
                },
                _ => Turn::Yield,
            },
            Action::ReadFrame => match ev {
                Event::Moved(n) => {
                    if n > 0 {
                        self.fill(n);
                    }
                    Turn::Again
                },
                Event::End => {
                    self.end_copy(None);
                    Turn::Again
                },
                Event::Failed(e) => {
                    self.end_copy(Some(Fault::Io(e)));
                    Turn::Again
                },
                _ => self.go_quiet(),
            },
            Action::Read => match ev {
                Event::Moved(n) => {
                    if n == 0 {
                        self.end_copy(None);
                    } else {
                        self.held = true;
                        self.fill(n);
                    }
                    Turn::Again
                },
                Event::Failed(e) => {
                    self.end_copy(Some(Fault::Io(e)));
                    Turn::Again
                },
                Event::Blocked(n) => {
                    // Bytes that came along with a blocked read are kept.
                    if n == 0 {
                        self.held = false;
                    } else {
                        self.held = true;
                        self.fill(n);
                    }
                    self.go_quiet()
                },
                _ => Turn::Yield,
            },
            Action::QuietFlush => match ev {
                Event::Completed => {
                    self.quiet = false;
                    self.need_flush = false;
                    Turn::Yield
                },
                Event::Failed(e) => {
                    self.end_copy(Some(Fault::Io(e)));
                    Turn::Again
                },
                _ => {
                    self.quiet = false;
                    Turn::Yield
                },
            },
            Action::Flush => match ev {
                Event::Completed => {
                    self.end_flush();
                    Turn::Again
                },
                Event::Failed(e) => {
                    // The tail of the copy failed; an earlier failure is not masked.
                    if self.result.is_ok() {
                        self.result = Err(Fault::Io(e));
                    }
                    self.end_flush();
                    Turn::Again
                },
                _ => Turn::Yield,
            },
            Action::Sleep(_) => match ev {
                Event::Completed => {
                    self.phase = Phase::Closing;
                    Turn::Again
                },
                _ => Turn::Yield,
            },
            Action::CloseWrite => match ev {
                Event::Completed => {
                    self.phase = Phase::Done;
                    Turn::Ready
                },
                _ => Turn::Yield,
            },
            Action::Finish => Turn::Ready,
        }
    }
}

// ---------------------------------------------------------------------------------------
// Laws
// ---------------------------------------------------------------------------------------
/// Whether the events can come, one after the other, of the actions of a direction.
pub open spec fn can_run<E>(t: Transfer<E>, evs: Seq<Event<E>>) -> bool
    decreases evs.len(),
{
    evs.len() > 0 ==> t.fits(evs[0]) && can_run(t.after(evs[0]).0, evs.skip(1))
}

/// The direction after a sequence of events.
pub open spec fn run<E>(t: Transfer<E>, evs: Seq<Event<E>>) -> Transfer<E>
    decreases evs.len(),
{
    if evs.len() == 0 {
        t
    } else {
        run(t.after(evs[0]).0, evs.skip(1))
    }
}

/// The order of the phases.
pub open spec fn rank(p: Phase) -> int {
    match p {
        Phase::Copying => 0,
        Phase::Flushing => 1,
        Phase::Waiting => 2,
        Phase::Closing => 3,
        Phase::Done => 4,
    }
}

/// Whatever happens, a direction keeps its invariant, its phases only go forward, a failure once
/// reported stays the result, and the wait before the half-close is the one that was asked for.
pub proof fn every_run_goes_forward<E>(t: Transfer<E>, evs: Seq<Event<E>>)
    requires
        t.wf(),
        can_run(t, evs),
    ensures
        run(t, evs).wf(),
        rank(run(t, evs).phase) >= rank(t.phase),
        t.result is Err ==> run(t, evs).result == t.result,
        run(t, evs).close_wait == t.close_wait,
        run(t, evs).frame_source == t.frame_source,
    decreases evs.len(),
{
    if evs.len() > 0 {
        every_run_goes_forward(t.after(evs[0]).0, evs.skip(1));
    }
}

/// A direction that ends without a failure has written every byte that it read; one that fails
/// has written no more than it read.
pub proof fn a_clean_end_delivers_everything<E>(t: Transfer<E>, evs: Seq<Event<E>>)
    requires
        t.wf(),
        can_run(t, evs),
    ensures
        run(t, evs).given@ <= run(t, evs).taken@,
        run(t, evs).phase == Phase::Done && run(t, evs).result is Ok ==> run(t, evs).given@ == run(
            t,
            evs,
        ).taken@,
{
    every_run_goes_forward(t, evs);
}

/// A direction that gives up control while copying holds no buffer, unless there are bytes in it
/// that the destination has not taken yet.
pub proof fn an_idle_direction_holds_no_buffer<E>(t: Transfer<E>, ev: Event<E>)
    requires
        t.wf(),
        t.fits(ev),
        t.after(ev).1 == Turn::Yield,
    ensures
        ({
            let u = t.after(ev).0;
            u.held ==> u.pos < u.cap
        }),
{
}

/// The destination is half-closed only after it was flushed, and after the wait if there is one.
pub proof fn the_half_close_comes_last<E>(t: Transfer<E>, ev: Event<E>)
    requires
        t.wf(),
        t.fits(ev),
        t.after(ev).0.action() == Action::CloseWrite,
        t.action() != Action::CloseWrite,
    ensures
        t.close_wait > 0 ==> t.action() == Action::Sleep(t.close_wait as u64) && ev
            == Event::<E>::Completed,
        t.close_wait <= 0 ==> t.action() == Action::Flush && (ev is Completed || ev is Failed),
{
}

/// The bytes of a direction: all that was read, all that was written, and those of the buffer or
/// frame that were read last.
pub struct Flow {
    pub read: Seq<u8>,
    pub written: Seq<u8>,
    pub last: Seq<u8>,
}

/// How many bytes an event brings from the source.
pub open spec fn brought<E>(t: Transfer<E>, ev: Event<E>) -> int {
    match (t.action(), ev) {
        (Action::ReadFrame, Event::Moved(n)) => n as int,
        (Action::Read, Event::Moved(n)) => n as int,
        (Action::Read, Event::Blocked(n)) => n as int,
        _ => 0,
    }
}

/// The bytes after an event that brings `arrived`: they go behind what was read, and what is written
/// is taken from where the action says.
pub open spec fn flowed<E>(flow: Flow, t: Transfer<E>, ev: Event<E>, arrived: Seq<u8>) -> Flow {
    match (t.action(), ev) {
        (Action::Write { from, .. }, Event::Moved(n)) => Flow {
            written: flow.written + flow.last.subrange(from as int, from + n),
            ..flow
        },
        _ => if arrived.len() > 0 {
            Flow { read: flow.read + arrived, last: arrived, ..flow }
        } else {
            flow
        },
    }
}

/// What is written is the beginning of what was read, and the rest of it is still held, or given up
/// by a copy that has failed.
pub open spec fn in_order<E>(flow: Flow, t: Transfer<E>) -> bool {
    &&& flow.written.is_prefix_of(flow.read)
    &&& t.phase == Phase::Copying ==> {
        &&& t.cap <= flow.last.len()
        &&& flow.read == flow.written + flow.last.subrange(t.pos as int, t.cap as int)
    }
    &&& t.phase != Phase::Copying && t.result is Ok ==> flow.read == flow.written
}

/// Whether the events can come of the actions of a direction, each with the bytes that it brings.
pub open spec fn can_flow<E>(t: Transfer<E>, evs: Seq<(Event<E>, Seq<u8>)>) -> bool
    decreases evs.len(),
{
    evs.len() > 0 ==> t.fits(evs[0].0) && evs[0].1.len() == brought(t, evs[0].0) && can_flow(
        t.after(evs[0].0).0,
        evs.skip(1),
    )
}

/// The direction and its bytes after a sequence of events.
pub open spec fn flow_run<E>(t: Transfer<E>, flow: Flow, evs: Seq<(Event<E>, Seq<u8>)>) -> (
    Transfer<E>,
    Flow,
)
    decreases evs.len(),
{
    if evs.len() == 0 {
        (t, flow)
    } else {
        flow_run(
            t.after(evs[0].0).0,
            flowed(flow, t, evs[0].0, evs[0].1),
            evs.skip(1),
        )
    }
}

proof fn lemma_flowed<E>(flow: Flow, t: Transfer<E>, ev: Event<E>, arrived: Seq<u8>)
    requires
        t.wf(),
        t.fits(ev),
        arrived.len() == brought(t, ev),
        in_order(flow, t),
    ensures
        t.after(ev).0.wf(),
        in_order(flowed(flow, t, ev, arrived), t.after(ev).0),
{
    let next = flowed(flow, t, ev, arrived);
    let u = t.after(ev).0;
    let held = flow.last.subrange(t.pos as int, t.cap as int);
    if t.phase == Phase::Copying && !t.quiet {
        if t.pos < t.cap {
            if let Event::Moved(n) = ev {
                let part = flow.last.subrange(t.pos as int, t.pos + n);
                assert(held =~= part + flow.last.subrange(t.pos + n, t.cap as int));
                assert(next.read =~= next.written + flow.last.subrange(t.pos + n, t.cap as int));
                assert(next.written =~= next.read.subrange(0, next.written.len() as int));
            }
        } else {
            assert(held =~= Seq::<u8>::empty());
            assert(flow.read =~= flow.written);
            if arrived.len() > 0 {
                assert(arrived.subrange(0, arrived.len() as int) =~= arrived);
                assert(next.written =~= next.read.subrange(0, next.written.len() as int));
            }
        }
    }
}

/// However the source and the destination behave, the destination gets the very bytes that were read
/// from the source, in order and without a gap; and all of them when the direction ends without a
/// failure.
pub proof fn the_bytes_arrive_in_order<E>(
    t: Transfer<E>,
    flow: Flow,
    evs: Seq<(Event<E>, Seq<u8>)>,
)
    requires
        t.wf(),
        in_order(flow, t),
        can_flow(t, evs),
    ensures
        ({
            let (u, end) = flow_run(t, flow, evs);
            &&& in_order(end, u)
            &&& end.written.is_prefix_of(end.read)
            &&& u.phase == Phase::Done && u.result is Ok ==> end.written == end.read
        }),
    decreases evs.len(),
{
    if evs.len() > 0 {
        lemma_flowed(flow, t, evs[0].0, evs[0].1);
        the_bytes_arrive_in_order(
            t.after(evs[0].0).0,
            flowed(flow, t, evs[0].0, evs[0].1),
            evs.skip(1),
        );
    }
}

/// Control is given up only when something can wake the direction. Whatever came of an action other
/// than the flush for a quiet source, the direction goes on at once, or is done; it is never left
/// waiting unless that action was blocked.
pub proof fn control_is_given_up_only_when_blocked<E>(t: Transfer<E>, ev: Event<E>)
    requires
        t.wf(),
        t.fits(ev),
        ev !is Blocked,
        t.action() != Action::QuietFlush,
    ensures
        t.after(ev).0.phase == Phase::Done ==> t.after(ev).1 == Turn::Ready,
        t.after(ev).0.phase != Phase::Done ==> t.after(ev).1 == Turn::Again,
{
}

/// A blocked action is tried again once control comes back, and control is given up at once, but for
/// one case: when the source has nothing and the destination was written to since its last flush,
/// that flush comes first. It is asked for once, and whatever comes of it but a failure gives control
/// up with the source to be read, or what it had left to be written, next.
pub proof fn a_blocked_direction_waits<E>(t: Transfer<E>, n: usize)
    requires
        t.wf(),
        t.fits(Event::Blocked(n)),
    ensures
        ({
            let (u, turn) = t.after(Event::Blocked(n));
            let reads = t.action() == Action::Read || t.action() == Action::ReadFrame;
            &&& u.phase == t.phase
            &&& u.result == t.result
            &&& if reads && t.need_flush {
                &&& turn == Turn::Again
                &&& u.action() == Action::QuietFlush
                &&& u.fits(Event::Completed)
                &&& u.after(Event::Completed).1 == Turn::Yield
                &&& u.after(Event::Blocked(0)).1 == Turn::Yield
                &&& u.after(Event::Completed).0.action() == (if n > 0 {
                    Action::Write { from: 0, to: n }
                } else {
                    t.action()
                })
                &&& u.after(Event::Blocked(0)).0.action() == u.after(Event::Completed).0.action()
                &&& !u.after(Event::Completed).0.need_flush
                &&& u.after(Event::Blocked(0)).0.need_flush
            } else {
                &&& turn == Turn::Yield
                &&& reads ==> u.action() == (if n > 0 {
                    Action::Write { from: 0, to: n }
                } else {
                    t.action()
                })
                &&& !reads && t.action() != Action::QuietFlush ==> u.action() == t.action()
            }
        }),
{
}

/// What was read is written next, what was written in part is written on from where the write
/// stopped, and a source is asked again only once everything that it gave is written.
pub proof fn a_copy_alternates_reads_and_writes<E>(t: Transfer<E>, n: usize)
    requires
        t.wf(),
        t.phase == Phase::Copying,
        !t.quiet,
        n > 0,
        t.fits(Event::Moved(n)),
    ensures
        ({
            let u = t.after(Event::Moved(n)).0;
            let source = if t.frame_source {
                Action::ReadFrame
            } else {
                Action::Read
            };
            match t.action() {
                Action::Write { from, to } => {
                    &&& u.need_flush
                    &&& u.action() == (if from + n < to {
                        Action::Write { from: (from + n) as usize, to }
                    } else {
                        source
                    })
                },
                a => {
                    &&& a == source
                    &&& u.need_flush == t.need_flush
                    &&& u.action() == (Action::Write { from: 0, to: n })
                },
            }
        }),
{
}

/// How a copy ends. The end of the source ends it cleanly: a read of nothing from a source of bytes,
/// or no more frames from a source of frames, from which an empty frame is nothing at all. A write
/// that moves nothing is a short write, and a failure is kept as it is. Whichever it is, the
/// destination is flushed next.
pub proof fn how_a_copy_ends<E>(t: Transfer<E>, e: E)
    requires
        t.wf(),
        t.phase == Phase::Copying,
        !t.quiet,
    ensures
        ({
            let empty = t.after(Event::Moved(0)).0;
            let end = t.after(Event::End).0;
            let failed = t.after(Event::Failed(e)).0;
            &&& t.action() == Action::ReadFrame ==> {
                &&& empty == t
                &&& end.action() == Action::Flush
                &&& end.result is Ok
            }
            &&& t.action() == Action::Read ==> {
                &&& empty.action() == Action::Flush
                &&& empty.result is Ok
            }
            &&& t.action() is Write ==> {
                &&& empty.action() == Action::Flush
                &&& empty.result == Err::<(), Fault<E>>(Fault::ShortWrite)
            }
            &&& t.fits(Event::Failed(e))
            &&& failed.action() == Action::Flush
            &&& failed.result == Err::<(), Fault<E>>(Fault::Io(e))
        }),
{
}

/// A flush for a quiet source that fails ends the copy with that failure.
pub proof fn a_failed_quiet_flush_ends_the_copy<E>(t: Transfer<E>, e: E)
    requires
        t.wf(),
        t.action() == Action::QuietFlush,
    ensures
        t.fits(Event::Failed(e)),
        t.after(Event::Failed(e)).1 == Turn::Again,
        t.after(Event::Failed(e)).0.action() == Action::Flush,
        t.after(Event::Failed(e)).0.result == Err::<(), Fault<E>>(Fault::Io(e)),
{
}

/// A direction whose copy has ended goes through its last actions one by one: the flush, the wait if
/// there is one, the half-close. While none of them is blocked it does so without giving up control
/// once, and is then done. A flush that fails is the result, unless the copy had failed before it.
pub proof fn an_ended_copy_reaches_the_half_close<E>(t: Transfer<E>, flush: Event<E>)
    requires
        t.wf(),
        t.action() == Action::Flush,
        t.fits(flush),
        flush !is Blocked,
    ensures
        ({
            let (a, first) = t.after(flush);
            let (b, second) = if t.close_wait > 0 {
                a.after(Event::Completed)
            } else {
                (a, Turn::Again)
            };
            let (c, last) = b.after(Event::Completed);
            &&& first == Turn::Again
            &&& t.close_wait > 0 ==> a.action() == Action::Sleep(t.close_wait as u64) && a.fits(
                Event::Completed,
            )
            &&& second == Turn::Again
            &&& b.action() == Action::CloseWrite
            &&& b.fits(Event::Completed)
            &&& last == Turn::Ready
            &&& c.phase == Phase::Done
            &&& c.action() == Action::Finish
            &&& t.result is Err || flush is Completed ==> c.result == t.result
            &&& t.result is Ok && flush is Failed ==> c.result == Err::<(), Fault<E>>(
                Fault::Io(flush->Failed_0),
            )
        }),
{
}

/// The copy has ended, and only a blocked action makes a direction give up control from there on: in
/// a run without one, every turn is another action, until the direction is done.
pub proof fn an_ended_copy_yields_only_when_blocked<E>(
    t: Transfer<E>,
    evs: Seq<Event<E>>,
    i: int,
)
    requires
        t.wf(),
        t.phase != Phase::Copying,
        can_run(t, evs),
        0 <= i < evs.len(),
        forall|k: int| 0 <= k < evs.len() ==> (#[trigger] evs[k]) !is Blocked,
    ensures
        run(t, evs.take(i)).after(evs[i]).1 == (if run(t, evs.take(i + 1)).phase == Phase::Done {
            Turn::Ready
        } else {
            Turn::Again
        }),
    decreases i,
{
    let u = t.after(evs[0]).0;
    reveal_with_fuel(run, 2);
    if i > 0 {
        assert forall|k: int| 0 <= k < evs.skip(1).len() implies (#[trigger] evs.skip(1)[k]) !is Blocked by {
            assert(evs.skip(1)[k] == evs[k + 1]);
        }
        an_ended_copy_yields_only_when_blocked(u, evs.skip(1), i - 1);
        assert(evs.take(i).skip(1) =~= evs.skip(1).take(i - 1));
        assert(evs.take(i + 1).skip(1) =~= evs.skip(1).take(i));
        assert(evs.take(i)[0] == evs[0]);
        assert(evs.take(i + 1)[0] == evs[0]);
    } else {
        assert(evs.take(0).len() == 0);
        assert(evs.take(1)[0] == evs[0]);
        assert(evs.take(1).skip(1).len() == 0);
    }
}

} // verus!
