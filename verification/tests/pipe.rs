//! The pipe: the buffer pool, one direction, and the buffering of a multiplexed stream.
use kcptun_std::pipe::{
    default_buf_pool, Action, BufPool, Event, Fault, Phase, Transfer, Turn, COPY_BUF_SIZE,
};
use kcptun_std::smuxio::{reported_write, Frame, FrameBuffer, Served};
use std::collections::VecDeque;

/// The pool hands the same buffer out again, and a full pool simply drops the extra.
#[test]
fn test_buf_pool_reuses_and_bounds() {
    let mut pool = BufPool::new(1, 8);
    let mut first = pool.get();
    assert_eq!(first.len(), 8);
    first[0] = 7;
    assert_eq!(pool.outstanding(), 1);
    pool.put(first);
    assert_eq!(pool.outstanding(), 0);

    let reused = pool.get();
    assert_eq!(reused[0], 7, "the same buffer comes back");
    assert_eq!(pool.allocated(), 1, "nothing new was allocated");
    let extra = pool.get();
    assert_eq!(
        pool.allocated(),
        2,
        "the pool was empty, so this one is new"
    );

    // Only one buffer fits, so returning both keeps one and drops the other.
    pool.put(reused);
    pool.put(extra);
    assert_eq!(pool.outstanding(), 0);
    let (_kept, _fresh) = (pool.get(), pool.get());
    assert_eq!(
        pool.allocated(),
        3,
        "the buffer the full pool dropped is gone"
    );
    assert_eq!(pool.outstanding(), 2);
}

/// Capacity 0 is raised to 1, so the pool still works and keeps one buffer for reuse.
#[test]
fn test_buf_pool_zero_capacity() {
    let mut pool = BufPool::new(0, 4);
    let buf = pool.get();
    assert_eq!(buf.len(), 4);
    pool.put(buf);
    assert_eq!(pool.outstanding(), 0);

    // The returned buffer was kept, not freed.
    let reused = pool.get();
    assert_eq!(pool.allocated(), 1);
    pool.put(reused);
}

#[test]
fn the_default_pool_hands_out_copy_buffers() {
    let mut pool = default_buf_pool();
    assert_eq!(pool.get().len(), COPY_BUF_SIZE);
}

// ---------------------------------------------------------------------------------------
// One direction
// ---------------------------------------------------------------------------------------

/// What the source and the destination do, and what was done with them.
#[derive(Default)]
struct World {
    /// What the reads find: some bytes, or none for "nothing yet". The source ends behind them.
    source: VecDeque<Option<Vec<u8>>>,
    read_error: Option<&'static str>,
    write_limit: usize,
    write_error: Option<&'static str>,
    flush_error: Option<&'static str>,
    written: Vec<u8>,
    log: Vec<String>,
}

/// Runs one direction to its end, holding a buffer of 8 bytes or a frame.
fn run(world: &mut World, frames: bool, close_wait: i64) -> Result<(), Fault<&'static str>> {
    let mut t: Transfer<&'static str> = Transfer::new(frames, close_wait);
    let mut buffer: Vec<u8> = Vec::new();
    loop {
        let action = t.next_action();
        let event = match action {
            Action::Write { from, to } => match world.write_error {
                Some(e) => Event::Failed(e),
                None => {
                    let n = (to - from).min(world.write_limit);
                    world.written.extend_from_slice(&buffer[from..from + n]);
                    Event::Moved(n)
                }
            },
            Action::Read | Action::ReadFrame => match world.source.pop_front() {
                Some(Some(bytes)) => {
                    buffer = bytes;
                    Event::Moved(buffer.len())
                }
                Some(None) => Event::Blocked(0),
                None => match world.read_error {
                    Some(e) => Event::Failed(e),
                    None if action == Action::ReadFrame => Event::End,
                    None => Event::Moved(0),
                },
            },
            Action::QuietFlush | Action::Flush => {
                world.log.push("flush".to_string());
                match world.flush_error {
                    Some(e) => Event::Failed(e),
                    None => Event::Completed,
                }
            }
            Action::Sleep(secs) => {
                world.log.push(format!("sleep {secs}"));
                Event::Completed
            }
            Action::CloseWrite => {
                world.log.push("close write".to_string());
                Event::Completed
            }
            _ => panic!("{action:?}"),
        };
        if t.on_event(event) == Turn::Ready {
            assert_eq!(t.phase, Phase::Done);
            assert!(!t.held, "no buffer is kept");
            return t.result;
        }
    }
}

fn world(source: &[Option<&[u8]>]) -> World {
    World {
        source: source.iter().map(|s| s.map(<[u8]>::to_vec)).collect(),
        write_limit: usize::MAX,
        ..World::default()
    }
}

#[test]
fn everything_read_is_written_before_the_half_close() {
    for (limit, frames) in [(usize::MAX, false), (1, false), (3, true), (usize::MAX, true)] {
        let mut w = world(&[Some(b"hello "), None, Some(b"frame "), Some(b"world")]);
        w.write_limit = limit;
        assert_eq!(run(&mut w, frames, 0), Ok(()));
        assert_eq!(w.written, b"hello frame world");
        assert_eq!(w.log.last().map(String::as_str), Some("close write"));
    }
}

/// A quiet source is the moment to flush what the destination may have buffered.
#[test]
fn a_quiet_source_flushes_the_destination() {
    let mut w = world(&[Some(b"data"), None]);
    assert_eq!(run(&mut w, false, 0), Ok(()));
    assert_eq!(w.log, ["flush", "flush", "close write"]);
    // With nothing written there is nothing to flush but at the end.
    let mut w = world(&[None]);
    assert_eq!(run(&mut w, false, 0), Ok(()));
    assert_eq!(w.log, ["flush", "close write"]);
}

/// The wait comes between the end of the copy and the half-close; one that is not positive is none.
#[test]
fn the_half_close_waits() {
    for (close_wait, want) in [
        (3, vec!["flush", "sleep 3", "close write"]),
        (0, vec!["flush", "close write"]),
        (-1, vec!["flush", "close write"]),
    ] {
        let mut w = world(&[]);
        assert_eq!(run(&mut w, false, close_wait), Ok(()));
        assert_eq!(w.log, want);
    }
}

#[test]
fn an_error_is_reported_and_the_destination_still_half_closed() {
    let mut w = world(&[Some(b"ping")]);
    w.read_error = Some("reset");
    assert_eq!(run(&mut w, false, 0), Err(Fault::Io("reset")));
    assert_eq!(w.written, b"ping");
    assert_eq!(w.log, ["flush", "close write"]);

    let mut w = world(&[Some(b"ping")]);
    w.write_error = Some("broken pipe");
    assert_eq!(run(&mut w, false, 0), Err(Fault::Io("broken pipe")));
    assert_eq!(w.log.last().map(String::as_str), Some("close write"));

    // A destination that takes nothing.
    let mut w = world(&[Some(b"ping")]);
    w.write_limit = 0;
    assert_eq!(run(&mut w, false, 0), Err(Fault::ShortWrite));

    let mut w = world(&[Some(b"ping")]);
    w.flush_error = Some("broken pipe");
    assert_eq!(run(&mut w, false, 0), Err(Fault::Io("broken pipe")));

    // The error of the copy wins over the later one of the flush.
    let mut w = world(&[]);
    w.read_error = Some("reset");
    w.flush_error = Some("broken pipe");
    assert_eq!(run(&mut w, false, 0), Err(Fault::Io("reset")));
}

/// A buffer is held from a read that found something until it has been written.
#[test]
fn an_idle_direction_gives_its_buffer_back() {
    let mut t: Transfer<()> = Transfer::new(false, 0);
    assert_eq!(t.next_action(), Action::Read);
    assert_eq!(t.on_event(Event::Blocked(0)), Turn::Yield);
    assert!(!t.held);
    assert_eq!(t.on_event(Event::Moved(4)), Turn::Again);
    assert!(t.held);
    assert_eq!(t.next_action(), Action::Write { from: 0, to: 4 });
    assert_eq!(t.on_event(Event::Moved(3)), Turn::Again);
    assert_eq!(t.next_action(), Action::Write { from: 3, to: 4 });
    assert_eq!(t.on_event(Event::Blocked(0)), Turn::Yield);
    assert!(t.held);
}

// ---------------------------------------------------------------------------------------
// A multiplexed stream
// ---------------------------------------------------------------------------------------

#[test]
fn frames_are_read_whole_and_end_with_none() {
    let mut b = FrameBuffer::new();
    assert_eq!(b.read_frame(), Frame::NeedFrame);
    b.on_frame(Some(b"one".to_vec()));
    assert_eq!(b.read_frame(), Frame::Whole(b"one".to_vec()));
    assert_eq!(b.hand_on(None), None);
    assert_eq!(b.read_frame(), Frame::End);
    assert_eq!(b.read(8), Served::Nothing);
}

#[test]
fn a_frame_tail_left_by_a_read_is_delivered_first() {
    let mut b = FrameBuffer::new();
    assert_eq!(b.read(4), Served::NeedFrame);
    assert_eq!(b.read(0), Served::Nothing);
    b.on_frame(Some(b"hello world".to_vec()));
    assert_eq!(b.read(5), Served::Data(b"hello".to_vec()));
    assert_eq!(b.read_frame(), Frame::Whole(b" world".to_vec()));
    assert_eq!(b.read_frame(), Frame::NeedFrame);
    // A frame for a reader of whole frames is handed on as it is, an empty one too.
    assert_eq!(b.hand_on(Some(b"x".to_vec())), Some(b"x".to_vec()));
    assert_eq!(b.hand_on(Some(Vec::new())), Some(Vec::new()));
    assert_eq!(b.read_frame(), Frame::NeedFrame);
    // An empty frame is not the end.
    b.on_frame(Some(Vec::new()));
    assert_eq!(b.read(1), Served::NeedFrame);
}

#[test]
fn a_repeated_close_is_not_an_error() {
    let mut b = FrameBuffer::new();
    assert!(b.needs_close_write() && b.needs_close());
    b.on_close_write();
    assert!(!b.needs_close_write() && b.needs_close());
    b.on_close();
    assert!(!b.needs_close_write() && !b.needs_close());
    assert_eq!(reported_write(7, 5), 5);
    assert_eq!(reported_write(3, 5), 3);
}
