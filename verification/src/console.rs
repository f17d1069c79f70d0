//! The serial console: connection state and a bounded queue of writes.
//!
//! When the queue is full a write is dropped, so that memory stays bounded while
//! the line is down.

use crate::command_queue::chunks_of;
use crate::text::{copy_bytes, parse_uint, parse_unsigned};
use vstd::prelude::*;
use vstd::string::*;
use vstd::utf8::encode_utf8;

verus! {

/// The writes that may wait.
pub const WRITE_CHANNEL_DEPTH: usize = 64;

/// The queue after one more write, which is dropped where the queue is full.
pub open spec fn enqueued(q: Seq<Seq<u8>>, data: Seq<u8>) -> Seq<Seq<u8>> {
    if q.len() >= WRITE_CHANNEL_DEPTH {
        q
    } else {
        q.push(data)
    }
}

/// The low byte of the character in lower case.
pub open spec fn key_byte(ch: char) -> int {
    let u = ch as u32;
    (if 65 <= u <= 90 {
        u + 32
    } else {
        u as int
    }) % 256
}

/// The byte of a control key: Ctrl-A is 1 and Ctrl-Z is 26.
pub fn control_byte(ch: char) -> (r: Option<u8>)
    ensures
        r == (if 97 <= key_byte(ch) <= 122 {
            Some((key_byte(ch) - 96) as u8)
        } else {
            None
        }),
{
    let u: u32 = ch as u32;
    let lower: u32 = if 65 <= u && u <= 90 {
        u + 32
    } else {
        u
    };
    let b: u32 = lower % 256;
    if 97 <= b && b <= 122 {
        Some((b - 96) as u8)
    } else {
        None
    }
}

/// What a read from the line yielded.
#[derive(Debug, Clone, Copy, PartialEq, Eq, Structural)]
pub enum ReadOutcome {
    /// Bytes arrived.
    Data,
    /// Nothing arrived in time.
    Silence,
    /// The peer closed the connection.
    Closed,
    /// The read failed.
    Failed,
}

/// The model of a `SerialConsoleDriver`.
pub struct ConsoleView {
    pub host: Seq<char>,
    pub target: Seq<char>,
    /// A connection is held, though it may have failed.
    pub stream: bool,
    pub connected: bool,
    pub queue: Seq<Seq<u8>>,
}

/// The connection to a serial line and what waits to be written to it.
pub struct SerialConsoleDriver {
    host: String,
    target: String,
    stream: bool,
    connected: bool,
    queue: Vec<Vec<u8>>,
}

impl View for SerialConsoleDriver {
    type V = ConsoleView;

    closed spec fn view(&self) -> ConsoleView {
        ConsoleView {
            host: self.host@,
            target: self.target@,
            stream: self.stream,
            connected: self.connected,
            queue: chunks_of(self.queue@),
        }
    }
}

impl SerialConsoleDriver {
    /// A console that is not connected.
    pub fn new(host: String, target: String) -> (r: Self)
        ensures
            r@ == (ConsoleView {
                host: host@,
                target: target@,
                stream: false,
                connected: false,
                queue: Seq::empty(),
            }),
    {
        let r = SerialConsoleDriver {
            host,
            target,
            stream: false,
            connected: false,
            queue: Vec::new(),
        };
        assert(r@.queue =~= Seq::<Seq<u8>>::empty());
        r
    }

    /// Whether the line is connected.
    pub fn is_open(&self) -> (r: bool)
        ensures
            r == self@.connected,
    {
        self.connected
    }

    /// The host to connect to.
    pub fn host(&self) -> (r: &str)
        ensures
            r@ == self@.host,
    {
        self.host.as_str()
    }

    /// The port to connect to; 2000 where the target is no port number.
    pub fn port(&self) -> (r: u16)
        ensures
            r == (match parse_unsigned(self@.target, u16::MAX as nat) {
                Some(n) => n as int,
                None => 2000,
            }),
    {
        match parse_uint(&self.target, u16::MAX as u64) {
            Some(n) => n as u16,
            None => 2000,
        }
    }

    /// A connection was made or not.
    pub fn connect(&mut self, made: bool)
        ensures
            final(self)@ == (ConsoleView { stream: made, connected: made, ..old(self)@ }),
    {
        self.stream = made;
        self.connected = made;
    }

    /// The connection was closed.
    pub fn close(&mut self)
        ensures
            final(self)@ == (ConsoleView { stream: false, connected: false, ..old(self)@ }),
    {
        self.stream = false;
        self.connected = false;
    }

    /// Queues bytes to be written. Whether there was room for them.
    pub fn enqueue(&mut self, data: Vec<u8>) -> (r: bool)
        ensures
            r == (old(self)@.queue.len() < WRITE_CHANNEL_DEPTH),
            final(self)@ == (ConsoleView {
                queue: enqueued(old(self)@.queue, data@),
                ..old(self)@
            }),
    {
        let ghost before = self.queue@;
        assert(chunks_of(before).len() == before.len());
        if self.queue.len() >= WRITE_CHANNEL_DEPTH {
            return false;
        }
        self.queue.push(data);
        assert(chunks_of(self.queue@) =~= chunks_of(before).push(data@));
        true
    }

    /// Queues a line of text.
    pub fn sendline(&mut self, line: &str)
        ensures
            final(self)@ == (ConsoleView {
                queue: enqueued(old(self)@.queue, encode_utf8(line@ + "\n"@)),
                ..old(self)@
            }),
    {
        let text = crate::text::cat(line, "\n");
        let data = copy_bytes(text.as_str().as_bytes());
        self.enqueue(data);
    }

    /// Queues a control key; another character is ignored.
    pub fn sendcontrol(&mut self, ch: char)
        ensures
            final(self)@ == (if 97 <= key_byte(ch) <= 122 {
                ConsoleView {
                    queue: enqueued(old(self)@.queue, seq![(key_byte(ch) - 96) as u8]),
                    ..old(self)@
                }
            } else {
                old(self)@
            }),
    {
        if let Some(b) = control_byte(ch) {
            let mut data: Vec<u8> = Vec::new();
            data.push(b);
            assert(data@ =~= seq![(key_byte(ch) - 96) as u8]);
            self.enqueue(data);
        }
    }

    /// Hands out what waits to be written. While no connection is held it is
    /// dropped.
    pub fn drain_writes(&mut self) -> (r: Vec<Vec<u8>>)
        ensures
            chunks_of(r@) == (if old(self)@.stream {
                old(self)@.queue
            } else {
                Seq::empty()
            }),
            final(self)@ == (ConsoleView { queue: Seq::empty(), ..old(self)@ }),
    {
        let mut out: Vec<Vec<u8>> = Vec::new();
        assert(chunks_of(out@) =~= Seq::<Seq<u8>>::empty());
        std::mem::swap(&mut out, &mut self.queue);
        if !self.stream {
            out = Vec::new();
            assert(chunks_of(out@) =~= Seq::<Seq<u8>>::empty());
        }
        out
    }

    /// Notes that a write failed: the line is down. What was to be written behind
    /// it waits again, ahead of what was queued meanwhile; the failed write itself
    /// is lost.
    pub fn write_failed(&mut self, unwritten: Vec<Vec<u8>>)
        ensures
            final(self)@ == (ConsoleView {
                connected: false,
                queue: chunks_of(unwritten@) + old(self)@.queue,
                ..old(self)@
            }),
    {
        let ghost first = unwritten@;
        let ghost later = self.queue@;
        let mut queue = unwritten;
        queue.append(&mut self.queue);
        self.queue = queue;
        self.connected = false;
        assert(chunks_of(self.queue@) =~= chunks_of(first) + chunks_of(later));
    }

    /// Notes how a read ended: a closed or failed connection is down.
    pub fn read_available(&mut self, outcome: ReadOutcome)
        ensures
            final(self)@ == (ConsoleView {
                connected: old(self)@.connected && outcome != ReadOutcome::Closed && outcome
                    != ReadOutcome::Failed,
                ..old(self)@
            }),
    {
        if outcome == ReadOutcome::Closed || outcome == ReadOutcome::Failed {
            self.connected = false;
        }
    }
}

/// Law: the queue stays within its bound, and what waits in it stays in order.
pub proof fn law_queue_is_bounded(q: Seq<Seq<u8>>, data: Seq<u8>)
    requires
        q.len() <= WRITE_CHANNEL_DEPTH,
    ensures
        enqueued(q, data).len() <= WRITE_CHANNEL_DEPTH,
        q.is_prefix_of(enqueued(q, data)),
        q.len() < WRITE_CHANNEL_DEPTH ==> enqueued(q, data) == q.push(data),
{
}

/// Law: a capital letter is sent as the small one, any other key of one byte as itself.
pub proof fn law_keys(ch: char)
    ensures
        'A' <= ch <= 'Z' ==> key_byte(ch) == ch as u32 + 32,
        !('A' <= ch <= 'Z') && (ch as u32) < 256 ==> key_byte(ch) == ch as u32,
        0 <= key_byte(ch) < 256,
{
}

/// Law: at most 64 writes wait; one more is dropped, and those that wait stay.
pub proof fn law_full_queues_drop(q: Seq<Seq<u8>>, data: Seq<u8>)
    ensures
        q.len() >= 64 ==> enqueued(q, data) == q,
        q.len() < 64 ==> enqueued(q, data) == q.push(data),
{
}

/// Law: a letter with Ctrl is its place in the alphabet, capital or small; nothing else
/// has a control byte below 256.
pub proof fn law_control_keys(ch: char, r: Option<u8>)
    requires
        call_ensures(control_byte, (ch,), r),
    ensures
        'a' <= ch <= 'z' ==> r == Some((ch as u32 - 'a' as u32 + 1) as u8),
        'A' <= ch <= 'Z' ==> r == Some((ch as u32 - 'A' as u32 + 1) as u8),
        (ch as u32) < 256 && !('a' <= ch <= 'z') && !('A' <= ch <= 'Z') ==> r is None,
        r matches Some(b) ==> 1 <= b <= 26,
{
}

/// Law: what waits is handed out in order and only once; what could not be written waits
/// before what came later.
pub proof fn law_writes_keep_their_order(
    c: &mut SerialConsoleDriver,
    r: Vec<Vec<u8>>,
    unwritten: Vec<Vec<u8>>,
    d: &mut SerialConsoleDriver,
    u: (),
)
    requires
        call_ensures(SerialConsoleDriver::drain_writes, (c,), r),
        call_ensures(SerialConsoleDriver::write_failed, (d, unwritten), u),
    ensures
        final(c)@.queue.len() == 0,
        old(c)@.stream ==> chunks_of(r@) == old(c)@.queue,
        !old(c)@.stream ==> chunks_of(r@).len() == 0,
        final(d)@.queue == chunks_of(unwritten@) + old(d)@.queue,
        !final(d)@.connected,
{
}

/// Law: a connection lasts until its peer closes it or a read fails.
pub proof fn law_connections_last(c: &mut SerialConsoleDriver, outcome: ReadOutcome, u: ())
    requires
        call_ensures(SerialConsoleDriver::read_available, (c, outcome), u),
    ensures
        final(c)@.connected <==> old(c)@.connected && (outcome == ReadOutcome::Data || outcome
            == ReadOutcome::Silence),
        final(c)@.queue == old(c)@.queue,
{
}

} // verus!
