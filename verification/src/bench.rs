//! Rules of the benchmark programs: their arguments, what their ping loops do, and their
//! counters.

use crate::interface::{PacketBuf, PacketBufMut, RecvMeta, ScatterGather, Segment, Transmit};
use std::collections::BTreeSet;
use vstd::prelude::*;
use vstd::string::*;

verus! {

broadcast use {vstd::slice::group_slice_axioms, vstd::std_specs::btree::group_btree_axioms};

/// Most Tokio worker threads.
pub const MAX_WORKER_THREADS: usize = 256;

/// Tokio worker threads where neither the command line nor the system gives a number.
pub const DEFAULT_WORKER_THREADS: usize = 4;

/// The port that servers listen on by default.
pub const DEFAULT_PORT: u16 = 4433;

/// The payload of a ping.
pub const PING_LEN: usize = 8;

/// A worker thread count within its limits.
pub open spec fn thread_limits(wanted: int) -> int {
    vstd::math::max(1, vstd::math::min(wanted, MAX_WORKER_THREADS as int))
}

/// Tokio worker thread count: CLI override or available parallelism, between 1 and 256.
pub fn tokio_worker_threads(threads: Option<usize>, available: Option<usize>) -> (n: usize)
    ensures
        n == thread_limits(
            match (threads, available) {
                (Some(t), _) => t as int,
                (None, Some(a)) => a as int,
                (None, None) => DEFAULT_WORKER_THREADS as int,
            },
        ),
{
    let wanted: usize = match (threads, available) {
        (Some(t), _) => t,
        (None, Some(a)) => a,
        (None, None) => DEFAULT_WORKER_THREADS,
    };
    if wanted < 1 {
        1
    } else if wanted > MAX_WORKER_THREADS {
        MAX_WORKER_THREADS
    } else {
        wanted
    }
}

/// The number that decimal digits spell.
pub open spec fn decimal(digits: Seq<char>) -> int
    decreases digits.len(),
{
    if digits.len() == 0 {
        0
    } else {
        decimal(digits.drop_last()) * 10 + (digits.last() as int - '0' as int)
    }
}

/// Whether a text is one or more decimal digits.
pub open spec fn is_number(text: Seq<char>) -> bool {
    text.len() > 0 && forall|i: int| 0 <= i < text.len() ==> '0' <= #[trigger] text[i] <= '9'
}

/// A text without a leading plus sign.
pub open spec fn unsigned(text: Seq<char>) -> Seq<char> {
    if text.len() > 0 && text[0] == '+' {
        text.skip(1)
    } else {
        text
    }
}

/// The port that a text spells: decimal digits, with or without a plus sign in front.
pub open spec fn port_of(text: Seq<char>) -> Option<u16> {
    let digits = unsigned(text);
    if is_number(digits) && decimal(digits) <= u16::MAX {
        Some(decimal(digits) as u16)
    } else {
        None
    }
}

proof fn lemma_decimal_prefix(digits: Seq<char>, n: int)
    requires
        is_number(digits),
        0 <= n <= digits.len(),
    ensures
        0 <= decimal(digits.take(n)) <= decimal(digits),
    decreases digits.len() - n,
{
    if n < digits.len() {
        lemma_decimal_prefix(digits, n + 1);
        assert(digits.take(n + 1).drop_last() =~= digits.take(n));
        assert('0' <= digits[n] <= '9');
        lemma_decimal_nonnegative(digits, n);
    } else {
        assert(digits.take(n) =~= digits);
        lemma_decimal_nonnegative(digits, n);
    }
}

proof fn lemma_decimal_nonnegative(digits: Seq<char>, n: int)
    requires
        is_number(digits),
        0 <= n <= digits.len(),
    ensures
        0 <= decimal(digits.take(n)),
    decreases n,
{
    if n > 0 {
        lemma_decimal_nonnegative(digits, n - 1);
        assert(digits.take(n).drop_last() =~= digits.take(n - 1));
        assert('0' <= digits[n - 1] <= '9');
    }
}

/// Reads a port.
pub fn parse_port(text: &str) -> (port: Option<u16>)
    ensures
        port == port_of(text@),
{
    let n: usize = text.unicode_len();
    let start: usize = if n > 0 && text.get_char(0) == '+' {
        1
    } else {
        0
    };
    let ghost digits = unsigned(text@);
    assert(digits =~= text@.skip(start as int));
    if start == n {
        return None;
    }
    let mut value: u32 = 0;
    let mut i: usize = start;
    assert(digits.take(0).len() == 0);
    while i < n
        invariant
            start <= i <= n == text@.len(),
            digits == text@.skip(start as int),
            digits == unsigned(text@),
            digits.len() > 0,
            forall|j: int| 0 <= j < i - start ==> '0' <= #[trigger] digits[j] <= '9',
            value == decimal(digits.take(i - start)),
            value <= u16::MAX,
        decreases n - i,
    {
        let c: char = text.get_char(i);
        assert(digits[i - start] == c);
        if c < '0' || c > '9' {
            return None;
        }
        let digit: u32 = c as u32 - '0' as u32;
        proof {
            assert(digits.take(i - start + 1).drop_last() =~= digits.take(i - start));
            assert(digits.take(i - start + 1).last() == c);
        }
        let next: u32 = value * 10 + digit;
        if next > u16::MAX as u32 {
            proof {
                if is_number(digits) {
                    lemma_decimal_prefix(digits, i - start + 1);
                }
            }
            return None;
        }
        value = next;
        i += 1;
    }
    assert(digits.take(i - start) =~= digits);
    Some(value as u16)
}

/// What a server listens on.
pub enum Listen {
    /// A host and a port.
    HostPort { host: String, port: u16 },
    /// A port on all addresses.
    Port { port: u16 },
    /// No port can be read from this.
    BadPort { text: String },
}

/// Where the last colon of a text is, or -1.
pub open spec fn last_colon(text: Seq<char>) -> int
    decreases text.len(),
{
    if text.len() == 0 {
        -1
    } else if text.last() == ':' {
        text.len() - 1
    } else {
        last_colon(text.drop_last())
    }
}

/// The part of a `--listen` value that is its port: what follows the last colon, or all of it.
pub open spec fn port_part(text: Seq<char>) -> Seq<char> {
    text.skip(last_colon(text) + 1)
}

/// Build the UDP bind address from optional `--listen ADDR:PORT` and `--port PORT`. `--listen`
/// wins; it may be a port only. Without either it is port 4433 on all addresses. Whether the
/// host is an address is not looked at here.
pub fn bind_addr(listen: Option<&str>, port: Option<u16>) -> (bind: Listen)
    ensures
        listen matches Some(text) ==> {
            let colon = last_colon(text@);
            match port_of(port_part(text@)) {
                None => bind matches Listen::BadPort { text: bad } && bad@ == port_part(text@),
                Some(p) => if colon >= 0 {
                    bind matches Listen::HostPort { host, port } && host@ == text@.take(colon)
                        && port == p
                } else {
                    bind matches Listen::Port { port } && port == p
                },
            }
        },
        listen is None ==> (bind matches Listen::Port { port: bound } && bound == match port {
            Some(p) => p,
            None => DEFAULT_PORT,
        }),
{
    match listen {
        None => match port {
            Some(p) => Listen::Port { port: p },
            None => Listen::Port { port: DEFAULT_PORT },
        },
        Some(text) => {
            let n: usize = text.unicode_len();
            let mut end: usize = n;
            assert(text@.take(n as int) =~= text@);
            while end > 0 && text.get_char(end - 1) != ':'
                invariant
                    end <= n == text@.len(),
                    last_colon(text@) == last_colon(text@.take(end as int)),
                decreases end,
            {
                assert(text@.take(end as int).drop_last() =~= text@.take(end - 1));
                end -= 1;
            }
            assert(last_colon(text@) == end - 1);
            let digits: &str = text.substring_char(end, n);
            assert(digits@ =~= port_part(text@));
            match parse_port(digits) {
                None => Listen::BadPort { text: String::from_str(digits) },
                Some(p) => if end > 0 {
                    let host: &str = text.substring_char(0, end - 1);
                    assert(host@ =~= text@.take(end - 1));
                    Listen::HostPort { host: String::from_str(host), port: p }
                } else {
                    Listen::Port { port: p }
                },
            }
        },
    }
}

/// What `quic_bench` is asked to do.
#[derive(Debug, Clone, Copy, PartialEq, Eq, Structural)]
pub enum BenchCommand {
    StreamPing { connections: usize },
    ConnectChurn,
    MultiStreamPing { connections: usize, streams: usize },
    /// `churn` tells whether the churn rate is above zero.
    ChurnPing { connections: usize, streams: usize, churn: bool },
}

/// What `quic_bench` does.
#[derive(Debug, Clone, Copy, PartialEq, Eq, Structural)]
pub struct BenchPlan {
    /// Connections that stay open.
    pub connections: usize,
    /// Streams on each of them.
    pub streams: usize,
    /// Tasks that open and close connections without pause.
    pub churn_workers: usize,
    /// Whether connections are opened and closed at a rate.
    pub churn: bool,
    /// Whether a failed or short read stops the program.
    pub strict: bool,
}

/// At least one.
pub open spec fn at_least_one(n: usize) -> usize {
    if n == 0 {
        1
    } else {
        n
    }
}

fn one_or_more(n: usize) -> (m: usize)
    ensures
        m == at_least_one(n),
{
    if n == 0 {
        1
    } else {
        n
    }
}

/// The plan for a command, with `threads` worker threads.
pub fn plan_bench(command: BenchCommand, threads: usize) -> (plan: BenchPlan)
    ensures
        plan == match command {
            BenchCommand::StreamPing { connections } => BenchPlan {
                connections: at_least_one(connections),
                streams: 1,
                churn_workers: 0,
                churn: false,
                strict: true,
            },
            BenchCommand::ConnectChurn => BenchPlan {
                connections: 0,
                streams: 0,
                churn_workers: threads,
                churn: false,
                strict: false,
            },
            BenchCommand::MultiStreamPing { connections, streams } => BenchPlan {
                connections: at_least_one(connections),
                streams: at_least_one(streams),
                churn_workers: 0,
                churn: false,
                strict: true,
            },
            BenchCommand::ChurnPing { connections, streams, churn } => BenchPlan {
                connections: at_least_one(connections),
                streams: at_least_one(streams),
                churn_workers: 0,
                churn,
                strict: false,
            },
        },
{
    match command {
        BenchCommand::StreamPing { connections } => BenchPlan {
            connections: one_or_more(connections),
            streams: 1,
            churn_workers: 0,
            churn: false,
            strict: true,
        },
        BenchCommand::ConnectChurn => BenchPlan {
            connections: 0,
            streams: 0,
            churn_workers: threads,
            churn: false,
            strict: false,
        },
        BenchCommand::MultiStreamPing { connections, streams } => BenchPlan {
            connections: one_or_more(connections),
            streams: one_or_more(streams),
            churn_workers: 0,
            churn: false,
            strict: true,
        },
        BenchCommand::ChurnPing { connections, streams, churn } => BenchPlan {
            connections: one_or_more(connections),
            streams: one_or_more(streams),
            churn_workers: 0,
            churn,
            strict: false,
        },
    }
}

impl BenchPlan {
    /// Number of streams in all, where it can be counted.
    pub fn total_streams(&self) -> (n: Option<usize>)
        ensures
            n is Some <==> self.connections * self.streams <= usize::MAX,
            n matches Some(total) ==> total == self.connections * self.streams,
    {
        self.connections.checked_mul(self.streams)
    }
}

/// What an attempt to ping gave.
#[derive(Debug, Clone, Copy, PartialEq, Eq, Structural)]
pub enum PingOutcome {
    WriteFailed,
    Read { bytes: usize },
    Closed,
    ReadFailed,
}

/// What a ping loop does next.
#[derive(Debug, Clone, Copy, PartialEq, Eq, Structural)]
pub enum PingStep {
    /// Count the round trip and ping again.
    Count,
    /// The loop is over.
    Stop,
    /// The task is over, and failed. Other tasks go on.
    Abort,
}

/// What follows from an attempt to ping. A strict loop gives up its task when an echo fails
/// or is shorter than the ping; a lenient one counts what it reads and ends quietly.
pub fn after_ping(outcome: PingOutcome, strict: bool) -> (step: PingStep)
    ensures
        step == match outcome {
            PingOutcome::Read { bytes } => if strict && bytes < PING_LEN {
                PingStep::Abort
            } else {
                PingStep::Count
            },
            PingOutcome::Closed => PingStep::Stop,
            PingOutcome::WriteFailed => if strict {
                PingStep::Abort
            } else {
                PingStep::Stop
            },
            PingOutcome::ReadFailed => if strict {
                PingStep::Abort
            } else {
                PingStep::Stop
            },
        },
{
    match outcome {
        PingOutcome::Read { bytes } => if strict && bytes < PING_LEN {
            PingStep::Abort
        } else {
            PingStep::Count
        },
        PingOutcome::Closed => PingStep::Stop,
        _ => if strict {
            PingStep::Abort
        } else {
            PingStep::Stop
        },
    }
}

/// What a running benchmark waits for.
#[derive(Debug, Clone, Copy, PartialEq, Eq, Structural)]
pub enum RunEvent {
    Interrupted,
    DeadlineReached,
    /// A task ended, well or not.
    TaskEnded { ok: bool },
    /// No task is left.
    NoTasks,
}

/// Why a benchmark stops.
#[derive(Debug, Clone, Copy, PartialEq, Eq, Structural)]
pub enum StopReason {
    Interrupt,
    Deadline,
    Finished,
}

/// Whether a benchmark stops.
pub fn drive_until_stop(event: RunEvent) -> (stop: Option<StopReason>)
    ensures
        stop == match event {
            RunEvent::Interrupted => Some(StopReason::Interrupt),
            RunEvent::DeadlineReached => Some(StopReason::Deadline),
            RunEvent::NoTasks => Some(StopReason::Finished),
            RunEvent::TaskEnded { ok } => None,
        },
{
    match event {
        RunEvent::Interrupted => Some(StopReason::Interrupt),
        RunEvent::DeadlineReached => Some(StopReason::Deadline),
        RunEvent::NoTasks => Some(StopReason::Finished),
        RunEvent::TaskEnded { ok: _ } => None,
    }
}

/// What is wrong with an echo.
#[derive(Debug, Clone, Copy, PartialEq, Eq, Structural)]
pub enum EchoError {
    ShortRead { got: usize },
    Mismatch,
}

/// Checks the echo of a ping: `received` holds what was read.
pub fn check_echo(ping: &[u8], received: &[u8]) -> (result: Result<(), EchoError>)
    ensures
        result == (if received@.len() < ping@.len() {
            Err::<(), EchoError>(EchoError::ShortRead { got: received@.len() as usize })
        } else if received@.take(ping@.len() as int) != ping@ {
            Err::<(), EchoError>(EchoError::Mismatch)
        } else {
            Ok::<(), EchoError>(())
        }),
{
    if received.len() < ping.len() {
        return Err(EchoError::ShortRead { got: received.len() });
    }
    let mut i: usize = 0;
    while i < ping.len()
        invariant
            i <= ping@.len() <= received@.len(),
            received@.take(i as int) == ping@.take(i as int),
        decreases ping@.len() - i,
    {
        if received[i] != ping[i] {
            assert(received@.take(ping@.len() as int)[i as int] != ping@[i as int]);
            return Err(EchoError::Mismatch);
        }
        i += 1;
        assert(received@.take(i as int) =~= ping@.take(i as int));
    }
    assert(ping@.take(i as int) =~= ping@);
    Ok(())
}

/// What reading a stream gave an echo server.
#[derive(Debug, Clone, Copy, PartialEq, Eq, Structural)]
pub enum EchoRead {
    Bytes { count: usize },
    Finished,
    Failed,
}

/// What an echo server does next.
#[derive(Debug, Clone, Copy, PartialEq, Eq, Structural)]
pub enum EchoStep {
    /// Write the bytes back.
    Write { count: usize },
    /// Read again.
    Again,
    /// Finish the stream.
    Finish,
}

/// What follows from reading a stream.
pub fn after_read(read: EchoRead) -> (step: EchoStep)
    ensures
        step == match read {
            EchoRead::Bytes { count } => if count == 0 {
                EchoStep::Again
            } else {
                EchoStep::Write { count }
            },
            EchoRead::Finished => EchoStep::Finish,
            EchoRead::Failed => EchoStep::Finish,
        },
{
    match read {
        EchoRead::Bytes { count } => if count == 0 {
            EchoStep::Again
        } else {
            EchoStep::Write { count }
        },
        _ => EchoStep::Finish,
    }
}

/// What happens on a connection of the echo server.
#[derive(Debug, Clone, Copy, PartialEq, Eq, Structural)]
pub enum StreamEvent {
    /// The peer opened a stream; `writable` if it can be written to.
    Opened { id: u64, writable: bool },
    Data { id: u64 },
    Finished { id: u64 },
    Reset { id: u64 },
}

/// The streams of a connection that the echo server can write to.
pub struct EchoStreams {
    senders: BTreeSet<u64>,
}

impl View for EchoStreams {
    type V = Set<u64>;

    closed spec fn view(&self) -> Set<u64> {
        self.senders@
    }
}

impl EchoStreams {
    pub fn new() -> (streams: EchoStreams)
        ensures
            streams@ == Set::<u64>::empty(),
    {
        EchoStreams { senders: BTreeSet::new() }
    }

    /// Takes an event. Returns the stream that the data is to be written back to.
    pub fn handle(&mut self, event: StreamEvent) -> (write_to: Option<u64>)
        ensures
            final(self)@ == match event {
                StreamEvent::Opened { id, writable } => if writable {
                    old(self)@.insert(id)
                } else {
                    old(self)@
                },
                StreamEvent::Data { id } => old(self)@,
                StreamEvent::Finished { id } => old(self)@.remove(id),
                StreamEvent::Reset { id } => old(self)@.remove(id),
            },
            write_to == (if event matches StreamEvent::Data { id } && old(self)@.contains(id) {
                Some(event->Data_id)
            } else {
                None
            }),
    {
        match event {
            StreamEvent::Opened { id, writable } => {
                if writable {
                    self.senders.insert(id);
                }
                None
            },
            StreamEvent::Data { id } => if self.senders.contains(&id) {
                Some(id)
            } else {
                None
            },
            StreamEvent::Finished { id } => {
                self.senders.remove(&id);
                None
            },
            StreamEvent::Reset { id } => {
                self.senders.remove(&id);
                None
            },
        }
    }
}

/// Counters of a receiving benchmark since the last print.
#[derive(Debug, Clone, Copy, PartialEq, Eq, Structural)]
pub struct Stats {
    pub packets: u64,
    pub batch_sum: u64,
    pub recv_calls: u64,
    /// Milliseconds of a clock that does not go back.
    pub last_print: u64,
}

/// How often counters are printed or flushed, in milliseconds.
pub const REPORT_INTERVAL_MS: u64 = 1000;

impl Stats {
    pub fn new(now: u64) -> (stats: Stats)
        ensures
            stats == (Stats { packets: 0, batch_sum: 0, recv_calls: 0, last_print: now }),
    {
        Stats { packets: 0, batch_sum: 0, recv_calls: 0, last_print: now }
    }

    /// Counts a receive call that gave `n` packets.
    pub fn record(&mut self, n: usize)
        requires
            old(self).packets + n <= u64::MAX,
            old(self).batch_sum + n <= u64::MAX,
            old(self).recv_calls < u64::MAX,
        ensures
            *final(self) == (Stats {
                packets: (old(self).packets + n) as u64,
                batch_sum: (old(self).batch_sum + n) as u64,
                recv_calls: (old(self).recv_calls + 1) as u64,
                ..*old(self)
            }),
    {
        self.packets = self.packets + n as u64;
        self.batch_sum = self.batch_sum + n as u64;
        self.recv_calls = self.recv_calls + 1;
    }

    /// Hands the counters out for printing and resets them, if a second has elapsed.
    pub fn maybe_print(&mut self, now: u64) -> (report: Option<Stats>)
        ensures
            vstd::math::max(now - old(self).last_print, 0) < REPORT_INTERVAL_MS ==> report is None
                && *final(self) == *old(self),
            vstd::math::max(now - old(self).last_print, 0) >= REPORT_INTERVAL_MS ==> report == Some(
                *old(self),
            ) && *final(self) == (Stats {
                packets: 0,
                batch_sum: 0,
                recv_calls: 0,
                last_print: now,
            }),
    {
        if now.saturating_sub(self.last_print) < REPORT_INTERVAL_MS {
            return None;
        }
        let report: Stats = *self;
        *self = Stats::new(now);
        Some(report)
    }
}

/// A thread's own count, added to the shared counter once a second.
#[derive(Debug, Clone, Copy, PartialEq, Eq, Structural)]
pub struct LocalCount {
    pub local: u64,
    pub last: u64,
}

impl LocalCount {
    /// What to add to the shared counter: the local count, if a second has elapsed, and then
    /// the local count starts again.
    pub fn maybe_flush(&mut self, now: u64) -> (flushed: Option<u64>)
        ensures
            vstd::math::max(now - old(self).last, 0) < REPORT_INTERVAL_MS ==> flushed is None
                && *final(self) == *old(self),
            vstd::math::max(now - old(self).last, 0) >= REPORT_INTERVAL_MS ==> flushed == Some(
                old(self).local,
            ) && *final(self) == (LocalCount { local: 0, last: now }),
    {
        if now.saturating_sub(self.last) >= REPORT_INTERVAL_MS {
            let flushed: u64 = self.local;
            self.local = 0;
            self.last = now;
            Some(flushed)
        } else {
            None
        }
    }
}

/// The answer to a received packet: its payload, back to where it came from.
pub open spec fn is_pong<F: PacketBuf>(
    transmit: Transmit<ScatterGather<F>>,
    meta: RecvMeta,
    payload: Seq<u8>,
    keep_ecn: bool,
) -> bool {
    &&& transmit.destination == meta.src
    &&& transmit.ecn == (if keep_ecn {
        meta.ecn
    } else {
        None
    })
    &&& transmit.segment_size is None
    &&& transmit.src_ip is None
    &&& transmit.contents.wf()
    &&& transmit.contents@.len() == 1
    &&& transmit.contents@[0].wf()
    &&& transmit.contents@[0].bytes() == payload
}

/// Reflects a received packet back to its sender, in the same buffer.
pub fn pong<B: PacketBufMut>(meta: &RecvMeta, buf: B, keep_ecn: bool) -> (transmit: Transmit<
    ScatterGather<B::Frozen>,
>)
    requires
        buf.wf(),
    ensures
        is_pong(transmit, *meta, buf.bytes(), keep_ecn),
        transmit.contents@[0].buf == buf.spec_freeze(),
{
    let len: usize = buf.filled().len();
    let frozen: B::Frozen = buf.freeze();
    let mut contents: ScatterGather<B::Frozen> = ScatterGather::new();
    let segment = Segment { buf: frozen, offset: 0, len };
    assert(segment.bytes() =~= buf.bytes());
    contents.push(segment);
    Transmit {
        destination: meta.src,
        ecn: if keep_ecn {
            meta.ecn
        } else {
            None
        },
        contents,
        segment_size: None,
        src_ip: None,
    }
}

/// The worker threads asked for are had, from 1 to 256; fewer become 1, and more 256.
pub proof fn law_worker_threads_are_limited(wanted: int)
    ensures
        1 <= wanted <= 256 ==> thread_limits(wanted) == wanted,
        wanted < 1 ==> thread_limits(wanted) == 1,
        wanted > 256 ==> thread_limits(wanted) == 256,
{
}

/// A port is read digit by digit: each one counts for one, and what comes before it for ten times
/// as much. Anything but a digit, and any number past 65535, is no port; a plus sign may stand in
/// front.
pub proof fn law_ports_are_read_digit_by_digit(text: Seq<char>, c: char)
    ensures
        port_of(Seq::<char>::empty()) is None,
        ({
            let more = text.push(c);
            let digit = c as int - 48;
            let is_digit = 0 <= digit <= 9;
            let before = port_of(text);
            &&& !is_digit ==> port_of(more) is None
            &&& is_digit && (text.len() == 0 || text.len() == 1 && text[0] as int == 43)
                ==> port_of(more) == Some(digit as u16)
            &&& is_digit && before is Some ==> port_of(more) == (if before->Some_0 * 10 + digit
                <= 65535 {
                Some((before->Some_0 * 10 + digit) as u16)
            } else {
                None::<u16>
            })
            &&& is_digit && before is None && text.len() > 0 && !(text.len() == 1 && text[0] as int
                == 43) ==> port_of(more) is None
        }),
{
    let more = text.push(c);
    let digit = c as int - 48;
    let digits = unsigned(text);
    let more_digits = unsigned(more);
    if text.len() > 0 {
        assert(more[0] == text[0]);
        assert(more_digits =~= digits.push(c));
    } else {
        assert(c != '+' ==> more_digits =~= digits.push(c));
    }
    if more_digits == digits.push(c) {
        assert(more_digits.drop_last() =~= digits);
        assert(more_digits.last() == c);
        assert(more_digits[digits.len() as int] == c);
        assert(forall|i: int| 0 <= i < digits.len() ==> #[trigger] more_digits[i] == digits[i]);
        if is_number(more_digits) && digits.len() > 0 {
            assert forall|i: int| 0 <= i < digits.len() implies '0' <= #[trigger] digits[i]
                <= '9' by {
                assert(more_digits[i] == digits[i]);
            }
        }
        if is_number(digits) && 0 <= digit <= 9 {
            assert forall|i: int| 0 <= i < more_digits.len() implies '0'
                <= #[trigger] more_digits[i] <= '9' by {
                if i < digits.len() {
                    assert(more_digits[i] == digits[i]);
                }
            }
        }
        if digits.len() > 0 && is_number(digits) {
            lemma_decimal_not_negative(digits);
        }
        assert(decimal(more_digits) == decimal(digits) * 10 + digit);
        if digits.len() == 0 {
            assert(decimal(digits) == 0);
        }
    } else {
        assert(more_digits =~= Seq::<char>::empty());
    }
}

proof fn lemma_decimal_not_negative(digits: Seq<char>)
    requires
        forall|i: int| 0 <= i < digits.len() ==> '0' <= #[trigger] digits[i] <= '9',
    ensures
        decimal(digits) >= 0,
    decreases digits.len(),
{
    if digits.len() > 0 {
        let fewer = digits.drop_last();
        assert forall|i: int| 0 <= i < fewer.len() implies '0' <= #[trigger] fewer[i] <= '9' by {
            assert(fewer[i] == digits[i]);
        }
        lemma_decimal_not_negative(fewer);
        assert('0' <= digits[digits.len() - 1] <= '9');
    }
}

/// A host is told from its port by the last colon: whatever the host holds, and as long as the
/// port holds none. Without a colon all of the text is the port.
pub proof fn law_last_colon_parts_host_and_port(host: Seq<char>, port: Seq<char>)
    requires
        forall|i: int| 0 <= i < port.len() ==> #[trigger] port[i] != ':',
    ensures
        last_colon(host.push(':') + port) == host.len(),
        port_part(host.push(':') + port) == port,
        (host.push(':') + port).take(host.len() as int) == host,
        last_colon(port) == -1,
        port_part(port) == port,
{
    let text = host.push(':') + port;
    lemma_last_colon(host.push(':'), port);
    lemma_last_colon(Seq::<char>::empty(), port);
    assert(Seq::<char>::empty() + port =~= port);
    assert(host.push(':').last() == ':');
    assert(text.skip(host.len() as int + 1) =~= port);
    assert(text.take(host.len() as int) =~= host);
    assert(port.skip(0) =~= port);
}

/// What has no colon does not move the last one.
proof fn lemma_last_colon(text: Seq<char>, more: Seq<char>)
    requires
        forall|i: int| 0 <= i < more.len() ==> #[trigger] more[i] != ':',
    ensures
        last_colon(text + more) == last_colon(text),
    decreases more.len(),
{
    if more.len() == 0 {
        assert(text + more =~= text);
    } else {
        let fewer = more.drop_last();
        assert forall|i: int| 0 <= i < fewer.len() implies #[trigger] fewer[i] != ':' by {
            assert(fewer[i] == more[i]);
        }
        lemma_last_colon(text, fewer);
        assert((text + more).drop_last() =~= text + fewer);
        assert((text + more).last() == more[more.len() - 1]);
    }
}

/// The numbers of the benchmarks: pings of 8 bytes, port 4433, four threads where nothing else is
/// known, and a report every second. At least one connection or stream is opened.
pub proof fn law_numbers_of_the_benchmarks(n: usize)
    ensures
        PING_LEN == 8 && DEFAULT_PORT == 4433 && DEFAULT_WORKER_THREADS == 4,
        REPORT_INTERVAL_MS == 1000,
        n > 0 ==> at_least_one(n) == n,
        at_least_one(0) == 1,
{
}

/// A packet is reflected to where it came from, as one datagram with the same bytes, and with the
/// same mark where marks are kept.
pub proof fn law_pong_goes_back<F: PacketBuf>(
    transmit: Transmit<ScatterGather<F>>,
    meta: RecvMeta,
    payload: Seq<u8>,
    keep_ecn: bool,
)
    requires
        is_pong(transmit, meta, payload, keep_ecn),
    ensures
        transmit.destination == meta.src,
        keep_ecn ==> transmit.ecn == meta.ecn,
        !keep_ecn ==> transmit.ecn is None,
        transmit.src_ip is None,
        transmit.segment_size is None,
        crate::interface::segments_bytes(transmit.contents@) == payload,
{
    let rest = transmit.contents@.drop_last();
    assert(crate::interface::segments_bytes(rest) =~= Seq::<u8>::empty());
    assert(crate::interface::segments_bytes(transmit.contents@) =~= transmit.contents@[0].bytes());
}

} // verus!
