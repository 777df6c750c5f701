//! Keeping the routing tables up to date: what netlink events mean, and when to rebuild.
//!
//! The monitor subscribes to events before it dumps the kernel's tables, so that nothing
//! between the two is lost; it rebuilds from fresh dumps, so applying an event twice is
//! harmless.

use crate::addr::IpAddr;
use vstd::prelude::*;

verus! {

broadcast use vstd::slice::group_slice_axioms;

pub const RTM_NEWLINK: u16 = 16;

pub const RTM_DELLINK: u16 = 17;

pub const RTM_NEWROUTE: u16 = 24;

pub const RTM_DELROUTE: u16 = 25;

pub const RTM_NEWNEIGH: u16 = 28;

pub const RTM_DELNEIGH: u16 = 29;

/// Poll event: there is data to read.
pub const POLLIN: i16 = 1;

/// Poll event: an error, such as an overflow of the socket.
pub const POLLERR: i16 = 8;

/// Poll event: the socket hung up.
pub const POLLHUP: i16 = 16;

/// How often an interrupted dump is tried.
pub const MAX_REBUILD_ATTEMPTS: u8 = 10;

/// How long to wait for events, in milliseconds.
pub const POLL_TIMEOUT_MS: u64 = 10;

/// What the monitor reads of a netlink message.
#[derive(Debug, Clone, Copy, PartialEq, Eq, Structural)]
pub struct NetlinkMessage {
    pub nlmsg_type: u16,
    /// A route message's contents, where they could be parsed: its table, where it names one.
    pub route: Option<Option<u32>>,
    /// A neighbour message's contents, where they could be parsed: its address, where it names
    /// one.
    pub neighbor: Option<Option<IpAddr>>,
}

/// Events since the last rebuild.
#[derive(Debug, Clone, Copy, PartialEq, Eq, Structural)]
pub struct PendingEvents {
    pub routes: usize,
    pub neighbors: usize,
    pub links: usize,
    pub errors: usize,
}

/// No events.
pub open spec fn no_events() -> PendingEvents {
    PendingEvents { routes: 0, neighbors: 0, links: 0, errors: 0 }
}

impl Default for PendingEvents {
    fn default() -> (events: PendingEvents)
        ensures
            events == no_events(),
    {
        PendingEvents { routes: 0, neighbors: 0, links: 0, errors: 0 }
    }
}

impl PendingEvents {
    pub fn is_empty(&self) -> (empty: bool)
        ensures
            empty == (*self == no_events()),
    {
        self.routes == 0 && self.neighbors == 0 && self.links == 0 && self.errors == 0
    }
}

/// The sum, or the largest count where that is exceeded.
pub open spec fn saturated(n: int) -> usize {
    if n <= usize::MAX {
        n as usize
    } else {
        usize::MAX
    }
}

/// Whether a message is about a route in the monitored table.
pub open spec fn is_route_event(table: u32, message: NetlinkMessage) -> bool {
    &&& message.nlmsg_type == RTM_NEWROUTE || message.nlmsg_type == RTM_DELROUTE
    &&& message.route == Some(Some(table))
}

/// Whether a message is about an IPv4 neighbour.
pub open spec fn is_neighbor_event(message: NetlinkMessage) -> bool {
    &&& message.nlmsg_type == RTM_NEWNEIGH || message.nlmsg_type == RTM_DELNEIGH
    &&& message.neighbor matches Some(Some(IpAddr::V4(v4)))
}

/// Whether a message is about a link.
pub open spec fn is_link_event(message: NetlinkMessage) -> bool {
    message.nlmsg_type == RTM_NEWLINK || message.nlmsg_type == RTM_DELLINK
}

/// The number of messages about a route in the monitored table.
pub open spec fn route_events(table: u32, messages: Seq<NetlinkMessage>) -> int
    decreases messages.len(),
{
    if messages.len() == 0 {
        0
    } else {
        route_events(table, messages.drop_last()) + if is_route_event(table, messages.last()) {
            1int
        } else {
            0
        }
    }
}

/// The number of messages about an IPv4 neighbour.
pub open spec fn neighbor_events(messages: Seq<NetlinkMessage>) -> int
    decreases messages.len(),
{
    if messages.len() == 0 {
        0
    } else {
        neighbor_events(messages.drop_last()) + if is_neighbor_event(messages.last()) {
            1int
        } else {
            0
        }
    }
}

/// The number of messages about a link.
pub open spec fn link_events(messages: Seq<NetlinkMessage>) -> int
    decreases messages.len(),
{
    if messages.len() == 0 {
        0
    } else {
        link_events(messages.drop_last()) + if is_link_event(messages.last()) {
            1int
        } else {
            0
        }
    }
}

/// State of the watch loop. Times are in milliseconds of a clock that does not go back.
#[derive(Debug, Clone, Copy, PartialEq, Eq, Structural)]
pub struct RouteMonitorState {
    pub route_table: u32,
    pub pending_events: PendingEvents,
    pub last_publish: u64,
}

/// The state with the events among messages counted.
pub open spec fn updated(
    before: RouteMonitorState,
    messages: Seq<NetlinkMessage>,
) -> RouteMonitorState {
    let pending = before.pending_events;
    RouteMonitorState {
        pending_events: PendingEvents {
            routes: saturated(pending.routes + route_events(before.route_table, messages)),
            neighbors: saturated(pending.neighbors + neighbor_events(messages)),
            links: saturated(pending.links + link_events(messages)),
            errors: pending.errors,
        },
        ..before
    }
}

/// The state at the end of a reset.
pub open spec fn reset_done(before: RouteMonitorState, rebuilt: bool, now: u64) -> RouteMonitorState {
    if rebuilt {
        RouteMonitorState { pending_events: no_events(), last_publish: now, ..before }
    } else {
        before
    }
}

/// The state at the end of a publish.
pub open spec fn published(before: RouteMonitorState, rebuilt: bool, now: u64) -> RouteMonitorState {
    RouteMonitorState {
        pending_events: if rebuilt {
            no_events()
        } else {
            before.pending_events
        },
        last_publish: now,
        ..before
    }
}

/// Whether events are pending and the update interval has elapsed.
pub open spec fn publish_due(state: RouteMonitorState, now: u64, update_interval: u64) -> bool {
    state.pending_events != no_events() && vstd::math::max(now - state.last_publish, 0)
        >= update_interval
}

impl RouteMonitorState {
    /// The state for a socket bound at time `now`.
    pub fn new_with_socket(route_table: u32, now: u64) -> (state: RouteMonitorState)
        ensures
            state == (RouteMonitorState {
                route_table,
                pending_events: no_events(),
                last_publish: now,
            }),
    {
        RouteMonitorState {
            route_table,
            pending_events: PendingEvents::default(),
            last_publish: now,
        }
    }

    /// Counts the events among messages.
    pub fn update(&mut self, messages: &[NetlinkMessage])
        ensures
            *final(self) == updated(*old(self), messages@),
    {
        let ghost before = *self;
        let mut i: usize = 0;
        while i < messages.len()
            invariant
                i <= messages@.len(),
                *self == updated(before, messages@.take(i as int)),
            decreases messages@.len() - i,
        {
            let ghost more = messages@.take(i + 1);
            assert(more.drop_last() =~= messages@.take(i as int));
            assert(more.last() == messages@[i as int]);
            proof {
                lemma_events_nonnegative(before.route_table, more.drop_last());
            }
            let message: NetlinkMessage = messages[i];
            match message.nlmsg_type {
                RTM_NEWROUTE | RTM_DELROUTE => {
                    let wanted: bool = match message.route {
                        Some(Some(route_table)) => route_table == self.route_table,
                        _ => false,
                    };
                    if wanted {
                        self.pending_events.routes = self.pending_events.routes.saturating_add(1);
                    }
                },
                RTM_NEWNEIGH | RTM_DELNEIGH => {
                    let wanted: bool = match message.neighbor {
                        Some(Some(IpAddr::V4(_))) => true,
                        _ => false,
                    };
                    if wanted {
                        self.pending_events.neighbors = self.pending_events.neighbors.saturating_add(1);
                    }
                },
                RTM_NEWLINK | RTM_DELLINK => {
                    self.pending_events.links = self.pending_events.links.saturating_add(1);
                },
                _ => {},
            }
            i += 1;
        }
        assert(messages@.take(i as int) =~= messages@);
    }

    /// Recover from netlink overflow, after the socket was bound anew: counts the error. The
    /// routing state is then to be rebuilt from a fresh dump.
    pub fn begin_reset(&mut self)
        ensures
            *final(self) == (RouteMonitorState {
                pending_events: PendingEvents {
                    errors: saturated(old(self).pending_events.errors + 1),
                    ..old(self).pending_events
                },
                ..*old(self)
            }),
    {
        self.pending_events.errors = self.pending_events.errors.saturating_add(1);
    }

    /// The end of a reset. Where the rebuild failed, the events are kept so that it is tried
    /// again on the next publish interval.
    pub fn finish_reset(&mut self, rebuilt: bool, now: u64)
        ensures
            *final(self) == reset_done(*old(self), rebuilt, now),
    {
        if rebuilt {
            self.pending_events = PendingEvents::default();
            self.last_publish = now;
        }
    }

    /// Whether a refreshed router is to be published: events are pending and the update
    /// interval has elapsed.
    pub fn publish_if_needed(&self, now: u64, update_interval: u64) -> (needed: bool)
        ensures
            needed == publish_due(*self, now, update_interval),
    {
        !self.pending_events.is_empty() && now.saturating_sub(self.last_publish) >= update_interval
    }

    /// The end of a publish. Where the rebuild failed, the events are kept.
    pub fn finish_publish(&mut self, rebuilt: bool, now: u64)
        ensures
            *final(self) == published(*old(self), rebuilt, now),
    {
        if rebuilt {
            self.pending_events = PendingEvents::default();
        }
        self.last_publish = now;
    }
}

/// Name of a netlink message type.
pub fn nlmsg_type_name(nlmsg_type: u16) -> (name: &'static str)
    ensures
        name@ == if nlmsg_type == RTM_NEWROUTE {
            "RTM_NEWROUTE"@
        } else if nlmsg_type == RTM_DELROUTE {
            "RTM_DELROUTE"@
        } else if nlmsg_type == RTM_NEWNEIGH {
            "RTM_NEWNEIGH"@
        } else if nlmsg_type == RTM_DELNEIGH {
            "RTM_DELNEIGH"@
        } else if nlmsg_type == RTM_NEWLINK {
            "RTM_NEWLINK"@
        } else if nlmsg_type == RTM_DELLINK {
            "RTM_DELLINK"@
        } else {
            "RTM_UNKNOWN"@
        },
{
    match nlmsg_type {
        RTM_NEWROUTE => "RTM_NEWROUTE",
        RTM_DELROUTE => "RTM_DELROUTE",
        RTM_NEWNEIGH => "RTM_NEWNEIGH",
        RTM_DELNEIGH => "RTM_DELNEIGH",
        RTM_NEWLINK => "RTM_NEWLINK",
        RTM_DELLINK => "RTM_DELLINK",
        _ => "RTM_UNKNOWN",
    }
}

/// What waiting for events gave.
#[derive(Debug, Clone, Copy, PartialEq, Eq, Structural)]
pub enum PollOutcome {
    TimedOut,
    Failed,
    Ready { revents: i16 },
}

/// What to do after waiting.
#[derive(Debug, Clone, Copy, PartialEq, Eq, Structural)]
pub enum PollAction {
    /// Wait again.
    Wait,
    /// Bind and dump anew.
    Reset,
    /// Read the socket until it is empty.
    Drain,
}

/// What reading the socket gave.
#[derive(Debug, Clone, Copy, PartialEq, Eq, Structural)]
pub enum ReadOutcome {
    Messages { count: usize },
    Empty,
    Failed,
}

/// What to do after reading.
#[derive(Debug, Clone, Copy, PartialEq, Eq, Structural)]
pub enum ReadAction {
    /// Count the events and read again.
    Update,
    /// Read again.
    Again,
    /// The socket is empty.
    Stop,
    /// Bind and dump anew.
    Reset,
}

/// What an attempt to dump the tables gave.
#[derive(Debug, Clone, Copy, PartialEq, Eq, Structural)]
pub enum DumpOutcome {
    Dumped,
    Interrupted,
    Failed,
}

/// What to do after an attempt.
#[derive(Debug, Clone, Copy, PartialEq, Eq, Structural)]
pub enum DumpAction {
    /// Build the router from the dump.
    Build,
    /// Sleep, then try again.
    Retry,
    /// Too many attempts were interrupted.
    GiveUp,
    /// Pass the error on.
    Fail,
}

/// The watch loop's decisions.
pub struct RouteMonitor;

impl RouteMonitor {
    /// What follows from waiting for events. A hang-up or an error (the socket overflowed) calls
    /// for a reset even if there is data.
    pub fn after_poll(outcome: PollOutcome) -> (action: PollAction)
        ensures
            action == match outcome {
                PollOutcome::TimedOut => PollAction::Wait,
                PollOutcome::Failed => PollAction::Reset,
                PollOutcome::Ready { revents } => if revents & (POLLHUP | POLLERR) != 0 {
                    PollAction::Reset
                } else if revents & POLLIN == 0 {
                    PollAction::Wait
                } else {
                    PollAction::Drain
                },
            },
    {
        match outcome {
            PollOutcome::TimedOut => PollAction::Wait,
            PollOutcome::Failed => PollAction::Reset,
            PollOutcome::Ready { revents } => if revents & (POLLHUP | POLLERR) != 0 {
                PollAction::Reset
            } else if revents & POLLIN == 0 {
                PollAction::Wait
            } else {
                PollAction::Drain
            },
        }
    }

    /// What follows from reading the socket.
    pub fn after_read(outcome: ReadOutcome) -> (action: ReadAction)
        ensures
            action == match outcome {
                ReadOutcome::Messages { count } => if count == 0 {
                    ReadAction::Again
                } else {
                    ReadAction::Update
                },
                ReadOutcome::Empty => ReadAction::Stop,
                ReadOutcome::Failed => ReadAction::Reset,
            },
    {
        match outcome {
            ReadOutcome::Messages { count } => if count == 0 {
                ReadAction::Again
            } else {
                ReadAction::Update
            },
            ReadOutcome::Empty => ReadAction::Stop,
            ReadOutcome::Failed => ReadAction::Reset,
        }
    }

    /// What follows from an attempt to dump the tables, after `retries` interrupted ones: the
    /// action, and the number of interrupted attempts now.
    pub fn rebuild_router(retries: u8, outcome: DumpOutcome) -> (result: (DumpAction, u8))
        requires
            retries < MAX_REBUILD_ATTEMPTS,
        ensures
            result == after_dump(retries, outcome),
    {
        match outcome {
            DumpOutcome::Dumped => (DumpAction::Build, retries),
            DumpOutcome::Failed => (DumpAction::Fail, retries),
            DumpOutcome::Interrupted => {
                let tried: u8 = retries.saturating_add(1);
                if tried == MAX_REBUILD_ATTEMPTS {
                    (DumpAction::GiveUp, tried)
                } else {
                    (DumpAction::Retry, tried)
                }
            },
        }
    }
}

/// What follows from an attempt to dump the tables.
pub open spec fn after_dump(retries: u8, outcome: DumpOutcome) -> (DumpAction, u8) {
    match outcome {
        DumpOutcome::Dumped => (DumpAction::Build, retries),
        DumpOutcome::Failed => (DumpAction::Fail, retries),
        DumpOutcome::Interrupted => (
            if retries + 1 == MAX_REBUILD_ATTEMPTS {
                DumpAction::GiveUp
            } else {
                DumpAction::Retry
            },
            (retries + 1) as u8,
        ),
    }
}

/// The state of a rebuild after a sequence of outcomes: `None` once it is over.
pub open spec fn rebuild_after(outcomes: Seq<DumpOutcome>) -> Option<u8>
    decreases outcomes.len(),
{
    if outcomes.len() == 0 {
        Some(0)
    } else {
        match rebuild_after(outcomes.drop_last()) {
            Some(retries) => match after_dump(retries, outcomes.last()) {
                (DumpAction::Retry, tried) => Some(tried),
                _ => None,
            },
            None => None,
        }
    }
}

/// A rebuild tries at most ten times: after ten outcomes it is over, whatever they were.
pub proof fn law_rebuild_is_bounded(outcomes: Seq<DumpOutcome>)
    ensures
        rebuild_after(outcomes) matches Some(retries) ==> retries == outcomes.len() && outcomes.len()
            < MAX_REBUILD_ATTEMPTS,
        outcomes.len() >= MAX_REBUILD_ATTEMPTS ==> rebuild_after(outcomes) is None,
    decreases outcomes.len(),
{
    if outcomes.len() > 0 {
        law_rebuild_is_bounded(outcomes.drop_last());
    }
}

/// Whether messages hold an event that calls for a rebuild.
pub open spec fn has_event(table: u32, messages: Seq<NetlinkMessage>) -> bool {
    exists|i: int|
        0 <= i < messages.len() && (is_route_event(table, #[trigger] messages[i])
            || is_neighbor_event(messages[i]) || is_link_event(messages[i]))
}

/// An event is not lost when a rebuild fails: neither a failed reset nor a failed publish clears
/// what is pending, and once the interval has elapsed a rebuild is due again.
pub proof fn law_failed_rebuild_keeps_events(
    before: RouteMonitorState,
    messages: Seq<NetlinkMessage>,
    now: u64,
    later: u64,
    interval: u64,
)
    requires
        has_event(before.route_table, messages),
        before.last_publish <= now,
        now + interval <= later,
    ensures
        publish_due(published(updated(before, messages), false, now), later, interval),
        publish_due(reset_done(updated(before, messages), false, now), later, interval),
{
    let i = choose|i: int|
        0 <= i < messages.len() && (is_route_event(before.route_table, #[trigger] messages[i])
            || is_neighbor_event(messages[i]) || is_link_event(messages[i]));
    lemma_event_counted(before.route_table, messages, i);
    lemma_events_nonnegative(before.route_table, messages);
}

proof fn lemma_events_nonnegative(table: u32, messages: Seq<NetlinkMessage>)
    ensures
        route_events(table, messages) >= 0,
        neighbor_events(messages) >= 0,
        link_events(messages) >= 0,
    decreases messages.len(),
{
    if messages.len() > 0 {
        lemma_events_nonnegative(table, messages.drop_last());
    }
}

proof fn lemma_event_counted(table: u32, messages: Seq<NetlinkMessage>, i: int)
    requires
        0 <= i < messages.len(),
    ensures
        is_route_event(table, messages[i]) ==> route_events(table, messages) > 0,
        is_neighbor_event(messages[i]) ==> neighbor_events(messages) > 0,
        is_link_event(messages[i]) ==> link_events(messages) > 0,
    decreases messages.len(),
{
    let rest = messages.drop_last();
    lemma_events_nonnegative(table, rest);
    if i < rest.len() {
        lemma_event_counted(table, rest, i);
    }
}

/// Which messages count: 24 and 25 (routes) of the monitored table, 28 and 29 (neighbours) with an
/// IPv4 address, and 16 and 17 (links), each as one event of its kind as long as there is a number
/// for it. Nothing else counts.
pub proof fn law_messages_are_counted(
    before: RouteMonitorState,
    messages: Seq<NetlinkMessage>,
    message: NetlinkMessage,
)
    ensures
        updated(before, Seq::<NetlinkMessage>::empty()) == before,
        ({
            let some = updated(before, messages).pending_events;
            let more = updated(before, messages.push(message)).pending_events;
            let kind = message.nlmsg_type;
            let route = (kind == 24 || kind == 25) && message.route == Some(
                Some(before.route_table),
            );
            let neighbor = (kind == 28 || kind == 29) && (message.neighbor matches Some(Some(ip))
                && ip is V4);
            let link = kind == 16 || kind == 17;
            &&& more.routes == (if route && some.routes < usize::MAX {
                some.routes + 1
            } else {
                some.routes as int
            })
            &&& more.neighbors == (if neighbor && some.neighbors < usize::MAX {
                some.neighbors + 1
            } else {
                some.neighbors as int
            })
            &&& more.links == (if link && some.links < usize::MAX {
                some.links + 1
            } else {
                some.links as int
            })
            &&& more.errors == before.pending_events.errors
            &&& updated(before, messages).last_publish == before.last_publish
            &&& updated(before, messages).route_table == before.route_table
        }),
{
    let all = messages.push(message);
    assert(all.drop_last() =~= messages);
    assert(all.last() == message);
    lemma_events_not_negative(before.route_table, messages);
    assert(updated(before, Seq::<NetlinkMessage>::empty()).pending_events == before.pending_events);
}

proof fn lemma_events_not_negative(table: u32, messages: Seq<NetlinkMessage>)
    ensures
        route_events(table, messages) >= 0,
        neighbor_events(messages) >= 0,
        link_events(messages) >= 0,
    decreases messages.len(),
{
    if messages.len() > 0 {
        lemma_events_not_negative(table, messages.drop_last());
    }
}

/// A rebuild is due exactly where something is pending and the interval is over.
pub proof fn law_rebuild_is_due(state: RouteMonitorState, now: u64, interval: u64)
    requires
        state.last_publish <= now,
    ensures
        ({
            let pending = state.pending_events;
            publish_due(state, now, interval) <==> (pending.routes > 0 || pending.neighbors > 0
                || pending.links > 0 || pending.errors > 0) && state.last_publish + interval <= now
        }),
{
}

/// A rebuild that succeeds clears what was pending, and one that fails keeps it. The next one waits
/// for an interval from now, but behind a reset only where that succeeded.
pub proof fn law_rebuild_clears_events(before: RouteMonitorState, now: u64, later: u64, interval: u64)
    ensures
        !publish_due(published(before, true, now), later, interval),
        !publish_due(reset_done(before, true, now), later, interval),
        published(before, false, now).pending_events == before.pending_events,
        reset_done(before, false, now) == before,
        published(before, true, now).last_publish == now,
        published(before, false, now).last_publish == now,
        reset_done(before, true, now).last_publish == now,
        published(before, true, now).route_table == before.route_table,
{
}

/// A dump that is interrupted is tried again nine times, and the tenth interruption ends it. One
/// that fails is not tried again.
pub proof fn law_interrupted_dumps_are_retried(retries: u8)
    requires
        retries < 10,
    ensures
        after_dump(retries, DumpOutcome::Interrupted) == (if retries < 9 {
            (DumpAction::Retry, (retries + 1) as u8)
        } else {
            (DumpAction::GiveUp, 10u8)
        }),
        after_dump(retries, DumpOutcome::Dumped).0 is Build,
        after_dump(retries, DumpOutcome::Failed).0 is Fail,
{
}

/// The kernel's numbers for netlink and poll.
pub proof fn law_numbers_of_the_kernel()
    ensures
        RTM_NEWLINK == 16 && RTM_DELLINK == 17,
        RTM_NEWROUTE == 24 && RTM_DELROUTE == 25,
        RTM_NEWNEIGH == 28 && RTM_DELNEIGH == 29,
        POLLIN == 1 && POLLERR == 8 && POLLHUP == 16,
        MAX_REBUILD_ATTEMPTS == 10,
        POLL_TIMEOUT_MS == 10,
{
}

} // verus!
