//! The phases of the kernel network stack that time is accounted to.

use vstd::prelude::*;

verus! {

/// Number of accounted events.
pub const EVENT_MAX: usize = 5;

/// An accounted phase. The order is fixed: the place of an event in it is
/// its index wherever events are numbered.
#[derive(Clone, Copy, Debug, PartialEq, Eq, Structural)]
pub enum Event {
    SockSendmsg,
    SockRecvmsg,
    NetTxSoftirq,
    NetRxSoftirq,
    IoWorker,
}

/// The name under which the time of an event is published.
pub open spec fn event_name(e: Event) -> Seq<char> {
    match e {
        Event::SockSendmsg => "TX syscalls"@,
        Event::SockRecvmsg => "RX syscalls"@,
        Event::NetTxSoftirq => "TX softirq"@,
        Event::NetRxSoftirq => "RX softirq"@,
        Event::IoWorker => "IO workers"@,
    }
}

impl Event {
    /// The index of the event.
    pub open spec fn spec_index(self) -> int {
        match self {
            Event::SockSendmsg => 0,
            Event::SockRecvmsg => 1,
            Event::NetTxSoftirq => 2,
            Event::NetRxSoftirq => 3,
            Event::IoWorker => 4,
        }
    }

    /// The event with index `i`.
    pub open spec fn at(i: int) -> Event {
        if i == 0 {
            Event::SockSendmsg
        } else if i == 1 {
            Event::SockRecvmsg
        } else if i == 2 {
            Event::NetTxSoftirq
        } else if i == 3 {
            Event::NetRxSoftirq
        } else {
            Event::IoWorker
        }
    }

    /// The index of the event.
    pub fn index(&self) -> (i: usize)
        ensures
            i == self.spec_index(),
            i < EVENT_MAX,
            Event::at(i as int) == *self,
    {
        match self {
            Event::SockSendmsg => 0,
            Event::SockRecvmsg => 1,
            Event::NetTxSoftirq => 2,
            Event::NetRxSoftirq => 3,
            Event::IoWorker => 4,
        }
    }

    /// The event with index `i`, if there is one.
    pub fn from_index(i: usize) -> (e: Option<Event>)
        ensures
            e is Some <==> i < EVENT_MAX,
            i < EVENT_MAX ==> e == Some(Event::at(i as int)) && Event::at(i as int).spec_index()
                == i,
    {
        if i == 0 {
            Some(Event::SockSendmsg)
        } else if i == 1 {
            Some(Event::SockRecvmsg)
        } else if i == 2 {
            Some(Event::NetTxSoftirq)
        } else if i == 3 {
            Some(Event::NetRxSoftirq)
        } else if i == 4 {
            Some(Event::IoWorker)
        } else {
            None
        }
    }

    /// The name under which the time of the event is published.
    pub fn name(&self) -> (name: &'static str)
        ensures
            name@ == event_name(*self),
    {
        match self {
            Event::SockSendmsg => "TX syscalls",
            Event::SockRecvmsg => "RX syscalls",
            Event::NetTxSoftirq => "TX softirq",
            Event::NetRxSoftirq => "RX softirq",
            Event::IoWorker => "IO workers",
        }
    }
}

/// Cumulative nanoseconds that one CPU has spent in each event.
#[derive(Clone, Copy, Debug, PartialEq, Eq, Structural)]
pub struct EventTimes {
    pub sock_sendmsg: u64,
    pub sock_recvmsg: u64,
    pub net_tx_softirq: u64,
    pub net_rx_softirq: u64,
    pub io_worker: u64,
}

/// How far a counter has moved from `prev` to `now`; zero for a counter that
/// went backwards.
pub open spec fn delta(now: u64, prev: u64) -> u64 {
    if now >= prev {
        (now - prev) as u64
    } else {
        0
    }
}

impl EventTimes {
    /// All times zero.
    pub open spec fn zero() -> EventTimes {
        EventTimes {
            sock_sendmsg: 0,
            sock_recvmsg: 0,
            net_tx_softirq: 0,
            net_rx_softirq: 0,
            io_worker: 0,
        }
    }

    /// The time of event `e`.
    pub open spec fn of(self, e: Event) -> u64 {
        match e {
            Event::SockSendmsg => self.sock_sendmsg,
            Event::SockRecvmsg => self.sock_recvmsg,
            Event::NetTxSoftirq => self.net_tx_softirq,
            Event::NetRxSoftirq => self.net_rx_softirq,
            Event::IoWorker => self.io_worker,
        }
    }

    /// These times with that of event `e` replaced by `ns`.
    pub open spec fn with(self, e: Event, ns: u64) -> EventTimes {
        match e {
            Event::SockSendmsg => EventTimes { sock_sendmsg: ns, ..self },
            Event::SockRecvmsg => EventTimes { sock_recvmsg: ns, ..self },
            Event::NetTxSoftirq => EventTimes { net_tx_softirq: ns, ..self },
            Event::NetRxSoftirq => EventTimes { net_rx_softirq: ns, ..self },
            Event::IoWorker => EventTimes { io_worker: ns, ..self },
        }
    }

    /// The time that each event gained from `prev` to `self`.
    pub open spec fn since(self, prev: EventTimes) -> EventTimes {
        EventTimes {
            sock_sendmsg: delta(self.sock_sendmsg, prev.sock_sendmsg),
            sock_recvmsg: delta(self.sock_recvmsg, prev.sock_recvmsg),
            net_tx_softirq: delta(self.net_tx_softirq, prev.net_tx_softirq),
            net_rx_softirq: delta(self.net_rx_softirq, prev.net_rx_softirq),
            io_worker: delta(self.io_worker, prev.io_worker),
        }
    }

    /// The times of all events added up.
    pub open spec fn total(self) -> int {
        self.sock_sendmsg + self.sock_recvmsg + self.net_tx_softirq + self.net_rx_softirq
            + self.io_worker
    }

    /// All times zero.
    pub fn new() -> (t: EventTimes)
        ensures
            t == EventTimes::zero(),
    {
        EventTimes {
            sock_sendmsg: 0,
            sock_recvmsg: 0,
            net_tx_softirq: 0,
            net_rx_softirq: 0,
            io_worker: 0,
        }
    }

    /// The time of event `e`.
    pub fn get(&self, e: Event) -> (ns: u64)
        ensures
            ns == self.of(e),
    {
        match e {
            Event::SockSendmsg => self.sock_sendmsg,
            Event::SockRecvmsg => self.sock_recvmsg,
            Event::NetTxSoftirq => self.net_tx_softirq,
            Event::NetRxSoftirq => self.net_rx_softirq,
            Event::IoWorker => self.io_worker,
        }
    }

    /// Replaces the time of event `e` by `ns`.
    pub fn set(&mut self, e: Event, ns: u64)
        ensures
            *final(self) == old(self).with(e, ns),
    {
        match e {
            Event::SockSendmsg => self.sock_sendmsg = ns,
            Event::SockRecvmsg => self.sock_recvmsg = ns,
            Event::NetTxSoftirq => self.net_tx_softirq = ns,
            Event::NetRxSoftirq => self.net_rx_softirq = ns,
            Event::IoWorker => self.io_worker = ns,
        }
    }

    /// The time that each event gained since `prev`; zero for an event whose
    /// time went backwards.
    pub fn elapsed_since(&self, prev: &EventTimes) -> (gained: EventTimes)
        ensures
            gained == self.since(*prev),
    {
        EventTimes {
            sock_sendmsg: self.sock_sendmsg.saturating_sub(prev.sock_sendmsg),
            sock_recvmsg: self.sock_recvmsg.saturating_sub(prev.sock_recvmsg),
            net_tx_softirq: self.net_tx_softirq.saturating_sub(prev.net_tx_softirq),
            net_rx_softirq: self.net_rx_softirq.saturating_sub(prev.net_rx_softirq),
            io_worker: self.io_worker.saturating_sub(prev.io_worker),
        }
    }
}

} // verus!
