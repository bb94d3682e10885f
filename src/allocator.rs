use std::collections::HashSet;
use vstd::prelude::*;

verus! {

broadcast use vstd::std_specs::hash::group_hash_axioms;

/// Lowest port of the window that `TestSocketManager::new` uses.
pub const DEFAULT_LOW: u16 = 8000;

/// First port past the window that `TestSocketManager::new` uses.
pub const DEFAULT_HIGH: u16 = 9000;

/// The abstract state of an allocator.
pub ghost struct AllocatorState {
    /// Lowest port of the window.
    pub low: u16,
    /// First port past the window.
    pub high: u16,
    /// The next candidate.
    pub cursor: u16,
    /// Ports reserved within this process.
    pub reserved: Set<u16>,
}

/// The port after `c` in the window `[low, high)`: one up, back to `low` at `high`.
pub open spec fn step(low: u16, high: u16, c: u16) -> u16 {
    if c + 1 >= high {
        low
    } else {
        (c + 1) as u16
    }
}

/// Where a cursor that starts at `c` stands after `k` advances.
pub open spec fn cursor_after(low: u16, high: u16, c: u16, k: nat) -> u16
    decreases k,
{
    if k == 0 {
        c
    } else {
        step(low, high, cursor_after(low, high, c, (k - 1) as nat))
    }
}

impl AllocatorState {
    /// The window is not empty, the cursor lies in it, and so does every
    /// reserved port.
    pub open spec fn wf(self) -> bool {
        &&& self.low < self.high
        &&& self.low <= self.cursor < self.high
        &&& forall|p: u16| #[trigger] self.reserved.contains(p) ==> self.low <= p < self.high
    }

    /// Number of ports in the window.
    pub open spec fn size(self) -> nat {
        (self.high - self.low) as nat
    }

    /// The `k`-th candidate from the cursor on.
    pub open spec fn candidate(self, k: nat) -> u16 {
        cursor_after(self.low, self.high, self.cursor, k)
    }

    /// The state after `port` is taken out of the reservations.
    pub open spec fn release(self, port: u16) -> AllocatorState {
        AllocatorState { reserved: self.reserved.remove(port), ..self }
    }

    /// The sweep from `self`, with `left` candidates to go, stops at the
    /// `j`-th candidate, which is free, reserves it as `p`, and leaves `new`
    /// with `new_left` candidates to go.
    pub open spec fn picks_at(
        self,
        left: nat,
        new: AllocatorState,
        new_left: nat,
        j: nat,
        p: u16,
    ) -> bool {
        &&& j < left
        &&& p == self.candidate(j)
        &&& forall|k: nat| k < j ==> self.reserved.contains(#[trigger] self.candidate(k))
        &&& !self.reserved.contains(p)
        &&& new.cursor == self.candidate(j + 1)
        &&& new.reserved == self.reserved.insert(p)
        &&& new_left == left - j - 1
    }

    /// One call of `next_probe` leads from `self`, with `left` candidates to
    /// go, to `new` with `new_left` to go, and returns `r`: the first
    /// candidate that is not reserved, or `None` when all `left` are.
    pub open spec fn probe_pick(
        self,
        left: nat,
        new: AllocatorState,
        new_left: nat,
        r: Option<u16>,
    ) -> bool {
        &&& new.low == self.low
        &&& new.high == self.high
        &&& match r {
            None => {
                &&& forall|k: nat| k < left ==> self.reserved.contains(#[trigger] self.candidate(k))
                &&& new.cursor == self.candidate(left)
                &&& new.reserved == self.reserved
                &&& new_left == 0
            },
            Some(p) => {
                &&& new_left < left
                &&& self.picks_at(left, new, new_left, (left - new_left - 1) as nat, p)
            },
        }
    }
}

/// A claim on one port, handed out by the allocator once a probe of the
/// port succeeded.
#[derive(Debug, PartialEq, Eq)]
pub struct PortLease {
    pub port: u16,
}

impl PortLease {
    /// The leased port.
    pub fn port(&self) -> (r: u16)
        ensures
            r == self.port,
    {
        self.port
    }
}

/// One call's sweep over the window: how many candidates it may still try.
pub struct LeaseSearch {
    remaining: u16,
}

impl View for LeaseSearch {
    type V = nat;

    closed spec fn view(&self) -> nat {
        self.remaining as nat
    }
}

/// The allocator: a cursor over a window of ports and the set of ports
/// reserved within this process.
pub struct TestSocketManager {
    low: u16,
    high: u16,
    next_port: u16,
    ports: HashSet<u16>,
}

impl View for TestSocketManager {
    type V = AllocatorState;

    closed spec fn view(&self) -> AllocatorState {
        AllocatorState {
            low: self.low,
            high: self.high,
            cursor: self.next_port,
            reserved: self.ports@,
        }
    }
}

impl TestSocketManager {
    /// An allocator over the window `[8000, 9000)`, with nothing reserved.
    pub fn new() -> (r: Self)
        ensures
            r@ == (AllocatorState {
                low: DEFAULT_LOW,
                high: DEFAULT_HIGH,
                cursor: DEFAULT_LOW,
                reserved: Set::empty(),
            }),
            r@.wf(),
    {
        Self::with_window(DEFAULT_LOW, DEFAULT_HIGH)
    }

    /// An allocator over the window `[low, high)`, with the cursor at `low`
    /// and nothing reserved.
    pub fn with_window(low: u16, high: u16) -> (r: Self)
        requires
            low < high,
        ensures
            r@ == (AllocatorState { low, high, cursor: low, reserved: Set::empty() }),
            r@.wf(),
    {
        TestSocketManager { low, high, next_port: low, ports: HashSet::new() }
    }

    /// Starts one lease: a sweep that may try each port of the window once.
    pub fn begin_lease(&self) -> (s: LeaseSearch)
        requires
            self@.wf(),
        ensures
            s@ == self@.size(),
    {
        LeaseSearch { remaining: self.high - self.low }
    }

    /// Whether `port` is reserved.
    pub fn is_reserved(&self, port: u16) -> (r: bool)
        ensures
            r == self@.reserved.contains(port),
    {
        self.ports.contains(&port)
    }

    /// One step of a lease: advances the cursor over the candidates that
    /// `search` has left until one is found that is not reserved, reserves
    /// it and returns it. Returns `None` once the sweep is used up, every
    /// candidate it tried being reserved. The cursor advances past every
    /// candidate tried.
    pub fn next_probe(&mut self, search: &mut LeaseSearch) -> (r: Option<u16>)
        requires
            old(self)@.wf(),
        ensures
            final(self)@.wf(),
            old(self)@.probe_pick(old(search)@, final(self)@, final(search)@, r),
    {
        let ghost start = self@;
        let ghost left0 = search@;
        let mut left: u16 = search.remaining;
        while left > 0
            invariant
                start == old(self)@,
                left0 == old(search)@,
                self@.wf(),
                self@.low == start.low,
                self@.high == start.high,
                self@.reserved == start.reserved,
                left <= left0,
                self@.cursor == start.candidate((left0 - left) as nat),
                forall|k: nat|
                    k < left0 - left ==> start.reserved.contains(#[trigger] start.candidate(k)),
            decreases left,
        {
            let candidate = self.next_port;
            let ghost done: nat = (left0 - left) as nat;
            self.next_port = if self.next_port + 1 >= self.high {
                self.low
            } else {
                self.next_port + 1
            };
            left = left - 1;
            assert(self@.cursor == start.candidate(done + 1));
            if !self.ports.contains(&candidate) {
                self.ports.insert(candidate);
                search.remaining = left;
                assert(start.picks_at(left0, self@, search@, done, candidate));
                return Some(candidate);
            }
        }
        search.remaining = 0;
        None
    }

    /// Ends the probe of `port`. Where the probe bound the port, the port
    /// stays reserved and is handed out as a lease; where it did not, its
    /// reservation is taken back.
    pub fn finish_probe(&mut self, port: u16, bound: bool) -> (r: Option<PortLease>)
        requires
            old(self)@.wf(),
        ensures
            final(self)@.wf(),
            bound ==> r == Some(PortLease { port }) && final(self)@ == old(self)@,
            !bound ==> r is None && final(self)@ == old(self)@.release(port),
    {
        if bound {
            Some(PortLease { port })
        } else {
            self.ports.remove(&port);
            assert(forall|p: u16| #[trigger]
                self@.reserved.contains(p) ==> old(self)@.reserved.contains(p));
            None
        }
    }

    /// Takes `port` out of the reservations. Releasing a port that is not
    /// reserved changes nothing.
    pub fn drop_port(&mut self, port: u16)
        requires
            old(self)@.wf(),
        ensures
            final(self)@.wf(),
            final(self)@ == old(self)@.release(port),
    {
        self.ports.remove(&port);
    }

    /// Gives a lease back: its port is no longer reserved.
    pub fn release(&mut self, lease: PortLease)
        requires
            old(self)@.wf(),
        ensures
            final(self)@.wf(),
            final(self)@ == old(self)@.release(lease.port),
    {
        self.drop_port(lease.port);
    }
}

} // verus!
