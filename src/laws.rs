//! Properties of the allocator that hold across calls.
use crate::allocator::{cursor_after, AllocatorState};
use vstd::prelude::*;

verus! {

/// The ports that a process holds at one moment, one entry per live lease or
/// probe in flight, are pairwise distinct and all reserved.
pub open spec fn ledger_ok(reserved: Set<u16>, holders: Seq<u16>) -> bool {
    &&& holders.no_duplicates()
    &&& forall|i: int| 0 <= i < holders.len() ==> reserved.contains(#[trigger] holders[i])
}

/// A port that `next_probe` picks is held by no one else: whatever ports
/// the live leases and the probes in flight hold, the picked one differs
/// from all of them, and once it is added the holders are still pairwise
/// distinct and reserved. So no two live leases carry the same port.
pub proof fn lemma_pick_is_fresh(
    v: AllocatorState,
    left: nat,
    new: AllocatorState,
    new_left: nat,
    p: u16,
    holders: Seq<u16>,
)
    requires
        v.probe_pick(left, new, new_left, Some(p)),
        ledger_ok(v.reserved, holders),
    ensures
        !holders.contains(p),
        ledger_ok(new.reserved, holders.push(p)),
{
    let h2 = holders.push(p);
    assert forall|i: int, j: int| 0 <= i < h2.len() && 0 <= j < h2.len() && i != j implies h2[i]
        != h2[j] by {
        if i < holders.len() as int {
            assert(v.reserved.contains(holders[i]));
        }
        if j < holders.len() as int {
            assert(v.reserved.contains(holders[j]));
        }
    }
    assert forall|i: int| 0 <= i < h2.len() implies new.reserved.contains(#[trigger] h2[i]) by {
        if i < holders.len() as int {
            assert(v.reserved.contains(holders[i]));
        }
    }
}

/// Releasing the port of one holder keeps the other holders reserved and
/// distinct.
pub proof fn lemma_release_keeps_others(v: AllocatorState, holders: Seq<u16>, i: int)
    requires
        ledger_ok(v.reserved, holders),
        0 <= i < holders.len(),
    ensures
        ledger_ok(v.release(holders[i]).reserved, holders.remove(i)),
{
    let port = holders[i];
    let h2 = holders.remove(i);
    assert forall|a: int| 0 <= a < h2.len() implies v.release(port).reserved.contains(
        #[trigger] h2[a],
    ) by {
        if a < i {
            assert(h2[a] == holders[a]);
            assert(v.reserved.contains(holders[a]));
        } else {
            assert(h2[a] == holders[a + 1]);
            assert(v.reserved.contains(holders[a + 1]));
        }
    }
    assert forall|a: int, b: int| 0 <= a < h2.len() && 0 <= b < h2.len() && a != b implies h2[a]
        != h2[b] by {
        let ia = if a < i { a } else { a + 1 };
        let ib = if b < i { b } else { b + 1 };
        assert(h2[a] == holders[ia]);
        assert(h2[b] == holders[ib]);
    }
}

/// Releasing a port twice is the same as releasing it once; releasing a port
/// that is not reserved changes nothing; and a release leaves every other
/// port's reservation as it was.
pub proof fn lemma_release_idempotent(v: AllocatorState, port: u16)
    ensures
        v.release(port).release(port) == v.release(port),
        !v.reserved.contains(port) ==> v.release(port) == v,
        forall|q: u16|
            q != port ==> (#[trigger] v.release(port).reserved.contains(q) == v.reserved.contains(
                q,
            )),
{
    assert(v.reserved.remove(port).remove(port) =~= v.reserved.remove(port));
    if !v.reserved.contains(port) {
        assert(v.reserved.remove(port) =~= v.reserved);
    }
}

/// Releasing a holder's port does not disturb holders of other ports, even
/// when the port released was held by no one.
pub proof fn lemma_stray_release_keeps_ledger(v: AllocatorState, holders: Seq<u16>, port: u16)
    requires
        ledger_ok(v.reserved, holders),
        !holders.contains(port),
    ensures
        ledger_ok(v.release(port).reserved, holders),
{
    assert forall|i: int| 0 <= i < holders.len() implies v.release(port).reserved.contains(
        #[trigger] holders[i],
    ) by {
        assert(v.reserved.contains(holders[i]));
    }
}

/// A released port can be leased again: once the cursor stands on it, the
/// next pick with any candidates left is that port.
pub proof fn lemma_released_port_is_picked(
    v: AllocatorState,
    port: u16,
    left: nat,
    new: AllocatorState,
    new_left: nat,
    r: Option<u16>,
)
    requires
        v.cursor == port,
        left > 0,
        v.release(port).probe_pick(left, new, new_left, r),
    ensures
        r == Some(port),
{
    let w = v.release(port);
    assert(w.candidate(0) == port);
    match r {
        None => {
            assert(w.reserved.contains(w.candidate(0)));
        },
        Some(p) => {
            let j = (left - new_left - 1) as nat;
            if j > 0 {
                assert(w.reserved.contains(w.candidate(0)));
            }
        },
    }
}

/// Each call of `next_probe` uses up at least one candidate of the sweep,
/// and once none is left it reports exhaustion: a lease, whose sweep starts
/// with as many candidates as the window has ports, makes at most that many
/// probes.
pub proof fn lemma_sweep_bounded(
    v: AllocatorState,
    left: nat,
    new: AllocatorState,
    new_left: nat,
    r: Option<u16>,
)
    requires
        v.probe_pick(left, new, new_left, r),
    ensures
        new_left <= left,
        r is Some ==> new_left < left,
        left == 0 ==> r is None,
{
}

/// Advancing the cursor `a` times and then `b` times is advancing it `a + b`
/// times.
proof fn lemma_cursor_after_add(low: u16, high: u16, c: u16, a: nat, b: nat)
    ensures
        cursor_after(low, high, cursor_after(low, high, c, a), b) == cursor_after(
            low,
            high,
            c,
            a + b,
        ),
    decreases b,
{
    if b > 0 {
        lemma_cursor_after_add(low, high, c, a, (b - 1) as nat);
        assert((a + b - 1) as nat == a + (b - 1) as nat);
    }
}

/// A probe that fails gives the pick back: the reservations are again those
/// from before the pick, the sweep has used up at least one candidate, and
/// the rest of the sweep ends where the whole sweep would have ended.
pub proof fn lemma_failed_probe_restores(
    v: AllocatorState,
    left: nat,
    mid: AllocatorState,
    mid_left: nat,
    p: u16,
)
    requires
        v.probe_pick(left, mid, mid_left, Some(p)),
    ensures
        mid.release(p).reserved == v.reserved,
        mid_left < left,
        mid.release(p).candidate(mid_left) == v.candidate(left),
{
    let j = (left - mid_left - 1) as nat;
    lemma_cursor_after_add(v.low, v.high, v.cursor, j + 1, mid_left);
    assert(j + 1 + mid_left == left);
    assert(v.reserved.insert(p).remove(p) =~= v.reserved);
}

/// `picks.len()` rounds of a lease in which every probe fails: in round `i`,
/// `next_probe` leads from `states[i]`, with `lefts[i]` candidates to go, to
/// `mids[i]` and picks `picks[i]`, whose probe fails, so that `finish_probe`
/// leads on to `states[i + 1]`.
pub open spec fn failing_rounds(
    states: Seq<AllocatorState>,
    lefts: Seq<nat>,
    mids: Seq<AllocatorState>,
    picks: Seq<u16>,
) -> bool {
    &&& states.len() == picks.len() + 1
    &&& lefts.len() == states.len()
    &&& mids.len() == picks.len()
    &&& forall|i: int|
        0 <= i < picks.len() ==> {
            &&& #[trigger] states[i].probe_pick(lefts[i], mids[i], lefts[i + 1], Some(picks[i]))
            &&& states[i + 1] == mids[i].release(picks[i])
        }
}

/// Rounds in which every probe fails use up a candidate each and leave the
/// reservations as they were, and the rest of the sweep ends where the whole
/// one would.
proof fn lemma_failing_rounds(
    states: Seq<AllocatorState>,
    lefts: Seq<nat>,
    mids: Seq<AllocatorState>,
    picks: Seq<u16>,
)
    requires
        failing_rounds(states, lefts, mids, picks),
    ensures
        picks.len() + lefts.last() <= lefts[0],
        states.last().reserved == states[0].reserved,
        states.last().low == states[0].low,
        states.last().high == states[0].high,
        states.last().candidate(lefts.last()) == states[0].candidate(lefts[0]),
    decreases picks.len(),
{
    let n = picks.len() as int;
    if n > 0 {
        let s2 = states.drop_last();
        let l2 = lefts.drop_last();
        let m2 = mids.drop_last();
        let p2 = picks.drop_last();
        assert forall|i: int| 0 <= i < p2.len() implies {
            &&& #[trigger] s2[i].probe_pick(l2[i], m2[i], l2[i + 1], Some(p2[i]))
            &&& s2[i + 1] == m2[i].release(p2[i])
        } by {
            assert(states[i].probe_pick(lefts[i], mids[i], lefts[i + 1], Some(picks[i])));
        }
        lemma_failing_rounds(s2, l2, m2, p2);
        assert(states[n - 1].probe_pick(
            lefts[n - 1],
            mids[n - 1],
            lefts[n],
            Some(picks[n - 1]),
        ));
        lemma_failed_probe_restores(states[n - 1], lefts[n - 1], mids[n - 1], lefts[n], picks[n - 1]);
    }
}

/// A lease in which every probe fails ends in exhaustion: after at most as
/// many rounds as the sweep had candidates, `next_probe` returns `None`, and
/// it leaves the reservations as they were before the lease and the cursor
/// one full sweep further on.
pub proof fn lemma_failing_lease_exhausts(
    states: Seq<AllocatorState>,
    lefts: Seq<nat>,
    mids: Seq<AllocatorState>,
    picks: Seq<u16>,
    end: AllocatorState,
    end_left: nat,
    r: Option<u16>,
)
    requires
        failing_rounds(states, lefts, mids, picks),
        states.last().probe_pick(lefts.last(), end, end_left, r),
    ensures
        picks.len() <= lefts[0],
        picks.len() == lefts[0] ==> r is None,
        r is None ==> end.reserved == states[0].reserved,
        r is None ==> end.cursor == states[0].candidate(lefts[0]),
{
    lemma_failing_rounds(states, lefts, mids, picks);
}

/// Where the cursor goes in fewer advances than the window has ports: on up
/// from `c`, past the top back to the bottom.
proof fn lemma_cursor_after(low: u16, high: u16, c: u16, k: nat)
    requires
        low <= c < high,
        k < high - low,
    ensures
        cursor_after(low, high, c, k) == if c + k < high {
            c + k
        } else {
            c + k - (high - low)
        },
    decreases k,
{
    if k > 0 {
        lemma_cursor_after(low, high, c, (k - 1) as nat);
    }
}

/// A full sweep that reports exhaustion tried every port of the window, and
/// found each one reserved.
pub proof fn lemma_exhaustion_covers_window(
    v: AllocatorState,
    new: AllocatorState,
    new_left: nat,
)
    requires
        v.wf(),
        v.probe_pick(v.size(), new, new_left, None),
    ensures
        forall|p: u16| v.low <= p < v.high ==> v.reserved.contains(p),
{
    assert forall|p: u16| v.low <= p < v.high implies v.reserved.contains(p) by {
        let k: nat = if p >= v.cursor {
            (p - v.cursor) as nat
        } else {
            (p - v.cursor + v.size()) as nat
        };
        lemma_cursor_after(v.low, v.high, v.cursor, k);
        assert(v.candidate(k) == p);
        assert(v.reserved.contains(v.candidate(k)));
    }
}

} // verus!
