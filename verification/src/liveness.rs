//! The liveness sweep's decision logic: which sessions to evict at once
//! and which to probe with a Ping.
//!
//! The sweep itself runs outside the crate on a timer; it takes a registry
//! snapshot, asks [`sweep_plan`] what to do, and then performs the
//! evictions and sends the pings with the registry released.  The sweep
//! never advances a session's clock — only a received Pong does, through
//! the dispatcher.

use vstd::prelude::*;
use crate::packet::Player;
use crate::packet::PlayerModel;
use crate::registry::reg_unique;

verus! {

/// The session has been silent for longer than `timeout`.
pub open spec fn times_out(p: PlayerModel, now: u64, timeout: u64) -> bool {
    now - p.last_ping_time > timeout
}

/// The addresses of the entries satisfying `pred`, in snapshot order.
pub open spec fn keys_where(
    s: Seq<(u64, PlayerModel)>,
    pred: spec_fn(PlayerModel) -> bool,
) -> Seq<u64>
    decreases s.len(),
{
    if s.len() == 0 {
        Seq::empty()
    } else if pred(s[0].1) {
        seq![s[0].0] + keys_where(s.drop_first(), pred)
    } else {
        keys_where(s.drop_first(), pred)
    }
}

/// The addresses a sweep at `now` evicts immediately, without a probe.
pub open spec fn evict_list(s: Seq<(u64, PlayerModel)>, now: u64, timeout: u64) -> Seq<u64> {
    keys_where(s, |p: PlayerModel| times_out(p, now, timeout))
}

/// The addresses a sweep at `now` probes with a Ping.
pub open spec fn ping_list(s: Seq<(u64, PlayerModel)>, now: u64, timeout: u64) -> Seq<u64> {
    keys_where(s, |p: PlayerModel| !times_out(p, now, timeout))
}

/// What one sweep decides: evict these, ping those.
pub struct SweepPlan {
    pub evict: Vec<u64>,
    pub ping: Vec<u64>,
}

/// The model of a registry snapshot.
pub open spec fn snapshot_model(s: Seq<(u64, Player)>) -> Seq<(u64, PlayerModel)> {
    s.map_values(|e: (u64, Player)| (e.0, e.1@))
}

/// An address is listed exactly when some entry with that address
/// satisfies the predicate.
pub proof fn lemma_keys_where_membership(
    s: Seq<(u64, PlayerModel)>,
    pred: spec_fn(PlayerModel) -> bool,
    a: u64,
)
    ensures
        keys_where(s, pred).contains(a) <==> exists|i: int|
            0 <= i < s.len() && s[i].0 == a && pred(#[trigger] s[i].1),
    decreases s.len(),
{
    if s.len() > 0 {
        let rest = s.drop_first();
        lemma_keys_where_membership(rest, pred, a);
        assert(forall|k: int| 0 <= k < rest.len() ==> #[trigger] rest[k] == s[k + 1]);
        if pred(s[0].1) {
            let whole = seq![s[0].0] + keys_where(rest, pred);
            if whole.contains(a) {
                let w = choose|w: int| 0 <= w < whole.len() && whole[w] == a;
                if w == 0 {
                    assert(s[0].0 == a && pred(s[0].1));
                } else {
                    assert(keys_where(rest, pred)[w - 1] == a);
                    assert(keys_where(rest, pred).contains(a));
                    let i = choose|i: int|
                        0 <= i < rest.len() && rest[i].0 == a && pred(#[trigger] rest[i].1);
                    assert(s[i + 1].0 == a && pred(s[i + 1].1));
                }
            }
            if exists|i: int| 0 <= i < s.len() && s[i].0 == a && pred(#[trigger] s[i].1) {
                let i = choose|i: int|
                    0 <= i < s.len() && s[i].0 == a && pred(#[trigger] s[i].1);
                if i == 0 {
                    assert(whole[0] == a);
                } else {
                    assert(rest[i - 1].0 == a && pred(rest[i - 1].1));
                    assert(keys_where(rest, pred).contains(a));
                    let w = choose|w: int|
                        0 <= w < keys_where(rest, pred).len() && keys_where(rest, pred)[w] == a;
                    assert(whole[w + 1] == a);
                }
            }
        } else {
            if keys_where(rest, pred).contains(a) {
                let i = choose|i: int|
                    0 <= i < rest.len() && rest[i].0 == a && pred(#[trigger] rest[i].1);
                assert(s[i + 1].0 == a && pred(s[i + 1].1));
            }
            if exists|i: int| 0 <= i < s.len() && s[i].0 == a && pred(#[trigger] s[i].1) {
                let i = choose|i: int|
                    0 <= i < s.len() && s[i].0 == a && pred(#[trigger] s[i].1);
                assert(i != 0);
                assert(rest[i - 1].0 == a && pred(rest[i - 1].1));
            }
        }
    }
}

/// Law: a sweep decides each session exactly one way.  With unique
/// addresses, an entry silent for longer than the timeout is evicted and
/// receives no ping, and any other entry is pinged and stays off the
/// eviction list.
pub proof fn lemma_sweep_partition(s: Seq<(u64, PlayerModel)>, now: u64, timeout: u64, i: int)
    requires
        reg_unique(s),
        0 <= i < s.len(),
    ensures
        times_out(s[i].1, now, timeout) ==> evict_list(s, now, timeout).contains(s[i].0)
            && !ping_list(s, now, timeout).contains(s[i].0),
        !times_out(s[i].1, now, timeout) ==> ping_list(s, now, timeout).contains(s[i].0)
            && !evict_list(s, now, timeout).contains(s[i].0),
{
    let tp = |p: PlayerModel| times_out(p, now, timeout);
    let np = |p: PlayerModel| !times_out(p, now, timeout);
    lemma_keys_where_membership(s, tp, s[i].0);
    lemma_keys_where_membership(s, np, s[i].0);
    if times_out(s[i].1, now, timeout) {
        assert(s[i].0 == s[i].0 && tp(s[i].1));
        if ping_list(s, now, timeout).contains(s[i].0) {
            let j = choose|j: int| 0 <= j < s.len() && s[j].0 == s[i].0 && np(#[trigger] s[j].1);
            assert(j == i);
        }
    } else {
        assert(s[i].0 == s[i].0 && np(s[i].1));
        if evict_list(s, now, timeout).contains(s[i].0) {
            let j = choose|j: int| 0 <= j < s.len() && s[j].0 == s[i].0 && tp(#[trigger] s[j].1);
            assert(j == i);
        }
    }
}

/// Computes what one sweep over `snapshot` at `current_time` does.
pub fn sweep_plan(snapshot: &Vec<(u64, Player)>, current_time: u64, timeout: u64) -> (r: SweepPlan)
    ensures
        r.evict@ == evict_list(snapshot_model(snapshot@), current_time, timeout),
        r.ping@ == ping_list(snapshot_model(snapshot@), current_time, timeout),
{
    let ghost m = snapshot_model(snapshot@);
    let ghost tp = |p: PlayerModel| times_out(p, current_time, timeout);
    let ghost np = |p: PlayerModel| !times_out(p, current_time, timeout);
    let mut evict: Vec<u64> = Vec::new();
    let mut ping: Vec<u64> = Vec::new();
    let mut i: usize = 0;
    let n = snapshot.len();
    proof {
        assert(m.skip(0) =~= m);
    }
    while i < n
        invariant
            i <= n,
            n == snapshot@.len(),
            m == snapshot_model(snapshot@),
            m.len() == n,
            tp == (|p: PlayerModel| times_out(p, current_time, timeout)),
            np == (|p: PlayerModel| !times_out(p, current_time, timeout)),
            keys_where(m, tp) == evict@ + keys_where(m.skip(i as int), tp),
            keys_where(m, np) == ping@ + keys_where(m.skip(i as int), np),
        decreases n - i,
    {
        proof {
            assert(m.skip(i as int)[0] == m[i as int]);
            assert(m.skip(i as int).drop_first() =~= m.skip(i + 1));
            assert(m[i as int].0 == snapshot@[i as int].0);
            assert(m[i as int].1 == snapshot@[i as int].1@);
        }
        let lpt = snapshot[i].1.last_ping_time;
        let timed_out = current_time >= lpt && current_time - lpt > timeout;
        if timed_out {
            evict.push(snapshot[i].0);
            proof {
                assert(tp(m[i as int].1));
                assert(keys_where(m.skip(i as int), tp) =~= seq![m[i as int].0] + keys_where(
                    m.skip(i + 1),
                    tp,
                ));
                assert(keys_where(m, tp) =~= evict@ + keys_where(m.skip(i + 1), tp));
                assert(keys_where(m.skip(i as int), np) =~= keys_where(m.skip(i + 1), np));
            }
        } else {
            ping.push(snapshot[i].0);
            proof {
                assert(np(m[i as int].1));
                assert(keys_where(m.skip(i as int), np) =~= seq![m[i as int].0] + keys_where(
                    m.skip(i + 1),
                    np,
                ));
                assert(keys_where(m, np) =~= ping@ + keys_where(m.skip(i + 1), np));
                assert(keys_where(m.skip(i as int), tp) =~= keys_where(m.skip(i + 1), tp));
            }
        }
        i += 1;
    }
    proof {
        assert(m.skip(n as int) =~= Seq::<(u64, PlayerModel)>::empty());
        assert(keys_where(m, tp) =~= evict@);
        assert(keys_where(m, np) =~= ping@);
    }
    SweepPlan { evict, ping }
}

} // verus!
