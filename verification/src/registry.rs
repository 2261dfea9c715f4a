//! The session registry: the single owner of the address-to-session map.
//!
//! Addresses are opaque `u64` peer identifiers supplied by the transport
//! layer.  The registry keeps at most one [`Player`] per address and keeps
//! insertion order, so a snapshot is stable.

use vstd::prelude::*;
use vstd::pervasive::VecAdditionalExecFns;
use crate::packet::Outbound;
use crate::packet::Packet;
use crate::packet::Player;
use crate::packet::PlayerModel;

verus! {

/// An address occurs in the registry model.
pub open spec fn reg_contains(s: Seq<(u64, PlayerModel)>, addr: u64) -> bool {
    exists|i: int| 0 <= i < s.len() && s[i].0 == addr
}

/// The record stored under `addr`: the first pair with that key.
pub open spec fn reg_get(s: Seq<(u64, PlayerModel)>, addr: u64) -> Option<PlayerModel>
    decreases s.len(),
{
    if s.len() == 0 {
        None
    } else if s[0].0 == addr {
        Some(s[0].1)
    } else {
        reg_get(s.drop_first(), addr)
    }
}

/// No two entries share an address.
pub open spec fn reg_unique(s: Seq<(u64, PlayerModel)>) -> bool {
    forall|i: int, j: int| 0 <= i < j < s.len() ==> s[i].0 != s[j].0
}

/// `reg_get` returns the entry at the first index holding the key.
pub proof fn lemma_reg_get_first(s: Seq<(u64, PlayerModel)>, addr: u64, i: int)
    requires
        0 <= i < s.len(),
        s[i].0 == addr,
        forall|k: int| 0 <= k < i ==> s[k].0 != addr,
    ensures
        reg_get(s, addr) == Some(s[i].1),
    decreases s.len(),
{
    if i > 0 {
        assert(s.drop_first()[i - 1] == s[i]);
        assert forall|k: int| 0 <= k < i - 1 implies s.drop_first()[k].0 != addr by {
            assert(s.drop_first()[k] == s[k + 1]);
        }
        lemma_reg_get_first(s.drop_first(), addr, i - 1);
    }
}

/// A key that occurs nowhere has no entry.
pub proof fn lemma_reg_get_none(s: Seq<(u64, PlayerModel)>, addr: u64)
    requires
        forall|k: int| 0 <= k < s.len() ==> s[k].0 != addr,
    ensures
        reg_get(s, addr) is None,
    decreases s.len(),
{
    if s.len() > 0 {
        assert forall|k: int| 0 <= k < s.drop_first().len() implies s.drop_first()[k].0 != addr by {
            assert(s.drop_first()[k] == s[k + 1]);
        }
        lemma_reg_get_none(s.drop_first(), addr);
    }
}

/// An entry exists exactly for the keys that occur.
pub proof fn lemma_reg_get_contains(s: Seq<(u64, PlayerModel)>, addr: u64)
    ensures
        (reg_get(s, addr) is Some) == reg_contains(s, addr),
    decreases s.len(),
{
    if s.len() > 0 {
        lemma_reg_get_contains(s.drop_first(), addr);
        if s[0].0 != addr {
            if reg_contains(s, addr) {
                let w = choose|i: int| 0 <= i < s.len() && s[i].0 == addr;
                assert(s.drop_first()[w - 1] == s[w]);
            }
            if reg_contains(s.drop_first(), addr) {
                let w = choose|i: int|
                    0 <= i < s.drop_first().len() && s.drop_first()[i].0 == addr;
                assert(s.drop_first()[w] == s[w + 1]);
            }
        }
    }
}

/// The registry: a vector of address/record pairs with unique addresses.
pub struct PlayerList {
    entries: Vec<(u64, Player)>,
}

impl View for PlayerList {
    type V = Seq<(u64, PlayerModel)>;

    closed spec fn view(&self) -> Seq<(u64, PlayerModel)> {
        self.entries@.map_values(|e: (u64, Player)| (e.0, e.1@))
    }
}

impl PlayerList {
    /// Well-formedness: at most one entry per address.
    pub open spec fn wf(&self) -> bool {
        reg_unique(self@)
    }

    pub fn new() -> (r: Self)
        ensures
            r@ == Seq::<(u64, PlayerModel)>::empty(),
            r.wf(),
    {
        let r = PlayerList { entries: Vec::new() };
        proof {
            assert(r@ =~= Seq::<(u64, PlayerModel)>::empty());
        }
        r
    }

    fn find_index(&self, addr: u64) -> (r: Option<usize>)
        ensures
            match r {
                Some(i) => i < self@.len() && self@[i as int].0 == addr,
                None => !reg_contains(self@, addr),
            },
    {
        let mut i: usize = 0;
        let n = self.entries.len();
        while i < n
            invariant
                i <= n,
                n == self@.len(),
                forall|k: int| 0 <= k < i ==> self@[k].0 != addr,
            decreases n - i,
        {
            if self.entries[i].0 == addr {
                return Some(i);
            }
            i += 1;
        }
        None
    }

    /// Whether `addr` currently has a session.
    pub fn contains_player(&self, addr: u64) -> (r: bool)
        ensures
            r == reg_contains(self@, addr),
    {
        match self.find_index(addr) {
            Some(_) => true,
            None => false,
        }
    }

    /// A copy of the session stored under `addr`, if any.
    pub fn get_player(&self, addr: u64) -> (r: Option<Player>)
        requires
            self.wf(),
        ensures
            match r {
                Some(p) => reg_get(self@, addr) == Some(p@),
                None => reg_get(self@, addr) is None,
            },
    {
        match self.find_index(addr) {
            Some(i) => {
                let p = self.entries[i].1.clone();
                proof {
                    assert forall|k: int| 0 <= k < i implies self@[k].0 != addr by {
                        if self@[k].0 == addr {
                            assert(self@[k].0 == self@[i as int].0);
                        }
                    }
                    lemma_reg_get_first(self@, addr, i as int);
                }
                Some(p)
            },
            None => {
                proof {
                    lemma_reg_get_contains(self@, addr);
                }
                None
            },
        }
    }

    /// Inserts or replaces the session for `addr`.
    pub fn add_player(&mut self, addr: u64, player: Player)
        requires
            old(self).wf(),
        ensures
            final(self).wf(),
            reg_get(final(self)@, addr) == Some(player@),
            forall|b: u64| b != addr ==> reg_get(final(self)@, b) == reg_get(old(self)@, b),
            forall|b: u64|
                reg_contains(final(self)@, b) <==> (b == addr || reg_contains(old(self)@, b)),
            reg_contains(old(self)@, addr) ==> final(self)@ == Seq::new(
                old(self)@.len(),
                |i: int|
                    if old(self)@[i].0 == addr {
                        (addr, player@)
                    } else {
                        old(self)@[i]
                    },
            ),
            !reg_contains(old(self)@, addr) ==> final(self)@ == old(self)@.push((addr, player@)),
    {
        let ghost pre = self@;
        match self.find_index(addr) {
            Some(i) => {
                self.entries.set(i, (addr, player));
                proof {
                    let post = self@;
                    assert(post =~= pre.update(i as int, (addr, player@)));
                    assert forall|k: int| 0 <= k < i implies post[k].0 != addr by {
                        if pre[k].0 == addr {
                            assert(pre[k].0 == pre[i as int].0);
                        }
                    }
                    lemma_reg_get_first(post, addr, i as int);
                    assert forall|b: u64| b != addr implies reg_get(post, b) == reg_get(
                        pre,
                        b,
                    ) by {
                        Self::lemma_get_after_pointwise(pre, post, b);
                    }
                    assert forall|b: u64| reg_contains(post, b) implies reg_contains(pre, b) by {
                        let w = choose|k: int| 0 <= k < post.len() && post[k].0 == b;
                        assert(pre[w].0 == b);
                    }
                    assert forall|b: u64| reg_contains(pre, b) implies reg_contains(post, b) by {
                        let w = choose|k: int| 0 <= k < pre.len() && pre[k].0 == b;
                        assert(post[w].0 == b);
                    }
                    assert(pre[i as int].0 == addr);
                    assert forall|k: int| 0 <= k < pre.len() && k != i implies pre[k].0
                        != addr by {
                        if pre[k].0 == addr {
                            assert(pre[k].0 == pre[i as int].0);
                        }
                    }
                    assert(post =~= Seq::new(
                        pre.len(),
                        |k: int|
                            if pre[k].0 == addr {
                                (addr, player@)
                            } else {
                                pre[k]
                            },
                    ));
                }
            },
            None => {
                self.entries.push((addr, player));
                proof {
                    let post = self@;
                    assert(post =~= pre.push((addr, player@)));
                    assert forall|k: int| 0 <= k < pre.len() implies post[k].0 != addr by {
                        assert(post[k] == pre[k]);
                    }
                    lemma_reg_get_first(post, addr, pre.len() as int);
                    assert forall|b: u64| b != addr implies reg_get(post, b) == reg_get(
                        pre,
                        b,
                    ) by {
                        Self::lemma_get_after_push(pre, (addr, player@), b);
                    }
                    assert forall|b: u64| reg_contains(post, b) implies (b == addr
                        || reg_contains(pre, b)) by {
                        let w = choose|k: int| 0 <= k < post.len() && post[k].0 == b;
                        if w < pre.len() {
                            assert(pre[w].0 == b);
                        }
                    }
                    assert forall|b: u64| reg_contains(pre, b) implies reg_contains(post, b) by {
                        let w = choose|k: int| 0 <= k < pre.len() && pre[k].0 == b;
                        assert(post[w].0 == b);
                    }
                    assert(post[pre.len() as int].0 == addr);
                }
            },
        }
    }

    /// If two registries list the same keys at the same positions, and every
    /// entry with key `b` is identical between them, `b`'s record agrees.
    proof fn lemma_get_after_pointwise(
        pre: Seq<(u64, PlayerModel)>,
        post: Seq<(u64, PlayerModel)>,
        b: u64,
    )
        requires
            pre.len() == post.len(),
            forall|k: int| 0 <= k < pre.len() ==> pre[k].0 == post[k].0,
            forall|k: int| 0 <= k < pre.len() && pre[k].0 == b ==> pre[k] == post[k],
        ensures
            reg_get(pre, b) == reg_get(post, b),
        decreases pre.len(),
    {
        if pre.len() > 0 {
            assert forall|k: int|
                0 <= k < pre.drop_first().len() implies pre.drop_first()[k].0
                == post.drop_first()[k].0 && (pre.drop_first()[k].0 == b ==> pre.drop_first()[k]
                == post.drop_first()[k]) by {
                assert(pre.drop_first()[k] == pre[k + 1]);
                assert(post.drop_first()[k] == post[k + 1]);
            }
            Self::lemma_get_after_pointwise(pre.drop_first(), post.drop_first(), b);
        }
    }

    /// Appending an entry of a different key leaves a key's record
    /// unchanged.
    proof fn lemma_get_after_push(pre: Seq<(u64, PlayerModel)>, e: (u64, PlayerModel), b: u64)
        requires
            e.0 != b,
        ensures
            reg_get(pre.push(e), b) == reg_get(pre, b),
        decreases pre.len(),
    {
        if pre.len() == 0 {
            assert(pre.push(e)[0] == e);
            assert(pre.push(e).drop_first() =~= Seq::<(u64, PlayerModel)>::empty());
            assert(reg_get(Seq::<(u64, PlayerModel)>::empty(), b) is None);
            assert(reg_get(pre, b) is None);
        } else {
            assert(pre.push(e)[0] == pre[0]);
            if pre[0].0 != b {
                assert(pre.push(e).drop_first() =~= pre.drop_first().push(e));
                Self::lemma_get_after_push(pre.drop_first(), e, b);
            }
        }
    }

    /// Removes the session for `addr`, if any; all other sessions keep
    /// their records and their relative order.
    pub fn remove_player(&mut self, addr: u64)
        requires
            old(self).wf(),
        ensures
            final(self).wf(),
            !reg_contains(final(self)@, addr),
            forall|b: u64| b != addr ==> reg_get(final(self)@, b) == reg_get(old(self)@, b),
            forall|b: u64|
                b != addr ==> (reg_contains(final(self)@, b) <==> reg_contains(old(self)@, b)),
            reg_contains(old(self)@, addr) ==> final(self)@.len() + 1 == old(self)@.len(),
            reg_contains(old(self)@, addr) ==> exists|k: int|
                0 <= k < old(self)@.len() && old(self)@[k].0 == addr && final(self)@ == old(
                    self,
                )@.remove(k),
            !reg_contains(old(self)@, addr) ==> final(self)@ == old(self)@,
    {
        let ghost pre = self@;
        match self.find_index(addr) {
            Some(i) => {
                self.entries.remove(i);
                proof {
                    let post = self@;
                    assert(post =~= pre.remove(i as int));
                    assert forall|k: int| 0 <= k < post.len() implies post[k].0 != addr by {
                        if k < i {
                            assert(post[k] == pre[k]);
                            if pre[k].0 == addr {
                                assert(pre[k].0 == pre[i as int].0);
                            }
                        } else {
                            assert(post[k] == pre[k + 1]);
                            if pre[k + 1].0 == addr {
                                assert(pre[i as int].0 == pre[k + 1].0);
                            }
                        }
                    }
                    lemma_reg_get_none(post, addr);
                    assert forall|b: u64| b != addr implies reg_get(post, b) == reg_get(
                        pre,
                        b,
                    ) by {
                        Self::lemma_get_after_remove(pre, i as int, b);
                    }
                    assert forall|b: u64| b != addr implies (reg_contains(post, b)
                        <==> reg_contains(pre, b)) by {
                        lemma_reg_get_contains(post, b);
                        lemma_reg_get_contains(pre, b);
                    }
                }
            },
            None => {
                proof {
                    lemma_reg_get_contains(self@, addr);
                }
            },
        }
    }

    /// Removing the unique entry of one key leaves every other key's
    /// record unchanged.
    proof fn lemma_get_after_remove(pre: Seq<(u64, PlayerModel)>, i: int, b: u64)
        requires
            0 <= i < pre.len(),
            pre[i].0 != b,
        ensures
            reg_get(pre.remove(i), b) == reg_get(pre, b),
        decreases pre.len(),
    {
        let post = pre.remove(i);
        if i == 0 {
            assert(post =~= pre.drop_first());
        } else {
            assert(pre[0].0 == post[0].0 && pre[0] == post[0]);
            if pre[0].0 != b {
                assert(post.drop_first() =~= pre.drop_first().remove(i - 1));
                Self::lemma_get_after_remove(pre.drop_first(), i - 1, b);
            }
        }
    }

    /// Replaces the session stored under `addr` with `player`, only if one
    /// is present; an absent address is left untouched.
    pub fn update_player(&mut self, addr: u64, player: Player)
        requires
            old(self).wf(),
        ensures
            final(self).wf(),
            final(self)@ == Seq::new(
                old(self)@.len(),
                |i: int|
                    if old(self)@[i].0 == addr {
                        (addr, player@)
                    } else {
                        old(self)@[i]
                    },
            ),
            reg_contains(old(self)@, addr) ==> reg_get(final(self)@, addr) == Some(player@),
            !reg_contains(old(self)@, addr) ==> final(self)@ == old(self)@,
            forall|b: u64| b != addr ==> reg_get(final(self)@, b) == reg_get(old(self)@, b),
            forall|b: u64| reg_contains(final(self)@, b) <==> reg_contains(old(self)@, b),
    {
        let ghost pre = self@;
        match self.find_index(addr) {
            Some(i) => {
                self.entries.set(i, (addr, player));
                proof {
                    let post = self@;
                    assert forall|k: int| 0 <= k < pre.len() && k != i implies pre[k].0
                        != addr by {
                        if pre[k].0 == addr {
                            assert(pre[k].0 == pre[i as int].0);
                        }
                    }
                    assert(post =~= Seq::new(
                        pre.len(),
                        |k: int|
                            if pre[k].0 == addr {
                                (addr, player@)
                            } else {
                                pre[k]
                            },
                    ));
                    assert forall|k: int| 0 <= k < i implies post[k].0 != addr by {}
                    lemma_reg_get_first(post, addr, i as int);
                    assert forall|b: u64| b != addr implies reg_get(post, b) == reg_get(
                        pre,
                        b,
                    ) by {
                        Self::lemma_get_after_pointwise(pre, post, b);
                    }
                    assert forall|b: u64| reg_contains(post, b) implies reg_contains(pre, b) by {
                        let w = choose|k: int| 0 <= k < post.len() && post[k].0 == b;
                        assert(pre[w].0 == b);
                    }
                    assert forall|b: u64| reg_contains(pre, b) implies reg_contains(post, b) by {
                        let w = choose|k: int| 0 <= k < pre.len() && pre[k].0 == b;
                        assert(post[w].0 == b);
                    }
                }
            },
            None => {
                proof {
                    let post = self@;
                    assert forall|k: int| 0 <= k < pre.len() implies pre[k].0 != addr by {}
                    assert(post =~= Seq::new(
                        pre.len(),
                        |k: int|
                            if pre[k].0 == addr {
                                (addr, player@)
                            } else {
                                pre[k]
                            },
                    ));
                    lemma_reg_get_contains(pre, addr);
                }
            },
        }
    }

    /// A stable snapshot of all sessions, in insertion order.  Callers that
    /// perform I/O use the snapshot, never the registry itself.
    pub fn get_all_players(&self) -> (r: Vec<(u64, Player)>)
        ensures
            r@.len() == self@.len(),
            forall|i: int|
                0 <= i < r@.len() ==> r@[i].0 == self@[i].0 && r@[i].1@ == self@[i].1,
    {
        let mut out: Vec<(u64, Player)> = Vec::new();
        let mut i: usize = 0;
        let n = self.entries.len();
        while i < n
            invariant
                i <= n,
                n == self@.len(),
                out@.len() == i,
                forall|k: int| 0 <= k < i ==> out@[k].0 == self@[k].0 && out@[k].1@ == self@[k].1,
            decreases n - i,
        {
            let a = self.entries[i].0;
            let p = self.entries[i].1.clone();
            out.push((a, p));
            i += 1;
        }
        out
    }

    /// Addresses one copy of `packet` to every registered session, in
    /// snapshot order.  Handing the copies to the transport is the
    /// caller's business, done with the registry released.
    pub fn broadcast(&self, packet: &Packet) -> (r: Vec<Outbound>)
        ensures
            r@.len() == self@.len(),
            forall|i: int|
                0 <= i < r@.len() ==> (#[trigger] r@[i]).to == self@[i].0
                    && r@[i].packet@ == packet@,
    {
        let mut r: Vec<Outbound> = Vec::new();
        let mut i: usize = 0;
        let n = self.entries.len();
        while i < n
            invariant
                i <= n,
                n == self@.len(),
                r@.len() == i,
                forall|k: int|
                    0 <= k < i ==> (#[trigger] r@[k]).to == self@[k].0 && r@[k].packet@
                        == packet@,
            decreases n - i,
        {
            r.push(Outbound { to: self.entries[i].0, packet: packet.clone() });
            i += 1;
        }
        r
    }

    /// The number of registered sessions.
    pub fn len(&self) -> (r: usize)
        ensures
            r == self@.len(),
    {
        self.entries.len()
    }
}

} // verus!
