//! Local-network discovery view: a lease table over announcements heard
//! from neighbouring peers.
//!
//! Every announcement arms a lease for the announcing peer and address;
//! a lease that is not re-armed before its expiry tick lapses, and the
//! peer drops out of the view. Expiry is judged against this table
//! alone, never inferred from mere network silence, so a lost packet
//! cannot evict a peer before its lease truly runs out.
use vstd::pervasive::VecAdditionalExecFns;
use vstd::prelude::*;

verus! {

broadcast use vstd::seq_lib::lemma_seq_contains_after_push;

/// One armed lease: a peer, one of its addresses, and the tick the
/// lease lapses at unless re-armed.
pub struct PeerLease {
    pub peer: u64,
    pub addr: String,
    pub expires_at: u64,
}

/// Some lease in the table is for this peer and address.
pub open spec fn lease_has(s: Seq<PeerLease>, p: u64, a: Seq<char>) -> bool {
    exists|i: int| 0 <= i < s.len() && s[i].peer == p && s[i].addr@ == a
}

/// Some lease in the table is for this peer.
pub open spec fn lease_sees(s: Seq<PeerLease>, p: u64) -> bool {
    exists|i: int| 0 <= i < s.len() && s[i].peer == p
}

/// The tick a lease armed at `now` lapses at, saturating at the top.
pub open spec fn lease_end(now: u64, ttl: u64) -> u64 {
    if now + ttl > u64::MAX {
        u64::MAX
    } else {
        (now + ttl) as u64
    }
}

/// The discovery service's view of the local segment.
pub struct DiscoveryView {
    /// How long a lease stays valid without renewal, in ticks.
    pub lease_ttl: u64,
    /// How often this node announces itself, in ticks.
    pub announce_interval: u64,
    /// The armed leases, one per announced peer and address.
    pub leases: Vec<PeerLease>,
}

impl DiscoveryView {
    /// Well-formedness: one lease per peer and address pair.
    pub open spec fn wf(self) -> bool {
        forall|i: int, j: int|
            #![trigger self.leases@[i], self.leases@[j]]
            0 <= i < j < self.leases@.len() ==> !(self.leases@[i].peer == self.leases@[j].peer
                && self.leases@[i].addr@ == self.leases@[j].addr@)
    }

    /// A fresh view: both intervals positive, no leases armed.
    pub fn new(lease_ttl: u64, announce_interval: u64) -> (r: DiscoveryView)
        requires
            lease_ttl >= 1,
            announce_interval >= 1,
        ensures
            r.wf(),
            r.lease_ttl == lease_ttl,
            r.announce_interval == announce_interval,
            r.leases@.len() == 0,
    {
        DiscoveryView { lease_ttl, announce_interval, leases: Vec::new() }
    }

    /// The peer is currently visible: some lease of its is armed.
    pub fn has_node(&self, p: u64) -> (r: bool)
        ensures
            r == lease_sees(self.leases@, p),
    {
        let mut i: usize = 0;
        while i < self.leases.len()
            invariant
                i <= self.leases@.len(),
                forall|k: int| 0 <= k < i ==> self.leases@[k].peer != p,
            decreases self.leases@.len() - i,
        {
            if self.leases[i].peer == p {
                return true;
            }
            i = i + 1;
        }
        proof {
            if lease_sees(self.leases@, p) {
                let k = choose|k: int| 0 <= k < self.leases@.len() && self.leases@[k].peer == p;
            }
        }
        false
    }

    /// Take in one announcement heard at tick `now`: the lease for this
    /// peer and address is armed (or re-armed) to lapse one TTL later.
    /// Returns whether the pair is newly discovered.
    pub fn observe(&mut self, peer: u64, addr: String, now: u64) -> (discovered: bool)
        requires
            old(self).wf(),
        ensures
            final(self).wf(),
            discovered == !lease_has(old(self).leases@, peer, addr@),
            forall|p2: u64, a2: Seq<char>|
                lease_has(final(self).leases@, p2, a2) <==> (lease_has(old(self).leases@, p2, a2)
                    || (p2 == peer && a2 == addr@)),
            exists|i: int|
                0 <= i < final(self).leases@.len() && final(self).leases@[i].peer == peer
                    && final(self).leases@[i].addr@ == addr@
                    && #[trigger] final(self).leases@[i].expires_at
                    == lease_end(now, old(self).lease_ttl),
            forall|e: PeerLease|
                !(e.peer == peer && e.addr@ == addr@) ==> (final(self).leases@.contains(e) <==> old(
                    self,
                ).leases@.contains(e)),
            *final(self) == (DiscoveryView { leases: final(self).leases, ..*old(self) }),
    {
        let ghost pre = *old(self);
        let expires_at = if now > u64::MAX - self.lease_ttl {
            u64::MAX
        } else {
            now + self.lease_ttl
        };
        let mut i: usize = 0;
        while i < self.leases.len()
            invariant
                *self == pre,
                pre == *old(self),
                pre.wf(),
                expires_at == lease_end(now, pre.lease_ttl),
                i <= self.leases@.len(),
                forall|k: int|
                    0 <= k < i ==> !(self.leases@[k].peer == peer && self.leases@[k].addr@
                        == addr@),
            decreases self.leases@.len() - i,
        {
            if self.leases[i].peer == peer && crate::engine::string_eq(&self.leases[i].addr, &addr)
             {
                proof {
                    assert(lease_has(pre.leases@, peer, addr@)) by {
                        assert(pre.leases@[i as int].peer == peer && pre.leases@[i as int].addr@
                            == addr@);
                    }
                }
                let mut renewed = PeerLease { peer, addr, expires_at };
                self.leases.set_and_swap(i, &mut renewed);
                proof {
                    assert(self.leases@ =~= pre.leases@.update(
                        i as int,
                        self.leases@[i as int],
                    ));
                    assert(self.leases@[i as int].peer == peer && self.leases@[i as int].addr@
                        == addr@ && self.leases@[i as int].expires_at == lease_end(
                        now,
                        pre.lease_ttl,
                    ));
                    assert forall|p2: u64, a2: Seq<char>| #[trigger]
                        lease_has(self.leases@, p2, a2) implies (lease_has(pre.leases@, p2, a2)
                        || (p2 == peer && a2 == addr@)) by {
                        let k = choose|k: int|
                            0 <= k < self.leases@.len() && self.leases@[k].peer == p2
                                && self.leases@[k].addr@ == a2;
                        if k != i {
                            assert(pre.leases@[k].peer == p2 && pre.leases@[k].addr@ == a2);
                        }
                    }
                    assert forall|p2: u64, a2: Seq<char>|
                        lease_has(pre.leases@, p2, a2) || (p2 == peer && a2
                            == addr@) implies #[trigger] lease_has(self.leases@, p2, a2) by {
                        if lease_has(pre.leases@, p2, a2) {
                            let k = choose|k: int|
                                0 <= k < pre.leases@.len() && pre.leases@[k].peer == p2
                                    && pre.leases@[k].addr@ == a2;
                            if k != i {
                                assert(self.leases@[k].peer == p2 && self.leases@[k].addr@ == a2);
                            } else {
                                assert(self.leases@[i as int].peer == p2
                                    && self.leases@[i as int].addr@ == a2);
                            }
                        } else {
                            assert(self.leases@[i as int].peer == p2 && self.leases@[i as int].addr@
                                == a2);
                        }
                    }
                    assert forall|e: PeerLease|
                        !(e.peer == peer && e.addr@ == addr@) implies (self.leases@.contains(e)
                            <==> pre.leases@.contains(e)) by {
                        if self.leases@.contains(e) {
                            let k = choose|k: int|
                                0 <= k < self.leases@.len() && self.leases@[k] == e;
                            assert(k != i);
                            assert(pre.leases@[k] == e);
                        }
                        if pre.leases@.contains(e) {
                            let k = choose|k: int|
                                0 <= k < pre.leases@.len() && pre.leases@[k] == e;
                            assert(k != i);
                            assert(self.leases@[k] == e);
                        }
                    }
                }
                return false;
            }
            i = i + 1;
        }
        let ghost n = self.leases@.len() as int;
        proof {
            assert(!lease_has(pre.leases@, peer, addr@)) by {
                if lease_has(pre.leases@, peer, addr@) {
                    let k = choose|k: int|
                        0 <= k < pre.leases@.len() && pre.leases@[k].peer == peer
                            && pre.leases@[k].addr@ == addr@;
                }
            }
        }
        self.leases.push(PeerLease { peer, addr, expires_at });
        proof {
            assert(self.leases@[n].peer == peer && self.leases@[n].addr@ == addr@
                && self.leases@[n].expires_at == lease_end(now, pre.lease_ttl));
            assert forall|p2: u64, a2: Seq<char>| #[trigger]
                lease_has(self.leases@, p2, a2) implies (lease_has(pre.leases@, p2, a2) || (p2
                == peer && a2 == addr@)) by {
                let k = choose|k: int|
                    0 <= k < self.leases@.len() && self.leases@[k].peer == p2
                        && self.leases@[k].addr@ == a2;
                if k < n {
                    assert(pre.leases@[k].peer == p2 && pre.leases@[k].addr@ == a2);
                }
            }
            assert forall|p2: u64, a2: Seq<char>|
                lease_has(pre.leases@, p2, a2) || (p2 == peer && a2 == addr@) implies #[trigger]
                lease_has(self.leases@, p2, a2) by {
                if lease_has(pre.leases@, p2, a2) {
                    let k = choose|k: int|
                        0 <= k < pre.leases@.len() && pre.leases@[k].peer == p2
                            && pre.leases@[k].addr@ == a2;
                    assert(self.leases@[k].peer == p2 && self.leases@[k].addr@ == a2);
                } else {
                    assert(self.leases@[n].peer == p2 && self.leases@[n].addr@ == a2);
                }
            }
            assert forall|e: PeerLease|
                !(e.peer == peer && e.addr@ == addr@) implies (self.leases@.contains(e)
                    <==> pre.leases@.contains(e)) by {
                if self.leases@.contains(e) {
                    let k = choose|k: int| 0 <= k < self.leases@.len() && self.leases@[k] == e;
                    assert(k != n);
                    assert(pre.leases@[k] == e);
                }
                if pre.leases@.contains(e) {
                    let k = choose|k: int| 0 <= k < pre.leases@.len() && pre.leases@[k] == e;
                    assert(self.leases@[k] == e);
                }
            }
        }
        true
    }

    /// Drop the lease for one peer and address, after the discovery
    /// service reported it lapsed. Other leases are untouched, so the
    /// peer stays visible while any other of its addresses is armed.
    pub fn remove_lease(&mut self, peer: u64, addr: &String)
        requires
            old(self).wf(),
        ensures
            final(self).wf(),
            forall|p2: u64, a2: Seq<char>|
                lease_has(final(self).leases@, p2, a2) <==> (lease_has(old(self).leases@, p2, a2)
                    && !(p2 == peer && a2 == addr@)),
            forall|p2: u64|
                #[trigger] lease_sees(final(self).leases@, p2) ==> lease_sees(
                    old(self).leases@,
                    p2,
                ),
            *final(self) == (DiscoveryView { leases: final(self).leases, ..*old(self) }),
    {
        let ghost pre = *old(self);
        let mut kept: Vec<PeerLease> = Vec::new();
        let mut i: usize = 0;
        while i < self.leases.len()
            invariant
                *self == pre,
                pre.wf(),
                i <= self.leases@.len(),
                forall|e: PeerLease|
                    kept@.contains(e) <==> (exists|k: int|
                        0 <= k < i && self.leases@[k] == e && !(e.peer == peer && e.addr@
                            == addr@)),
                forall|a: int, b: int|
                    #![trigger kept@[a], kept@[b]]
                    0 <= a < b < kept@.len() ==> !(kept@[a].peer == kept@[b].peer && kept@[a].addr@
                        == kept@[b].addr@),
            decreases self.leases@.len() - i,
        {
            let ghost kept0 = kept@;
            let e = PeerLease {
                peer: self.leases[i].peer,
                addr: self.leases[i].addr.clone(),
                expires_at: self.leases[i].expires_at,
            };
            proof {
                assert(e == self.leases@[i as int]);
            }
            let keep = !(e.peer == peer && crate::engine::string_eq(&e.addr, addr));
            if keep {
                kept.push(e);
            }
            proof {
                assert forall|x: PeerLease| kept@.contains(x) implies (exists|k: int|
                    0 <= k < i + 1 && self.leases@[k] == x && !(x.peer == peer && x.addr@
                        == addr@)) by {
                    if kept0.contains(x) {
                        let k = choose|k: int|
                            0 <= k < i && self.leases@[k] == x && !(x.peer == peer && x.addr@
                                == addr@);
                    } else {
                        assert(x == self.leases@[i as int]);
                    }
                }
                assert forall|x: PeerLease| (exists|k: int|
                    0 <= k < i + 1 && self.leases@[k] == x && !(x.peer == peer && x.addr@
                        == addr@)) implies kept@.contains(x) by {
                    let k = choose|k: int|
                        0 <= k < i + 1 && self.leases@[k] == x && !(x.peer == peer && x.addr@
                            == addr@);
                    if k == i {
                        assert(kept@.last() == x);
                    } else {
                        assert(kept0.contains(x));
                    }
                }
                assert forall|a: int, b: int|
                    0 <= a < b < kept@.len() implies !(kept@[a].peer == kept@[b].peer
                    && kept@[a].addr@ == kept@[b].addr@) by {
                    if keep && b == kept@.len() - 1 {
                        assert(kept@[a] == kept0[a]);
                        assert(kept0.contains(kept0[a]));
                        let k = choose|k: int|
                            0 <= k < i && self.leases@[k] == kept0[a] && !(kept0[a].peer == peer
                                && kept0[a].addr@ == addr@);
                        assert(!(self.leases@[k].peer == self.leases@[i as int].peer
                            && self.leases@[k].addr@ == self.leases@[i as int].addr@));
                    } else {
                        assert(kept@[a] == kept0[a] && kept@[b] == kept0[b]);
                    }
                }
            }
            i = i + 1;
        }
        self.leases = kept;
        proof {
            assert forall|p2: u64, a2: Seq<char>| #[trigger]
                lease_has(self.leases@, p2, a2) implies (lease_has(pre.leases@, p2, a2) && !(p2
                == peer && a2 == addr@)) by {
                let k = choose|k: int|
                    0 <= k < self.leases@.len() && self.leases@[k].peer == p2
                        && self.leases@[k].addr@ == a2;
                assert(self.leases@.contains(self.leases@[k]));
                let m = choose|m: int|
                    0 <= m < pre.leases@.len() && pre.leases@[m] == self.leases@[k] && !(
                    self.leases@[k].peer == peer && self.leases@[k].addr@ == addr@);
            }
            assert forall|p2: u64, a2: Seq<char>|
                lease_has(pre.leases@, p2, a2) && !(p2 == peer && a2 == addr@) implies #[trigger]
                lease_has(self.leases@, p2, a2) by {
                let k = choose|k: int|
                    0 <= k < pre.leases@.len() && pre.leases@[k].peer == p2
                        && pre.leases@[k].addr@ == a2;
                assert(self.leases@.contains(pre.leases@[k]));
                let m = choose|m: int|
                    0 <= m < self.leases@.len() && self.leases@[m] == pre.leases@[k];
            }
            assert forall|p2: u64| #[trigger]
                lease_sees(self.leases@, p2) implies lease_sees(pre.leases@, p2) by {
                let k = choose|k: int| 0 <= k < self.leases@.len() && self.leases@[k].peer == p2;
                assert(self.leases@.contains(self.leases@[k]));
                let m = choose|m: int|
                    0 <= m < pre.leases@.len() && pre.leases@[m] == self.leases@[k];
            }
        }
    }

    /// Lapse every lease whose expiry tick has been reached: exactly
    /// the still-armed leases survive, and the lapsed ones are handed
    /// back so their peers can be evicted downstream.
    pub fn expire(&mut self, now: u64) -> (gone: Vec<PeerLease>)
        requires
            old(self).wf(),
        ensures
            final(self).wf(),
            forall|e: PeerLease|
                final(self).leases@.contains(e) <==> (old(self).leases@.contains(e)
                    && e.expires_at > now),
            forall|e: PeerLease|
                gone@.contains(e) <==> (old(self).leases@.contains(e) && e.expires_at <= now),
            *final(self) == (DiscoveryView { leases: final(self).leases, ..*old(self) }),
    {
        let ghost pre = *old(self);
        let mut kept: Vec<PeerLease> = Vec::new();
        let mut gone: Vec<PeerLease> = Vec::new();
        let mut i: usize = 0;
        while i < self.leases.len()
            invariant
                *self == pre,
                pre.wf(),
                i <= self.leases@.len(),
                forall|e: PeerLease|
                    kept@.contains(e) <==> (exists|k: int|
                        0 <= k < i && self.leases@[k] == e && e.expires_at > now),
                forall|e: PeerLease|
                    gone@.contains(e) <==> (exists|k: int|
                        0 <= k < i && self.leases@[k] == e && e.expires_at <= now),
                forall|a: int, b: int|
                    #![trigger kept@[a], kept@[b]]
                    0 <= a < b < kept@.len() ==> !(kept@[a].peer == kept@[b].peer && kept@[a].addr@
                        == kept@[b].addr@),
            decreases self.leases@.len() - i,
        {
            let ghost kept0 = kept@;
            let ghost gone0 = gone@;
            let e = PeerLease {
                peer: self.leases[i].peer,
                addr: self.leases[i].addr.clone(),
                expires_at: self.leases[i].expires_at,
            };
            proof {
                assert(e == self.leases@[i as int]);
            }
            let stale = e.expires_at <= now;
            if stale {
                gone.push(e);
            } else {
                kept.push(e);
            }
            proof {
                assert forall|x: PeerLease| kept@.contains(x) implies (exists|k: int|
                    0 <= k < i + 1 && self.leases@[k] == x && x.expires_at > now) by {
                    if kept0.contains(x) {
                        let k = choose|k: int|
                            0 <= k < i && self.leases@[k] == x && x.expires_at > now;
                    } else {
                        assert(x == self.leases@[i as int]);
                    }
                }
                assert forall|x: PeerLease| (exists|k: int|
                    0 <= k < i + 1 && self.leases@[k] == x && x.expires_at > now) implies kept@.contains(
                    x,
                ) by {
                    let k = choose|k: int|
                        0 <= k < i + 1 && self.leases@[k] == x && x.expires_at > now;
                    if k == i {
                        assert(kept@.last() == x);
                    } else {
                        assert(kept0.contains(x));
                    }
                }
                assert forall|x: PeerLease| gone@.contains(x) implies (exists|k: int|
                    0 <= k < i + 1 && self.leases@[k] == x && x.expires_at <= now) by {
                    if gone0.contains(x) {
                        let k = choose|k: int|
                            0 <= k < i && self.leases@[k] == x && x.expires_at <= now;
                    } else {
                        assert(x == self.leases@[i as int]);
                    }
                }
                assert forall|x: PeerLease| (exists|k: int|
                    0 <= k < i + 1 && self.leases@[k] == x && x.expires_at <= now) implies gone@.contains(
                    x,
                ) by {
                    let k = choose|k: int|
                        0 <= k < i + 1 && self.leases@[k] == x && x.expires_at <= now;
                    if k == i {
                        assert(gone@.last() == x);
                    } else {
                        assert(gone0.contains(x));
                    }
                }
                assert forall|a: int, b: int|
                    0 <= a < b < kept@.len() implies !(kept@[a].peer == kept@[b].peer
                    && kept@[a].addr@ == kept@[b].addr@) by {
                    if !stale && b == kept@.len() - 1 {
                        assert(kept@[a] == kept0[a]);
                        assert(kept0.contains(kept0[a]));
                        let k = choose|k: int|
                            0 <= k < i && self.leases@[k] == kept0[a] && kept0[a].expires_at > now;
                        assert(!(self.leases@[k].peer == self.leases@[i as int].peer
                            && self.leases@[k].addr@ == self.leases@[i as int].addr@));
                    } else {
                        assert(kept@[a] == kept0[a] && kept@[b] == kept0[b]);
                    }
                }
            }
            i = i + 1;
        }
        self.leases = kept;
        proof {
            assert forall|e: PeerLease|
                self.leases@.contains(e) implies (pre.leases@.contains(e) && e.expires_at
                > now) by {
                let k = choose|k: int|
                    0 <= k < pre.leases@.len() && pre.leases@[k] == e && e.expires_at > now;
            }
            assert forall|e: PeerLease|
                pre.leases@.contains(e) && e.expires_at > now implies self.leases@.contains(e) by {
                let k = choose|k: int| 0 <= k < pre.leases@.len() && pre.leases@[k] == e;
            }
            assert forall|e: PeerLease|
                gone@.contains(e) implies (pre.leases@.contains(e) && e.expires_at <= now) by {
                let k = choose|k: int|
                    0 <= k < pre.leases@.len() && pre.leases@[k] == e && e.expires_at <= now;
            }
            assert forall|e: PeerLease|
                pre.leases@.contains(e) && e.expires_at <= now implies gone@.contains(e) by {
                let k = choose|k: int| 0 <= k < pre.leases@.len() && pre.leases@[k] == e;
            }
        }
        gone
    }
}

/// Law: a peer none of whose leases was renewed is out of the view
/// once `expire` has swept the table — after the sweep, nothing sees
/// it any more.
pub proof fn lemma_expired_peer_unseen(
    before: Seq<PeerLease>,
    after: Seq<PeerLease>,
    p: u64,
    now: u64,
)
    requires
        forall|e: PeerLease| after.contains(e) <==> (before.contains(e) && e.expires_at > now),
        forall|e: PeerLease| before.contains(e) && e.peer == p ==> e.expires_at <= now,
    ensures
        !lease_sees(after, p),
{
    if lease_sees(after, p) {
        let k = choose|k: int| 0 <= k < after.len() && after[k].peer == p;
        assert(after.contains(after[k]));
        assert(before.contains(after[k]) && after[k].expires_at > now);
    }
}

} // verus!
