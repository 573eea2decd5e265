use vstd::prelude::*;

verus! {

/// A peer's transport address as plain values: the numeric form of its IP
/// address (IPv4 addresses in their usual 32-bit form) and its UDP port.
#[derive(Clone, Copy, Debug, PartialEq, Eq, Hash, Structural)]
pub struct PeerAddr {
    pub ip: u128,
    pub port: u16,
}

/// Per-peer state the responder keeps between datagrams.  A session starts
/// with both fields zero; the client id is overwritten on every hello.
#[derive(Clone, Copy, Debug, PartialEq, Eq, Structural)]
pub struct ClientSession {
    pub nonce: u16,
    pub client_id: u32,
}

/// Sessions keyed by peer address, with removals deferred: a disconnect
/// only marks its address, and the marks are applied together once the
/// current processing cycle is over.
pub struct SessionStore {
    sessions: Vec<(PeerAddr, ClientSession)>,
    pending: Vec<PeerAddr>,
}

impl SessionStore {
    /// Each address holds at most one session.
    pub closed spec fn wf(self) -> bool {
        forall|i: int, j: int|
            0 <= i < j < self.sessions@.len() ==> (#[trigger] self.sessions@[i]).0 != (
            #[trigger] self.sessions@[j]).0
    }

    /// Whether a session exists for `a`.
    pub closed spec fn contains(self, a: PeerAddr) -> bool {
        exists|i: int| 0 <= i < self.sessions@.len() && (#[trigger] self.sessions@[i]).0 == a
    }

    /// The session of `a`; meaningful only while one exists.
    pub closed spec fn session_of(self, a: PeerAddr) -> ClientSession {
        let i = choose|i: int|
            0 <= i < self.sessions@.len() && (#[trigger] self.sessions@[i]).0 == a;
        self.sessions@[i].1
    }

    /// The addresses marked for removal, oldest first.
    pub closed spec fn pending_removals(self) -> Seq<PeerAddr> {
        self.pending@
    }

    /// An empty store: no sessions, nothing marked.
    pub fn new() -> (r: SessionStore)
        ensures
            r.wf(),
            forall|a: PeerAddr| !r.contains(a),
            r.pending_removals() == Seq::<PeerAddr>::empty(),
    {
        SessionStore { sessions: Vec::new(), pending: Vec::new() }
    }

    /// The index of the session of `a`, if one exists.
    fn find(&self, a: PeerAddr) -> (r: Option<usize>)
        requires
            self.wf(),
        ensures
            match r {
                Some(i) => i < self.sessions@.len() && self.sessions@[i as int].0 == a
                    && self.contains(a) && self.session_of(a) == self.sessions@[i as int].1,
                None => !self.contains(a),
            },
    {
        let mut i: usize = 0;
        while i < self.sessions.len()
            invariant
                i <= self.sessions@.len(),
                self.wf(),
                forall|j: int| 0 <= j < i ==> (#[trigger] self.sessions@[j]).0 != a,
            decreases self.sessions@.len() - i,
        {
            if self.sessions[i].0 == a {
                proof {
                    let k = choose|k: int|
                        0 <= k < self.sessions@.len() && (#[trigger] self.sessions@[k]).0 == a;
                    assert(self.sessions@[i as int].0 == a);
                    assert(k == i);
                }
                return Some(i);
            }
            i += 1;
        }
        None
    }

    /// The session of `a`, created fresh (both fields zero) when none
    /// exists yet.
    pub fn get_or_create(&mut self, a: PeerAddr) -> (r: ClientSession)
        requires
            old(self).wf(),
        ensures
            final(self).wf(),
            final(self).contains(a),
            r == final(self).session_of(a),
            old(self).contains(a) ==> *final(self) == *old(self) && r == old(self).session_of(a),
            !old(self).contains(a) ==> r == (ClientSession { nonce: 0, client_id: 0 }),
            forall|b: PeerAddr|
                b != a ==> final(self).contains(b) == old(self).contains(b),
            forall|b: PeerAddr|
                b != a && old(self).contains(b) ==> final(self).session_of(b) == old(
                    self,
                ).session_of(b),
            final(self).pending_removals() == old(self).pending_removals(),
    {
        match self.find(a) {
            Some(i) => self.sessions[i].1,
            None => {
                let fresh = ClientSession { nonce: 0, client_id: 0 };
                self.sessions.push((a, fresh));
                proof {
                    let n = self.sessions@.len() - 1;
                    assert(self.sessions@[n].0 == a);
                    assert forall|b: PeerAddr| b != a implies self.contains(b) == old(self).contains(b) by {
                        if old(self).contains(b) {
                            let k = choose|k: int|
                                0 <= k < old(self).sessions@.len() && (#[trigger] old(
                                    self,
                                ).sessions@[k]).0 == b;
                            assert(self.sessions@[k].0 == b);
                        }
                        if self.contains(b) {
                            let k = choose|k: int|
                                0 <= k < self.sessions@.len() && (#[trigger] self.sessions@[k]).0
                                    == b;
                            assert(k < n);
                            assert(old(self).sessions@[k].0 == b);
                        }
                    }
                    assert forall|b: PeerAddr| b != a && old(self).contains(b) implies self.session_of(b) == old(self).session_of(b) by {
                        let k1 = choose|k: int|
                            0 <= k < old(self).sessions@.len() && (#[trigger] old(
                                self,
                            ).sessions@[k]).0 == b;
                        let k2 = choose|k: int|
                            0 <= k < self.sessions@.len() && (#[trigger] self.sessions@[k]).0 == b;
                        assert(self.sessions@[k1].0 == b);
                        assert(k2 < n);
                        assert(old(self).sessions@[k2].0 == b);
                        assert(k1 == k2);
                    }
                    assert(self.session_of(a) == fresh) by {
                        let k = choose|k: int|
                            0 <= k < self.sessions@.len() && (#[trigger] self.sessions@[k]).0 == a;
                        assert(self.sessions@[n].0 == a);
                        if k < n {
                            assert(old(self).sessions@[k].0 == a);
                            assert(old(self).contains(a));
                        }
                    }
                }
                fresh
            },
        }
    }

    /// Overwrites the client id of the session of `a`, keeping its nonce.
    pub fn set_client_id(&mut self, a: PeerAddr, client_id: u32)
        requires
            old(self).wf(),
            old(self).contains(a),
        ensures
            final(self).wf(),
            final(self).contains(a),
            final(self).session_of(a) == (ClientSession {
                nonce: old(self).session_of(a).nonce,
                client_id,
            }),
            forall|b: PeerAddr|
                b != a ==> final(self).contains(b) == old(self).contains(b),
            forall|b: PeerAddr|
                b != a && old(self).contains(b) ==> final(self).session_of(b) == old(
                    self,
                ).session_of(b),
            final(self).pending_removals() == old(self).pending_removals(),
    {
        match self.find(a) {
            Some(i) => {
                let nonce = self.sessions[i].1.nonce;
                self.sessions[i] = (a, ClientSession { nonce, client_id });
                proof {
                    let n = i as int;
                    assert(self.sessions@[n].0 == a);
                    assert forall|b: PeerAddr| b != a implies self.contains(b) == old(self).contains(b) by {
                        if old(self).contains(b) {
                            let k = choose|k: int|
                                0 <= k < old(self).sessions@.len() && (#[trigger] old(
                                    self,
                                ).sessions@[k]).0 == b;
                            assert(self.sessions@[k].0 == b);
                        }
                        if self.contains(b) {
                            let k = choose|k: int|
                                0 <= k < self.sessions@.len() && (#[trigger] self.sessions@[k]).0
                                    == b;
                            assert(old(self).sessions@[k].0 == b);
                        }
                    }
                    assert forall|b: PeerAddr| b != a && old(self).contains(b) implies self.session_of(b) == old(self).session_of(b) by {
                        let k1 = choose|k: int|
                            0 <= k < old(self).sessions@.len() && (#[trigger] old(
                                self,
                            ).sessions@[k]).0 == b;
                        let k2 = choose|k: int|
                            0 <= k < self.sessions@.len() && (#[trigger] self.sessions@[k]).0 == b;
                        assert(self.sessions@[k1].0 == b);
                        assert(old(self).sessions@[k2].0 == b);
                        assert(k1 == k2);
                    }
                    assert(self.session_of(a) == (ClientSession {
                        nonce: old(self).session_of(a).nonce,
                        client_id,
                    })) by {
                        let k = choose|k: int|
                            0 <= k < self.sessions@.len() && (#[trigger] self.sessions@[k]).0 == a;
                        assert(self.sessions@[n].0 == a);
                        assert(k == n);
                        let k0 = choose|k: int|
                            0 <= k < old(self).sessions@.len() && (#[trigger] old(
                                self,
                            ).sessions@[k]).0 == a;
                        assert(old(self).sessions@[n].0 == a);
                        assert(k0 == n);
                    }
                }
            },
            None => {
                proof {
                    assert(false);
                }
            },
        }
    }

    /// Marks the session of `a` for removal at the end of the cycle; the
    /// sessions themselves are untouched.
    pub fn mark_for_removal(&mut self, a: PeerAddr)
        requires
            old(self).wf(),
        ensures
            final(self).wf(),
            final(self).pending_removals() == old(self).pending_removals().push(a),
            forall|b: PeerAddr| final(self).contains(b) == old(self).contains(b),
            forall|b: PeerAddr|
                old(self).contains(b) ==> final(self).session_of(b) == old(self).session_of(b),
    {
        self.pending.push(a);
        proof {
            assert(self.sessions@ == old(self).sessions@);
            assert forall|b: PeerAddr| self.contains(b) == old(self).contains(b) by {
                if old(self).contains(b) {
                    let k = choose|k: int|
                        0 <= k < old(self).sessions@.len() && (#[trigger] old(
                            self,
                        ).sessions@[k]).0 == b;
                    assert(self.sessions@[k].0 == b);
                }
                if self.contains(b) {
                    let k = choose|k: int|
                        0 <= k < self.sessions@.len() && (#[trigger] self.sessions@[k]).0 == b;
                    assert(old(self).sessions@[k].0 == b);
                }
            }
            assert forall|b: PeerAddr| old(self).contains(b) implies self.session_of(b) == old(
                self,
            ).session_of(b) by {
                let k1 = choose|k: int|
                    0 <= k < old(self).sessions@.len() && (#[trigger] old(self).sessions@[k]).0
                        == b;
                assert(self.sessions@[k1].0 == b);
            }
        }
    }

    /// Removes the session of `a` at once, leaving every other session.
    fn remove_session(&mut self, a: PeerAddr)
        requires
            old(self).wf(),
        ensures
            final(self).wf(),
            forall|b: PeerAddr|
                final(self).contains(b) == (old(self).contains(b) && b != a),
            forall|b: PeerAddr|
                b != a && old(self).contains(b) ==> final(self).session_of(b) == old(
                    self,
                ).session_of(b),
            final(self).pending_removals() == old(self).pending_removals(),
    {
        match self.find(a) {
            Some(i) => {
                self.sessions.remove(i);
                proof {
                    let n = i as int;
                    let pre = old(self).sessions@;
                    let post = self.sessions@;
                    assert(post == pre.remove(n));
                    assert forall|k: int| 0 <= k < post.len() implies post[k] == (if k < n {
                        pre[k]
                    } else {
                        pre[k + 1]
                    }) by {}
                    assert forall|b: PeerAddr| self.contains(b) == (old(self).contains(b) && b != a) by {
                        if self.contains(b) {
                            let k = choose|k: int|
                                0 <= k < post.len() && (#[trigger] post[k]).0 == b;
                            if k < n {
                                assert(pre[k].0 == b);
                            } else {
                                assert(pre[k + 1].0 == b);
                            }
                            assert(old(self).contains(b));
                            assert(b != a);
                        }
                        if old(self).contains(b) && b != a {
                            let k = choose|k: int|
                                0 <= k < pre.len() && (#[trigger] pre[k]).0 == b;
                            assert(k != n);
                            if k < n {
                                assert(post[k].0 == b);
                            } else {
                                assert(post[k - 1].0 == b);
                            }
                            assert(self.contains(b));
                        }
                    }
                    assert forall|b: PeerAddr| b != a && old(self).contains(b) implies self.session_of(b) == old(self).session_of(b) by {
                        let k1 = choose|k: int| 0 <= k < pre.len() && (#[trigger] pre[k]).0 == b;
                        let k2 = choose|k: int| 0 <= k < post.len() && (#[trigger] post[k]).0 == b;
                        assert(k1 != n);
                        if k2 < n {
                            assert(pre[k2].0 == b);
                            assert(k1 == k2);
                        } else {
                            assert(pre[k2 + 1].0 == b);
                            assert(k1 == k2 + 1);
                        }
                    }
                }
            },
            None => {},
        }
    }

    /// Applies every pending removal, then forgets the marks.  Called once
    /// per inbound-processing cycle, never in the middle of one.
    pub fn flush_removals(&mut self)
        requires
            old(self).wf(),
        ensures
            final(self).wf(),
            final(self).pending_removals() == Seq::<PeerAddr>::empty(),
            forall|b: PeerAddr|
                final(self).contains(b) == (old(self).contains(b) && !old(
                    self,
                ).pending_removals().contains(b)),
            forall|b: PeerAddr|
                final(self).contains(b) ==> final(self).session_of(b) == old(self).session_of(b),
    {
        let ghost marks = self.pending@;
        let mut k: usize = 0;
        while k < self.pending.len()
            invariant
                k <= marks.len(),
                self.wf(),
                self.pending@ == marks,
                forall|b: PeerAddr|
                    self.contains(b) == (old(self).contains(b) && !marks.take(k as int).contains(
                        b,
                    )),
                forall|b: PeerAddr|
                    self.contains(b) ==> self.session_of(b) == old(self).session_of(b),
            decreases marks.len() - k,
        {
            let a = self.pending[k];
            let ghost prev = *self;
            self.remove_session(a);
            proof {
                assert(marks.take(k + 1) =~= marks.take(k as int).push(a));
                assert forall|b: PeerAddr| self.contains(b) == (old(self).contains(b)
                    && !marks.take(k + 1).contains(b)) by {
                    assert(self.contains(b) == (prev.contains(b) && b != a));
                    if marks.take(k + 1).contains(b) {
                        let j = choose|j: int|
                            0 <= j < marks.take(k + 1).len() && #[trigger] marks.take(k + 1)[j]
                                == b;
                        if j < k {
                            assert(marks.take(k as int)[j] == b);
                            assert(marks.take(k as int).contains(b));
                        } else {
                            assert(b == a);
                        }
                    }
                    if marks.take(k as int).contains(b) {
                        let j = choose|j: int|
                            0 <= j < marks.take(k as int).len() && #[trigger] marks.take(
                                k as int,
                            )[j] == b;
                        assert(marks.take(k + 1)[j] == b);
                        assert(marks.take(k + 1).contains(b));
                    }
                    if b == a {
                        assert(marks.take(k + 1)[k as int] == a);
                        assert(marks.take(k + 1).contains(b));
                    }
                }
            }
            k += 1;
        }
        proof {
            assert(marks.take(marks.len() as int) =~= marks);
        }
        let ghost before_clear = *self;
        self.pending.clear();
        proof {
            assert(self.sessions@ == before_clear.sessions@);
            assert forall|b: PeerAddr| self.contains(b) == before_clear.contains(b) by {
                if before_clear.contains(b) {
                    let k = choose|k: int|
                        0 <= k < before_clear.sessions@.len() && (#[trigger]
                        before_clear.sessions@[k]).0 == b;
                    assert(self.sessions@[k].0 == b);
                }
                if self.contains(b) {
                    let k = choose|k: int|
                        0 <= k < self.sessions@.len() && (#[trigger] self.sessions@[k]).0 == b;
                    assert(before_clear.sessions@[k].0 == b);
                }
            }
            assert forall|b: PeerAddr| before_clear.contains(b) implies self.session_of(b)
                == before_clear.session_of(b) by {
                let k1 = choose|k: int|
                    0 <= k < before_clear.sessions@.len() && (#[trigger]
                    before_clear.sessions@[k]).0 == b;
                assert(self.sessions@[k1].0 == b);
            }
        }
    }
}

/// Disconnect removes the session: an address marked for removal has no
/// session once the removals are flushed, so a later packet from it starts
/// from a fresh session again.
pub proof fn lemma_disconnect_removes_session(
    before_flush: SessionStore,
    after_flush: SessionStore,
    peer: PeerAddr,
)
    requires
        before_flush.pending_removals().contains(peer),
        forall|b: PeerAddr|
            after_flush.contains(b) == (before_flush.contains(b)
                && !before_flush.pending_removals().contains(b)),
    ensures
        !after_flush.contains(peer),
{
}

} // verus!
