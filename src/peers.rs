use vstd::prelude::*;

verus! {

/// A node address, as the bytes of its peer id.
pub type PeerAddr = Vec<u8>;

/// Whether two byte vectors hold the same bytes.
pub fn same_bytes(a: &Vec<u8>, b: &Vec<u8>) -> (r: bool)
    ensures
        r == (a@ == b@),
{
    if a.len() != b.len() {
        return false;
    }
    let mut i: usize = 0;
    while i < a.len()
        invariant
            a@.len() == b@.len(),
            i <= a@.len(),
            a@.subrange(0, i as int) == b@.subrange(0, i as int),
        decreases a@.len() - i,
    {
        if a[i] != b[i] {
            assert(a@[i as int] != b@[i as int]);
            return false;
        }
        assert(a@.subrange(0, i + 1) =~= a@.subrange(0, i as int).push(a@[i as int]));
        assert(b@.subrange(0, i + 1) =~= b@.subrange(0, i as int).push(b@[i as int]));
        i += 1;
    }
    assert(a@ =~= a@.subrange(0, a@.len() as int));
    assert(b@ =~= b@.subrange(0, b@.len() as int));
    true
}

/// A copy of a byte vector.
pub fn copy_bytes(v: &Vec<u8>) -> (r: Vec<u8>)
    ensures
        r@ == v@,
{
    let mut r: Vec<u8> = Vec::new();
    let mut i: usize = 0;
    while i < v.len()
        invariant
            i <= v@.len(),
            r@ == v@.subrange(0, i as int),
        decreases v@.len() - i,
    {
        r.push(v[i]);
        assert(v@.subrange(0, i + 1) =~= v@.subrange(0, i as int).push(v@[i as int]));
        i += 1;
    }
    assert(v@ =~= v@.subrange(0, v@.len() as int));
    r
}

/// The addresses of a list of peers, as byte sequences.
pub open spec fn addrs_view(ps: Seq<Vec<u8>>) -> Seq<Seq<u8>> {
    ps.map_values(|p: Vec<u8>| p@)
}

/// The set of peers that are forced into the local gossip mesh view.
/// Adding and removing are idempotent.
pub struct ExplicitPeerSet {
    peers: Vec<PeerAddr>,
}

impl View for ExplicitPeerSet {
    type V = Set<Seq<u8>>;

    closed spec fn view(&self) -> Set<Seq<u8>> {
        addrs_view(self.peers@).to_set()
    }
}

impl ExplicitPeerSet {
    /// Each address is held once.
    pub closed spec fn wf(&self) -> bool {
        addrs_view(self.peers@).no_duplicates()
    }

    /// An empty set.
    pub fn new() -> (r: ExplicitPeerSet)
        ensures
            r.wf(),
            r@ == Set::<Seq<u8>>::empty(),
    {
        let r = ExplicitPeerSet { peers: Vec::new() };
        assert(r@ =~= Set::<Seq<u8>>::empty());
        r
    }

    /// Number of peers in the set.
    pub fn len(&self) -> (r: usize)
        requires
            self.wf(),
        ensures
            r == self@.len(),
    {
        proof {
            addrs_view(self.peers@).unique_seq_to_set();
        }
        self.peers.len()
    }

    /// Position of an address in the underlying list, if present.
    fn find(&self, p: &Vec<u8>) -> (r: Option<usize>)
        ensures
            r is None ==> !self@.contains(p@),
            r matches Some(i) ==> i < self.peers@.len() && self.peers@[i as int]@ == p@,
    {
        let mut i: usize = 0;
        while i < self.peers.len()
            invariant
                i <= self.peers@.len(),
                forall|j: int| 0 <= j < i ==> self.peers@[j]@ != p@,
            decreases self.peers@.len() - i,
        {
            if same_bytes(&self.peers[i], p) {
                return Some(i);
            }
            i += 1;
        }
        proof {
            if self@.contains(p@) {
                let j = choose|j: int| 0 <= j < addrs_view(self.peers@).len() && addrs_view(self.peers@)[j] == p@;
                assert(self.peers@[j]@ == p@);
            }
        }
        None
    }

    /// Whether the address is in the set.
    pub fn contains(&self, p: &Vec<u8>) -> (r: bool)
        ensures
            r == self@.contains(p@),
    {
        match self.find(p) {
            Some(i) => {
                assert(addrs_view(self.peers@)[i as int] == p@);
                true
            },
            None => false,
        }
    }

    /// Adds an address; a no-op when it is already present. Returns whether
    /// the set grew.
    pub fn insert(&mut self, p: PeerAddr) -> (added: bool)
        requires
            old(self).wf(),
        ensures
            final(self).wf(),
            final(self)@ == old(self)@.insert(p@),
            added == !old(self)@.contains(p@),
    {
        if self.contains(&p) {
            assert(self@ =~= self@.insert(p@));
            false
        } else {
            let ghost pv = p@;
            let ghost before = addrs_view(self.peers@);
            self.peers.push(p);
            assert(addrs_view(self.peers@) =~= before.push(pv));
            assert(self@ =~= old(self)@.insert(pv)) by {
                assert forall|a: Seq<u8>| self@.contains(a) <==> old(self)@.insert(pv).contains(a) by {
                    if a == pv {
                        assert(addrs_view(self.peers@)[before.len() as int] == pv);
                    }
                    if old(self)@.contains(a) {
                        let j = choose|j: int| 0 <= j < before.len() && before[j] == a;
                        assert(addrs_view(self.peers@)[j] == a);
                    }
                    if self@.contains(a) && a != pv {
                        let j = choose|j: int| 0 <= j < addrs_view(self.peers@).len() && addrs_view(self.peers@)[j] == a;
                        assert(before[j] == a);
                    }
                }
            }
            assert(!before.contains(pv));
            true
        }
    }

    /// Removes an address; a no-op when it is absent. Returns whether the
    /// set shrank.
    pub fn remove(&mut self, p: &PeerAddr) -> (removed: bool)
        requires
            old(self).wf(),
        ensures
            final(self).wf(),
            final(self)@ == old(self)@.remove(p@),
            removed == old(self)@.contains(p@),
    {
        match self.find(p) {
            None => {
                assert(self@ =~= self@.remove(p@));
                false
            },
            Some(i) => {
                let ghost before = addrs_view(self.peers@);
                assert(before[i as int] == p@);
                self.peers.remove(i);
                let ghost after = addrs_view(self.peers@);
                assert(after =~= before.remove(i as int));
                assert(self@ =~= old(self)@.remove(p@)) by {
                    assert forall|a: Seq<u8>| self@.contains(a) <==> old(self)@.remove(p@).contains(a) by {
                        if self@.contains(a) {
                            let j = choose|j: int| 0 <= j < after.len() && after[j] == a;
                            if j < i {
                                assert(before[j] == a);
                            } else {
                                assert(before[j + 1] == a);
                            }
                        }
                        if old(self)@.remove(p@).contains(a) {
                            let j = choose|j: int| 0 <= j < before.len() && before[j] == a;
                            assert(j != i);
                            if j < i {
                                assert(after[j] == a);
                            } else {
                                assert(after[j - 1] == a);
                            }
                        }
                    }
                }
                true
            },
        }
    }
}

} // verus!
