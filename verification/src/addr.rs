//! Network addresses and node identities.
//!
//! A [`Multiaddr`] is a structured, appendable address: a sequence of
//! [`Segment`]s, compared by structural equality. An address may carry a
//! trailing peer-identity segment so that a remote can dial back with
//! identity verification.

use vstd::prelude::*;

verus! {

/// One structural component of a [`Multiaddr`].
#[derive(Clone, Copy, PartialEq, Eq, Structural, Debug)]
pub enum Segment {
    /// An IPv4 host component.
    Ip4(u8, u8, u8, u8),
    /// A TCP port component.
    Tcp(u16),
    /// A trailing peer-identity component.
    P2p(u64),
}

/// Unique, comparable identifier of a network participant, derived from its
/// public key. Never reused.
#[derive(Clone, Copy, PartialEq, Eq, Structural, Debug)]
pub struct PeerId(pub u64);

/// Public half of a node's keypair.
#[derive(Clone, Copy, PartialEq, Eq, Structural, Debug)]
pub struct PublicKey(pub u64);

/// A node's keypair, here reduced to the value its identity is derived from.
#[derive(Clone, Copy, PartialEq, Eq, Structural, Debug)]
pub struct Keypair(pub u64);

impl Keypair {
    /// The public half of this keypair.
    pub fn to_public_key(&self) -> (r: PublicKey)
        ensures
            r.0 == self.0,
    {
        PublicKey(self.0)
    }
}

impl PublicKey {
    /// The peer identity derived from this public key.
    pub fn into_peer_id(self) -> (r: PeerId)
        ensures
            r.0 == self.0,
    {
        PeerId(self.0)
    }
}

/// A structured, appendable network address.
#[derive(Debug)]
pub struct Multiaddr {
    segs: Vec<Segment>,
}

impl View for Multiaddr {
    type V = Seq<Segment>;

    closed spec fn view(&self) -> Seq<Segment> {
        self.segs@
    }
}

impl Clone for Multiaddr {
    fn clone(&self) -> (r: Self)
        ensures
            r@ == self@,
    {
        let mut segs: Vec<Segment> = Vec::new();
        let mut i: usize = 0;
        while i < self.segs.len()
            invariant
                i <= self.segs.len(),
                segs@ == self.segs@.take(i as int),
            decreases self.segs.len() - i,
        {
            segs.push(self.segs[i]);
            assert(segs@ =~= self.segs@.take(i + 1));
            i = i + 1;
        }
        assert(segs@ =~= self.segs@);
        Multiaddr { segs }
    }
}

impl PartialEq for Multiaddr {
    fn eq(&self, other: &Multiaddr) -> (r: bool) {
        if self.segs.len() != other.segs.len() {
            return false;
        }
        let mut i: usize = 0;
        while i < self.segs.len()
            invariant
                i <= self.segs.len(),
                self.segs.len() == other.segs.len(),
                forall|j: int| 0 <= j < i ==> self.segs@[j] == other.segs@[j],
            decreases self.segs.len() - i,
        {
            if self.segs[i] != other.segs[i] {
                return false;
            }
            i = i + 1;
        }
        proof {
            assert(self@ =~= other@);
        }
        true
    }
}

impl vstd::std_specs::cmp::PartialEqSpecImpl for Multiaddr {
    open spec fn obeys_eq_spec() -> bool {
        true
    }

    open spec fn eq_spec(&self, other: &Multiaddr) -> bool {
        self@ == other@
    }
}

impl Multiaddr {
    /// The empty address.
    pub fn empty() -> (r: Multiaddr)
        ensures
            r@ == Seq::<Segment>::empty(),
    {
        Multiaddr { segs: Vec::new() }
    }

    /// An address made of the given segments, in order.
    pub fn from_segments(segs: Vec<Segment>) -> (r: Multiaddr)
        ensures
            r@ == segs@,
    {
        Multiaddr { segs }
    }

    /// Appends one segment at the end of the address.
    pub fn push(&mut self, s: Segment)
        ensures
            final(self)@ == old(self)@.push(s),
    {
        self.segs.push(s);
    }

    /// Number of segments.
    pub fn len(&self) -> (n: usize)
        ensures
            n == self@.len(),
    {
        self.segs.len()
    }

    /// The segment at the given position.
    pub fn segment(&self, i: usize) -> (s: Segment)
        requires
            i < self@.len(),
        ensures
            s == self@[i as int],
    {
        self.segs[i]
    }

    /// The last segment, if the address is not empty.
    pub fn last_segment(&self) -> (s: Option<Segment>)
        ensures
            self@.len() == 0 ==> s is None,
            self@.len() > 0 ==> s == Some(self@.last()),
    {
        if self.segs.len() == 0 {
            None
        } else {
            Some(self.segs[self.segs.len() - 1])
        }
    }

    /// A copy of this address with the given peer identity appended as a
    /// trailing segment.
    pub fn with_p2p(&self, peer: PeerId) -> (r: Multiaddr)
        ensures
            r@ == self@.push(Segment::P2p(peer.0)),
    {
        let mut r = self.clone();
        r.push(Segment::P2p(peer.0));
        r
    }

    /// Whether this address is a structural prefix of `other`.
    pub fn is_prefix_of(&self, other: &Multiaddr) -> (r: bool)
        ensures
            r == self@.is_prefix_of(other@),
    {
        if self.segs.len() > other.segs.len() {
            return false;
        }
        let mut i: usize = 0;
        while i < self.segs.len()
            invariant
                i <= self.segs.len(),
                self.segs.len() <= other.segs.len(),
                forall|j: int| 0 <= j < i ==> self.segs@[j] == other.segs@[j],
            decreases self.segs.len() - i,
        {
            if self.segs[i] != other.segs[i] {
                proof {
                    assert(other@.subrange(0, self@.len() as int)[i as int] == other@[i as int]);
                }
                return false;
            }
            i = i + 1;
        }
        proof {
            assert(self@ =~= other@.subrange(0, self@.len() as int));
        }
        true
    }
}

} // verus!
