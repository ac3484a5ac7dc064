//! The server's peer registry: who is connected, under which id and name,
//! and what is waiting to be written to each peer.
//!
//! A peer's outbound handle is a queue of text frames. The registry only
//! appends to it; whoever owns the transport takes the frames out and
//! writes them, so that no registry operation waits for a socket.

use vstd::prelude::*;
use crate::codec::server_text;
use crate::message::{UserView, WebSocketServerToClientMessage, roster_view};

verus! {

/// The mathematical value of an [`Outbound`]: the frames that wait in it,
/// oldest first, and whether it still takes frames.
pub struct OutboundView {
    pub frames: Seq<Seq<char>>,
    pub open: bool,
}

/// The sending side of one peer's outbound queue.
pub struct Outbound {
    frames: Vec<String>,
    open: bool,
}

/// The characters of each frame of a list.
pub open spec fn frames_view(frames: Seq<String>) -> Seq<Seq<char>> {
    Seq::new(frames.len(), |i: int| frames[i]@)
}

impl View for Outbound {
    type V = OutboundView;

    closed spec fn view(&self) -> OutboundView {
        OutboundView { frames: frames_view(self.frames@), open: self.open }
    }
}

impl Outbound {
    /// An open queue that holds nothing.
    pub fn new() -> (q: Outbound)
        ensures
            q@ == (OutboundView { frames: Seq::<Seq<char>>::empty(), open: true }),
    {
        let q = Outbound { frames: Vec::new(), open: true };
        assert(frames_view(q.frames@) =~= Seq::<Seq<char>>::empty());
        q
    }

    /// Appends `frame` if the queue is open, and says whether it did.
    pub fn send(&mut self, frame: String) -> (taken: bool)
        ensures
            taken == old(self)@.open,
            final(self)@ == deliver(old(self)@, frame@),
    {
        if self.open {
            self.frames.push(frame);
            assert(frames_view(self.frames@) =~= frames_view(old(self).frames@).push(frame@));
            true
        } else {
            false
        }
    }

    /// Closes the queue: from now on it takes no frame. What waits in it
    /// stays.
    pub fn close(&mut self)
        ensures
            final(self)@ == (OutboundView { frames: old(self)@.frames, open: false }),
    {
        self.open = false;
    }

    /// Whether the queue still takes frames.
    pub fn is_open(&self) -> (open: bool)
        ensures
            open == self@.open,
    {
        self.open
    }

    /// How many frames wait in the queue.
    pub fn len(&self) -> (n: usize)
        ensures
            n == self@.frames.len(),
    {
        self.frames.len()
    }

    /// Takes out the frames that wait, oldest first.
    pub fn drain(&mut self) -> (frames: Vec<String>)
        ensures
            frames_view(frames@) == old(self)@.frames,
            final(self)@ == (OutboundView { frames: Seq::<Seq<char>>::empty(), open: old(self)@.open }),
    {
        let mut frames: Vec<String> = Vec::new();
        std::mem::swap(&mut frames, &mut self.frames);
        assert(frames_view(self.frames@) =~= Seq::<Seq<char>>::empty());
        frames
    }
}

/// What a queue holds after `frame` was sent to it: a closed queue drops
/// the frame.
pub open spec fn deliver(q: OutboundView, frame: Seq<char>) -> OutboundView {
    if q.open {
        OutboundView { frames: q.frames.push(frame), open: true }
    } else {
        q
    }
}

/// One connected client, as the server knows it.
pub struct Peer {
    /// The identity of the connection.
    pub address: u64,
    /// The queue of frames for this client.
    pub outbound: Outbound,
    /// The id that the server gave the client.
    pub id: u32,
    /// The client's display name.
    pub name: String,
}

/// The mathematical value of a [`Peer`].
pub struct PeerView {
    pub address: u64,
    pub outbound: OutboundView,
    pub id: u32,
    pub name: Seq<char>,
}

impl View for Peer {
    type V = PeerView;

    open spec fn view(&self) -> PeerView {
        PeerView { address: self.address, outbound: self.outbound@, id: self.id, name: self.name@ }
    }
}

// ---------------------------------------------------------------------------
// The registry as a sequence of peers
// ---------------------------------------------------------------------------

/// Whether no two peers of the list have the same address.
pub open spec fn distinct_addresses(peers: Seq<PeerView>) -> bool {
    forall|i: int, j: int| 0 <= i < j < peers.len() ==> peers[i].address != peers[j].address
}

/// The first position from `i` on whose peer has the address, or the
/// length of the list where there is none.
pub open spec fn find_from(peers: Seq<PeerView>, address: u64, i: int) -> int
    decreases peers.len() - i,
{
    if 0 <= i < peers.len() && peers[i].address != address {
        find_from(peers, address, i + 1)
    } else {
        i
    }
}

/// The position of the peer with the address, or the length of the list
/// where there is none.
pub open spec fn position(peers: Seq<PeerView>, address: u64) -> int {
    find_from(peers, address, 0)
}

/// Whether a peer of the list has the address.
pub open spec fn has_address(peers: Seq<PeerView>, address: u64) -> bool {
    position(peers, address) < peers.len()
}

/// The peer `p` after `frame` was sent to it.
pub open spec fn hand(p: PeerView, frame: Seq<char>) -> PeerView {
    PeerView { address: p.address, outbound: deliver(p.outbound, frame), id: p.id, name: p.name }
}

/// The peers after `frame` was sent to each of them but the one with the
/// address `address`.
pub open spec fn sent_to_others(peers: Seq<PeerView>, address: u64, frame: Seq<char>) -> Seq<
    PeerView,
> {
    Seq::new(
        peers.len(),
        |i: int|
            if peers[i].address != address {
                hand(peers[i], frame)
            } else {
                peers[i]
            },
    )
}

/// The peers after `frame` was sent to each of them.
pub open spec fn sent_to_all(peers: Seq<PeerView>, frame: Seq<char>) -> Seq<PeerView> {
    Seq::new(peers.len(), |i: int| hand(peers[i], frame))
}

/// The peers after `frame` was sent to the one with the address `address`.
pub open spec fn sent_to_one(peers: Seq<PeerView>, address: u64, frame: Seq<char>) -> Seq<
    PeerView,
> {
    Seq::new(
        peers.len(),
        |i: int|
            if peers[i].address == address {
                hand(peers[i], frame)
            } else {
                peers[i]
            },
    )
}

/// The id and name of each peer, in the order of the list.
pub open spec fn roster_of(peers: Seq<PeerView>) -> Seq<UserView> {
    Seq::new(peers.len(), |i: int| (peers[i].id, peers[i].name))
}

/// The peers after the queue of the one with the address `address` was
/// emptied.
pub open spec fn emptied(peers: Seq<PeerView>, address: u64) -> Seq<PeerView> {
    Seq::new(
        peers.len(),
        |i: int|
            if peers[i].address == address {
                PeerView {
                    address: peers[i].address,
                    outbound: OutboundView {
                        frames: Seq::<Seq<char>>::empty(),
                        open: peers[i].outbound.open,
                    },
                    id: peers[i].id,
                    name: peers[i].name,
                }
            } else {
                peers[i]
            },
    )
}

/// The peers after the queue of the one with the address `address` was
/// closed.
pub open spec fn shut(peers: Seq<PeerView>, address: u64) -> Seq<PeerView> {
    Seq::new(
        peers.len(),
        |i: int|
            if peers[i].address == address {
                PeerView {
                    address: peers[i].address,
                    outbound: OutboundView { frames: peers[i].outbound.frames, open: false },
                    id: peers[i].id,
                    name: peers[i].name,
                }
            } else {
                peers[i]
            },
    )
}

/// What `find_from` finds: a position in the list or its end, a peer with
/// the address if it is in the list, and no such peer between `i` and it.
pub proof fn find_from_is(peers: Seq<PeerView>, address: u64, i: int)
    requires
        0 <= i <= peers.len(),
    ensures
        i <= find_from(peers, address, i) <= peers.len(),
        find_from(peers, address, i) < peers.len() ==> peers[find_from(peers, address, i)].address
            == address,
        forall|k: int| i <= k < find_from(peers, address, i) ==> (#[trigger] peers[k]).address
            != address,
    decreases peers.len() - i,
{
    if i < peers.len() && peers[i].address != address {
        find_from_is(peers, address, i + 1);
    }
}

/// A peer with the address is in the list exactly if some position holds
/// one; among distinct addresses that position is the only one.
pub proof fn position_is(peers: Seq<PeerView>, address: u64)
    ensures
        0 <= position(peers, address) <= peers.len(),
        has_address(peers, address) <==> exists|k: int|
            0 <= k < peers.len() && (#[trigger] peers[k]).address == address,
        has_address(peers, address) ==> peers[position(peers, address)].address == address,
        distinct_addresses(peers) ==> forall|k: int|
            0 <= k < peers.len() && (#[trigger] peers[k]).address == address ==> k == position(
                peers,
                address,
            ),
{
    find_from_is(peers, address, 0);
    let at = position(peers, address);
    if has_address(peers, address) {
        assert(peers[at].address == address);
    }
}

/// What the registry refuses.
#[derive(Debug, Clone, Copy, PartialEq, Eq, Structural)]
pub enum RegistryError {
    /// No peer with the address is registered.
    NotFound,
}

/// The peers that are connected, each under the address of its connection.
pub struct PeerRegistry {
    peers: Vec<Peer>,
}

/// The value of each peer of a list.
pub open spec fn peers_view(peers: Seq<Peer>) -> Seq<PeerView> {
    Seq::new(peers.len(), |i: int| peers[i]@)
}

impl View for PeerRegistry {
    type V = Seq<PeerView>;

    closed spec fn view(&self) -> Seq<PeerView> {
        peers_view(self.peers@)
    }
}

impl PeerRegistry {
    /// The registry's invariant: no two peers share an address.
    pub open spec fn wf(&self) -> bool {
        distinct_addresses(self@)
    }

    /// A registry without peers.
    pub fn new() -> (r: PeerRegistry)
        ensures
            r.wf(),
            r@ == Seq::<PeerView>::empty(),
    {
        let r = PeerRegistry { peers: Vec::new() };
        assert(r@ =~= Seq::<PeerView>::empty());
        r
    }

    /// How many peers are registered.
    pub fn len(&self) -> (n: usize)
        ensures
            n == self@.len(),
    {
        self.peers.len()
    }

    /// Whether no peer is registered.
    pub fn is_empty(&self) -> (b: bool)
        ensures
            b == (self@.len() == 0),
    {
        self.peers.len() == 0
    }

    fn find(&self, address: u64) -> (i: usize)
        ensures
            i == position(self@, address),
            i <= self.peers.len(),
    {
        let mut i: usize = 0;
        while i < self.peers.len() && self.peers[i].address != address
            invariant
                i <= self.peers.len(),
                position(self@, address) == find_from(self@, address, i as int),
            decreases self.peers.len() - i,
        {
            i = i + 1;
        }
        i
    }

    /// Whether a peer with the address is registered.
    pub fn contains(&self, address: u64) -> (b: bool)
        ensures
            b == has_address(self@, address),
    {
        self.find(address) < self.peers.len()
    }

    /// Registers a new peer under `address`, behind the peers that are
    /// registered already.
    pub fn register(&mut self, address: u64, outbound: Outbound, id: u32, name: String)
        requires
            old(self).wf(),
            !has_address(old(self)@, address),
        ensures
            final(self).wf(),
            final(self)@ == old(self)@.push(
                PeerView { address, outbound: outbound@, id, name: name@ },
            ),
    {
        proof {
            position_is(self@, address);
        }
        self.peers.push(Peer { address, outbound, id, name });
        assert(self@ =~= old(self)@.push(
            PeerView { address, outbound: outbound@, id, name: name@ },
        ));
    }

    /// Takes the peer with the address out of the registry. The other
    /// peers keep their order.
    pub fn remove(&mut self, address: u64) -> (r: Result<Peer, RegistryError>)
        requires
            old(self).wf(),
        ensures
            final(self).wf(),
            has_address(old(self)@, address) ==> r is Ok && r->Ok_0@ == old(self)@[position(
                old(self)@,
                address,
            )] && final(self)@ == old(self)@.remove(position(old(self)@, address)),
            !has_address(old(self)@, address) ==> r == Err::<Peer, RegistryError>(
                RegistryError::NotFound,
            ) && final(self)@ == old(self)@,
    {
        let i = self.find(address);
        if i < self.peers.len() {
            let peer = self.peers.remove(i);
            assert(self@ =~= old(self)@.remove(i as int));
            Ok(peer)
        } else {
            Err(RegistryError::NotFound)
        }
    }

    /// Sends `message` to every peer but the one with the address
    /// `address`. A peer whose queue is closed is passed over.
    pub fn broadcast_except(&mut self, address: u64, message: &WebSocketServerToClientMessage)
        requires
            old(self).wf(),
        ensures
            final(self).wf(),
            final(self)@ == sent_to_others(old(self)@, address, server_text(message@)),
    {
        let frame = message.encode();
        let mut i: usize = 0;
        while i < self.peers.len()
            invariant
                i <= self.peers.len(),
                self.peers.len() == old(self).peers.len(),
                frame@ == server_text(message@),
                forall|k: int|
                    0 <= k < i ==> (#[trigger] self.peers@[k])@ == sent_to_others(
                        old(self)@,
                        address,
                        frame@,
                    )[k],
                forall|k: int|
                    i <= k < self.peers.len() ==> (#[trigger] self.peers@[k])@ == old(
                        self,
                    ).peers@[k]@,
            decreases self.peers.len() - i,
        {
            let ghost before = self.peers@;
            if self.peers[i].address != address {
                let _ = self.peers[i].outbound.send(frame.clone());
            }
            assert(self.peers@.len() == before.len());
            assert(forall|k: int| 0 <= k < before.len() && k != i ==> self.peers@[k] == before[k]);
            i = i + 1;
        }
        assert(self@ =~= sent_to_others(old(self)@, address, frame@));
    }

    /// Sends `message` to every peer. A peer whose queue is closed is
    /// passed over.
    pub fn broadcast_all(&mut self, message: &WebSocketServerToClientMessage)
        requires
            old(self).wf(),
        ensures
            final(self).wf(),
            final(self)@ == sent_to_all(old(self)@, server_text(message@)),
    {
        let frame = message.encode();
        let mut i: usize = 0;
        while i < self.peers.len()
            invariant
                i <= self.peers.len(),
                self.peers.len() == old(self).peers.len(),
                frame@ == server_text(message@),
                forall|k: int|
                    0 <= k < i ==> (#[trigger] self.peers@[k])@ == sent_to_all(
                        old(self)@,
                        frame@,
                    )[k],
                forall|k: int|
                    i <= k < self.peers.len() ==> (#[trigger] self.peers@[k])@ == old(
                        self,
                    ).peers@[k]@,
            decreases self.peers.len() - i,
        {
            let ghost before = self.peers@;
            let _ = self.peers[i].outbound.send(frame.clone());
            assert(self.peers@.len() == before.len());
            assert(forall|k: int| 0 <= k < before.len() && k != i ==> self.peers@[k] == before[k]);
            i = i + 1;
        }
        assert(self@ =~= sent_to_all(old(self)@, frame@));
    }

    /// Sends `message` to the peer with the address, and says whether that
    /// peer is registered and its queue took the frame.
    pub fn send_to(&mut self, address: u64, message: &WebSocketServerToClientMessage) -> (taken:
        bool)
        requires
            old(self).wf(),
        ensures
            final(self).wf(),
            final(self)@ == sent_to_one(old(self)@, address, server_text(message@)),
            taken == (has_address(old(self)@, address) && old(self)@[position(
                old(self)@,
                address,
            )].outbound.open),
    {
        proof {
            position_is(self@, address);
        }
        let i = self.find(address);
        if i < self.peers.len() {
            let taken = self.peers[i].outbound.send(message.encode());
            assert(self@ =~= sent_to_one(old(self)@, address, server_text(message@)));
            taken
        } else {
            assert(self@ =~= sent_to_one(old(self)@, address, server_text(message@)));
            false
        }
    }

    /// The id and name of every peer, in the order in which they were
    /// registered.
    pub fn snapshot(&self) -> (users: Vec<(u32, String)>)
        ensures
            roster_view(users@) == roster_of(self@),
    {
        let mut users: Vec<(u32, String)> = Vec::new();
        let mut i: usize = 0;
        while i < self.peers.len()
            invariant
                i <= self.peers.len(),
                users.len() == i,
                forall|k: int|
                    0 <= k < i ==> users@[k].0 == self.peers@[k].id && users@[k].1@
                        == self.peers@[k].name@,
            decreases self.peers.len() - i,
        {
            users.push((self.peers[i].id, self.peers[i].name.clone()));
            i = i + 1;
        }
        assert(roster_view(users@) =~= roster_of(self@));
        users
    }

    /// Takes out the frames that wait for the peer with the address,
    /// oldest first; none where no such peer is registered.
    pub fn take_outbound(&mut self, address: u64) -> (frames: Vec<String>)
        requires
            old(self).wf(),
        ensures
            final(self).wf(),
            final(self)@ == emptied(old(self)@, address),
            frames_view(frames@) == if has_address(old(self)@, address) {
                old(self)@[position(old(self)@, address)].outbound.frames
            } else {
                Seq::<Seq<char>>::empty()
            },
    {
        proof {
            position_is(self@, address);
        }
        let i = self.find(address);
        if i < self.peers.len() {
            let frames = self.peers[i].outbound.drain();
            assert(self@ =~= emptied(old(self)@, address));
            frames
        } else {
            let frames: Vec<String> = Vec::new();
            assert(self@ =~= emptied(old(self)@, address));
            assert(frames_view(frames@) =~= Seq::<Seq<char>>::empty());
            frames
        }
    }

    /// Closes the queue of the peer with the address: what is sent to it
    /// from now on is dropped.
    pub fn close_outbound(&mut self, address: u64)
        requires
            old(self).wf(),
        ensures
            final(self).wf(),
            final(self)@ == shut(old(self)@, address),
    {
        proof {
            position_is(self@, address);
        }
        let i = self.find(address);
        if i < self.peers.len() {
            self.peers[i].outbound.close();
        }
        assert(self@ =~= shut(old(self)@, address));
    }
}

} // verus!
