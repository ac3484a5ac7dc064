//! The server side of the chat: which connections are open, who has joined,
//! and what each step of a connection's handler does to the peer registry.
//!
//! The server is a state machine. The transport hands it three kinds of
//! event, each under the address of the connection it came from: a
//! connection was accepted, a text frame arrived, the connection ended.
//! Each step changes the state and appends frames to the queues of the
//! peers concerned; it never waits.

use vstd::prelude::*;
use crate::codec::{
    CodecError, client_result_view, decode_client, decode_server, server_round_trip, server_text,
};
use crate::message::{
    ClientMessageView, MessageDataView, ServerMessageView, UserView,
    WebSocketClientToServerMessage, WebSocketServerToClientMessage, roster_view,
};
use crate::registry::{
    Outbound, OutboundView, PeerRegistry, PeerView, distinct_addresses, emptied,
    find_from, find_from_is, frames_view, hand, has_address, position, position_is, roster_of, sent_to_all,
    sent_to_one, sent_to_others, shut,
};

verus! {

/// A connection that was accepted and has not joined yet: its address and
/// the id it will join under.
#[derive(Debug, Clone, Copy, PartialEq, Eq, Structural)]
pub struct Pending {
    pub address: u64,
    pub id: u32,
}

/// The mathematical value of a [`ChatServer`].
pub struct ChatServerView {
    /// The peers that have joined, in the order in which they joined.
    pub peers: Seq<PeerView>,
    /// The connections that were accepted and have not joined.
    pub waiting: Seq<Pending>,
    /// The id that the next accepted connection gets.
    pub next_id: nat,
}

/// Why a connection was not accepted.
#[derive(Debug, Clone, Copy, PartialEq, Eq, Structural)]
pub enum ServerError {
    /// A connection with this address is open already.
    DuplicateConnection,
    /// Every id has been given out.
    IdsExhausted,
}

/// What the server made of a frame.
#[derive(Debug, Clone, Copy, PartialEq, Eq, Structural)]
pub enum Reaction {
    /// The frame was the `Connect` of a connection that had not joined: the
    /// client is now a peer.
    Joined,
    /// The frame was a chat message of a peer: it was passed on to the
    /// other peers.
    Relayed,
    /// The frame could not be decoded: it was ignored.
    Dropped(CodecError),
    /// The frame broke the protocol (a chat message before `Connect`, or a
    /// second `Connect`): the connection is no longer known to the server,
    /// and its transport is to be closed.
    Rejected,
    /// No connection with this address is open: nothing was done.
    Unknown,
}

// ---------------------------------------------------------------------------
// The state and its invariant
// ---------------------------------------------------------------------------

/// The first position from `i` on whose connection has the address, or the
/// length of the list where there is none.
pub open spec fn pending_from(waiting: Seq<Pending>, address: u64, i: int) -> int
    decreases waiting.len() - i,
{
    if 0 <= i < waiting.len() && waiting[i].address != address {
        pending_from(waiting, address, i + 1)
    } else {
        i
    }
}

/// The position of the waiting connection with the address, or the length
/// of the list where there is none.
pub open spec fn pending_position(waiting: Seq<Pending>, address: u64) -> int {
    pending_from(waiting, address, 0)
}

/// Whether a connection with the address is waiting to join.
pub open spec fn is_pending(waiting: Seq<Pending>, address: u64) -> bool {
    pending_position(waiting, address) < waiting.len()
}

/// Whether the id belongs to a peer or to a waiting connection.
pub open spec fn id_in_use(s: ChatServerView, id: u32) -> bool {
    ||| exists|i: int| 0 <= i < s.peers.len() && (#[trigger] s.peers[i]).id == id
    ||| exists|j: int| 0 <= j < s.waiting.len() && (#[trigger] s.waiting[j]).id == id
}

/// The invariant of the server's state: every open connection has an
/// address and an id of its own, and every id in use was given out before.
pub open spec fn well_formed(s: ChatServerView) -> bool {
    &&& s.next_id <= 0x1_0000_0000
    &&& distinct_addresses(s.peers)
    &&& forall|i: int, j: int|
        0 <= i < j < s.waiting.len() ==> (#[trigger] s.waiting[i]).address != (
        #[trigger] s.waiting[j]).address
    &&& forall|i: int, j: int|
        0 <= i < s.peers.len() && 0 <= j < s.waiting.len() ==> (#[trigger] s.peers[i]).address
            != (#[trigger] s.waiting[j]).address
    &&& forall|i: int, j: int|
        0 <= i < j < s.peers.len() ==> (#[trigger] s.peers[i]).id != (#[trigger] s.peers[j]).id
    &&& forall|i: int, j: int|
        0 <= i < j < s.waiting.len() ==> (#[trigger] s.waiting[i]).id != (
        #[trigger] s.waiting[j]).id
    &&& forall|i: int, j: int|
        0 <= i < s.peers.len() && 0 <= j < s.waiting.len() ==> (#[trigger] s.peers[i]).id != (
        #[trigger] s.waiting[j]).id
    &&& forall|i: int| 0 <= i < s.peers.len() ==> (#[trigger] s.peers[i]).id < s.next_id
    &&& forall|j: int| 0 <= j < s.waiting.len() ==> (#[trigger] s.waiting[j]).id < s.next_id
}

/// The state of a server that has accepted nothing yet.
pub open spec fn initial() -> ChatServerView {
    ChatServerView { peers: Seq::empty(), waiting: Seq::empty(), next_id: 0 }
}

// ---------------------------------------------------------------------------
// The steps
// ---------------------------------------------------------------------------

/// What accepting a connection under `address` returns: the id it will
/// join under, or why it was refused.
pub open spec fn accept_result(s: ChatServerView, address: u64) -> Result<u32, ServerError> {
    if has_address(s.peers, address) || is_pending(s.waiting, address) {
        Err(ServerError::DuplicateConnection)
    } else if s.next_id > u32::MAX {
        Err(ServerError::IdsExhausted)
    } else {
        Ok(s.next_id as u32)
    }
}

/// The state after accepting a connection under `address`.
pub open spec fn accepted(s: ChatServerView, address: u64) -> ChatServerView {
    match accept_result(s, address) {
        Ok(id) => ChatServerView {
            peers: s.peers,
            waiting: s.waiting.push(Pending { address, id }),
            next_id: s.next_id + 1,
        },
        Err(_) => s,
    }
}

/// A peer that has just joined: its queue is open and empty.
pub open spec fn newcomer(address: u64, id: u32, name: Seq<char>) -> PeerView {
    PeerView {
        address,
        outbound: OutboundView { frames: Seq::empty(), open: true },
        id,
        name,
    }
}

/// The state after the waiting connection with the address `address` has
/// joined under `name`: it is registered behind the other peers and is sent
/// `Connected` and the roster, itself included; the other peers are sent
/// `NewUserAdded`.
pub open spec fn joined(s: ChatServerView, address: u64, name: Seq<char>) -> ChatServerView {
    let at = pending_position(s.waiting, address);
    let id = s.waiting[at].id;
    let registered = s.peers.push(newcomer(address, id, name));
    let greeted = sent_to_one(
        registered,
        address,
        server_text(ServerMessageView::Connected(id, name)),
    );
    let informed = sent_to_one(
        greeted,
        address,
        server_text(ServerMessageView::AllUsers(roster_of(registered))),
    );
    ChatServerView {
        peers: sent_to_others(
            informed,
            address,
            server_text(ServerMessageView::NewUserAdded(id, name)),
        ),
        waiting: s.waiting.remove(at),
        next_id: s.next_id,
    }
}

/// The state after the peer with the address `address` has left: it is
/// taken out of the registry, and then every remaining peer is sent
/// `Disconnected`.
pub open spec fn left(s: ChatServerView, address: u64) -> ChatServerView {
    let at = position(s.peers, address);
    let gone = s.peers[at];
    ChatServerView {
        peers: sent_to_all(
            s.peers.remove(at),
            server_text(ServerMessageView::Disconnected(gone.id, gone.name)),
        ),
        waiting: s.waiting,
        next_id: s.next_id,
    }
}

/// The state after the waiting connection with the address was dropped.
pub open spec fn dropped(s: ChatServerView, address: u64) -> ChatServerView {
    ChatServerView {
        peers: s.peers,
        waiting: s.waiting.remove(pending_position(s.waiting, address)),
        next_id: s.next_id,
    }
}

/// The state after the peer with the address `address` has sent the chat
/// message `d`: every other peer is sent the message.
pub open spec fn relayed(s: ChatServerView, address: u64, d: MessageDataView) -> ChatServerView {
    ChatServerView {
        peers: sent_to_others(s.peers, address, server_text(ServerMessageView::UserMessage(d))),
        waiting: s.waiting,
        next_id: s.next_id,
    }
}

/// What the server makes of the text frame `frame` from the connection
/// `address`.
pub open spec fn reaction(s: ChatServerView, address: u64, frame: Seq<char>) -> Reaction {
    if is_pending(s.waiting, address) {
        match decode_client(frame) {
            Ok(ClientMessageView::Connect(_)) => Reaction::Joined,
            Ok(ClientMessageView::UserMessage(_)) => Reaction::Rejected,
            Err(e) => Reaction::Dropped(e),
        }
    } else if has_address(s.peers, address) {
        match decode_client(frame) {
            Ok(ClientMessageView::UserMessage(_)) => Reaction::Relayed,
            Ok(ClientMessageView::Connect(_)) => Reaction::Rejected,
            Err(e) => Reaction::Dropped(e),
        }
    } else {
        Reaction::Unknown
    }
}

/// The state after the text frame `frame` arrived from the connection
/// `address`.
pub open spec fn received(s: ChatServerView, address: u64, frame: Seq<char>) -> ChatServerView {
    if is_pending(s.waiting, address) {
        match decode_client(frame) {
            Ok(ClientMessageView::Connect(name)) => joined(s, address, name),
            Ok(ClientMessageView::UserMessage(_)) => dropped(s, address),
            Err(_) => s,
        }
    } else if has_address(s.peers, address) {
        match decode_client(frame) {
            Ok(ClientMessageView::UserMessage(d)) => relayed(s, address, d),
            Ok(ClientMessageView::Connect(_)) => left(s, address),
            Err(_) => s,
        }
    } else {
        s
    }
}

/// Who left when the connection `address` ended: the id and name of the
/// peer, or nothing where the connection had not joined or is not known.
pub open spec fn departed(s: ChatServerView, address: u64) -> Option<UserView> {
    if has_address(s.peers, address) {
        Some((s.peers[position(s.peers, address)].id, s.peers[position(s.peers, address)].name))
    } else {
        None
    }
}

/// The state after the connection `address` ended.
pub open spec fn disconnected(s: ChatServerView, address: u64) -> ChatServerView {
    if has_address(s.peers, address) {
        left(s, address)
    } else if is_pending(s.waiting, address) {
        dropped(s, address)
    } else {
        s
    }
}

// ---------------------------------------------------------------------------
// Every step keeps the invariant
// ---------------------------------------------------------------------------

/// What `pending_from` finds: a position in the list or its end, a
/// connection with the address if it is in the list, and no such connection
/// between `i` and it.
pub proof fn pending_from_is(waiting: Seq<Pending>, address: u64, i: int)
    requires
        0 <= i <= waiting.len(),
    ensures
        i <= pending_from(waiting, address, i) <= waiting.len(),
        pending_from(waiting, address, i) < waiting.len() ==> waiting[pending_from(
            waiting,
            address,
            i,
        )].address == address,
        forall|k: int|
            i <= k < pending_from(waiting, address, i) ==> (#[trigger] waiting[k]).address
                != address,
    decreases waiting.len() - i,
{
    if i < waiting.len() && waiting[i].address != address {
        pending_from_is(waiting, address, i + 1);
    }
}

/// Whether two lists hold the same peers but for what waits in their
/// queues.
pub open spec fn same_members(a: Seq<PeerView>, b: Seq<PeerView>) -> bool {
    &&& a.len() == b.len()
    &&& forall|i: int|
        0 <= i < a.len() ==> (#[trigger] a[i]).address == b[i].address && a[i].id == b[i].id
            && a[i].name == b[i].name && a[i].outbound.open == b[i].outbound.open
}

/// Sending changes nobody's address, id, name, or whether its queue is
/// open.
pub proof fn sending_keeps_members(peers: Seq<PeerView>, address: u64, frame: Seq<char>)
    ensures
        same_members(sent_to_others(peers, address, frame), peers),
        same_members(sent_to_one(peers, address, frame), peers),
        same_members(sent_to_all(peers, frame), peers),
        roster_of(sent_to_others(peers, address, frame)) == roster_of(peers),
        roster_of(sent_to_one(peers, address, frame)) == roster_of(peers),
        roster_of(sent_to_all(peers, frame)) == roster_of(peers),
{
    assert(roster_of(sent_to_others(peers, address, frame)) =~= roster_of(peers));
    assert(roster_of(sent_to_one(peers, address, frame)) =~= roster_of(peers));
    assert(roster_of(sent_to_all(peers, frame)) =~= roster_of(peers));
}

/// The invariant does not depend on what waits in the queues.
pub proof fn members_decide(s: ChatServerView, peers: Seq<PeerView>)
    requires
        well_formed(s),
        same_members(peers, s.peers),
    ensures
        well_formed(ChatServerView { peers, waiting: s.waiting, next_id: s.next_id }),
        forall|address: u64| has_address(peers, address) == has_address(s.peers, address),
        forall|address: u64| position(peers, address) == position(s.peers, address),
{
    let t = ChatServerView { peers, waiting: s.waiting, next_id: s.next_id };
    assert forall|i: int, j: int| 0 <= i < j < peers.len() implies peers[i].address
        != peers[j].address by {
        assert(s.peers[i].address != s.peers[j].address);
    }
    assert forall|i: int, j: int| 0 <= i < j < peers.len() implies (#[trigger] peers[i]).id != (
    #[trigger] peers[j]).id by {
        assert(s.peers[i].id != s.peers[j].id);
    }
    assert forall|i: int, j: int|
        0 <= i < peers.len() && 0 <= j < t.waiting.len() implies (#[trigger] peers[i]).address != (
    #[trigger] t.waiting[j]).address && peers[i].id != t.waiting[j].id by {
        assert(s.peers[i].address != s.waiting[j].address);
        assert(s.peers[i].id != s.waiting[j].id);
    }
    assert forall|i: int| 0 <= i < peers.len() implies (#[trigger] peers[i]).id < t.next_id by {
        assert(s.peers[i].id < s.next_id);
    }
    assert forall|address: u64| position(peers, address) == position(s.peers, address) by {
        same_position(peers, s.peers, address, 0);
    }
}

/// Lists with the same addresses are searched alike.
pub proof fn same_position(a: Seq<PeerView>, b: Seq<PeerView>, address: u64, i: int)
    requires
        same_members(a, b),
        0 <= i <= a.len(),
    ensures
        find_from(a, address, i) == find_from(b, address, i),
    decreases a.len() - i,
{
    if i < a.len() {
        assert(a[i].address == b[i].address);
        if a[i].address != address {
            same_position(a, b, address, i + 1);
        }
    }
}

/// Accepting a connection keeps the invariant.
pub proof fn accepted_is_well_formed(s: ChatServerView, address: u64)
    requires
        well_formed(s),
    ensures
        well_formed(accepted(s, address)),
{
    let t = accepted(s, address);
    if accept_result(s, address) is Ok {
        let id = s.next_id as u32;
        position_is(s.peers, address);
        pending_from_is(s.waiting, address, 0);
        let last = s.waiting.len() as int;
        assert forall|i: int, j: int| 0 <= i < j < t.waiting.len() implies (
        #[trigger] t.waiting[i]).address != (#[trigger] t.waiting[j]).address && t.waiting[i].id
            != t.waiting[j].id by {
            if j < last {
                assert(s.waiting[i].address != s.waiting[j].address);
                assert(s.waiting[i].id != s.waiting[j].id);
            } else {
                assert(s.waiting[i].address != address);
                assert(s.waiting[i].id < s.next_id);
            }
        }
        assert forall|i: int, j: int|
            0 <= i < t.peers.len() && 0 <= j < t.waiting.len() implies (
        #[trigger] t.peers[i]).address != (#[trigger] t.waiting[j]).address && t.peers[i].id
            != t.waiting[j].id by {
            if j < last {
                assert(s.peers[i].address != s.waiting[j].address);
                assert(s.peers[i].id != s.waiting[j].id);
            } else {
                assert(s.peers[i].address != address);
                assert(s.peers[i].id < s.next_id);
            }
        }
        assert forall|j: int| 0 <= j < t.waiting.len() implies (#[trigger] t.waiting[j]).id
            < t.next_id by {
            if j < last {
                assert(s.waiting[j].id < s.next_id);
            }
        }
        assert forall|i: int| 0 <= i < t.peers.len() implies (#[trigger] t.peers[i]).id
            < t.next_id by {
            assert(s.peers[i].id < s.next_id);
        }
    }
}

/// Dropping a waiting connection keeps the invariant.
pub proof fn dropped_is_well_formed(s: ChatServerView, address: u64)
    requires
        well_formed(s),
        is_pending(s.waiting, address),
    ensures
        well_formed(dropped(s, address)),
        !is_pending(dropped(s, address).waiting, address),
{
    let t = dropped(s, address);
    let at = pending_position(s.waiting, address);
    pending_from_is(s.waiting, address, 0);
    assert forall|j: int| 0 <= j < t.waiting.len() implies (#[trigger] t.waiting[j])
        == s.waiting[if j < at {
        j
    } else {
        j + 1
    }] by {}
    assert forall|i: int, j: int| 0 <= i < j < t.waiting.len() implies (
    #[trigger] t.waiting[i]).address != (#[trigger] t.waiting[j]).address && t.waiting[i].id
        != t.waiting[j].id by {
        let a = if i < at { i } else { i + 1 };
        let b = if j < at { j } else { j + 1 };
        assert(s.waiting[a].address != s.waiting[b].address);
        assert(s.waiting[a].id != s.waiting[b].id);
    }
    assert forall|i: int, j: int|
        0 <= i < t.peers.len() && 0 <= j < t.waiting.len() implies (
    #[trigger] t.peers[i]).address != (#[trigger] t.waiting[j]).address && t.peers[i].id
        != t.waiting[j].id by {
        let b = if j < at { j } else { j + 1 };
        assert(s.peers[i].address != s.waiting[b].address);
        assert(s.peers[i].id != s.waiting[b].id);
    }
    assert forall|j: int| 0 <= j < t.waiting.len() implies (#[trigger] t.waiting[j]).id
        < t.next_id by {
        let b = if j < at { j } else { j + 1 };
        assert(s.waiting[b].id < s.next_id);
    }
    assert forall|j: int| 0 <= j < t.waiting.len() implies (#[trigger] t.waiting[j]).address
        != address by {
        let b = if j < at { j } else { j + 1 };
        assert(s.waiting[b].address != s.waiting[at].address);
    }
    pending_from_is(t.waiting, address, 0);
}

/// A peer's leaving keeps the invariant.
pub proof fn left_is_well_formed(s: ChatServerView, address: u64)
    requires
        well_formed(s),
        has_address(s.peers, address),
    ensures
        well_formed(left(s, address)),
        !has_address(left(s, address).peers, address),
{
    let at = position(s.peers, address);
    let gone = s.peers[at];
    let rest = s.peers.remove(at);
    let frame = server_text(ServerMessageView::Disconnected(gone.id, gone.name));
    position_is(s.peers, address);
    let mid = ChatServerView { peers: rest, waiting: s.waiting, next_id: s.next_id };
    assert forall|i: int| 0 <= i < rest.len() implies (#[trigger] rest[i]) == s.peers[if i < at {
        i
    } else {
        i + 1
    }] by {}
    assert forall|i: int, j: int| 0 <= i < j < rest.len() implies (#[trigger] rest[i]).address != (
    #[trigger] rest[j]).address && rest[i].id != rest[j].id by {
        let a = if i < at { i } else { i + 1 };
        let b = if j < at { j } else { j + 1 };
        assert(s.peers[a].address != s.peers[b].address);
        assert(s.peers[a].id != s.peers[b].id);
    }
    assert forall|i: int, j: int|
        0 <= i < rest.len() && 0 <= j < s.waiting.len() implies (#[trigger] rest[i]).address != (
    #[trigger] s.waiting[j]).address && rest[i].id != s.waiting[j].id by {
        let a = if i < at { i } else { i + 1 };
        assert(s.peers[a].address != s.waiting[j].address);
        assert(s.peers[a].id != s.waiting[j].id);
    }
    assert forall|i: int| 0 <= i < rest.len() implies (#[trigger] rest[i]).id < s.next_id by {
        let a = if i < at { i } else { i + 1 };
        assert(s.peers[a].id < s.next_id);
    }
    assert(well_formed(mid));
    assert forall|i: int| 0 <= i < rest.len() implies (#[trigger] rest[i]).address != address by {
        let a = if i < at { i } else { i + 1 };
        assert(s.peers[a].address != s.peers[at].address);
    }
    position_is(rest, address);
    sending_keeps_members(rest, address, frame);
    members_decide(mid, sent_to_all(rest, frame));
}

/// Passing a chat message on keeps the invariant.
pub proof fn relayed_is_well_formed(s: ChatServerView, address: u64, d: MessageDataView)
    requires
        well_formed(s),
    ensures
        well_formed(relayed(s, address, d)),
{
    let frame = server_text(ServerMessageView::UserMessage(d));
    sending_keeps_members(s.peers, address, frame);
    members_decide(s, sent_to_others(s.peers, address, frame));
}

/// The state after the waiting connection has been registered, before
/// anything is sent.
pub open spec fn enrolled(s: ChatServerView, address: u64, name: Seq<char>) -> ChatServerView {
    let at = pending_position(s.waiting, address);
    ChatServerView {
        peers: s.peers.push(newcomer(address, s.waiting[at].id, name)),
        waiting: s.waiting.remove(at),
        next_id: s.next_id,
    }
}

/// Registering a waiting connection keeps the invariant.
pub proof fn enrolled_is_well_formed(s: ChatServerView, address: u64, name: Seq<char>)
    requires
        well_formed(s),
        is_pending(s.waiting, address),
    ensures
        well_formed(enrolled(s, address, name)),
        !has_address(s.peers, address),
        !is_pending(enrolled(s, address, name).waiting, address),
        position(enrolled(s, address, name).peers, address) == s.peers.len(),
{
    let at = pending_position(s.waiting, address);
    let id = s.waiting[at].id;
    pending_from_is(s.waiting, address, 0);
    position_is(s.peers, address);
    if has_address(s.peers, address) {
        assert(s.peers[position(s.peers, address)].address != s.waiting[at].address);
    }
    dropped_is_well_formed(s, address);
    let mid = dropped(s, address);
    let t = enrolled(s, address, name);
    let last = s.peers.len() as int;
    assert forall|j: int| 0 <= j < mid.waiting.len() implies (#[trigger] mid.waiting[j])
        == s.waiting[if j < at {
        j
    } else {
        j + 1
    }] by {}
    assert forall|i: int, j: int| 0 <= i < j < t.peers.len() implies (
    #[trigger] t.peers[i]).address != (#[trigger] t.peers[j]).address && t.peers[i].id
        != t.peers[j].id by {
        if j < last {
            assert(s.peers[i].address != s.peers[j].address);
            assert(s.peers[i].id != s.peers[j].id);
        } else {
            assert(s.peers[i].address != s.waiting[at].address);
            assert(s.peers[i].id != s.waiting[at].id);
        }
    }
    assert forall|i: int, j: int|
        0 <= i < t.peers.len() && 0 <= j < t.waiting.len() implies (
    #[trigger] t.peers[i]).address != (#[trigger] t.waiting[j]).address && t.peers[i].id
        != t.waiting[j].id by {
        let b = if j < at { j } else { j + 1 };
        if i < last {
            assert(s.peers[i].address != s.waiting[b].address);
            assert(s.peers[i].id != s.waiting[b].id);
        } else {
            assert(s.waiting[at].address != s.waiting[b].address);
            assert(s.waiting[at].id != s.waiting[b].id);
        }
    }
    assert forall|i: int| 0 <= i < t.peers.len() implies (#[trigger] t.peers[i]).id
        < t.next_id by {
        if i < last {
            assert(s.peers[i].id < s.next_id);
        } else {
            assert(s.waiting[at].id < s.next_id);
        }
    }
    assert forall|j: int| 0 <= j < t.waiting.len() implies (#[trigger] t.waiting[j]).id
        < t.next_id by {
        assert(mid.waiting[j].id < mid.next_id);
    }
    assert forall|i: int, j: int| 0 <= i < j < t.waiting.len() implies (
    #[trigger] t.waiting[i]).address != (#[trigger] t.waiting[j]).address && t.waiting[i].id
        != t.waiting[j].id by {
        assert(mid.waiting[i].address != mid.waiting[j].address);
        assert(mid.waiting[i].id != mid.waiting[j].id);
    }
    find_from_is(t.peers, address, 0);
    assert forall|k: int| 0 <= k < last implies (#[trigger] t.peers[k]).address != address by {
        assert(s.peers[k].address != s.waiting[at].address);
    }
    if position(t.peers, address) < last {
        assert(t.peers[position(t.peers, address)].address == address);
    }
    assert(t.peers[last].address == address);
}

/// A connection's joining keeps the invariant.
pub proof fn joined_is_well_formed(s: ChatServerView, address: u64, name: Seq<char>)
    requires
        well_formed(s),
        is_pending(s.waiting, address),
    ensures
        well_formed(joined(s, address, name)),
        same_members(joined(s, address, name).peers, enrolled(s, address, name).peers),
        joined(s, address, name).waiting == enrolled(s, address, name).waiting,
{
    let at = pending_position(s.waiting, address);
    let id = s.waiting[at].id;
    let mid = enrolled(s, address, name);
    enrolled_is_well_formed(s, address, name);
    let registered = mid.peers;
    let first = server_text(ServerMessageView::Connected(id, name));
    let second = server_text(ServerMessageView::AllUsers(roster_of(registered)));
    let third = server_text(ServerMessageView::NewUserAdded(id, name));
    let greeted = sent_to_one(registered, address, first);
    let informed = sent_to_one(greeted, address, second);
    let told = sent_to_others(informed, address, third);
    sending_keeps_members(registered, address, first);
    sending_keeps_members(greeted, address, second);
    sending_keeps_members(informed, address, third);
    assert(same_members(told, registered)) by {
        assert forall|i: int| 0 <= i < told.len() implies (#[trigger] told[i]).address
            == registered[i].address && told[i].id == registered[i].id && told[i].name
            == registered[i].name && told[i].outbound.open == registered[i].outbound.open by {
            assert(informed[i].address == greeted[i].address);
            assert(greeted[i].address == registered[i].address);
        }
    }
    members_decide(mid, told);
}

/// Every frame keeps the invariant.
pub proof fn received_is_well_formed(s: ChatServerView, address: u64, frame: Seq<char>)
    requires
        well_formed(s),
    ensures
        well_formed(received(s, address, frame)),
{
    if is_pending(s.waiting, address) {
        match decode_client(frame) {
            Ok(ClientMessageView::Connect(name)) => {
                joined_is_well_formed(s, address, name);
            },
            Ok(ClientMessageView::UserMessage(_)) => {
                dropped_is_well_formed(s, address);
            },
            Err(_) => {},
        }
    } else if has_address(s.peers, address) {
        match decode_client(frame) {
            Ok(ClientMessageView::UserMessage(d)) => {
                relayed_is_well_formed(s, address, d);
            },
            Ok(ClientMessageView::Connect(_)) => {
                left_is_well_formed(s, address);
            },
            Err(_) => {},
        }
    }
}

/// The end of a connection keeps the invariant.
pub proof fn disconnected_is_well_formed(s: ChatServerView, address: u64)
    requires
        well_formed(s),
    ensures
        well_formed(disconnected(s, address)),
{
    if has_address(s.peers, address) {
        left_is_well_formed(s, address);
    } else if is_pending(s.waiting, address) {
        dropped_is_well_formed(s, address);
    }
}

// ---------------------------------------------------------------------------
// The server
// ---------------------------------------------------------------------------

/// The chat server's state: the peer registry, the connections that were
/// accepted and have not joined yet, and the next id to give out.
pub struct ChatServer {
    registry: PeerRegistry,
    waiting: Vec<Pending>,
    next_id: u64,
}

impl View for ChatServer {
    type V = ChatServerView;

    closed spec fn view(&self) -> ChatServerView {
        ChatServerView {
            peers: self.registry@,
            waiting: self.waiting@,
            next_id: self.next_id as nat,
        }
    }
}

impl ChatServer {
    /// The server's invariant; see [`well_formed`].
    pub open spec fn wf(&self) -> bool {
        well_formed(self@)
    }

    /// A server without connections, whose first id is 0.
    pub fn new() -> (server: ChatServer)
        ensures
            server.wf(),
            server@ == initial(),
    {
        let server = ChatServer { registry: PeerRegistry::new(), waiting: Vec::new(), next_id: 0 };
        assert(server@.waiting =~= Seq::<Pending>::empty());
        server
    }

    /// A server without connections, whose first id is `first_id`: one
    /// that goes on where an earlier one stopped.
    pub fn starting_at(first_id: u32) -> (server: ChatServer)
        ensures
            server.wf(),
            server@ == (ChatServerView {
                peers: Seq::empty(),
                waiting: Seq::empty(),
                next_id: first_id as nat,
            }),
    {
        let server = ChatServer {
            registry: PeerRegistry::new(),
            waiting: Vec::new(),
            next_id: first_id as u64,
        };
        assert(server@.waiting =~= Seq::<Pending>::empty());
        server
    }

    fn find_waiting(&self, address: u64) -> (i: usize)
        ensures
            i == pending_position(self@.waiting, address),
            i <= self.waiting.len(),
    {
        let mut i: usize = 0;
        while i < self.waiting.len() && self.waiting[i].address != address
            invariant
                i <= self.waiting.len(),
                pending_position(self@.waiting, address) == pending_from(
                    self@.waiting,
                    address,
                    i as int,
                ),
            decreases self.waiting.len() - i,
        {
            i = i + 1;
        }
        i
    }

    /// Whether the connection has joined.
    pub fn is_joined(&self, address: u64) -> (b: bool)
        ensures
            b == has_address(self@.peers, address),
    {
        self.registry.contains(address)
    }

    /// Whether the connection was accepted and has not joined yet.
    pub fn is_waiting(&self, address: u64) -> (b: bool)
        ensures
            b == is_pending(self@.waiting, address),
    {
        self.find_waiting(address) < self.waiting.len()
    }

    /// How many peers have joined.
    pub fn peer_count(&self) -> (n: usize)
        ensures
            n == self@.peers.len(),
    {
        self.registry.len()
    }

    /// Accepts a connection under `address` and gives it the next id. A
    /// second connection under an address that is still open is refused,
    /// and so is any connection once the ids have run out.
    pub fn accept(&mut self, address: u64) -> (r: Result<u32, ServerError>)
        requires
            old(self).wf(),
        ensures
            final(self).wf(),
            r == accept_result(old(self)@, address),
            final(self)@ == accepted(old(self)@, address),
    {
        proof {
            accepted_is_well_formed(self@, address);
        }
        if self.registry.contains(address) || self.is_waiting(address) {
            Err(ServerError::DuplicateConnection)
        } else if self.next_id > 0xFFFF_FFFF {
            Err(ServerError::IdsExhausted)
        } else {
            let id = self.next_id as u32;
            self.waiting.push(Pending { address, id });
            self.next_id = self.next_id + 1;
            Ok(id)
        }
    }

    fn join(&mut self, address: u64, name: String)
        requires
            old(self).wf(),
            is_pending(old(self)@.waiting, address),
        ensures
            final(self).wf(),
            final(self)@ == joined(old(self)@, address, name@),
    {
        proof {
            enrolled_is_well_formed(self@, address, name@);
            joined_is_well_formed(self@, address, name@);
        }
        let at = self.find_waiting(address);
        let entry = self.waiting.remove(at);
        let id = entry.id;
        self.registry.register(address, Outbound::new(), id, name.clone());
        let ghost registered = self.registry@;
        let greeting = WebSocketServerToClientMessage::Connected(id, name.clone());
        let _ = self.registry.send_to(address, &greeting);
        let users = self.registry.snapshot();
        proof {
            sending_keeps_members(registered, address, server_text(greeting@));
        }
        let roster = WebSocketServerToClientMessage::AllUsers(users);
        let _ = self.registry.send_to(address, &roster);
        let news = WebSocketServerToClientMessage::NewUserAdded(id, name);
        self.registry.broadcast_except(address, &news);
    }

    fn leave(&mut self, address: u64) -> (who: (u32, String))
        requires
            old(self).wf(),
            has_address(old(self)@.peers, address),
        ensures
            final(self).wf(),
            final(self)@ == left(old(self)@, address),
            departed(old(self)@, address) == Some((who.0, who.1@)),
    {
        proof {
            left_is_well_formed(self@, address);
        }
        let peer = self.registry.remove(address).unwrap();
        let farewell = WebSocketServerToClientMessage::Disconnected(peer.id, peer.name.clone());
        self.registry.broadcast_all(&farewell);
        (peer.id, peer.name)
    }

    fn forget(&mut self, address: u64)
        requires
            old(self).wf(),
            is_pending(old(self)@.waiting, address),
        ensures
            final(self).wf(),
            final(self)@ == dropped(old(self)@, address),
    {
        proof {
            dropped_is_well_formed(self@, address);
        }
        let at = self.find_waiting(address);
        let _ = self.waiting.remove(at);
    }

    /// Handles one text frame from the connection `address`.
    ///
    /// From a connection that has not joined, `Connect` makes it a peer; a
    /// chat message is a violation of the protocol. From a peer, a chat
    /// message is passed on to every other peer; a second `Connect` is a
    /// violation of the protocol. After a violation the server no longer
    /// knows the connection (a peer has left, and the others are told so),
    /// and the caller closes the transport. A frame that cannot be decoded
    /// is ignored.
    pub fn receive(&mut self, address: u64, frame: &str) -> (r: Reaction)
        requires
            old(self).wf(),
        ensures
            final(self).wf(),
            r == reaction(old(self)@, address, frame@),
            final(self)@ == received(old(self)@, address, frame@),
    {
        if self.is_waiting(address) {
            let decoded = WebSocketClientToServerMessage::decode(frame);
            assert(client_result_view(decoded) == decode_client(frame@));
            match decoded {
                Ok(WebSocketClientToServerMessage::Connect(name)) => {
                    self.join(address, name);
                    Reaction::Joined
                },
                Ok(WebSocketClientToServerMessage::UserMessage(_)) => {
                    self.forget(address);
                    Reaction::Rejected
                },
                Err(e) => Reaction::Dropped(e),
            }
        } else if self.registry.contains(address) {
            let decoded = WebSocketClientToServerMessage::decode(frame);
            assert(client_result_view(decoded) == decode_client(frame@));
            match decoded {
                Ok(WebSocketClientToServerMessage::UserMessage(d)) => {
                    proof {
                        relayed_is_well_formed(self@, address, d@);
                    }
                    let message = WebSocketServerToClientMessage::UserMessage(d);
                    self.registry.broadcast_except(address, &message);
                    Reaction::Relayed
                },
                Ok(WebSocketClientToServerMessage::Connect(_)) => {
                    let _ = self.leave(address);
                    Reaction::Rejected
                },
                Err(e) => Reaction::Dropped(e),
            }
        } else {
            Reaction::Unknown
        }
    }

    /// Handles the end of the connection `address`, however it ended. A
    /// peer is taken out of the registry and the remaining peers are told
    /// that it left; the peer's id and name are returned. For a connection
    /// that had not joined, or that the server does not know (any more),
    /// nothing is sent and nothing returned.
    pub fn disconnect(&mut self, address: u64) -> (who: Option<(u32, String)>)
        requires
            old(self).wf(),
        ensures
            final(self).wf(),
            final(self)@ == disconnected(old(self)@, address),
            match departed(old(self)@, address) {
                Some((id, name)) => who matches Some((i, n)) && i == id && n@ == name,
                None => who is None,
            },
    {
        if self.registry.contains(address) {
            Some(self.leave(address))
        } else if self.is_waiting(address) {
            self.forget(address);
            None
        } else {
            None
        }
    }

    /// The id and name of every peer, in the order in which they joined.
    pub fn snapshot(&self) -> (users: Vec<(u32, String)>)
        ensures
            roster_view(users@) == roster_of(self@.peers),
    {
        self.registry.snapshot()
    }

    /// Takes out the frames that wait for the peer `address`, oldest first,
    /// to be written to its transport.
    pub fn take_outbound(&mut self, address: u64) -> (frames: Vec<String>)
        requires
            old(self).wf(),
        ensures
            final(self).wf(),
            final(self)@ == (ChatServerView {
                peers: emptied(old(self)@.peers, address),
                waiting: old(self)@.waiting,
                next_id: old(self)@.next_id,
            }),
            frames_view(frames@) == if has_address(old(self)@.peers, address) {
                old(self)@.peers[position(old(self)@.peers, address)].outbound.frames
            } else {
                Seq::<Seq<char>>::empty()
            },
    {
        proof {
            members_decide(self@, emptied(self@.peers, address));
        }
        self.registry.take_outbound(address)
    }

    /// Closes the queue of the peer `address`: its transport takes no more
    /// frames, and what is sent to the peer from now on is dropped.
    pub fn close_outbound(&mut self, address: u64)
        requires
            old(self).wf(),
        ensures
            final(self).wf(),
            final(self)@ == (ChatServerView {
                peers: shut(old(self)@.peers, address),
                waiting: old(self)@.waiting,
                next_id: old(self)@.next_id,
            }),
    {
        proof {
            let after = shut(self@.peers, address);
            let t = ChatServerView { peers: after, waiting: self@.waiting, next_id: self@.next_id };
            assert forall|i: int, j: int| 0 <= i < j < after.len() implies after[i].address
                != after[j].address by {
                assert(self@.peers[i].address != self@.peers[j].address);
            }
            assert forall|i: int, j: int| 0 <= i < j < after.len() implies (
            #[trigger] after[i]).id != (#[trigger] after[j]).id by {
                assert(self@.peers[i].id != self@.peers[j].id);
            }
            assert forall|i: int, j: int|
                0 <= i < after.len() && 0 <= j < t.waiting.len() implies (
            #[trigger] after[i]).address != (#[trigger] t.waiting[j]).address && after[i].id
                != t.waiting[j].id by {
                assert(self@.peers[i].address != self@.waiting[j].address);
                assert(self@.peers[i].id != self@.waiting[j].id);
            }
            assert forall|i: int| 0 <= i < after.len() implies (#[trigger] after[i]).id
                < t.next_id by {
                assert(self@.peers[i].id < self@.next_id);
            }
        }
        self.registry.close_outbound(address);
    }
}

// ---------------------------------------------------------------------------
// What holds of the server
// ---------------------------------------------------------------------------

/// A chat message of a peer reaches every other peer whose queue is open,
/// once, behind what waits there already, and nobody else: the sender's
/// queue and the closed queues stay as they are, nobody joins or leaves,
/// and no connection that has not joined is touched. What is queued decodes
/// to the message that was sent.
pub proof fn relay_reaches_exactly_the_others(
    s: ChatServerView,
    address: u64,
    frame: Seq<char>,
    d: MessageDataView,
)
    requires
        well_formed(s),
        has_address(s.peers, address),
        decode_client(frame) == Ok::<ClientMessageView, CodecError>(
            ClientMessageView::UserMessage(d),
        ),
    ensures
        reaction(s, address, frame) == Reaction::Relayed,
        received(s, address, frame).waiting == s.waiting,
        received(s, address, frame).next_id == s.next_id,
        same_members(received(s, address, frame).peers, s.peers),
        forall|i: int|
            0 <= i < s.peers.len() ==> (#[trigger] received(
                s,
                address,
                frame,
            ).peers[i]).outbound.frames == if s.peers[i].address != address
                && s.peers[i].outbound.open {
                s.peers[i].outbound.frames.push(server_text(ServerMessageView::UserMessage(d)))
            } else {
                s.peers[i].outbound.frames
            },
        decode_server(server_text(ServerMessageView::UserMessage(d))) == Ok::<
            ServerMessageView,
            CodecError,
        >(ServerMessageView::UserMessage(d)),
{
    position_is(s.peers, address);
    pending_from_is(s.waiting, address, 0);
    if is_pending(s.waiting, address) {
        assert(s.peers[position(s.peers, address)].address != s.waiting[pending_position(
            s.waiting,
            address,
        )].address);
    }
    sending_keeps_members(s.peers, address, server_text(ServerMessageView::UserMessage(d)));
    server_round_trip(ServerMessageView::UserMessage(d));
}

/// The id of an accepted connection is the server's next id, which is above
/// every id in use; the next id then goes up by one.
pub proof fn accepted_id_is_fresh(s: ChatServerView, address: u64)
    requires
        well_formed(s),
        accept_result(s, address) is Ok,
    ensures
        accept_result(s, address)->Ok_0 == s.next_id,
        accepted(s, address).next_id == s.next_id + 1,
        !id_in_use(s, accept_result(s, address)->Ok_0),
        forall|i: int| 0 <= i < s.peers.len() ==> (#[trigger] s.peers[i]).id < s.next_id,
        forall|j: int| 0 <= j < s.waiting.len() ==> (#[trigger] s.waiting[j]).id < s.next_id,
{
    let id = accept_result(s, address)->Ok_0;
    if id_in_use(s, id) {
        if exists|i: int| 0 <= i < s.peers.len() && (#[trigger] s.peers[i]).id == id {
            let i = choose|i: int| 0 <= i < s.peers.len() && (#[trigger] s.peers[i]).id == id;
            assert(s.peers[i].id < s.next_id);
        } else {
            let j = choose|j: int| 0 <= j < s.waiting.len() && (#[trigger] s.waiting[j]).id == id;
            assert(s.waiting[j].id < s.next_id);
        }
    }
}

/// No step takes the next id down: only accepting a connection changes it.
pub proof fn next_id_never_goes_down(s: ChatServerView, address: u64, frame: Seq<char>)
    ensures
        accepted(s, address).next_id >= s.next_id,
        received(s, address, frame).next_id == s.next_id,
        disconnected(s, address).next_id == s.next_id,
{
}

/// Ids go up strictly: a connection that is accepted in any later state
/// gets a larger id than one that was accepted before.
pub proof fn later_id_is_larger(
    s: ChatServerView,
    first: u64,
    later: ChatServerView,
    second: u64,
)
    requires
        well_formed(s),
        accept_result(s, first) is Ok,
        later.next_id >= accepted(s, first).next_id,
        accept_result(later, second) is Ok,
    ensures
        accept_result(s, first)->Ok_0 < accept_result(later, second)->Ok_0,
{
}

/// A connection that joins is sent `Connected` and then the roster, and
/// nothing else. The roster is exactly who is registered at that moment,
/// the newcomer included, in the order of joining. Every other peer is sent
/// `NewUserAdded`.
pub proof fn newcomer_gets_the_roster(
    s: ChatServerView,
    address: u64,
    frame: Seq<char>,
    name: Seq<char>,
)
    requires
        well_formed(s),
        is_pending(s.waiting, address),
        decode_client(frame) == Ok::<ClientMessageView, CodecError>(
            ClientMessageView::Connect(name),
        ),
    ensures
        reaction(s, address, frame) == Reaction::Joined,
        ({
            let t = received(s, address, frame);
            let id = s.waiting[pending_position(s.waiting, address)].id;
            let me = t.peers[s.peers.len() as int];
            &&& t.peers.len() == s.peers.len() + 1
            &&& position(t.peers, address) == s.peers.len()
            &&& !is_pending(t.waiting, address)
            &&& me.address == address && me.id == id && me.name == name && me.outbound.open
            &&& me.outbound.frames == seq![
                server_text(ServerMessageView::Connected(id, name)),
                server_text(ServerMessageView::AllUsers(roster_of(t.peers))),
            ]
            &&& roster_of(t.peers) == roster_of(s.peers).push((id, name))
            &&& forall|i: int|
                0 <= i < s.peers.len() ==> (#[trigger] t.peers[i]) == hand(
                    s.peers[i],
                    server_text(ServerMessageView::NewUserAdded(id, name)),
                )
        }),
{
    let t = received(s, address, frame);
    let at = pending_position(s.waiting, address);
    let id = s.waiting[at].id;
    let mid = enrolled(s, address, name);
    enrolled_is_well_formed(s, address, name);
    joined_is_well_formed(s, address, name);
    let registered = mid.peers;
    let first = server_text(ServerMessageView::Connected(id, name));
    let second = server_text(ServerMessageView::AllUsers(roster_of(registered)));
    let third = server_text(ServerMessageView::NewUserAdded(id, name));
    let greeted = sent_to_one(registered, address, first);
    let informed = sent_to_one(greeted, address, second);
    let last = s.peers.len() as int;
    members_decide(mid, t.peers);
    assert(roster_of(t.peers) =~= roster_of(registered));
    assert(roster_of(registered) =~= roster_of(s.peers).push((id, name)));
    assert(registered[last].address == address);
    assert(greeted[last].outbound.frames =~= seq![first]);
    assert(informed[last].outbound.frames =~= seq![first, second]);
    assert(t.peers[last].outbound.frames == informed[last].outbound.frames);
    pending_from_is(s.waiting, address, 0);
    assert forall|i: int| 0 <= i < s.peers.len() implies (#[trigger] t.peers[i]) == hand(
        s.peers[i],
        third,
    ) by {
        assert(s.peers[i].address != s.waiting[at].address);
        assert(registered[i] == s.peers[i]);
        assert(greeted[i] == registered[i]);
        assert(informed[i] == greeted[i]);
    }
}

/// When a peer's connection ends, the peer is gone from the registry and
/// from the roster, and every remaining peer is sent `Disconnected` once,
/// behind what waits for it already. A second end of the same connection
/// changes nothing.
pub proof fn departure_is_announced_once(s: ChatServerView, address: u64)
    requires
        well_formed(s),
        has_address(s.peers, address),
    ensures
        ({
            let at = position(s.peers, address);
            let gone = s.peers[at];
            let t = disconnected(s, address);
            let farewell = server_text(ServerMessageView::Disconnected(gone.id, gone.name));
            &&& departed(s, address) == Some((gone.id, gone.name))
            &&& t.peers.len() == s.peers.len() - 1
            &&& !has_address(t.peers, address)
            &&& !is_pending(t.waiting, address)
            &&& !id_in_use(t, gone.id)
            &&& forall|i: int|
                0 <= i < at ==> (#[trigger] t.peers[i]) == hand(s.peers[i], farewell)
            &&& forall|i: int|
                at <= i < t.peers.len() ==> (#[trigger] t.peers[i]) == hand(
                    s.peers[i + 1],
                    farewell,
                )
            &&& disconnected(t, address) == t
            &&& departed(t, address) is None
        }),
{
    let at = position(s.peers, address);
    let gone = s.peers[at];
    let t = disconnected(s, address);
    position_is(s.peers, address);
    left_is_well_formed(s, address);
    pending_from_is(s.waiting, address, 0);
    if is_pending(s.waiting, address) {
        assert(s.peers[at].address != s.waiting[pending_position(s.waiting, address)].address);
    }
    let rest = s.peers.remove(at);
    if id_in_use(t, gone.id) {
        if exists|i: int| 0 <= i < t.peers.len() && (#[trigger] t.peers[i]).id == gone.id {
            let i = choose|i: int| 0 <= i < t.peers.len() && (#[trigger] t.peers[i]).id == gone.id;
            let a = if i < at { i } else { i + 1 };
            assert(t.peers[i].id == rest[i].id);
            assert(rest[i] == s.peers[a]);
            if a < at {
                assert(s.peers[a].id != s.peers[at].id);
            } else {
                assert(s.peers[at].id != s.peers[a].id);
            }
        } else {
            let j = choose|j: int| 0 <= j < t.waiting.len() && (#[trigger] t.waiting[j]).id
                == gone.id;
            assert(s.peers[at].id != s.waiting[j].id);
        }
    }
}

/// An id that is out of use stays out of use: whatever happens next, no
/// peer and no waiting connection has it, so no later roster shows it.
pub proof fn retired_id_stays_out(s: ChatServerView, id: u32, address: u64, frame: Seq<char>)
    requires
        well_formed(s),
        id < s.next_id,
        !id_in_use(s, id),
    ensures
        !id_in_use(accepted(s, address), id),
        !id_in_use(received(s, address, frame), id),
        !id_in_use(disconnected(s, address), id),
        forall|i: int|
            0 <= i < roster_of(received(s, address, frame).peers).len() ==> (
            #[trigger] roster_of(received(s, address, frame).peers)[i]).0 != id,
{
    let a = accepted(s, address);
    if id_in_use(a, id) {
        if exists|i: int| 0 <= i < a.peers.len() && (#[trigger] a.peers[i]).id == id {
            let i = choose|i: int| 0 <= i < a.peers.len() && (#[trigger] a.peers[i]).id == id;
            assert(s.peers[i].id == id);
        } else {
            let j = choose|j: int| 0 <= j < a.waiting.len() && (#[trigger] a.waiting[j]).id == id;
            if j < s.waiting.len() {
                assert(s.waiting[j].id == id);
            }
        }
    }
    stays_out_when_leaving(s, id, address);
    let r = received(s, address, frame);
    if is_pending(s.waiting, address) {
        match decode_client(frame) {
            Ok(ClientMessageView::Connect(name)) => {
                stays_out_when_joining(s, id, address, name);
            },
            _ => {},
        }
    } else if has_address(s.peers, address) {
        match decode_client(frame) {
            Ok(ClientMessageView::UserMessage(d)) => {
                sending_keeps_members(
                    s.peers,
                    address,
                    server_text(ServerMessageView::UserMessage(d)),
                );
                if id_in_use(r, id) {
                    if exists|i: int| 0 <= i < r.peers.len() && (#[trigger] r.peers[i]).id == id {
                        let i = choose|i: int|
                            0 <= i < r.peers.len() && (#[trigger] r.peers[i]).id == id;
                        assert(s.peers[i].id == id);
                    } else {
                        let j = choose|j: int|
                            0 <= j < r.waiting.len() && (#[trigger] r.waiting[j]).id == id;
                        assert(s.waiting[j].id == id);
                    }
                }
            },
            _ => {},
        }
    }
    assert forall|i: int| 0 <= i < roster_of(r.peers).len() implies (#[trigger] roster_of(
        r.peers,
    )[i]).0 != id by {
        assert(r.peers[i].id == roster_of(r.peers)[i].0);
    }
}

/// Leaving and dropping bring no id into use.
proof fn stays_out_when_leaving(s: ChatServerView, id: u32, address: u64)
    requires
        well_formed(s),
        !id_in_use(s, id),
    ensures
        has_address(s.peers, address) ==> !id_in_use(left(s, address), id),
        is_pending(s.waiting, address) ==> !id_in_use(dropped(s, address), id),
{
    position_is(s.peers, address);
    pending_from_is(s.waiting, address, 0);
    if has_address(s.peers, address) {
        let t = left(s, address);
        let at = position(s.peers, address);
        let rest = s.peers.remove(at);
        if id_in_use(t, id) {
            if exists|i: int| 0 <= i < t.peers.len() && (#[trigger] t.peers[i]).id == id {
                let i = choose|i: int| 0 <= i < t.peers.len() && (#[trigger] t.peers[i]).id == id;
                let a = if i < at { i } else { i + 1 };
                assert(t.peers[i].id == rest[i].id);
                assert(rest[i] == s.peers[a]);
                assert(s.peers[a].id == id);
            } else {
                let j = choose|j: int| 0 <= j < t.waiting.len() && (#[trigger] t.waiting[j]).id
                    == id;
                assert(s.waiting[j].id == id);
            }
        }
    }
    if is_pending(s.waiting, address) {
        let t = dropped(s, address);
        let at = pending_position(s.waiting, address);
        if id_in_use(t, id) {
            if exists|i: int| 0 <= i < t.peers.len() && (#[trigger] t.peers[i]).id == id {
                let i = choose|i: int| 0 <= i < t.peers.len() && (#[trigger] t.peers[i]).id == id;
                assert(s.peers[i].id == id);
            } else {
                let j = choose|j: int| 0 <= j < t.waiting.len() && (#[trigger] t.waiting[j]).id
                    == id;
                let b = if j < at { j } else { j + 1 };
                assert(t.waiting[j] == s.waiting[b]);
                assert(s.waiting[b].id == id);
            }
        }
    }
}

/// Joining brings no id into use: the newcomer keeps the id it waited
/// under.
proof fn stays_out_when_joining(s: ChatServerView, id: u32, address: u64, name: Seq<char>)
    requires
        well_formed(s),
        !id_in_use(s, id),
        is_pending(s.waiting, address),
    ensures
        !id_in_use(joined(s, address, name), id),
{
    let t = joined(s, address, name);
    let mid = enrolled(s, address, name);
    let at = pending_position(s.waiting, address);
    pending_from_is(s.waiting, address, 0);
    joined_is_well_formed(s, address, name);
    if id_in_use(t, id) {
        if exists|i: int| 0 <= i < t.peers.len() && (#[trigger] t.peers[i]).id == id {
            let i = choose|i: int| 0 <= i < t.peers.len() && (#[trigger] t.peers[i]).id == id;
            assert(t.peers[i].id == mid.peers[i].id);
            if i < s.peers.len() {
                assert(s.peers[i].id == id);
            } else {
                assert(s.waiting[at].id == id);
            }
        } else {
            let j = choose|j: int| 0 <= j < t.waiting.len() && (#[trigger] t.waiting[j]).id == id;
            let b = if j < at { j } else { j + 1 };
            assert(t.waiting[j] == s.waiting[b]);
            assert(s.waiting[b].id == id);
        }
    }
}

// ---------------------------------------------------------------------------
// What holds of every run
// ---------------------------------------------------------------------------

/// What the transport hands the server.
pub enum ServerEvent {
    /// A connection was accepted under the address.
    Accepted(u64),
    /// A text frame arrived from the connection with the address.
    Frame(u64, Seq<char>),
    /// The connection with the address ended.
    Ended(u64),
}

/// The state after one event.
pub open spec fn after(s: ChatServerView, e: ServerEvent) -> ChatServerView {
    match e {
        ServerEvent::Accepted(address) => accepted(s, address),
        ServerEvent::Frame(address, frame) => received(s, address, frame),
        ServerEvent::Ended(address) => disconnected(s, address),
    }
}

/// The state after a run of events, the first of them first.
pub open spec fn after_all(s: ChatServerView, events: Seq<ServerEvent>) -> ChatServerView
    decreases events.len(),
{
    if events.len() == 0 {
        s
    } else {
        after(after_all(s, events.drop_last()), events.last())
    }
}

/// Whatever happens, the server's state keeps its invariant and its next
/// id never goes down.
pub proof fn every_run_keeps_the_invariant(s: ChatServerView, events: Seq<ServerEvent>)
    requires
        well_formed(s),
    ensures
        well_formed(after_all(s, events)),
        after_all(s, events).next_id >= s.next_id,
    decreases events.len(),
{
    if events.len() > 0 {
        every_run_keeps_the_invariant(s, events.drop_last());
        let before = after_all(s, events.drop_last());
        match events.last() {
            ServerEvent::Accepted(address) => {
                accepted_is_well_formed(before, address);
            },
            ServerEvent::Frame(address, frame) => {
                received_is_well_formed(before, address, frame);
            },
            ServerEvent::Ended(address) => {
                disconnected_is_well_formed(before, address);
            },
        }
    }
}

/// Every state that a server can reach from its start keeps the invariant.
pub proof fn every_reachable_state_is_well_formed(events: Seq<ServerEvent>)
    ensures
        well_formed(after_all(initial(), events)),
{
    every_run_keeps_the_invariant(initial(), events);
}

/// An id is given once: whatever happens after a connection was accepted,
/// a connection that is accepted later gets a larger id.
pub proof fn ids_go_up_along_every_run(
    s: ChatServerView,
    first: u64,
    events: Seq<ServerEvent>,
    second: u64,
)
    requires
        well_formed(s),
        accept_result(s, first) is Ok,
        accept_result(after_all(accepted(s, first), events), second) is Ok,
    ensures
        accept_result(s, first)->Ok_0 < accept_result(
            after_all(accepted(s, first), events),
            second,
        )->Ok_0,
{
    accepted_is_well_formed(s, first);
    every_run_keeps_the_invariant(accepted(s, first), events);
}

/// Once a peer has left, its id is in no later state of the server, and so
/// in no later roster, whatever happens.
pub proof fn a_peer_that_left_stays_out(s: ChatServerView, address: u64, events: Seq<ServerEvent>)
    requires
        well_formed(s),
        has_address(s.peers, address),
    ensures
        !id_in_use(
            after_all(disconnected(s, address), events),
            s.peers[position(s.peers, address)].id,
        ),
        forall|i: int|
            0 <= i < after_all(disconnected(s, address), events).peers.len() ==> (
            #[trigger] roster_of(after_all(disconnected(s, address), events).peers)[i]).0
                != s.peers[position(s.peers, address)].id,
{
    let id = s.peers[position(s.peers, address)].id;
    let t = disconnected(s, address);
    position_is(s.peers, address);
    departure_is_announced_once(s, address);
    disconnected_is_well_formed(s, address);
    assert(s.peers[position(s.peers, address)].id < s.next_id);
    out_of_use_along_every_run(t, id, events);
    let end = after_all(t, events);
    assert forall|i: int| 0 <= i < end.peers.len() implies (#[trigger] roster_of(end.peers)[i]).0
        != id by {
        assert(end.peers[i].id == roster_of(end.peers)[i].0);
    }
}

/// An id that was given out and is out of use stays out of use along
/// every run.
pub proof fn out_of_use_along_every_run(s: ChatServerView, id: u32, events: Seq<ServerEvent>)
    requires
        well_formed(s),
        id < s.next_id,
        !id_in_use(s, id),
    ensures
        !id_in_use(after_all(s, events), id),
    decreases events.len(),
{
    if events.len() > 0 {
        out_of_use_along_every_run(s, id, events.drop_last());
        every_run_keeps_the_invariant(s, events.drop_last());
        let before = after_all(s, events.drop_last());
        match events.last() {
            ServerEvent::Accepted(address) => {
                retired_id_stays_out(before, id, address, Seq::empty());
            },
            ServerEvent::Frame(address, frame) => {
                retired_id_stays_out(before, id, address, frame);
            },
            ServerEvent::Ended(address) => {
                retired_id_stays_out(before, id, address, Seq::empty());
            },
        }
    }
}

} // verus!
