//! The wire messages of the chat protocol and their mathematical views.
//!
//! There are two families: what a client sends to the server, and what the
//! server sends to a client. Each exec type has a view that holds its
//! strings as sequences of characters; the contracts of the library speak
//! of the views.

use vstd::prelude::*;

verus! {

/// One chat message: who wrote it, under which display name, and its text.
#[derive(Debug, Clone, PartialEq, Eq)]
pub struct MessageData {
    /// The id that the server gave the author.
    pub id: u32,
    /// The author's display name at the time of sending.
    pub name: String,
    /// The text of the message.
    pub data: String,
}

/// The mathematical value of a [`MessageData`].
pub struct MessageDataView {
    pub id: u32,
    pub name: Seq<char>,
    pub data: Seq<char>,
}

impl View for MessageData {
    type V = MessageDataView;

    open spec fn view(&self) -> MessageDataView {
        MessageDataView { id: self.id, name: self.name@, data: self.data@ }
    }
}

impl MessageData {
    /// A copy with the same author, name and text.
    pub fn duplicate(&self) -> (copy: MessageData)
        ensures
            copy@ == self@,
    {
        MessageData { id: self.id, name: self.name.clone(), data: self.data.clone() }
    }
}

/// What a client sends to the server.
#[derive(Debug, Clone, PartialEq, Eq)]
pub enum WebSocketClientToServerMessage {
    /// A chat message to be passed on to the other users.
    UserMessage(MessageData),
    /// The first message on a connection: the display name the client asks
    /// for.
    Connect(String),
}

/// The mathematical value of a [`WebSocketClientToServerMessage`].
pub enum ClientMessageView {
    UserMessage(MessageDataView),
    Connect(Seq<char>),
}

impl View for WebSocketClientToServerMessage {
    type V = ClientMessageView;

    open spec fn view(&self) -> ClientMessageView {
        match self {
            WebSocketClientToServerMessage::UserMessage(d) => ClientMessageView::UserMessage(d@),
            WebSocketClientToServerMessage::Connect(name) => ClientMessageView::Connect(name@),
        }
    }
}

impl WebSocketClientToServerMessage {
    /// A copy of the message.
    pub fn duplicate(&self) -> (copy: WebSocketClientToServerMessage)
        ensures
            copy@ == self@,
    {
        match self {
            WebSocketClientToServerMessage::UserMessage(d) => {
                WebSocketClientToServerMessage::UserMessage(d.duplicate())
            },
            WebSocketClientToServerMessage::Connect(name) => {
                WebSocketClientToServerMessage::Connect(name.clone())
            },
        }
    }
}

/// One entry of a roster: a user's id and display name.
pub type UserView = (u32, Seq<char>);

/// The mathematical value of a roster: each user's id with the characters of
/// the name.
pub open spec fn roster_view(users: Seq<(u32, String)>) -> Seq<UserView> {
    Seq::new(users.len(), |i: int| (users[i].0, users[i].1@))
}

/// A copy of a roster, entry by entry.
pub fn duplicate_roster(users: &Vec<(u32, String)>) -> (copy: Vec<(u32, String)>)
    ensures
        roster_view(copy@) == roster_view(users@),
{
    let mut copy: Vec<(u32, String)> = Vec::new();
    let mut i: usize = 0;
    while i < users.len()
        invariant
            i <= users.len(),
            copy.len() == i,
            forall|k: int| 0 <= k < i ==> copy@[k].0 == users@[k].0 && copy@[k].1@ == users@[k].1@,
        decreases users.len() - i,
    {
        copy.push((users[i].0, users[i].1.clone()));
        i = i + 1;
    }
    assert(roster_view(copy@) =~= roster_view(users@));
    copy
}

/// What the server sends to a client.
#[derive(Debug, Clone, PartialEq, Eq)]
pub enum WebSocketServerToClientMessage {
    /// A chat message of another user.
    UserMessage(MessageData),
    /// The answer to `Connect`: the id and name under which the receiver is
    /// now known.
    Connected(u32, String),
    /// Another user has joined.
    NewUserAdded(u32, String),
    /// Another user has left.
    Disconnected(u32, String),
    /// Everyone who is connected, the receiver included.
    AllUsers(Vec<(u32, String)>),
}

/// The mathematical value of a [`WebSocketServerToClientMessage`].
pub enum ServerMessageView {
    UserMessage(MessageDataView),
    Connected(u32, Seq<char>),
    NewUserAdded(u32, Seq<char>),
    Disconnected(u32, Seq<char>),
    AllUsers(Seq<UserView>),
}

impl View for WebSocketServerToClientMessage {
    type V = ServerMessageView;

    open spec fn view(&self) -> ServerMessageView {
        match self {
            WebSocketServerToClientMessage::UserMessage(d) => ServerMessageView::UserMessage(d@),
            WebSocketServerToClientMessage::Connected(id, name) => ServerMessageView::Connected(
                *id,
                name@,
            ),
            WebSocketServerToClientMessage::NewUserAdded(id, name) => {
                ServerMessageView::NewUserAdded(*id, name@)
            },
            WebSocketServerToClientMessage::Disconnected(id, name) => {
                ServerMessageView::Disconnected(*id, name@)
            },
            WebSocketServerToClientMessage::AllUsers(users) => ServerMessageView::AllUsers(
                roster_view(users@),
            ),
        }
    }
}

impl WebSocketServerToClientMessage {
    /// A copy of the message.
    pub fn duplicate(&self) -> (copy: WebSocketServerToClientMessage)
        ensures
            copy@ == self@,
    {
        match self {
            WebSocketServerToClientMessage::UserMessage(d) => {
                WebSocketServerToClientMessage::UserMessage(d.duplicate())
            },
            WebSocketServerToClientMessage::Connected(id, name) => {
                WebSocketServerToClientMessage::Connected(*id, name.clone())
            },
            WebSocketServerToClientMessage::NewUserAdded(id, name) => {
                WebSocketServerToClientMessage::NewUserAdded(*id, name.clone())
            },
            WebSocketServerToClientMessage::Disconnected(id, name) => {
                WebSocketServerToClientMessage::Disconnected(*id, name.clone())
            },
            WebSocketServerToClientMessage::AllUsers(users) => {
                WebSocketServerToClientMessage::AllUsers(duplicate_roster(users))
            },
        }
    }
}

} // verus!
