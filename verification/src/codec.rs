//! The message codec: each message of the two families as one text frame,
//! and back.
//!
//! A frame is a JSON object with a single member, whose key names the variant
//! and whose value is the variant's payload: `{"Connect":"alice"}`,
//! `{"Connected":[2,"alice"]}`, `{"AllUsers":[[1,"bob"],[2,"alice"]]}`,
//! `{"UserMessage":{"id":2,"name":"alice","data":"hi"}}`. The encoders write
//! no white space and the members of a chat message in the order `id`,
//! `name`, `data`; the decoders accept white space between the tokens, any
//! escape in a string, and the members in any order.

use vstd::prelude::*;
use vstd::string::StringExecFns;
use crate::json::{
    at_end, chars_of, decimal, ends_at, has_at, has_at_split, has_at_whole, is_digit, is_space,
    number_round_trip, number_token, pass_punct, pass_spaces, punct_at, quote, read_number_token,
    read_string, read_string_token, skip_spaces, string_at, string_round_trip, string_token, write_number,
    write_string,
};
use crate::message::{
    ClientMessageView, MessageData, MessageDataView, ServerMessageView, UserView,
    WebSocketClientToServerMessage, WebSocketServerToClientMessage, roster_view,
};

verus! {

/// Why a frame could not be decoded.
#[derive(Debug, Clone, Copy, PartialEq, Eq, Structural)]
pub enum CodecError {
    /// The frame is not a well-formed message of the family.
    Malformed,
    /// The frame names a variant that the family does not have.
    UnknownVariant,
}

// ---------------------------------------------------------------------------
// The written form
// ---------------------------------------------------------------------------

/// An object with one member: the variant's tag and its payload.
pub open spec fn tagged(tag: Seq<char>, payload: Seq<char>) -> Seq<char> {
    seq!['{'] + quote(tag) + seq![':'] + payload + seq!['}']
}

/// A pair of a number and a string, as a list of two.
pub open spec fn user_text(id: u32, name: Seq<char>) -> Seq<char> {
    seq!['['] + decimal(id as nat) + seq![','] + quote(name) + seq![']']
}

/// The users of a roster, separated by commas.
pub open spec fn users_text(users: Seq<UserView>) -> Seq<char>
    decreases users.len(),
{
    if users.len() == 0 {
        Seq::<char>::empty()
    } else if users.len() == 1 {
        user_text(users[0].0, users[0].1)
    } else {
        user_text(users[0].0, users[0].1) + seq![','] + users_text(users.skip(1))
    }
}

/// A roster, as a list of pairs.
pub open spec fn roster_text(users: Seq<UserView>) -> Seq<char> {
    seq!['['] + users_text(users) + seq![']']
}

/// A chat message, as an object with the members `id`, `name` and `data`.
pub open spec fn message_data_text(d: MessageDataView) -> Seq<char> {
    seq!['{'] + quote("id"@) + seq![':'] + decimal(d.id as nat) + seq![','] + quote("name"@)
        + seq![':'] + quote(d.name) + seq![','] + quote("data"@) + seq![':'] + quote(d.data)
        + seq!['}']
}

/// The frame of a message from a client.
pub open spec fn client_text(m: ClientMessageView) -> Seq<char> {
    match m {
        ClientMessageView::UserMessage(d) => tagged("UserMessage"@, message_data_text(d)),
        ClientMessageView::Connect(name) => tagged("Connect"@, quote(name)),
    }
}

/// The frame of a message from the server.
pub open spec fn server_text(m: ServerMessageView) -> Seq<char> {
    match m {
        ServerMessageView::UserMessage(d) => tagged("UserMessage"@, message_data_text(d)),
        ServerMessageView::Connected(id, name) => tagged("Connected"@, user_text(id, name)),
        ServerMessageView::NewUserAdded(id, name) => tagged("NewUserAdded"@, user_text(id, name)),
        ServerMessageView::Disconnected(id, name) => tagged("Disconnected"@, user_text(id, name)),
        ServerMessageView::AllUsers(users) => tagged("AllUsers"@, roster_text(users)),
    }
}

// ---------------------------------------------------------------------------
// What a decoder accepts
// ---------------------------------------------------------------------------

/// The pair of a number and a string that is written as a list from `i` on,
/// and the position behind it.
pub open spec fn user_at(s: Seq<char>, i: int) -> Option<(UserView, int)> {
    match punct_at(s, i, '[') {
        None => None,
        Some(a) => match number_token(s, a) {
            None => None,
            Some((id, b)) => match punct_at(s, b, ',') {
                None => None,
                Some(c) => match string_token(s, c) {
                    None => None,
                    Some((name, d)) => match punct_at(s, d, ']') {
                        None => None,
                        Some(e) => Some(((id, name), e)),
                    },
                },
            },
        },
    }
}

/// One or more pairs from `i` on, separated by commas and closed by `]`,
/// and the position behind the `]`.
pub open spec fn users_at(s: Seq<char>, i: int) -> Option<(Seq<UserView>, int)>
    decreases s.len() - i,
{
    match user_at(s, i) {
        None => None,
        Some((user, b)) => match punct_at(s, b, ']') {
            Some(e) => Some((seq![user], e)),
            None => match punct_at(s, b, ',') {
                None => None,
                Some(c) => if c > i {
                    match users_at(s, c) {
                        None => None,
                        Some((rest, e)) => Some((seq![user] + rest, e)),
                    }
                } else {
                    None
                },
            },
        },
    }
}

/// The roster that is written as a list of pairs from `i` on, and the
/// position behind it.
pub open spec fn roster_at(s: Seq<char>, i: int) -> Option<(Seq<UserView>, int)> {
    match punct_at(s, i, '[') {
        None => None,
        Some(a) => match punct_at(s, a, ']') {
            Some(e) => Some((Seq::<UserView>::empty(), e)),
            None => users_at(s, a),
        },
    }
}

/// What has been read of the members of a chat message.
pub struct Members {
    pub id: Option<u32>,
    pub name: Option<Seq<char>>,
    pub data: Option<Seq<char>>,
}

/// How many of the three members have not been read yet.
pub open spec fn missing(got: Members) -> nat {
    (if got.id is None {
        1nat
    } else {
        0nat
    }) + (if got.name is None {
        1nat
    } else {
        0nat
    }) + (if got.data is None {
        1nat
    } else {
        0nat
    })
}

/// Where the member that was read last ends at `i`: the chat message and
/// the position behind the closing `}` once all three members are there;
/// before that a comma and the remaining members.
pub open spec fn members_end_at(s: Seq<char>, i: int, got: Members) -> Option<
    (MessageDataView, int),
>
    decreases missing(got), 1nat,
{
    if missing(got) == 0 {
        match punct_at(s, i, '}') {
            None => None,
            Some(e) => Some(
                (MessageDataView { id: got.id->0, name: got.name->0, data: got.data->0 }, e),
            ),
        }
    } else {
        match punct_at(s, i, ',') {
            None => None,
            Some(a) => members_at(s, a, got),
        }
    }
}

/// The members of a chat message from `i` on, where `got` holds those that
/// were read before `i`.
///
/// A member is a key, a colon and a value. The keys are `id`, whose value
/// is a number, and `name` and `data`, whose values are strings. The
/// members may come in any order; each must come once and no other may
/// come.
pub open spec fn members_at(s: Seq<char>, i: int, got: Members) -> Option<(MessageDataView, int)>
    decreases missing(got), 0nat,
{
    match string_token(s, i) {
        None => None,
        Some((key, a)) => match punct_at(s, a, ':') {
            None => None,
            Some(b) => if key == "id"@ && got.id is None {
                match number_token(s, b) {
                    None => None,
                    Some((id, c)) => members_end_at(
                        s,
                        c,
                        Members { id: Some(id), name: got.name, data: got.data },
                    ),
                }
            } else if key == "name"@ && got.name is None {
                match string_token(s, b) {
                    None => None,
                    Some((name, c)) => members_end_at(
                        s,
                        c,
                        Members { id: got.id, name: Some(name), data: got.data },
                    ),
                }
            } else if key == "data"@ && got.data is None {
                match string_token(s, b) {
                    None => None,
                    Some((data, c)) => members_end_at(
                        s,
                        c,
                        Members { id: got.id, name: got.name, data: Some(data) },
                    ),
                }
            } else {
                None
            },
        },
    }
}

/// The chat message that is written as an object from `i` on, and the
/// position behind it; see [`members_at`].
pub open spec fn message_data_at(s: Seq<char>, i: int) -> Option<(MessageDataView, int)> {
    match punct_at(s, i, '{') {
        None => None,
        Some(a) => members_at(s, a, Members { id: None, name: None, data: None }),
    }
}

/// How a frame opens.
pub enum Opening {
    /// With `{` and a tag; the position is the one behind the tag.
    Tagged(Seq<char>, int),
    /// With a string and no `{`: a variant named without a payload.
    Bare(Seq<char>),
    /// With neither.
    Broken,
}

/// How the frame `s` opens. Only the text up to the end of the tag is
/// looked at.
pub open spec fn opening(s: Seq<char>) -> Opening {
    let start = skip_spaces(s, 0);
    if 0 <= start < s.len() && s[start] == '"' {
        match string_at(s, start) {
            Some((tag, _)) => Opening::Bare(tag),
            None => Opening::Broken,
        }
    } else {
        match punct_at(s, 0, '{') {
            None => Opening::Broken,
            Some(a) => match string_token(s, a) {
                None => Opening::Broken,
                Some((tag, b)) => Opening::Tagged(tag, b),
            },
        }
    }
}

/// Whether the frame is closed at `i`: a `}` and nothing after it.
pub open spec fn closed_at(s: Seq<char>, i: int) -> bool {
    match punct_at(s, i, '}') {
        Some(e) => ends_at(s, e),
        None => false,
    }
}

pub open spec fn is_client_tag(tag: Seq<char>) -> bool {
    tag == "UserMessage"@ || tag == "Connect"@
}

pub open spec fn is_server_tag(tag: Seq<char>) -> bool {
    tag == "UserMessage"@ || tag == "Connected"@ || tag == "NewUserAdded"@ || tag
        == "Disconnected"@ || tag == "AllUsers"@
}

/// The payload of the client variant `tag`, which must be one of the
/// family's, from the position `i` behind the tag up to the end of the
/// frame.
pub open spec fn client_payload(s: Seq<char>, tag: Seq<char>, i: int) -> Option<ClientMessageView> {
    match punct_at(s, i, ':') {
        None => None,
        Some(a) => if tag == "UserMessage"@ {
            match message_data_at(s, a) {
                Some((d, e)) => if closed_at(s, e) {
                    Some(ClientMessageView::UserMessage(d))
                } else {
                    None
                },
                None => None,
            }
        } else {
            match string_token(s, a) {
                Some((name, e)) => if closed_at(s, e) {
                    Some(ClientMessageView::Connect(name))
                } else {
                    None
                },
                None => None,
            }
        },
    }
}

/// The payload of the server variant `tag`, which must be one of the
/// family's, from the position `i` behind the tag up to the end of the
/// frame.
pub open spec fn server_payload(s: Seq<char>, tag: Seq<char>, i: int) -> Option<ServerMessageView> {
    match punct_at(s, i, ':') {
        None => None,
        Some(a) => if tag == "UserMessage"@ {
            match message_data_at(s, a) {
                Some((d, e)) => if closed_at(s, e) {
                    Some(ServerMessageView::UserMessage(d))
                } else {
                    None
                },
                None => None,
            }
        } else if tag == "AllUsers"@ {
            match roster_at(s, a) {
                Some((users, e)) => if closed_at(s, e) {
                    Some(ServerMessageView::AllUsers(users))
                } else {
                    None
                },
                None => None,
            }
        } else {
            match user_at(s, a) {
                Some(((id, name), e)) => if !closed_at(s, e) {
                    None
                } else if tag == "Connected"@ {
                    Some(ServerMessageView::Connected(id, name))
                } else if tag == "NewUserAdded"@ {
                    Some(ServerMessageView::NewUserAdded(id, name))
                } else {
                    Some(ServerMessageView::Disconnected(id, name))
                },
                None => None,
            }
        },
    }
}

/// What decoding the frame `s` as a message from a client gives.
///
/// The tag is looked at first: a frame that opens with a tag which the
/// family does not have is an unknown variant, whatever follows the tag.
/// Every other frame that is not the written form of a message, up to white
/// space between its tokens, the choice of escapes in its strings and the
/// order of the members of a chat message, is malformed.
pub open spec fn decode_client(s: Seq<char>) -> Result<ClientMessageView, CodecError> {
    match opening(s) {
        Opening::Broken => Err(CodecError::Malformed),
        Opening::Bare(tag) => if is_client_tag(tag) {
            Err(CodecError::Malformed)
        } else {
            Err(CodecError::UnknownVariant)
        },
        Opening::Tagged(tag, i) => if !is_client_tag(tag) {
            Err(CodecError::UnknownVariant)
        } else {
            match client_payload(s, tag, i) {
                Some(m) => Ok(m),
                None => Err(CodecError::Malformed),
            }
        },
    }
}

/// What decoding the frame `s` as a message from the server gives; see
/// [`decode_client`].
pub open spec fn decode_server(s: Seq<char>) -> Result<ServerMessageView, CodecError> {
    match opening(s) {
        Opening::Broken => Err(CodecError::Malformed),
        Opening::Bare(tag) => if is_server_tag(tag) {
            Err(CodecError::Malformed)
        } else {
            Err(CodecError::UnknownVariant)
        },
        Opening::Tagged(tag, i) => if !is_server_tag(tag) {
            Err(CodecError::UnknownVariant)
        } else {
            match server_payload(s, tag, i) {
                Some(m) => Ok(m),
                None => Err(CodecError::Malformed),
            }
        },
    }
}

/// The view of a decoder's result from a client.
pub open spec fn client_result_view(
    r: Result<WebSocketClientToServerMessage, CodecError>,
) -> Result<ClientMessageView, CodecError> {
    match r {
        Ok(m) => Ok(m@),
        Err(e) => Err(e),
    }
}

/// The view of a decoder's result from the server.
pub open spec fn server_result_view(
    r: Result<WebSocketServerToClientMessage, CodecError>,
) -> Result<ServerMessageView, CodecError> {
    match r {
        Ok(m) => Ok(m@),
        Err(e) => Err(e),
    }
}

// ---------------------------------------------------------------------------
// Writing
// ---------------------------------------------------------------------------

/// The users of a roster are written one after the other.
pub proof fn users_text_push(users: Seq<UserView>, user: UserView)
    ensures
        users_text(users.push(user)) == if users.len() == 0 {
            user_text(user.0, user.1)
        } else {
            users_text(users) + seq![','] + user_text(user.0, user.1)
        },
    decreases users.len(),
{
    if users.len() >= 1 {
        assert(users.push(user).skip(1) =~= users.skip(1).push(user));
        users_text_push(users.skip(1), user);
        if users.len() == 1 {
            assert(users_text(users.push(user)) =~= users_text(users) + seq![','] + user_text(
                user.0,
                user.1,
            ));
        } else {
            assert(users_text(users.push(user)) =~= users_text(users) + seq![','] + user_text(
                user.0,
                user.1,
            ));
        }
    }
}

fn write_user(out: &mut String, id: u32, name: &str)
    ensures
        final(out)@ == old(out)@ + user_text(id, name@),
{
    out.push('[');
    write_number(out, id);
    out.push(',');
    write_string(out, name);
    out.push(']');
    assert(out@ =~= old(out)@ + user_text(id, name@));
}

fn write_roster(out: &mut String, users: &Vec<(u32, String)>)
    ensures
        final(out)@ == old(out)@ + roster_text(roster_view(users@)),
{
    out.push('[');
    let mut i: usize = 0;
    while i < users.len()
        invariant
            i <= users.len(),
            out@ == old(out)@ + seq!['['] + users_text(roster_view(users@).take(i as int)),
        decreases users.len() - i,
    {
        proof {
            let all = roster_view(users@);
            assert(all.take(i + 1) =~= all.take(i as int).push(all[i as int]));
            users_text_push(all.take(i as int), all[i as int]);
        }
        if i > 0 {
            out.push(',');
        }
        write_user(out, users[i].0, users[i].1.as_str());
        i = i + 1;
        assert(out@ =~= old(out)@ + seq!['['] + users_text(roster_view(users@).take(i as int)));
    }
    assert(roster_view(users@).take(users.len() as int) =~= roster_view(users@));
    out.push(']');
    assert(out@ =~= old(out)@ + roster_text(roster_view(users@)));
}

fn write_message_data(out: &mut String, d: &MessageData)
    ensures
        final(out)@ == old(out)@ + message_data_text(d@),
{
    out.push('{');
    write_string(out, "id");
    out.push(':');
    write_number(out, d.id);
    out.push(',');
    write_string(out, "name");
    out.push(':');
    write_string(out, d.name.as_str());
    out.push(',');
    write_string(out, "data");
    out.push(':');
    write_string(out, d.data.as_str());
    out.push('}');
    assert(out@ =~= old(out)@ + message_data_text(d@));
}

/// The part of a frame before the payload.
pub open spec fn frame_head(tag: Seq<char>) -> Seq<char> {
    seq!['{'] + quote(tag) + seq![':']
}

fn open_frame(tag: &str) -> (out: String)
    ensures
        out@ == frame_head(tag@),
{
    let mut out = String::new();
    out.push('{');
    write_string(&mut out, tag);
    out.push(':');
    assert(out@ =~= frame_head(tag@));
    out
}

impl WebSocketClientToServerMessage {
    /// The text frame of the message. Decoding it gives the message back.
    pub fn encode(&self) -> (frame: String)
        ensures
            frame@ == client_text(self@),
            decode_client(frame@) == Ok::<ClientMessageView, CodecError>(self@),
    {
        proof {
            client_round_trip(self@);
        }
        match self {
            WebSocketClientToServerMessage::UserMessage(d) => {
                let mut out = open_frame("UserMessage");
                write_message_data(&mut out, d);
                out.push('}');
                assert(out@ =~= client_text(self@));
                out
            },
            WebSocketClientToServerMessage::Connect(name) => {
                let mut out = open_frame("Connect");
                write_string(&mut out, name.as_str());
                out.push('}');
                assert(out@ =~= client_text(self@));
                out
            },
        }
    }
}

impl WebSocketServerToClientMessage {
    /// The text frame of the message. Decoding it gives the message back.
    pub fn encode(&self) -> (frame: String)
        ensures
            frame@ == server_text(self@),
            decode_server(frame@) == Ok::<ServerMessageView, CodecError>(self@),
    {
        proof {
            server_round_trip(self@);
        }
        match self {
            WebSocketServerToClientMessage::UserMessage(d) => {
                let mut out = open_frame("UserMessage");
                write_message_data(&mut out, d);
                out.push('}');
                assert(out@ =~= server_text(self@));
                out
            },
            WebSocketServerToClientMessage::Connected(id, name) => {
                let mut out = open_frame("Connected");
                write_user(&mut out, *id, name.as_str());
                out.push('}');
                assert(out@ =~= server_text(self@));
                out
            },
            WebSocketServerToClientMessage::NewUserAdded(id, name) => {
                let mut out = open_frame("NewUserAdded");
                write_user(&mut out, *id, name.as_str());
                out.push('}');
                assert(out@ =~= server_text(self@));
                out
            },
            WebSocketServerToClientMessage::Disconnected(id, name) => {
                let mut out = open_frame("Disconnected");
                write_user(&mut out, *id, name.as_str());
                out.push('}');
                assert(out@ =~= server_text(self@));
                out
            },
            WebSocketServerToClientMessage::AllUsers(users) => {
                let mut out = open_frame("AllUsers");
                write_roster(&mut out, users);
                out.push('}');
                assert(out@ =~= server_text(self@));
                out
            },
        }
    }
}

// ---------------------------------------------------------------------------
// Reading
// ---------------------------------------------------------------------------

fn is_text(found: &String, text: &str) -> (r: bool)
    ensures
        r == (found@ == text@),
{
    let wanted = String::from_str(text);
    *found == wanted
}

fn read_user(s: &Vec<char>, i: usize) -> (r: Option<((u32, String), usize)>)
    requires
        i <= s.len(),
    ensures
        match user_at(s@, i as int) {
            Some((user, j)) => r matches Some((found, k)) && found.0 == user.0 && found.1@
                == user.1 && k == j && i < j <= s.len(),
            None => r is None,
        },
{
    let a = pass_punct(s, i, '[')?;
    let (id, b) = read_number_token(s, a)?;
    let c = pass_punct(s, b, ',')?;
    let (name, d) = read_string_token(s, c)?;
    let e = pass_punct(s, d, ']')?;
    Some(((id, name), e))
}

/// What `users_at` gives at `i` when the users `done` were read before `i`.
pub open spec fn users_after(done: Seq<UserView>, s: Seq<char>, i: int) -> Option<
    (Seq<UserView>, int),
> {
    match users_at(s, i) {
        Some((rest, e)) => Some((done + rest, e)),
        None => None,
    }
}

fn read_roster(s: &Vec<char>, i: usize) -> (r: Option<(Vec<(u32, String)>, usize)>)
    requires
        i <= s.len(),
    ensures
        match roster_at(s@, i as int) {
            Some((users, j)) => r matches Some((found, k)) && roster_view(found@) == users && k
                == j && i < j <= s.len(),
            None => r is None,
        },
{
    let a = pass_punct(s, i, '[')?;
    if let Some(e) = pass_punct(s, a, ']') {
        let none: Vec<(u32, String)> = Vec::new();
        assert(roster_view(none@) =~= Seq::<UserView>::empty());
        return Some((none, e));
    }
    let mut users: Vec<(u32, String)> = Vec::new();
    let mut j: usize = a;
    assert(roster_view(users@) =~= Seq::<UserView>::empty());
    assert(users_after(roster_view(users@), s@, j as int) == users_at(s@, a as int)) by {
        match users_at(s@, a as int) {
            Some((rest, e)) => {
                assert(Seq::<UserView>::empty() + rest =~= rest);
            },
            None => {},
        }
    }
    loop
        invariant
            i < a <= j <= s.len(),
            roster_at(s@, i as int) == users_after(roster_view(users@), s@, j as int),
        decreases s.len() - j,
    {
        let (user, b) = match read_user(s, j) {
            Some(x) => x,
            None => {
                return None;
            },
        };
        let ghost before = roster_view(users@);
        let ghost one = (user.0, user.1@);
        users.push(user);
        proof {
            assert(roster_view(users@) =~= before.push(one));
            assert(before + seq![one] =~= before.push(one));
            assert forall|rest: Seq<UserView>| before + (seq![one] + rest) == before.push(one)
                + rest by {
                assert(before + (seq![one] + rest) =~= before.push(one) + rest);
            }
        }
        if let Some(e) = pass_punct(s, b, ']') {
            return Some((users, e));
        }
        match pass_punct(s, b, ',') {
            None => {
                return None;
            },
            Some(c) => {
                j = c;
            },
        }
    }
}

/// What has been read of the members of a chat message.
struct MembersRead {
    id: Option<u32>,
    name: Option<String>,
    data: Option<String>,
}

impl MembersRead {
    spec fn view(&self) -> Members {
        Members {
            id: self.id,
            name: match self.name {
                Some(name) => Some(name@),
                None => None,
            },
            data: match self.data {
                Some(data) => Some(data@),
                None => None,
            },
        }
    }
}

fn read_member(s: &Vec<char>, i: usize, got: MembersRead) -> (r: Option<(MembersRead, usize)>)
    requires
        i <= s.len(),
    ensures
        r matches Some((more, c)) ==> i < c <= s.len() && missing(more.view()) + 1 == missing(
            got.view(),
        ),
        members_at(s@, i as int, got.view()) == match r {
            Some((more, c)) => members_end_at(s@, c as int, more.view()),
            None => None,
        },
{
    let (key, a) = read_string_token(s, i)?;
    let b = pass_punct(s, a, ':')?;
    if is_text(&key, "id") && got.id.is_none() {
        let (id, c) = read_number_token(s, b)?;
        Some((MembersRead { id: Some(id), name: got.name, data: got.data }, c))
    } else if is_text(&key, "name") && got.name.is_none() {
        let (name, c) = read_string_token(s, b)?;
        Some((MembersRead { id: got.id, name: Some(name), data: got.data }, c))
    } else if is_text(&key, "data") && got.data.is_none() {
        let (data, c) = read_string_token(s, b)?;
        Some((MembersRead { id: got.id, name: got.name, data: Some(data) }, c))
    } else {
        None
    }
}

fn read_message_data(s: &Vec<char>, i: usize) -> (r: Option<(MessageData, usize)>)
    requires
        i <= s.len(),
    ensures
        match message_data_at(s@, i as int) {
            Some((d, j)) => r matches Some((found, k)) && found@ == d && k == j && i < j
                <= s.len(),
            None => r is None,
        },
{
    let a = pass_punct(s, i, '{')?;
    let mut got = MembersRead { id: None, name: None, data: None };
    let mut at: usize = a;
    let mut left: usize = 3;
    while left > 0
        invariant
            i < at <= s.len(),
            left == missing(got.view()),
            left > 0 ==> message_data_at(s@, i as int) == members_at(s@, at as int, got.view()),
            left == 0 ==> message_data_at(s@, i as int) == members_end_at(
                s@,
                at as int,
                got.view(),
            ),
        decreases left,
    {
        let (more, c) = read_member(s, at, got)?;
        got = more;
        left = left - 1;
        if left > 0 {
            at = pass_punct(s, c, ',')?;
        } else {
            at = c;
        }
    }
    let end = pass_punct(s, at, '}')?;
    match (got.id, got.name, got.data) {
        (Some(id), Some(name), Some(data)) => Some((MessageData { id, name, data }, end)),
        _ => None,
    }
}

fn is_closed(s: &Vec<char>, i: usize) -> (r: bool)
    requires
        i <= s.len(),
    ensures
        r == closed_at(s@, i as int),
{
    match pass_punct(s, i, '}') {
        Some(e) => at_end(s, e),
        None => false,
    }
}

/// How a frame opens, as read.
enum Opened {
    Tagged(String, usize),
    Bare(String),
    Broken,
}

impl Opened {
    spec fn view(&self) -> Opening {
        match self {
            Opened::Tagged(tag, i) => Opening::Tagged(tag@, *i as int),
            Opened::Bare(tag) => Opening::Bare(tag@),
            Opened::Broken => Opening::Broken,
        }
    }
}

fn read_opening(s: &Vec<char>) -> (r: Opened)
    ensures
        r.view() == opening(s@),
        r matches Opened::Tagged(_, i) ==> i <= s.len(),
{
    let start = pass_spaces(s, 0);
    if start < s.len() && s[start] == '"' {
        match read_string(s, start) {
            Some((tag, _)) => Opened::Bare(tag),
            None => Opened::Broken,
        }
    } else {
        match pass_punct(s, 0, '{') {
            None => Opened::Broken,
            Some(a) => match read_string_token(s, a) {
                None => Opened::Broken,
                Some((tag, b)) => Opened::Tagged(tag, b),
            },
        }
    }
}

fn read_client_payload(s: &Vec<char>, tag: &String, i: usize) -> (r: Option<
    WebSocketClientToServerMessage,
>)
    requires
        i <= s.len(),
        is_client_tag(tag@),
    ensures
        match client_payload(s@, tag@, i as int) {
            Some(m) => r matches Some(found) && found@ == m,
            None => r is None,
        },
{
    let a = pass_punct(s, i, ':')?;
    if is_text(tag, "UserMessage") {
        let (d, e) = read_message_data(s, a)?;
        if is_closed(s, e) {
            Some(WebSocketClientToServerMessage::UserMessage(d))
        } else {
            None
        }
    } else {
        let (name, e) = read_string_token(s, a)?;
        if is_closed(s, e) {
            Some(WebSocketClientToServerMessage::Connect(name))
        } else {
            None
        }
    }
}

fn read_server_payload(s: &Vec<char>, tag: &String, i: usize) -> (r: Option<
    WebSocketServerToClientMessage,
>)
    requires
        i <= s.len(),
        is_server_tag(tag@),
    ensures
        match server_payload(s@, tag@, i as int) {
            Some(m) => r matches Some(found) && found@ == m,
            None => r is None,
        },
{
    let a = pass_punct(s, i, ':')?;
    if is_text(tag, "UserMessage") {
        let (d, e) = read_message_data(s, a)?;
        if is_closed(s, e) {
            Some(WebSocketServerToClientMessage::UserMessage(d))
        } else {
            None
        }
    } else if is_text(tag, "AllUsers") {
        let (users, e) = read_roster(s, a)?;
        if is_closed(s, e) {
            Some(WebSocketServerToClientMessage::AllUsers(users))
        } else {
            None
        }
    } else {
        let ((id, name), e) = read_user(s, a)?;
        if !is_closed(s, e) {
            None
        } else if is_text(tag, "Connected") {
            Some(WebSocketServerToClientMessage::Connected(id, name))
        } else if is_text(tag, "NewUserAdded") {
            Some(WebSocketServerToClientMessage::NewUserAdded(id, name))
        } else {
            Some(WebSocketServerToClientMessage::Disconnected(id, name))
        }
    }
}

fn knows_client_tag(tag: &String) -> (r: bool)
    ensures
        r == is_client_tag(tag@),
{
    is_text(tag, "UserMessage") || is_text(tag, "Connect")
}

fn knows_server_tag(tag: &String) -> (r: bool)
    ensures
        r == is_server_tag(tag@),
{
    is_text(tag, "UserMessage") || is_text(tag, "Connected") || is_text(tag, "NewUserAdded")
        || is_text(tag, "Disconnected") || is_text(tag, "AllUsers")
}

impl WebSocketClientToServerMessage {
    /// The message that a text frame from a client holds.
    pub fn decode(frame: &str) -> (r: Result<WebSocketClientToServerMessage, CodecError>)
        ensures
            client_result_view(r) == decode_client(frame@),
    {
        let s = chars_of(frame);
        match read_opening(&s) {
            Opened::Broken => Err(CodecError::Malformed),
            Opened::Bare(tag) => if knows_client_tag(&tag) {
                Err(CodecError::Malformed)
            } else {
                Err(CodecError::UnknownVariant)
            },
            Opened::Tagged(tag, i) => if !knows_client_tag(&tag) {
                Err(CodecError::UnknownVariant)
            } else {
                match read_client_payload(&s, &tag, i) {
                    Some(m) => Ok(m),
                    None => Err(CodecError::Malformed),
                }
            },
        }
    }
}

impl WebSocketServerToClientMessage {
    /// The message that a text frame from the server holds.
    pub fn decode(frame: &str) -> (r: Result<WebSocketServerToClientMessage, CodecError>)
        ensures
            server_result_view(r) == decode_server(frame@),
    {
        let s = chars_of(frame);
        match read_opening(&s) {
            Opened::Broken => Err(CodecError::Malformed),
            Opened::Bare(tag) => if knows_server_tag(&tag) {
                Err(CodecError::Malformed)
            } else {
                Err(CodecError::UnknownVariant)
            },
            Opened::Tagged(tag, i) => if !knows_server_tag(&tag) {
                Err(CodecError::UnknownVariant)
            } else {
                match read_server_payload(&s, &tag, i) {
                    Some(m) => Ok(m),
                    None => Err(CodecError::Malformed),
                }
            },
        }
    }
}

// ---------------------------------------------------------------------------
// What is encoded is decoded to the same message
// ---------------------------------------------------------------------------

/// A punctuation character that stands at `i` is found there.
pub proof fn punct_reads(s: Seq<char>, i: int, c: char)
    requires
        has_at(s, i, seq![c]),
        !is_space(c),
    ensures
        punct_at(s, i, c) == Some(i + 1),
{
    assert(s[i + 0] == seq![c][0]);
}

/// A written pair is read back.
pub proof fn user_round_trip(s: Seq<char>, i: int, id: u32, name: Seq<char>)
    requires
        has_at(s, i, user_text(id, name)),
    ensures
        user_at(s, i) == Some(((id, name), i + user_text(id, name).len())),
{
    let open = seq!['['];
    let number = decimal(id as nat);
    let comma = seq![','];
    let text = quote(name);
    let close = seq![']'];
    has_at_split(s, i, open + number + comma + text, close);
    has_at_split(s, i, open + number + comma, text);
    has_at_split(s, i, open + number, comma);
    has_at_split(s, i, open, number);
    punct_reads(s, i, '[');
    let b = i + 1 + number.len();
    assert(s[b + 0] == comma[0]);
    number_round_trip(s, i + 1, id);
    punct_reads(s, b, ',');
    string_round_trip(s, b + 1, name);
    punct_reads(s, b + 1 + text.len(), ']');
}

/// Written pairs and the closing `]` are read back.
pub proof fn users_round_trip(s: Seq<char>, i: int, users: Seq<UserView>)
    requires
        users.len() >= 1,
        has_at(s, i, users_text(users) + seq![']']),
    ensures
        users_at(s, i) == Some((users, i + users_text(users).len() + 1)),
    decreases users.len(),
{
    let first = user_text(users[0].0, users[0].1);
    let close = seq![']'];
    let b = i + first.len();
    if users.len() == 1 {
        has_at_split(s, i, first, close);
        user_round_trip(s, i, users[0].0, users[0].1);
        punct_reads(s, b, ']');
        assert(seq![users[0]] =~= users);
    } else {
        let comma = seq![','];
        let rest = users.skip(1);
        assert(users_text(users) + close =~= first + (comma + (users_text(rest) + close)));
        has_at_split(s, i, first, comma + (users_text(rest) + close));
        has_at_split(s, b, comma, users_text(rest) + close);
        user_round_trip(s, i, users[0].0, users[0].1);
        assert(s[b + 0] == comma[0]);
        punct_reads(s, b, ',');
        users_round_trip(s, b + 1, rest);
        assert(seq![users[0]] + rest =~= users);
    }
}

/// A written roster is read back.
pub proof fn roster_round_trip(s: Seq<char>, i: int, users: Seq<UserView>)
    requires
        has_at(s, i, roster_text(users)),
    ensures
        roster_at(s, i) == Some((users, i + roster_text(users).len())),
{
    let open = seq!['['];
    let close = seq![']'];
    assert(roster_text(users) =~= open + (users_text(users) + close));
    has_at_split(s, i, open, users_text(users) + close);
    punct_reads(s, i, '[');
    if users.len() == 0 {
        punct_reads(s, i + 1, ']');
        assert(users =~= Seq::<UserView>::empty());
    } else {
        let first = user_text(users[0].0, users[0].1);
        assert(users_text(users)[0] == first[0]);
        assert(s[i + 1 + 0] == (users_text(users) + close)[0]);
        users_round_trip(s, i + 1, users);
    }
}

/// A written member key and its colon are read back.
pub proof fn key_reads(s: Seq<char>, i: int, key: Seq<char>)
    requires
        has_at(s, i, quote(key) + seq![':']),
    ensures
        string_token(s, i) == Some((key, i + quote(key).len())),
        punct_at(s, i + quote(key).len(), ':') == Some(i + quote(key).len() + 1),
{
    has_at_split(s, i, quote(key), seq![':']);
    string_round_trip(s, i, key);
    punct_reads(s, i + quote(key).len(), ':');
}

/// The keys of the members are different words.
pub proof fn keys_differ()
    ensures
        "id"@ != "name"@,
        "id"@ != "data"@,
        "name"@ != "data"@,
{
    reveal_strlit("id");
    reveal_strlit("name");
    reveal_strlit("data");
    assert("id"@.len() == 2);
    assert("name"@.len() == 4);
    assert("name"@[0] == 'n');
    assert("data"@[0] == 'd');
}

/// A written member `id` is read as that member.
proof fn id_member_reads(s: Seq<char>, i: int, id: u32, got: Members)
    requires
        has_at(s, i, quote("id"@) + seq![':'] + decimal(id as nat)),
        i + (quote("id"@) + seq![':'] + decimal(id as nat)).len() < s.len() ==> !is_digit(
            s[i + (quote("id"@) + seq![':'] + decimal(id as nat)).len()],
        ),
        got.id is None,
    ensures
        members_at(s, i, got) == members_end_at(
            s,
            i + (quote("id"@) + seq![':'] + decimal(id as nat)).len(),
            Members { id: Some(id), name: got.name, data: got.data },
        ),
{
    let key = quote("id"@) + seq![':'];
    has_at_split(s, i, key, decimal(id as nat));
    key_reads(s, i, "id"@);
    number_round_trip(s, i + key.len(), id);
}

/// A written member `name` is read as that member.
proof fn name_member_reads(s: Seq<char>, i: int, name: Seq<char>, got: Members)
    requires
        has_at(s, i, quote("name"@) + seq![':'] + quote(name)),
        got.name is None,
    ensures
        members_at(s, i, got) == members_end_at(
            s,
            i + (quote("name"@) + seq![':'] + quote(name)).len(),
            Members { id: got.id, name: Some(name), data: got.data },
        ),
{
    let key = quote("name"@) + seq![':'];
    keys_differ();
    has_at_split(s, i, key, quote(name));
    key_reads(s, i, "name"@);
    string_round_trip(s, i + key.len(), name);
}

/// A written member `data` is read as that member.
proof fn data_member_reads(s: Seq<char>, i: int, data: Seq<char>, got: Members)
    requires
        has_at(s, i, quote("data"@) + seq![':'] + quote(data)),
        got.data is None,
    ensures
        members_at(s, i, got) == members_end_at(
            s,
            i + (quote("data"@) + seq![':'] + quote(data)).len(),
            Members { id: got.id, name: got.name, data: Some(data) },
        ),
{
    let key = quote("data"@) + seq![':'];
    keys_differ();
    has_at_split(s, i, key, quote(data));
    key_reads(s, i, "data"@);
    string_round_trip(s, i + key.len(), data);
}

/// A written chat message is read back.
pub proof fn message_data_round_trip(s: Seq<char>, i: int, d: MessageDataView)
    requires
        has_at(s, i, message_data_text(d)),
    ensures
        message_data_at(s, i) == Some((d, i + message_data_text(d).len())),
{
    let open = seq!['{'];
    let first = quote("id"@) + seq![':'] + decimal(d.id as nat);
    let comma = seq![','];
    let second = quote("name"@) + seq![':'] + quote(d.name);
    let third = quote("data"@) + seq![':'] + quote(d.data);
    let close = seq!['}'];
    assert(message_data_text(d) =~= open + first + comma + second + comma + third + close);
    has_at_split(s, i, open + first + comma + second + comma + third, close);
    has_at_split(s, i, open + first + comma + second + comma, third);
    has_at_split(s, i, open + first + comma + second, comma);
    has_at_split(s, i, open + first + comma, second);
    has_at_split(s, i, open + first, comma);
    has_at_split(s, i, open, first);
    let b = i + 1;
    let e = b + first.len();
    let g = e + 1 + second.len();
    let end = g + 1 + third.len();
    let none = Members { id: None, name: None, data: None };
    let one = Members { id: Some(d.id), name: None, data: None };
    let two = Members { id: Some(d.id), name: Some(d.name), data: None };
    let all = Members { id: Some(d.id), name: Some(d.name), data: Some(d.data) };
    punct_reads(s, i, '{');
    assert(s[e + 0] == comma[0]);
    id_member_reads(s, b, d.id, none);
    punct_reads(s, e, ',');
    name_member_reads(s, e + 1, d.name, one);
    punct_reads(s, g, ',');
    data_member_reads(s, g + 1, d.data, two);
    punct_reads(s, end, '}');
    assert(members_end_at(s, end, all) == Some((d, end + 1)));
    assert(members_end_at(s, g, two) == members_at(s, g + 1, two));
    assert(members_end_at(s, e, one) == members_at(s, e + 1, one));
}

/// Where the payload begins in the frame of the variant `tag`.
pub open spec fn payload_start(tag: Seq<char>) -> int {
    frame_head(tag).len() as int
}

/// How a written frame reads: it opens with its tag, its payload stands
/// behind the colon, and it is closed behind the payload.
pub proof fn frame_reads(s: Seq<char>, tag: Seq<char>, payload: Seq<char>)
    requires
        s == tagged(tag, payload),
    ensures
        opening(s) == Opening::Tagged(tag, payload_start(tag) - 1),
        punct_at(s, payload_start(tag) - 1, ':') == Some(payload_start(tag)),
        has_at(s, payload_start(tag), payload),
        closed_at(s, payload_start(tag) + payload.len()),
{
    let open = seq!['{'];
    let name = quote(tag);
    let colon = seq![':'];
    let close = seq!['}'];
    let at = payload_start(tag);
    has_at_whole(s);
    has_at_split(s, 0, open + name + colon + payload, close);
    has_at_split(s, 0, open + name + colon, payload);
    has_at_split(s, 0, open + name, colon);
    has_at_split(s, 0, open, name);
    assert(s[0] == open[0]);
    punct_reads(s, 0, '{');
    string_round_trip(s, 1, tag);
    punct_reads(s, at - 1, ':');
    punct_reads(s, at + payload.len(), '}');
}

/// The tags of the variants are different words.
pub proof fn tags_differ()
    ensures
        "UserMessage"@ != "Connect"@,
        "UserMessage"@ != "Connected"@,
        "UserMessage"@ != "NewUserAdded"@,
        "UserMessage"@ != "Disconnected"@,
        "UserMessage"@ != "AllUsers"@,
        "Connected"@ != "NewUserAdded"@,
        "Connected"@ != "Disconnected"@,
        "Connected"@ != "AllUsers"@,
        "NewUserAdded"@ != "Disconnected"@,
        "NewUserAdded"@ != "AllUsers"@,
        "Disconnected"@ != "AllUsers"@,
{
    reveal_strlit("UserMessage");
    reveal_strlit("Connect");
    reveal_strlit("Connected");
    reveal_strlit("NewUserAdded");
    reveal_strlit("Disconnected");
    reveal_strlit("AllUsers");
    assert("UserMessage"@.len() == 11);
    assert("Connect"@.len() == 7);
    assert("Connected"@.len() == 9);
    assert("NewUserAdded"@.len() == 12);
    assert("Disconnected"@.len() == 12);
    assert("AllUsers"@.len() == 8);
    assert("NewUserAdded"@[0] == 'N');
    assert("Disconnected"@[0] == 'D');
}

/// Decoding the frame of a message from a client gives that message.
pub proof fn client_round_trip(m: ClientMessageView)
    ensures
        decode_client(client_text(m)) == Ok::<ClientMessageView, CodecError>(m),
{
    tags_differ();
    let s = client_text(m);
    match m {
        ClientMessageView::UserMessage(d) => {
            frame_reads(s, "UserMessage"@, message_data_text(d));
            message_data_round_trip(s, payload_start("UserMessage"@), d);
        },
        ClientMessageView::Connect(name) => {
            frame_reads(s, "Connect"@, quote(name));
            string_round_trip(s, payload_start("Connect"@), name);
        },
    }
}

/// The frame of a chat message from the server reads as that message.
proof fn server_data_frame_reads(d: MessageDataView)
    ensures
        server_payload(
            tagged("UserMessage"@, message_data_text(d)),
            "UserMessage"@,
            payload_start("UserMessage"@) - 1,
        ) == Some(ServerMessageView::UserMessage(d)),
{
    let s = tagged("UserMessage"@, message_data_text(d));
    frame_reads(s, "UserMessage"@, message_data_text(d));
    message_data_round_trip(s, payload_start("UserMessage"@), d);
}

/// The frame of a variant that holds an id and a name reads as that pair.
proof fn server_user_frame_reads(tag: Seq<char>, id: u32, name: Seq<char>)
    requires
        tag != "UserMessage"@,
        tag != "AllUsers"@,
    ensures
        user_at(tagged(tag, user_text(id, name)), payload_start(tag)) == Some(
            ((id, name), payload_start(tag) + user_text(id, name).len()),
        ),
        server_payload(tagged(tag, user_text(id, name)), tag, payload_start(tag) - 1) == Some(
            if tag == "Connected"@ {
                ServerMessageView::Connected(id, name)
            } else if tag == "NewUserAdded"@ {
                ServerMessageView::NewUserAdded(id, name)
            } else {
                ServerMessageView::Disconnected(id, name)
            },
        ),
{
    let s = tagged(tag, user_text(id, name));
    frame_reads(s, tag, user_text(id, name));
    user_round_trip(s, payload_start(tag), id, name);
}

/// The frame of a roster reads as that roster.
proof fn server_roster_frame_reads(users: Seq<UserView>)
    ensures
        server_payload(
            tagged("AllUsers"@, roster_text(users)),
            "AllUsers"@,
            payload_start("AllUsers"@) - 1,
        ) == Some(ServerMessageView::AllUsers(users)),
{
    tags_differ();
    let s = tagged("AllUsers"@, roster_text(users));
    frame_reads(s, "AllUsers"@, roster_text(users));
    roster_round_trip(s, payload_start("AllUsers"@), users);
}

/// Decoding the frame of a message from the server gives that message.
pub proof fn server_round_trip(m: ServerMessageView)
    ensures
        decode_server(server_text(m)) == Ok::<ServerMessageView, CodecError>(m),
{
    tags_differ();
    let s = server_text(m);
    match m {
        ServerMessageView::UserMessage(d) => {
            frame_reads(s, "UserMessage"@, message_data_text(d));
            server_data_frame_reads(d);
        },
        ServerMessageView::Connected(id, name) => {
            frame_reads(s, "Connected"@, user_text(id, name));
            server_user_frame_reads("Connected"@, id, name);
        },
        ServerMessageView::NewUserAdded(id, name) => {
            frame_reads(s, "NewUserAdded"@, user_text(id, name));
            server_user_frame_reads("NewUserAdded"@, id, name);
        },
        ServerMessageView::Disconnected(id, name) => {
            frame_reads(s, "Disconnected"@, user_text(id, name));
            server_user_frame_reads("Disconnected"@, id, name);
        },
        ServerMessageView::AllUsers(users) => {
            frame_reads(s, "AllUsers"@, roster_text(users));
            server_roster_frame_reads(users);
        },
    }
}

/// The two families are told apart by their tags: a frame of a variant
/// that only the server sends is an unknown variant to a decoder of client
/// messages, and a `Connect` frame is an unknown variant to a decoder of
/// server messages. Only a chat message reads the same in both families.
pub proof fn other_family_is_unknown(from_server: ServerMessageView, name: Seq<char>)
    requires
        !(from_server is UserMessage),
    ensures
        decode_client(server_text(from_server)) == Err::<ClientMessageView, CodecError>(
            CodecError::UnknownVariant,
        ),
        decode_server(client_text(ClientMessageView::Connect(name))) == Err::<
            ServerMessageView,
            CodecError,
        >(CodecError::UnknownVariant),
{
    tags_differ();
    reveal_strlit("Connect");
    reveal_strlit("Connected");
    reveal_strlit("NewUserAdded");
    reveal_strlit("Disconnected");
    reveal_strlit("AllUsers");
    assert("Connect"@.len() == 7);
    assert("Connected"@.len() == 9);
    assert("NewUserAdded"@.len() == 12);
    assert("Disconnected"@.len() == 12);
    assert("AllUsers"@.len() == 8);
    frame_reads(client_text(ClientMessageView::Connect(name)), "Connect"@, quote(name));
    match from_server {
        ServerMessageView::UserMessage(_) => {},
        ServerMessageView::Connected(id, n) => {
            frame_reads(server_text(from_server), "Connected"@, user_text(id, n));
        },
        ServerMessageView::NewUserAdded(id, n) => {
            frame_reads(server_text(from_server), "NewUserAdded"@, user_text(id, n));
        },
        ServerMessageView::Disconnected(id, n) => {
            frame_reads(server_text(from_server), "Disconnected"@, user_text(id, n));
        },
        ServerMessageView::AllUsers(users) => {
            frame_reads(server_text(from_server), "AllUsers"@, roster_text(users));
        },
    }
}

} // verus!
