//! The decisions of one connection's relay: what an inbound frame leads to,
//! and what a stored message sends to the rest of its group.
use vstd::prelude::*;
use crate::clock::{now, rfc3339, rfc3339_of, Timestamp};
use crate::ids::{fresh_uuid, hyphenated, uuid_text};
use crate::json::{json_quoted, json_text_member, quote, text_member};
use crate::registry::{offers_for, Broadcast, ConnectionManager, Offer};

verus! {

/// How many frames a connection's outbound queue holds; past that, a
/// broadcast drops the newest frame for that recipient alone.
pub const OUTBOUND_CAPACITY: usize = 256;

/// Who a connection belongs to and the group it is scoped to, as the
/// admission gate established them.
#[derive(Clone, Debug)]
pub struct Admission {
    pub user_id: u128,
    pub joint_id: u128,
    pub username: String,
}

/// A chat message as it is stored: accepted from `user_id` for `joint_id`.
#[derive(Clone, Debug)]
pub struct ChatMessage {
    pub id: u128,
    pub joint_id: u128,
    pub user_id: u128,
    pub content: String,
    pub created_at: Timestamp,
}

/// A frame read from the transport.
#[derive(Clone, Debug)]
pub enum InboundFrame {
    Text(String),
    Close,
    /// Binary, ping and pong frames.
    Other,
}

/// What the reader does with a frame.
#[derive(Clone, Debug)]
pub enum ReaderStep {
    /// Store the message; only once it is stored, send it on.
    Persist(ChatMessage),
    /// The frame is not a chat message; read on.
    Ignore,
    /// The peer closed the connection.
    Stop,
}

/// The member that carries a chat frame's text.
pub open spec fn content_key() -> Seq<char> {
    "content"@
}

/// The frame that recipients get for a stored message.
pub open spec fn outgoing_frame(
    id: u128,
    joint_id: u128,
    user_id: u128,
    username: Seq<char>,
    content: Seq<char>,
    created_at: Seq<char>,
) -> Seq<char> {
    "{\"id\":"@ + json_quoted(hyphenated(id)) + ",\"groupId\":"@ + json_quoted(hyphenated(joint_id))
        + ",\"senderId\":"@ + json_quoted(hyphenated(user_id)) + ",\"username\":"@ + json_quoted(
        username,
    ) + ",\"content\":"@ + json_quoted(content) + ",\"createdAt\":"@ + json_quoted(created_at)
        + "}"@
}

/// The message that `content`, read from a chat frame of `session`, becomes
/// under the identifier `id` and the instant `created_at`. A frame without
/// text becomes none.
pub fn message_for(session: &Admission, content: Option<String>, id: u128, created_at: Timestamp) -> (r:
    Option<ChatMessage>)
    ensures
        match content {
            None => r is None,
            Some(c) => r matches Some(m) && m.id == id && m.joint_id == session.joint_id
                && m.user_id == session.user_id && m.content@ == c@ && m.created_at == created_at,
        },
{
    match content {
        None => None,
        Some(c) => Some(
            ChatMessage {
                id,
                joint_id: session.joint_id,
                user_id: session.user_id,
                content: c,
                created_at,
            },
        ),
    }
}

/// Decides what the reader does with `frame`. A text frame that holds a JSON
/// object with a string member `content` becomes a message to store, under a
/// fresh identifier and the current instant; any other text or frame is
/// ignored; a close frame stops the reader.
pub fn on_frame(session: &Admission, frame: InboundFrame) -> (r: ReaderStep)
    ensures
        match frame {
            InboundFrame::Close => r is Stop,
            InboundFrame::Other => r is Ignore,
            InboundFrame::Text(t) => match json_text_member(t@, content_key()) {
                None => r is Ignore,
                Some(c) => r matches ReaderStep::Persist(m) && m.joint_id == session.joint_id
                    && m.user_id == session.user_id && m.content@ == c && rfc3339_of(
                    m.created_at.seconds,
                    m.created_at.nanos,
                ) is Some,
            },
        },
{
    match frame {
        InboundFrame::Close => ReaderStep::Stop,
        InboundFrame::Other => ReaderStep::Ignore,
        InboundFrame::Text(t) => {
            proof {
                reveal_strlit("content");
            }
            let content = text_member(t.as_str(), "content");
            match content {
                None => ReaderStep::Ignore,
                Some(_) => {
                    let id = fresh_uuid();
                    let created_at = now();
                    match message_for(session, content, id, created_at) {
                        Some(m) => ReaderStep::Persist(m),
                        None => ReaderStep::Ignore,
                    }
                },
            }
        },
    }
}

/// Appends the JSON string literal of `value` to `out`.
fn push_quoted(out: &mut String, value: &str)
    ensures
        final(out)@ == old(out)@ + json_quoted(value@),
{
    let q = quote(value);
    out.append(q.as_str());
}

/// The frame that recipients get for `message`, sent under `username`.
/// There is none only where the message's instant has no RFC 3339 form.
pub fn outgoing_payload(message: &ChatMessage, username: &str) -> (r: Option<String>)
    ensures
        match rfc3339_of(message.created_at.seconds, message.created_at.nanos) {
            None => r is None,
            Some(ts) => r matches Some(p) && p@ == outgoing_frame(
                message.id,
                message.joint_id,
                message.user_id,
                username@,
                message.content@,
                ts,
            ),
        },
{
    let created = rfc3339(message.created_at);
    match created {
        None => None,
        Some(ts) => {
            proof {
                reveal_strlit("{\"id\":");
                reveal_strlit(",\"groupId\":");
                reveal_strlit(",\"senderId\":");
                reveal_strlit(",\"username\":");
                reveal_strlit(",\"content\":");
                reveal_strlit(",\"createdAt\":");
                reveal_strlit("}");
            }
            let mut out = String::from_str("{\"id\":");
            push_quoted(&mut out, uuid_text(message.id).as_str());
            out.append(",\"groupId\":");
            push_quoted(&mut out, uuid_text(message.joint_id).as_str());
            out.append(",\"senderId\":");
            push_quoted(&mut out, uuid_text(message.user_id).as_str());
            out.append(",\"username\":");
            push_quoted(&mut out, username);
            out.append(",\"content\":");
            push_quoted(&mut out, message.content.as_str());
            out.append(",\"createdAt\":");
            push_quoted(&mut out, ts.as_str());
            out.append("}");
            Some(out)
        },
    }
}

/// The frame of `message` under `username`, where its instant has an
/// RFC 3339 form.
pub open spec fn frame_of(message: ChatMessage, username: Seq<char>) -> Option<Seq<char>> {
    match rfc3339_of(message.created_at.seconds, message.created_at.nanos) {
        None => None,
        Some(ts) => Some(
            outgoing_frame(
                message.id,
                message.joint_id,
                message.user_id,
                username,
                message.content@,
                ts,
            ),
        ),
    }
}

/// Sends a message on after the attempt to store it: only if it was stored,
/// its frame goes to the queue of every other member of the sender's group
/// that is online. A message that was not stored is offered to no queue.
pub fn relay_stored(
    manager: &ConnectionManager,
    session: &Admission,
    message: &ChatMessage,
    stored: bool,
) -> (r: Broadcast)
    ensures
        r.consistent(),
        r.offers@ == if stored && frame_of(*message, session.username@) is Some {
            offers_for(
                manager@,
                session.joint_id,
                session.user_id,
                frame_of(*message, session.username@)->0,
            )
        } else {
            Seq::<Offer>::empty()
        },
{
    if !stored {
        return Broadcast::none();
    }
    match outgoing_payload(message, session.username.as_str()) {
        None => Broadcast::none(),
        Some(payload) => manager.broadcast_to_joint(session.joint_id, payload, session.user_id),
    }
}

} // verus!
