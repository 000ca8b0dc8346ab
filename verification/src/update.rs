//! Inbound updates, reduced to what routing and duplicate detection read,
//! and the identity key drawn from each update variant.

use vstd::prelude::*;

use crate::digits::dec_int;
use crate::digits::int64_to_decimal;
use crate::digits::parse_i64_or_zero;
use crate::digits::parse_or_zero;

verus! {

/// A chat message, reduced to the fields routing reads: the conversation
/// (chat) it belongs to and its message id.
#[derive(Debug, Clone, PartialEq)]
pub struct Message {
    pub chat_id: i64,
    pub id: i64,
}

/// A channel post, reduced in the same way; its `chat_id` is the
/// channel's raw chat id.
#[derive(Debug, Clone, PartialEq)]
pub struct ChannelPost {
    pub chat_id: i64,
    pub id: i64,
}

/// A callback query: the press of an inline keyboard button.
#[derive(Debug, Clone, PartialEq)]
pub struct CallbackQuery {
    /// Unique identifier for this query.
    pub id: String,
    /// Global identifier of the chat the button was sent to, as text.
    pub chat_instance: String,
    /// Data associated with the callback button.
    pub data: Option<String>,
}

/// A callback query as the wire carries it, field for field.
#[derive(Debug, Clone, PartialEq)]
pub struct RawCallback {
    /// Unique identifier for this query.
    pub id: String,
    /// Global identifier of the chat the button was sent to, as text.
    pub chat_instance: String,
    /// Data associated with the callback button.
    pub data: Option<String>,
}

impl CallbackQuery {
    /// The query a raw wire record denotes.
    pub fn from_raw(raw: RawCallback) -> (r: CallbackQuery)
        ensures
            r.id == raw.id,
            r.chat_instance == raw.chat_instance,
            r.data == raw.data,
    {
        CallbackQuery { id: raw.id, chat_instance: raw.chat_instance, data: raw.data }
    }
}

/// The payload variant of an inbound update.
#[derive(Debug, Clone, PartialEq)]
pub enum UpdateKind {
    Message(Message),
    EditedMessage(Message),
    ChannelPost(ChannelPost),
    EditedChannelPost(ChannelPost),
    CallbackQuery(CallbackQuery),
    Unknown,
}

/// One inbound event: a server-assigned sequence number and a payload.
#[derive(Debug, Clone, PartialEq)]
pub struct Update {
    /// The server-assigned, non-decreasing sequence number.
    pub id: i64,
    pub kind: UpdateKind,
}

/// The identity key of an update: the conversation it belongs to and a
/// per-conversation message key. Two updates with the same key are
/// redeliveries of one event.
#[derive(Debug, Clone, PartialEq)]
pub struct UpdateKey {
    pub chat: i64,
    pub msg: String,
}

impl View for UpdateKey {
    type V = (int, Seq<char>);

    open spec fn view(&self) -> (int, Seq<char>) {
        (self.chat as int, self.msg@)
    }
}

/// The conversation an update belongs to: the chat id of a message or
/// post, the number a callback's `chat_instance` denotes (zero where it
/// denotes none), and zero for an unrecognized payload.
pub open spec fn spec_conversation(u: Update) -> int {
    match u.kind {
        UpdateKind::Message(m) => m.chat_id as int,
        UpdateKind::EditedMessage(m) => m.chat_id as int,
        UpdateKind::ChannelPost(p) => p.chat_id as int,
        UpdateKind::EditedChannelPost(p) => p.chat_id as int,
        UpdateKind::CallbackQuery(c) => parse_or_zero(c.chat_instance@),
        UpdateKind::Unknown => 0,
    }
}

/// The message key of an update: a message id in decimal, a callback
/// query's own id, or the update's sequence number in decimal for an
/// unrecognized payload.
pub open spec fn spec_message_key(u: Update) -> Seq<char> {
    match u.kind {
        UpdateKind::Message(m) => dec_int(m.id as int),
        UpdateKind::EditedMessage(m) => dec_int(m.id as int),
        UpdateKind::ChannelPost(p) => dec_int(p.id as int),
        UpdateKind::EditedChannelPost(p) => dec_int(p.id as int),
        UpdateKind::CallbackQuery(c) => c.id@,
        UpdateKind::Unknown => dec_int(u.id as int),
    }
}

/// The identity key of an update.
pub open spec fn spec_identity_key(u: Update) -> (int, Seq<char>) {
    (spec_conversation(u), spec_message_key(u))
}

/// Two message updates with different message ids carry different
/// identity keys, whatever their chats: the duplicate filter never
/// conflates two distinct messages.
pub proof fn lemma_distinct_messages_distinct_keys(u1: Update, u2: Update)
    requires
        u1.kind is Message,
        u2.kind is Message,
        u1.kind->Message_0.id != u2.kind->Message_0.id,
    ensures
        spec_identity_key(u1) != spec_identity_key(u2),
{
    let a = u1.kind->Message_0.id as int;
    let b = u2.kind->Message_0.id as int;
    if spec_message_key(u1) == spec_message_key(u2) {
        crate::digits::lemma_dec_int_injective(a, b);
    }
}

/// Computes the identity key of `u` per its payload variant.
pub fn identity_key(u: &Update) -> (k: UpdateKey)
    ensures
        k@ == spec_identity_key(*u),
{
    match &u.kind {
        UpdateKind::Message(m) => UpdateKey { chat: m.chat_id, msg: int64_to_decimal(m.id) },
        UpdateKind::EditedMessage(m) => UpdateKey {
            chat: m.chat_id,
            msg: int64_to_decimal(m.id),
        },
        UpdateKind::ChannelPost(p) => UpdateKey { chat: p.chat_id, msg: int64_to_decimal(p.id) },
        UpdateKind::EditedChannelPost(p) => UpdateKey {
            chat: p.chat_id,
            msg: int64_to_decimal(p.id),
        },
        UpdateKind::CallbackQuery(c) => UpdateKey {
            chat: parse_i64_or_zero(c.chat_instance.as_str()),
            msg: c.id.clone(),
        },
        UpdateKind::Unknown => UpdateKey { chat: 0, msg: int64_to_decimal(u.id) },
    }
}

} // verus!
