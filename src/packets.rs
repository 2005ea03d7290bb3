//! The packets exchanged with clients, and what the hub asks of its
//! surroundings.

use vstd::prelude::*;

use crate::auth::UserInfo;
use crate::error::ClientError;
use crate::session::{InternalId, User};

verus! {

/// Why a request succeeded.
#[derive(Debug, Clone, Copy, PartialEq, Eq, Structural)]
pub enum SuccessReason {
    Login,
    Ban,
    Unban,
}

/// A clientbound packet.
#[derive(Debug)]
pub enum ClientPacket {
    MojangInfo { session_hash: String },
    NewJWT { token: String },
    Message { author_info: UserInfo, content: String },
    PrivateMessage { author_info: UserInfo, content: String },
    UserCount { connections: u32, logged_in: u32 },
    Success { reason: SuccessReason },
    Error { message: ClientError },
}

/// A serverbound packet.
#[derive(Debug)]
pub enum ServerPacket {
    RequestMojangInfo,
    LoginMojang(User),
    LoginJWT { token: String, allow_messages: bool },
    RequestJWT,
    Message { content: String },
    PrivateMessage { receiver: String, content: String },
    BanUser { user: u128 },
    UnbanUser { user: u128 },
    RequestUserCount,
}

/// What the hub asks its surroundings to do.
#[derive(Debug)]
pub enum Action {
    /// Deliver a packet to a connection.
    Send { to: InternalId, packet: ClientPacket },
    /// Ask Mojang at `url` whether `user` joined; the answer goes to
    /// `ChatServer::finish_mojang_login`.
    CheckMojang { id: InternalId, user: User, url: String },
    /// Mint a token for `user`; the result goes to `ChatServer::token_issued`.
    IssueToken { id: InternalId, info: UserInfo },
    /// Check a token; the result goes to `ChatServer::finish_jwt_login`.
    CheckToken { id: InternalId, token: String, allow_messages: bool },
    /// Append `line` to the ban file; the outcome goes to `ChatServer::ban_saved`.
    AppendBan { id: InternalId, line: String },
    /// Write `lines` as the whole ban file; the outcome goes to
    /// `ChatServer::ban_saved`.
    RewriteBans { id: InternalId, lines: Vec<String> },
}

/// A single packet for connection `to`.
pub open spec fn reply_to(to: InternalId, packet: ClientPacket) -> Seq<Action> {
    seq![Action::Send { to, packet }]
}

/// A single error for connection `to`.
pub open spec fn error_to(to: InternalId, e: ClientError) -> Seq<Action> {
    reply_to(to, ClientPacket::Error { message: e })
}

pub(crate) fn reply(to: InternalId, packet: ClientPacket) -> (r: Vec<Action>)
    ensures
        r@ == reply_to(to, packet),
{
    let mut r = Vec::new();
    r.push(Action::Send { to, packet });
    proof {
        assert(r@ =~= reply_to(to, packet));
    }
    r
}

pub(crate) fn error_reply(to: InternalId, e: ClientError) -> (r: Vec<Action>)
    ensures
        r@ == error_to(to, e),
{
    reply(to, ClientPacket::Error { message: e })
}

/// One copy of `packet` for each of `ids`, in order.
pub open spec fn deliveries(ids: Seq<InternalId>, packet: ClientPacket) -> Seq<Action> {
    ids.map_values(|to: InternalId| Action::Send { to, packet })
}

/// The broadcast of `content` by `author`.
pub open spec fn message_packet(author: User, content: String) -> ClientPacket {
    ClientPacket::Message { author_info: UserInfo { name: author.name, uuid: author.uuid }, content }
}

/// The private message `content` from `author`.
pub open spec fn private_packet(author: User, content: String) -> ClientPacket {
    ClientPacket::PrivateMessage {
        author_info: UserInfo { name: author.name, uuid: author.uuid },
        content,
    }
}

/// A message that passes the hub reaches every recipient with its content
/// as sent: each delivery of a broadcast or a private message carries the
/// very content and author that went in.
pub proof fn lemma_deliveries_keep_content(ids: Seq<InternalId>, author: User, content: String)
    ensures
        forall|k: int|
            0 <= k < ids.len() ==> (#[trigger] deliveries(ids, message_packet(author, content))[k]
                matches Action::Send { to, packet: ClientPacket::Message { author_info, content: c } }
                && to == ids[k] && c == content && author_info.name == author.name
                && author_info.uuid == author.uuid),
        forall|k: int|
            0 <= k < ids.len() ==> (#[trigger] deliveries(ids, private_packet(author, content))[k]
                matches Action::Send {
                to,
                packet: ClientPacket::PrivateMessage { author_info, content: c },
            } && to == ids[k] && c == content && author_info.name == author.name
                && author_info.uuid == author.uuid),
{
}

} // verus!
