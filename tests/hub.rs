use axochat::auth::UserInfo;
use axochat::chat::ChatServer;
use axochat::packets::{Action, ClientPacket, ServerPacket, SuccessReason};
use axochat::session::{InternalId, User};
use axochat::config::{MsgConfig, ModConfig, WDuration};
use axochat::error::ClientError;
use axochat::moderation::Moderation;

const ALICE: u128 = 0x0000_0000_0000_0000_0000_0000_0000_00a1;
const BOB: u128 = 0x0000_0000_0000_0000_0000_0000_0000_00b0;
const MOD: u128 = 0x1234_5678_9abc_def0_1234_5678_9abc_def0;

fn moderation() -> Moderation {
    let moderators = vec![String::from("12345678-9abc-def0-1234-56789abcdef0")];
    Moderation::new(ModConfig::default(), &moderators, &Vec::new()).unwrap()
}

fn hub_with(config: MsgConfig) -> ChatServer {
    ChatServer::new(config, moderation(), true).unwrap()
}

fn hub() -> ChatServer {
    hub_with(MsgConfig::default())
}

fn login(hub: &mut ChatServer, name: &str, uuid: u128, allow_messages: bool) -> InternalId {
    let id = hub.connect().unwrap();
    let info = UserInfo { name: String::from(name), uuid };
    let r = hub.finish_jwt_login(id, Some(info), allow_messages);
    assert_eq!(r.len(), 1);
    assert!(matches!(
        &r[0],
        Action::Send { to, packet: ClientPacket::Success { reason: SuccessReason::Login } } if *to == id
    ));
    id
}

fn message(content: &str) -> ServerPacket {
    ServerPacket::Message { content: String::from(content) }
}

fn is_error_to(a: &Action, id: InternalId, e: ClientError) -> bool {
    matches!(a, Action::Send { to, packet: ClientPacket::Error { message } } if *to == id && *message == e)
}

#[test]
fn two_client_broadcast() {
    let mut hub = hub();
    let a = login(&mut hub, "alice", ALICE, true);
    let b = login(&mut hub, "bob", BOB, true);
    let r = hub.handle(a, message("hi"), 0);
    assert_eq!(r.len(), 2);
    let to_b = r.iter().any(|x| {
        matches!(x, Action::Send { to, packet: ClientPacket::Message { author_info, content } }
            if *to == b && author_info.name == "alice" && author_info.uuid == ALICE && content == "hi")
    });
    assert!(to_b);
    let to_a = r.iter().any(|x| matches!(x, Action::Send { to, .. } if *to == a));
    assert!(to_a);
}

#[test]
fn rate_limit_fourth_message() {
    let config = MsgConfig { max_length: 100, max_messages: 3, count_duration: WDuration::from_secs(60) };
    let mut hub = hub_with(config);
    let a = login(&mut hub, "alice", ALICE, true);
    for i in 0..3u64 {
        let r = hub.handle(a, message("hello"), i * 250_000_000);
        assert_eq!(r.len(), 1);
        assert!(matches!(&r[0], Action::Send { packet: ClientPacket::Message { .. }, .. }));
    }
    let r = hub.handle(a, message("hello"), 900_000_000);
    assert_eq!(r.len(), 1);
    assert!(is_error_to(&r[0], a, ClientError::RateLimited));
    // a minute later the window has moved on
    let r = hub.handle(a, message("hello"), 61_000_000_000);
    assert!(matches!(&r[0], Action::Send { packet: ClientPacket::Message { .. }, .. }));
}

#[test]
fn private_message_to_offline_user_is_dropped() {
    let mut hub = hub();
    let a = login(&mut hub, "alice", ALICE, true);
    let packet = ServerPacket::PrivateMessage { receiver: String::from("bob"), content: String::from("hi") };
    let r = hub.handle(a, packet, 0);
    assert!(r.is_empty());
}

#[test]
fn private_message_rejected() {
    let mut hub = hub();
    let a = login(&mut hub, "alice", ALICE, true);
    let _b = login(&mut hub, "bob", BOB, false);
    let packet = ServerPacket::PrivateMessage { receiver: String::from("bob"), content: String::from("hi") };
    let r = hub.handle(a, packet, 0);
    assert_eq!(r.len(), 1);
    assert!(is_error_to(&r[0], a, ClientError::PrivateMessageNotAccepted));
}

#[test]
fn private_message_delivered() {
    let mut hub = hub();
    let a = login(&mut hub, "alice", ALICE, true);
    let b = login(&mut hub, "bob", BOB, true);
    let packet = ServerPacket::PrivateMessage { receiver: String::from("bob"), content: String::from("psst") };
    let r = hub.handle(a, packet, 0);
    assert_eq!(r.len(), 1);
    assert!(matches!(&r[0], Action::Send { to, packet: ClientPacket::PrivateMessage { author_info, content } }
        if *to == b && author_info.name == "alice" && content == "psst"));
}

#[test]
fn mojang_uuid_mismatch() {
    let mut hub = hub();
    let a = hub.connect().unwrap();
    let r = hub.handle(a, ServerPacket::RequestMojangInfo, 0);
    assert_eq!(r.len(), 1);
    let hash = match &r[0] {
        Action::Send { to, packet: ClientPacket::MojangInfo { session_hash } } if *to == a => session_hash.clone(),
        other => panic!("unexpected {:?}", other),
    };
    assert!(!hash.is_empty() && hash.len() <= 40);
    assert!(hash.chars().all(|c| c.is_ascii_digit() || ('a'..='f').contains(&c)));
    let user = User { name: String::from("x"), uuid: 1, allow_messages: true };
    let r = hub.handle(a, ServerPacket::LoginMojang(user), 0);
    assert_eq!(r.len(), 1);
    let user = match &r[0] {
        Action::CheckMojang { id, user, url } if *id == a => {
            assert!(url.starts_with("https://sessionserver.mojang.com/session/minecraft/hasJoined?"));
            assert!(url.contains("username=x"));
            assert!(url.contains(&format!("serverId={}", hash)));
            user.duplicate()
        }
        other => panic!("unexpected {:?}", other),
    };
    let reply = Some(String::from("00000000000000000000000000000002"));
    let r = hub.finish_mojang_login(a, user, reply);
    assert_eq!(r.len(), 1);
    assert!(is_error_to(&r[0], a, ClientError::InvalidId));
    let r = hub.handle(a, message("hi"), 0);
    assert_eq!(r.len(), 1);
    assert!(is_error_to(&r[0], a, ClientError::NotLoggedIn));
}

#[test]
fn mojang_login_completes() {
    let mut hub = hub();
    let a = hub.connect().unwrap();
    let r = hub.handle(a, ServerPacket::LoginMojang(User { name: String::from("x"), uuid: 1, allow_messages: true }), 0);
    assert!(is_error_to(&r[0], a, ClientError::MojangRequestMissing));
    hub.handle(a, ServerPacket::RequestMojangInfo, 0);
    let user = User { name: String::from("x"), uuid: 1, allow_messages: true };
    let r = hub.finish_mojang_login(a, user, Some(String::from("00000000-0000-0000-0000-000000000001")));
    assert!(matches!(&r[0], Action::Send { packet: ClientPacket::Success { reason: SuccessReason::Login }, .. }));
    let user = User { name: String::from("x"), uuid: 1, allow_messages: true };
    let r = hub.handle(a, ServerPacket::LoginMojang(user), 0);
    assert!(is_error_to(&r[0], a, ClientError::AlreadyLoggedIn));
    let r = hub.finish_mojang_login(a, User { name: String::from("x"), uuid: 1, allow_messages: true }, None);
    assert!(is_error_to(&r[0], a, ClientError::AlreadyLoggedIn));
}

#[test]
fn mojang_failure_and_dropped_connection() {
    let mut hub = hub();
    let a = hub.connect().unwrap();
    hub.handle(a, ServerPacket::RequestMojangInfo, 0);
    let user = User { name: String::from("x"), uuid: 1, allow_messages: true };
    let r = hub.finish_mojang_login(a, user, None);
    assert!(is_error_to(&r[0], a, ClientError::LoginFailed));
    hub.disconnect(a);
    let user = User { name: String::from("x"), uuid: 1, allow_messages: true };
    let r = hub.finish_mojang_login(a, user, Some(String::from("00000000000000000000000000000001")));
    assert!(r.is_empty());
}

#[test]
fn ban_flow() {
    let mut hub = hub();
    let m = login(&mut hub, "mod", MOD, true);
    let a = login(&mut hub, "alice", ALICE, true);
    let r = hub.handle(m, ServerPacket::BanUser { user: ALICE }, 0);
    assert_eq!(r.len(), 1);
    match &r[0] {
        Action::AppendBan { id, line } => {
            assert_eq!(*id, m);
            assert_eq!(line, "00000000-0000-0000-0000-0000000000a1");
        }
        other => panic!("unexpected {:?}", other),
    }
    let r = hub.ban_saved(m, SuccessReason::Ban, true);
    assert!(matches!(&r[0], Action::Send { to, packet: ClientPacket::Success { reason: SuccessReason::Ban } } if *to == m));
    let r = hub.handle(a, message("hi"), 0);
    assert_eq!(r.len(), 1);
    assert!(is_error_to(&r[0], a, ClientError::Banned));
    let r = hub.handle(m, ServerPacket::BanUser { user: ALICE }, 0);
    assert!(matches!(&r[0], Action::Send { packet: ClientPacket::Success { reason: SuccessReason::Ban }, .. }));
    let r = hub.handle(m, ServerPacket::UnbanUser { user: ALICE }, 0);
    match &r[0] {
        Action::RewriteBans { id, lines } => {
            assert_eq!(*id, m);
            assert!(lines.is_empty());
        }
        other => panic!("unexpected {:?}", other),
    }
    let r = hub.ban_saved(m, SuccessReason::Unban, true);
    assert!(matches!(&r[0], Action::Send { packet: ClientPacket::Success { reason: SuccessReason::Unban }, .. }));
    let r = hub.handle(a, message("hi"), 0);
    assert_eq!(r.len(), 2);
    assert!(matches!(&r[0], Action::Send { packet: ClientPacket::Message { .. }, .. }));
}

#[test]
fn moderator_actions_refused() {
    let mut hub = hub();
    let m = login(&mut hub, "mod", MOD, true);
    let a = login(&mut hub, "alice", ALICE, true);
    let c = hub.connect().unwrap();
    let r = hub.handle(a, ServerPacket::BanUser { user: BOB }, 0);
    assert!(is_error_to(&r[0], a, ClientError::NotPermitted));
    let r = hub.handle(c, ServerPacket::BanUser { user: BOB }, 0);
    assert!(is_error_to(&r[0], c, ClientError::NotLoggedIn));
    let r = hub.handle(m, ServerPacket::BanUser { user: MOD }, 0);
    assert!(is_error_to(&r[0], m, ClientError::NotPermitted));
    let r = hub.handle(m, ServerPacket::UnbanUser { user: BOB }, 0);
    assert!(is_error_to(&r[0], m, ClientError::NotBanned));
    let r = hub.ban_saved(m, SuccessReason::Ban, false);
    assert!(is_error_to(&r[0], m, ClientError::Internal));
}

#[test]
fn user_count() {
    let mut hub = hub();
    let m = login(&mut hub, "mod", MOD, true);
    let _a1 = login(&mut hub, "alice", ALICE, true);
    let a2 = login(&mut hub, "alice", ALICE, true);
    let _anon = hub.connect().unwrap();
    let r = hub.handle(m, ServerPacket::RequestUserCount, 0);
    assert!(matches!(&r[0], Action::Send { packet: ClientPacket::UserCount { connections: 4, logged_in: 3 }, .. }));
    let r = hub.handle(a2, ServerPacket::RequestUserCount, 0);
    assert!(is_error_to(&r[0], a2, ClientError::NotPermitted));
    hub.disconnect(a2);
    let r = hub.handle(m, ServerPacket::RequestUserCount, 0);
    assert!(matches!(&r[0], Action::Send { packet: ClientPacket::UserCount { connections: 3, logged_in: 2 }, .. }));
}

#[test]
fn connect_allocates_increasing_ids() {
    let mut hub = hub();
    let a = hub.connect().unwrap();
    let b = hub.connect().unwrap();
    assert_eq!(a, InternalId::new(1));
    assert_eq!(b, InternalId::new(2));
    hub.disconnect(a);
    let c = hub.connect().unwrap();
    assert_eq!(c, InternalId::new(3));
}

#[test]
fn disconnect_frees_name_and_keeps_others() {
    let mut hub = hub();
    let a1 = login(&mut hub, "alice", ALICE, true);
    let a2 = login(&mut hub, "alice", ALICE, true);
    let b = login(&mut hub, "bob", BOB, true);
    hub.disconnect(a1);
    let packet = ServerPacket::PrivateMessage { receiver: String::from("alice"), content: String::from("x") };
    let r = hub.handle(b, packet, 0);
    assert_eq!(r.len(), 1);
    assert!(matches!(&r[0], Action::Send { to, .. } if *to == a2));
    hub.disconnect(a2);
    let packet = ServerPacket::PrivateMessage { receiver: String::from("alice"), content: String::from("x") };
    let r = hub.handle(b, packet, 0);
    assert!(r.is_empty());
    // packets from a closed connection are ignored
    let r = hub.handle(a1, message("hi"), 0);
    assert!(r.is_empty());
}

#[test]
fn message_checks_in_order() {
    let config = MsgConfig { max_length: 5, max_messages: 40, count_duration: WDuration::from_secs(60) };
    let mut hub = hub_with(config);
    let a = login(&mut hub, "alice", ALICE, true);
    let r = hub.handle(a, message(""), 0);
    assert!(is_error_to(&r[0], a, ClientError::EmptyMessage));
    let r = hub.handle(a, message("toolong"), 0);
    assert!(is_error_to(&r[0], a, ClientError::MessageTooLong));
    let r = hub.handle(a, message("a\tb"), 0);
    assert!(is_error_to(&r[0], a, ClientError::InvalidCharacter('\t')));
}

#[test]
fn tokens() {
    let mut hub = hub();
    let c = hub.connect().unwrap();
    let r = hub.handle(c, ServerPacket::RequestJWT, 0);
    assert!(is_error_to(&r[0], c, ClientError::NotLoggedIn));
    let r = hub.handle(c, ServerPacket::LoginJWT { token: String::from("t"), allow_messages: true }, 0);
    assert!(matches!(&r[0], Action::CheckToken { id, token, allow_messages: true } if *id == c && token == "t"));
    let r = hub.finish_jwt_login(c, None, true);
    assert!(is_error_to(&r[0], c, ClientError::LoginFailed));
    let a = login(&mut hub, "alice", ALICE, true);
    let r = hub.handle(a, ServerPacket::RequestJWT, 0);
    assert!(matches!(&r[0], Action::IssueToken { id, info } if *id == a && info.name == "alice" && info.uuid == ALICE));
    let r = hub.token_issued(a, Some(String::from("tok")));
    assert!(matches!(&r[0], Action::Send { packet: ClientPacket::NewJWT { token }, .. } if token == "tok"));
    let r = hub.token_issued(a, None);
    assert!(is_error_to(&r[0], a, ClientError::Internal));
    let r = hub.handle(a, ServerPacket::LoginJWT { token: String::from("t"), allow_messages: true }, 0);
    assert!(matches!(&r[0], Action::CheckToken { id, .. } if *id == a));
    let r = hub.finish_jwt_login(a, None, true);
    assert!(is_error_to(&r[0], a, ClientError::LoginFailed));
    let r = hub.finish_jwt_login(a, Some(UserInfo { name: String::from("alice"), uuid: ALICE }), true);
    assert!(is_error_to(&r[0], a, ClientError::AlreadyLoggedIn));
}

#[test]
fn mojang_session_hash_used_once() {
    let mut hub = hub();
    let a = hub.connect().unwrap();
    hub.handle(a, ServerPacket::RequestMojangInfo, 0);
    let user = User { name: String::from("x"), uuid: 1, allow_messages: true };
    let r = hub.handle(a, ServerPacket::LoginMojang(user), 0);
    assert!(matches!(&r[0], Action::CheckMojang { .. }));
    let user = User { name: String::from("x"), uuid: 1, allow_messages: true };
    let r = hub.handle(a, ServerPacket::LoginMojang(user), 0);
    assert!(is_error_to(&r[0], a, ClientError::MojangRequestMissing));
}

#[test]
fn tokens_not_supported() {
    let mut hub = ChatServer::new(MsgConfig::default(), moderation(), false).unwrap();
    let c = hub.connect().unwrap();
    let r = hub.handle(c, ServerPacket::RequestJWT, 0);
    assert!(is_error_to(&r[0], c, ClientError::NotSupported));
    let r = hub.handle(c, ServerPacket::LoginJWT { token: String::from("t"), allow_messages: true }, 0);
    assert!(is_error_to(&r[0], c, ClientError::NotSupported));
}

#[test]
fn session_hash_of_fixed_bytes() {
    let mut hub = hub();
    let a = hub.connect().unwrap();
    let mut bytes = [0u8; 20];
    bytes[0] = 0xff;
    let r = hub.store_session_hash(a, bytes);
    match &r[0] {
        Action::Send { packet: ClientPacket::MojangInfo { session_hash }, .. } => {
            assert_eq!(session_hash, "7f00000000000000000000000000000000000000");
        }
        other => panic!("unexpected {:?}", other),
    }
}
