use axochat::auth::{encode_sha1_bytes, has_joined_url};
use axochat::config::{MsgConfig, ModConfig, WDuration};
use axochat::error::ClientError;
use axochat::message::{MessageValidator, RateLimiter};
use axochat::moderation::Moderation;

fn config(max_length: usize, max_messages: usize, secs: u64) -> MsgConfig {
    MsgConfig { max_length, max_messages, count_duration: WDuration::from_secs(secs) }
}

#[test]
fn sha1_all_zero_is_zero() {
    assert_eq!(encode_sha1_bytes(&[0u8; 20]), "0");
}

#[test]
fn sha1_skips_leading_zero_nibbles() {
    let mut bytes = [0u8; 20];
    bytes[1] = 0x0a;
    bytes[19] = 0x01;
    assert_eq!(encode_sha1_bytes(&bytes), format!("a{}01", "0".repeat(34)));
    let mut bytes = [0u8; 20];
    bytes[19] = 0x10;
    assert_eq!(encode_sha1_bytes(&bytes), "10");
}

#[test]
fn sha1_full_width() {
    let bytes = [0xabu8; 20];
    assert_eq!(encode_sha1_bytes(&bytes), "ab".repeat(20));
}

#[test]
fn validator_rules() {
    let v = MessageValidator::new(config(5, 40, 60));
    assert_eq!(v.validate(""), Err(ClientError::EmptyMessage));
    assert_eq!(v.validate("hello"), Ok(()));
    assert_eq!(v.validate("hello!"), Err(ClientError::MessageTooLong));
    assert_eq!(v.validate("a b~"), Ok(()));
    assert_eq!(v.validate("äöü"), Ok(()));
    assert_eq!(v.validate("héllo"), Ok(()));
    assert_eq!(v.validate("a\nb"), Err(ClientError::InvalidCharacter('\n')));
    assert_eq!(v.validate("\u{2603}"), Err(ClientError::InvalidCharacter('\u{2603}')));
}

#[test]
fn validator_counts_code_points() {
    let v = MessageValidator::new(config(3, 40, 60));
    assert_eq!(v.validate("äää"), Ok(()));
    assert_eq!(v.validate("ääää"), Err(ClientError::MessageTooLong));
}

#[test]
fn validator_is_deterministic() {
    let v = MessageValidator::new(config(10, 40, 60));
    assert_eq!(v.validate("a\u{7}"), v.validate("a\u{7}"));
    assert_eq!(v.validate("fine"), v.validate("fine"));
}

#[test]
fn rate_limiter_window() {
    let mut r = RateLimiter::new(config(100, 2, 10));
    let s = 1_000_000_000u64;
    assert!(!r.check_new_message(0));
    assert!(!r.check_new_message(s));
    assert!(r.check_new_message(2 * s));
    // exactly W after the first: still inside the window
    assert!(r.check_new_message(10 * s));
    // just past W after the first: it is forgotten
    assert!(!r.check_new_message(10 * s + 1));
    assert!(r.check_new_message(11 * s));
}

#[test]
fn rate_limiter_counts_per_window() {
    let mut r = RateLimiter::new(config(100, 3, 60));
    let mut allowed = 0;
    for i in 0..100u64 {
        if !r.check_new_message(i * 1_000_000_000) {
            allowed += 1;
        }
    }
    // 100 seconds, 3 per 60 s window
    assert!(allowed <= 6);
    assert!(allowed >= 3);
}

#[test]
fn rate_limiter_zero_allows_nothing() {
    let mut r = RateLimiter::new(config(100, 0, 60));
    assert!(r.check_new_message(0));
}

#[test]
fn error_texts() {
    assert_eq!(ClientError::NotSupported.to_string(), "method not supported");
    assert_eq!(ClientError::MessageTooLong.to_string(), "message was too long");
    assert_eq!(ClientError::InvalidCharacter('a').to_string(), "message contained invalid character: `a`");
    assert_eq!(ClientError::InvalidCharacter('\n').to_string(), "message contained invalid character: `\\n`");
    assert_eq!(ClientError::Internal.to_string(), "internal error");
}

#[test]
fn durations() {
    let d = WDuration::parse("60s").unwrap();
    assert_eq!(d.as_secs(), 60);
    assert_eq!(d.subsec_nanos(), 0);
    assert_eq!(d.as_nanos(), 60_000_000_000);
    let d = WDuration::parse("1m 30s 5ms").unwrap();
    assert_eq!(d.as_secs(), 90);
    assert_eq!(d.subsec_nanos(), 5_000_000);
    assert!(WDuration::parse("soon").is_none());
    assert_eq!(WDuration::parse("1h 30m 15s 500ms").unwrap().as_secs(), 5415);
    assert!(WDuration::parse("18446744073709551615s 1000000000ns").is_none());
    assert!(WDuration::parse("123456789012s").is_none());
    assert_eq!(WDuration::parse("12345678901s").unwrap().as_secs(), 12345678901);
    assert_eq!(WDuration::from_secs(90).to_text(), "1m 30s");
}

#[test]
fn defaults() {
    let m = MsgConfig::default();
    assert_eq!(m.max_length, 100);
    assert_eq!(m.max_messages, 40);
    assert_eq!(m.count_duration.as_secs(), 60);
    let c = ModConfig::default();
    assert_eq!(c.moderators, "./moderators.txt");
    assert_eq!(c.banned, "./banned.txt");
}

#[test]
fn uuid_text_and_parse() {
    let u: u128 = 0x0123_4567_89ab_cdef_0123_4567_89ab_cdef;
    let mods = vec![String::from("0123456789abcdef0123456789abcdef")];
    let mut m = Moderation::new(ModConfig::default(), &mods, &Vec::new()).unwrap();
    assert!(m.is_moderator(u));
    assert!(!m.is_moderator(u + 1));
    assert_eq!(m.ban(u + 1), Ok(Some(String::from("01234567-89ab-cdef-0123-456789abcdf0"))));
    let banned = vec![String::from("01234567-89ab-cdef-0123-456789abcdef")];
    let m = Moderation::new(ModConfig::default(), &Vec::new(), &banned).unwrap();
    assert!(m.is_banned(u));
}

#[test]
fn moderation_lists() {
    let mods = vec![String::from("00000000-0000-0000-0000-000000000001"), String::new()];
    let banned = vec![String::from("00000000-0000-0000-0000-000000000002")];
    let mut m = Moderation::new(ModConfig::default(), &mods, &banned).unwrap();
    assert!(m.is_moderator(1));
    assert!(!m.is_moderator(2));
    assert!(m.is_banned(2));
    assert_eq!(m.ban(1), Err(ClientError::NotPermitted));
    assert_eq!(m.ban(3), Ok(Some(String::from("00000000-0000-0000-0000-000000000003"))));
    assert_eq!(m.ban(3), Ok(None));
    assert!(m.is_banned(3));
    let mut lines = m.unban(2).unwrap();
    lines.sort();
    assert_eq!(lines, vec![String::from("00000000-0000-0000-0000-000000000003")]);
    assert!(!m.is_banned(2));
    assert_eq!(m.unban(2), Err(ClientError::NotBanned));
    assert_eq!(m.banned_file(), "./banned.txt");
}

#[test]
fn moderation_bad_line() {
    let mods = vec![String::from("nope")];
    let r = Moderation::new(ModConfig::default(), &mods, &Vec::new());
    assert_eq!(r.err(), Some(String::from("nope")));
    let banned = vec![String::new(), String::from("00000000-0000-0000-0000-000000000009"), String::from("x")];
    let r = Moderation::new(ModConfig::default(), &Vec::new(), &banned);
    assert_eq!(r.err(), Some(String::from("x")));
}

#[test]
fn mojang_url() {
    let url = has_joined_url("a b&c", "7f1").unwrap();
    assert_eq!(
        url,
        "https://sessionserver.mojang.com/session/minecraft/hasJoined?username=a+b%26c&serverId=7f1"
    );
}

#[test]
fn error_text_escapes_unicode() {
    assert_eq!(
        ClientError::InvalidCharacter('\u{2603}').to_string(),
        "message contained invalid character: `\\u{2603}`"
    );
    assert_eq!(ClientError::InvalidCharacter('\'').to_string(), "message contained invalid character: `\\'`");
}
