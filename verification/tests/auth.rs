use wicrs_server::auth::{
    hash_auth, id_to_bytes, new_token, token_from_bytes, AuthQuery, Session, Sessions,
};
use wicrs_server::error::{AuthError, Error};
use wicrs_server::httpapi::{
    authenticate, parse_authorization, GetMessagesAfterQuery, GetMessagesQuery, MessageSearchQuery,
};
use wicrs_server::user::{get_id, Account, User};
use wicrs_server::{get_system_millis, millis_since_epoch, new_id, ApiActionError};

const ZERO_HASH: &str = "61664696888a110278ff672620c85217e69aa662a83304052f1014d395f545bf";
const TESTTOKEN_HASH: &str = "11778cc320d72529000c07c99622d9908d87599f4b9641e8fc86c9205b6438f7";

#[test]
fn identifiers_are_hashed_most_significant_byte_first() {
    assert_eq!(
        id_to_bytes(0x0102030405060708090a0b0c0d0e0f10),
        vec![1, 2, 3, 4, 5, 6, 7, 8, 9, 10, 11, 12, 13, 14, 15, 16]
    );
    let hashed = hash_auth(0x0102030405060708090a0b0c0d0e0f10, String::new());
    assert_eq!(hashed.0, "8d9ef5e1443f0286e4fa45c5205ed2584cbc1b19ecde4adb2ef7e60ea6e780ca");
    assert_eq!(hashed.1, "a7ffc6f8bf1ed76651c14756a061d662f580ff4de43b49fa82d80a4b80f8434a");
    let hashed = hash_auth(0, "testtoken".to_string());
    assert_eq!(hashed.0, ZERO_HASH);
    assert_eq!(hashed.1, TESTTOKEN_HASH);
}

#[test]
fn tokens_are_base64_without_padding() {
    assert_eq!(token_from_bytes(&vec![0xfb, 0xff]), "-_8");
    assert_eq!(token_from_bytes(&b"hello".to_vec()), "aGVsbG8");
    let token = new_token();
    assert_eq!(token.len(), 86);
    assert!(token.chars().all(|c| c.is_ascii_alphanumeric() || c == '-' || c == '_'));
    assert_ne!(new_token(), token);
}

#[test]
fn token_is_valid_until_it_expires() {
    let mut sessions = Sessions::new();
    assert!(!sessions.is_authenticated(0, "testtoken".to_string(), 5));
    sessions.insert(ZERO_HASH.to_string(), TESTTOKEN_HASH.to_string(), 100);
    assert!(sessions.is_authenticated(0, "testtoken".to_string(), 99));
    assert!(!sessions.is_authenticated(0, "testtoken".to_string(), 100));
    assert!(!sessions.is_authenticated(0, "other".to_string(), 5));
    assert!(!sessions.is_authenticated(1, "testtoken".to_string(), 5));
    assert!(sessions.is_valid(ZERO_HASH, TESTTOKEN_HASH, 5));
    sessions.insert(ZERO_HASH.to_string(), TESTTOKEN_HASH.to_string(), 200);
    assert!(sessions.is_authenticated(0, "testtoken".to_string(), 150));
    assert_eq!(
        sessions.entries(),
        &vec![Session { user: ZERO_HASH.to_string(), token: TESTTOKEN_HASH.to_string(), expires: 200 }]
    );
}

#[test]
fn tokens_can_be_invalidated() {
    let mut sessions = Sessions::new();
    let first = sessions.login(7, 1000, 10);
    let second = sessions.login(7, 1000, 10);
    let other = sessions.login(8, 1000, 10);
    assert_eq!(first.id, 7);
    assert!(sessions.is_authenticated(7, first.token.clone(), 10));
    assert!(sessions.is_authenticated(7, second.token.clone(), 10));
    sessions.invalidate_token(7, first.token.clone());
    assert!(!sessions.is_authenticated(7, first.token.clone(), 10));
    assert!(sessions.is_authenticated(7, second.token.clone(), 10));
    sessions.invalidate_tokens(7);
    assert!(!sessions.is_authenticated(7, second.token, 10));
    assert!(sessions.is_authenticated(8, other.token, 10));
    assert_eq!(sessions.entries().len(), 1);
}

#[test]
fn expired_tokens_are_forgotten() {
    let mut sessions = Sessions::new();
    let short = sessions.login(7, 50, 10);
    let long = sessions.login(7, 500, 10);
    let stale = sessions.login(9, 10, 10);
    assert!(!sessions.is_authenticated(9, stale.token, 0));
    assert_eq!(sessions.entries().len(), 2);
    sessions.remove_expired(50);
    assert_eq!(sessions.entries().len(), 1);
    assert!(!sessions.is_authenticated(7, short.token, 20));
    assert!(sessions.is_authenticated(7, long.token, 499));
}

#[test]
fn login_expires_after_a_week_by_default() {
    let query = AuthQuery { state: String::new(), code: String::new(), expires: None };
    assert_eq!(query.expiry(1000), 604801000);
    assert_eq!(query.expiry(u128::MAX - 5), u128::MAX);
    let query = AuthQuery { state: String::new(), code: String::new(), expires: Some(42) };
    assert_eq!(query.expiry(1000), 42);
}

#[test]
fn authorization_header_names_user_and_token() {
    assert_eq!(
        parse_authorization("00000000-0000-0000-0000-000000000007:secret"),
        Some((7, "secret".to_string()))
    );
    assert_eq!(
        parse_authorization("0102030405060708090a0b0c0d0e0f10:a:b"),
        Some((0x0102030405060708090a0b0c0d0e0f10, "a".to_string()))
    );
    assert_eq!(
        parse_authorization("00000000-0000-0000-0000-000000000007:"),
        Some((7, String::new()))
    );
    assert_eq!(parse_authorization("00000000-0000-0000-0000-000000000007"), None);
    assert_eq!(parse_authorization("seven:secret"), None);
    assert_eq!(parse_authorization(":secret"), None);
    assert_eq!(parse_authorization(""), None);
}

#[test]
fn requests_are_authenticated_by_their_header() {
    let mut sessions = Sessions::new();
    sessions.insert(ZERO_HASH.to_string(), TESTTOKEN_HASH.to_string(), 100);
    let header = "00000000-0000-0000-0000-000000000000:testtoken";
    assert_eq!(authenticate(Some(header), Some(&sessions), 99), Ok(0));
    assert_eq!(
        authenticate(Some(header), Some(&sessions), 100),
        Err(Error::Auth(AuthError::InvalidToken))
    );
    assert_eq!(authenticate(Some(header), None, 99), Err(Error::CannotAuthenticate));
    assert_eq!(
        authenticate(None, Some(&sessions), 99),
        Err(Error::Auth(AuthError::MalformedIDToken))
    );
    assert_eq!(
        authenticate(Some("nonsense"), Some(&sessions), 99),
        Err(Error::Auth(AuthError::MalformedIDToken))
    );
}

#[test]
fn queries_fall_back_to_defaults() {
    let empty = GetMessagesQuery { from: None, to: None, invert: None, max: None };
    assert_eq!(empty.from(100_000_000), 13_599_999);
    assert_eq!(empty.from(86_400_001), 0);
    assert_eq!(empty.from(5), 0);
    assert_eq!(empty.to(77), 77);
    assert_eq!(empty.max(), 100);
    assert!(!empty.invert());
    let full = GetMessagesQuery { from: Some(1), to: Some(2), invert: Some(true), max: Some(3) };
    assert_eq!(full.from(9), 1);
    assert_eq!(full.to(9), 2);
    assert_eq!(full.max(), 3);
    assert!(full.invert());
    let now = millis_since_epoch(get_system_millis());
    assert_eq!(empty.to(now), now);
    assert_eq!(empty.from(now), now - 86_400_001);
    assert_eq!(GetMessagesAfterQuery { max: None }.max(), 100);
    assert_eq!(GetMessagesAfterQuery { max: Some(0) }.max(), 0);
    assert_eq!(MessageSearchQuery { query: "q".to_string(), max: Some(7) }.max(), 7);
    assert_eq!(MessageSearchQuery { query: "q".to_string(), max: None }.max(), 100);
}

#[test]
fn account_identifier_is_digest_of_id_and_service() {
    assert_eq!(get_id("a", "bc"), "ba7816bf8f01cfea414140de5dae2223b00361a396177a9cb410ff61f20015ad");
    assert_eq!(
        get_id("12345", "GitHub"),
        "53c68e29793b2b26989bbeaeca7085d4daf7a28cf664c38c42637ea769786122"
    );
    let account =
        Account::new("12345".to_string(), "a@example.com".to_string(), "GitHub".to_string(), 44);
    assert_eq!(account.id, "53c68e29793b2b26989bbeaeca7085d4daf7a28cf664c38c42637ea769786122");
    assert_eq!(account.email, "a@example.com");
    assert_eq!(account.service, "GitHub");
    assert!(account.users.is_empty());
    assert_eq!(account.created, 44);
}

#[test]
fn users_need_a_valid_name() {
    let user = User::with(5, "tester".to_string(), "parent".to_string(), 9).unwrap();
    assert_eq!(
        user,
        User {
            id: 5,
            username: "tester".to_string(),
            created: 9,
            parent_id: "parent".to_string(),
            in_hubs: vec![]
        }
    );
    assert_eq!(User::with(5, "bad!".to_string(), "parent".to_string(), 9), Err(()));
    assert_eq!(User::new(String::new(), "parent".to_string(), 9), Err(()));
    let fresh = User::new("tester".to_string(), "parent".to_string(), 1_600_000_000_001).unwrap();
    assert_eq!(fresh.username, "tester");
    assert_eq!(fresh.created, 1_600_000_000_001);
    let mut account = Account::new("1".to_string(), "e".to_string(), "GitHub".to_string(), 3);
    let made = account.create_new_user("first user".to_string(), 8).unwrap();
    assert_eq!(made.created, 8);
    assert_eq!(made.parent_id, account.id);
    assert_eq!(account.users.len(), 1);
    assert_eq!(account.users.values().next().unwrap().id, made.id);
    assert_eq!(
        account.create_new_user("x".repeat(32), 8),
        Err(ApiActionError::BadNameCharacters)
    );
    assert_eq!(account.users.len(), 1);
}

#[test]
fn fresh_identifiers_are_random_uuids() {
    let a = new_id();
    let b = new_id();
    assert_ne!(a, b);
    assert_eq!(a & 0xF000_C000_0000_0000_0000, 0x4000_8000_0000_0000_0000);
}

#[test]
fn user_and_hub_agree_on_membership() {
    let mut hub = wicrs_server::hub::Hub::new(100, "hub".to_string(), 1, 0);
    let mut user = User::with(2, "tester".to_string(), "parent".to_string(), 9).unwrap();
    assert!(user.is_linked(&hub));
    assert_eq!(user.join_hub(&mut hub, 5), Ok(()));
    assert!(user.is_linked(&hub));
    assert_eq!(user.in_hubs, vec![100]);
    assert_eq!(hub.get_member(&2).unwrap().joined, 5);
    assert_eq!(user.join_hub(&mut hub, 6), Ok(()));
    assert_eq!(user.in_hubs, vec![100]);
    assert_eq!(hub.get_member(&2).unwrap().joined, 5);
    assert_eq!(user.leave_hub(&mut hub), Ok(()));
    assert_eq!(user.in_hubs, Vec::<u128>::new());
    assert!(!hub.members.contains_key(&2));
    assert_eq!(user.leave_hub(&mut hub), Err(Error::NotAMember));
    hub.ban_user(&1, &2).unwrap();
    assert_eq!(user.join_hub(&mut hub, 7), Err(Error::Banned));
    assert_eq!(user.in_hubs, Vec::<u128>::new());
    let mut owner = User::with(1, "owner".to_string(), "parent".to_string(), 0).unwrap();
    assert!(!owner.is_linked(&hub));
    owner.in_hubs.push(100);
    assert!(owner.is_linked(&hub));
    assert_eq!(
        owner.leave_hub(&mut hub),
        Err(Error::MissingHubPermission(wicrs_server::permission::HubPermission::All))
    );
    assert_eq!(owner.in_hubs, vec![100]);
}

#[test]
fn account_makes_hubs_for_its_users() {
    let mut account = Account::new("1".to_string(), "e".to_string(), "GitHub".to_string(), 3);
    account.create_new_user("maker".to_string(), 4).unwrap();
    let key = *account.users.keys().next().unwrap();
    assert_eq!(
        account.create_guild("bad!".to_string(), key, 5).err(),
        Some(ApiActionError::BadNameCharacters)
    );
    assert_eq!(
        account.create_guild("guild".to_string(), key + 1, 5).err(),
        Some(ApiActionError::UserNotFound)
    );
    assert_eq!(account.send_guild_message(key, 5), Err(ApiActionError::NotInGuild));
    assert_eq!(account.send_guild_message(key + 1, 5), Err(ApiActionError::UserNotFound));
    let hub = account.create_guild("guild".to_string(), key, 6).unwrap();
    assert_eq!(hub.members.get(&hub.owner).unwrap().joined, 6);
    let owner = account.users.get(&key).unwrap();
    assert_eq!(hub.owner, owner.id);
    assert_eq!(hub.name, "guild");
    assert!(hub.is_consistent());
    assert_eq!(owner.in_hubs, vec![hub.id]);
    assert_eq!(account.send_guild_message(key, hub.id), Ok(owner.id));
}

#[test]
fn a_reading_of_the_clock_stands_for_its_milliseconds() {
    assert_eq!(millis_since_epoch(Some(0)), 0);
    assert_eq!(millis_since_epoch(Some(1_700_000_000_123)), 1_700_000_000_123);
    assert_eq!(millis_since_epoch(Some(u128::MAX)), u128::MAX);
    let first = get_system_millis().unwrap();
    let second = get_system_millis().unwrap();
    assert!(first > 1_600_000_000_000);
    assert!(second >= first);
}
