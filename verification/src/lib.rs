//! Real-time messaging core of a self-hosted chat server: permissions,
//! subscriptions, event fan-out and the per-channel message index.

use vstd::prelude::*;
use vstd::string::*;

pub mod auth;
pub mod channel;
pub mod config;
pub mod edges;
pub mod error;
pub mod httpapi;
pub mod hub;
pub mod index;
pub mod message_server;
pub mod permission;
pub mod server;
pub mod user;

verus! {

/// Identifier of a user, hub, channel or message: an opaque 128-bit value.
pub type ID = u128;

/// Why a JSON file could not be loaded.
#[derive(Clone, Copy, PartialEq, Eq, Structural, Debug)]
pub enum JsonLoadError {
    ReadFile,
    Deserialize,
}

/// Why a JSON file could not be saved.
#[derive(Clone, Copy, PartialEq, Eq, Structural, Debug)]
pub enum JsonSaveError {
    WriteFile,
    Serialize,
    Directory,
}

/// Why an action on an account failed.
#[derive(Clone, Copy, PartialEq, Eq, Structural, Debug)]
pub enum ApiActionError {
    GuildNotFound,
    ChannelNotFound,
    NoPermission,
    NotInGuild,
    WriteFileError,
    OpenFileError,
    UserNotFound,
    BadNameCharacters,
}

#[verifier::external_type_specification]
#[verifier::external_body]
pub struct ExSystemTime(std::time::SystemTime);

#[verifier::external_type_specification]
#[verifier::external_body]
pub struct ExSystemTimeError(std::time::SystemTimeError);

/// `SystemTime::now`: the reading of the system clock. Nothing is claimed
/// of it.
#[verifier::external_body]
fn clock_now() -> (now: std::time::SystemTime) {
    std::time::SystemTime::now()
}

/// `SystemTime::duration_since` with the Unix epoch: the time between the
/// epoch and `time`, or an error where `time` lies before the epoch.
/// Nothing is claimed of either.
#[verifier::external_body]
fn since_epoch(time: &std::time::SystemTime) -> (elapsed: Result<
    std::time::Duration,
    std::time::SystemTimeError,
>) {
    time.duration_since(std::time::UNIX_EPOCH)
}

/// `Duration::as_millis`: the whole milliseconds of a duration. Nothing is
/// claimed of them.
#[verifier::external_body]
fn whole_millis(elapsed: &std::time::Duration) -> (millis: u128) {
    elapsed.as_millis()
}

/// The time that a reading of the clock stands for. `elapsed` holds the
/// milliseconds between the Unix epoch and the reading; a reading before
/// the epoch stands for no time, and is left out.
pub fn millis_since_epoch(elapsed: Option<u128>) -> (millis: u128)
    requires
        elapsed is Some,
    ensures
        Some(millis) == elapsed,
{
    match elapsed {
        Some(millis) => millis,
        None => 0,
    }
}

/// Milliseconds since the Unix epoch by the system clock; none where the
/// clock stands before the epoch. The clock decides what comes back;
/// [`millis_since_epoch`] says what time a reading stands for.
pub fn get_system_millis() -> (reading: Option<u128>) {
    match since_epoch(&clock_now()) {
        Ok(elapsed) => Some(whole_millis(&elapsed)),
        Err(_) => None,
    }
}

/// `Uuid::new_v4` and `Uuid::as_u128`: a fresh random identifier. All that
/// is claimed of it is that it is marked as a random UUID: its version is
/// 4, and its variant the one of RFC 4122.
#[verifier::external_body]
pub fn new_id() -> (id: ID)
    ensures
        id & 0xF000_C000_0000_0000_0000 == 0x4000_8000_0000_0000_0000,
{
    uuid::Uuid::new_v4().as_u128()
}

/// Whether `c` may occur in a user name: a letter, a digit, a space or one
/// of `.` `,` `_` `-`.
pub open spec fn is_name_char(c: char) -> bool {
    ||| c == ' '
    ||| c == '.'
    ||| c == ','
    ||| c == '_'
    ||| c == '-'
    ||| ('0' <= c && c <= '9')
    ||| ('a' <= c && c <= 'z')
    ||| ('A' <= c && c <= 'Z')
}

/// A user name is valid when it has between 1 and 31 characters, each of
/// them a name character.
pub open spec fn valid_username(name: Seq<char>) -> bool {
    &&& 0 < name.len() < 32
    &&& forall|i: int| 0 <= i < name.len() ==> is_name_char(#[trigger] name[i])
}

fn is_name_byte(b: u8, Ghost(c): Ghost<char>) -> (r: bool)
    requires
        c <= '\u{7f}',
        b == c as u8,
    ensures
        r == is_name_char(c),
{
    b == 32 || b == 46 || b == 44 || b == 95 || b == 45 || (48 <= b && b <= 57) || (97 <= b && b
        <= 122) || (65 <= b && b <= 90)
}

/// Checks a user name against [`valid_username`].
pub fn is_valid_username(name: &str) -> (r: bool)
    ensures
        r == valid_username(name@),
{
    if !name.is_ascii() {
        assert(!valid_username(name@)) by {
            let j = choose|j: int| 0 <= j < name@.len() && !('\0' <= #[trigger] name@[j] && name@[j]
                <= '\u{7f}');
            assert(!is_name_char(name@[j]));
        }
        return false;
    }
    proof {
        vstd::utf8::is_ascii_chars_encode_utf8(name@);
    }
    let n: usize = name.as_bytes().len();
    assert(n == name@.len());
    if n == 0 || n >= 32 {
        return false;
    }
    let mut i: usize = 0;
    while i < n
        invariant
            is_ascii(name),
            n == name@.len(),
            0 <= i <= n,
            forall|j: int| 0 <= j < i ==> is_name_char(#[trigger] name@[j]),
        decreases n - i,
    {
        let b: u8 = name.get_ascii(i);
        if !is_name_byte(b, Ghost(name@[i as int])) {
            assert(!is_name_char(name@[i as int]));
            return false;
        }
        i = i + 1;
    }
    true
}

} // verus!
