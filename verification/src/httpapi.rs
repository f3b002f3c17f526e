//! What a request says of itself: its query, and who sends it.

use crate::auth::Sessions;
use crate::error::{AuthError, Error};
use crate::ID;
use vstd::prelude::*;
use vstd::string::*;

verus! {

/// Milliseconds by which the messages asked for lie back where a query
/// names no start.
pub const DEFAULT_SPAN: u128 = 86400001;

/// Number of messages returned where a query names none.
pub const DEFAULT_MAX: usize = 100;

/// The query of a request for the messages of a span of time.
#[derive(Clone, Copy, PartialEq, Eq, Structural, Debug)]
pub struct GetMessagesQuery {
    pub from: Option<u128>,
    pub to: Option<u128>,
    pub invert: Option<bool>,
    pub max: Option<usize>,
}

impl GetMessagesQuery {
    /// The start of the span at the time `now`: what the query names, or a
    /// day and a millisecond before `now`, and not before time began.
    pub open spec fn spec_from(&self, now: u128) -> u128 {
        match self.from {
            Some(from) => from,
            None => if now >= DEFAULT_SPAN {
                (now - DEFAULT_SPAN) as u128
            } else {
                0
            },
        }
    }

    #[verifier::when_used_as_spec(spec_from)]
    pub fn from(&self, now: u128) -> (from: u128)
        ensures
            from == self.spec_from(now),
    {
        match self.from {
            Some(from) => from,
            None => if now >= DEFAULT_SPAN {
                now - DEFAULT_SPAN
            } else {
                0
            },
        }
    }

    /// The end of the span at the time `now`: what the query names, or
    /// `now`.
    pub open spec fn spec_to(&self, now: u128) -> u128 {
        match self.to {
            Some(to) => to,
            None => now,
        }
    }

    #[verifier::when_used_as_spec(spec_to)]
    pub fn to(&self, now: u128) -> (to: u128)
        ensures
            to == self.spec_to(now),
    {
        match self.to {
            Some(to) => to,
            None => now,
        }
    }

    /// The largest number of messages to return.
    pub fn max(&self) -> (max: usize)
        ensures
            max == match self.max {
                Some(max) => max,
                None => DEFAULT_MAX,
            },
    {
        match self.max {
            Some(max) => max,
            None => DEFAULT_MAX,
        }
    }

    /// Whether the newest message comes first.
    pub fn invert(&self) -> (invert: bool)
        ensures
            invert == (self.invert == Some(true)),
    {
        match self.invert {
            Some(invert) => invert,
            None => false,
        }
    }
}

/// The query of a request for the messages after a given one.
#[derive(Clone, Copy, PartialEq, Eq, Structural, Debug)]
pub struct GetMessagesAfterQuery {
    pub max: Option<usize>,
}

impl GetMessagesAfterQuery {
    /// The largest number of messages to return.
    pub fn max(&self) -> (max: usize)
        ensures
            max == match self.max {
                Some(max) => max,
                None => DEFAULT_MAX,
            },
    {
        match self.max {
            Some(max) => max,
            None => DEFAULT_MAX,
        }
    }
}

/// The query of a request to search the messages of a channel.
#[derive(Clone, Debug, PartialEq, Eq)]
pub struct MessageSearchQuery {
    pub query: String,
    pub max: Option<usize>,
}

impl MessageSearchQuery {
    /// The largest number of messages to return.
    pub fn max(&self) -> (max: usize)
        ensures
            max == match self.max {
                Some(max) => max,
                None => DEFAULT_MAX,
            },
    {
        match self.max {
            Some(max) => max,
            None => DEFAULT_MAX,
        }
    }
}

/// The value of the UUID that the text spells, in any of the forms that the
/// uuid crate reads; none where it spells none.
pub uninterp spec fn parsed_uuid(text: Seq<char>) -> Option<u128>;

/// `Uuid::parse_str`, then `Uuid::as_u128`; none where the text is
/// refused.
#[verifier::external_body]
fn parse_uuid(text: &str) -> (id: Option<u128>)
    ensures
        id == parsed_uuid(text@),
{
    uuid::Uuid::parse_str(text).ok().map(|uuid| uuid.as_u128())
}

/// The place of the first colon of `text` at or after `from`; the length of
/// `text` where there is none.
pub open spec fn colon_from(text: Seq<char>, from: int) -> int
    decreases text.len() - from,
{
    if from >= text.len() {
        text.len() as int
    } else if text[from] == ':' {
        from
    } else {
        colon_from(text, from + 1)
    }
}

/// The user and the token that an authorization header names. The header
/// holds the identifier of the user, a colon, and the token, which ends at
/// the next colon if there is one. None where the header holds no colon or
/// what stands before it spells no identifier.
pub open spec fn spec_parse_authorization(header: Seq<char>) -> Option<(ID, Seq<char>)> {
    let first = colon_from(header, 0);
    if first >= header.len() {
        None
    } else {
        match parsed_uuid(header.subrange(0, first)) {
            Some(id) => Some((id, header.subrange(first + 1, colon_from(header, first + 1)))),
            None => None,
        }
    }
}

fn find_colon(text: &str, from: usize) -> (at: usize)
    requires
        from <= text@.len(),
    ensures
        at == colon_from(text@, from as int),
        from <= at <= text@.len(),
{
    let n = text.unicode_len();
    let mut i: usize = from;
    while i < n
        invariant
            from <= i <= n,
            n == text@.len(),
            colon_from(text@, from as int) == colon_from(text@, i as int),
        decreases n - i,
    {
        if text.get_char(i) == ':' {
            return i;
        }
        i = i + 1;
    }
    i
}

/// Reads the user and the token that an authorization header names.
pub fn parse_authorization(header: &str) -> (named: Option<(ID, String)>)
    ensures
        match named {
            Some((id, token)) => spec_parse_authorization(header@) == Some((id, token@)),
            None => spec_parse_authorization(header@) is None,
        },
{
    let n = header.unicode_len();
    let first = find_colon(header, 0);
    if first >= n {
        return None;
    }
    let second = find_colon(header, first + 1);
    match parse_uuid(header.substring_char(0, first)) {
        Some(id) => Some((id, header.substring_char(first + 1, second).to_owned())),
        None => None,
    }
}

/// Who sends a request, or why that cannot be told: the header is missing
/// or cannot be read; there are no sessions to look the token up in; the
/// token is not one of the user's, or is expired.
pub open spec fn spec_authenticate(
    header: Option<&str>,
    sessions: Option<&Sessions>,
    now: u128,
) -> Result<ID, Error> {
    if header is None || spec_parse_authorization(header->0@) is None {
        Err(Error::Auth(AuthError::MalformedIDToken))
    } else if sessions is None {
        Err(Error::CannotAuthenticate)
    } else {
        let named = spec_parse_authorization(header->0@)->0;
        if sessions->0.valid(
            crate::auth::user_hash(named.0),
            crate::auth::token_hash(named.1),
            now,
        ) {
            Ok(named.0)
        } else {
            Err(Error::Auth(AuthError::InvalidToken))
        }
    }
}

/// Tells who sends a request from its authorization header.
pub fn authenticate(header: Option<&str>, sessions: Option<&Sessions>, now: u128) -> (user: Result<
    ID,
    Error,
>)
    requires
        sessions matches Some(sessions) ==> sessions.wf(),
    ensures
        user == spec_authenticate(header, sessions, now),
{
    let named = match header {
        Some(header) => parse_authorization(header),
        None => None,
    };
    match named {
        None => Err(Error::Auth(AuthError::MalformedIDToken)),
        Some((id, token)) => match sessions {
            None => Err(Error::CannotAuthenticate),
            Some(sessions) => if sessions.is_authenticated(id, token, now) {
                Ok(id)
            } else {
                Err(Error::Auth(AuthError::InvalidToken))
            },
        },
    }
}

} // verus!
