//! Sessions of authenticated users: which token of which user is valid
//! until when. Users and tokens are kept by their hashes only.

use crate::ID;
use vstd::bytes::{spec_u128_to_le_bytes, u128_to_le_bytes};
use vstd::prelude::*;
use vstd::string::*;

verus! {

/// Milliseconds that a token is valid where the login does not say.
pub const DEFAULT_TOKEN_LIFETIME: u128 = 604800000;

/// Number of random bytes that a token is made of.
pub const TOKEN_BYTES: usize = 64;

/// Supported OAuth services.
#[derive(Clone, Copy, PartialEq, Eq, Structural, Debug)]
pub enum Service {
    GitHub,
}

/// Parameters of the query that finishes an authentication.
#[derive(Clone, Debug, PartialEq, Eq)]
pub struct AuthQuery {
    /// The random string that the server gave out when the login began.
    pub state: String,
    /// Code given by the OAuth service.
    pub code: String,
    /// Milliseconds since the Unix epoch at which the token should expire.
    pub expires: Option<u128>,
}

/// A user's identifier with an authentication token.
#[derive(Clone, Debug, PartialEq, Eq)]
pub struct IDToken {
    pub id: ID,
    pub token: String,
}

impl AuthQuery {
    /// When the token of a login that finishes at `now` expires: when the
    /// query says, or a week after `now`, and never later than time can be
    /// counted.
    pub open spec fn spec_expiry(&self, now: u128) -> u128 {
        match self.expires {
            Some(expires) => expires,
            None => if now + DEFAULT_TOKEN_LIFETIME > u128::MAX {
                u128::MAX
            } else {
                (now + DEFAULT_TOKEN_LIFETIME) as u128
            },
        }
    }

    #[verifier::when_used_as_spec(spec_expiry)]
    pub fn expiry(&self, now: u128) -> (expires: u128)
        ensures
            expires == self.spec_expiry(now),
    {
        match self.expires {
            Some(expires) => expires,
            None => if now > u128::MAX - DEFAULT_TOKEN_LIFETIME {
                u128::MAX
            } else {
                now + DEFAULT_TOKEN_LIFETIME
            },
        }
    }
}

/// The SHA3-256 digest of the bytes, in lower-case hexadecimal digits.
pub uninterp spec fn sha3_256_hex(data: Seq<u8>) -> Seq<char>;

/// The bytes in base64 with the URL-safe alphabet and without padding.
pub uninterp spec fn base64_url(data: Seq<u8>) -> Seq<char>;

/// `Sha3_256::new`, `update` and `finalize` of the sha3 crate, printed in
/// hexadecimal: the digest of the bytes.
#[verifier::external_body]
fn sha3_hex(data: &[u8]) -> (hex: String)
    ensures
        hex@ == sha3_256_hex(data@),
{
    let mut hasher = <sha3::Sha3_256 as sha3::Digest>::new();
    sha3::Digest::update(&mut hasher, data);
    format!("{:x}", sha3::Digest::finalize(hasher))
}

/// `base64::encode_config` with `URL_SAFE_NO_PAD`.
#[verifier::external_body]
fn base64_encode(data: &[u8]) -> (text: String)
    requires
        data@.len() <= 0x1000_0000,
    ensures
        text@ == base64_url(data@),
{
    base64::encode_config(data, base64::URL_SAFE_NO_PAD)
}

/// `rand::random`: a random byte. Nothing is claimed of it.
#[verifier::external_body]
fn random_byte() -> (byte: u8) {
    rand::random()
}

/// The sixteen bytes of an identifier, the most significant first.
pub open spec fn id_bytes(id: ID) -> Seq<u8> {
    spec_u128_to_le_bytes(id).reverse()
}

/// The sixteen bytes of an identifier, the most significant first.
pub fn id_to_bytes(id: ID) -> (bytes: Vec<u8>)
    ensures
        bytes@ == id_bytes(id),
{
    let low_first = u128_to_le_bytes(id);
    let n: usize = low_first.len();
    let mut bytes: Vec<u8> = Vec::new();
    let mut i: usize = 0;
    while i < n
        invariant
            0 <= i <= n,
            n == low_first@.len(),
            bytes@.len() == i,
            forall|j: int| 0 <= j < i ==> bytes@[j] == low_first@[n - 1 - j],
        decreases n - i,
    {
        bytes.push(low_first[n - 1 - i]);
        i = i + 1;
    }
    assert(bytes@ =~= low_first@.reverse());
    bytes
}

/// The hash under which a user is kept.
pub open spec fn user_hash(id: ID) -> Seq<char> {
    sha3_256_hex(id_bytes(id))
}

/// The hash under which a token is kept.
pub open spec fn token_hash(token: Seq<char>) -> Seq<char> {
    sha3_256_hex(vstd::utf8::encode_utf8(token))
}

/// The hashes under which a user and a token of theirs are kept.
pub fn hash_auth(id: ID, token: String) -> (hashed: (String, String))
    ensures
        hashed.0@ == user_hash(id),
        hashed.1@ == token_hash(token@),
{
    let id_hash = sha3_hex(id_to_bytes(id).as_slice());
    let token_hash = sha3_hex(token.as_str().as_bytes());
    (id_hash, token_hash)
}

/// The token made of the given bytes.
pub fn token_from_bytes(bytes: &Vec<u8>) -> (token: String)
    requires
        bytes@.len() <= 0x1000_0000,
    ensures
        token@ == base64_url(bytes@),
{
    base64_encode(bytes.as_slice())
}

/// A fresh token: sixty-four random bytes in base64.
pub fn new_token() -> (token: String)
    ensures
        exists|bytes: Seq<u8>| bytes.len() == TOKEN_BYTES && token@ == #[trigger] base64_url(bytes),
{
    let mut bytes: Vec<u8> = Vec::new();
    let mut i: usize = 0;
    while i < TOKEN_BYTES
        invariant
            0 <= i <= TOKEN_BYTES,
            bytes@.len() == i,
        decreases TOKEN_BYTES - i,
    {
        bytes.push(random_byte());
        i = i + 1;
    }
    token_from_bytes(&bytes)
}

/// One valid token: the hash of the user, the hash of the token, and the
/// time at which it expires.
#[derive(Clone, Debug, PartialEq, Eq)]
pub struct Session {
    pub user: String,
    pub token: String,
    /// Milliseconds since the Unix epoch.
    pub expires: u128,
}

/// The tokens that the server has given out.
pub struct Sessions {
    entries: Vec<Session>,
}

impl Sessions {
    spec fn key_at(&self, i: int) -> (Seq<char>, Seq<char>) {
        (self.entries[i].user@, self.entries[i].token@)
    }

    /// No token of a user stands twice.
    pub closed spec fn wf(&self) -> bool {
        forall|i: int, j: int|
            0 <= i < j < self.entries.len() ==> #[trigger] self.key_at(i) != #[trigger] self.key_at(
                j,
            )
    }

    /// Whether a token of a user is kept.
    pub closed spec fn holds(&self, user: Seq<char>, token: Seq<char>) -> bool {
        exists|i: int| 0 <= i < self.entries.len() && #[trigger] self.key_at(i) == (user, token)
    }

    spec fn position(&self, user: Seq<char>, token: Seq<char>) -> int {
        choose|i: int| 0 <= i < self.entries.len() && #[trigger] self.key_at(i) == (user, token)
    }

    /// When a token that is kept expires.
    pub closed spec fn expires(&self, user: Seq<char>, token: Seq<char>) -> u128 {
        self.entries[self.position(user, token)].expires
    }

    /// Whether a token of a user is kept and not expired at `now`.
    pub open spec fn valid(&self, user: Seq<char>, token: Seq<char>, now: u128) -> bool {
        self.holds(user, token) && self.expires(user, token) > now
    }

    proof fn lemma_at(&self, i: int)
        requires
            self.wf(),
            0 <= i < self.entries.len(),
        ensures
            self.holds(self.entries[i].user@, self.entries[i].token@),
            self.expires(self.entries[i].user@, self.entries[i].token@) == self.entries[i].expires,
    {
        let key = self.key_at(i);
        assert(self.key_at(i) == (key.0, key.1));
        let p = self.position(key.0, key.1);
        assert(0 <= p < self.entries.len() && self.key_at(p) == key);
        if p < i {
            assert(self.key_at(p) != self.key_at(i));
        } else if i < p {
            assert(self.key_at(i) != self.key_at(p));
        }
    }

    /// No token is kept.
    pub fn new() -> (sessions: Self)
        ensures
            sessions.wf(),
            forall|user: Seq<char>, token: Seq<char>| !sessions.holds(user, token),
    {
        Sessions { entries: Vec::new() }
    }

    fn find(&self, user: &str, token: &str) -> (found: Option<usize>)
        requires
            self.wf(),
        ensures
            match found {
                Some(i) => i < self.entries.len() && self.key_at(i as int) == (user@, token@),
                None => !self.holds(user@, token@),
            },
    {
        let mut i: usize = 0;
        while i < self.entries.len()
            invariant
                0 <= i <= self.entries.len(),
                forall|j: int| 0 <= j < i ==> #[trigger] self.key_at(j) != (user@, token@),
            decreases self.entries.len() - i,
        {
            if same_text(self.entries[i].user.as_str(), user) && same_text(
                self.entries[i].token.as_str(),
                token,
            ) {
                return Some(i);
            }
            i = i + 1;
        }
        None
    }

    /// Whether a token of a user is kept and not expired at `now`.
    pub fn is_valid(&self, user: &str, token: &str, now: u128) -> (valid: bool)
        requires
            self.wf(),
        ensures
            valid == self.valid(user@, token@, now),
    {
        match self.find(user, token) {
            Some(i) => {
                proof {
                    self.lemma_at(i as int);
                }
                self.entries[i].expires > now
            },
            None => false,
        }
    }

    /// Whether the token is one of the user's and not expired at `now`.
    pub fn is_authenticated(&self, id: ID, token: String, now: u128) -> (valid: bool)
        requires
            self.wf(),
        ensures
            valid == self.valid(user_hash(id), token_hash(token@), now),
    {
        let hashed = hash_auth(id, token);
        self.is_valid(hashed.0.as_str(), hashed.1.as_str(), now)
    }

    /// Keeps a token of a user until `expires`; if the token is kept
    /// already, only its expiry changes.
    pub fn insert(&mut self, user: String, token: String, expires: u128)
        requires
            old(self).wf(),
        ensures
            final(self).wf(),
            final(self).holds(user@, token@),
            final(self).expires(user@, token@) == expires,
            forall|u: Seq<char>, t: Seq<char>|
                (u, t) != (user@, token@) ==> (#[trigger] final(self).holds(u, t) == old(self).holds(u, t)),
            forall|u: Seq<char>, t: Seq<char>|
                (u, t) != (user@, token@) && old(self).holds(u, t) ==> (#[trigger] final(self).expires(u, t) == old(self).expires(u, t)),
    {
        match self.find(user.as_str(), token.as_str()) {
            Some(i) => {
                self.entries[i].expires = expires;
                proof {
                    assert forall|a: int| 0 <= a < self.entries.len() implies #[trigger] self.key_at(
                        a,
                    ) == old(self).key_at(a) by {}
                    self.lemma_at(i as int);
                    self.lemma_others(old(self), user@, token@);
                }
            },
            None => {
                self.entries.push(Session { user, token, expires });
                proof {
                    let n = old(self).entries.len() as int;
                    assert forall|a: int| 0 <= a < n implies #[trigger] self.key_at(a) == old(self).key_at(a) by {}
                    assert(self.key_at(n) == (user@, token@));
                    assert forall|a: int, b: int| 0 <= a < b < self.entries.len() implies
                        #[trigger] self.key_at(a) != #[trigger] self.key_at(b) by {
                        if b == n {
                            assert(old(self).key_at(a) != (user@, token@));
                        } else {
                            assert(old(self).key_at(a) != old(self).key_at(b));
                        }
                    }
                    self.lemma_at(n);
                    assert forall|u: Seq<char>, t: Seq<char>| (u, t) != (user@, token@) implies (
                    #[trigger] self.holds(u, t) == old(self).holds(u, t)) by {
                        if old(self).holds(u, t) {
                            let p = old(self).position(u, t);
                            assert(self.key_at(p) == (u, t));
                        } else if self.holds(u, t) {
                            let p = self.position(u, t);
                            assert(old(self).key_at(p) == (u, t));
                        }
                    }
                    assert forall|u: Seq<char>, t: Seq<char>|
                        (u, t) != (user@, token@) && old(self).holds(u, t) implies (
                    #[trigger] self.expires(u, t) == old(self).expires(u, t)) by {
                        let p = old(self).position(u, t);
                        assert(self.key_at(p) == (u, t));
                        self.lemma_at(p);
                    }
                }
            },
        }
    }

    /// The two hold the same keys at the same positions, and the same
    /// expiries but for the given token.
    proof fn lemma_others(&self, before: &Self, user: Seq<char>, token: Seq<char>)
        requires
            before.wf(),
            self.entries.len() == before.entries.len(),
            forall|a: int| 0 <= a < self.entries.len() ==> #[trigger] self.key_at(a) == before.key_at(a),
            forall|a: int|
                0 <= a < self.entries.len() && before.key_at(a) != (user, token)
                    ==> #[trigger] self.entries[a].expires == before.entries[a].expires,
        ensures
            self.wf(),
            forall|u: Seq<char>, t: Seq<char>| #[trigger] self.holds(u, t) == before.holds(u, t),
            forall|u: Seq<char>, t: Seq<char>|
                (u, t) != (user, token) && before.holds(u, t) ==> (#[trigger] self.expires(u, t)
                    == before.expires(u, t)),
    {
        assert forall|a: int, b: int| 0 <= a < b < self.entries.len() implies #[trigger] self.key_at(
            a,
        ) != #[trigger] self.key_at(b) by {
            assert(before.key_at(a) != before.key_at(b));
        }
        assert forall|u: Seq<char>, t: Seq<char>| #[trigger] self.holds(u, t) == before.holds(
            u,
            t,
        ) by {
            if before.holds(u, t) {
                let p = before.position(u, t);
                assert(self.key_at(p) == (u, t));
            }
            if self.holds(u, t) {
                let p = self.position(u, t);
                assert(before.key_at(p) == (u, t));
            }
        }
        assert forall|u: Seq<char>, t: Seq<char>|
            (u, t) != (user, token) && before.holds(u, t) implies (#[trigger] self.expires(u, t)
            == before.expires(u, t)) by {
            let p = before.position(u, t);
            assert(self.key_at(p) == (u, t));
            self.lemma_at(p);
        }
    }

    /// Forgets the tokens that are of the user, if one is named, are the
    /// token, if one is named, and are expired at the time, if one is named,
    /// and keeps the others as they are.
    fn retain(&mut self, user: Option<&str>, token: Option<&str>, now: Option<u128>)
        requires
            old(self).wf(),
        ensures
            final(self).wf(),
            forall|u: Seq<char>, t: Seq<char>| #[trigger]
                final(self).holds(u, t) == (old(self).holds(u, t) && kept(
                    user,
                    token,
                    now,
                    u,
                    t,
                    old(self).expires(u, t),
                )),
            forall|u: Seq<char>, t: Seq<char>|
                final(self).holds(u, t) ==> (#[trigger] final(self).expires(u, t)) == old(self).expires(u, t),
    {
        let mut kept_entries: Vec<Session> = Vec::new();
        let ghost mut origin: Seq<int> = Seq::empty();
        let mut i: usize = 0;
        while i < self.entries.len()
            invariant
                0 <= i <= self.entries.len(),
                *self == *old(self),
                self.wf(),
                origin.len() == kept_entries@.len(),
                forall|a: int|
                    0 <= a < origin.len() ==> 0 <= #[trigger] origin[a] < i && kept_entries@[a]
                        == self.entries[origin[a]] && kept(
                        user,
                        token,
                        now,
                        self.entries[origin[a]].user@,
                        self.entries[origin[a]].token@,
                        self.entries[origin[a]].expires,
                    ),
                forall|a: int, b: int| 0 <= a < b < origin.len() ==> origin[a] < origin[b],
                forall|p: int|
                    0 <= p < i && kept(
                        user,
                        token,
                        now,
                        self.entries[p].user@,
                        self.entries[p].token@,
                        self.entries[p].expires,
                    ) ==> exists|a: int| 0 <= a < origin.len() && #[trigger] origin[a] == p,
            decreases self.entries.len() - i,
        {
            let entry = &self.entries[i];
            let user_goes = match user {
                Some(user) => same_text(entry.user.as_str(), user),
                None => true,
            };
            let token_goes = match token {
                Some(token) => same_text(entry.token.as_str(), token),
                None => true,
            };
            let time_goes = match now {
                Some(now) => entry.expires <= now,
                None => true,
            };
            if !(user_goes && token_goes && time_goes) {
                kept_entries.push(
                    Session {
                        user: entry.user.clone(),
                        token: entry.token.clone(),
                        expires: entry.expires,
                    },
                );
                proof {
                    let before = origin;
                    origin = origin.push(i as int);
                    assert forall|p: int|
                        0 <= p < i + 1 && kept(
                            user,
                            token,
                            now,
                            self.entries[p].user@,
                            self.entries[p].token@,
                            self.entries[p].expires,
                        ) implies exists|a: int| 0 <= a < origin.len() && #[trigger] origin[a]
                        == p by {
                        if p < i {
                            let a = choose|a: int| 0 <= a < before.len() && #[trigger] before[a] == p;
                            assert(origin[a] == p);
                        } else {
                            assert(origin[before.len() as int] == p);
                        }
                    }
                }
            }
            i = i + 1;
        }
        self.entries = kept_entries;
        proof {
            let before = old(self);
            assert forall|a: int| 0 <= a < self.entries.len() implies #[trigger] self.key_at(a)
                == before.key_at(origin[a]) by {}
            assert forall|a: int, b: int| 0 <= a < b < self.entries.len() implies #[trigger] self.key_at(
                a,
            ) != #[trigger] self.key_at(b) by {
                assert(before.key_at(origin[a]) != before.key_at(origin[b]));
            }
            assert forall|u: Seq<char>, t: Seq<char>| #[trigger]
                self.holds(u, t) == (before.holds(u, t) && kept(
                    user,
                    token,
                    now,
                    u,
                    t,
                    before.expires(u, t),
                )) && (self.holds(u, t) ==> self.expires(u, t) == before.expires(u, t)) by {
                if self.holds(u, t) {
                    let a = self.position(u, t);
                    assert(before.key_at(origin[a]) == (u, t));
                    before.lemma_at(origin[a]);
                    self.lemma_at(a);
                }
                if before.holds(u, t) && kept(user, token, now, u, t, before.expires(u, t)) {
                    let p = before.position(u, t);
                    before.lemma_at(p);
                    let a = choose|a: int| 0 <= a < origin.len() && #[trigger] origin[a] == p;
                    assert(self.key_at(a) == (u, t));
                }
            }
        }
    }

    /// Forgets every token of a user.
    pub fn invalidate_tokens(&mut self, id: ID)
        requires
            old(self).wf(),
        ensures
            final(self).wf(),
            forall|u: Seq<char>, t: Seq<char>| #[trigger]
                final(self).holds(u, t) == (old(self).holds(u, t) && u != user_hash(id)),
            forall|u: Seq<char>, t: Seq<char>|
                final(self).holds(u, t) ==> (#[trigger] final(self).expires(u, t)) == old(self).expires(u, t),
    {
        let hashed = hash_auth(id, String::new());
        self.retain(Some(hashed.0.as_str()), None, None);
    }

    /// Forgets one token of a user.
    pub fn invalidate_token(&mut self, id: ID, token: String)
        requires
            old(self).wf(),
        ensures
            final(self).wf(),
            forall|u: Seq<char>, t: Seq<char>| #[trigger]
                final(self).holds(u, t) == (old(self).holds(u, t) && (u, t) != (
                    user_hash(id),
                    token_hash(token@),
                )),
            forall|u: Seq<char>, t: Seq<char>|
                final(self).holds(u, t) ==> (#[trigger] final(self).expires(u, t)) == old(self).expires(u, t),
    {
        let hashed = hash_auth(id, token);
        self.retain(Some(hashed.0.as_str()), Some(hashed.1.as_str()), None);
    }

    /// Forgets every token that is expired at `now`.
    pub fn remove_expired(&mut self, now: u128)
        requires
            old(self).wf(),
        ensures
            final(self).wf(),
            forall|u: Seq<char>, t: Seq<char>| #[trigger]
                final(self).holds(u, t) == old(self).valid(u, t, now),
            forall|u: Seq<char>, t: Seq<char>|
                final(self).holds(u, t) ==> (#[trigger] final(self).expires(u, t)) == old(self).expires(u, t),
    {
        self.retain(None, None, Some(now));
    }

    /// Keeps a fresh token for a user until `expires`, forgets every token
    /// that is expired at `now`, and returns the token with the user.
    pub fn login(&mut self, id: ID, expires: u128, now: u128) -> (granted: IDToken)
        requires
            old(self).wf(),
        ensures
            final(self).wf(),
            granted.id == id,
            exists|bytes: Seq<u8>|
                bytes.len() == TOKEN_BYTES && granted.token@ == #[trigger] base64_url(bytes),
            final(self).holds(user_hash(id), token_hash(granted.token@)) == (expires > now),
            forall|u: Seq<char>, t: Seq<char>|
                (u, t) != (user_hash(id), token_hash(granted.token@)) ==> (#[trigger] final(self).holds(u, t) == old(self).valid(u, t, now)),
            forall|u: Seq<char>, t: Seq<char>|
                final(self).holds(u, t) ==> (#[trigger] final(self).expires(u, t)) == if (u, t) == (
                    user_hash(id),
                    token_hash(granted.token@),
                ) {
                    expires
                } else {
                    old(self).expires(u, t)
                },
    {
        let token = new_token();
        let hashed = hash_auth(id, token.clone());
        let ghost key = (hashed.0@, hashed.1@);
        self.insert(hashed.0, hashed.1, expires);
        let ghost middle = *self;
        self.remove_expired(now);
        proof {
            assert forall|u: Seq<char>, t: Seq<char>| (u, t) != key implies (#[trigger] self.holds(
                u,
                t,
            ) == old(self).valid(u, t, now)) by {
                assert(middle.holds(u, t) == old(self).holds(u, t));
            }
        }
        IDToken { id, token }
    }

    /// The tokens that are kept, for writing them down.
    pub fn entries(&self) -> (entries: &Vec<Session>)
        requires
            self.wf(),
        ensures
            forall|i: int|
                0 <= i < entries@.len() ==> self.holds(
                    (#[trigger] entries@[i]).user@,
                    entries@[i].token@,
                ) && self.expires(entries@[i].user@, entries@[i].token@) == entries@[i].expires,
            forall|u: Seq<char>, t: Seq<char>| #[trigger]
                self.holds(u, t) ==> exists|i: int|
                    0 <= i < entries@.len() && (#[trigger] entries@[i]).user@ == u
                        && entries@[i].token@ == t,
    {
        proof {
            assert forall|i: int| 0 <= i < self.entries@.len() implies self.holds(
                (#[trigger] self.entries@[i]).user@,
                self.entries@[i].token@,
            ) && self.expires(self.entries@[i].user@, self.entries@[i].token@)
                == self.entries@[i].expires by {
                self.lemma_at(i);
            }
            assert forall|u: Seq<char>, t: Seq<char>| #[trigger] self.holds(u, t) implies exists|
                i: int,
            |
                0 <= i < self.entries@.len() && (#[trigger] self.entries@[i]).user@ == u
                    && self.entries@[i].token@ == t by {
                let p = self.position(u, t);
                assert(self.key_at(p) == (u, t));
                assert(self.entries@[p].user@ == u);
            }
        }
        &self.entries
    }
}

/// Whether a token with the given hashes and expiry stays when tokens are
/// forgotten by user, token and time: it goes where it is of the user, if
/// one is named, is the token, if one is named, and is expired at the time,
/// if one is named.
pub open spec fn kept(
    user: Option<&str>,
    token: Option<&str>,
    now: Option<u128>,
    u: Seq<char>,
    t: Seq<char>,
    expires: u128,
) -> bool {
    !((user is Some ==> user->0@ == u) && (token is Some ==> token->0@ == t) && (now is Some
        ==> expires <= now->0))
}

/// Whether two texts are the same.
fn same_text(a: &str, b: &str) -> (same: bool)
    ensures
        same == (a@ == b@),
{
    let x = a.as_bytes();
    let y = b.as_bytes();
    if x.len() != y.len() {
        return false;
    }
    let mut i: usize = 0;
    while i < x.len()
        invariant
            0 <= i <= x.len(),
            x.len() == y.len(),
            x@ == vstd::utf8::encode_utf8(a@),
            y@ == vstd::utf8::encode_utf8(b@),
            forall|j: int| 0 <= j < i ==> x@[j] == y@[j],
        decreases x.len() - i,
    {
        if x[i] != y[i] {
            return false;
        }
        i = i + 1;
    }
    proof {
        assert(x@ =~= y@);
        vstd::utf8::encode_utf8_decode_utf8(a@);
        vstd::utf8::encode_utf8_decode_utf8(b@);
    }
    true
}

} // verus!
