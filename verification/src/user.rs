//! Users, and the accounts that own them.

use crate::error::Error;
use crate::hub::Hub;
use crate::{is_valid_username, new_id, valid_username, ApiActionError, ID};
use std::collections::HashMap;
use vstd::prelude::*;
use vstd::string::*;

verus! {

broadcast use vstd::std_specs::hash::group_hash_axioms;

/// The SHA-256 digest of the bytes, in lower-case hexadecimal digits.
pub uninterp spec fn sha256_hex(data: Seq<u8>) -> Seq<char>;

/// `Sha256::new`, `update` and `finalize` of the sha2 crate, printed in
/// hexadecimal: the digest of the bytes.
#[verifier::external_body]
fn sha2_hex(data: &[u8]) -> (hex: String)
    ensures
        hex@ == sha256_hex(data@),
{
    let mut hasher = <sha2::Sha256 as sha2::Digest>::new();
    sha2::Digest::update(&mut hasher, data);
    format!("{:x}", sha2::Digest::finalize(hasher))
}

/// The identifier of the account that a service knows under `id`: the
/// digest of `id` followed by the name of the service.
pub open spec fn account_id(id: Seq<char>, service: Seq<char>) -> Seq<char> {
    sha256_hex(vstd::utf8::encode_utf8(id) + vstd::utf8::encode_utf8(service))
}

/// The identifier of the account that a service knows under `id`.
pub fn get_id(id: &str, service: &str) -> (hashed: String)
    ensures
        hashed@ == account_id(id@, service@),
{
    let mut data = id.as_bytes_vec();
    let mut rest = service.as_bytes_vec();
    data.append(&mut rest);
    sha2_hex(data.as_slice())
}

/// A user.
#[derive(Clone, Debug, PartialEq, Eq)]
pub struct User {
    pub id: ID,
    pub username: String,
    /// Milliseconds since the Unix epoch at which the user was created.
    pub created: u128,
    /// The account that the user belongs to.
    pub parent_id: String,
    /// The hubs that the user is a member of.
    pub in_hubs: Vec<ID>,
}

impl User {
    /// A user with the given identifier and time of creation, who is in no
    /// hub. Fails where the name is not a valid one.
    pub fn with(id: ID, username: String, parent_id: String, created: u128) -> (user: Result<
        Self,
        (),
    >)
        ensures
            user is Ok <==> valid_username(username@),
            user matches Ok(user) ==> {
                &&& user.id == id
                &&& user.username == username
                &&& user.parent_id == parent_id
                &&& user.created == created
                &&& user.in_hubs@ == Seq::<ID>::empty()
            },
    {
        if is_valid_username(username.as_str()) {
            Ok(User { id, username, parent_id, created, in_hubs: Vec::new() })
        } else {
            Err(())
        }
    }

    /// A user with a fresh identifier, created at the time `created`, who
    /// is in no hub. Fails where the name is not a valid one.
    pub fn new(username: String, parent_id: String, created: u128) -> (user: Result<Self, ()>)
        ensures
            user is Ok <==> valid_username(username@),
            user matches Ok(user) ==> {
                &&& user.username == username
                &&& user.parent_id == parent_id
                &&& user.created == created
                &&& user.in_hubs@ == Seq::<ID>::empty()
            },
    {
        Self::with(new_id(), username, parent_id, created)
    }
}

/// Whether `id` is in the list.
fn listed(list: &Vec<ID>, id: ID) -> (found: bool)
    ensures
        found == list@.contains(id),
{
    let mut i: usize = 0;
    while i < list.len()
        invariant
            0 <= i <= list.len(),
            forall|j: int| 0 <= j < i ==> list@[j] != id,
        decreases list.len() - i,
    {
        if list[i] == id {
            return true;
        }
        i = i + 1;
    }
    false
}

/// What holds of every identifier but `id`.
pub open spec fn other_than(id: ID) -> spec_fn(ID) -> bool {
    |other: ID| other != id
}

/// The list without `id`, in the order that it had.
fn unlisted(list: &Vec<ID>, id: ID) -> (rest: Vec<ID>)
    ensures
        rest@ == list@.filter(other_than(id)),
        !rest@.contains(id),
        forall|other: ID| other != id ==> rest@.contains(other) == list@.contains(other),
{
    let mut rest: Vec<ID> = Vec::new();
    let mut i: usize = 0;
    while i < list.len()
        invariant
            0 <= i <= list.len(),
            rest@ == list@.subrange(0, i as int).filter(other_than(id)),
        decreases list.len() - i,
    {
        proof {
            let done = list@.subrange(0, i as int);
            assert(list@.subrange(0, i + 1) == done.push(list@[i as int]));
            done.lemma_filter_push(list@[i as int], other_than(id));
        }
        if list[i] != id {
            rest.push(list[i]);
        }
        i = i + 1;
    }
    proof {
        assert(list@.subrange(0, i as int) == list@);
        assert(!rest@.contains(id)) by {
            if rest@.contains(id) {
                let at = choose|at: int| 0 <= at < rest@.len() && rest@[at] == id;
                list@.lemma_filter_pred(other_than(id), at);
            }
        }
        assert forall|other: ID| other != id implies rest@.contains(other) == list@.contains(
            other,
        ) by {
            if list@.contains(other) {
                let at = choose|at: int| 0 <= at < list@.len() && list@[at] == other;
                list@.lemma_filter_contains(other_than(id), at);
            }
            if rest@.contains(other) {
                list@.lemma_filter_contains_rev(other_than(id), other);
            }
        }
    }
    rest
}

impl User {
    /// Whether the user's list of hubs and the members of the hub agree on
    /// whether the user is a member of the hub.
    pub open spec fn linked(&self, hub: &Hub) -> bool {
        hub.is_member(self.id) <==> self.in_hubs@.contains(hub.id)
    }

    /// Checks that the user's list of hubs and the members of the hub agree
    /// on whether the user is a member of the hub.
    pub fn is_linked(&self, hub: &Hub) -> (linked: bool)
        ensures
            linked == self.linked(hub),
    {
        hub.members.contains_key(&self.id) == listed(&self.in_hubs, hub.id)
    }

    /// Makes the user a member of the hub, on both sides. A banned user
    /// cannot join, and stays as they are.
    pub fn join_hub(&mut self, hub: &mut Hub, now: u128) -> (done: Result<(), Error>)
        requires
            old(hub).wf(),
            old(self).linked(old(hub)),
        ensures
            final(hub).wf(),
            final(self).linked(final(hub)),
            final(self).id == old(self).id,
            final(self).username == old(self).username,
            final(self).created == old(self).created,
            final(self).parent_id == old(self).parent_id,
            final(hub).same_frame(old(hub)),
            final(hub).bans == old(hub).bans,
            final(hub).mutes == old(hub).mutes,
            done == if old(hub).is_banned(old(self).id) {
                Err::<(), Error>(Error::Banned)
            } else {
                Ok(())
            },
            match done {
                Ok(_) => {
                    &&& final(hub).is_member(old(self).id)
                    &&& final(self).in_hubs@ == if old(hub).is_member(old(self).id) {
                        old(self).in_hubs@
                    } else {
                        old(self).in_hubs@.push(old(hub).id)
                    }
                    &&& forall|other: ID|
                        other != old(self).id ==> final(hub).is_member(other) == old(hub).is_member(
                            other,
                        )
                },
                Err(_) => final(self).in_hubs == old(self).in_hubs && final(hub).members@ == old(hub).members@,
            },
    {
        let was_member = hub.members.contains_key(&self.id);
        match hub.join(self.id, now) {
            Err(e) => Err(e),
            Ok(_) => {
                if !was_member {
                    self.in_hubs.push(hub.id);
                    assert(self.in_hubs@[self.in_hubs@.len() - 1] == hub.id);
                }
                Ok(())
            },
        }
    }

    /// Takes the user out of the hub, on both sides. The owner does not
    /// leave.
    pub fn leave_hub(&mut self, hub: &mut Hub) -> (done: Result<(), Error>)
        requires
            old(hub).wf(),
        ensures
            final(hub).wf(),
            final(self).id == old(self).id,
            final(self).username == old(self).username,
            final(self).created == old(self).created,
            final(self).parent_id == old(self).parent_id,
            final(hub).bans == old(hub).bans,
            done == if !old(hub).is_member(old(self).id) {
                Err::<(), Error>(Error::NotAMember)
            } else if old(self).id == old(hub).owner {
                Err(Error::MissingHubPermission(crate::permission::HubPermission::All))
            } else {
                Ok(())
            },
            match done {
                Ok(_) => {
                    &&& final(self).linked(final(hub))
                    &&& final(hub).member_removed(old(hub), old(self).id)
                    &&& final(self).in_hubs@ == old(self).in_hubs@.filter(other_than(old(hub).id))
                },
                Err(_) => *final(hub) == *old(hub) && final(self).in_hubs == old(self).in_hubs,
            },
    {
        match hub.leave(self.id) {
            Err(e) => Err(e),
            Ok(_) => {
                self.in_hubs = unlisted(&self.in_hubs, hub.id);
                Ok(())
            },
        }
    }
}

/// An account of an OAuth service, with the users that belong to it.
#[derive(Clone, Debug, PartialEq, Eq)]
pub struct Account {
    pub id: String,
    pub email: String,
    /// Milliseconds since the Unix epoch at which the account was created.
    pub created: u128,
    pub service: String,
    pub users: HashMap<ID, User>,
}

impl Account {
    /// The account that `service` knows under `id`, created at the time
    /// `created`, without users.
    pub fn new(id: String, email: String, service: String, created: u128) -> (account: Self)
        ensures
            account.id@ == account_id(id@, service@),
            account.email == email,
            account.service == service,
            account.created == created,
            account.users@ == Map::<ID, User>::empty(),
    {
        Account {
            id: get_id(id.as_str(), service.as_str()),
            email,
            service,
            users: HashMap::new(),
            created,
        }
    }

    /// Gives the account a new user with the given name, created at the
    /// time `now`, under a fresh key, and returns the user. Fails, and
    /// changes nothing, where the name is not a valid one.
    pub fn create_new_user(&mut self, username: String, now: u128) -> (created: Result<
        User,
        ApiActionError,
    >)
        ensures
            final(self).id == old(self).id,
            final(self).email == old(self).email,
            final(self).service == old(self).service,
            final(self).created == old(self).created,
            match created {
                Ok(user) => {
                    &&& valid_username(username@)
                    &&& user.username == username
                    &&& user.parent_id == old(self).id
                    &&& user.created == now
                    &&& user.in_hubs@ == Seq::<ID>::empty()
                    &&& exists|key: ID| #[trigger]
                        final(self).users@.contains_key(key) && final(self).users@.remove(key)
                            == old(self).users@.remove(key) && final(self).users@[key].id == user.id
                            && final(self).users@[key].username == username && final(self).users@[key].created == user.created
                },
                Err(e) => e == ApiActionError::BadNameCharacters && !valid_username(username@)
                    && final(self).users == old(self).users,
            },
    {
        match User::new(username, self.id.clone(), now) {
            Err(_) => Err(ApiActionError::BadNameCharacters),
            Ok(user) => {
                let copy = User {
                    id: user.id,
                    username: user.username.clone(),
                    parent_id: user.parent_id.clone(),
                    created: user.created,
                    in_hubs: Vec::new(),
                };
                let key = new_id();
                self.users.insert(key, copy);
                assert(self.users@.contains_key(key));
                assert(self.users@.remove(key) =~= old(self).users@.remove(key));
                Ok(user)
            },
        }
    }

    /// Who sends for a user of the account in a hub: the user's own
    /// identifier. Fails where the account has no user under the key, or
    /// the user is in no such hub.
    pub fn send_guild_message(&self, user: ID, guild: ID) -> (sender: Result<ID, ApiActionError>)
        ensures
            sender == if !self.users@.contains_key(user) {
                Err::<ID, ApiActionError>(ApiActionError::UserNotFound)
            } else if !self.users@[user].in_hubs@.contains(guild) {
                Err(ApiActionError::NotInGuild)
            } else {
                Ok(self.users@[user].id)
            },
    {
        match self.users.get(&user) {
            None => Err(ApiActionError::UserNotFound),
            Some(found) => if listed(&found.in_hubs, guild) {
                Ok(found.id)
            } else {
                Err(ApiActionError::NotInGuild)
            },
        }
    }

    /// Makes a hub with the given name, created at the time `now`, for a
    /// user of the account, who owns it and has it on their list. Fails,
    /// and changes nothing, where the name is not a valid one or the
    /// account has no user under the key.
    pub fn create_guild(&mut self, name: String, user: ID, now: u128) -> (created: Result<
        Hub,
        ApiActionError,
    >)
        ensures
            final(self).id == old(self).id,
            final(self).email == old(self).email,
            final(self).service == old(self).service,
            final(self).created == old(self).created,
            match created {
                Ok(hub) => {
                    &&& valid_username(name@)
                    &&& old(self).users@.contains_key(user)
                    &&& hub.wf()
                    &&& hub.name == name
                    &&& hub.owner == old(self).users@[user].id
                    &&& hub.members@.dom() == set![hub.owner]
                    &&& final(self).users@.dom() == old(self).users@.dom()
                    &&& final(self).users@[user].in_hubs@ == old(self).users@[user].in_hubs@.push(
                        hub.id,
                    )
                    &&& final(self).users@[user].id == old(self).users@[user].id
                    &&& final(self).users@[user].username == old(self).users@[user].username
                    &&& forall|other: ID|
                        other != user && old(self).users@.contains_key(other) ==> final(self).users@[other] == old(self).users@[other]
                },
                Err(e) => {
                    &&& final(self).users@ == old(self).users@
                    &&& e == if !valid_username(name@) {
                        ApiActionError::BadNameCharacters
                    } else {
                        ApiActionError::UserNotFound
                    }
                    &&& valid_username(name@) ==> !old(self).users@.contains_key(user)
                },
            },
    {
        if !is_valid_username(name.as_str()) {
            return Err(ApiActionError::BadNameCharacters);
        }
        match self.users.remove(&user) {
            None => {
                assert(self.users@ =~= old(self).users@);
                Err(ApiActionError::UserNotFound)
            },
            Some(found) => {
                let mut owner = found;
                let hub = Hub::new(new_id(), name, owner.id, now);
                owner.in_hubs.push(hub.id);
                self.users.insert(user, owner);
                assert(self.users@.dom() =~= old(self).users@.dom());
                Ok(hub)
            },
        }
    }
}

} // verus!
