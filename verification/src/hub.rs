//! Hubs, their members, and the rules that decide what a member may do.

use crate::channel::Channel;
use crate::error::Error;
use crate::permission::{
    ChannelPermission, ChannelPermissionSet, HubPermission, HubPermissionSet, PermissionSetting,
};
use crate::ID;
use std::collections::{HashMap, HashSet};
use vstd::prelude::*;
use vstd::std_specs::iter::IteratorSpec;

verus! {

broadcast use vstd::std_specs::hash::group_hash_axioms;

/// A user bound to a hub, with the permissions set for them there.
#[derive(Clone, Debug)]
pub struct HubMember {
    pub user_id: ID,
    pub hub_id: ID,
    /// Milliseconds since the Unix epoch at which the user joined.
    pub joined: u128,
    pub nickname: String,
    pub hub_permissions: HubPermissionSet,
    /// Settings per channel; a channel without an entry has none set.
    pub channel_permissions: HashMap<ID, ChannelPermissionSet>,
}

/// A snapshot of one hub: its channels, members, bans and mutes.
#[derive(Debug)]
pub struct Hub {
    pub id: ID,
    pub name: String,
    pub description: String,
    pub owner: ID,
    pub members: HashMap<ID, HubMember>,
    pub channels: HashMap<ID, Channel>,
    pub default_permission_groups: Vec<ID>,
    pub bans: HashSet<ID>,
    pub mutes: HashSet<ID>,
}

/// What an explicit setting decides, and `fallback` where nothing is set.
pub open spec fn setting_or(setting: PermissionSetting, fallback: bool) -> bool {
    match setting {
        PermissionSetting::Allow => true,
        PermissionSetting::Deny => false,
        PermissionSetting::Unset => fallback,
    }
}

impl HubMember {
    /// The member's setting of `permission` in `channel`: unset where the
    /// member has no entry for the channel.
    pub open spec fn channel_setting(
        &self,
        channel: ID,
        permission: ChannelPermission,
    ) -> PermissionSetting {
        if self.channel_permissions@.contains_key(channel) {
            self.channel_permissions@[channel].spec_get(permission)
        } else {
            PermissionSetting::Unset
        }
    }

    /// Whether the member holds the hub permission `All`.
    pub open spec fn has_all(&self) -> bool {
        self.hub_permissions.all == PermissionSetting::Allow
    }

    /// Whether the member may use the hub permission. The first of these
    /// that applies decides: the hub's owner may; a banned user may not; an
    /// explicit setting of the permission; `All`; otherwise not.
    pub open spec fn may_in_hub(&self, permission: HubPermission, hub: &Hub) -> bool {
        if hub.owner == self.user_id {
            true
        } else if hub.bans@.contains(self.user_id) {
            false
        } else {
            setting_or(self.hub_permissions.spec_get(permission), self.has_all())
        }
    }

    /// Whether the member may use the channel permission. A muted member
    /// may never write. Otherwise the first of these that applies decides:
    /// the hub's owner may; a banned user may not; an explicit setting for
    /// the channel; an explicit setting of the hub-wide counterpart; `All`;
    /// otherwise not.
    pub open spec fn may_in_channel(
        &self,
        channel: ID,
        permission: ChannelPermission,
        hub: &Hub,
    ) -> bool {
        if permission == ChannelPermission::Write && hub.mutes@.contains(self.user_id) {
            false
        } else if hub.owner == self.user_id {
            true
        } else if hub.bans@.contains(self.user_id) {
            false
        } else {
            setting_or(
                self.channel_setting(channel, permission),
                setting_or(
                    self.hub_permissions.spec_get(permission.spec_hub_equivalent()),
                    self.has_all(),
                ),
            )
        }
    }

    /// A member who joined at `joined` with nothing set.
    pub fn new(user_id: ID, hub_id: ID, joined: u128) -> (member: Self)
        ensures
            member.user_id == user_id,
            member.hub_id == hub_id,
            member.joined == joined,
            member.nickname@ == Seq::<char>::empty(),
            member.hub_permissions == HubPermissionSet::spec_unset(),
            member.channel_permissions@ == Map::<ID, ChannelPermissionSet>::empty(),
    {
        HubMember {
            user_id,
            hub_id,
            joined,
            nickname: String::new(),
            hub_permissions: HubPermissionSet::unset(),
            channel_permissions: HashMap::new(),
        }
    }

    /// Sets one hub permission of the member.
    pub fn set_permission(&mut self, permission: HubPermission, setting: PermissionSetting)
        ensures
            final(self).hub_permissions.spec_get(permission) == setting,
            forall|p: HubPermission|
                p != permission ==> final(self).hub_permissions.spec_get(p) == old(self).hub_permissions.spec_get(p),
            final(self).channel_permissions == old(self).channel_permissions,
            final(self).user_id == old(self).user_id,
            final(self).hub_id == old(self).hub_id,
            final(self).joined == old(self).joined,
            final(self).nickname == old(self).nickname,
    {
        self.hub_permissions.set(permission, setting);
    }

    /// Sets one permission of the member in one channel.
    pub fn set_channel_permission(
        &mut self,
        channel: ID,
        permission: ChannelPermission,
        setting: PermissionSetting,
    )
        ensures
            final(self).channel_setting(channel, permission) == setting,
            forall|c: ID, p: ChannelPermission|
                (c != channel || p != permission) ==> final(self).channel_setting(c, p) == old(self).channel_setting(c, p),
            final(self).hub_permissions == old(self).hub_permissions,
            final(self).user_id == old(self).user_id,
            final(self).hub_id == old(self).hub_id,
            final(self).joined == old(self).joined,
            final(self).nickname == old(self).nickname,
    {
        let mut set = match self.channel_permissions.get(&channel) {
            Some(set) => *set,
            None => ChannelPermissionSet::unset(),
        };
        set.set(permission, setting);
        self.channel_permissions.insert(channel, set);
    }

    /// Decides whether the member may use a hub permission.
    pub fn has_permission(&self, permission: HubPermission, hub: &Hub) -> (allowed: bool)
        ensures
            allowed == self.may_in_hub(permission, hub),
    {
        if hub.owner == self.user_id {
            return true;
        }
        if hub.bans.contains(&self.user_id) {
            return false;
        }
        match self.hub_permissions.get(permission) {
            PermissionSetting::Allow => true,
            PermissionSetting::Deny => false,
            PermissionSetting::Unset => self.has_all_permissions(),
        }
    }

    /// Whether the member holds the hub permission `All`.
    pub fn has_all_permissions(&self) -> (all: bool)
        ensures
            all == self.has_all(),
    {
        match self.hub_permissions.all {
            PermissionSetting::Allow => true,
            _ => false,
        }
    }

    /// Decides whether the member may use a permission in a channel.
    pub fn has_channel_permission(
        &self,
        channel_id: &ID,
        permission: &ChannelPermission,
        hub: &Hub,
    ) -> (allowed: bool)
        ensures
            allowed == self.may_in_channel(*channel_id, *permission, hub),
    {
        let muted_writer = match permission {
            ChannelPermission::Write => hub.mutes.contains(&self.user_id),
            _ => false,
        };
        if muted_writer {
            return false;
        }
        if hub.owner == self.user_id {
            return true;
        }
        if hub.bans.contains(&self.user_id) {
            return false;
        }
        let in_channel = match self.channel_permissions.get(channel_id) {
            Some(set) => set.get(*permission),
            None => PermissionSetting::Unset,
        };
        match in_channel {
            PermissionSetting::Allow => true,
            PermissionSetting::Deny => false,
            PermissionSetting::Unset => match self.hub_permissions.get(
                permission.hub_equivalent(),
            ) {
                PermissionSetting::Allow => true,
                PermissionSetting::Deny => false,
                PermissionSetting::Unset => self.has_all_permissions(),
            },
        }
    }
}

impl Hub {
    /// Whether the user is a member of the hub.
    pub open spec fn is_member(&self, user_id: ID) -> bool {
        self.members@.contains_key(user_id)
    }

    /// Whether the user is banned from the hub.
    pub open spec fn is_banned(&self, user_id: ID) -> bool {
        self.bans@.contains(user_id)
    }

    /// Whether the user is muted in the hub.
    pub open spec fn is_muted(&self, user_id: ID) -> bool {
        self.mutes@.contains(user_id)
    }

    /// What stands in the way of a user who asks for a channel permission:
    /// that they are no member, or that the member lacks the permission.
    pub open spec fn channel_access(
        &self,
        user_id: ID,
        channel_id: ID,
        permission: ChannelPermission,
    ) -> Result<(), Error> {
        if !self.is_member(user_id) {
            Err(Error::NotAMember)
        } else if !self.members@[user_id].may_in_channel(channel_id, permission, self) {
            Err(Error::MissingChannelPermission(permission))
        } else {
            Ok(())
        }
    }

    /// What stands in the way of a user who asks to subscribe to the hub:
    /// that they are no member, or a member who is banned and not the
    /// owner.
    pub open spec fn hub_access(&self, user_id: ID) -> Result<(), Error> {
        if !self.is_member(user_id) {
            Err(Error::NotAMember)
        } else if self.owner != user_id && self.is_banned(user_id) {
            Err(Error::Banned)
        } else {
            Ok(())
        }
    }

    /// What stands in the way of a user who signals typing in a channel: a
    /// ban, before anything else, then what stands in the way of writing.
    pub open spec fn typing_access(&self, user_id: ID, channel_id: ID) -> Result<(), Error> {
        if self.is_banned(user_id) {
            Err(Error::Banned)
        } else {
            self.channel_access(user_id, channel_id, ChannelPermission::Write)
        }
    }

    /// What stands in the way of a user who sends a message to a channel: a
    /// ban, before anything else; that they are no member; that they are
    /// muted, whatever they have been granted; that they may not write.
    pub open spec fn send_access(&self, user_id: ID, channel_id: ID) -> Result<(), Error> {
        if self.is_banned(user_id) {
            Err(Error::Banned)
        } else if !self.is_member(user_id) {
            Err(Error::NotAMember)
        } else if self.is_muted(user_id) {
            Err(Error::Muted)
        } else {
            self.channel_access(user_id, channel_id, ChannelPermission::Write)
        }
    }

    /// What stands in the way of a user who reads or searches a channel:
    /// what stands in the way of reading, then that the hub has no such
    /// channel.
    pub open spec fn read_access(&self, user_id: ID, channel_id: ID) -> Result<(), Error> {
        if self.channel_access(user_id, channel_id, ChannelPermission::Read) is Err {
            self.channel_access(user_id, channel_id, ChannelPermission::Read)
        } else if !self.channels@.contains_key(channel_id) {
            Err(Error::ChannelNotFound)
        } else {
            Ok(())
        }
    }

    /// The member entry of a user.
    pub fn get_member(&self, user_id: &ID) -> (found: Result<&HubMember, Error>)
        ensures
            match found {
                Ok(member) => self.is_member(*user_id) && *member == self.members@[*user_id],
                Err(e) => !self.is_member(*user_id) && e == Error::NotAMember,
            },
    {
        match self.members.get(user_id) {
            Some(member) => Ok(member),
            None => Err(Error::NotAMember),
        }
    }

    /// Checks that a user is a member with the given channel permission.
    pub fn check_channel_permission(
        &self,
        user_id: &ID,
        channel_id: &ID,
        permission: ChannelPermission,
    ) -> (verdict: Result<(), Error>)
        ensures
            verdict == self.channel_access(*user_id, *channel_id, permission),
    {
        match self.members.get(user_id) {
            Some(member) => {
                if member.has_channel_permission(channel_id, &permission, self) {
                    Ok(())
                } else {
                    Err(Error::MissingChannelPermission(permission))
                }
            },
            None => Err(Error::NotAMember),
        }
    }

    /// Checks that a user may subscribe to the hub.
    pub fn check_subscribe(&self, user_id: &ID) -> (verdict: Result<(), Error>)
        ensures
            verdict == self.hub_access(*user_id),
    {
        if !self.members.contains_key(user_id) {
            Err(Error::NotAMember)
        } else if self.owner != *user_id && self.bans.contains(user_id) {
            Err(Error::Banned)
        } else {
            Ok(())
        }
    }

    /// Checks that a user may signal typing in a channel.
    pub fn check_typing(&self, user_id: &ID, channel_id: &ID) -> (verdict: Result<(), Error>)
        ensures
            verdict == self.typing_access(*user_id, *channel_id),
    {
        if self.bans.contains(user_id) {
            Err(Error::Banned)
        } else {
            self.check_channel_permission(user_id, channel_id, ChannelPermission::Write)
        }
    }

    /// Checks that a user may send a message to a channel.
    pub fn check_send(&self, user_id: &ID, channel_id: &ID) -> (verdict: Result<(), Error>)
        ensures
            verdict == self.send_access(*user_id, *channel_id),
    {
        if self.bans.contains(user_id) {
            Err(Error::Banned)
        } else if !self.members.contains_key(user_id) {
            Err(Error::NotAMember)
        } else if self.mutes.contains(user_id) {
            Err(Error::Muted)
        } else {
            self.check_channel_permission(user_id, channel_id, ChannelPermission::Write)
        }
    }

    /// The channel, for a user who may read it.
    pub fn get_channel(&self, user_id: &ID, channel_id: &ID) -> (found: Result<&Channel, Error>)
        ensures
            match found {
                Ok(channel) => self.read_access(*user_id, *channel_id) is Ok && *channel
                    == self.channels@[*channel_id],
                Err(e) => self.read_access(*user_id, *channel_id) == Err::<(), Error>(e),
            },
    {
        match self.check_channel_permission(user_id, channel_id, ChannelPermission::Read) {
            Err(e) => Err(e),
            Ok(_) => match self.channels.get(channel_id) {
                Some(channel) => Ok(channel),
                None => Err(Error::ChannelNotFound),
            },
        }
    }

    /// The hub is consistent: each member and channel stands under its own
    /// identifier and belongs to this hub, the owner is a member, no banned
    /// user is a member, and every muted user is one.
    pub open spec fn wf(&self) -> bool {
        &&& self.is_member(self.owner)
        &&& forall|user_id: ID| #[trigger]
            self.members@.contains_key(user_id) ==> self.members@[user_id].user_id == user_id
                && self.members@[user_id].hub_id == self.id
        &&& forall|channel_id: ID| #[trigger]
            self.channels@.contains_key(channel_id) ==> self.channels@[channel_id].id
                == channel_id && self.channels@[channel_id].hub_id == self.id
        &&& forall|user_id: ID| #[trigger] self.bans@.contains(user_id) ==> !self.is_member(user_id)
        &&& forall|user_id: ID| #[trigger] self.mutes@.contains(user_id) ==> self.is_member(user_id)
    }

    /// Checks that the hub is consistent.
    pub fn is_consistent(&self) -> (ok: bool)
        ensures
            ok == self.wf(),
    {
        if !self.members.contains_key(&self.owner) {
            return false;
        }
        let ghost members = vstd::std_specs::hash::spec_hash_map_iter(&self.members).remaining();
        let mut members_fit = true;
        for entry in iter: self.members.iter()
            invariant
                iter.seq() == members,
                members_fit == (forall|i: int|
                    0 <= i < iter.index() ==> (#[trigger] members[i]).1.user_id == *members[i].0
                        && members[i].1.hub_id == self.id),
        {
            if entry.1.user_id != *entry.0 || entry.1.hub_id != self.id {
                members_fit = false;
            }
        }
        proof {
            assert(members_fit == (forall|user_id: ID| #[trigger]
                self.members@.contains_key(user_id) ==> self.members@[user_id].user_id == user_id
                    && self.members@[user_id].hub_id == self.id)) by {
                if members_fit {
                    assert forall|user_id: ID| #[trigger]
                        self.members@.contains_key(user_id) implies self.members@[user_id].user_id
                        == user_id && self.members@[user_id].hub_id == self.id by {
                        let pair = (&user_id, &self.members@[user_id]);
                        assert(members.contains(pair));
                        let i = choose|i: int| 0 <= i < members.len() && members[i] == pair;
                        assert(members[i].1.user_id == *members[i].0);
                    }
                } else {
                    let i = choose|i: int|
                        0 <= i < members.len() && !((#[trigger] members[i]).1.user_id
                            == *members[i].0 && members[i].1.hub_id == self.id);
                    assert(self.members@.contains_key(*members[i].0));
                }
            }
        }
        let ghost channels = vstd::std_specs::hash::spec_hash_map_iter(&self.channels).remaining();
        let mut channels_fit = true;
        for entry in iter: self.channels.iter()
            invariant
                iter.seq() == channels,
                channels_fit == (forall|i: int|
                    0 <= i < iter.index() ==> (#[trigger] channels[i]).1.id == *channels[i].0
                        && channels[i].1.hub_id == self.id),
        {
            if entry.1.id != *entry.0 || entry.1.hub_id != self.id {
                channels_fit = false;
            }
        }
        proof {
            assert(channels_fit == (forall|channel_id: ID| #[trigger]
                self.channels@.contains_key(channel_id) ==> self.channels@[channel_id].id
                    == channel_id && self.channels@[channel_id].hub_id == self.id)) by {
                if channels_fit {
                    assert forall|channel_id: ID| #[trigger]
                        self.channels@.contains_key(channel_id) implies self.channels@[channel_id].id
                        == channel_id && self.channels@[channel_id].hub_id == self.id by {
                        let pair = (&channel_id, &self.channels@[channel_id]);
                        assert(channels.contains(pair));
                        let i = choose|i: int| 0 <= i < channels.len() && channels[i] == pair;
                        assert(channels[i].1.id == *channels[i].0);
                    }
                } else {
                    let i = choose|i: int|
                        0 <= i < channels.len() && !((#[trigger] channels[i]).1.id
                            == *channels[i].0 && channels[i].1.hub_id == self.id);
                    assert(self.channels@.contains_key(*channels[i].0));
                }
            }
        }
        let ghost bans = vstd::std_specs::hash::spec_hash_keys_iter(&self.bans).remaining();
        let mut bans_fit = true;
        for banned in iter: self.bans.iter()
            invariant
                iter.seq() == bans,
                bans_fit == (forall|i: int|
                    0 <= i < iter.index() ==> !self.members@.contains_key(*#[trigger] bans[i])),
        {
            if self.members.contains_key(banned) {
                bans_fit = false;
            }
        }
        proof {
            assert(bans_fit == (forall|user_id: ID| #[trigger]
                self.bans@.contains(user_id) ==> !self.is_member(user_id))) by {
                assert(bans.unref().to_set() == self.bans@);
                if bans_fit {
                    assert forall|user_id: ID| #[trigger] self.bans@.contains(user_id) implies
                        !self.is_member(user_id) by {
                        assert(bans.unref().contains(user_id));
                        let i = choose|i: int| 0 <= i < bans.unref().len() && bans.unref()[i] == user_id;
                        assert(*bans[i] == user_id);
                    }
                } else {
                    let i = choose|i: int|
                        0 <= i < bans.len() && self.members@.contains_key(*#[trigger] bans[i]);
                    assert(bans.unref()[i] == *bans[i]);
                    assert(bans.unref().contains(*bans[i]));
                    assert(self.bans@.contains(*bans[i]));
                }
            }
        }
        let ghost mutes = vstd::std_specs::hash::spec_hash_keys_iter(&self.mutes).remaining();
        let mut mutes_fit = true;
        for muted in iter: self.mutes.iter()
            invariant
                iter.seq() == mutes,
                mutes_fit == (forall|i: int|
                    0 <= i < iter.index() ==> self.members@.contains_key(*#[trigger] mutes[i])),
        {
            if !self.members.contains_key(muted) {
                mutes_fit = false;
            }
        }
        proof {
            assert(mutes_fit == (forall|user_id: ID| #[trigger]
                self.mutes@.contains(user_id) ==> self.is_member(user_id))) by {
                assert(mutes.unref().to_set() == self.mutes@);
                if mutes_fit {
                    assert forall|user_id: ID| #[trigger] self.mutes@.contains(user_id) implies
                        self.is_member(user_id) by {
                        assert(mutes.unref().contains(user_id));
                        let i = choose|i: int|
                            0 <= i < mutes.unref().len() && mutes.unref()[i] == user_id;
                        assert(*mutes[i] == user_id);
                    }
                } else {
                    let i = choose|i: int|
                        0 <= i < mutes.len() && !self.members@.contains_key(*#[trigger] mutes[i]);
                    assert(mutes.unref()[i] == *mutes[i]);
                    assert(mutes.unref().contains(*mutes[i]));
                    assert(self.mutes@.contains(*mutes[i]));
                }
            }
        }
        members_fit && channels_fit && bans_fit && mutes_fit
    }

    /// Whether the two hubs differ at most in their members, bans and
    /// mutes.
    pub open spec fn same_frame(&self, before: &Self) -> bool {
        &&& self.id == before.id
        &&& self.name == before.name
        &&& self.description == before.description
        &&& self.owner == before.owner
        &&& self.channels == before.channels
        &&& self.default_permission_groups == before.default_permission_groups
    }

    /// What stands in the way of `actor` using a hub permission: that they
    /// are no member, or that the member lacks the permission.
    pub open spec fn action_access(&self, actor: ID, permission: HubPermission) -> Result<
        (),
        Error,
    > {
        if !self.is_member(actor) {
            Err(Error::NotAMember)
        } else if !self.members@[actor].may_in_hub(permission, self) {
            Err(Error::MissingHubPermission(permission))
        } else {
            Ok(())
        }
    }

    /// Checks that `actor` is a member with the given hub permission.
    pub fn check_permission(&self, actor: &ID, permission: HubPermission) -> (verdict: Result<
        (),
        Error,
    >)
        ensures
            verdict == self.action_access(*actor, permission),
    {
        match self.members.get(actor) {
            Some(member) => {
                if member.has_permission(permission, self) {
                    Ok(())
                } else {
                    Err(Error::MissingHubPermission(permission))
                }
            },
            None => Err(Error::NotAMember),
        }
    }

    /// A hub with its owner as the only member, and no channel.
    pub fn new(id: ID, name: String, owner: ID, created: u128) -> (hub: Self)
        ensures
            hub.wf(),
            hub.id == id,
            hub.name == name,
            hub.owner == owner,
            hub.description@ == Seq::<char>::empty(),
            hub.members@.dom() == set![owner],
            hub.members@[owner].joined == created,
            hub.channels@ == Map::<ID, Channel>::empty(),
            hub.bans@ == Set::<ID>::empty(),
            hub.mutes@ == Set::<ID>::empty(),
    {
        let mut members: HashMap<ID, HubMember> = HashMap::new();
        members.insert(owner, HubMember::new(owner, id, created));
        let hub = Hub {
            id,
            name,
            description: String::new(),
            owner,
            members,
            channels: HashMap::new(),
            default_permission_groups: Vec::new(),
            bans: HashSet::new(),
            mutes: HashSet::new(),
        };
        assert(hub.members@.dom() =~= set![owner]);
        hub
    }

    /// Makes a user a member. A banned user cannot join; one who is a
    /// member already stays as they are.
    pub fn join(&mut self, user_id: ID, now: u128) -> (done: Result<(), Error>)
        requires
            old(self).wf(),
        ensures
            final(self).wf(),
            final(self).same_frame(old(self)),
            final(self).bans == old(self).bans,
            final(self).mutes == old(self).mutes,
            done == if old(self).is_banned(user_id) {
                Err::<(), Error>(Error::Banned)
            } else {
                Ok(())
            },
            if done is Err || old(self).is_member(user_id) {
                final(self).members@ == old(self).members@
            } else {
                &&& final(self).members@.dom() == old(self).members@.dom().insert(user_id)
                &&& forall|other: ID|
                    other != user_id && old(self).is_member(other) ==> final(self).members@[other]
                        == old(self).members@[other]
                &&& final(self).members@[user_id].joined == now
                &&& final(self).members@[user_id].hub_permissions == HubPermissionSet::spec_unset()
                &&& final(self).members@[user_id].channel_permissions@ == Map::<
                    ID,
                    ChannelPermissionSet,
                >::empty()
            },
    {
        if self.bans.contains(&user_id) {
            return Err(Error::Banned);
        }
        if !self.members.contains_key(&user_id) {
            self.members.insert(user_id, HubMember::new(user_id, self.id, now));
            assert(self.members@.dom() =~= old(self).members@.dom().insert(user_id));
        }
        Ok(())
    }

    /// How the hub looks once `user_id` is no member any more: they are
    /// neither member nor muted, and nothing else has changed.
    pub open spec fn member_removed(&self, before: &Self, user_id: ID) -> bool {
        &&& self.same_frame(before)
        &&& self.members@ == before.members@.remove(user_id)
        &&& self.mutes@ == before.mutes@.remove(user_id)
    }

    /// Takes a member out of the hub. The owner does not leave.
    pub fn leave(&mut self, user_id: ID) -> (done: Result<(), Error>)
        requires
            old(self).wf(),
        ensures
            final(self).wf(),
            final(self).bans == old(self).bans,
            done == if !old(self).is_member(user_id) {
                Err::<(), Error>(Error::NotAMember)
            } else if user_id == old(self).owner {
                Err(Error::MissingHubPermission(HubPermission::All))
            } else {
                Ok(())
            },
            match done {
                Ok(_) => final(self).member_removed(old(self), user_id),
                Err(_) => *final(self) == *old(self),
            },
    {
        if !self.members.contains_key(&user_id) {
            return Err(Error::NotAMember);
        }
        if user_id == self.owner {
            return Err(Error::MissingHubPermission(HubPermission::All));
        }
        self.members.remove(&user_id);
        self.mutes.remove(&user_id);
        Ok(())
    }

    /// What stands in the way of `actor` acting on the member `target`
    /// with a hub permission: what stands in the way of using the
    /// permission, that the target is no member, or that the target owns
    /// the hub.
    pub open spec fn member_action_access(
        &self,
        actor: ID,
        target: ID,
        permission: HubPermission,
    ) -> Result<(), Error> {
        if self.action_access(actor, permission) is Err {
            self.action_access(actor, permission)
        } else if !self.is_member(target) {
            Err(Error::MemberNotFound)
        } else if target == self.owner {
            Err(Error::MissingHubPermission(permission))
        } else {
            Ok(())
        }
    }

    fn check_member_action(&self, actor: &ID, target: &ID, permission: HubPermission) -> (verdict:
        Result<(), Error>)
        ensures
            verdict == self.member_action_access(*actor, *target, permission),
    {
        match self.check_permission(actor, permission) {
            Err(e) => Err(e),
            Ok(_) => if !self.members.contains_key(target) {
                Err(Error::MemberNotFound)
            } else if *target == self.owner {
                Err(Error::MissingHubPermission(permission))
            } else {
                Ok(())
            },
        }
    }

    /// Takes the member `target` out of the hub, on behalf of `actor`, who
    /// needs the permission to kick.
    pub fn kick_user(&mut self, actor: &ID, target: &ID) -> (done: Result<(), Error>)
        requires
            old(self).wf(),
        ensures
            final(self).wf(),
            final(self).bans == old(self).bans,
            done == old(self).member_action_access(*actor, *target, HubPermission::Kick),
            match done {
                Ok(_) => final(self).member_removed(old(self), *target),
                Err(_) => *final(self) == *old(self),
            },
    {
        match self.check_member_action(actor, target, HubPermission::Kick) {
            Err(e) => Err(e),
            Ok(_) => {
                self.members.remove(target);
                self.mutes.remove(target);
                Ok(())
            },
        }
    }

    /// What stands in the way of `actor` banning `target`: what stands in
    /// the way of using the permission to ban, or that the target owns the
    /// hub.
    pub open spec fn ban_access(&self, actor: ID, target: ID) -> Result<(), Error> {
        if self.action_access(actor, HubPermission::Ban) is Err {
            self.action_access(actor, HubPermission::Ban)
        } else if target == self.owner {
            Err(Error::MissingHubPermission(HubPermission::Ban))
        } else {
            Ok(())
        }
    }

    /// Bans `target`, on behalf of `actor`, who needs the permission to
    /// ban. A banned user is no member, and cannot join.
    pub fn ban_user(&mut self, actor: &ID, target: &ID) -> (done: Result<(), Error>)
        requires
            old(self).wf(),
        ensures
            final(self).wf(),
            done == old(self).ban_access(*actor, *target),
            match done {
                Ok(_) => final(self).member_removed(old(self), *target) && final(self).bans@
                    == old(self).bans@.insert(*target),
                Err(_) => *final(self) == *old(self),
            },
    {
        match self.check_permission(actor, HubPermission::Ban) {
            Err(e) => Err(e),
            Ok(_) => if *target == self.owner {
                Err(Error::MissingHubPermission(HubPermission::Ban))
            } else {
                self.members.remove(target);
                self.mutes.remove(target);
                self.bans.insert(*target);
                Ok(())
            },
        }
    }

    /// Lifts the ban of `target`, on behalf of `actor`, who needs the
    /// permission to unban.
    pub fn unban_user(&mut self, actor: &ID, target: &ID) -> (done: Result<(), Error>)
        requires
            old(self).wf(),
        ensures
            final(self).wf(),
            final(self).same_frame(old(self)),
            final(self).members == old(self).members,
            final(self).mutes == old(self).mutes,
            done == old(self).action_access(*actor, HubPermission::Unban),
            final(self).bans@ == if done is Ok {
                old(self).bans@.remove(*target)
            } else {
                old(self).bans@
            },
    {
        match self.check_permission(actor, HubPermission::Unban) {
            Err(e) => Err(e),
            Ok(_) => {
                self.bans.remove(target);
                Ok(())
            },
        }
    }

    /// Mutes the member `target`, on behalf of `actor`, who needs the
    /// permission to mute.
    pub fn mute_user(&mut self, actor: &ID, target: &ID) -> (done: Result<(), Error>)
        requires
            old(self).wf(),
        ensures
            final(self).wf(),
            final(self).same_frame(old(self)),
            final(self).members == old(self).members,
            final(self).bans == old(self).bans,
            done == old(self).member_action_access(*actor, *target, HubPermission::Mute),
            final(self).mutes@ == if done is Ok {
                old(self).mutes@.insert(*target)
            } else {
                old(self).mutes@
            },
    {
        match self.check_member_action(actor, target, HubPermission::Mute) {
            Err(e) => Err(e),
            Ok(_) => {
                self.mutes.insert(*target);
                Ok(())
            },
        }
    }

    /// Lifts the mute of `target`, on behalf of `actor`, who needs the
    /// permission to unmute.
    pub fn unmute_user(&mut self, actor: &ID, target: &ID) -> (done: Result<(), Error>)
        requires
            old(self).wf(),
        ensures
            final(self).wf(),
            final(self).same_frame(old(self)),
            final(self).members == old(self).members,
            final(self).bans == old(self).bans,
            done == old(self).action_access(*actor, HubPermission::Unmute),
            final(self).mutes@ == if done is Ok {
                old(self).mutes@.remove(*target)
            } else {
                old(self).mutes@
            },
    {
        match self.check_permission(actor, HubPermission::Unmute) {
            Err(e) => Err(e),
            Ok(_) => {
                self.mutes.remove(target);
                Ok(())
            },
        }
    }

    /// What stands in the way of `actor` giving the hub the name `name`:
    /// what stands in the way of configuring the hub, or that the name is
    /// not a valid one.
    pub open spec fn rename_access(&self, actor: ID, name: Seq<char>) -> Result<(), Error> {
        if self.action_access(actor, HubPermission::Configure) is Err {
            self.action_access(actor, HubPermission::Configure)
        } else if !crate::valid_username(name) {
            Err(Error::InvalidName)
        } else {
            Ok(())
        }
    }

    /// Gives the hub a new name, on behalf of `actor`, who needs the
    /// permission to configure, and returns the name that it had.
    pub fn rename(&mut self, actor: &ID, name: String) -> (done: Result<String, Error>)
        requires
            old(self).wf(),
        ensures
            final(self).wf(),
            final(self).id == old(self).id,
            final(self).description == old(self).description,
            final(self).owner == old(self).owner,
            final(self).channels == old(self).channels,
            final(self).members == old(self).members,
            final(self).bans == old(self).bans,
            final(self).mutes == old(self).mutes,
            match done {
                Ok(previous) => old(self).rename_access(*actor, name@) is Ok && previous == old(self).name && final(self).name == name,
                Err(e) => old(self).rename_access(*actor, name@) == Err::<(), Error>(e) && final(self).name == old(self).name,
            },
    {
        match self.check_permission(actor, HubPermission::Configure) {
            Err(e) => Err(e),
            Ok(_) => if crate::is_valid_username(name.as_str()) {
                let mut previous = name;
                std::mem::swap(&mut self.name, &mut previous);
                Ok(previous)
            } else {
                Err(Error::InvalidName)
            },
        }
    }

    /// Adds a channel to the hub, on behalf of `actor`, who needs the
    /// permission to manage channels. The channel is given the hub's
    /// identifier; a channel that stood under the same identifier is
    /// replaced.
    pub fn new_channel(&mut self, actor: &ID, channel_id: ID, name: String, created: u128) -> (done:
        Result<(), Error>)
        requires
            old(self).wf(),
        ensures
            final(self).wf(),
            final(self).id == old(self).id,
            final(self).owner == old(self).owner,
            final(self).members == old(self).members,
            final(self).bans == old(self).bans,
            final(self).mutes == old(self).mutes,
            done == old(self).action_access(*actor, HubPermission::ManageChannels),
            match done {
                Ok(_) => {
                    &&& final(self).channels@.dom() == old(self).channels@.dom().insert(channel_id)
                    &&& final(self).channels@[channel_id].id == channel_id
                    &&& final(self).channels@[channel_id].hub_id == old(self).id
                    &&& final(self).channels@[channel_id].name == name
                    &&& final(self).channels@[channel_id].created == created
                    &&& forall|other: ID|
                        other != channel_id && old(self).channels@.contains_key(other) ==> final(self).channels@[other] == old(self).channels@[other]
                },
                Err(_) => final(self).channels == old(self).channels,
            },
    {
        match self.check_permission(actor, HubPermission::ManageChannels) {
            Err(e) => Err(e),
            Ok(_) => {
                let channel = Channel {
                    id: channel_id,
                    hub_id: self.id,
                    name,
                    description: String::new(),
                    created,
                };
                self.channels.insert(channel_id, channel);
                assert(self.channels@.dom() =~= old(self).channels@.dom().insert(channel_id));
                Ok(())
            },
        }
    }

    /// What stands in the way of `actor` deleting a channel: what stands
    /// in the way of managing channels, or that the hub has no such
    /// channel.
    pub open spec fn delete_channel_access(&self, actor: ID, channel_id: ID) -> Result<(), Error> {
        if self.action_access(actor, HubPermission::ManageChannels) is Err {
            self.action_access(actor, HubPermission::ManageChannels)
        } else if !self.channels@.contains_key(channel_id) {
            Err(Error::ChannelNotFound)
        } else {
            Ok(())
        }
    }

    /// Deletes a channel of the hub, on behalf of `actor`, who needs the
    /// permission to manage channels.
    pub fn delete_channel(&mut self, actor: &ID, channel_id: &ID) -> (done: Result<(), Error>)
        requires
            old(self).wf(),
        ensures
            final(self).wf(),
            final(self).id == old(self).id,
            final(self).owner == old(self).owner,
            final(self).members == old(self).members,
            final(self).bans == old(self).bans,
            final(self).mutes == old(self).mutes,
            done == old(self).delete_channel_access(*actor, *channel_id),
            final(self).channels@ == if done is Ok {
                old(self).channels@.remove(*channel_id)
            } else {
                old(self).channels@
            },
    {
        match self.check_permission(actor, HubPermission::ManageChannels) {
            Err(e) => Err(e),
            Ok(_) => if self.channels.contains_key(channel_id) {
                self.channels.remove(channel_id);
                Ok(())
            } else {
                Err(Error::ChannelNotFound)
            },
        }
    }

    /// Sets one hub permission of the member `target`, on behalf of
    /// `actor`, who needs the permission to administrate.
    pub fn set_member_hub_permission(
        &mut self,
        actor: &ID,
        target: &ID,
        permission: HubPermission,
        setting: PermissionSetting,
    ) -> (done: Result<(), Error>)
        requires
            old(self).wf(),
        ensures
            final(self).wf(),
            final(self).same_frame(old(self)),
            final(self).bans == old(self).bans,
            final(self).mutes == old(self).mutes,
            done == old(self).member_action_access(*actor, *target, HubPermission::Administrate),
            match done {
                Ok(_) => {
                    &&& final(self).members@.dom() == old(self).members@.dom()
                    &&& forall|other: ID|
                        other != *target && old(self).is_member(other) ==> final(self).members@[other] == old(self).members@[other]
                    &&& final(self).members@[*target].hub_permissions.spec_get(permission)
                        == setting
                    &&& forall|p: HubPermission|
                        p != permission ==> final(self).members@[*target].hub_permissions.spec_get(
                            p,
                        ) == old(self).members@[*target].hub_permissions.spec_get(p)
                    &&& final(self).members@[*target].channel_permissions == old(self).members@[*target].channel_permissions
                },
                Err(_) => final(self).members@ == old(self).members@,
            },
    {
        match self.check_member_action(actor, target, HubPermission::Administrate) {
            Err(e) => Err(e),
            Ok(_) => {
                match self.members.remove(target) {
                    Some(member) => {
                        let mut member = member;
                        member.set_permission(permission, setting);
                        self.members.insert(*target, member);
                        assert(self.members@.dom() =~= old(self).members@.dom());
                    },
                    None => {},
                }
                Ok(())
            },
        }
    }

    /// Sets one permission of the member `target` in one channel, on
    /// behalf of `actor`, who needs the permission to administrate.
    pub fn set_member_channel_permission(
        &mut self,
        actor: &ID,
        target: &ID,
        channel_id: &ID,
        permission: ChannelPermission,
        setting: PermissionSetting,
    ) -> (done: Result<(), Error>)
        requires
            old(self).wf(),
        ensures
            final(self).wf(),
            final(self).same_frame(old(self)),
            final(self).bans == old(self).bans,
            final(self).mutes == old(self).mutes,
            done == old(self).member_action_access(*actor, *target, HubPermission::Administrate),
            match done {
                Ok(_) => {
                    &&& final(self).members@.dom() == old(self).members@.dom()
                    &&& forall|other: ID|
                        other != *target && old(self).is_member(other) ==> final(self).members@[other] == old(self).members@[other]
                    &&& final(self).members@[*target].channel_setting(*channel_id, permission)
                        == setting
                    &&& forall|c: ID, p: ChannelPermission|
                        (c != *channel_id || p != permission) ==> final(self).members@[*target].channel_setting(c, p) == old(self).members@[*target].channel_setting(c, p)
                    &&& final(self).members@[*target].hub_permissions == old(self).members@[*target].hub_permissions
                },
                Err(_) => final(self).members@ == old(self).members@,
            },
    {
        match self.check_member_action(actor, target, HubPermission::Administrate) {
            Err(e) => Err(e),
            Ok(_) => {
                match self.members.remove(target) {
                    Some(member) => {
                        let mut member = member;
                        member.set_channel_permission(*channel_id, permission, setting);
                        self.members.insert(*target, member);
                        assert(self.members@.dom() =~= old(self).members@.dom());
                    },
                    None => {},
                }
                Ok(())
            },
        }
    }

    /// Mute overrides write: a member who is muted and not banned cannot
    /// send, and the reason given is the mute, whatever the member has been
    /// granted and even if they own the hub. Nor may they write in any
    /// channel.
    pub proof fn lemma_mute_overrides_write(&self, user_id: ID, channel_id: ID)
        requires
            self.is_member(user_id),
            self.is_muted(user_id),
            !self.is_banned(user_id),
        ensures
            self.send_access(user_id, channel_id) == Err::<(), Error>(Error::Muted),
            self.members@[user_id].user_id == user_id ==> !self.members@[user_id].may_in_channel(
                channel_id,
                ChannelPermission::Write,
                self,
            ),
    {
    }
}

} // verus!
