//! Permissions of hub members and their tri-state settings.

use vstd::prelude::*;

verus! {

/// What a member may be allowed to do in a hub.
#[derive(Clone, Copy, PartialEq, Eq, Structural, Debug, Hash)]
pub enum HubPermission {
    All,
    ReadChannels,
    WriteChannels,
    Configure,
    ManageChannels,
    Mute,
    Unmute,
    Kick,
    Ban,
    Unban,
    Administrate,
}

/// What a member may be allowed to do in one channel.
#[derive(Clone, Copy, PartialEq, Eq, Structural, Debug, Hash)]
pub enum ChannelPermission {
    Read,
    Write,
    Manage,
}

/// Tri-state value of one permission of one member.
#[derive(Clone, Copy, PartialEq, Eq, Structural, Debug, Hash)]
pub enum PermissionSetting {
    Allow,
    Deny,
    Unset,
}

impl HubPermission {
    /// The name of the permission.
    pub open spec fn spec_name(self) -> Seq<char> {
        match self {
            HubPermission::All => "All"@,
            HubPermission::ReadChannels => "ReadChannels"@,
            HubPermission::WriteChannels => "WriteChannels"@,
            HubPermission::Configure => "Configure"@,
            HubPermission::ManageChannels => "ManageChannels"@,
            HubPermission::Mute => "Mute"@,
            HubPermission::Unmute => "Unmute"@,
            HubPermission::Kick => "Kick"@,
            HubPermission::Ban => "Ban"@,
            HubPermission::Unban => "Unban"@,
            HubPermission::Administrate => "Administrate"@,
        }
    }

    /// The name of the permission.
    pub fn name(self) -> (name: &'static str)
        ensures
            name@ == self.spec_name(),
    {
        match self {
            HubPermission::All => "All",
            HubPermission::ReadChannels => "ReadChannels",
            HubPermission::WriteChannels => "WriteChannels",
            HubPermission::Configure => "Configure",
            HubPermission::ManageChannels => "ManageChannels",
            HubPermission::Mute => "Mute",
            HubPermission::Unmute => "Unmute",
            HubPermission::Kick => "Kick",
            HubPermission::Ban => "Ban",
            HubPermission::Unban => "Unban",
            HubPermission::Administrate => "Administrate",
        }
    }
}

impl ChannelPermission {
    /// The name of the permission.
    pub open spec fn spec_name(self) -> Seq<char> {
        match self {
            ChannelPermission::Read => "Read"@,
            ChannelPermission::Write => "Write"@,
            ChannelPermission::Manage => "Manage"@,
        }
    }

    /// The name of the permission.
    pub fn name(self) -> (name: &'static str)
        ensures
            name@ == self.spec_name(),
    {
        match self {
            ChannelPermission::Read => "Read",
            ChannelPermission::Write => "Write",
            ChannelPermission::Manage => "Manage",
        }
    }

    /// The hub-wide permission that stands in for this channel permission
    /// where the channel itself has no explicit setting.
    pub open spec fn spec_hub_equivalent(self) -> HubPermission {
        match self {
            ChannelPermission::Read => HubPermission::ReadChannels,
            ChannelPermission::Write => HubPermission::WriteChannels,
            ChannelPermission::Manage => HubPermission::ManageChannels,
        }
    }

    #[verifier::when_used_as_spec(spec_hub_equivalent)]
    pub fn hub_equivalent(self) -> (p: HubPermission)
        ensures
            p == self.spec_hub_equivalent(),
    {
        match self {
            ChannelPermission::Read => HubPermission::ReadChannels,
            ChannelPermission::Write => HubPermission::WriteChannels,
            ChannelPermission::Manage => HubPermission::ManageChannels,
        }
    }
}

/// The settings of one member for every hub permission.
#[derive(Clone, Copy, PartialEq, Eq, Structural, Debug)]
pub struct HubPermissionSet {
    pub all: PermissionSetting,
    pub read_channels: PermissionSetting,
    pub write_channels: PermissionSetting,
    pub configure: PermissionSetting,
    pub manage_channels: PermissionSetting,
    pub mute: PermissionSetting,
    pub unmute: PermissionSetting,
    pub kick: PermissionSetting,
    pub ban: PermissionSetting,
    pub unban: PermissionSetting,
    pub administrate: PermissionSetting,
}

impl HubPermissionSet {
    /// The setting stored for `permission`.
    pub open spec fn spec_get(self, permission: HubPermission) -> PermissionSetting {
        match permission {
            HubPermission::All => self.all,
            HubPermission::ReadChannels => self.read_channels,
            HubPermission::WriteChannels => self.write_channels,
            HubPermission::Configure => self.configure,
            HubPermission::ManageChannels => self.manage_channels,
            HubPermission::Mute => self.mute,
            HubPermission::Unmute => self.unmute,
            HubPermission::Kick => self.kick,
            HubPermission::Ban => self.ban,
            HubPermission::Unban => self.unban,
            HubPermission::Administrate => self.administrate,
        }
    }

    /// The set in which every permission is unset.
    pub open spec fn spec_unset() -> Self {
        HubPermissionSet {
            all: PermissionSetting::Unset,
            read_channels: PermissionSetting::Unset,
            write_channels: PermissionSetting::Unset,
            configure: PermissionSetting::Unset,
            manage_channels: PermissionSetting::Unset,
            mute: PermissionSetting::Unset,
            unmute: PermissionSetting::Unset,
            kick: PermissionSetting::Unset,
            ban: PermissionSetting::Unset,
            unban: PermissionSetting::Unset,
            administrate: PermissionSetting::Unset,
        }
    }

    #[verifier::when_used_as_spec(spec_unset)]
    pub fn unset() -> (s: Self)
        ensures
            s == Self::spec_unset(),
            forall|p: HubPermission| s.spec_get(p) == PermissionSetting::Unset,
    {
        HubPermissionSet {
            all: PermissionSetting::Unset,
            read_channels: PermissionSetting::Unset,
            write_channels: PermissionSetting::Unset,
            configure: PermissionSetting::Unset,
            manage_channels: PermissionSetting::Unset,
            mute: PermissionSetting::Unset,
            unmute: PermissionSetting::Unset,
            kick: PermissionSetting::Unset,
            ban: PermissionSetting::Unset,
            unban: PermissionSetting::Unset,
            administrate: PermissionSetting::Unset,
        }
    }

    #[verifier::when_used_as_spec(spec_get)]
    pub fn get(self, permission: HubPermission) -> (s: PermissionSetting)
        ensures
            s == self.spec_get(permission),
    {
        match permission {
            HubPermission::All => self.all,
            HubPermission::ReadChannels => self.read_channels,
            HubPermission::WriteChannels => self.write_channels,
            HubPermission::Configure => self.configure,
            HubPermission::ManageChannels => self.manage_channels,
            HubPermission::Mute => self.mute,
            HubPermission::Unmute => self.unmute,
            HubPermission::Kick => self.kick,
            HubPermission::Ban => self.ban,
            HubPermission::Unban => self.unban,
            HubPermission::Administrate => self.administrate,
        }
    }

    /// Stores `setting` for `permission` and leaves every other permission
    /// as it was.
    pub fn set(&mut self, permission: HubPermission, setting: PermissionSetting)
        ensures
            final(self).spec_get(permission) == setting,
            forall|p: HubPermission|
                p != permission ==> final(self).spec_get(p) == old(self).spec_get(p),
    {
        match permission {
            HubPermission::All => self.all = setting,
            HubPermission::ReadChannels => self.read_channels = setting,
            HubPermission::WriteChannels => self.write_channels = setting,
            HubPermission::Configure => self.configure = setting,
            HubPermission::ManageChannels => self.manage_channels = setting,
            HubPermission::Mute => self.mute = setting,
            HubPermission::Unmute => self.unmute = setting,
            HubPermission::Kick => self.kick = setting,
            HubPermission::Ban => self.ban = setting,
            HubPermission::Unban => self.unban = setting,
            HubPermission::Administrate => self.administrate = setting,
        }
    }
}

/// The settings of one member for every permission of one channel.
#[derive(Clone, Copy, PartialEq, Eq, Structural, Debug)]
pub struct ChannelPermissionSet {
    pub read: PermissionSetting,
    pub write: PermissionSetting,
    pub manage: PermissionSetting,
}

impl ChannelPermissionSet {
    /// The setting stored for `permission`.
    pub open spec fn spec_get(self, permission: ChannelPermission) -> PermissionSetting {
        match permission {
            ChannelPermission::Read => self.read,
            ChannelPermission::Write => self.write,
            ChannelPermission::Manage => self.manage,
        }
    }

    /// The set in which every permission is unset.
    pub open spec fn spec_unset() -> Self {
        ChannelPermissionSet {
            read: PermissionSetting::Unset,
            write: PermissionSetting::Unset,
            manage: PermissionSetting::Unset,
        }
    }

    #[verifier::when_used_as_spec(spec_unset)]
    pub fn unset() -> (s: Self)
        ensures
            s == Self::spec_unset(),
            forall|p: ChannelPermission| s.spec_get(p) == PermissionSetting::Unset,
    {
        ChannelPermissionSet {
            read: PermissionSetting::Unset,
            write: PermissionSetting::Unset,
            manage: PermissionSetting::Unset,
        }
    }

    #[verifier::when_used_as_spec(spec_get)]
    pub fn get(self, permission: ChannelPermission) -> (s: PermissionSetting)
        ensures
            s == self.spec_get(permission),
    {
        match permission {
            ChannelPermission::Read => self.read,
            ChannelPermission::Write => self.write,
            ChannelPermission::Manage => self.manage,
        }
    }

    /// Stores `setting` for `permission` and leaves the other two as they
    /// were.
    pub fn set(&mut self, permission: ChannelPermission, setting: PermissionSetting)
        ensures
            final(self).spec_get(permission) == setting,
            forall|p: ChannelPermission|
                p != permission ==> final(self).spec_get(p) == old(self).spec_get(p),
    {
        match permission {
            ChannelPermission::Read => self.read = setting,
            ChannelPermission::Write => self.write = setting,
            ChannelPermission::Manage => self.manage = setting,
        }
    }
}

} // verus!
