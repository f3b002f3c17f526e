use wicrs_server::error::Error;
use wicrs_server::hub::{Hub, HubMember};
use wicrs_server::permission::{
    ChannelPermission, ChannelPermissionSet, HubPermission, HubPermissionSet, PermissionSetting,
};

const OWNER: u128 = 1;
const USER: u128 = 2;
const OTHER: u128 = 3;
const HUB: u128 = 100;
const CHANNEL: u128 = 200;

fn hub() -> Hub {
    let mut hub = Hub::new(HUB, "hub".to_string(), OWNER, 0);
    hub.join(USER, 1).unwrap();
    hub.new_channel(&OWNER, CHANNEL, "general".to_string(), 2).unwrap();
    hub
}

fn member(hub: &Hub) -> HubMember {
    hub.get_member(&USER).unwrap().clone()
}

#[test]
fn owner_may_do_everything() {
    let hub = hub();
    let owner = hub.get_member(&OWNER).unwrap();
    assert!(owner.has_permission(HubPermission::Ban, &hub));
    assert!(owner.has_channel_permission(&CHANNEL, &ChannelPermission::Manage, &hub));
    assert!(!owner.has_all_permissions());
}

#[test]
fn member_without_settings_may_do_nothing() {
    let hub = hub();
    let member = member(&hub);
    assert!(!member.has_permission(HubPermission::ReadChannels, &hub));
    assert!(!member.has_channel_permission(&CHANNEL, &ChannelPermission::Read, &hub));
    assert_eq!(
        hub.check_channel_permission(&USER, &CHANNEL, ChannelPermission::Read),
        Err(Error::MissingChannelPermission(ChannelPermission::Read))
    );
    assert_eq!(
        hub.check_channel_permission(&OTHER, &CHANNEL, ChannelPermission::Read),
        Err(Error::NotAMember)
    );
}

#[test]
fn channel_setting_wins_over_hub_setting() {
    let mut hub = hub();
    hub.set_member_hub_permission(&OWNER, &USER, HubPermission::ReadChannels, PermissionSetting::Allow)
        .unwrap();
    assert!(member(&hub).has_channel_permission(&CHANNEL, &ChannelPermission::Read, &hub));
    hub.set_member_channel_permission(
        &OWNER,
        &USER,
        &CHANNEL,
        ChannelPermission::Read,
        PermissionSetting::Deny,
    )
    .unwrap();
    assert!(!member(&hub).has_channel_permission(&CHANNEL, &ChannelPermission::Read, &hub));
    assert!(member(&hub).has_channel_permission(&201, &ChannelPermission::Read, &hub));
    assert_eq!(
        member(&hub).channel_permissions.get(&CHANNEL),
        Some(&ChannelPermissionSet {
            read: PermissionSetting::Deny,
            write: PermissionSetting::Unset,
            manage: PermissionSetting::Unset
        })
    );
}

#[test]
fn hub_setting_wins_over_all() {
    let mut hub = hub();
    hub.set_member_hub_permission(&OWNER, &USER, HubPermission::All, PermissionSetting::Allow)
        .unwrap();
    assert!(member(&hub).has_all_permissions());
    assert!(member(&hub).has_permission(HubPermission::Kick, &hub));
    assert!(member(&hub).has_channel_permission(&CHANNEL, &ChannelPermission::Write, &hub));
    hub.set_member_hub_permission(&OWNER, &USER, HubPermission::Kick, PermissionSetting::Deny)
        .unwrap();
    hub.set_member_hub_permission(
        &OWNER,
        &USER,
        HubPermission::WriteChannels,
        PermissionSetting::Deny,
    )
    .unwrap();
    assert!(!member(&hub).has_permission(HubPermission::Kick, &hub));
    assert!(member(&hub).has_permission(HubPermission::Ban, &hub));
    assert!(!member(&hub).has_channel_permission(&CHANNEL, &ChannelPermission::Write, &hub));
    assert!(member(&hub).has_channel_permission(&CHANNEL, &ChannelPermission::Manage, &hub));
}

#[test]
fn mute_denies_write_even_to_the_owner() {
    let mut hub = hub();
    hub.set_member_hub_permission(&OWNER, &USER, HubPermission::All, PermissionSetting::Allow)
        .unwrap();
    hub.mute_user(&OWNER, &USER).unwrap();
    assert!(!member(&hub).has_channel_permission(&CHANNEL, &ChannelPermission::Write, &hub));
    assert!(member(&hub).has_channel_permission(&CHANNEL, &ChannelPermission::Read, &hub));
    assert_eq!(hub.check_send(&USER, &CHANNEL), Err(Error::Muted));
    assert_eq!(
        hub.check_typing(&USER, &CHANNEL),
        Err(Error::MissingChannelPermission(ChannelPermission::Write))
    );
    hub.mutes.insert(OWNER);
    assert_eq!(hub.check_send(&OWNER, &CHANNEL), Err(Error::Muted));
    hub.unmute_user(&OWNER, &USER).unwrap();
    assert_eq!(hub.check_send(&USER, &CHANNEL), Ok(()));
}

#[test]
fn ban_removes_member_until_unbanned() {
    let mut hub = hub();
    hub.mute_user(&OWNER, &USER).unwrap();
    assert_eq!(hub.ban_user(&USER, &OTHER), Err(Error::MissingHubPermission(HubPermission::Ban)));
    assert_eq!(hub.ban_user(&OTHER, &USER), Err(Error::NotAMember));
    assert_eq!(hub.ban_user(&OWNER, &OWNER), Err(Error::MissingHubPermission(HubPermission::Ban)));
    assert_eq!(hub.ban_user(&OWNER, &USER), Ok(()));
    assert!(hub.bans.contains(&USER));
    assert!(!hub.members.contains_key(&USER));
    assert!(!hub.mutes.contains(&USER));
    assert_eq!(hub.join(USER, 3), Err(Error::Banned));
    assert_eq!(hub.get_member(&USER).err(), Some(Error::NotAMember));
    assert_eq!(hub.unban_user(&OWNER, &USER), Ok(()));
    assert_eq!(hub.join(USER, 4), Ok(()));
    assert_eq!(hub.get_member(&USER).unwrap().joined, 4);
}

#[test]
fn kick_and_leave_remove_members() {
    let mut hub = hub();
    hub.join(OTHER, 3).unwrap();
    assert_eq!(hub.kick_user(&USER, &OTHER), Err(Error::MissingHubPermission(HubPermission::Kick)));
    assert_eq!(hub.kick_user(&OWNER, &77), Err(Error::MemberNotFound));
    assert_eq!(hub.kick_user(&OWNER, &OTHER), Ok(()));
    assert!(!hub.members.contains_key(&OTHER));
    assert_eq!(hub.leave(OTHER), Err(Error::NotAMember));
    assert_eq!(hub.leave(OWNER), Err(Error::MissingHubPermission(HubPermission::All)));
    assert_eq!(hub.leave(USER), Ok(()));
    assert_eq!(hub.members.len(), 1);
}

#[test]
fn channels_are_created_and_deleted_by_managers() {
    let mut hub = hub();
    assert_eq!(
        hub.new_channel(&USER, 201, "x".to_string(), 3),
        Err(Error::MissingHubPermission(HubPermission::ManageChannels))
    );
    assert_eq!(hub.channels.get(&CHANNEL).unwrap().hub_id, HUB);
    assert_eq!(hub.channels.get(&CHANNEL).unwrap().name, "general");
    assert_eq!(hub.get_channel(&OWNER, &CHANNEL).unwrap().id, CHANNEL);
    assert_eq!(hub.get_channel(&OWNER, &201).err(), Some(Error::ChannelNotFound));
    assert_eq!(
        hub.get_channel(&USER, &CHANNEL).err(),
        Some(Error::MissingChannelPermission(ChannelPermission::Read))
    );
    assert_eq!(hub.delete_channel(&OWNER, &201), Err(Error::ChannelNotFound));
    assert_eq!(hub.delete_channel(&OWNER, &CHANNEL), Ok(()));
    assert!(hub.channels.is_empty());
}

#[test]
fn rename_needs_permission_and_a_valid_name() {
    let mut hub = hub();
    assert_eq!(
        hub.rename(&USER, "Foo".to_string()),
        Err(Error::MissingHubPermission(HubPermission::Configure))
    );
    assert_eq!(hub.rename(&OWNER, "Foo!".to_string()), Err(Error::InvalidName));
    assert_eq!(hub.rename(&OWNER, "".to_string()), Err(Error::InvalidName));
    assert_eq!(hub.name, "hub");
    assert_eq!(hub.rename(&OWNER, "Foo".to_string()), Ok("hub".to_string()));
    assert_eq!(hub.name, "Foo");
}

#[test]
fn permission_sets_get_what_was_set() {
    let mut set = HubPermissionSet::unset();
    assert_eq!(set.get(HubPermission::Unban), PermissionSetting::Unset);
    set.set(HubPermission::Unban, PermissionSetting::Deny);
    assert_eq!(set.get(HubPermission::Unban), PermissionSetting::Deny);
    assert_eq!(set.get(HubPermission::Ban), PermissionSetting::Unset);
    assert_eq!(set.unban, PermissionSetting::Deny);
    let mut channel = ChannelPermissionSet::unset();
    channel.set(ChannelPermission::Manage, PermissionSetting::Allow);
    assert_eq!(channel.get(ChannelPermission::Manage), PermissionSetting::Allow);
    assert_eq!(channel.get(ChannelPermission::Read), PermissionSetting::Unset);
    assert_eq!(ChannelPermission::Read.hub_equivalent(), HubPermission::ReadChannels);
    assert_eq!(ChannelPermission::Write.hub_equivalent(), HubPermission::WriteChannels);
    assert_eq!(ChannelPermission::Manage.hub_equivalent(), HubPermission::ManageChannels);
}

#[test]
fn consistency_of_a_hub_is_checked() {
    let mut good = hub();
    good.mute_user(&OWNER, &USER).unwrap();
    good.ban_user(&OWNER, &OTHER).unwrap();
    assert!(good.is_consistent());
    let mut no_owner = hub();
    no_owner.members.remove(&OWNER);
    assert!(!no_owner.is_consistent());
    let mut wrong_key = hub();
    let member = wrong_key.members.remove(&USER).unwrap();
    wrong_key.members.insert(OTHER, member);
    assert!(!wrong_key.is_consistent());
    let mut wrong_hub = hub();
    wrong_hub.members.get_mut(&USER).unwrap().hub_id = 7;
    assert!(!wrong_hub.is_consistent());
    let mut wrong_channel = hub();
    wrong_channel.channels.get_mut(&CHANNEL).unwrap().hub_id = 7;
    assert!(!wrong_channel.is_consistent());
    let mut banned_member = hub();
    banned_member.bans.insert(USER);
    assert!(!banned_member.is_consistent());
    let mut muted_stranger = hub();
    muted_stranger.mutes.insert(OTHER);
    assert!(!muted_stranger.is_consistent());
}
