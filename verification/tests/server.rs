use wicrs_server::channel::{ChannelKey, Message};
use wicrs_server::error::{DataError, Error, IndexError};
use wicrs_server::hub::Hub;
use wicrs_server::message_server::{
    log_to_write, missed_messages, MessageServer, SearchMessageIndex,
};
use wicrs_server::permission::{ChannelPermission, HubPermission, PermissionSetting};
use wicrs_server::server::{
    ClientCommand, ClientServerMessage, HubUpdateKind, Outcome, Response, Server, ServerMessage,
    ServerNotification, ServerResponse,
};

const U1: u128 = 1;
const U2: u128 = 2;
const U3: u128 = 3;
const H1: u128 = 100;
const C1: u128 = 200;
const S1: u64 = 11;
const S2: u64 = 12;
const S3: u64 = 13;

fn hub_with_two_members() -> Result<Hub, Error> {
    let mut hub = Hub::new(H1, "hub".to_string(), U1, 0);
    hub.join(U2, 5).unwrap();
    hub.new_channel(&U1, C1, "general".to_string(), 6).unwrap();
    hub.set_member_hub_permission(&U1, &U2, HubPermission::ReadChannels, PermissionSetting::Allow)
        .unwrap();
    hub.set_member_hub_permission(&U1, &U2, HubPermission::WriteChannels, PermissionSetting::Allow)
        .unwrap();
    Ok(hub)
}

fn key() -> ChannelKey {
    ChannelKey { hub_id: H1, channel_id: C1 }
}

#[test]
fn hub_subscriber_receives_rename() {
    let mut hub = Hub::new(H1, "hub".to_string(), U1, 0);
    hub.join(U2, 5).unwrap();
    let loaded = Ok(hub);
    let mut server = Server::new(10);
    let outcome = server.handle_command(ClientCommand::SubscribeHub(U2, H1, S2), &loaded);
    assert_eq!(outcome, Outcome::Reply(Response::Success));
    let mut hub = loaded.unwrap();
    assert_eq!(hub.rename(&U1, "Foo".to_string()), Ok("hub".to_string()));
    assert_eq!(hub.name, "Foo");
    let delivery = server.notify(ServerNotification::HubUpdated(H1, HubUpdateKind::Renamed));
    assert_eq!(
        delivery,
        Some((ServerMessage::HubUpdated(H1, HubUpdateKind::Renamed), vec![S2]))
    );
}

#[test]
fn non_member_cannot_subscribe_to_channel() {
    let loaded = hub_with_two_members();
    let mut server = Server::new(10);
    let outcome = server.handle_command(ClientCommand::SubscribeChannel(U2, H1, C1, S2), &loaded);
    assert_eq!(outcome, Outcome::Reply(Response::Success));
    let outcome = server.handle_command(ClientCommand::SubscribeChannel(U3, H1, C1, S3), &loaded);
    assert_eq!(outcome, Outcome::Reply(Response::Error(Error::NotAMember)));
    assert_eq!(server.channel_sessions(&key()), vec![S2]);
    assert_eq!(server.session_channel_keys(S2), vec![key()]);
    assert_eq!(server.session_channel_keys(S3), Vec::<ChannelKey>::new());
    assert!(!server.is_known(S3));
}

#[test]
fn disconnect_removes_every_edge() {
    let loaded = hub_with_two_members();
    let mut server = Server::new(10);
    server.handle_command(ClientCommand::SubscribeHub(U1, H1, S1), &loaded);
    server.handle_command(ClientCommand::SubscribeChannel(U1, H1, C1, S1), &loaded);
    server.handle_command(ClientCommand::SubscribeHub(U2, H1, S2), &loaded);
    server.handle_command(ClientCommand::SubscribeChannel(U2, H1, C1, S2), &loaded);
    assert_eq!(server.hub_sessions(&H1), vec![S1, S2]);
    assert_eq!(server.channel_sessions(&key()), vec![S1, S2]);
    let outcome = server.handle_command(ClientCommand::Disconnect(S2), &Err(Error::HubNotFound));
    assert_eq!(outcome, Outcome::Reply(Response::Success));
    assert_eq!(server.hub_sessions(&H1), vec![S1]);
    assert_eq!(server.channel_sessions(&key()), vec![S1]);
    assert_eq!(server.session_channel_keys(S2), Vec::<ChannelKey>::new());
    assert_eq!(server.session_hub_ids(S2), Vec::<u128>::new());
    assert!(!server.is_known(S2));
    assert!(server.is_known(S1));
    assert_eq!(server.session_hub_ids(S1), vec![H1]);
}

#[test]
fn muted_member_cannot_send_or_type() {
    let mut hub = hub_with_two_members().unwrap();
    hub.set_member_hub_permission(&U1, &U2, HubPermission::Administrate, PermissionSetting::Allow)
        .unwrap();
    hub.mute_user(&U1, &U2).unwrap();
    let mut server = Server::new(10);
    let loaded = Ok(hub);
    server.handle_command(ClientCommand::SubscribeChannel(U1, H1, C1, S1), &loaded);
    server.handle_command(ClientCommand::SubscribeChannel(U2, H1, C1, S2), &loaded);
    let send = || ClientCommand::SendMessage(U2, H1, C1, "hi".to_string());
    assert_eq!(server.handle_command(send(), &loaded), Outcome::Reply(Response::Error(Error::Muted)));
    assert_eq!(
        server.handle_command(ClientCommand::StartTyping(U2, H1, C1), &loaded),
        Outcome::Reply(Response::Error(Error::MissingChannelPermission(ChannelPermission::Write)))
    );
    let mut hub = loaded.unwrap();
    hub.unmute_user(&U1, &U2).unwrap();
    let loaded = Ok(hub);
    assert_eq!(server.handle_command(send(), &loaded), Outcome::Store(U2, H1, C1, "hi".to_string()));
    let message = Message { id: 900, sender: U2, created: 77, content: "hi".to_string() };
    let outcome = server.stored(H1, C1, Ok(message.clone()));
    assert_eq!(
        outcome,
        Outcome::Deliver(ServerMessage::NewMessage(H1, C1, message), vec![S1, S2], Response::Id(900))
    );
}

#[test]
fn subscription_is_symmetric_after_many_operations() {
    let loaded = hub_with_two_members();
    let mut server = Server::new(10);
    let other = ChannelKey { hub_id: H1, channel_id: 201 };
    server.handle_command(ClientCommand::SubscribeChannel(U1, H1, C1, S1), &loaded);
    server.handle_command(ClientCommand::SubscribeChannel(U1, H1, 201, S1), &loaded);
    server.handle_command(ClientCommand::SubscribeChannel(U2, H1, C1, S2), &loaded);
    server.handle_command(ClientCommand::SubscribeChannel(U2, H1, C1, S2), &loaded);
    server.handle_command(ClientCommand::SubscribeHub(U2, H1, S2), &loaded);
    server.handle_command(ClientCommand::UnsubscribeChannel(H1, C1, S1), &loaded);
    server.handle_command(ClientCommand::UnsubscribeChannel(H1, C1, S3), &loaded);
    server.handle_command(ClientCommand::UnsubscribeHub(H1, S1), &loaded);
    for session in [S1, S2, S3] {
        for channel in [key(), other] {
            assert_eq!(
                server.session_channel_keys(session).contains(&channel),
                server.channel_sessions(&channel).contains(&session)
            );
        }
        assert_eq!(
            server.session_hub_ids(session).contains(&H1),
            server.hub_sessions(&H1).contains(&session)
        );
    }
    assert_eq!(server.channel_sessions(&key()), vec![S2]);
    assert_eq!(server.channel_sessions(&other), vec![S1]);
    assert_eq!(server.hub_sessions(&H1), vec![S2]);
}

#[test]
fn missing_read_permission_adds_no_edge() {
    let mut hub = Hub::new(H1, "hub".to_string(), U1, 0);
    hub.join(U2, 5).unwrap();
    let loaded = Ok(hub);
    let mut server = Server::new(10);
    let outcome = server.handle_command(ClientCommand::SubscribeChannel(U2, H1, C1, S2), &loaded);
    assert_eq!(
        outcome,
        Outcome::Reply(Response::Error(Error::MissingChannelPermission(ChannelPermission::Read)))
    );
    assert_eq!(server.channel_sessions(&key()), Vec::<u64>::new());
    assert!(!server.is_known(S2));
}

#[test]
fn commands_fail_as_loading_the_hub_failed() {
    let mut server = Server::new(10);
    let missing = Err(Error::HubNotFound);
    assert_eq!(
        server.handle_command(ClientCommand::SubscribeHub(U1, H1, S1), &missing),
        Outcome::Reply(Response::Error(Error::HubNotFound))
    );
    assert_eq!(
        server.handle_command(ClientCommand::SendMessage(U1, H1, C1, "x".to_string()), &missing),
        Outcome::Reply(Response::Error(Error::HubNotFound))
    );
    assert_eq!(
        server.handle_command(ClientCommand::UnsubscribeHub(H1, S1), &missing),
        Outcome::Reply(Response::Success)
    );
    assert_eq!(ClientCommand::Disconnect(S1).hub_id(), None);
    assert_eq!(ClientCommand::StopTyping(U1, H1, C1).hub_id(), Some(H1));
}

#[test]
fn typing_events_reach_channel_subscribers() {
    let loaded = hub_with_two_members();
    let mut server = Server::new(10);
    server.handle_command(ClientCommand::SubscribeChannel(U1, H1, C1, S1), &loaded);
    assert_eq!(
        server.handle_command(ClientCommand::StartTyping(U2, H1, C1), &loaded),
        Outcome::Deliver(ServerMessage::TypingStart(H1, C1, U2), vec![S1], Response::Success)
    );
    assert_eq!(
        server.handle_command(ClientCommand::StopTyping(U2, H1, C1), &loaded),
        Outcome::Deliver(ServerMessage::TypingStop(H1, C1, U2), vec![S1], Response::Success)
    );
    assert_eq!(server.notify(ServerNotification::Stop), None);
    assert_eq!(
        server.recipients(&ServerMessage::HubUpdated(H1, HubUpdateKind::Deleted)),
        Vec::<u64>::new()
    );
}

#[test]
fn banned_user_is_refused_before_anything_else() {
    let mut hub = hub_with_two_members().unwrap();
    hub.ban_user(&U1, &U2).unwrap();
    assert_eq!(hub.join(U2, 9), Err(Error::Banned));
    let loaded = Ok(hub);
    let mut server = Server::new(10);
    assert_eq!(
        server.handle_command(ClientCommand::SendMessage(U2, H1, C1, "hi".to_string()), &loaded),
        Outcome::Reply(Response::Error(Error::Banned))
    );
    assert_eq!(
        server.handle_command(ClientCommand::StartTyping(U2, H1, C1), &loaded),
        Outcome::Reply(Response::Error(Error::Banned))
    );
    assert_eq!(
        server.handle_command(ClientCommand::SubscribeHub(U2, H1, S2), &loaded),
        Outcome::Reply(Response::Error(Error::NotAMember))
    );
}

#[test]
fn oversized_message_is_too_big() {
    let loaded = hub_with_two_members();
    let mut server = Server::new(10);
    let fits = "a".repeat(4096);
    let too_big = "a".repeat(4097);
    assert_eq!(
        server.handle_command(ClientCommand::SendMessage(U2, H1, C1, fits.clone()), &loaded),
        Outcome::Store(U2, H1, C1, fits)
    );
    assert_eq!(
        server.handle_command(ClientCommand::SendMessage(U2, H1, C1, too_big), &loaded),
        Outcome::Reply(Response::Error(Error::TooBig))
    );
    assert_eq!(
        server.stored(H1, C1, Err(Error::ChannelNotFound)),
        Outcome::Reply(Response::Error(Error::ChannelNotFound))
    );
}

#[test]
fn command_becomes_message_without_client() {
    let message = ClientServerMessage::from(ClientCommand::Disconnect(S1));
    assert_eq!(message.client_addr, None);
    assert_eq!(message.message_id, 0);
    assert_eq!(message.command, ClientCommand::Disconnect(S1));
    let mut server = Server::new(10);
    let handled = server.handle(message, &Err(Error::HubNotFound));
    assert_eq!(handled.outcome, Outcome::Reply(Response::Success));
    assert_eq!(handled.response(Response::Success), None);
}

#[test]
fn answer_goes_to_the_client_named() {
    let mut server = Server::new(10);
    let message = ClientServerMessage {
        client_addr: Some(S2),
        message_id: 31,
        command: ClientCommand::SubscribeHub(U2, H1, S2),
    };
    let handled = server.handle(message, &Err(Error::HubNotFound));
    assert_eq!(handled.outcome, Outcome::Reply(Response::Error(Error::HubNotFound)));
    assert_eq!(
        handled.response(Response::Error(Error::HubNotFound)),
        Some((S2, ServerResponse { responding_to: 31, message: Response::Error(Error::HubNotFound) }))
    );
}

#[test]
fn search_is_gated_by_read_permission() {
    let dir = tempfile::tempdir().unwrap();
    let path = dir.path().to_str().unwrap();
    let loaded = hub_with_two_members();
    let mut server = Server::new(2);
    let request =
        SearchMessageIndex { hub_id: H1, channel_id: C1, limit: 10, query: "hello".to_string() };
    assert_eq!(server.search(&U3, &loaded, &request), Err(Error::NotAMember));
    assert_eq!(
        server.search(&U1, &Err(Error::Data(DataError::ReadFile)), &request),
        Err(Error::Data(DataError::ReadFile))
    );
    assert_eq!(server.search(&U2, &loaded, &request), Err(Error::Index(IndexError::GetReader)));
    let message = Message { id: 900, sender: U2, created: 77, content: "hello world".to_string() };
    assert_eq!(
        server.index_message(&H1, &C1, &message),
        Err(Error::Index(IndexError::GetWriter))
    );
    assert!(!server.message_server().has_index(&H1, &C1));
    server.setup_index(&H1, &C1, path, None, &Vec::new()).unwrap();
    assert!(server.message_server().has_index(&H1, &C1));
    assert_eq!(server.message_server().recovery_log(&H1, &C1), None);
    server.index_message(&H1, &C1, &message).unwrap();
    assert_eq!(server.message_server().recovery_log(&H1, &C1), Some(900));
    assert_eq!(server.search(&U2, &loaded, &request), Ok(vec![900]));
    let elsewhere =
        SearchMessageIndex { hub_id: H1, channel_id: 201, limit: 10, query: "hello".to_string() };
    assert_eq!(server.search(&U2, &loaded, &elsewhere), Err(Error::ChannelNotFound));
    let later = Message { id: 901, sender: U2, created: 78, content: "later".to_string() };
    server.index_message(&H1, &C1, &later).unwrap();
    assert_eq!(server.stopping(), vec![(key(), Some(901))]);
    assert_eq!(server.message_server().recovery_log(&H1, &C1), Some(901));
}

#[test]
fn setup_replays_what_the_log_missed() {
    let dir = tempfile::tempdir().unwrap();
    let path = dir.path().to_str().unwrap();
    let missed: Vec<Message> = (1..=3u128)
        .map(|n| Message { id: n, sender: U1, created: n, content: format!("note{}", n) })
        .collect();
    let mut indexes = MessageServer::new(10);
    indexes.setup_index(&H1, &C1, path, Some(0), &missed).unwrap();
    assert_eq!(indexes.recovery_log(&H1, &C1), Some(3));
    indexes.setup_index(&H1, &C1, "/nonexistent", Some(9), &Vec::new()).unwrap();
    assert_eq!(indexes.recovery_log(&H1, &C1), Some(3));
    let request =
        SearchMessageIndex { hub_id: H1, channel_id: C1, limit: 10, query: "note2".to_string() };
    assert_eq!(indexes.search(&request), Ok(vec![2]));
    assert!(indexes.is_ready(&H1, &C1));
    assert_eq!(
        indexes.setup_index(&H1, &201, "/nonexistent", None, &Vec::new()),
        Err(Error::Data(DataError::Directory))
    );
    assert!(!indexes.has_index(&H1, &201));
    assert!(!indexes.is_ready(&H1, &201));
}

#[test]
fn closed_index_is_gone() {
    let first = tempfile::tempdir().unwrap();
    let second = tempfile::tempdir().unwrap();
    let mut server = Server::new(10);
    server.setup_index(&H1, &C1, first.path().to_str().unwrap(), None, &Vec::new()).unwrap();
    server.setup_index(&H1, &201, second.path().to_str().unwrap(), None, &Vec::new()).unwrap();
    assert_eq!(
        server.message_server().open_channels(),
        vec![key(), ChannelKey { hub_id: H1, channel_id: 201 }]
    );
    assert!(server.close_index(&H1, &C1));
    assert!(!server.close_index(&H1, &C1));
    assert_eq!(
        server.message_server().open_channels(),
        vec![ChannelKey { hub_id: H1, channel_id: 201 }]
    );
    assert!(!server.message_server().has_index(&H1, &C1));
}

#[test]
fn messages_are_fanned_out_in_store_order() {
    let loaded = hub_with_two_members();
    let mut server = Server::new(10);
    server.handle_command(ClientCommand::SubscribeChannel(U1, H1, C1, S1), &loaded);
    server.handle_command(ClientCommand::SubscribeChannel(U2, H1, C1, S2), &loaded);
    let mut received: Vec<(u64, u128)> = Vec::new();
    for id in [1u128, 2, 3] {
        let message = Message { id, sender: U1, created: id, content: "x".to_string() };
        match server.stored(H1, C1, Ok(message)) {
            Outcome::Deliver(ServerMessage::NewMessage(_, _, message), sessions, _) => {
                for session in sessions {
                    received.push((session, message.id));
                }
            }
            other => panic!("unexpected outcome {:?}", other),
        }
    }
    assert_eq!(received, vec![(S1, 1), (S2, 1), (S1, 2), (S2, 2), (S1, 3), (S2, 3)]);
}

#[test]
fn restart_replays_the_messages_after_the_log() {
    let dir = tempfile::tempdir().unwrap();
    let path = dir.path().to_str().unwrap();
    let sent: Vec<Message> = (1..=15u128)
        .map(|n| Message { id: 500 + n, sender: U1, created: n, content: format!("entry{} common", n) })
        .collect();
    let log = {
        let mut server = Server::new(10);
        server.setup_index(&H1, &C1, path, None, &Vec::new()).unwrap();
        for message in sent.iter() {
            server.index_message(&H1, &C1, message).unwrap();
        }
        server.message_server().recovery_log(&H1, &C1)
    };
    assert_eq!(log, Some(511));
    let missed = wicrs_server::channel::messages_after(&sent, 511);
    assert_eq!(missed.len(), 4);
    assert_eq!(missed[0].id, 512);
    let mut server = Server::new(10);
    server.setup_index(&H1, &C1, path, log, &missed).unwrap();
    assert!(server.message_server().is_ready(&H1, &C1));
    assert_eq!(server.message_server().recovery_log(&H1, &C1), Some(515));
    let loaded = hub_with_two_members();
    let request = SearchMessageIndex {
        hub_id: H1,
        channel_id: C1,
        limit: 10,
        query: "entry13".to_string(),
    };
    assert_eq!(server.search(&U1, &loaded, &request), Ok(vec![513]));
    let all = SearchMessageIndex {
        hub_id: H1,
        channel_id: C1,
        limit: 100,
        query: "common".to_string(),
    };
    let mut found = server.search(&U1, &loaded, &all).unwrap();
    found.sort();
    assert_eq!(found, (501..=515u128).collect::<Vec<u128>>());
    assert_eq!(server.stopping(), vec![(key(), Some(515))]);
}

#[test]
fn closing_a_hub_closes_its_indexes_only() {
    let first = tempfile::tempdir().unwrap();
    let second = tempfile::tempdir().unwrap();
    let third = tempfile::tempdir().unwrap();
    let mut server = Server::new(10);
    server.setup_index(&H1, &C1, first.path().to_str().unwrap(), None, &Vec::new()).unwrap();
    server.setup_index(&77, &C1, second.path().to_str().unwrap(), None, &Vec::new()).unwrap();
    server.setup_index(&H1, &201, third.path().to_str().unwrap(), None, &Vec::new()).unwrap();
    assert_eq!(server.close_hub(&5), 0);
    assert_eq!(server.message_server().open_channels().len(), 3);
    assert_eq!(server.close_hub(&H1), 2);
    assert_eq!(
        server.message_server().open_channels(),
        vec![ChannelKey { hub_id: 77, channel_id: C1 }]
    );
    assert_eq!(server.close_hub(&H1), 0);
}

#[test]
fn what_an_update_deleted_is_closed() {
    let first = tempfile::tempdir().unwrap();
    let second = tempfile::tempdir().unwrap();
    let third = tempfile::tempdir().unwrap();
    let mut server = Server::new(10);
    server.setup_index(&H1, &C1, first.path().to_str().unwrap(), None, &Vec::new()).unwrap();
    server.setup_index(&H1, &201, second.path().to_str().unwrap(), None, &Vec::new()).unwrap();
    server.setup_index(&77, &C1, third.path().to_str().unwrap(), None, &Vec::new()).unwrap();
    server.close_deleted(&H1, &HubUpdateKind::Renamed);
    server.close_deleted(&H1, &HubUpdateKind::ChannelCreated(C1));
    assert_eq!(server.message_server().open_channels().len(), 3);
    server.close_deleted(&H1, &HubUpdateKind::ChannelDeleted(C1));
    assert_eq!(
        server.message_server().open_channels(),
        vec![ChannelKey { hub_id: H1, channel_id: 201 }, ChannelKey { hub_id: 77, channel_id: C1 }]
    );
    server.close_deleted(&H1, &HubUpdateKind::Deleted);
    assert_eq!(
        server.message_server().open_channels(),
        vec![ChannelKey { hub_id: 77, channel_id: C1 }]
    );
}

#[test]
fn the_log_is_written_only_when_it_changed() {
    assert_eq!(log_to_write(None, None), None);
    assert_eq!(log_to_write(Some(4), None), None);
    assert_eq!(log_to_write(None, Some(4)), Some(4));
    assert_eq!(log_to_write(Some(4), Some(4)), None);
    assert_eq!(log_to_write(Some(4), Some(5)), Some(5));
}

#[test]
fn setting_up_replays_what_follows_the_log() {
    let loaded = hub_with_two_members();
    let stored: Vec<Message> = (1..=4u128)
        .map(|n| Message { id: n, sender: U1, created: n, content: format!("line{}", n) })
        .collect();
    assert_eq!(missed_messages(None, &loaded, &C1, Ok(stored.clone())), Ok(vec![]));
    assert_eq!(
        missed_messages(None, &Err(Error::HubNotFound), &C1, Err(Error::Data(DataError::ReadFile))),
        Ok(vec![])
    );
    assert_eq!(
        missed_messages(Some(2), &Err(Error::HubNotFound), &C1, Ok(stored.clone())),
        Err(Error::HubNotFound)
    );
    assert_eq!(missed_messages(Some(2), &loaded, &999, Ok(stored.clone())), Ok(vec![]));
    assert_eq!(
        missed_messages(Some(2), &loaded, &999, Err(Error::Data(DataError::ReadFile))),
        Ok(vec![])
    );
    assert_eq!(
        missed_messages(Some(2), &loaded, &C1, Err(Error::Data(DataError::ReadFile))),
        Err(Error::Data(DataError::ReadFile))
    );
    assert_eq!(missed_messages(Some(2), &loaded, &C1, Ok(stored.clone())), Ok(stored[2..].to_vec()));
    assert_eq!(missed_messages(Some(9), &loaded, &C1, Ok(stored.clone())), Ok(stored.clone()));
}
