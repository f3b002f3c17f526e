//! The subscription registry: which session listens to which hubs and
//! channels, kept in both directions.

use crate::channel::{check_text_size, text_fits, ChannelKey, Message};
use crate::edges::{
    lemma_with_item, lemma_without_item, with_item, without_item, EdgeMap, IdEdgeMap,
};
use crate::error::Error;
use crate::hub::Hub;
use crate::message_server::{keys_outside, MessageServer, SearchMessageIndex};
use crate::permission::ChannelPermission;
use crate::ID;
use vstd::prelude::*;
use vstd::std_specs::convert::FromSpecImpl;

verus! {

broadcast use vstd::std_specs::hash::group_hash_axioms;

/// What has changed in a hub.
#[derive(Clone, Copy, PartialEq, Eq, Structural, Debug)]
pub enum HubUpdateKind {
    Renamed,
    DescriptionUpdated,
    Deleted,
    ChannelCreated(ID),
    ChannelRenamed(ID),
    ChannelDescriptionUpdated(ID),
    ChannelDeleted(ID),
    UserJoined(ID),
    UserLeft(ID),
    UserKicked(ID),
    UserBanned(ID),
    UserUnbanned(ID),
    UserMuted(ID),
    UserUnmuted(ID),
    MemberNicknameChanged(ID),
    UserHubPermissionChanged(ID),
    /// The user, then the channel.
    UserChannelPermissionChanged(ID, ID),
}

/// An event that is delivered to sessions.
#[derive(Clone, Debug, PartialEq, Eq)]
pub enum ServerMessage {
    /// The hub, the channel, and the message that was sent there.
    NewMessage(ID, ID, Message),
    /// The hub, and what has changed in it.
    HubUpdated(ID, HubUpdateKind),
    /// The hub, the channel, and the user who started typing there.
    TypingStart(ID, ID, ID),
    /// The hub, the channel, and the user who stopped typing there.
    TypingStop(ID, ID, ID),
}

/// What the rest of the server tells the registry.
#[derive(Clone, Debug, PartialEq, Eq)]
pub enum ServerNotification {
    /// The hub, the channel, and the message that was stored there.
    NewMessage(ID, ID, Message),
    /// The hub, and what has changed in it.
    HubUpdated(ID, HubUpdateKind),
    Stop,
}

/// A command of a client.
#[derive(Clone, Debug, PartialEq, Eq)]
pub enum ClientCommand {
    /// The session that goes away.
    Disconnect(SessionId),
    /// The user, the hub, and the session that subscribes.
    SubscribeHub(ID, ID, SessionId),
    /// The hub, and the session that unsubscribes.
    UnsubscribeHub(ID, SessionId),
    /// The user, the hub, the channel, and the session that subscribes.
    SubscribeChannel(ID, ID, ID, SessionId),
    /// The hub, the channel, and the session that unsubscribes.
    UnsubscribeChannel(ID, ID, SessionId),
    /// The user, the hub and the channel.
    StartTyping(ID, ID, ID),
    /// The user, the hub and the channel.
    StopTyping(ID, ID, ID),
    /// The user, the hub, the channel, and the text to send.
    SendMessage(ID, ID, ID, String),
}

/// The answer to a command.
#[derive(Clone, Copy, PartialEq, Eq, Structural, Debug)]
pub enum Response {
    Error(Error),
    Success,
    Id(ID),
}

/// A command together with the client to answer.
#[derive(Clone, Debug, PartialEq, Eq)]
pub struct ClientServerMessage {
    /// The session to send the response to.
    pub client_addr: Option<SessionId>,
    /// Identifier that the client gave to its message; the response
    /// carries it.
    pub message_id: u128,
    pub command: ClientCommand,
}

/// The answer to one message of a client.
#[derive(Clone, Copy, PartialEq, Eq, Structural, Debug)]
pub struct ServerResponse {
    /// Identifier of the message that this responds to.
    pub responding_to: u128,
    pub message: Response,
}

/// What is left to do once the registry has handled a command.
#[derive(Debug, PartialEq, Eq)]
pub enum Outcome {
    /// Answer the client.
    Reply(Response),
    /// Hand the event to each of the sessions, in this order, then answer
    /// the client.
    Deliver(ServerMessage, Vec<SessionId>, Response),
    /// Append the text to the channel's messages for the user, hub and
    /// channel given, and hand what the store answers to
    /// [`Server::stored`].
    Store(ID, ID, ID, String),
}

/// What is left to do once the registry has handled a message of a client,
/// and whom to answer.
#[derive(Debug, PartialEq, Eq)]
pub struct Handled {
    pub outcome: Outcome,
    /// The session to send the response to, where the message named one.
    pub client_addr: Option<SessionId>,
    /// Identifier of the message that the response belongs to.
    pub responding_to: u128,
}

impl Handled {
    /// The response to send once the outcome is dealt with and has led to
    /// `message`, with the session to send it to; none where the client
    /// named no session.
    pub fn response(&self, message: Response) -> (answer: Option<(SessionId, ServerResponse)>)
        ensures
            answer == match self.client_addr {
                Some(session) => Some(
                    (session, ServerResponse { responding_to: self.responding_to, message }),
                ),
                None => None,
            },
    {
        match self.client_addr {
            Some(session) => Some(
                (session, ServerResponse { responding_to: self.responding_to, message }),
            ),
            None => None,
        }
    }
}

impl From<ClientCommand> for ClientServerMessage {
    fn from(cmd: ClientCommand) -> (msg: Self) {
        ClientServerMessage { client_addr: None, message_id: 0, command: cmd }
    }
}

impl FromSpecImpl<ClientCommand> for ClientServerMessage {
    open spec fn obeys_from_spec() -> bool {
        true
    }

    open spec fn from_spec(cmd: ClientCommand) -> Self {
        ClientServerMessage { client_addr: None, message_id: 0, command: cmd }
    }
}

impl ServerMessage {
    /// The channel whose subscribers the event goes to; none for an event
    /// that goes to the subscribers of a hub.
    pub open spec fn channel_key(&self) -> Option<ChannelKey> {
        match self {
            ServerMessage::NewMessage(hub_id, channel_id, _) => Some(
                ChannelKey { hub_id: *hub_id, channel_id: *channel_id },
            ),
            ServerMessage::TypingStart(hub_id, channel_id, _) => Some(
                ChannelKey { hub_id: *hub_id, channel_id: *channel_id },
            ),
            ServerMessage::TypingStop(hub_id, channel_id, _) => Some(
                ChannelKey { hub_id: *hub_id, channel_id: *channel_id },
            ),
            ServerMessage::HubUpdated(_, _) => None,
        }
    }
}

impl ClientCommand {
    /// The hub whose snapshot decides the command; none for a command that
    /// is never refused.
    pub open spec fn spec_hub_id(&self) -> Option<ID> {
        match self {
            ClientCommand::SubscribeHub(_, hub_id, _) => Some(*hub_id),
            ClientCommand::SubscribeChannel(_, hub_id, _, _) => Some(*hub_id),
            ClientCommand::StartTyping(_, hub_id, _) => Some(*hub_id),
            ClientCommand::StopTyping(_, hub_id, _) => Some(*hub_id),
            ClientCommand::SendMessage(_, hub_id, _, _) => Some(*hub_id),
            _ => None,
        }
    }

    #[verifier::when_used_as_spec(spec_hub_id)]
    pub fn hub_id(&self) -> (hub_id: Option<ID>)
        ensures
            hub_id == self.spec_hub_id(),
    {
        match self {
            ClientCommand::SubscribeHub(_, hub_id, _) => Some(*hub_id),
            ClientCommand::SubscribeChannel(_, hub_id, _, _) => Some(*hub_id),
            ClientCommand::StartTyping(_, hub_id, _) => Some(*hub_id),
            ClientCommand::StopTyping(_, hub_id, _) => Some(*hub_id),
            ClientCommand::SendMessage(_, hub_id, _, _) => Some(*hub_id),
            _ => None,
        }
    }

    /// Whether the command is accepted, and the error if it is not. A
    /// command that needs the hub fails as the loading of the hub failed;
    /// otherwise the hub's rules decide, and for a message also its size.
    pub open spec fn verdict(&self, hub: &Result<Hub, Error>) -> Result<(), Error> {
        if self.spec_hub_id() is None {
            Ok(())
        } else {
            match hub {
                Err(e) => Err(*e),
                Ok(hub) => match self {
                    ClientCommand::SubscribeHub(user_id, _, _) => hub.hub_access(*user_id),
                    ClientCommand::SubscribeChannel(user_id, _, channel_id, _) => hub.channel_access(
                        *user_id,
                        *channel_id,
                        ChannelPermission::Read,
                    ),
                    ClientCommand::StartTyping(user_id, _, channel_id) => hub.typing_access(
                        *user_id,
                        *channel_id,
                    ),
                    ClientCommand::StopTyping(user_id, _, channel_id) => hub.typing_access(
                        *user_id,
                        *channel_id,
                    ),
                    ClientCommand::SendMessage(user_id, _, channel_id, text) => if hub.send_access(
                        *user_id,
                        *channel_id,
                    ) is Err {
                        hub.send_access(*user_id, *channel_id)
                    } else if !text_fits(text@) {
                        Err(Error::TooBig)
                    } else {
                        Ok(())
                    },
                    _ => Ok(()),
                },
            }
        }
    }

    /// Decides whether the command is accepted.
    pub fn check(&self, hub: &Result<Hub, Error>) -> (verdict: Result<(), Error>)
        ensures
            verdict == self.verdict(hub),
    {
        if self.hub_id().is_none() {
            return Ok(());
        }
        match hub {
            Err(e) => Err(*e),
            Ok(hub) => match self {
                ClientCommand::SubscribeHub(user_id, _, _) => hub.check_subscribe(user_id),
                ClientCommand::SubscribeChannel(
                    user_id,
                    _,
                    channel_id,
                    _,
                ) => hub.check_channel_permission(user_id, channel_id, ChannelPermission::Read),
                ClientCommand::StartTyping(user_id, _, channel_id) => hub.check_typing(
                    user_id,
                    channel_id,
                ),
                ClientCommand::StopTyping(user_id, _, channel_id) => hub.check_typing(
                    user_id,
                    channel_id,
                ),
                ClientCommand::SendMessage(user_id, _, channel_id, text) => {
                    match hub.check_send(user_id, channel_id) {
                        Err(e) => Err(e),
                        Ok(_) => if check_text_size(text.as_str()) {
                            Ok(())
                        } else {
                            Err(Error::TooBig)
                        },
                    }
                },
                _ => Ok(()),
            },
        }
    }
}

/// Handle of one connected client. Whoever owns the client's delivery sink
/// maps the handle to it.
pub type SessionId = u64;

/// The registry of subscriptions, with the indexes of the channels' messages.
/// Each edge between a session and a hub, or a session and a channel, is
/// held twice: under the session, and under the hub or channel.
pub struct Server {
    subscribed_channels: EdgeMap<ChannelKey, SessionId>,
    subscribed_hubs: IdEdgeMap<ID, SessionId>,
    session_channels: IdEdgeMap<SessionId, ChannelKey>,
    session_hubs: IdEdgeMap<SessionId, ID>,
    message_server: MessageServer,
}

impl Server {
    /// The sessions subscribed to a channel, in the order in which they
    /// subscribed.
    pub closed spec fn channel_subscribers(&self, key: ChannelKey) -> Seq<SessionId> {
        self.subscribed_channels.list(key)
    }

    /// The sessions subscribed to a hub, in the order in which they
    /// subscribed.
    pub closed spec fn hub_subscribers(&self, hub_id: ID) -> Seq<SessionId> {
        self.subscribed_hubs.list(hub_id)
    }

    /// The channels that a session is subscribed to.
    pub closed spec fn channels_of(&self, session: SessionId) -> Seq<ChannelKey> {
        self.session_channels.list(session)
    }

    /// The hubs that a session is subscribed to.
    pub closed spec fn hubs_of(&self, session: SessionId) -> Seq<ID> {
        self.session_hubs.list(session)
    }

    /// Whether the registry holds an entry for the session.
    pub closed spec fn knows(&self, session: SessionId) -> bool {
        self.session_channels.has_key(session) || self.session_hubs.has_key(session)
    }

    /// The indexes of the channels' messages.
    pub closed spec fn indexes(&self) -> MessageServer {
        self.message_server
    }

    /// The registry is consistent in both directions: a session stands
    /// under a channel exactly if the channel stands under the session,
    /// and likewise for hubs. No list holds an item twice.
    pub closed spec fn wf(&self) -> bool {
        &&& self.message_server.wf()
        &&& self.subscribed_channels.wf()
        &&& self.subscribed_hubs.wf()
        &&& self.session_channels.wf()
        &&& self.session_hubs.wf()
        &&& forall|key: ChannelKey, session: SessionId|
            #![trigger self.subscribed_channels.list(key).contains(session)]
            #![trigger self.session_channels.list(session).contains(key)]
            self.subscribed_channels.list(key).contains(session) <==> self.session_channels.list(
                session,
            ).contains(key)
        &&& forall|hub_id: ID, session: SessionId|
            #![trigger self.subscribed_hubs.list(hub_id).contains(session)]
            #![trigger self.session_hubs.list(session).contains(hub_id)]
            self.subscribed_hubs.list(hub_id).contains(session) <==> self.session_hubs.list(
                session,
            ).contains(hub_id)
    }

    /// Whether no list of the registry mentions the session and the
    /// registry holds no entry for it.
    pub open spec fn forgotten(&self, session: SessionId) -> bool {
        &&& !self.knows(session)
        &&& self.channels_of(session) == Seq::<ChannelKey>::empty()
        &&& self.hubs_of(session) == Seq::<ID>::empty()
        &&& forall|key: ChannelKey| !(#[trigger] self.channel_subscribers(key)).contains(session)
        &&& forall|hub_id: ID| !(#[trigger] self.hub_subscribers(hub_id)).contains(session)
    }

    /// Whether the hub edges of the two registries are the same.
    pub open spec fn same_hub_edges(&self, before: &Self) -> bool {
        &&& forall|hub_id: ID| #[trigger]
            self.hub_subscribers(hub_id) == before.hub_subscribers(hub_id)
        &&& forall|session: SessionId| #[trigger]
            self.hubs_of(session) == before.hubs_of(session)
    }

    /// Whether the channel edges of the two registries are the same.
    pub open spec fn same_channel_edges(&self, before: &Self) -> bool {
        &&& forall|key: ChannelKey| #[trigger]
            self.channel_subscribers(key) == before.channel_subscribers(key)
        &&& forall|session: SessionId| #[trigger]
            self.channels_of(session) == before.channels_of(session)
    }

    /// Whether the two registries hold the same edges and know the same
    /// sessions.
    pub open spec fn unchanged(&self, before: &Self) -> bool {
        &&& self.same_hub_edges(before)
        &&& self.same_channel_edges(before)
        &&& forall|session: SessionId| #[trigger] self.knows(session) == before.knows(session)
        &&& self.indexes() == before.indexes()
    }

    /// How the registry looks after `session` subscribed to `hub_id`: the
    /// edge stands in both directions, and nothing else has changed.
    pub open spec fn hub_added(&self, before: &Self, session: SessionId, hub_id: ID) -> bool {
        &&& self.hub_subscribers(hub_id) == with_item(before.hub_subscribers(hub_id), session)
        &&& self.hubs_of(session) == with_item(before.hubs_of(session), hub_id)
        &&& forall|other: ID|
            other != hub_id ==> #[trigger] self.hub_subscribers(other) == before.hub_subscribers(
                other,
            )
        &&& forall|other: SessionId|
            other != session ==> #[trigger] self.hubs_of(other) == before.hubs_of(other)
        &&& self.same_channel_edges(before)
        &&& forall|other: SessionId| #[trigger]
            self.knows(other) == (before.knows(other) || other == session)
        &&& self.indexes() == before.indexes()
    }

    /// How the registry looks after `session` unsubscribed from `hub_id`:
    /// the edge is gone in both directions, and nothing else has changed.
    pub open spec fn hub_removed(&self, before: &Self, session: SessionId, hub_id: ID) -> bool {
        &&& self.hub_subscribers(hub_id) == without_item(before.hub_subscribers(hub_id), session)
        &&& self.hubs_of(session) == without_item(before.hubs_of(session), hub_id)
        &&& forall|other: ID|
            other != hub_id ==> #[trigger] self.hub_subscribers(other) == before.hub_subscribers(
                other,
            )
        &&& forall|other: SessionId|
            other != session ==> #[trigger] self.hubs_of(other) == before.hubs_of(other)
        &&& self.same_channel_edges(before)
        &&& forall|other: SessionId| #[trigger] self.knows(other) == before.knows(other)
        &&& self.indexes() == before.indexes()
    }

    /// How the registry looks after `session` subscribed to the channel
    /// `key`: the edge stands in both directions, and nothing else has
    /// changed.
    pub open spec fn channel_added(
        &self,
        before: &Self,
        session: SessionId,
        key: ChannelKey,
    ) -> bool {
        &&& self.channel_subscribers(key) == with_item(before.channel_subscribers(key), session)
        &&& self.channels_of(session) == with_item(before.channels_of(session), key)
        &&& forall|other: ChannelKey|
            other != key ==> #[trigger] self.channel_subscribers(other)
                == before.channel_subscribers(other)
        &&& forall|other: SessionId|
            other != session ==> #[trigger] self.channels_of(other) == before.channels_of(other)
        &&& self.same_hub_edges(before)
        &&& forall|other: SessionId| #[trigger]
            self.knows(other) == (before.knows(other) || other == session)
        &&& self.indexes() == before.indexes()
    }

    /// How the registry looks after `session` unsubscribed from the channel
    /// `key`: the edge is gone in both directions, and nothing else has
    /// changed.
    pub open spec fn channel_removed(
        &self,
        before: &Self,
        session: SessionId,
        key: ChannelKey,
    ) -> bool {
        &&& self.channel_subscribers(key) == without_item(
            before.channel_subscribers(key),
            session,
        )
        &&& self.channels_of(session) == without_item(before.channels_of(session), key)
        &&& forall|other: ChannelKey|
            other != key ==> #[trigger] self.channel_subscribers(other)
                == before.channel_subscribers(other)
        &&& forall|other: SessionId|
            other != session ==> #[trigger] self.channels_of(other) == before.channels_of(other)
        &&& self.same_hub_edges(before)
        &&& forall|other: SessionId| #[trigger] self.knows(other) == before.knows(other)
        &&& self.indexes() == before.indexes()
    }

    /// How the registry looks after `session` was disconnected: the session
    /// is gone from every list and has no entry, and every other session
    /// has the edges that it had.
    pub open spec fn session_removed(&self, before: &Self, session: SessionId) -> bool {
        &&& forall|key: ChannelKey| #[trigger]
            self.channel_subscribers(key) == without_item(
                before.channel_subscribers(key),
                session,
            )
        &&& forall|hub_id: ID| #[trigger]
            self.hub_subscribers(hub_id) == without_item(before.hub_subscribers(hub_id), session)
        &&& self.channels_of(session) == Seq::<ChannelKey>::empty()
        &&& self.hubs_of(session) == Seq::<ID>::empty()
        &&& forall|other: SessionId|
            other != session ==> #[trigger] self.channels_of(other) == before.channels_of(other)
        &&& forall|other: SessionId|
            other != session ==> #[trigger] self.hubs_of(other) == before.hubs_of(other)
        &&& forall|other: SessionId| #[trigger]
            self.knows(other) == (before.knows(other) && other != session)
        &&& self.indexes() == before.indexes()
    }

    /// A server without any subscription and without any open index, whose
    /// indexes will commit once `commit_threshold` messages are pending.
    pub fn new(commit_threshold: u8) -> (server: Self)
        ensures
            server.wf(),
            server.indexes().threshold() == commit_threshold,
            server.indexes().keys() == Seq::<ChannelKey>::empty(),
            forall|session: SessionId| #[trigger] server.forgotten(session),
            forall|key: ChannelKey| #[trigger]
                server.channel_subscribers(key) == Seq::<SessionId>::empty(),
            forall|hub_id: ID| #[trigger] server.hub_subscribers(hub_id) == Seq::<SessionId>::empty(),
    {
        Server {
            subscribed_channels: EdgeMap::new(),
            subscribed_hubs: IdEdgeMap::new(),
            session_channels: IdEdgeMap::new(),
            session_hubs: IdEdgeMap::new(),
            message_server: MessageServer::new(commit_threshold),
        }
    }

    /// Adds the edge between a session and a hub, in both directions.
    pub fn add_hub_edge(&mut self, session: SessionId, hub_id: ID)
        requires
            old(self).wf(),
        ensures
            final(self).wf(),
            final(self).hub_added(old(self), session, hub_id),
    {
        proof {
            self.lemma_no_duplicates();
        }
        self.session_hubs.insert(session, hub_id);
        self.subscribed_hubs.insert(hub_id, session);
        proof {
            lemma_with_item(old(self).subscribed_hubs.list(hub_id), session);
            lemma_with_item(old(self).session_hubs.list(session), hub_id);
            assert forall|h: ID, s: SessionId|
                #![trigger self.subscribed_hubs.list(h).contains(s)]
                #![trigger self.session_hubs.list(s).contains(h)]
                self.subscribed_hubs.list(h).contains(s) <==> self.session_hubs.list(s).contains(
                    h,
                ) by {
                assert(old(self).subscribed_hubs.list(h).contains(s) <==> old(self).session_hubs.list(s).contains(h));
            }
        }
    }

    /// Removes the edge between a session and a hub, in both directions. A
    /// missing edge is no error.
    pub fn remove_hub_edge(&mut self, session: SessionId, hub_id: ID)
        requires
            old(self).wf(),
        ensures
            final(self).wf(),
            final(self).hub_removed(old(self), session, hub_id),
    {
        proof {
            self.lemma_no_duplicates();
        }
        self.session_hubs.remove(&session, &hub_id);
        self.subscribed_hubs.remove(&hub_id, &session);
        proof {
            lemma_without_item(old(self).subscribed_hubs.list(hub_id), session);
            lemma_without_item(old(self).session_hubs.list(session), hub_id);
            assert forall|h: ID, s: SessionId|
                #![trigger self.subscribed_hubs.list(h).contains(s)]
                #![trigger self.session_hubs.list(s).contains(h)]
                self.subscribed_hubs.list(h).contains(s) <==> self.session_hubs.list(s).contains(
                    h,
                ) by {
                assert(old(self).subscribed_hubs.list(h).contains(s) <==> old(self).session_hubs.list(s).contains(h));
            }
        }
    }

    /// Adds the edge between a session and a channel, in both directions.
    pub fn add_channel_edge(&mut self, session: SessionId, key: ChannelKey)
        requires
            old(self).wf(),
        ensures
            final(self).wf(),
            final(self).channel_added(old(self), session, key),
    {
        proof {
            self.lemma_no_duplicates();
        }
        self.session_channels.insert(session, key);
        self.subscribed_channels.insert(key, session);
        proof {
            lemma_with_item(old(self).subscribed_channels.list(key), session);
            lemma_with_item(old(self).session_channels.list(session), key);
            assert forall|k: ChannelKey, s: SessionId|
                #![trigger self.subscribed_channels.list(k).contains(s)]
                #![trigger self.session_channels.list(s).contains(k)]
                self.subscribed_channels.list(k).contains(s) <==> self.session_channels.list(
                    s,
                ).contains(k) by {
                assert(old(self).subscribed_channels.list(k).contains(s) <==> old(self).session_channels.list(s).contains(k));
            }
        }
    }

    /// Removes the edge between a session and a channel, in both
    /// directions. A missing edge is no error.
    pub fn remove_channel_edge(&mut self, session: SessionId, key: ChannelKey)
        requires
            old(self).wf(),
        ensures
            final(self).wf(),
            final(self).channel_removed(old(self), session, key),
    {
        proof {
            self.lemma_no_duplicates();
        }
        self.session_channels.remove(&session, &key);
        self.subscribed_channels.remove(&key, &session);
        proof {
            lemma_without_item(old(self).subscribed_channels.list(key), session);
            lemma_without_item(old(self).session_channels.list(session), key);
            assert forall|k: ChannelKey, s: SessionId|
                #![trigger self.subscribed_channels.list(k).contains(s)]
                #![trigger self.session_channels.list(s).contains(k)]
                self.subscribed_channels.list(k).contains(s) <==> self.session_channels.list(
                    s,
                ).contains(k) by {
                assert(old(self).subscribed_channels.list(k).contains(s) <==> old(self).session_channels.list(s).contains(k));
            }
        }
    }

    /// Removes every edge that a session takes part in, and its entry.
    pub fn disconnect(&mut self, session: SessionId)
        requires
            old(self).wf(),
        ensures
            final(self).wf(),
            final(self).session_removed(old(self), session),
            final(self).forgotten(session),
    {
        proof {
            self.lemma_no_duplicates();
        }
        let channels = self.session_channels.remove_key(&session);
        let mut i: usize = 0;
        while i < channels.len()
            invariant
                0 <= i <= channels.len(),
                channels@ == old(self).session_channels.list(session),
                channels@.no_duplicates(),
                self.subscribed_channels.wf(),
                self.subscribed_hubs == old(self).subscribed_hubs,
                self.session_hubs == old(self).session_hubs,
                self.message_server == old(self).message_server,
                self.session_channels.wf(),
                self.session_channels.list(session) == Seq::<ChannelKey>::empty(),
                !self.session_channels.has_key(session),
                forall|other: SessionId|
                    other != session ==> self.session_channels.list(other) == old(self).session_channels.list(other) && self.session_channels.has_key(other) == old(self).session_channels.has_key(other),
                forall|key: ChannelKey| #[trigger]
                    self.subscribed_channels.list(key) == if channels@.subrange(
                        0,
                        i as int,
                    ).contains(key) {
                        without_item(old(self).subscribed_channels.list(key), session)
                    } else {
                        old(self).subscribed_channels.list(key)
                    },
            decreases channels.len() - i,
        {
            let key = channels[i];
            let ghost done = channels@.subrange(0, i as int);
            let ghost before = self.subscribed_channels;
            assert(!done.contains(key)) by {
                if done.contains(key) {
                    let j = choose|j: int| 0 <= j < done.len() && done[j] == key;
                    assert(channels@[j] == channels@[i as int]);
                }
            }
            self.subscribed_channels.remove(&key, &session);
            proof {
                let next = channels@.subrange(0, i + 1);
                assert(next[i as int] == key);
                assert forall|k: ChannelKey| #[trigger]
                    self.subscribed_channels.list(k) == if next.contains(k) {
                        without_item(old(self).subscribed_channels.list(k), session)
                    } else {
                        old(self).subscribed_channels.list(k)
                    } by {
                    if k != key {
                        assert(self.subscribed_channels.list(k) == before.list(k));
                        if done.contains(k) {
                            let j = choose|j: int| 0 <= j < done.len() && done[j] == k;
                            assert(next[j] == k);
                        } else if next.contains(k) {
                            let j = choose|j: int| 0 <= j < next.len() && next[j] == k;
                            assert(done[j] == k);
                        }
                    }
                }
            }
            i = i + 1;
        }
        assert(channels@.subrange(0, i as int) == channels@);
        let hubs = self.session_hubs.remove_key(&session);
        let ghost middle = *self;
        let mut j: usize = 0;
        while j < hubs.len()
            invariant
                0 <= j <= hubs.len(),
                hubs@ == old(self).session_hubs.list(session),
                hubs@.no_duplicates(),
                self.subscribed_hubs.wf(),
                self.subscribed_channels == middle.subscribed_channels,
                self.session_channels == middle.session_channels,
                self.session_hubs == middle.session_hubs,
                self.message_server == middle.message_server,
                forall|hub_id: ID| #[trigger]
                    self.subscribed_hubs.list(hub_id) == if hubs@.subrange(0, j as int).contains(
                        hub_id,
                    ) {
                        without_item(old(self).subscribed_hubs.list(hub_id), session)
                    } else {
                        old(self).subscribed_hubs.list(hub_id)
                    },
            decreases hubs.len() - j,
        {
            let hub_id = hubs[j];
            let ghost done = hubs@.subrange(0, j as int);
            let ghost before = self.subscribed_hubs;
            assert(!done.contains(hub_id)) by {
                if done.contains(hub_id) {
                    let n = choose|n: int| 0 <= n < done.len() && done[n] == hub_id;
                    assert(hubs@[n] == hubs@[j as int]);
                }
            }
            self.subscribed_hubs.remove(&hub_id, &session);
            proof {
                let next = hubs@.subrange(0, j + 1);
                assert(next[j as int] == hub_id);
                assert forall|h: ID| #[trigger]
                    self.subscribed_hubs.list(h) == if next.contains(h) {
                        without_item(old(self).subscribed_hubs.list(h), session)
                    } else {
                        old(self).subscribed_hubs.list(h)
                    } by {
                    if h != hub_id {
                        assert(self.subscribed_hubs.list(h) == before.list(h));
                        if done.contains(h) {
                            let n = choose|n: int| 0 <= n < done.len() && done[n] == h;
                            assert(next[n] == h);
                        } else if next.contains(h) {
                            let n = choose|n: int| 0 <= n < next.len() && next[n] == h;
                            assert(done[n] == h);
                        }
                    }
                }
            }
            j = j + 1;
        }
        assert(hubs@.subrange(0, j as int) == hubs@);
        proof {
            assert forall|k: ChannelKey| #[trigger]
                self.subscribed_channels.list(k) == without_item(
                    old(self).subscribed_channels.list(k),
                    session,
                ) by {
                assert(old(self).subscribed_channels.list(k).contains(session) <==> old(self).session_channels.list(session).contains(k));
                old(self).subscribed_channels.lemma_lists(k);
                lemma_without_item(old(self).subscribed_channels.list(k), session);
            }
            assert forall|h: ID| #[trigger]
                self.subscribed_hubs.list(h) == without_item(
                    old(self).subscribed_hubs.list(h),
                    session,
                ) by {
                assert(old(self).subscribed_hubs.list(h).contains(session) <==> old(self).session_hubs.list(session).contains(h));
                old(self).subscribed_hubs.lemma_lists(h);
                lemma_without_item(old(self).subscribed_hubs.list(h), session);
            }
            assert forall|k: ChannelKey, s: SessionId|
                #![trigger self.subscribed_channels.list(k).contains(s)]
                #![trigger self.session_channels.list(s).contains(k)]
                self.subscribed_channels.list(k).contains(s) <==> self.session_channels.list(
                    s,
                ).contains(k) by {
                old(self).subscribed_channels.lemma_lists(k);
                lemma_without_item(old(self).subscribed_channels.list(k), session);
                assert(old(self).subscribed_channels.list(k).contains(s) <==> old(self).session_channels.list(s).contains(k));
            }
            assert forall|h: ID, s: SessionId|
                #![trigger self.subscribed_hubs.list(h).contains(s)]
                #![trigger self.session_hubs.list(s).contains(h)]
                self.subscribed_hubs.list(h).contains(s) <==> self.session_hubs.list(s).contains(
                    h,
                ) by {
                old(self).subscribed_hubs.lemma_lists(h);
                lemma_without_item(old(self).subscribed_hubs.list(h), session);
                assert(old(self).subscribed_hubs.list(h).contains(s) <==> old(self).session_hubs.list(s).contains(h));
            }
            assert forall|k: ChannelKey| !(#[trigger] self.channel_subscribers(k)).contains(
                session,
            ) by {
                old(self).subscribed_channels.lemma_lists(k);
                lemma_without_item(old(self).subscribed_channels.list(k), session);
            }
            assert forall|h: ID| !(#[trigger] self.hub_subscribers(h)).contains(session) by {
                old(self).subscribed_hubs.lemma_lists(h);
                lemma_without_item(old(self).subscribed_hubs.list(h), session);
            }
        }
    }

    /// A copy of the list of sessions subscribed to a channel.
    pub fn channel_sessions(&self, key: &ChannelKey) -> (sessions: Vec<SessionId>)
        requires
            self.wf(),
        ensures
            sessions@ == self.channel_subscribers(*key),
    {
        self.subscribed_channels.get(key)
    }

    /// A copy of the list of sessions subscribed to a hub.
    pub fn hub_sessions(&self, hub_id: &ID) -> (sessions: Vec<SessionId>)
        requires
            self.wf(),
        ensures
            sessions@ == self.hub_subscribers(*hub_id),
    {
        self.subscribed_hubs.get(hub_id)
    }

    /// A copy of the list of channels that a session is subscribed to.
    pub fn session_channel_keys(&self, session: SessionId) -> (keys: Vec<ChannelKey>)
        requires
            self.wf(),
        ensures
            keys@ == self.channels_of(session),
    {
        self.session_channels.get(&session)
    }

    /// A copy of the list of hubs that a session is subscribed to.
    pub fn session_hub_ids(&self, session: SessionId) -> (hubs: Vec<ID>)
        requires
            self.wf(),
        ensures
            hubs@ == self.hubs_of(session),
    {
        self.session_hubs.get(&session)
    }

    /// Whether the registry holds an entry for the session.
    pub fn is_known(&self, session: SessionId) -> (known: bool)
        requires
            self.wf(),
        ensures
            known == self.knows(session),
    {
        self.session_channels.contains_key(&session) || self.session_hubs.contains_key(&session)
    }

    /// The sessions that an event goes to, in the order of delivery: the
    /// subscribers of its channel, or of its hub where it is an update of a
    /// hub.
    pub open spec fn audience(&self, event: &ServerMessage) -> Seq<SessionId> {
        match event {
            ServerMessage::HubUpdated(hub_id, _) => self.hub_subscribers(*hub_id),
            _ => self.channel_subscribers(event.channel_key()->0),
        }
    }

    /// The sessions that an event goes to.
    pub fn recipients(&self, event: &ServerMessage) -> (sessions: Vec<SessionId>)
        requires
            self.wf(),
        ensures
            sessions@ == self.audience(event),
            sessions@.no_duplicates(),
    {
        proof {
            self.lemma_no_duplicates();
        }
        match event {
            ServerMessage::NewMessage(hub_id, channel_id, _) => self.channel_sessions(
                &ChannelKey { hub_id: *hub_id, channel_id: *channel_id },
            ),
            ServerMessage::TypingStart(hub_id, channel_id, _) => self.channel_sessions(
                &ChannelKey { hub_id: *hub_id, channel_id: *channel_id },
            ),
            ServerMessage::TypingStop(hub_id, channel_id, _) => self.channel_sessions(
                &ChannelKey { hub_id: *hub_id, channel_id: *channel_id },
            ),
            ServerMessage::HubUpdated(hub_id, _) => self.hub_sessions(hub_id),
        }
    }

    /// What a command does to the registry, and what is left to do after
    /// it. A command that is refused changes nothing and is answered with
    /// the error. One that is accepted is answered with success once the
    /// edge is added or removed, the session disconnected, or the typing
    /// event handed to the subscribers of the channel; a message is passed
    /// on to be stored.
    pub open spec fn handled(
        &self,
        before: &Self,
        command: &ClientCommand,
        hub: &Result<Hub, Error>,
        outcome: &Outcome,
    ) -> bool {
        match command.verdict(hub) {
            Err(e) => self.unchanged(before) && *outcome == Outcome::Reply(Response::Error(e)),
            Ok(_) => match command {
                ClientCommand::Disconnect(session) => {
                    &&& self.session_removed(before, *session)
                    &&& *outcome == Outcome::Reply(Response::Success)
                },
                ClientCommand::SubscribeHub(_, hub_id, session) => {
                    &&& self.hub_added(before, *session, *hub_id)
                    &&& *outcome == Outcome::Reply(Response::Success)
                },
                ClientCommand::UnsubscribeHub(hub_id, session) => {
                    &&& self.hub_removed(before, *session, *hub_id)
                    &&& *outcome == Outcome::Reply(Response::Success)
                },
                ClientCommand::SubscribeChannel(_, hub_id, channel_id, session) => {
                    &&& self.channel_added(
                        before,
                        *session,
                        ChannelKey { hub_id: *hub_id, channel_id: *channel_id },
                    )
                    &&& *outcome == Outcome::Reply(Response::Success)
                },
                ClientCommand::UnsubscribeChannel(hub_id, channel_id, session) => {
                    &&& self.channel_removed(
                        before,
                        *session,
                        ChannelKey { hub_id: *hub_id, channel_id: *channel_id },
                    )
                    &&& *outcome == Outcome::Reply(Response::Success)
                },
                ClientCommand::StartTyping(user_id, hub_id, channel_id) => {
                    &&& self.unchanged(before)
                    &&& outcome matches Outcome::Deliver(event, sessions, response)
                    &&& *event == ServerMessage::TypingStart(*hub_id, *channel_id, *user_id)
                    &&& sessions@ == before.audience(event)
                    &&& *response == Response::Success
                },
                ClientCommand::StopTyping(user_id, hub_id, channel_id) => {
                    &&& self.unchanged(before)
                    &&& outcome matches Outcome::Deliver(event, sessions, response)
                    &&& *event == ServerMessage::TypingStop(*hub_id, *channel_id, *user_id)
                    &&& sessions@ == before.audience(event)
                    &&& *response == Response::Success
                },
                ClientCommand::SendMessage(user_id, hub_id, channel_id, text) => {
                    &&& self.unchanged(before)
                    &&& *outcome == Outcome::Store(*user_id, *hub_id, *channel_id, *text)
                },
            },
        }
    }

    /// Handles a message of a client: its command as
    /// [`Server::handle_command`] does, and says whom to answer.
    pub fn handle(&mut self, msg: ClientServerMessage, hub: &Result<Hub, Error>) -> (handled: Handled)
        requires
            old(self).wf(),
        ensures
            final(self).wf(),
            final(self).handled(old(self), &msg.command, hub, &handled.outcome),
            handled.client_addr == msg.client_addr,
            handled.responding_to == msg.message_id,
    {
        let client_addr = msg.client_addr;
        let responding_to = msg.message_id;
        let outcome = self.handle_command(msg.command, hub);
        Handled { outcome, client_addr, responding_to }
    }

    /// Handles a command of a client. `hub` is what loading the snapshot of
    /// the hub named by [`ClientCommand::hub_id`] gave; a command that
    /// names none does not look at it.
    pub fn handle_command(&mut self, command: ClientCommand, hub: &Result<Hub, Error>) -> (outcome:
        Outcome)
        requires
            old(self).wf(),
        ensures
            final(self).wf(),
            final(self).handled(old(self), &command, hub, &outcome),
    {
        match command.check(hub) {
            Err(e) => Outcome::Reply(Response::Error(e)),
            Ok(_) => match command {
                ClientCommand::Disconnect(session) => {
                    self.disconnect(session);
                    Outcome::Reply(Response::Success)
                },
                ClientCommand::SubscribeHub(_, hub_id, session) => {
                    self.add_hub_edge(session, hub_id);
                    Outcome::Reply(Response::Success)
                },
                ClientCommand::UnsubscribeHub(hub_id, session) => {
                    self.remove_hub_edge(session, hub_id);
                    Outcome::Reply(Response::Success)
                },
                ClientCommand::SubscribeChannel(_, hub_id, channel_id, session) => {
                    self.add_channel_edge(session, ChannelKey { hub_id, channel_id });
                    Outcome::Reply(Response::Success)
                },
                ClientCommand::UnsubscribeChannel(hub_id, channel_id, session) => {
                    self.remove_channel_edge(session, ChannelKey { hub_id, channel_id });
                    Outcome::Reply(Response::Success)
                },
                ClientCommand::StartTyping(user_id, hub_id, channel_id) => {
                    let event = ServerMessage::TypingStart(hub_id, channel_id, user_id);
                    let sessions = self.recipients(&event);
                    Outcome::Deliver(event, sessions, Response::Success)
                },
                ClientCommand::StopTyping(user_id, hub_id, channel_id) => {
                    let event = ServerMessage::TypingStop(hub_id, channel_id, user_id);
                    let sessions = self.recipients(&event);
                    Outcome::Deliver(event, sessions, Response::Success)
                },
                ClientCommand::SendMessage(user_id, hub_id, channel_id, text) => Outcome::Store(
                    user_id,
                    hub_id,
                    channel_id,
                    text,
                ),
            },
        }
    }

    /// What is left to do once the store has answered the appending of a
    /// message: the error goes back to the client; a stored message goes to
    /// the subscribers of the channel, and its identifier to the client.
    pub fn stored(&self, hub_id: ID, channel_id: ID, appended: Result<Message, Error>) -> (outcome:
        Outcome)
        requires
            self.wf(),
        ensures
            match appended {
                Err(e) => outcome == Outcome::Reply(Response::Error(e)),
                Ok(message) => {
                    &&& outcome matches Outcome::Deliver(event, sessions, response)
                    &&& event == ServerMessage::NewMessage(hub_id, channel_id, message)
                    &&& sessions@ == self.channel_subscribers(ChannelKey { hub_id, channel_id })
                    &&& sessions@.no_duplicates()
                    &&& response == Response::Id(message.id)
                },
            },
    {
        match appended {
            Err(e) => Outcome::Reply(Response::Error(e)),
            Ok(message) => {
                let id = message.id;
                let event = ServerMessage::NewMessage(hub_id, channel_id, message);
                let sessions = self.recipients(&event);
                Outcome::Deliver(event, sessions, Response::Id(id))
            },
        }
    }

    /// The event that a notification asks for, with the sessions that it
    /// goes to; none for the notification to stop.
    pub fn notify(&self, notification: ServerNotification) -> (delivery: Option<
        (ServerMessage, Vec<SessionId>),
    >)
        requires
            self.wf(),
        ensures
            match notification {
                ServerNotification::NewMessage(hub_id, channel_id, message) => {
                    &&& delivery matches Some((event, sessions))
                    &&& event == ServerMessage::NewMessage(hub_id, channel_id, message)
                    &&& sessions@ == self.channel_subscribers(ChannelKey { hub_id, channel_id })
                    &&& sessions@.no_duplicates()
                },
                ServerNotification::HubUpdated(hub_id, kind) => {
                    &&& delivery matches Some((event, sessions))
                    &&& event == ServerMessage::HubUpdated(hub_id, kind)
                    &&& sessions@ == self.hub_subscribers(hub_id)
                    &&& sessions@.no_duplicates()
                },
                ServerNotification::Stop => delivery is None,
            },
    {
        match notification {
            ServerNotification::NewMessage(hub_id, channel_id, message) => {
                let event = ServerMessage::NewMessage(hub_id, channel_id, message);
                let sessions = self.recipients(&event);
                Some((event, sessions))
            },
            ServerNotification::HubUpdated(hub_id, kind) => {
                let event = ServerMessage::HubUpdated(hub_id, kind);
                let sessions = self.recipients(&event);
                Some((event, sessions))
            },
            ServerNotification::Stop => None,
        }
    }

    /// Whether the two servers hold the same subscriptions.
    pub open spec fn same_subscriptions(&self, before: &Self) -> bool {
        &&& self.same_hub_edges(before)
        &&& self.same_channel_edges(before)
        &&& forall|session: SessionId| #[trigger] self.knows(session) == before.knows(session)
    }

    /// The indexes of the channels' messages.
    pub fn message_server(&self) -> (indexes: &MessageServer)
        requires
            self.wf(),
        ensures
            *indexes == self.indexes(),
            indexes.wf(),
    {
        &self.message_server
    }

    /// Sets up the index of a channel, as [`MessageServer::setup_index`]
    /// does: an index that is open and can do work stays, and the call
    /// succeeds; otherwise the index is opened, and what was missed is
    /// replayed. The subscriptions stay as they are.
    pub fn setup_index(
        &mut self,
        hub_id: &ID,
        channel_id: &ID,
        path: &str,
        recovery_log: Option<ID>,
        missed: &Vec<Message>,
    ) -> (done: Result<(), Error>)
        requires
            old(self).wf(),
        ensures
            final(self).wf(),
            final(self).same_subscriptions(old(self)),
            final(self).indexes().threshold() == old(self).indexes().threshold(),
            forall|other: ChannelKey| #[trigger]
                final(self).indexes().keys().contains(other) == (if other == (ChannelKey {
                    hub_id: *hub_id,
                    channel_id: *channel_id,
                }) {
                    done is Ok
                } else {
                    old(self).indexes().keys().contains(other)
                }),
            forall|other: ChannelKey|
                other != (ChannelKey { hub_id: *hub_id, channel_id: *channel_id }) && old(self).indexes().is_open(other) ==> #[trigger] final(self).indexes().index(other) == old(self).indexes().index(other),
            final(self).indexes().set_up(
                &old(self).indexes(),
                ChannelKey { hub_id: *hub_id, channel_id: *channel_id },
                recovery_log,
                missed@,
                done,
            ),
    {
        let done = self.message_server.setup_index(hub_id, channel_id, path, recovery_log, missed);
        proof {
            let key = ChannelKey { hub_id: *hub_id, channel_id: *channel_id };
            assert forall|other: ChannelKey| other != key && old(self).indexes().is_open(other) implies
                #[trigger] self.indexes().index(other) == old(self).indexes().index(other) by {
                assert(self.message_server.index(other) == old(self).message_server.index(other));
            }
        }
        done
    }

    /// Closes the index of a channel, as [`MessageServer::close_index`]
    /// does. The subscriptions stay as they are.
    pub fn close_index(&mut self, hub_id: &ID, channel_id: &ID) -> (closed: bool)
        requires
            old(self).wf(),
        ensures
            final(self).wf(),
            final(self).same_subscriptions(old(self)),
            final(self).indexes().threshold() == old(self).indexes().threshold(),
            closed == old(self).indexes().is_open(
                ChannelKey { hub_id: *hub_id, channel_id: *channel_id },
            ),
            final(self).indexes().keys() == without_item(
                old(self).indexes().keys(),
                ChannelKey { hub_id: *hub_id, channel_id: *channel_id },
            ),
            forall|other: ChannelKey| #[trigger]
                final(self).indexes().keys().contains(other) == (old(self).indexes().keys().contains(
                    other,
                ) && other != (ChannelKey { hub_id: *hub_id, channel_id: *channel_id })),
            forall|other: ChannelKey|
                other != (ChannelKey { hub_id: *hub_id, channel_id: *channel_id }) && old(self).indexes().is_open(other) ==> #[trigger] final(self).indexes().index(other) == old(self).indexes().index(other),
    {
        let closed = self.message_server.close_index(hub_id, channel_id);
        proof {
            let key = ChannelKey { hub_id: *hub_id, channel_id: *channel_id };
            assert forall|other: ChannelKey| other != key && old(self).indexes().is_open(other) implies
                #[trigger] self.indexes().index(other) == old(self).indexes().index(other) by {
                assert(self.message_server.index(other) == old(self).message_server.index(other));
            }
        }
        closed
    }

    /// Closes the indexes of all channels of a hub, as
    /// [`MessageServer::close_hub`] does. The subscriptions stay as they
    /// are.
    pub fn close_hub(&mut self, hub_id: &ID) -> (closed: usize)
        requires
            old(self).wf(),
        ensures
            final(self).wf(),
            final(self).same_subscriptions(old(self)),
            final(self).indexes().threshold() == old(self).indexes().threshold(),
            final(self).indexes().keys() == keys_outside(old(self).indexes().keys(), *hub_id),
            closed == old(self).indexes().keys().len() - final(self).indexes().keys().len(),
            forall|other: ChannelKey|
                other.hub_id != *hub_id && old(self).indexes().is_open(other) ==> #[trigger] final(self).indexes().index(other) == old(self).indexes().index(other),
    {
        let closed = self.message_server.close_hub(hub_id);
        proof {
            assert forall|other: ChannelKey|
                other.hub_id != *hub_id && old(self).indexes().is_open(other) implies
                #[trigger] self.indexes().index(other) == old(self).indexes().index(other) by {
                assert(self.message_server.index(other) == old(self).message_server.index(other));
            }
        }
        closed
    }

    /// How the indexes look once what an update of a hub has deleted is
    /// closed: without the index of a channel that was deleted, without
    /// those of a hub that was deleted, and as they were after any other
    /// update.
    pub open spec fn deleted_closed(&self, before: &Self, hub_id: ID, kind: HubUpdateKind) -> bool {
        match kind {
            HubUpdateKind::ChannelDeleted(channel_id) => self.indexes().keys() == without_item(
                before.indexes().keys(),
                ChannelKey { hub_id, channel_id },
            ),
            HubUpdateKind::Deleted => self.indexes().keys() == keys_outside(
                before.indexes().keys(),
                hub_id,
            ),
            _ => self.indexes().keys() == before.indexes().keys(),
        }
    }

    /// Closes the indexes of what an update of a hub has deleted: that of
    /// a channel, or those of all channels of the hub. The indexes that
    /// stay open are not touched, and the subscriptions stay as they are.
    pub fn close_deleted(&mut self, hub_id: &ID, kind: &HubUpdateKind)
        requires
            old(self).wf(),
        ensures
            final(self).wf(),
            final(self).same_subscriptions(old(self)),
            final(self).indexes().threshold() == old(self).indexes().threshold(),
            final(self).deleted_closed(old(self), *hub_id, *kind),
            forall|other: ChannelKey|
                final(self).indexes().is_open(other) ==> old(self).indexes().is_open(other)
                    && #[trigger] final(self).indexes().index(other) == old(self).indexes().index(other),
    {
        match kind {
            HubUpdateKind::ChannelDeleted(channel_id) => {
                self.close_index(hub_id, channel_id);
            },
            HubUpdateKind::Deleted => {
                self.close_hub(hub_id);
                proof {
                    let keep = |key: ChannelKey| key.hub_id != *hub_id;
                    let kept = old(self).indexes().keys().filter(keep);
                    old(self).indexes().keys().filter_lemma(keep);
                    assert forall|other: ChannelKey| self.indexes().is_open(other) implies old(self).indexes().is_open(other) && other.hub_id != *hub_id by {
                        let at = kept.index_of(other);
                        assert(kept[at] == other && keep(kept[at]));
                        old(self).indexes().keys().lemma_filter_contains_rev(keep, other);
                    }
                }
            },
            _ => {},
        }
    }

    /// Hands a message that was stored to the index of its channel, as
    /// [`MessageServer::add`] does. The subscriptions stay as they are.
    pub fn index_message(&mut self, hub_id: &ID, channel_id: &ID, message: &Message) -> (done:
        Result<(), Error>)
        requires
            old(self).wf(),
        ensures
            final(self).wf(),
            final(self).same_subscriptions(old(self)),
            final(self).indexes().same_but(
                &old(self).indexes(),
                ChannelKey { hub_id: *hub_id, channel_id: *channel_id },
            ),
            ({
                let key = ChannelKey { hub_id: *hub_id, channel_id: *channel_id };
                if old(self).indexes().is_open(key) {
                    final(self).indexes().index(key).add_outcome(
                        &old(self).indexes().index(key),
                        message,
                        done,
                    )
                } else {
                    done == Err::<(), Error>(Error::Index(crate::error::IndexError::GetWriter))
                }
            }),
    {
        self.message_server.add(hub_id, channel_id, message)
    }

    /// Searches the messages of a channel for a user. The user must be a
    /// member who may read the channel, and the hub must have the channel;
    /// where not, nothing changes. The search itself goes as
    /// [`MessageServer::search`] does. The subscriptions stay as they are.
    pub fn search(&mut self, user_id: &ID, hub: &Result<Hub, Error>, request: &SearchMessageIndex) -> (found:
        Result<Vec<ID>, Error>)
        requires
            old(self).wf(),
        ensures
            final(self).wf(),
            final(self).same_subscriptions(old(self)),
            final(self).indexes().same_but(
                &old(self).indexes(),
                ChannelKey { hub_id: request.hub_id, channel_id: request.channel_id },
            ),
            ({
                let key = ChannelKey { hub_id: request.hub_id, channel_id: request.channel_id };
                match hub {
                    Err(e) => found == Err::<Vec<ID>, Error>(*e) && final(self).indexes() == old(self).indexes(),
                    Ok(hub) => match hub.read_access(*user_id, request.channel_id) {
                        Err(e) => found == Err::<Vec<ID>, Error>(e) && final(self).indexes()
                            == old(self).indexes(),
                        Ok(_) => if old(self).indexes().is_open(key) {
                            final(self).indexes().index(key).search_outcome(
                                &old(self).indexes().index(key),
                                request.query@,
                                request.limit,
                                found,
                            )
                        } else {
                            found == Err::<Vec<ID>, Error>(
                                Error::Index(crate::error::IndexError::GetReader),
                            )
                        },
                    },
                }
            }),
    {
        match hub {
            Err(e) => Err(*e),
            Ok(hub) => match hub.get_channel(user_id, &request.channel_id) {
                Err(e) => Err(e),
                Ok(_) => self.message_server.search(request),
            },
        }
    }

    /// Commits what is pending in every open index, as
    /// [`MessageServer::stopping`] does: of each index, what was pending is
    /// committed, or its commit failed and its pending count and recovery
    /// log are what they were. The subscriptions stay as they are.
    pub fn stopping(&mut self) -> (logs: Vec<(ChannelKey, Option<ID>)>)
        requires
            old(self).wf(),
        ensures
            final(self).wf(),
            final(self).same_subscriptions(old(self)),
            final(self).indexes().threshold() == old(self).indexes().threshold(),
            final(self).indexes().keys() == old(self).indexes().keys(),
            logs@.len() == final(self).indexes().keys().len(),
            forall|i: int|
                0 <= i < logs@.len() ==> {
                    let key = final(self).indexes().keys()[i];
                    &&& (#[trigger] logs@[i]).0 == key
                    &&& logs@[i].1 == final(self).indexes().index(key).state().recovery_log
                    &&& final(self).indexes().index(key).stopped(&old(self).indexes().index(key))
                },
    {
        self.message_server.stopping()
    }

    proof fn lemma_no_duplicates(&self)
        requires
            self.wf(),
        ensures
            forall|key: ChannelKey| #[trigger] self.subscribed_channels.list(key).no_duplicates(),
            forall|hub_id: ID| #[trigger] self.subscribed_hubs.list(hub_id).no_duplicates(),
            forall|session: SessionId| #[trigger]
                self.session_channels.list(session).no_duplicates(),
            forall|session: SessionId| #[trigger] self.session_hubs.list(session).no_duplicates(),
    {
        assert forall|key: ChannelKey| #[trigger]
            self.subscribed_channels.list(key).no_duplicates() by {
            self.subscribed_channels.lemma_lists(key);
        }
        assert forall|hub_id: ID| #[trigger] self.subscribed_hubs.list(hub_id).no_duplicates() by {
            self.subscribed_hubs.lemma_lists(hub_id);
        }
        assert forall|session: SessionId| #[trigger]
            self.session_channels.list(session).no_duplicates() by {
            self.session_channels.lemma_lists(session);
        }
        assert forall|session: SessionId| #[trigger]
            self.session_hubs.list(session).no_duplicates() by {
            self.session_hubs.lemma_lists(session);
        }
    }

    /// Permission monotonicity: where a member may not read a channel, the
    /// command to subscribe to it fails for want of that permission, and
    /// the registry stays as it was.
    pub proof fn lemma_subscribe_needs_read(
        &self,
        before: &Self,
        command: &ClientCommand,
        hub: &Hub,
        outcome: &Outcome,
    )
        requires
            command matches ClientCommand::SubscribeChannel(user_id, _, channel_id, _)
                && hub.is_member(*user_id) && !hub.members@[*user_id].may_in_channel(
                *channel_id,
                ChannelPermission::Read,
                hub,
            ),
            self.handled(before, command, &Ok(*hub), outcome),
        ensures
            self.unchanged(before),
            *outcome == Outcome::Reply(
                Response::Error(Error::MissingChannelPermission(ChannelPermission::Read)),
            ),
    {
    }

    /// Mute overrides write: the command of a muted member to send a
    /// message is refused because of the mute, whatever the member has
    /// been granted, and the registry stays as it was.
    pub proof fn lemma_muted_cannot_send(
        &self,
        before: &Self,
        command: &ClientCommand,
        hub: &Hub,
        outcome: &Outcome,
    )
        requires
            command matches ClientCommand::SendMessage(user_id, _, _, _) && hub.is_member(*user_id)
                && hub.is_muted(*user_id) && !hub.is_banned(*user_id),
            self.handled(before, command, &Ok(*hub), outcome),
        ensures
            self.unchanged(before),
            *outcome == Outcome::Reply(Response::Error(Error::Muted)),
    {
    }

    /// Subscription symmetry: in a consistent registry a channel stands
    /// under a session exactly if the session stands under the channel, and
    /// a hub stands under a session exactly if the session stands under the
    /// hub.
    pub proof fn lemma_symmetry(&self, session: SessionId, key: ChannelKey, hub_id: ID)
        requires
            self.wf(),
        ensures
            self.channels_of(session).contains(key) <==> self.channel_subscribers(key).contains(
                session,
            ),
            self.hubs_of(session).contains(hub_id) <==> self.hub_subscribers(hub_id).contains(
                session,
            ),
    {
        assert(self.subscribed_channels.list(key).contains(session)
            <==> self.session_channels.list(session).contains(key));
        assert(self.subscribed_hubs.list(hub_id).contains(session) <==> self.session_hubs.list(
            session,
        ).contains(hub_id));
    }

    /// In a consistent registry no session stands twice under a channel or
    /// a hub, and no channel or hub twice under a session.
    pub proof fn lemma_no_repetition(&self, session: SessionId, key: ChannelKey, hub_id: ID)
        requires
            self.wf(),
        ensures
            self.channel_subscribers(key).no_duplicates(),
            self.hub_subscribers(hub_id).no_duplicates(),
            self.channels_of(session).no_duplicates(),
            self.hubs_of(session).no_duplicates(),
    {
        self.lemma_no_duplicates();
    }
}

} // verus!
