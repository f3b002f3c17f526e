//! The message index of a channel: when it commits, what its recovery log
//! must hold, how it catches up after a start, and how it is searched.

use crate::channel::{first_with_id, messages_after, rest_after, ChannelKey, Message};
use crate::hub::Hub;
use crate::edges::Key;
use crate::error::{DataError, Error, IndexError};
use crate::index::{
    acquire_searcher, apply_ops, commit_writer, committed, create_handle, decode_id, decoded_id,
    encode_id, encoded_id, failed, id_encoding, message_schema, open_directory, open_or_create_index, reload_reader,
    query_parses, search_top, searcher_docs, staged, stage_add, stage_delete, stored_id, visible,
    without_id, fetched_id, found_by, matched, serves, top_hits, IndexHandle, IndexOp, IndexedDoc,
    MAX_SEARCH_LIMIT, WRITER_MEMORY,
};
use crate::ID;
use vstd::bytes::{
    lemma_auto_spec_u128_to_from_le_bytes, spec_u128_from_le_bytes, spec_u128_to_le_bytes,
    u128_from_le_bytes, u128_to_le_bytes,
};
use vstd::multiset::Multiset;
use vstd::prelude::*;
use vstd::string::*;

verus! {

/// The bookkeeping of one index.
#[derive(Clone, Copy, PartialEq, Eq, Structural, Debug)]
pub struct IndexState {
    /// Number of messages added since the last commit was counted.
    pub pending_count: u8,
    /// The message added last.
    pub last_pending_id: Option<ID>,
    /// What the recovery log must hold: none as long as nothing was added.
    pub recovery_log: Option<ID>,
}

impl IndexState {
    /// The bookkeeping of an index that was just opened, with what its
    /// recovery log held.
    pub open spec fn opened(recovery_log: Option<ID>) -> IndexState {
        IndexState { pending_count: 0, last_pending_id: None, recovery_log }
    }

    /// Whether the next message added makes the index commit.
    pub open spec fn spec_commit_due(self, threshold: u8) -> bool {
        self.pending_count >= threshold
    }

    /// The bookkeeping after a message was added, and committed where a
    /// commit was due. A commit sets the log to the message; so does the
    /// first message of an index that has no log.
    pub open spec fn spec_after_add(self, threshold: u8, id: ID) -> IndexState {
        if self.spec_commit_due(threshold) {
            IndexState { pending_count: 0, last_pending_id: Some(id), recovery_log: Some(id) }
        } else {
            IndexState {
                pending_count: (self.pending_count + 1) as u8,
                last_pending_id: Some(id),
                recovery_log: if self.recovery_log is None {
                    Some(id)
                } else {
                    self.recovery_log
                },
            }
        }
    }

    /// The bookkeeping after what was pending was committed: nothing is
    /// pending, and the log holds the message added last.
    pub open spec fn spec_after_flush(self) -> IndexState {
        if self.pending_count > 0 {
            IndexState {
                pending_count: 0,
                last_pending_id: self.last_pending_id,
                recovery_log: self.last_pending_id,
            }
        } else {
            self
        }
    }

    /// The bookkeeping after the messages of `ids` were replayed and
    /// committed: nothing is pending, and the log holds the last of them.
    pub open spec fn spec_after_replay(self, ids: Seq<ID>) -> IndexState {
        if ids.len() > 0 {
            IndexState {
                pending_count: 0,
                last_pending_id: Some(ids.last()),
                recovery_log: Some(ids.last()),
            }
        } else {
            self.spec_after_flush()
        }
    }

    /// The bookkeeping after the messages of `ids` were added one by one,
    /// each commit that fell due having succeeded.
    pub open spec fn after_adds(self, threshold: u8, ids: Seq<ID>) -> IndexState
        decreases ids.len(),
    {
        if ids.len() == 0 {
            self
        } else {
            self.after_adds(threshold, ids.drop_last()).spec_after_add(threshold, ids.last())
        }
    }

    /// Not more is pending than the threshold allows.
    pub open spec fn within(self, threshold: u8) -> bool {
        self.pending_count <= threshold
    }

    #[verifier::when_used_as_spec(spec_commit_due)]
    pub fn commit_due(self, threshold: u8) -> (due: bool)
        ensures
            due == self.spec_commit_due(threshold),
    {
        self.pending_count >= threshold
    }

    #[verifier::when_used_as_spec(spec_after_add)]
    pub fn after_add(self, threshold: u8, id: ID) -> (next: IndexState)
        requires
            self.within(threshold),
        ensures
            next == self.spec_after_add(threshold, id),
            next.within(threshold),
    {
        if self.commit_due(threshold) {
            IndexState { pending_count: 0, last_pending_id: Some(id), recovery_log: Some(id) }
        } else {
            IndexState {
                pending_count: self.pending_count + 1,
                last_pending_id: Some(id),
                recovery_log: match self.recovery_log {
                    None => Some(id),
                    Some(log) => Some(log),
                },
            }
        }
    }

    #[verifier::when_used_as_spec(spec_after_flush)]
    pub fn after_flush(self) -> (next: IndexState)
        ensures
            next == self.spec_after_flush(),
            next.pending_count == 0,
    {
        if self.pending_count > 0 {
            IndexState {
                pending_count: 0,
                last_pending_id: self.last_pending_id,
                recovery_log: self.last_pending_id,
            }
        } else {
            self
        }
    }

    /// As long as no commit falls due, each message added counts as one
    /// more pending, and the log keeps what it held, or holds the first
    /// message where it held nothing.
    pub proof fn lemma_adds_below_threshold(self, threshold: u8, ids: Seq<ID>)
        requires
            self.pending_count + ids.len() <= threshold,
        ensures
            self.after_adds(threshold, ids).pending_count == self.pending_count + ids.len(),
            ids.len() > 0 ==> self.after_adds(threshold, ids).last_pending_id == Some(ids.last()),
            ids.len() > 0 ==> self.after_adds(threshold, ids).recovery_log == if self.recovery_log
                is None {
                Some(ids[0])
            } else {
                self.recovery_log
            },
        decreases ids.len(),
    {
        if ids.len() > 0 {
            self.lemma_adds_below_threshold(threshold, ids.drop_last());
            if ids.len() > 1 {
                assert(ids.drop_last()[0] == ids[0]);
            }
        }
    }

    /// Commit-threshold triggering: when nothing is pending and one message
    /// more than the threshold is added, the last of them makes the index
    /// commit. After it nothing is pending, and the recovery log holds
    /// that last message.
    pub proof fn lemma_commit_threshold(self, threshold: u8, ids: Seq<ID>)
        requires
            self.pending_count == 0,
            ids.len() == threshold + 1,
        ensures
            self.after_adds(threshold, ids).pending_count == 0,
            self.after_adds(threshold, ids).recovery_log == Some(ids.last()),
            self.after_adds(threshold, ids).last_pending_id == Some(ids.last()),
            self.after_adds(threshold, ids.drop_last()).spec_commit_due(threshold),
            forall|n: int|
                0 <= n <= threshold ==> self.after_adds(
                    threshold,
                    #[trigger] ids.subrange(0, n),
                ).pending_count == n,
    {
        self.lemma_adds_below_threshold(threshold, ids.drop_last());
        assert forall|n: int| 0 <= n <= threshold implies self.after_adds(
            threshold,
            #[trigger] ids.subrange(0, n),
        ).pending_count == n by {
            self.lemma_adds_below_threshold(threshold, ids.subrange(0, n));
        }
    }
}

/// Number of messages that may be pending in an index before a commit
/// falls due, where the configuration names none.
pub const DEFAULT_COMMIT_THRESHOLD: u8 = 10;

/// Number of bytes of a recovery log.
pub const RECOVERY_LOG_SIZE: usize = 16;

/// What a recovery log holds: the identifier of a message as sixteen
/// bytes, the least significant first.
pub open spec fn spec_recovery_log_bytes(id: ID) -> Seq<u8> {
    spec_u128_to_le_bytes(id)
}

/// The identifier that a recovery log holds; none where its content is not
/// sixteen bytes long.
pub open spec fn spec_parse_recovery_log(bytes: Seq<u8>) -> Option<ID> {
    if bytes.len() == RECOVERY_LOG_SIZE {
        Some(spec_u128_from_le_bytes(bytes))
    } else {
        None
    }
}

/// The content of the recovery log that names the message `id`.
pub fn recovery_log_bytes(id: ID) -> (bytes: Vec<u8>)
    ensures
        bytes@ == spec_recovery_log_bytes(id),
        bytes@.len() == RECOVERY_LOG_SIZE,
{
    u128_to_le_bytes(id)
}

/// Reads the content of a recovery log.
pub fn parse_recovery_log(bytes: &[u8]) -> (id: Option<ID>)
    ensures
        id == spec_parse_recovery_log(bytes@),
{
    if bytes.len() == RECOVERY_LOG_SIZE {
        Some(u128_from_le_bytes(bytes))
    } else {
        None
    }
}

/// What is written to a recovery log is read back from it.
pub proof fn lemma_recovery_log_round_trip(id: ID)
    ensures
        spec_recovery_log_bytes(id).len() == RECOVERY_LOG_SIZE,
        spec_parse_recovery_log(spec_recovery_log_bytes(id)) == Some(id),
{
    lemma_auto_spec_u128_to_from_le_bytes();
}

/// What is to be written to the recovery log of a channel once work on
/// its index is over: what the log must hold now, unless it held that
/// before the work, or must hold nothing.
pub open spec fn spec_log_to_write(before: Option<ID>, after: Option<ID>) -> Option<ID> {
    if after == before {
        None
    } else {
        after
    }
}

/// What is to be written to the recovery log of a channel once work on its
/// index is over. `before` is what the log had to hold before the work,
/// `after` what it must hold now.
#[verifier::when_used_as_spec(spec_log_to_write)]
pub fn log_to_write(before: Option<ID>, after: Option<ID>) -> (write: Option<ID>)
    ensures
        write == spec_log_to_write(before, after),
{
    match after {
        None => None,
        Some(now) => match before {
            None => Some(now),
            Some(then) => if then == now {
                None
            } else {
                Some(now)
            },
        },
    }
}

/// What setting up the index of a channel replays. `log` is what the
/// recovery log of the channel holds, `hub` what loading the hub gave, and
/// `stored` what reading the messages of the channel gave. Without a log
/// nothing is replayed. With one the hub must have been loaded; a channel
/// that the hub does not have misses nothing; for another the messages
/// must have been read, and those after the one that the log names are
/// replayed.
pub open spec fn replay_planned(
    log: Option<ID>,
    hub: Result<Hub, Error>,
    channel_id: ID,
    stored: Result<Vec<Message>, Error>,
    missed: Result<Vec<Message>, Error>,
) -> bool {
    match log {
        None => missed matches Ok(none) && none@.len() == 0,
        Some(last) => match hub {
            Err(e) => missed == Err::<Vec<Message>, Error>(e),
            Ok(hub) => if !hub.channels@.contains_key(channel_id) {
                missed matches Ok(none) && none@.len() == 0
            } else {
                match stored {
                    Err(e) => missed == Err::<Vec<Message>, Error>(e),
                    Ok(all) => missed matches Ok(rest) && rest_after(all@, last, rest@),
                }
            },
        },
    }
}

/// Says what setting up the index of a channel replays, as
/// [`replay_planned`] has it.
pub fn missed_messages(
    log: Option<ID>,
    hub: &Result<Hub, Error>,
    channel_id: &ID,
    stored: Result<Vec<Message>, Error>,
) -> (missed: Result<Vec<Message>, Error>)
    ensures
        replay_planned(log, *hub, *channel_id, stored, missed),
{
    broadcast use vstd::std_specs::hash::group_hash_axioms;

    let last = match log {
        None => {
            return Ok(Vec::new());
        },
        Some(last) => last,
    };
    let hub = match hub {
        Err(e) => {
            return Err(*e);
        },
        Ok(hub) => hub,
    };
    if !hub.channels.contains_key(channel_id) {
        return Ok(Vec::new());
    }
    match stored {
        Err(e) => Err(e),
        Ok(all) => Ok(messages_after(&all, last)),
    }
}

/// Whether the identifiers of a message and of its sender can be encoded:
/// the encoder gives the bytes that stand for each, and the identifier can
/// be read back from them.
pub open spec fn encodable(message: &Message) -> bool {
    &&& encoded_id(message.id) == Some(id_encoding(message.id))
    &&& decoded_id(id_encoding(message.id)) == Some(message.id)
    &&& encoded_id(message.sender) == Some(id_encoding(message.sender))
}

/// Two identifiers are encoded to the same bytes only where they are the
/// same.
pub proof fn lemma_id_encoding_distinct(a: ID, b: ID)
    requires
        a != b,
    ensures
        id_encoding(a) != id_encoding(b),
{
    lemma_auto_spec_u128_to_from_le_bytes();
    let of_a = spec_u128_to_le_bytes(a);
    let of_b = spec_u128_to_le_bytes(b);
    if id_encoding(a) == id_encoding(b) {
        assert(of_a.len() == 16 && of_b.len() == 16);
        assert forall|i: int| 0 <= i < 16 implies of_a[i] == of_b[i] by {
            assert(id_encoding(a)[8 + (15 - i)] == of_a.reverse()[15 - i]);
            assert(id_encoding(b)[8 + (15 - i)] == of_b.reverse()[15 - i]);
        }
        assert(of_a == of_b);
        assert(spec_u128_from_le_bytes(of_a) == a);
        assert(spec_u128_from_le_bytes(of_b) == b);
    }
}

/// The document that the index holds for a message.
pub open spec fn message_doc(message: &Message) -> IndexedDoc {
    IndexedDoc {
        id: encoded_id(message.id)->0,
        sender: encoded_id(message.sender)->0,
        created: message.created as i64,
        content: message.content@,
    }
}

/// The changes that replaying messages makes: for each message in turn,
/// whatever the index holds under its identifier goes, and its document is
/// added.
pub open spec fn replay_ops(messages: Seq<Message>) -> Seq<IndexOp>
    decreases messages.len(),
{
    if messages.len() == 0 {
        Seq::empty()
    } else {
        replay_ops(messages.drop_last()).push(
            IndexOp::Delete(encoded_id(messages.last().id)->0),
        ).push(IndexOp::Add(message_doc(&messages.last())))
    }
}

/// The identifiers of messages.
pub open spec fn message_ids(messages: Seq<Message>) -> Seq<ID> {
    messages.map_values(|message: Message| message.id)
}

/// Hands a message to the writer of an index, to be added at its next
/// commit. Fails, and changes nothing, where an identifier cannot be
/// encoded or the writer refuses the document. No commit of the writer may
/// have failed.
pub fn add_message_to_writer(writer: &mut IndexHandle, message: &Message) -> (added: Result<
    (),
    Error,
>)
    requires
        !failed(*old(writer)),
    ensures
        committed(*final(writer)) == committed(*old(writer)),
        visible(*final(writer)) == visible(*old(writer)),
        !failed(*final(writer)),
        match added {
            Ok(_) => encodable(message),
            Err(e) => e == if encodable(message) {
                Error::Index(IndexError::GetWriter)
            } else {
                Error::Data(DataError::Serialize)
            },
        },
        staged(*final(writer)) == if added is Ok {
            staged(*old(writer)).push(IndexOp::Add(message_doc(message)))
        } else {
            staged(*old(writer))
        },
{
    let id = match encode_id(message.id) {
        Ok(bytes) => bytes,
        Err(_) => {
            return Err(Error::Data(DataError::Serialize));
        },
    };
    let sender = match encode_id(message.sender) {
        Ok(bytes) => bytes,
        Err(_) => {
            return Err(Error::Data(DataError::Serialize));
        },
    };
    let created: i64 = #[verifier::truncate]
    (message.created as i64);
    match stage_add(writer, &id, &sender, created, message.content.as_str()) {
        Ok(_) => Ok(()),
        Err(_) => Err(Error::Index(IndexError::GetWriter)),
    }
}

/// What the writer holds after a message was handed to it for replaying:
/// the deletion and the addition where that succeeded, the deletion alone
/// where the writer refused the document, and what it held where an
/// identifier cannot be encoded.
pub open spec fn replacement_staged(
    before: Seq<IndexOp>,
    message: &Message,
    added: Result<(), Error>,
) -> Seq<IndexOp> {
    if !encodable(message) {
        before
    } else if added is Ok {
        before.push(IndexOp::Delete(encoded_id(message.id)->0)).push(
            IndexOp::Add(message_doc(message)),
        )
    } else {
        before.push(IndexOp::Delete(encoded_id(message.id)->0))
    }
}

/// Hands a message to the writer of an index so that, at the next commit,
/// whatever the index holds under the identifier of the message goes and
/// the message is added. No commit of the writer may have failed.
pub fn stage_replacement(writer: &mut IndexHandle, message: &Message) -> (added: Result<(), Error>)
    requires
        !failed(*old(writer)),
    ensures
        committed(*final(writer)) == committed(*old(writer)),
        visible(*final(writer)) == visible(*old(writer)),
        !failed(*final(writer)),
        match added {
            Ok(_) => encodable(message),
            Err(e) => e == if encodable(message) {
                Error::Index(IndexError::GetWriter)
            } else {
                Error::Data(DataError::Serialize)
            },
        },
        staged(*final(writer)) == replacement_staged(
            staged(*old(writer)),
            message,
            added,
        ),
{
    let id = match encode_id(message.id) {
        Ok(bytes) => bytes,
        Err(_) => {
            return Err(Error::Data(DataError::Serialize));
        },
    };
    let sender = match encode_id(message.sender) {
        Ok(bytes) => bytes,
        Err(_) => {
            return Err(Error::Data(DataError::Serialize));
        },
    };
    let created: i64 = #[verifier::truncate]
    (message.created as i64);
    stage_delete(writer, &id);
    match stage_add(writer, &id, &sender, created, message.content.as_str()) {
        Ok(_) => Ok(()),
        Err(_) => Err(Error::Index(IndexError::GetWriter)),
    }
}

/// The identifiers read from what was stored with the documents found, in
/// their order. A document without a stored identifier, or with one that
/// cannot be read, gives none.
pub open spec fn decoded_ids(stored: Seq<Option<Seq<u8>>>) -> Seq<ID>
    decreases stored.len(),
{
    if stored.len() == 0 {
        Seq::empty()
    } else {
        let rest = decoded_ids(stored.drop_last());
        match stored.last() {
            Some(bytes) => match decoded_id(bytes) {
                Some(id) => rest.push(id),
                None => rest,
            },
            None => rest,
        }
    }
}

/// The views of what was stored with the documents found.
pub open spec fn stored_views(stored: Seq<Option<Vec<u8>>>) -> Seq<Option<Seq<u8>>> {
    stored.map_values(
        |bytes: Option<Vec<u8>>|
            match bytes {
                Some(bytes) => Some(bytes@),
                None => None,
            },
    )
}

/// Reads the identifiers of the documents found from what was stored with
/// them.
pub fn decode_ids(stored: &Vec<Option<Vec<u8>>>) -> (ids: Vec<ID>)
    ensures
        ids@ == decoded_ids(stored_views(stored@)),
{
    let mut ids: Vec<ID> = Vec::new();
    let mut i: usize = 0;
    while i < stored.len()
        invariant
            0 <= i <= stored.len(),
            ids@ == decoded_ids(stored_views(stored@.subrange(0, i as int))),
        decreases stored.len() - i,
    {
        proof {
            let next = stored_views(stored@.subrange(0, i + 1));
            assert(next.drop_last() == stored_views(stored@.subrange(0, i as int)));
        }
        match &stored[i] {
            Some(bytes) => match decode_id(bytes.as_slice()) {
                Ok(id) => ids.push(id),
                Err(_) => {},
            },
            None => {},
        }
        i = i + 1;
    }
    assert(stored@.subrange(0, i as int) == stored@);
    ids
}

/// The number of documents whose identifiers are read where `found` were
/// found and `limit` are wanted: the smaller of the two.
pub open spec fn cut(limit: usize, found: nat) -> int {
    if limit < found {
        limit as int
    } else {
        found as int
    }
}

/// What is stored with the documents at the addresses, in their order.
pub open spec fn fetched(searcher: tantivy::Searcher, addresses: Seq<(u32, u32)>) -> Seq<
    Option<Seq<u8>>,
> {
    addresses.map_values(|address: (u32, u32)| fetched_id(searcher, address))
}

/// Whether what is stored with each of the documents at the addresses is
/// the encoded identifier of the document.
pub open spec fn ids_stored(searcher: tantivy::Searcher, addresses: Seq<(u32, u32)>) -> bool {
    forall|i: int|
        0 <= i < addresses.len() ==> (fetched_id(searcher, #[trigger] addresses[i]) matches Some(
            bytes,
        ) ==> bytes == searcher_docs(searcher)[addresses[i]].id)
}

/// The identifiers that a search hands out where it found the documents
/// at `addresses` and `limit` are wanted: those read from what is stored
/// with the first `limit` of the documents, in their order.
pub open spec fn collected_ids(
    searcher: tantivy::Searcher,
    addresses: Seq<(u32, u32)>,
    limit: usize,
) -> Seq<ID> {
    decoded_ids(fetched(searcher, addresses.subrange(0, cut(limit, addresses.len()))))
}

/// The number of results asked of the index for a limit: at least one, and
/// not more than the index can be asked for.
pub open spec fn spec_effective_limit(limit: usize) -> usize {
    if limit == 0 {
        1
    } else if limit > MAX_SEARCH_LIMIT {
        MAX_SEARCH_LIMIT
    } else {
        limit
    }
}

#[verifier::when_used_as_spec(spec_effective_limit)]
pub fn effective_limit(limit: usize) -> (asked: usize)
    ensures
        asked == spec_effective_limit(limit),
        0 < asked <= MAX_SEARCH_LIMIT,
{
    if limit == 0 {
        1
    } else if limit > MAX_SEARCH_LIMIT {
        MAX_SEARCH_LIMIT
    } else {
        limit
    }
}

/// The index of the messages of one channel, with its bookkeeping.
pub struct MessageIndex {
    handle: IndexHandle,
    state: IndexState,
    commit_threshold: u8,
    broken: bool,
}

impl MessageIndex {
    /// The bookkeeping of the index.
    pub closed spec fn state(&self) -> IndexState {
        self.state
    }

    /// Number of messages that may be pending before a commit falls due.
    pub closed spec fn threshold(&self) -> u8 {
        self.commit_threshold
    }

    /// The documents of the last commit.
    pub closed spec fn durable(&self) -> Multiset<IndexedDoc> {
        committed(self.handle)
    }

    /// The changes that wait for the next commit.
    pub closed spec fn waiting(&self) -> Seq<IndexOp> {
        staged(self.handle)
    }

    /// The documents that searches see.
    pub closed spec fn searchable(&self) -> Multiset<IndexedDoc> {
        visible(self.handle)
    }

    /// Whether a commit of the index has failed. Such an index does no
    /// more work: what its writer holds cannot be told any more, so that
    /// the index has to be opened again and the messages after its
    /// recovery log replayed.
    pub closed spec fn broken(&self) -> bool {
        self.broken
    }

    /// Not more is pending than the threshold allows, and the writer of an
    /// index that is not broken has not failed.
    pub closed spec fn wf(&self) -> bool {
        &&& self.state.within(self.commit_threshold)
        &&& !self.broken ==> !failed(self.handle)
    }

    /// Whether nothing of the index has changed.
    pub open spec fn untouched(&self, before: &Self) -> bool {
        &&& self.threshold() == before.threshold()
        &&& self.state() == before.state()
        &&& self.durable() == before.durable()
        &&& self.waiting() == before.waiting()
        &&& self.searchable() == before.searchable()
        &&& self.broken() == before.broken()
    }

    /// How the index looks after `message` was added: its document waits
    /// for the next commit, or is committed with all that waited where a
    /// commit was due; the bookkeeping has moved on; searches see what they
    /// saw.
    pub open spec fn added(&self, before: &Self, message: &Message) -> bool {
        &&& self.threshold() == before.threshold()
        &&& self.state() == before.state().spec_after_add(before.threshold(), message.id)
        &&& self.searchable() == before.searchable()
        &&& self.broken() == before.broken()
        &&& if before.state().spec_commit_due(before.threshold()) {
            &&& self.durable() == apply_ops(
                before.durable(),
                before.waiting().push(IndexOp::Add(message_doc(message))),
            )
            &&& self.waiting() == Seq::<IndexOp>::empty()
        } else {
            &&& self.durable() == before.durable()
            &&& self.waiting() == before.waiting().push(IndexOp::Add(message_doc(message)))
        }
    }

    /// How the index looks after what was pending was committed: where
    /// anything was pending, all that waited is committed and nothing
    /// waits; the bookkeeping has moved on.
    pub open spec fn committed_from(&self, before: &Self) -> bool {
        &&& self.threshold() == before.threshold()
        &&& self.state() == before.state().spec_after_flush()
        &&& self.broken() == before.broken()
        &&& if before.state().pending_count > 0 {
            &&& self.durable() == apply_ops(before.durable(), before.waiting())
            &&& self.waiting() == Seq::<IndexOp>::empty()
        } else {
            &&& self.durable() == before.durable()
            &&& self.waiting() == before.waiting()
        }
    }

    /// How the index looks after what was pending was committed and the
    /// reader loaded anew: all that waited is committed, and searches see
    /// the last commit.
    pub open spec fn flushed(&self, before: &Self) -> bool {
        &&& self.committed_from(before)
        &&& self.searchable() == self.durable()
    }

    /// How the index looks after the messages were replayed and committed:
    /// their changes are committed after all that waited, nothing waits,
    /// and the log holds the last of the messages.
    pub open spec fn replay_committed(&self, before: &Self, messages: Seq<Message>) -> bool {
        &&& self.threshold() == before.threshold()
        &&& self.state() == before.state().spec_after_replay(message_ids(messages))
        &&& self.durable() == apply_ops(before.durable(), before.waiting() + replay_ops(messages))
        &&& self.waiting() == Seq::<IndexOp>::empty()
        &&& self.broken() == before.broken()
    }

    /// How the index looks after the messages were replayed and the reader
    /// loaded anew: their changes are committed, and searches see the
    /// commit.
    pub open spec fn replayed(&self, before: &Self, messages: Seq<Message>) -> bool {
        &&& self.replay_committed(before, messages)
        &&& self.searchable() == self.durable()
    }

    /// How the index looks after an operation that failed: the bookkeeping,
    /// the last commit, the threshold and what searches see are what they
    /// were.
    pub open spec fn kept(&self, before: &Self) -> bool {
        &&& self.threshold() == before.threshold()
        &&& self.state() == before.state()
        &&& self.durable() == before.durable()
        &&& self.searchable() == before.searchable()
    }

    /// How the index looks after a commit failed: the index is broken; the
    /// bookkeeping, with the pending count and the recovery log, the last
    /// commit and what searches see are what they were.
    pub open spec fn commit_failed(&self, before: &Self) -> bool {
        &&& self.kept(before)
        &&& self.broken()
    }

    /// How the index looks after an operation that failed before anything
    /// was committed, and not for a commit: as after one that failed, and
    /// the index is not broken.
    pub open spec fn refused(&self, before: &Self) -> bool {
        &&& self.kept(before)
        &&& !self.broken()
    }

    /// What adding a message gives, and how the index looks after it. A
    /// broken index fails as for a commit and stays as it is. Otherwise: a
    /// message whose identifiers cannot be encoded is refused, and so is
    /// one that the writer refuses, and nothing waits that did not wait;
    /// where the commit that fell due fails, the index is broken, and the
    /// pending count and the recovery log are what they were.
    pub open spec fn add_outcome(&self, before: &Self, message: &Message, done: Result<(), Error>) -> bool {
        if before.broken() {
            done == Err::<(), Error>(Error::Index(IndexError::Commit)) && self.untouched(before)
        } else {
            match done {
                Ok(_) => encodable(message) && self.added(before, message),
                Err(e) => if !encodable(message) {
                    &&& e == Error::Data(DataError::Serialize)
                    &&& self.refused(before)
                    &&& self.waiting() == before.waiting()
                } else if e == Error::Index(IndexError::GetWriter) {
                    &&& self.refused(before)
                    &&& self.waiting() == before.waiting()
                } else {
                    &&& e == Error::Index(IndexError::Commit)
                    &&& before.state().spec_commit_due(before.threshold())
                    &&& self.commit_failed(before)
                },
            }
        }
    }

    /// What committing the pending messages gives, and how the index looks
    /// after it. A broken index fails as for a commit and stays as it is.
    /// Otherwise: where the commit fails, the index is broken, and the
    /// pending count and the recovery log are what they were; where the
    /// reader cannot be loaded anew, all that waited is committed all the
    /// same, and searches see what they saw.
    pub open spec fn flush_outcome(&self, before: &Self, done: Result<(), Error>) -> bool {
        if before.broken() {
            done == Err::<(), Error>(Error::Index(IndexError::Commit)) && self.untouched(before)
        } else {
            match done {
                Ok(_) => self.flushed(before),
                Err(e) => if e == Error::Index(IndexError::Commit) {
                    before.state().pending_count > 0 && self.commit_failed(before)
                } else {
                    &&& e == Error::Index(IndexError::Reload)
                    &&& self.committed_from(before)
                    &&& self.searchable() == before.searchable()
                },
            }
        }
    }

    /// What replaying messages gives, and how the index looks after it. A
    /// broken index fails as for a commit and stays as it is. Otherwise:
    /// a message whose identifiers cannot be encoded, or that the writer
    /// refuses, ends the replay before anything is committed; where the
    /// commit fails, the index is broken, and the pending count and the
    /// recovery log are what they were; where the reader cannot be loaded
    /// anew, the messages are committed all the same, and searches see
    /// what they saw.
    pub open spec fn replay_outcome(
        &self,
        before: &Self,
        messages: Seq<Message>,
        done: Result<(), Error>,
    ) -> bool {
        if before.broken() {
            done == Err::<(), Error>(Error::Index(IndexError::Commit)) && self.untouched(before)
        } else {
            match done {
                Ok(_) => {
                    &&& self.replayed(before, messages)
                    &&& forall|i: int| 0 <= i < messages.len() ==> encodable(#[trigger] &messages[i])
                },
                Err(e) => if e == Error::Index(IndexError::Reload) {
                    &&& self.replay_committed(before, messages)
                    &&& self.searchable() == before.searchable()
                    &&& forall|i: int| 0 <= i < messages.len() ==> encodable(#[trigger] &messages[i])
                } else if e == Error::Index(IndexError::Commit) {
                    &&& self.commit_failed(before)
                    &&& forall|i: int| 0 <= i < messages.len() ==> encodable(#[trigger] &messages[i])
                } else if e == Error::Data(DataError::Serialize) {
                    &&& self.refused(before)
                    &&& exists|i: int| 0 <= i < messages.len() && !encodable(#[trigger] &messages[i])
                } else {
                    &&& e == Error::Index(IndexError::GetWriter)
                    &&& self.refused(before)
                },
            }
        }
    }

    /// Whether a search for `query` gets as far as the index: the query is
    /// not empty, and the parser accepts it.
    pub open spec fn well_formed_query(query: Seq<char>) -> bool {
        query.len() > 0 && query_parses(query)
    }

    /// Whether `ids` answer a search for `query` with `limit`, made in
    /// `searcher`: the searcher serves what searches see; the documents
    /// found are those that its search gives for the query, which are
    /// documents that the query matches, none twice, and all of them where
    /// fewer match than were asked for; and `ids` are read from what is
    /// stored with the first `limit` of them, in their order, which is the
    /// encoded identifier of each.
    pub open spec fn answered(
        &self,
        searcher: tantivy::Searcher,
        query: Seq<char>,
        limit: usize,
        ids: Seq<ID>,
    ) -> bool {
        let asked = spec_effective_limit(limit);
        let hits = top_hits(searcher, query, asked);
        &&& serves(searcher, self.searchable())
        &&& found_by(searcher, query, asked, hits)
        &&& ids_stored(searcher, hits.subrange(0, cut(limit, hits.len())))
        &&& ids == collected_ids(searcher, hits, limit)
    }

    /// What a search of what searches see gives. An empty query, or one
    /// that the parser refuses, fails as a query that cannot be parsed.
    /// Another query can fail in the search or in the fetching of a
    /// document; where it does not, the result answers the query, and
    /// holds at most `limit` identifiers.
    pub open spec fn find_outcome(
        &self,
        query: Seq<char>,
        limit: usize,
        found: Result<Vec<ID>, Error>,
    ) -> bool {
        if !Self::well_formed_query(query) {
            found == Err::<Vec<ID>, Error>(Error::Index(IndexError::ParseQuery))
        } else {
            match found {
                Ok(ids) => {
                    &&& ids@.len() <= limit
                    &&& exists|searcher: tantivy::Searcher| #[trigger]
                        self.answered(searcher, query, limit, ids@)
                },
                Err(e) => e == Error::Index(IndexError::Search) || e == Error::Index(
                    IndexError::GetDoc,
                ),
            }
        }
    }

    /// What a search gives, and how the index looks after it. A broken
    /// index fails as for a commit and stays as it is. Otherwise what was
    /// pending is committed first, as [`MessageIndex::flush_outcome`] says
    /// of success and failure. After that the search goes as
    /// [`MessageIndex::find_outcome`] says.
    pub open spec fn search_outcome(
        &self,
        before: &Self,
        query: Seq<char>,
        limit: usize,
        found: Result<Vec<ID>, Error>,
    ) -> bool {
        if before.broken() {
            found == Err::<Vec<ID>, Error>(Error::Index(IndexError::Commit)) && self.untouched(
                before,
            )
        } else if found == Err::<Vec<ID>, Error>(Error::Index(IndexError::Commit)) {
            before.state().pending_count > 0 && self.commit_failed(before)
        } else if found == Err::<Vec<ID>, Error>(Error::Index(IndexError::Reload)) {
            self.committed_from(before) && self.searchable() == before.searchable()
        } else {
            self.flushed(before) && self.find_outcome(query, limit, found)
        }
    }

    /// How the index looks after the server that held it stopped: as after
    /// committing what was pending, whatever that gave. So an index with
    /// nothing pending, and one that was broken, hold what they held; what
    /// was pending in another is committed, unless the commit failed.
    pub open spec fn stopped(&self, before: &Self) -> bool {
        exists|done: Result<(), Error>| #[trigger] self.flush_outcome(before, done)
    }

    /// How an index looks that was just opened with what its recovery log
    /// held: nothing is pending, nothing waits, searches see the last
    /// commit, and the index is not broken.
    pub open spec fn fresh(&self, commit_threshold: u8, recovery_log: Option<ID>) -> bool {
        &&& self.wf()
        &&& self.threshold() == commit_threshold
        &&& self.state() == IndexState::opened(recovery_log)
        &&& self.waiting() == Seq::<IndexOp>::empty()
        &&& self.searchable() == self.durable()
        &&& !self.broken()
    }

    /// How an index looks that was set up from the index `opened`: where
    /// the recovery log held anything, the messages missed are replayed;
    /// where not, it is the index that was opened.
    pub open spec fn caught_up(
        &self,
        opened: &Self,
        recovery_log: Option<ID>,
        missed: Seq<Message>,
    ) -> bool {
        if recovery_log is Some {
            &&& self.replayed(opened, missed)
            &&& forall|i: int| 0 <= i < missed.len() ==> encodable(#[trigger] &missed[i])
        } else {
            *self == *opened
        }
    }

    /// An index on a handle whose writer has not failed, with what its
    /// recovery log held.
    fn from_handle(handle: IndexHandle, commit_threshold: u8, recovery_log: Option<ID>) -> (index:
        Self)
        requires
            !failed(handle),
        ensures
            index.wf(),
            !index.broken(),
            index.threshold() == commit_threshold,
            index.state() == IndexState::opened(recovery_log),
            index.durable() == committed(handle),
            index.waiting() == staged(handle),
            index.searchable() == visible(handle),
    {
        MessageIndex {
            handle,
            state: IndexState { pending_count: 0, last_pending_id: None, recovery_log },
            commit_threshold,
            broken: false,
        }
    }

    /// Opens the index in the directory at `path`, or creates it there.
    /// The directory must exist. `recovery_log` is what the recovery log of
    /// the channel holds. Nothing is pending in an index just opened, and
    /// searches see its last commit.
    pub fn open(path: &str, commit_threshold: u8, recovery_log: Option<ID>) -> (opened: Result<
        Self,
        Error,
    >)
        ensures
            match opened {
                Ok(index) => index.fresh(commit_threshold, recovery_log),
                Err(e) => open_error(e),
            },
    {
        let directory = match open_directory(path) {
            Ok(directory) => directory,
            Err(_) => {
                return Err(Error::Data(DataError::Directory));
            },
        };
        let index = match open_or_create_index(directory, message_schema()) {
            Ok(index) => index,
            Err(_) => {
                return Err(Error::Index(IndexError::OpenCreateIndex));
            },
        };
        match create_handle(index, WRITER_MEMORY) {
            Err(_) => Err(Error::Index(IndexError::CreateReader)),
            Ok(Err(_)) => Err(Error::Index(IndexError::CreateWriter)),
            Ok(Ok(handle)) => Ok(Self::from_handle(handle, commit_threshold, recovery_log)),
        }
    }

    /// The bookkeeping of the index.
    pub fn get_state(&self) -> (state: IndexState)
        ensures
            state == self.state(),
    {
        self.state
    }

    /// Number of messages added since the last commit was counted.
    pub fn pending_count(&self) -> (count: u8)
        ensures
            count == self.state().pending_count,
    {
        self.state.pending_count
    }

    /// What the recovery log of the channel must hold.
    pub fn recovery_log(&self) -> (log: Option<ID>)
        ensures
            log == self.state().recovery_log,
    {
        self.state.recovery_log
    }

    /// Whether a commit of the index has failed, so that it has to be
    /// opened again.
    pub fn is_broken(&self) -> (broken: bool)
        ensures
            broken == self.broken(),
    {
        self.broken
    }

    /// Adds a message. Where as many messages are pending as the threshold
    /// allows, the index commits, and the recovery log is set to the
    /// message; the first message of an index without a log sets the log
    /// too. A failure leaves the bookkeeping and the last commit as they
    /// were: that an identifier cannot be encoded, that the writer refuses
    /// the document, or that the commit fails, which breaks the index.
    pub fn add(&mut self, message: &Message) -> (done: Result<(), Error>)
        requires
            old(self).wf(),
        ensures
            final(self).wf(),
            final(self).add_outcome(old(self), message, done),
    {
        if self.broken {
            return Err(Error::Index(IndexError::Commit));
        }
        match add_message_to_writer(&mut self.handle, message) {
            Ok(_) => {},
            Err(e) => {
                return Err(e);
            },
        }
        if self.state.commit_due(self.commit_threshold) {
            if commit_writer(&mut self.handle).is_err() {
                self.broken = true;
                return Err(Error::Index(IndexError::Commit));
            }
        }
        self.state = self.state.after_add(self.commit_threshold, message.id);
        Ok(())
    }

    /// Commits what is pending, if anything, sets the recovery log to the
    /// message added last, and loads the reader anew, so that searches see
    /// every message added. A commit that fails breaks the index and
    /// leaves the bookkeeping as it was.
    pub fn flush(&mut self) -> (done: Result<(), Error>)
        requires
            old(self).wf(),
        ensures
            final(self).wf(),
            final(self).flush_outcome(old(self), done),
    {
        if self.broken {
            return Err(Error::Index(IndexError::Commit));
        }
        if self.state.pending_count > 0 {
            if commit_writer(&mut self.handle).is_err() {
                self.broken = true;
                return Err(Error::Index(IndexError::Commit));
            }
            self.state = self.state.after_flush();
        }
        match reload_reader(&mut self.handle) {
            Ok(_) => Ok(()),
            Err(_) => Err(Error::Index(IndexError::Reload)),
        }
    }

    /// Replays messages that the index may have missed: for each, whatever
    /// the index holds under its identifier goes and the message is added;
    /// then the index commits, sets the recovery log to the last of the
    /// messages, and loads the reader anew. A commit that fails breaks the
    /// index and leaves the bookkeeping as it was.
    pub fn replay(&mut self, messages: &Vec<Message>) -> (done: Result<(), Error>)
        requires
            old(self).wf(),
        ensures
            final(self).wf(),
            final(self).replay_outcome(old(self), messages@, done),
    {
        if self.broken {
            return Err(Error::Index(IndexError::Commit));
        }
        let mut i: usize = 0;
        while i < messages.len()
            invariant
                0 <= i <= messages.len(),
                self.state == old(self).state,
                self.commit_threshold == old(self).commit_threshold,
                self.broken == old(self).broken,
                !self.broken,
                old(self).wf(),
                !failed(self.handle),
                committed(self.handle) == committed(old(self).handle),
                visible(self.handle) == visible(old(self).handle),
                staged(self.handle) == staged(old(self).handle) + replay_ops(
                    messages@.subrange(0, i as int),
                ),
                forall|j: int| 0 <= j < i ==> encodable(#[trigger] &messages[j]),
            decreases messages.len() - i,
        {
            proof {
                let next = messages@.subrange(0, i + 1);
                assert(next.drop_last() == messages@.subrange(0, i as int));
                assert(next.last() == messages[i as int]);
            }
            match stage_replacement(&mut self.handle, &messages[i]) {
                Ok(_) => {},
                Err(e) => {
                    return Err(e);
                },
            }
            i = i + 1;
        }
        assert(messages@.subrange(0, i as int) == messages@);
        if commit_writer(&mut self.handle).is_err() {
            self.broken = true;
            return Err(Error::Index(IndexError::Commit));
        }
        if messages.len() > 0 {
            let last = messages[messages.len() - 1].id;
            assert(message_ids(messages@).last() == last);
            self.state = IndexState {
                pending_count: 0,
                last_pending_id: Some(last),
                recovery_log: Some(last),
            };
        } else {
            self.state = self.state.after_flush();
        }
        match reload_reader(&mut self.handle) {
            Ok(_) => Ok(()),
            Err(_) => Err(Error::Index(IndexError::Reload)),
        }
    }

    /// Reads the identifiers of the documents that a search found: those
    /// stored with the first `limit` of the documents at `addresses`, in
    /// their order. A document without a stored identifier, or with one
    /// that cannot be read, gives none. Fails where a document cannot be
    /// fetched.
    pub fn collect_ids(
        &self,
        searcher: &tantivy::Searcher,
        addresses: &Vec<(u32, u32)>,
        limit: usize,
    ) -> (collected: Result<Vec<ID>, Error>)
        requires
            forall|i: int|
                0 <= i < addresses@.len() ==> searcher_docs(*searcher).contains_key(
                    #[trigger] addresses@[i],
                ),
        ensures
            match collected {
                Ok(ids) => {
                    &&& ids@ == collected_ids(*searcher, addresses@, limit)
                    &&& ids@.len() <= cut(limit, addresses@.len())
                    &&& ids_stored(
                        *searcher,
                        addresses@.subrange(0, cut(limit, addresses@.len())),
                    )
                },
                Err(e) => e == Error::Index(IndexError::GetDoc),
            },
    {
        let wanted: usize = if limit < addresses.len() {
            limit
        } else {
            addresses.len()
        };
        let ghost first = addresses@.subrange(0, wanted as int);
        let mut stored: Vec<Option<Vec<u8>>> = Vec::new();
        let mut i: usize = 0;
        while i < wanted
            invariant
                0 <= i <= wanted <= addresses.len(),
                first == addresses@.subrange(0, wanted as int),
                forall|j: int|
                    0 <= j < addresses@.len() ==> searcher_docs(*searcher).contains_key(
                        #[trigger] addresses@[j],
                    ),
                stored@.len() == i,
                stored_views(stored@) == fetched(*searcher, first.subrange(0, i as int)),
                ids_stored(*searcher, first.subrange(0, i as int)),
            decreases wanted - i,
        {
            let bytes = match stored_id(&self.handle, searcher, addresses[i]) {
                Ok(bytes) => bytes,
                Err(_) => {
                    return Err(Error::Index(IndexError::GetDoc));
                },
            };
            proof {
                let next = first.subrange(0, i + 1);
                assert(next[i as int] == addresses@[i as int]);
                let views = stored_views(stored@.push(bytes));
                let before = first.subrange(0, i as int);
                assert(views.len() == i + 1 && fetched(*searcher, next).len() == i + 1);
                assert forall|j: int| 0 <= j < i + 1 implies views[j] == fetched(
                    *searcher,
                    next,
                )[j] by {
                    if j < i {
                        assert(views[j] == stored_views(stored@)[j]);
                        assert(before[j] == next[j]);
                        assert(fetched(*searcher, before)[j] == fetched_id(*searcher, before[j]));
                    }
                }
                assert(views == fetched(*searcher, next));
                assert forall|j: int| 0 <= j < next.len() implies (fetched_id(
                    *searcher,
                    #[trigger] next[j],
                ) matches Some(found) ==> found == searcher_docs(*searcher)[next[j]].id) by {
                    if j < i {
                        assert(first.subrange(0, i as int)[j] == next[j]);
                    }
                }
            }
            stored.push(bytes);
            i = i + 1;
        }
        let ids = decode_ids(&stored);
        proof {
            assert(first.subrange(0, wanted as int) == first);
            lemma_decoded_len(stored_views(stored@));
        }
        Ok(ids)
    }

    /// Searches the text of the messages that searches see, and commits
    /// nothing. An empty query, or one that the parser refuses, is an
    /// error. The result holds the identifiers stored with the documents
    /// found: at most `limit` of them, and not more than the index can be
    /// asked for.
    pub fn find(&self, query: &str, limit: usize) -> (found: Result<Vec<ID>, Error>)
        requires
            self.wf(),
        ensures
            self.find_outcome(query@, limit, found),
    {
        if query.unicode_len() == 0 {
            return Err(Error::Index(IndexError::ParseQuery));
        }
        let searcher = acquire_searcher(&self.handle);
        let addresses = match search_top(&self.handle, &searcher, query, effective_limit(limit)) {
            Err(_) => {
                return Err(Error::Index(IndexError::ParseQuery));
            },
            Ok(Err(_)) => {
                return Err(Error::Index(IndexError::Search));
            },
            Ok(Ok(addresses)) => addresses,
        };
        match self.collect_ids(&searcher, &addresses, limit) {
            Ok(ids) => {
                proof {
                    assert(self.answered(searcher, query@, limit, ids@));
                }
                Ok(ids)
            },
            Err(e) => Err(e),
        }
    }

    /// Searches the text of the messages. What is pending is committed
    /// first, so that the search sees every message added; then the search
    /// goes as [`MessageIndex::find`] does.
    pub fn search(&mut self, query: &str, limit: usize) -> (found: Result<Vec<ID>, Error>)
        requires
            old(self).wf(),
        ensures
            final(self).wf(),
            final(self).search_outcome(old(self), query@, limit, found),
    {
        match self.flush() {
            Ok(_) => {},
            Err(e) => {
                return Err(e);
            },
        }
        self.find(query, limit)
    }
}

/// Whether an error is one of those with which the opening of an index
/// fails: the directory cannot be opened, or the index, its reader or its
/// writer cannot be made.
pub open spec fn open_error(e: Error) -> bool {
    e == Error::Data(DataError::Directory) || e == Error::Index(IndexError::OpenCreateIndex) || e
        == Error::Index(IndexError::CreateReader) || e == Error::Index(IndexError::CreateWriter)
}

/// Whether an error is one of those with which a replay fails.
pub open spec fn replay_error(e: Error) -> bool {
    e == Error::Data(DataError::Serialize) || e == Error::Index(IndexError::GetWriter) || e
        == Error::Index(IndexError::Commit) || e == Error::Index(IndexError::Reload)
}

/// A request to search the messages of a channel.
#[derive(Clone, Debug, PartialEq, Eq)]
pub struct SearchMessageIndex {
    pub hub_id: ID,
    pub channel_id: ID,
    /// Largest number of messages to return.
    pub limit: usize,
    pub query: String,
}

/// The index of one channel, as the server holds it.
pub struct OpenIndex {
    pub key: ChannelKey,
    pub index: MessageIndex,
}

/// The channels of `keys` that are not of the hub, in their order.
pub open spec fn keys_outside(keys: Seq<ChannelKey>, hub_id: ID) -> Seq<ChannelKey> {
    keys.filter(|key: ChannelKey| key.hub_id != hub_id)
}

/// The indexes of the channels that were written to or searched since the
/// server started.
pub struct MessageServer {
    indexes: Vec<OpenIndex>,
    commit_threshold: u8,
}

impl MessageServer {
    /// The channels whose index is open, in the order in which they were
    /// opened.
    pub closed spec fn keys(&self) -> Seq<ChannelKey> {
        self.indexes@.map_values(|open: OpenIndex| open.key)
    }

    /// Whether the index of the channel is open.
    pub open spec fn is_open(&self, key: ChannelKey) -> bool {
        self.keys().contains(key)
    }

    /// Whether the index of the channel is open and can do work: no commit
    /// of it has failed.
    pub open spec fn ready(&self, key: ChannelKey) -> bool {
        self.is_open(key) && !self.index(key).broken()
    }

    /// The index of a channel whose index is open.
    pub closed spec fn index(&self, key: ChannelKey) -> MessageIndex {
        self.indexes[self.keys().index_of(key)].index
    }

    /// Number of messages that may be pending in an index before a commit
    /// falls due.
    pub closed spec fn threshold(&self) -> u8 {
        self.commit_threshold
    }

    /// No channel has two indexes, and each index is well-formed and has
    /// the threshold of the server.
    pub closed spec fn wf(&self) -> bool {
        &&& self.keys().no_duplicates()
        &&& forall|i: int|
            0 <= i < self.indexes.len() ==> (#[trigger] self.indexes[i]).index.wf()
                && self.indexes[i].index.threshold() == self.commit_threshold
    }

    /// Whether the two servers hold the same index for every channel but
    /// `key`, and have the same indexes open.
    pub open spec fn same_but(&self, before: &Self, key: ChannelKey) -> bool {
        &&& self.threshold() == before.threshold()
        &&& self.keys() == before.keys()
        &&& forall|other: ChannelKey|
            other != key && before.is_open(other) ==> #[trigger] self.index(other) == before.index(
                other,
            )
    }

    proof fn lemma_index_at(&self, i: int)
        requires
            self.wf(),
            0 <= i < self.indexes.len(),
        ensures
            self.is_open(self.indexes[i].key),
            self.index(self.indexes[i].key) == self.indexes[i].index,
            self.index(self.indexes[i].key).wf(),
            self.index(self.indexes[i].key).threshold() == self.threshold(),
    {
        let key = self.indexes[i].key;
        assert(self.keys()[i] == key);
        let p = self.keys().index_of(key);
        assert(0 <= p < self.keys().len() && self.keys()[p] == key);
    }

    /// A server without any open index.
    pub fn new(commit_threshold: u8) -> (server: Self)
        ensures
            server.wf(),
            server.threshold() == commit_threshold,
            server.keys() == Seq::<ChannelKey>::empty(),
    {
        let server = MessageServer { indexes: Vec::new(), commit_threshold };
        assert(server.keys() == Seq::<ChannelKey>::empty());
        server
    }

    fn find(&self, key: &ChannelKey) -> (found: Option<usize>)
        requires
            self.wf(),
        ensures
            match found {
                Some(i) => i < self.indexes.len() && self.indexes[i as int].key == *key
                    && self.is_open(*key) && self.keys().index_of(*key) == i,
                None => !self.is_open(*key),
            },
    {
        let mut i: usize = 0;
        while i < self.indexes.len()
            invariant
                0 <= i <= self.indexes.len(),
                self.wf(),
                forall|j: int| 0 <= j < i ==> (#[trigger] self.indexes[j]).key != *key,
            decreases self.indexes.len() - i,
        {
            if self.indexes[i].key.same(key) {
                proof {
                    self.lemma_index_at(i as int);
                    let p = self.keys().index_of(*key);
                    assert(self.keys()[i as int] == *key);
                }
                return Some(i);
            }
            i = i + 1;
        }
        proof {
            if self.is_open(*key) {
                let p = choose|p: int| 0 <= p < self.keys().len() && self.keys()[p] == *key;
                assert(self.indexes[p].key == *key);
            }
        }
        None
    }

    /// Whether the index of the channel is open.
    pub fn has_index(&self, hub_id: &ID, channel_id: &ID) -> (open: bool)
        requires
            self.wf(),
        ensures
            open == self.is_open(ChannelKey { hub_id: *hub_id, channel_id: *channel_id }),
    {
        self.find(&ChannelKey { hub_id: *hub_id, channel_id: *channel_id }).is_some()
    }

    /// Whether the index of the channel is open and can do work. Where it
    /// is not, [`MessageServer::setup_index`] opens it.
    pub fn is_ready(&self, hub_id: &ID, channel_id: &ID) -> (ready: bool)
        requires
            self.wf(),
        ensures
            ready == self.ready(ChannelKey { hub_id: *hub_id, channel_id: *channel_id }),
    {
        match self.find(&ChannelKey { hub_id: *hub_id, channel_id: *channel_id }) {
            Some(i) => {
                proof {
                    self.lemma_index_at(i as int);
                }
                !self.indexes[i].index.is_broken()
            },
            None => false,
        }
    }

    /// The channels whose index is open, in the order in which they were
    /// opened.
    pub fn open_channels(&self) -> (channels: Vec<ChannelKey>)
        requires
            self.wf(),
        ensures
            channels@ == self.keys(),
    {
        let mut channels: Vec<ChannelKey> = Vec::new();
        let mut i: usize = 0;
        while i < self.indexes.len()
            invariant
                0 <= i <= self.indexes.len(),
                channels@ == self.keys().subrange(0, i as int),
            decreases self.indexes.len() - i,
        {
            channels.push(self.indexes[i].key);
            assert(channels@ == self.keys().subrange(0, i + 1));
            i = i + 1;
        }
        assert(self.keys().subrange(0, i as int) == self.keys());
        channels
    }

    /// What the recovery log of the channel must hold; none too where the
    /// index of the channel is not open.
    pub fn recovery_log(&self, hub_id: &ID, channel_id: &ID) -> (log: Option<ID>)
        requires
            self.wf(),
        ensures
            log == if self.is_open(ChannelKey { hub_id: *hub_id, channel_id: *channel_id }) {
                self.index(
                    ChannelKey { hub_id: *hub_id, channel_id: *channel_id },
                ).state().recovery_log
            } else {
                None
            },
    {
        match self.find(&ChannelKey { hub_id: *hub_id, channel_id: *channel_id }) {
            Some(i) => self.indexes[i].index.recovery_log(),
            None => None,
        }
    }

    /// How the server looks after the index of `key` was set up. An index
    /// that is open and can do work stays as it is, and the setting up
    /// succeeds. Otherwise a broken index is closed, and an index is opened
    /// with what the recovery log held; where the log held anything, the
    /// messages missed are replayed into the index just opened. On success
    /// that index is the last of the open ones; on failure the channel has
    /// no open index.
    pub open spec fn set_up(
        &self,
        before: &Self,
        key: ChannelKey,
        recovery_log: Option<ID>,
        missed: Seq<Message>,
        done: Result<(), Error>,
    ) -> bool {
        if before.ready(key) {
            &&& done is Ok
            &&& self.keys() == before.keys()
            &&& self.index(key) == before.index(key)
        } else {
            match done {
                Ok(_) => {
                    &&& self.keys() == crate::edges::without_item(before.keys(), key).push(key)
                    &&& self.ready(key)
                    &&& exists|opened: MessageIndex|
                        {
                            &&& #[trigger] opened.fresh(before.threshold(), recovery_log)
                            &&& self.index(key).caught_up(&opened, recovery_log, missed)
                        }
                },
                Err(e) => {
                    &&& self.keys() == crate::edges::without_item(before.keys(), key)
                    &&& open_error(e) || (recovery_log is Some && replay_error(e))
                },
            }
        }
    }

    /// Sets up the index of a channel: opens it in the directory at
    /// `path`, which must exist, unless it is open already and can do
    /// work. `recovery_log` is what the recovery log of the channel holds;
    /// where it holds anything, `missed` are the messages that the store
    /// has after the one it names, and they are replayed.
    pub fn setup_index(
        &mut self,
        hub_id: &ID,
        channel_id: &ID,
        path: &str,
        recovery_log: Option<ID>,
        missed: &Vec<Message>,
    ) -> (done: Result<(), Error>)
        requires
            old(self).wf(),
        ensures
            final(self).wf(),
            final(self).threshold() == old(self).threshold(),
            forall|other: ChannelKey| #[trigger]
                final(self).keys().contains(other) == (if other == (ChannelKey {
                    hub_id: *hub_id,
                    channel_id: *channel_id,
                }) {
                    done is Ok
                } else {
                    old(self).keys().contains(other)
                }),
            forall|other: ChannelKey|
                other != (ChannelKey { hub_id: *hub_id, channel_id: *channel_id }) && old(self).is_open(other) ==> #[trigger] final(self).index(other) == old(self).index(other),
            final(self).set_up(
                old(self),
                ChannelKey { hub_id: *hub_id, channel_id: *channel_id },
                recovery_log,
                missed@,
                done,
            ),
    {
        let key = ChannelKey { hub_id: *hub_id, channel_id: *channel_id };
        if self.is_ready(hub_id, channel_id) {
            return Ok(());
        }
        proof {
            crate::edges::lemma_without_item(old(self).keys(), key);
        }
        self.close_index(hub_id, channel_id);
        let ghost closed = *self;
        let mut index = match MessageIndex::open(path, self.commit_threshold, recovery_log) {
            Ok(index) => index,
            Err(e) => {
                return Err(e);
            },
        };
        let ghost opened = index;
        if recovery_log.is_some() {
            match index.replay(missed) {
                Ok(_) => {},
                Err(e) => {
                    return Err(e);
                },
            }
        }
        self.indexes.push(OpenIndex { key, index });
        proof {
            let n = closed.indexes.len() as int;
            assert(self.keys() == closed.keys().push(key));
            assert(!closed.keys().contains(key));
            assert(self.keys().no_duplicates()) by {
                assert forall|a: int, b: int|
                    0 <= a < self.keys().len() && 0 <= b < self.keys().len() && a
                        != b implies self.keys()[a] != self.keys()[b] by {
                    if a < n && b < n {
                        assert(closed.keys()[a] != closed.keys()[b]);
                    } else if a < n {
                        assert(closed.keys()[a] == self.keys()[a]);
                        assert(closed.keys().contains(closed.keys()[a]));
                    } else {
                        assert(closed.keys()[b] == self.keys()[b]);
                        assert(closed.keys().contains(closed.keys()[b]));
                    }
                }
            }
            assert forall|i: int| 0 <= i < self.indexes.len() implies (
            #[trigger] self.indexes[i]).index.wf() && self.indexes[i].index.threshold()
                == self.commit_threshold by {
                if i < n {
                    assert(closed.indexes[i].index.wf());
                }
            }
            self.lemma_index_at(n);
            assert(self.keys()[n] == key);
            assert forall|other: ChannelKey| other != key && old(self).is_open(other) implies
                #[trigger] self.index(other) == old(self).index(other) by {
                assert(closed.keys().contains(other));
                let p = closed.keys().index_of(other);
                assert(0 <= p < n && closed.keys()[p] == other);
                closed.lemma_index_at(p);
                self.lemma_index_at(p);
                assert(closed.index(other) == old(self).index(other));
            }
            assert forall|other: ChannelKey| #[trigger]
                self.keys().contains(other) == (if other == key {
                    true
                } else {
                    old(self).keys().contains(other)
                }) by {
                if other == key {
                    assert(self.keys()[n] == other);
                } else if closed.keys().contains(other) {
                    let p = closed.keys().index_of(other);
                    assert(self.keys()[p] == other);
                } else if self.keys().contains(other) {
                    let p = choose|p: int| 0 <= p < self.keys().len() && self.keys()[p] == other;
                    assert(closed.keys()[p] == other);
                }
            }
            assert(opened.fresh(old(self).threshold(), recovery_log));
        }
        Ok(())
    }

    /// Closes the index of a channel, as when the channel is deleted, and
    /// says whether it was open. What was pending in it is not committed.
    pub fn close_index(&mut self, hub_id: &ID, channel_id: &ID) -> (closed: bool)
        requires
            old(self).wf(),
        ensures
            final(self).wf(),
            final(self).threshold() == old(self).threshold(),
            closed == old(self).is_open(ChannelKey { hub_id: *hub_id, channel_id: *channel_id }),
            final(self).keys() == crate::edges::without_item(
                old(self).keys(),
                ChannelKey { hub_id: *hub_id, channel_id: *channel_id },
            ),
            forall|other: ChannelKey| #[trigger]
                final(self).keys().contains(other) == (old(self).keys().contains(other) && other != (
                    ChannelKey { hub_id: *hub_id, channel_id: *channel_id }
                )),
            forall|other: ChannelKey|
                other != (ChannelKey { hub_id: *hub_id, channel_id: *channel_id }) && old(self).is_open(other) ==> #[trigger] final(self).index(other) == old(self).index(other),
    {
        let key = ChannelKey { hub_id: *hub_id, channel_id: *channel_id };
        match self.find(&key) {
            None => false,
            Some(i) => {
                proof {
                    old(self).indexes@.remove_ensures(i as int);
                    old(self).keys().remove_ensures(i as int);
                    crate::edges::lemma_without_item(old(self).keys(), key);
                }
                self.indexes.remove(i);
                proof {
                    let gap = i as int;
                    assert(self.keys() =~= old(self).keys().remove(gap));
                    assert forall|a: int| 0 <= a < self.indexes.len() implies (
                    #[trigger] self.indexes[a]).index.wf() && self.indexes[a].index.threshold()
                        == self.commit_threshold by {
                        let from = if a < gap { a } else { a + 1 };
                        assert(old(self).indexes[from].index.wf());
                    }
                    assert forall|other: ChannelKey| other != key && old(self).is_open(
                        other,
                    ) implies #[trigger] self.index(other) == old(self).index(other) by {
                        let p = old(self).keys().index_of(other);
                        assert(0 <= p < old(self).keys().len() && old(self).keys()[p] == other);
                        old(self).lemma_index_at(p);
                        let to = if p < gap { p } else { p - 1 };
                        assert(self.keys()[to] == other);
                        self.lemma_index_at(to);
                    }
                }
                true
            },
        }
    }

    /// Closes the indexes of all channels of a hub, as when the hub is
    /// deleted, and says how many were open. The indexes of other hubs
    /// stay open, in their order, and are not touched. What was pending in
    /// an index that is closed is not committed.
    pub fn close_hub(&mut self, hub_id: &ID) -> (closed: usize)
        requires
            old(self).wf(),
        ensures
            final(self).wf(),
            final(self).threshold() == old(self).threshold(),
            final(self).keys() == keys_outside(old(self).keys(), *hub_id),
            closed == old(self).keys().len() - final(self).keys().len(),
            forall|other: ChannelKey|
                other.hub_id != *hub_id && old(self).is_open(other) ==> #[trigger] final(self).index(other) == old(self).index(other),
    {
        let ghost all = old(self).keys();
        let ghost keep = |key: ChannelKey| key.hub_id != *hub_id;
        let mut i: usize = 0;
        let mut closed: usize = 0;
        proof {
            assert(all.subrange(0, 0) == Seq::<ChannelKey>::empty());
            reveal_with_fuel(Seq::filter, 1);
            assert(all.subrange(0, all.len() as int) == all);
        }
        while i < self.indexes.len()
            invariant
                self.wf(),
                all == old(self).keys(),
                all.len() == old(self).indexes.len(),
                keep == |key: ChannelKey| key.hub_id != *hub_id,
                self.commit_threshold == old(self).commit_threshold,
                i + closed <= all.len(),
                i <= self.indexes.len(),
                self.keys() == all.subrange(0, i + closed).filter(keep) + all.subrange(
                    i + closed,
                    all.len() as int,
                ),
                all.subrange(0, i + closed).filter(keep).len() == i,
                forall|other: ChannelKey|
                    other.hub_id != *hub_id && old(self).is_open(other) ==> self.is_open(other)
                        && #[trigger] self.index(other) == old(self).index(other),
            decreases self.indexes.len() - i,
        {
            let ghost before = *self;
            let ghost done = i + closed;
            let ghost kept = all.subrange(0, done).filter(keep);
            let ghost rest = all.subrange(done, all.len() as int);
            let key = self.indexes[i].key;
            proof {
                assert(self.keys().len() == self.indexes.len());
                assert(self.keys()[i as int] == key);
                assert(rest.len() > 0 && rest[0] == key && all[done] == key);
                assert(all.subrange(0, done + 1) == all.subrange(0, done).push(key));
                all.subrange(0, done).lemma_filter_push(key, keep);
                assert(self.keys().index_of(key) == i);
            }
            if key.hub_id == *hub_id {
                self.close_index(&key.hub_id, &key.channel_id);
                closed = closed + 1;
                proof {
                    assert(self.keys() == before.keys().remove(i as int));
                    assert(self.keys() =~= kept + all.subrange(done + 1, all.len() as int));
                    assert(self.keys().len() == self.indexes.len());
                    assert forall|other: ChannelKey|
                        other.hub_id != *hub_id && old(self).is_open(other) implies self.is_open(
                        other,
                    ) && #[trigger] self.index(other) == old(self).index(other) by {
                        assert(before.index(other) == old(self).index(other));
                        assert(before.is_open(other) && other != key);
                    }
                }
            } else {
                i = i + 1;
                proof {
                    assert(self.keys() =~= kept.push(key) + all.subrange(
                        done + 1,
                        all.len() as int,
                    ));
                }
            }
        }
        proof {
            assert(self.keys().len() == self.indexes.len());
            assert(all.subrange(0, all.len() as int) == all);
            assert(all.subrange(all.len() as int, all.len() as int) == Seq::<ChannelKey>::empty());
        }
        closed
    }

    /// Adds a message to the index of a channel. Fails and changes nothing
    /// where that index is not open; otherwise as [`MessageIndex::add`]
    /// does.
    pub fn add(&mut self, hub_id: &ID, channel_id: &ID, message: &Message) -> (done: Result<
        (),
        Error,
    >)
        requires
            old(self).wf(),
        ensures
            final(self).wf(),
            final(self).same_but(
                old(self),
                ChannelKey { hub_id: *hub_id, channel_id: *channel_id },
            ),
            ({
                let key = ChannelKey { hub_id: *hub_id, channel_id: *channel_id };
                if old(self).is_open(key) {
                    final(self).index(key).add_outcome(&old(self).index(key), message, done)
                } else {
                    done == Err::<(), Error>(Error::Index(IndexError::GetWriter))
                }
            }),
    {
        let key = ChannelKey { hub_id: *hub_id, channel_id: *channel_id };
        match self.find(&key) {
            None => Err(Error::Index(IndexError::GetWriter)),
            Some(i) => {
                proof {
                    self.lemma_index_at(i as int);
                }
                let done = self.indexes[i].index.add(message);
                proof {
                    self.lemma_changed_at(old(self), i as int);
                }
                done
            },
        }
    }

    /// The two servers hold the same keys and the same indexes but at
    /// position `at`, where the index is well-formed and has the threshold.
    proof fn lemma_changed_at(&self, before: &Self, at: int)
        requires
            before.wf(),
            0 <= at < before.indexes.len(),
            self.commit_threshold == before.commit_threshold,
            self.indexes.len() == before.indexes.len(),
            forall|i: int|
                0 <= i < self.indexes.len() ==> (#[trigger] self.indexes[i]).key
                    == before.indexes[i].key,
            forall|i: int|
                0 <= i < self.indexes.len() && i != at ==> (#[trigger] self.indexes[i]).index
                    == before.indexes[i].index,
            self.indexes[at].index.wf(),
            self.indexes[at].index.threshold() == before.commit_threshold,
        ensures
            self.wf(),
            self.same_but(before, before.indexes[at].key),
            self.index(before.indexes[at].key) == self.indexes[at].index,
    {
        assert(self.keys() == before.keys());
        assert forall|i: int| 0 <= i < self.indexes.len() implies (
        #[trigger] self.indexes[i]).index.wf() && self.indexes[i].index.threshold()
            == self.commit_threshold by {
            if i != at {
                assert(before.indexes[i].index.wf());
            }
        }
        self.lemma_index_at(at);
        assert forall|other: ChannelKey|
            other != before.indexes[at].key && before.is_open(other) implies #[trigger] self.index(
            other,
        ) == before.index(other) by {
            let p = before.keys().index_of(other);
            assert(0 <= p < before.keys().len() && before.keys()[p] == other);
            before.lemma_index_at(p);
            self.lemma_index_at(p);
        }
    }

    /// Searches the messages of a channel. Fails and changes nothing where
    /// the index of the channel is not open; otherwise as
    /// [`MessageIndex::search`] does.
    pub fn search(&mut self, request: &SearchMessageIndex) -> (found: Result<Vec<ID>, Error>)
        requires
            old(self).wf(),
        ensures
            final(self).wf(),
            final(self).same_but(
                old(self),
                ChannelKey { hub_id: request.hub_id, channel_id: request.channel_id },
            ),
            ({
                let key = ChannelKey { hub_id: request.hub_id, channel_id: request.channel_id };
                if old(self).is_open(key) {
                    final(self).index(key).search_outcome(
                        &old(self).index(key),
                        request.query@,
                        request.limit,
                        found,
                    )
                } else {
                    found == Err::<Vec<ID>, Error>(Error::Index(IndexError::GetReader))
                }
            }),
    {
        let key = ChannelKey { hub_id: request.hub_id, channel_id: request.channel_id };
        match self.find(&key) {
            None => Err(Error::Index(IndexError::GetReader)),
            Some(i) => {
                proof {
                    self.lemma_index_at(i as int);
                }
                let found = self.indexes[i].index.search(request.query.as_str(), request.limit);
                proof {
                    self.lemma_changed_at(old(self), i as int);
                }
                found
            },
        }
    }

    /// Commits what is pending in every open index, as the server does
    /// when it stops. Returns, for each open index in turn, its channel and
    /// what the recovery log of the channel must hold. Of each index, what
    /// was pending is committed, or its commit failed and its pending
    /// count and recovery log are what they were.
    pub fn stopping(&mut self) -> (logs: Vec<(ChannelKey, Option<ID>)>)
        requires
            old(self).wf(),
        ensures
            final(self).wf(),
            final(self).threshold() == old(self).threshold(),
            final(self).keys() == old(self).keys(),
            logs@.len() == final(self).keys().len(),
            forall|i: int|
                0 <= i < logs@.len() ==> {
                    let key = final(self).keys()[i];
                    &&& (#[trigger] logs@[i]).0 == key
                    &&& logs@[i].1 == final(self).index(key).state().recovery_log
                    &&& final(self).index(key).stopped(&old(self).index(key))
                },
    {
        let mut logs: Vec<(ChannelKey, Option<ID>)> = Vec::new();
        let mut i: usize = 0;
        while i < self.indexes.len()
            invariant
                0 <= i <= self.indexes.len(),
                self.indexes.len() == old(self).indexes.len(),
                self.commit_threshold == old(self).commit_threshold,
                old(self).wf(),
                self.wf(),
                self.keys() == old(self).keys(),
                logs@.len() == i,
                forall|j: int|
                    i <= j < self.indexes.len() ==> (#[trigger] self.indexes[j]).index == old(self).indexes[j].index,
                forall|j: int|
                    0 <= j < i ==> {
                        let open = #[trigger] self.indexes[j];
                        &&& logs@[j].0 == open.key
                        &&& logs@[j].1 == open.index.state().recovery_log
                        &&& open.index.stopped(&old(self).indexes[j].index)
                    },
            decreases self.indexes.len() - i,
        {
            let ghost before = *self;
            proof {
                self.lemma_index_at(i as int);
            }
            let done = self.indexes[i].index.flush();
            proof {
                self.lemma_changed_at(&before, i as int);
                assert(self.indexes[i as int].index.flush_outcome(
                    &old(self).indexes[i as int].index,
                    done,
                ));
            }
            logs.push((self.indexes[i].key, self.indexes[i].index.recovery_log()));
            i = i + 1;
        }
        proof {
            assert forall|j: int| 0 <= j < logs@.len() implies {
                let key = self.keys()[j];
                &&& (#[trigger] logs@[j]).0 == key
                &&& logs@[j].1 == self.index(key).state().recovery_log
                &&& self.index(key).stopped(&old(self).index(key))
            } by {
                self.lemma_index_at(j);
                old(self).lemma_index_at(j);
                assert(self.keys()[j] == self.indexes[j].key);
            }
        }
        logs
    }
}

/// Search reads its own writes, as far as the index goes: once a message
/// was added and what was pending committed, as every search begins by
/// doing, searches see the document of the message.
pub proof fn lemma_search_sees_added(
    before: &MessageIndex,
    added: &MessageIndex,
    flushed: &MessageIndex,
    message: &Message,
)
    requires
        before.wf(),
        added.added(before, message),
        flushed.flushed(added),
    ensures
        flushed.searchable().contains(message_doc(message)),
        flushed.state().pending_count == 0,
        flushed.state().recovery_log == Some(message.id),
{
    broadcast use vstd::multiset::group_multiset_axioms;

    let doc = message_doc(message);
    let ops = before.waiting().push(IndexOp::Add(doc));
    assert(ops.drop_last() == before.waiting());
    assert(ops.last() == IndexOp::Add(doc));
    assert(apply_ops(before.durable(), ops) == apply_ops(before.durable(), before.waiting()).insert(
        doc,
    ));
}

/// An identifier read from what is stored with one of the documents found
/// is among the identifiers that the search hands out.
pub proof fn lemma_decoded_holds(stored: Seq<Option<Seq<u8>>>, at: int, id: ID)
    requires
        0 <= at < stored.len(),
        stored[at] matches Some(bytes) && decoded_id(bytes) == Some(id),
    ensures
        decoded_ids(stored).contains(id),
    decreases stored.len(),
{
    let rest = decoded_ids(stored.drop_last());
    if at == stored.len() - 1 {
        assert(decoded_ids(stored) == rest.push(id));
        assert(rest.push(id)[rest.len() as int] == id);
    } else {
        lemma_decoded_holds(stored.drop_last(), at, id);
        let p = choose|p: int| 0 <= p < rest.len() && rest[p] == id;
        assert(decoded_ids(stored)[p] == id);
    }
}

/// An identifier that a search hands out was read from what is stored
/// with one of the documents found.
pub proof fn lemma_decoded_from(stored: Seq<Option<Seq<u8>>>, id: ID) -> (at: int)
    requires
        decoded_ids(stored).contains(id),
    ensures
        0 <= at < stored.len(),
        stored[at] matches Some(bytes) && decoded_id(bytes) == Some(id),
    decreases stored.len(),
{
    let rest = decoded_ids(stored.drop_last());
    let all = decoded_ids(stored);
    let p = choose|p: int| 0 <= p < all.len() && all[p] == id;
    if stored.len() == 0 {
        0
    } else if p < rest.len() {
        assert(rest[p] == id);
        lemma_decoded_from(stored.drop_last(), id)
    } else {
        stored.len() - 1
    }
}

/// What a search finds matches. Each identifier that a search hands out
/// is read from the encoded identifier of a document that searches see
/// and that the query matches.
pub proof fn lemma_found_match(
    index: &MessageIndex,
    searcher: tantivy::Searcher,
    query: Seq<char>,
    limit: usize,
    ids: Seq<ID>,
    id: ID,
) -> (address: (u32, u32))
    requires
        index.answered(searcher, query, limit, ids),
        ids.contains(id),
    ensures
        searcher_docs(searcher).contains_key(address),
        matched(searcher, query, address),
        index.searchable().contains(searcher_docs(searcher)[address]),
        decoded_id(searcher_docs(searcher)[address].id) == Some(id),
{
    let hits = top_hits(searcher, query, spec_effective_limit(limit));
    let first = hits.subrange(0, cut(limit, hits.len()));
    let at = lemma_decoded_from(fetched(searcher, first), id);
    assert(fetched(searcher, first)[at] == fetched_id(searcher, first[at]));
    assert(first[at] == hits[at]);
    hits[at]
}

/// Whether the query matches the document of the message wherever a
/// searcher serves it, and the identifier stored with it is there.
pub open spec fn matches_message(query: Seq<char>, message: &Message) -> bool {
    forall|searcher: tantivy::Searcher, address: (u32, u32)|
        searcher_docs(searcher).contains_key(address) && #[trigger] searcher_docs(
            searcher,
        )[address] == message_doc(message) ==> matched(searcher, query, address) && fetched_id(
            searcher,
            address,
        ) is Some
}

/// Whether fewer documents match the query than a search with the limit
/// asks for, whatever searcher it is made in.
pub open spec fn fewer_match(query: Seq<char>, limit: usize) -> bool {
    &&& limit > 0
    &&& forall|searcher: tantivy::Searcher|
        (#[trigger] top_hits(searcher, query, spec_effective_limit(limit))).len()
            < spec_effective_limit(limit)
}

/// A search finds what searches see. Let a search succeed in an index
/// where searches see the document of a message. Let the query match the
/// message, and let fewer documents match than the search asks for. Then
/// the search hands out the identifier of the message.
pub proof fn lemma_search_finds(
    index: &MessageIndex,
    message: &Message,
    query: Seq<char>,
    limit: usize,
    ids: Vec<ID>,
)
    requires
        index.searchable().contains(message_doc(message)),
        encodable(message),
        index.find_outcome(query, limit, Ok(ids)),
        matches_message(query, message),
        fewer_match(query, limit),
    ensures
        ids@.contains(message.id),
{
    let doc = message_doc(message);
    let asked = spec_effective_limit(limit);
    let searcher = choose|searcher: tantivy::Searcher| #[trigger]
        index.answered(searcher, query, limit, ids@);
    let hits = top_hits(searcher, query, asked);
    let address = choose|address: (u32, u32)|
        searcher_docs(searcher).contains_key(address) && #[trigger] searcher_docs(
            searcher,
        )[address] == doc;
    assert(matched(searcher, query, address));
    assert(hits.contains(address));
    let at = hits.index_of(address);
    assert(hits[at] == address);
    let first = hits.subrange(0, cut(limit, hits.len()));
    assert(first == hits);
    assert(fetched(searcher, first)[at] == fetched_id(searcher, first[at]));
    lemma_decoded_holds(fetched(searcher, first), at, message.id);
}

/// Search reads its own writes. Let a message be added, and a search
/// succeed after it. Let the query match the message, and let fewer
/// documents match than the search asks for. Then the search hands out
/// the identifier of the message.
pub proof fn lemma_search_reads_own_writes(
    before: &MessageIndex,
    added: &MessageIndex,
    searched: &MessageIndex,
    message: &Message,
    query: Seq<char>,
    limit: usize,
    ids: Vec<ID>,
)
    requires
        before.wf(),
        added.added(before, message),
        encodable(message),
        searched.search_outcome(added, query, limit, Ok(ids)),
        matches_message(query, message),
        fewer_match(query, limit),
    ensures
        ids@.contains(message.id),
{
    lemma_search_sees_added(before, added, searched, message);
    lemma_search_finds(searched, message, query, limit, ids);
}

/// The changes that adding messages makes, one for each message in turn.
pub open spec fn adds(messages: Seq<Message>) -> Seq<IndexOp> {
    messages.map_values(|message: Message| IndexOp::Add(message_doc(&message)))
}

/// Adding messages puts a document for each of them into the index, and
/// takes none out.
pub proof fn lemma_apply_adds(docs: Multiset<IndexedDoc>, messages: Seq<Message>)
    ensures
        forall|i: int|
            0 <= i < messages.len() ==> apply_ops(docs, adds(messages)).contains(
                message_doc(#[trigger] &messages[i]),
            ),
        forall|doc: IndexedDoc| docs.contains(doc) ==> #[trigger] apply_ops(
            docs,
            adds(messages),
        ).contains(doc),
    decreases messages.len(),
{
    broadcast use vstd::multiset::group_multiset_axioms;

    if messages.len() > 0 {
        let rest = messages.drop_last();
        lemma_apply_adds(docs, rest);
        assert(adds(messages).drop_last() == adds(rest));
        assert(adds(messages).last() == IndexOp::Add(message_doc(&messages.last())));
        let before = apply_ops(docs, adds(rest));
        assert(apply_ops(docs, adds(messages)) == before.insert(message_doc(&messages.last())));
        assert forall|i: int| 0 <= i < messages.len() implies apply_ops(
            docs,
            adds(messages),
        ).contains(message_doc(#[trigger] &messages[i])) by {
            if i < rest.len() {
                assert(rest[i] == messages[i]);
            }
        }
        assert forall|doc: IndexedDoc| docs.contains(doc) implies #[trigger] apply_ops(
            docs,
            adds(messages),
        ).contains(doc) by {
            assert(before.contains(doc));
        }
    } else {
        assert(adds(messages).len() == 0);
    }
}

impl MessageIndex {
    /// Whether the index is in step with the messages of its channel:
    /// `history` are the messages in the order of the store, of which the
    /// first `committed` have a document in the last commit and the others
    /// wait for the next one; as many are counted as pending as wait; and
    /// the recovery log names a message that is committed, or, as long as
    /// nothing is, the first message.
    pub open spec fn tracks(&self, history: Seq<Message>, committed: int) -> bool {
        &&& 0 <= committed <= history.len()
        &&& forall|i: int|
            0 <= i < committed ==> self.durable().contains(message_doc(#[trigger] &history[i]))
        &&& self.waiting() == adds(history.subrange(committed, history.len() as int))
        &&& self.state().pending_count == history.len() - committed
        &&& self.state().pending_count > 0 ==> self.state().last_pending_id == Some(
            history.last().id,
        )
        &&& match self.state().recovery_log {
            None => history.len() == 0,
            Some(id) => exists|j: int|
                0 <= j < history.len() && (#[trigger] history[j]).id == id && (j < committed || (
                committed == 0 && j == 0)),
        }
    }

    /// An index that was opened without a recovery log and holds no change
    /// is in step with a channel in which nothing was sent.
    pub proof fn lemma_opened_in_step(&self)
        requires
            self.state() == IndexState::opened(None),
            self.waiting() == Seq::<IndexOp>::empty(),
        ensures
            self.tracks(Seq::<Message>::empty(), 0),
    {
        let history = Seq::<Message>::empty();
        assert(history.subrange(0, 0) == history);
        assert(adds(history) == Seq::<IndexOp>::empty());
    }

    /// The number of messages committed once a message is added to an index
    /// that was in step with `history`.
    pub open spec fn committed_after_add(&self, history: Seq<Message>, committed: int) -> int {
        if self.state().spec_commit_due(self.threshold()) {
            history.len() as int + 1
        } else {
            committed
        }
    }

    /// An index that is in step with the messages of its channel stays in
    /// step when a message is added.
    pub proof fn lemma_add_keeps_step(
        &self,
        added: &MessageIndex,
        history: Seq<Message>,
        committed: int,
        message: &Message,
    )
        requires
            self.wf(),
            self.tracks(history, committed),
            added.added(self, message),
        ensures
            added.tracks(history.push(*message), self.committed_after_add(history, committed)),
    {
        broadcast use vstd::multiset::group_multiset_axioms;

        let n = history.len() as int;
        let longer = history.push(*message);
        let waiting = history.subrange(committed, n);
        assert(longer.subrange(committed, n + 1) == waiting.push(*message));
        assert(adds(waiting.push(*message)) == adds(waiting).push(
            IndexOp::Add(message_doc(message)),
        ));
        assert(longer.last() == *message);
        if self.state().spec_commit_due(self.threshold()) {
            lemma_apply_adds(self.durable(), waiting.push(*message));
            assert forall|i: int| 0 <= i < n + 1 implies added.durable().contains(
                message_doc(#[trigger] &longer[i]),
            ) by {
                if i < committed {
                    assert(longer[i] == history[i]);
                } else {
                    assert(longer[i] == waiting.push(*message)[i - committed]);
                }
            }
            assert(longer.subrange(n + 1, n + 1) == Seq::<Message>::empty());
            assert(adds(Seq::<Message>::empty()) == Seq::<IndexOp>::empty());
            assert(longer[n] == *message);
        } else {
            assert forall|i: int| 0 <= i < committed implies added.durable().contains(
                message_doc(#[trigger] &longer[i]),
            ) by {
                assert(longer[i] == history[i]);
            }
            match self.state().recovery_log {
                None => {
                    assert(longer[0] == *message);
                },
                Some(id) => {
                    let j = choose|j: int|
                        0 <= j < history.len() && (#[trigger] history[j]).id == id && (j < committed
                            || (committed == 0 && j == 0));
                    assert(longer[j] == history[j]);
                },
            }
        }
    }

    /// An index that is in step with the messages of its channel has a
    /// document for every one of them in its last commit once what was
    /// pending is committed, and searches see them all.
    pub proof fn lemma_flush_commits_all(
        &self,
        flushed: &MessageIndex,
        history: Seq<Message>,
        committed: int,
    )
        requires
            self.tracks(history, committed),
            flushed.flushed(self),
        ensures
            flushed.tracks(history, history.len() as int),
            forall|i: int|
                0 <= i < history.len() ==> flushed.searchable().contains(
                    message_doc(#[trigger] &history[i]),
                ),
    {
        let n = history.len() as int;
        let waiting = history.subrange(committed, n);
        assert(history.subrange(n, n) == Seq::<Message>::empty());
        assert(adds(Seq::<Message>::empty()) == Seq::<IndexOp>::empty());
        if self.state().pending_count > 0 {
            lemma_apply_adds(self.durable(), waiting);
            assert forall|i: int| 0 <= i < n implies flushed.durable().contains(
                message_doc(#[trigger] &history[i]),
            ) by {
                if committed <= i {
                    assert(history[i] == waiting[i - committed]);
                }
            }
            assert(history[n - 1].id == history.last().id);
        } else {
            assert(waiting == Seq::<Message>::empty());
        }
    }

    /// Index durability, as far as the index goes. Let an index be in step
    /// with the messages of its channel, of which at least one is
    /// committed, and let the process end without warning: what waited is
    /// lost, the last commit and the recovery log stay. Let the index be
    /// opened again and the messages that the store has after the one that
    /// the log names be replayed. Then the last commit has a document for
    /// every message of the channel, searches see them all, and nothing
    /// is pending.
    pub proof fn lemma_durability(
        &self,
        reopened: &MessageIndex,
        recovered: &MessageIndex,
        history: Seq<Message>,
        committed: int,
        logged: int,
    )
        requires
            self.tracks(history, committed),
            distinct_ids(history),
            0 <= logged < committed,
            self.state().recovery_log == Some(history[logged].id),
            reopened.durable() == self.durable(),
            reopened.waiting() == Seq::<IndexOp>::empty(),
            reopened.state() == IndexState::opened(self.state().recovery_log),
            recovered.replayed(reopened, history.subrange(logged + 1, history.len() as int)),
        ensures
            forall|i: int|
                0 <= i < history.len() ==> recovered.searchable().contains(
                    message_doc(#[trigger] &history[i]),
                ),
            recovered.searchable() == recovered.durable(),
            recovered.state().pending_count == 0,
            recovered.state().recovery_log == if logged + 1 < history.len() {
                Some(history.last().id)
            } else {
                Some(history[logged].id)
            },
            recovered.tracks(history, history.len() as int),
    {
        let n = history.len() as int;
        let missed = history.subrange(logged + 1, n);
        assert(Seq::<IndexOp>::empty() + replay_ops(missed) == replay_ops(missed));
        lemma_replay_completes(self.durable(), history, logged + 1);
        if logged + 1 < n {
            assert(message_ids(missed).last() == missed.last().id);
            assert(missed.last() == history.last());
            assert(history[n - 1].id == history.last().id);
        } else {
            assert(message_ids(missed).len() == 0);
        }
        assert(history.subrange(n, n) == Seq::<Message>::empty());
        assert(adds(Seq::<Message>::empty()) == Seq::<IndexOp>::empty());
    }
}

/// Whether `steps` are what an index was while `messages` were added to it
/// one by one, each time with success: the first of `steps` is the index
/// before the first message, each other one the index once the next
/// message was added.
pub open spec fn added_in_turn(steps: Seq<MessageIndex>, messages: Seq<Message>) -> bool {
    &&& steps.len() == messages.len() + 1
    &&& forall|i: int|
        0 < i < steps.len() ==> (#[trigger] steps[i]).added(&steps[i - 1], &messages[i - 1])
}

/// The bookkeeping of an index to which messages were added one by one is
/// what [`IndexState::after_adds`] gives for their identifiers.
pub proof fn lemma_adds_in_turn(steps: Seq<MessageIndex>, messages: Seq<Message>)
    requires
        added_in_turn(steps, messages),
    ensures
        steps.last().threshold() == steps[0].threshold(),
        steps.last().state() == steps[0].state().after_adds(
            steps[0].threshold(),
            message_ids(messages),
        ),
    decreases messages.len(),
{
    if messages.len() > 0 {
        let earlier = steps.drop_last();
        let sent = messages.drop_last();
        assert(added_in_turn(earlier, sent)) by {
            assert forall|i: int| 0 < i < earlier.len() implies (#[trigger] earlier[i]).added(
                &earlier[i - 1],
                &sent[i - 1],
            ) by {
                assert(steps[i].added(&steps[i - 1], &messages[i - 1]));
            }
        }
        lemma_adds_in_turn(earlier, sent);
        let n = messages.len() as int;
        assert(steps[n].added(&steps[n - 1], &messages[n - 1]));
        assert(earlier.last() == steps[n - 1]);
        assert(earlier[0] == steps[0]);
        assert(message_ids(messages).drop_last() == message_ids(sent));
        assert(message_ids(messages).last() == messages[n - 1].id);
    }
}

/// Commit-threshold triggering: where nothing is pending in an index and
/// one message more than its threshold is added, each time with success,
/// nothing is pending afterwards, nothing waits, and the recovery log
/// holds the last of the messages.
pub proof fn lemma_commit_after_threshold(steps: Seq<MessageIndex>, messages: Seq<Message>)
    requires
        added_in_turn(steps, messages),
        steps[0].state().pending_count == 0,
        messages.len() == steps[0].threshold() + 1,
    ensures
        steps.last().state().pending_count == 0,
        steps.last().state().recovery_log == Some(messages.last().id),
        steps.last().waiting() == Seq::<IndexOp>::empty(),
        steps.last().durable().contains(message_doc(&messages.last())),
{
    broadcast use vstd::multiset::group_multiset_axioms;

    let threshold = steps[0].threshold();
    let ids = message_ids(messages);
    lemma_adds_in_turn(steps, messages);
    steps[0].state().lemma_commit_threshold(threshold, ids);
    let n = messages.len() as int;
    let earlier = steps.drop_last();
    let sent = messages.drop_last();
    assert(added_in_turn(earlier, sent)) by {
        assert forall|i: int| 0 < i < earlier.len() implies (#[trigger] earlier[i]).added(
            &earlier[i - 1],
            &sent[i - 1],
        ) by {
            assert(steps[i].added(&steps[i - 1], &messages[i - 1]));
        }
    }
    lemma_adds_in_turn(earlier, sent);
    assert(earlier.last() == steps[n - 1]);
    assert(earlier[0] == steps[0]);
    assert(ids.drop_last() == message_ids(sent));
    assert(steps[n].added(&steps[n - 1], &messages[n - 1]));
    assert(steps[n - 1].state().spec_commit_due(threshold));
    let ops = steps[n - 1].waiting().push(IndexOp::Add(message_doc(&messages[n - 1])));
    assert(ops.drop_last() == steps[n - 1].waiting());
}

impl MessageIndex {
    /// What was pending when the server stopped is committed: where an
    /// index had pending messages and has none once the server has
    /// stopped, the last commit holds all that waited, and nothing waits.
    /// An index that had nothing pending holds what it held, and is broken
    /// only if it was.
    pub proof fn lemma_stopped_commits(&self, before: &MessageIndex)
        requires
            self.stopped(before),
        ensures
            before.state().pending_count > 0 && self.state().pending_count == 0 ==> {
                &&& self.durable() == apply_ops(before.durable(), before.waiting())
                &&& self.waiting() == Seq::<IndexOp>::empty()
                &&& self.state().recovery_log == before.state().last_pending_id
            },
            before.state().pending_count > 0 && self.state().pending_count > 0 ==> {
                &&& self.broken()
                &&& self.kept(before)
            },
            before.state().pending_count == 0 ==> {
                &&& self.state() == before.state()
                &&& self.durable() == before.durable()
                &&& self.waiting() == before.waiting()
                &&& self.broken() == before.broken()
            },
    {
        let done = choose|done: Result<(), Error>| #[trigger] self.flush_outcome(before, done);
        assert(self.flush_outcome(before, done));
    }

    /// Index durability across a restart. Let an index be in step with the
    /// messages of its channel, of which at least one is committed, and
    /// let the process end without warning. Let `missed` be what
    /// [`messages_after`] gives for the messages of the channel and the
    /// identifier in the recovery log, `opened` an index opened on the
    /// last commit with that log, and `self` the index set up from it.
    /// Then searches see a document for every message of the channel, and
    /// nothing is pending.
    pub proof fn lemma_restart_recovers(
        &self,
        ended: &MessageIndex,
        opened: &MessageIndex,
        history: Seq<Message>,
        committed: int,
        missed: Seq<Message>,
    )
        requires
            ended.tracks(history, committed),
            committed > 0,
            distinct_ids(history),
            ended.state().recovery_log is Some,
            rest_after(history, ended.state().recovery_log->0, missed),
            opened.fresh(ended.threshold(), ended.state().recovery_log),
            opened.durable() == ended.durable(),
            self.caught_up(opened, ended.state().recovery_log, missed),
        ensures
            forall|i: int|
                0 <= i < history.len() ==> self.searchable().contains(
                    message_doc(#[trigger] &history[i]),
                ),
            self.state().pending_count == 0,
            self.state().recovery_log == Some(history.last().id) || self.state().recovery_log
                == ended.state().recovery_log,
            self.tracks(history, history.len() as int),
    {
        let id = ended.state().recovery_log->0;
        let logged = choose|j: int|
            0 <= j < history.len() && (#[trigger] history[j]).id == id && (j < committed || (
            committed == 0 && j == 0));
        assert(first_with_id(history, logged, id)) by {
            assert forall|i: int| 0 <= i < logged implies (#[trigger] history[i]).id != id by {
                assert(history[i].id != history[logged].id);
            }
        }
        ended.lemma_durability(opened, self, history, committed, logged);
    }
}

/// Index durability, with the search. Let an index be in step with the
/// messages of its channel, of which at least one is committed, and let
/// the process end without warning. Let the index be set up again from
/// the last commit and what [`messages_after`] gives for the recovery
/// log, and let a search in it succeed. Let the query match every message
/// of the channel, and let fewer documents match than the search asks
/// for. Then the search hands out the identifier of every message.
pub proof fn lemma_search_after_restart(
    ended: &MessageIndex,
    opened: &MessageIndex,
    recovered: &MessageIndex,
    history: Seq<Message>,
    committed: int,
    missed: Seq<Message>,
    query: Seq<char>,
    limit: usize,
    ids: Vec<ID>,
)
    requires
        ended.tracks(history, committed),
        committed > 0,
        distinct_ids(history),
        ended.state().recovery_log is Some,
        rest_after(history, ended.state().recovery_log->0, missed),
        opened.fresh(ended.threshold(), ended.state().recovery_log),
        opened.durable() == ended.durable(),
        recovered.caught_up(opened, ended.state().recovery_log, missed),
        recovered.find_outcome(query, limit, Ok(ids)),
        forall|i: int| 0 <= i < history.len() ==> matches_message(query, #[trigger] &history[i]),
        fewer_match(query, limit),
    ensures
        forall|i: int| 0 <= i < history.len() ==> ids@.contains((#[trigger] history[i]).id),
{
    recovered.lemma_restart_recovers(ended, opened, history, committed, missed);
    assert forall|i: int| 0 <= i < history.len() implies ids@.contains(
        (#[trigger] history[i]).id,
    ) by {
        assert(recovered.searchable().contains(message_doc(&history[i])));
        lemma_search_finds(recovered, &history[i], query, limit, ids);
    }
}

/// Whether the messages have identifiers that can be encoded, no two of
/// them the same.
pub open spec fn distinct_ids(messages: Seq<Message>) -> bool {
    &&& forall|i: int| 0 <= i < messages.len() ==> encodable(#[trigger] &messages[i])
    &&& forall|i: int, j: int|
        0 <= i < j < messages.len() ==> (#[trigger] messages[i]).id != (#[trigger] messages[j]).id
}

/// Index durability, as far as the index goes: let `history` be the
/// messages of a channel in the order of the store, the first `logged` of
/// them those up to the one that the recovery log names, and let the last
/// commit hold a document for each of these. Then once the messages after
/// them are replayed, the commit holds a document for every message of the
/// channel, and exactly one for each message replayed.
pub proof fn lemma_replay_completes(
    durable: Multiset<IndexedDoc>,
    history: Seq<Message>,
    logged: int,
)
    requires
        0 <= logged <= history.len(),
        distinct_ids(history),
        forall|i: int| 0 <= i < logged ==> durable.contains(message_doc(#[trigger] &history[i])),
    ensures
        forall|i: int|
            0 <= i < history.len() ==> apply_ops(
                durable,
                replay_ops(history.subrange(logged, history.len() as int)),
            ).contains(message_doc(#[trigger] &history[i])),
        forall|i: int|
            logged <= i < history.len() ==> apply_ops(
                durable,
                replay_ops(history.subrange(logged, history.len() as int)),
            ).count(message_doc(#[trigger] &history[i])) == 1,
    decreases history.len() - logged,
{
    broadcast use vstd::multiset::group_multiset_axioms;

    let n = history.len() as int;
    let missed = history.subrange(logged, n);
    if logged < n {
        let shorter = history.subrange(0, n - 1);
        let last = history[n - 1];
        assert(distinct_ids(shorter)) by {
            assert forall|i: int, j: int| 0 <= i < j < shorter.len() implies (
            #[trigger] shorter[i]).id != (#[trigger] shorter[j]).id by {
                assert(shorter[i] == history[i] && shorter[j] == history[j]);
            }
            assert forall|i: int| 0 <= i < shorter.len() implies encodable(
                #[trigger] &shorter[i],
            ) by {
                assert(shorter[i] == history[i]);
            }
        }
        assert forall|i: int| 0 <= i < logged implies durable.contains(
            message_doc(#[trigger] &shorter[i]),
        ) by {
            assert(shorter[i] == history[i]);
        }
        lemma_replay_completes(durable, shorter, logged);
        assert(shorter.subrange(logged, n - 1) == missed.drop_last());
        assert(missed.last() == last);
        let earlier = apply_ops(durable, replay_ops(missed.drop_last()));
        let key = encoded_id(last.id)->0;
        let ops = replay_ops(missed);
        assert(ops == replay_ops(missed.drop_last()).push(IndexOp::Delete(key)).push(
            IndexOp::Add(message_doc(&last)),
        ));
        let ops_delete = replay_ops(missed.drop_last()).push(IndexOp::Delete(key));
        assert(ops.drop_last() == ops_delete);
        assert(ops_delete.drop_last() == replay_ops(missed.drop_last()));
        let cleared = without_id(earlier, key);
        assert(apply_ops(durable, ops_delete) == cleared);
        let after = cleared.insert(message_doc(&last));
        assert(apply_ops(durable, ops) == after);
        assert(cleared.count(message_doc(&last)) == 0);
        assert forall|i: int| 0 <= i < n implies after.contains(message_doc(#[trigger] &history[i]))
            && (logged <= i ==> after.count(message_doc(&history[i])) == 1) by {
            if i < n - 1 {
                assert(shorter[i] == history[i]);
                let doc = message_doc(&history[i]);
                assert(history[i].id != history[n - 1].id);
                lemma_id_encoding_distinct(history[i].id, history[n - 1].id);
                assert(encodable(&history[i]) && encodable(&history[n - 1]));
                assert(doc.id != key);
                assert(cleared.count(doc) == earlier.count(doc));
                assert(doc != message_doc(&last));
            }
        }
    } else {
        assert(missed == Seq::<Message>::empty());
    }
}

/// Not more identifiers are read than documents were found.
pub proof fn lemma_decoded_len(stored: Seq<Option<Seq<u8>>>)
    ensures
        decoded_ids(stored).len() <= stored.len(),
    decreases stored.len(),
{
    if stored.len() > 0 {
        lemma_decoded_len(stored.drop_last());
    }
}

} // verus!
