//! The full-text index of one channel, as the tantivy crate keeps it: what
//! is believed of tantivy, and of bincode for the identifiers stored in it.

use tantivy::schema::Field;
use tantivy::{ReloadPolicy, TantivyError};
use vstd::bytes::spec_u128_to_le_bytes;
use vstd::multiset::Multiset;
use vstd::prelude::*;

verus! {

/// Bytes that the writer of an index may use for its buffers.
pub const WRITER_MEMORY: usize = 50_000_000;

/// Largest number of results that one search is asked for.
pub const MAX_SEARCH_LIMIT: usize = 1_000_000;

/// A message as the index holds it.
pub struct IndexedDoc {
    /// The encoded identifier of the message; stored with the document, and
    /// the key by which it is deleted.
    pub id: Seq<u8>,
    /// The encoded identifier of the sender.
    pub sender: Seq<u8>,
    /// Milliseconds since the Unix epoch at which the message was accepted.
    pub created: i64,
    /// The text, which searches run against.
    pub content: Seq<char>,
}

/// A change that a writer holds until its next commit.
pub enum IndexOp {
    /// Add the document.
    Add(IndexedDoc),
    /// Delete every document added before that has this encoded identifier.
    Delete(Seq<u8>),
}

/// The documents left once those with the encoded identifier `id` are
/// taken out.
pub open spec fn without_id(docs: Multiset<IndexedDoc>, id: Seq<u8>) -> Multiset<IndexedDoc> {
    docs.filter(|doc: IndexedDoc| doc.id != id)
}

/// The documents once one change is made.
pub open spec fn apply_op(docs: Multiset<IndexedDoc>, op: IndexOp) -> Multiset<IndexedDoc> {
    match op {
        IndexOp::Add(doc) => docs.insert(doc),
        IndexOp::Delete(id) => without_id(docs, id),
    }
}

/// The documents once the changes are made, in their order.
pub open spec fn apply_ops(docs: Multiset<IndexedDoc>, ops: Seq<IndexOp>) -> Multiset<IndexedDoc>
    decreases ops.len(),
{
    if ops.len() == 0 {
        docs
    } else {
        apply_op(apply_ops(docs, ops.drop_last()), ops.last())
    }
}

/// An open index of tantivy in a directory on disk: the index, its one
/// writer, a reader that reloads only when told to, and the fields of the
/// schema of messages. Nothing inside it is looked into here; what is
/// believed of it is said over `committed`, `staged`, `visible` and
/// `failed`.
#[verifier::external_body]
pub struct IndexHandle {
    index: tantivy::Index,
    reader: tantivy::IndexReader,
    writer: tantivy::IndexWriter,
    content: tantivy::schema::Field,
    created: tantivy::schema::Field,
    id: tantivy::schema::Field,
    sender: tantivy::schema::Field,
}

#[verifier::external_type_specification]
#[verifier::external_body]
pub struct ExIndex(tantivy::Index);

#[verifier::external_type_specification]
#[verifier::external_body]
pub struct ExSearcher(tantivy::Searcher);

#[verifier::external_type_specification]
#[verifier::external_body]
pub struct ExSchema(tantivy::schema::Schema);

#[verifier::external_type_specification]
#[verifier::external_body]
pub struct ExMmapDirectory(tantivy::directory::MmapDirectory);

#[verifier::external_type_specification]
#[verifier::external_body]
pub struct ExTantivyError(tantivy::TantivyError);

#[verifier::external_type_specification]
#[verifier::external_body]
pub struct ExQueryParserError(tantivy::query::QueryParserError);

#[verifier::external_type_specification]
#[verifier::external_body]
pub struct ExOpenDirectoryError(tantivy::directory::error::OpenDirectoryError);

#[verifier::external_type_specification]
#[verifier::external_body]
pub struct ExBincodeErrorKind(bincode::ErrorKind);

/// The documents of the last commit that the directory holds.
pub uninterp spec fn committed(handle: IndexHandle) -> Multiset<IndexedDoc>;

/// The changes handed to the writer since its last commit, oldest first.
pub uninterp spec fn staged(handle: IndexHandle) -> Seq<IndexOp>;

/// The documents that the reader serves since it was last loaded.
pub uninterp spec fn visible(handle: IndexHandle) -> Multiset<IndexedDoc>;

/// Whether a commit of the writer has failed since the handle was made. A
/// writer whose commit failed may be left without the workers that take
/// its changes in: a later commit may succeed without making them, and
/// once the queue of documents is full, adding one more never returns. So
/// no document is handed to such a writer.
pub uninterp spec fn failed(handle: IndexHandle) -> bool;

/// The documents that a searcher serves, by segment ordinal and number
/// within the segment.
pub uninterp spec fn searcher_docs(searcher: tantivy::Searcher) -> Map<(u32, u32), IndexedDoc>;

/// Whether tantivy's query parser accepts the text as a query on the text
/// of messages.
pub uninterp spec fn query_parses(query: Seq<char>) -> bool;

/// The documents that a search of the query in the searcher gives where it
/// is asked for `limit` of them, by segment ordinal and number within the
/// segment, in the order in which the search gives them.
pub uninterp spec fn top_hits(searcher: tantivy::Searcher, query: Seq<char>, limit: usize) -> Seq<
    (u32, u32),
>;

/// Whether the query, searched in the searcher, matches the document at
/// the address.
pub uninterp spec fn matched(searcher: tantivy::Searcher, query: Seq<char>, address: (u32, u32)) -> bool;

/// The first value stored with the document at the address under the
/// identifier field, where it is there and holds bytes.
pub uninterp spec fn fetched_id(searcher: tantivy::Searcher, address: (u32, u32)) -> Option<Seq<u8>>;

/// Whether `hits` are what the search of the query in the searcher gives
/// for the limit: at most `limit` documents of the searcher that the query
/// matches, none of them twice; and where they are fewer than `limit`, all
/// the documents of the searcher that the query matches.
pub open spec fn found_by(
    searcher: tantivy::Searcher,
    query: Seq<char>,
    limit: usize,
    hits: Seq<(u32, u32)>,
) -> bool {
    &&& hits == top_hits(searcher, query, limit)
    &&& hits.len() <= limit
    &&& hits.no_duplicates()
    &&& forall|i: int|
        0 <= i < hits.len() ==> searcher_docs(searcher).contains_key(#[trigger] hits[i]) && matched(
            searcher,
            query,
            hits[i],
        )
    &&& hits.len() < limit ==> forall|address: (u32, u32)|
        searcher_docs(searcher).contains_key(address) && #[trigger] matched(
            searcher,
            query,
            address,
        ) ==> hits.contains(address)
}

/// Whether the searcher serves the documents: each document of the
/// searcher is one of them, and each of them is at some address of the
/// searcher.
pub open spec fn serves(searcher: tantivy::Searcher, docs: Multiset<IndexedDoc>) -> bool {
    &&& forall|address: (u32, u32)| #[trigger]
        searcher_docs(searcher).contains_key(address) ==> docs.contains(
            searcher_docs(searcher)[address],
        )
    &&& forall|doc: IndexedDoc| #[trigger]
        docs.contains(doc) ==> exists|address: (u32, u32)|
            searcher_docs(searcher).contains_key(address) && #[trigger] searcher_docs(
                searcher,
            )[address] == doc
}

/// The bytes that bincode writes for the UUID of value `id`; none where it
/// fails.
pub uninterp spec fn encoded_id(id: u128) -> Option<Seq<u8>>;

/// How bincode writes a UUID: the count of its bytes, sixteen, as eight
/// bytes, the least significant first; then the sixteen bytes of its value,
/// the most significant first.
pub open spec fn id_encoding(id: u128) -> Seq<u8> {
    seq![16u8, 0u8, 0u8, 0u8, 0u8, 0u8, 0u8, 0u8] + spec_u128_to_le_bytes(id).reverse()
}

/// The value of the UUID that bincode reads from the bytes; none where it
/// fails.
pub uninterp spec fn decoded_id(bytes: Seq<u8>) -> Option<u128>;

/// `bincode::serialize` of the `Uuid` made by `Uuid::from_u128`. What it
/// writes is the count of bytes and the bytes of the value, and can be read
/// back.
#[verifier::external_body]
pub(crate) fn encode_id(id: u128) -> (bytes: Result<Vec<u8>, Box<bincode::ErrorKind>>)
    ensures
        match bytes {
            Ok(bytes) => encoded_id(id) == Some(bytes@) && bytes@ == id_encoding(id) && decoded_id(
                bytes@,
            ) == Some(id),
            Err(_) => encoded_id(id) is None,
        },
{
    bincode::serialize(&uuid::Uuid::from_u128(id))
}

/// `bincode::deserialize` to a `Uuid`, then `Uuid::as_u128`.
#[verifier::external_body]
pub(crate) fn decode_id(bytes: &[u8]) -> (id: Result<u128, Box<bincode::ErrorKind>>)
    ensures
        match id {
            Ok(id) => decoded_id(bytes@) == Some(id),
            Err(_) => decoded_id(bytes@) is None,
        },
{
    let uuid: uuid::Uuid = bincode::deserialize(bytes)?;
    Ok(uuid.as_u128())
}

/// `MmapDirectory::open`. Nothing is claimed of the outcome.
#[verifier::external_body]
pub(crate) fn open_directory(path: &str) -> (directory: Result<
    tantivy::directory::MmapDirectory,
    tantivy::directory::error::OpenDirectoryError,
>) {
    tantivy::directory::MmapDirectory::open(path)
}

/// The schema of messages, built with tantivy's `SchemaBuilder`: the text
/// tokenised, the time as a fast number, the identifier stored and indexed
/// as bytes, the sender indexed as bytes.
#[verifier::external_body]
pub(crate) fn message_schema() -> (schema: tantivy::schema::Schema) {
    let mut builder = tantivy::schema::Schema::builder();
    builder.add_text_field("content", tantivy::schema::TEXT);
    builder.add_i64_field("created", tantivy::schema::FAST);
    builder.add_bytes_field(
        "id",
        tantivy::schema::STORED | tantivy::schema::FAST | tantivy::schema::INDEXED,
    );
    builder.add_bytes_field("sender", tantivy::schema::INDEXED);
    builder.build()
}

/// `Index::open_or_create`. Nothing is claimed of the outcome.
#[verifier::external_body]
pub(crate) fn open_or_create_index(
    directory: tantivy::directory::MmapDirectory,
    schema: tantivy::schema::Schema,
) -> (index: Result<tantivy::Index, tantivy::TantivyError>) {
    tantivy::Index::open_or_create(directory, schema)
}

/// `Index::reader_builder` with the policy to reload only when told to,
/// `Schema::get_field` for the four fields, and `Index::writer` with
/// `memory` bytes for its buffers. The outer
/// error is that of the reader, the inner one that of the fields or the
/// writer. A new writer holds no change and has not failed, and a new
/// reader serves the last commit.
#[verifier::external_body]
pub(crate) fn create_handle(index: tantivy::Index, memory: usize) -> (handle: Result<
    Result<IndexHandle, tantivy::TantivyError>,
    tantivy::TantivyError,
>)
    ensures
        handle matches Ok(Ok(handle)) ==> staged(handle) == Seq::<IndexOp>::empty() && visible(
            handle,
        ) == committed(handle) && !failed(handle),
{
    let reader = index.reader_builder().reload_policy(ReloadPolicy::Manual).try_into()?;
    let schema = index.schema();
    let names = ["content", "created", "id", "sender"];
    let fields: Result<Vec<Field>, TantivyError> = names.iter().map(|name| schema.get_field(name)).collect();
    Ok(index.writer(memory).and_then(|writer| {
        let f = fields?;
        Ok(IndexHandle { index, reader, writer, content: f[0], created: f[1], id: f[2], sender: f[3] })
    }))
}

/// `IndexWriter::add_document` of a document with the four values, for a
/// writer that has not failed: one that has may never return. The writer
/// holds the document until the next commit; where it refuses the
/// document, nothing has changed.
#[verifier::external_body]
pub(crate) fn stage_add(
    handle: &mut IndexHandle,
    id: &Vec<u8>,
    sender: &Vec<u8>,
    created: i64,
    content: &str,
) -> (added: Result<u64, tantivy::TantivyError>)
    requires
        !failed(*old(handle)),
    ensures
        committed(*final(handle)) == committed(*old(handle)),
        visible(*final(handle)) == visible(*old(handle)),
        !failed(*final(handle)),
        staged(*final(handle)) == if added is Ok {
            staged(*old(handle)).push(
                IndexOp::Add(IndexedDoc { id: id@, sender: sender@, created, content: content@ }),
            )
        } else {
            staged(*old(handle))
        },
{
    let mut document = tantivy::TantivyDocument::new();
    document.add_bytes(handle.id, id);
    document.add_bytes(handle.sender, sender);
    document.add_i64(handle.created, created);
    document.add_text(handle.content, content);
    handle.writer.add_document(document)
}

/// `IndexWriter::delete_term` with the term of the identifier field: at the
/// next commit of a writer that has not failed, every document added
/// before that has this identifier goes.
#[verifier::external_body]
pub(crate) fn stage_delete(handle: &mut IndexHandle, id: &Vec<u8>)
    ensures
        committed(*final(handle)) == committed(*old(handle)),
        visible(*final(handle)) == visible(*old(handle)),
        failed(*final(handle)) == failed(*old(handle)),
        !failed(*old(handle)) ==> staged(*final(handle)) == staged(*old(handle)).push(
            IndexOp::Delete(id@),
        ),
{
    handle.writer.delete_term(tantivy::Term::from_field_bytes(handle.id, id));
}

/// `IndexWriter::commit`. Where it succeeds on a writer that has not
/// failed, the changes held are made, in their order, and none is held any
/// more. Where it fails, the directory holds the commit that it held, and
/// the writer has failed from then on. Of the success of a writer that has
/// failed nothing is claimed. The reader serves what it served.
#[verifier::external_body]
pub(crate) fn commit_writer(handle: &mut IndexHandle) -> (done: Result<u64, tantivy::TantivyError>)
    ensures
        visible(*final(handle)) == visible(*old(handle)),
        done is Ok && !failed(*old(handle)) ==> committed(*final(handle)) == apply_ops(
            committed(*old(handle)),
            staged(*old(handle)),
        ) && staged(*final(handle)) == Seq::<IndexOp>::empty(),
        done is Err ==> committed(*final(handle)) == committed(*old(handle)),
        failed(*final(handle)) == (failed(*old(handle)) || done is Err),
{
    handle.writer.commit()
}

/// `IndexReader::reload`. On success the reader serves the last commit; on
/// failure it serves what it served.
#[verifier::external_body]
pub(crate) fn reload_reader(handle: &mut IndexHandle) -> (done: Result<(), tantivy::TantivyError>)
    ensures
        committed(*final(handle)) == committed(*old(handle)),
        staged(*final(handle)) == staged(*old(handle)),
        failed(*final(handle)) == failed(*old(handle)),
        visible(*final(handle)) == if done is Ok {
            committed(*old(handle))
        } else {
            visible(*old(handle))
        },
{
    handle.reader.reload()
}

/// `IndexReader::searcher`: a searcher on what the reader serves. Each of
/// its documents is one that the reader serves, and each document that the
/// reader serves is at some address of it.
#[verifier::external_body]
pub(crate) fn acquire_searcher(handle: &IndexHandle) -> (searcher: tantivy::Searcher)
    ensures
        serves(searcher, visible(*handle)),
{
    handle.reader.searcher()
}

/// `QueryParser::parse_query` on the text field, then `Searcher::search`
/// with `TopDocs` of the limit, by score. The outer error is that of the
/// parser, which accepts a text or not whatever the index holds. What is
/// found is at most `limit` documents of the searcher that the query
/// matches, none of them twice, and all of them where fewer than `limit`
/// match. That the best come first is not said here: the score is a
/// floating-point number.
#[verifier::external_body]
pub(crate) fn search_top(
    handle: &IndexHandle,
    searcher: &tantivy::Searcher,
    query: &str,
    limit: usize,
) -> (found: Result<
    Result<Vec<(u32, u32)>, tantivy::TantivyError>,
    tantivy::query::QueryParserError,
>)
    requires
        0 < limit <= MAX_SEARCH_LIMIT,
    ensures
        found is Ok <==> query_parses(query@),
        found matches Ok(Ok(addresses)) ==> {
            &&& addresses@ == top_hits(*searcher, query@, limit)
            &&& addresses@.len() <= limit
            &&& addresses@.no_duplicates()
            &&& forall|i: int|
                0 <= i < addresses@.len() ==> searcher_docs(*searcher).contains_key(
                    #[trigger] addresses@[i],
                ) && matched(*searcher, query@, addresses@[i])
            &&& addresses@.len() < limit ==> forall|address: (u32, u32)|
                searcher_docs(*searcher).contains_key(address) && #[trigger] matched(
                    *searcher,
                    query@,
                    address,
                ) ==> addresses@.contains(address)
        },
{
    let parser = tantivy::query::QueryParser::for_index(&handle.index, vec![handle.content]);
    let query = parser.parse_query(query)?;
    let top = tantivy::collector::TopDocs::with_limit(limit).order_by_score();
    Ok(
        searcher.search(&query, &top).map(
            |found| found.into_iter().map(|(_, at)| (at.segment_ord, at.doc_id)).collect(),
        ),
    )
}

/// `Searcher::doc`, then the first value of the identifier field as bytes:
/// what is stored with the document at the address, which is the encoded
/// identifier of the document where it is there.
#[verifier::external_body]
pub(crate) fn stored_id(
    handle: &IndexHandle,
    searcher: &tantivy::Searcher,
    address: (u32, u32),
) -> (id: Result<Option<Vec<u8>>, tantivy::TantivyError>)
    requires
        searcher_docs(*searcher).contains_key(address),
    ensures
        id matches Ok(found) ==> match found {
            Some(bytes) => fetched_id(*searcher, address) == Some(bytes@) && bytes@
                == searcher_docs(*searcher)[address].id,
            None => fetched_id(*searcher, address) is None,
        },
{
    let document: tantivy::TantivyDocument = searcher.doc(
        tantivy::DocAddress::new(address.0, address.1),
    )?;
    Ok(
        document.get_first(handle.id).and_then(
            |value| tantivy::schema::Value::as_bytes(&value).map(|bytes| bytes.to_vec()),
        ),
    )
}

} // verus!
