//! Namespace resolution and the three publishers.
//!
//! A `RemoteClient` holds the immutable namespace configuration: the base
//! endpoint and the user identifier.  Every entity lives under the versioned,
//! user-scoped root URI `base/{version}/{user}`.  The three publishers build
//! one PUT request each — chunk, transaction, head — hand it to a transport,
//! and classify the outcome.

use vstd::prelude::*;
use vstd::string::StringExecFns;
use crate::codec::{
    head_json, serialize_head, serialize_transaction, txn_json, SerializedHead,
    SerializedTransaction,
};
use crate::ids::{append_uuid, uuid_chars, Identifier};
use crate::transport::{check_status, PutOutcome, PutRequest, SyncError, Transport};

verus! {

/// The protocol version that scopes every namespace.
pub open spec fn api_version() -> Seq<char> {
    "0.1"@
}

/// The success status of a chunk or transaction PUT ("Created").
pub const STATUS_CREATED: u16 = 201;

/// The success status of a head PUT ("No Content").
pub const STATUS_NO_CONTENT: u16 = 204;

/// The versioned, user-scoped root URI: `base/{version}/{user}`.
pub open spec fn namespace_chars(base: Seq<char>, user: Seq<char>) -> Seq<char> {
    base + "/"@ + api_version() + "/"@ + user
}

/// The target URI of a head PUT.
pub open spec fn head_uri(base: Seq<char>, user: Seq<char>) -> Seq<char> {
    namespace_chars(base, user) + "/head"@
}

/// The target URI of a transaction PUT.
pub open spec fn transaction_uri(base: Seq<char>, user: Seq<char>, txn: Identifier) -> Seq<char> {
    namespace_chars(base, user) + "/transactions/"@ + uuid_chars(txn)
}

/// The target URI of a chunk PUT.
pub open spec fn chunk_uri(base: Seq<char>, user: Seq<char>, chunk: Identifier) -> Seq<char> {
    namespace_chars(base, user) + "/chunks/"@ + uuid_chars(chunk)
}

/// The namespace configuration: base endpoint and user identifier.  The
/// base endpoint is not validated here; a malformed one surfaces at the
/// transport.
pub struct RemoteClient {
    pub base_uri: String,
    pub user_id: String,
}

impl RemoteClient {
    pub fn new(base_uri: String, user_id: String) -> (r: RemoteClient)
        ensures
            r.base_uri@ == base_uri@,
            r.user_id@ == user_id@,
    {
        RemoteClient { base_uri, user_id }
    }

    /// Resolves the namespace root URI.  Pure: the result is a function of
    /// the configuration alone.
    pub fn bound_base_uri(&self) -> (r: String)
        ensures
            r@ == namespace_chars(self.base_uri@, self.user_id@),
    {
        let mut s = self.base_uri.clone();
        s.append("/");
        s.append("0.1");
        s.append("/");
        s.append(self.user_id.as_str());
        s
    }
}

/// Builds the head PUT: `{namespace}/head`, the encoded head record as a
/// JSON body, and "No Content" as the expected status.
pub fn build_head_request(client: &RemoteClient, txn: Identifier) -> (r: PutRequest)
    ensures
        r.uri@ == head_uri(client.base_uri@, client.user_id@),
        r.body@ == head_json(txn),
        r.content_type@ == "application/json"@,
        r.expected == STATUS_NO_CONTENT,
{
    let mut uri = client.bound_base_uri();
    uri.append("/head");
    let body = serialize_head(&SerializedHead { head: txn });
    PutRequest { uri, body, content_type: String::from_str("application/json"), expected: STATUS_NO_CONTENT }
}

/// Builds the transaction PUT: `{namespace}/transactions/{txn}`, the encoded
/// record `{parent, chunks}`, and "Created" as the expected status.
pub fn build_transaction_request(
    client: &RemoteClient,
    txn: Identifier,
    parent: Identifier,
    chunks: Vec<Identifier>,
) -> (r: PutRequest)
    ensures
        r.uri@ == transaction_uri(client.base_uri@, client.user_id@, txn),
        r.body@ == txn_json(parent, chunks@),
        r.content_type@ == "application/json"@,
        r.expected == STATUS_CREATED,
{
    let mut uri = client.bound_base_uri();
    uri.append("/transactions/");
    append_uuid(&mut uri, txn);
    let body = serialize_transaction(&SerializedTransaction { parent, chunks });
    PutRequest { uri, body, content_type: String::from_str("application/json"), expected: STATUS_CREATED }
}

/// Builds the chunk PUT: `{namespace}/chunks/{chunk}`, the opaque payload as
/// the body with the caller-specified content type, and "Created" as the
/// expected status.
pub fn build_chunk_request(
    client: &RemoteClient,
    chunk: Identifier,
    payload: &String,
    content_type: &String,
) -> (r: PutRequest)
    ensures
        r.uri@ == chunk_uri(client.base_uri@, client.user_id@, chunk),
        r.body@ == payload@,
        r.content_type@ == content_type@,
        r.expected == STATUS_CREATED,
{
    let mut uri = client.bound_base_uri();
    uri.append("/chunks/");
    append_uuid(&mut uri, chunk);
    PutRequest { uri, body: payload.clone(), content_type: content_type.clone(), expected: STATUS_CREATED }
}

/// Publishes head records: the sole mutation point of a namespace's pointer.
pub struct RemoteHeadClient {
    pub client: RemoteClient,
}

impl RemoteHeadClient {
    pub fn new(client: RemoteClient) -> (r: RemoteHeadClient)
        ensures
            r.client == client,
    {
        RemoteHeadClient { client }
    }

    /// The canonical encoding of a head record.
    pub fn serialize_head(&self, head: &SerializedHead) -> (r: String)
        ensures
            r@ == head_json(head.head),
    {
        serialize_head(head)
    }

    /// Points the namespace's head at `txn`.  To preserve the ordering
    /// invariant, call this only once the transaction PUT for `txn` has
    /// succeeded.  Hands the transport exactly one request — the head PUT —
    /// and succeeds exactly when the transport delivers the expected
    /// "No Content" status; any other delivered status surfaces as
    /// `UnexpectedStatusError` with that status.
    pub fn put_head<T: Transport>(&self, transport: &mut T, txn: Identifier) -> (r: Result<
        (),
        SyncError,
    >)
        ensures
            final(transport).history().len() == old(transport).history().len() + 1,
            final(transport).history().drop_last() == old(transport).history(),
            final(transport).history().last().0 == (
                head_uri(self.client.base_uri@, self.client.user_id@),
                head_json(txn),
                "application/json"@,
                STATUS_NO_CONTENT,
            ),
            r is Ok <==> final(transport).history().last().1 == PutOutcome::Delivered(
                STATUS_NO_CONTENT,
            ),
            !(r == Err::<(), SyncError>(SyncError::UnexpectedStatusError(STATUS_NO_CONTENT))),
            !(r == Err::<(), SyncError>(SyncError::SerializationError)),
    {
        let req = build_head_request(&self.client, txn);
        let ghost prev = transport.history();
        let outcome = transport.put(&req);
        proof {
            assert(transport.history().drop_last() =~= prev);
        }
        check_status(STATUS_NO_CONTENT, outcome)
    }
}

/// Publishes transaction records.
pub struct RemoteTransactionClient {
    pub client: RemoteClient,
}

impl RemoteTransactionClient {
    pub fn new(client: RemoteClient) -> (r: RemoteTransactionClient)
        ensures
            r.client == client,
    {
        RemoteTransactionClient { client }
    }

    /// The canonical encoding of a transaction record.
    pub fn serialize_transaction(&self, transaction: &SerializedTransaction) -> (r: String)
        ensures
            r@ == txn_json(transaction.parent, transaction.chunks@),
    {
        serialize_transaction(transaction)
    }

    /// Publishes the record `{parent, chunks}` under `txn`.  The caller is
    /// responsible for having published every chunk in `chunks` first.
    /// Hands the transport exactly one request — the encoded record under
    /// the transaction's URI — and succeeds exactly when the transport
    /// delivers the expected "Created" status.
    pub fn put_transaction<T: Transport>(
        &self,
        transport: &mut T,
        txn: Identifier,
        parent: Identifier,
        chunks: Vec<Identifier>,
    ) -> (r: Result<(), SyncError>)
        ensures
            final(transport).history().len() == old(transport).history().len() + 1,
            final(transport).history().drop_last() == old(transport).history(),
            final(transport).history().last().0 == (
                transaction_uri(self.client.base_uri@, self.client.user_id@, txn),
                txn_json(parent, chunks@),
                "application/json"@,
                STATUS_CREATED,
            ),
            r is Ok <==> final(transport).history().last().1 == PutOutcome::Delivered(
                STATUS_CREATED,
            ),
            !(r == Err::<(), SyncError>(SyncError::UnexpectedStatusError(STATUS_CREATED))),
            !(r == Err::<(), SyncError>(SyncError::SerializationError)),
    {
        let req = build_transaction_request(&self.client, txn, parent, chunks);
        let ghost prev = transport.history();
        let outcome = transport.put(&req);
        proof {
            assert(transport.history().drop_last() =~= prev);
        }
        check_status(STATUS_CREATED, outcome)
    }
}

/// Publishes opaque chunk payloads.
pub struct RemoteChunkClient {
    pub client: RemoteClient,
}

impl RemoteChunkClient {
    pub fn new(client: RemoteClient) -> (r: RemoteChunkClient)
        ensures
            r.client == client,
    {
        RemoteChunkClient { client }
    }

    /// Publishes `payload` under `chunk`, with the caller-specified content
    /// type.  Hands the transport exactly one request — the payload under
    /// the chunk's URI — and succeeds exactly when the transport delivers
    /// the expected "Created" status.  The request is a function of the
    /// arguments alone, so a retry with the identical payload hands the
    /// remote the identical request.
    pub fn put_chunk<T: Transport>(
        &self,
        transport: &mut T,
        chunk: Identifier,
        payload: String,
        content_type: String,
    ) -> (r: Result<(), SyncError>)
        ensures
            final(transport).history().len() == old(transport).history().len() + 1,
            final(transport).history().drop_last() == old(transport).history(),
            final(transport).history().last().0 == (
                chunk_uri(self.client.base_uri@, self.client.user_id@, chunk),
                payload@,
                content_type@,
                STATUS_CREATED,
            ),
            r is Ok <==> final(transport).history().last().1 == PutOutcome::Delivered(
                STATUS_CREATED,
            ),
            !(r == Err::<(), SyncError>(SyncError::UnexpectedStatusError(STATUS_CREATED))),
            !(r == Err::<(), SyncError>(SyncError::SerializationError)),
    {
        let req = build_chunk_request(&self.client, chunk, &payload, &content_type);
        let ghost prev = transport.history();
        let outcome = transport.put(&req);
        proof {
            assert(transport.history().drop_last() =~= prev);
        }
        check_status(STATUS_CREATED, outcome)
    }
}

} // verus!
