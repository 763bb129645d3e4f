//! The ordering discipline of a publish sequence.
//!
//! A publish sequence advances a namespace's head to a new transaction.  Its
//! steps are strictly ordered: every chunk first, then the transaction
//! record, then the head pointer, stopping at the first failure.  The head
//! is therefore never moved to a transaction whose record or chunks are not
//! durably stored, and a failed sequence leaves the head untouched.  The
//! contract of `publish_sequence` states this over the transport's ghost
//! history: what it issues is a prefix of the planned request list, every
//! issued request except possibly the last received its expected status,
//! and the head request is the last of the plan.

use vstd::prelude::*;
use crate::client::{
    build_chunk_request, build_head_request, build_transaction_request, chunk_uri, head_uri,
    transaction_uri, RemoteClient, STATUS_CREATED, STATUS_NO_CONTENT,
};
use crate::codec::{head_json, txn_json};
use crate::ids::Identifier;
use crate::transport::{check_status, PutOutcome, RequestView, SyncError, Transport};

verus! {

/// The next operation of a publish sequence.
#[derive(Clone, Copy, PartialEq, Eq, Structural, Debug)]
pub enum SyncStep {
    /// Publish the chunk with this index.
    PublishChunk(usize),
    /// Publish the transaction record.
    PublishTransaction,
    /// Advance the head pointer.
    PublishHead,
    /// Nothing is left to do.
    Complete,
}

/// Decides the next step of a publish sequence from what has been confirmed
/// so far.  The ordering invariant is stated here once and for all: the head
/// step is taken only when every chunk and the transaction record are
/// confirmed, and the transaction step only when every chunk is confirmed.
/// In particular, if the transaction publish has not succeeded, the head is
/// never published.
pub fn next_step(
    chunks_confirmed: usize,
    total_chunks: usize,
    transaction_confirmed: bool,
    head_confirmed: bool,
) -> (s: SyncStep)
    requires
        chunks_confirmed <= total_chunks,
    ensures
        s == SyncStep::PublishHead <==> (!head_confirmed && transaction_confirmed
            && chunks_confirmed == total_chunks),
        s == SyncStep::PublishTransaction <==> (!head_confirmed && !transaction_confirmed
            && chunks_confirmed == total_chunks),
        s matches SyncStep::PublishChunk(i) ==> (!head_confirmed && i == chunks_confirmed
            && chunks_confirmed < total_chunks),
        (!head_confirmed && chunks_confirmed < total_chunks) ==> s == SyncStep::PublishChunk(
            chunks_confirmed,
        ),
        s == SyncStep::Complete <==> head_confirmed,
{
    if head_confirmed {
        SyncStep::Complete
    } else if chunks_confirmed < total_chunks {
        SyncStep::PublishChunk(chunks_confirmed)
    } else if !transaction_confirmed {
        SyncStep::PublishTransaction
    } else {
        SyncStep::PublishHead
    }
}

/// The identifiers of a chunk list, in the caller's order.
pub open spec fn chunk_ids(chunks: Seq<(Identifier, String)>) -> Seq<Identifier> {
    chunks.map_values(|p: (Identifier, String)| p.0)
}

/// The requests a publish sequence issues when nothing fails, in order:
/// one PUT per chunk in the caller's order, then the transaction record,
/// then the head.
pub open spec fn planned_requests(
    client: RemoteClient,
    txn: Identifier,
    parent: Identifier,
    chunks: Seq<(Identifier, String)>,
    content_type: Seq<char>,
) -> Seq<RequestView> {
    Seq::new(
        chunks.len(),
        |k: int|
            (
                chunk_uri(client.base_uri@, client.user_id@, chunks[k].0),
                chunks[k].1@,
                content_type,
                STATUS_CREATED,
            ),
    ).push(
        (
            transaction_uri(client.base_uri@, client.user_id@, txn),
            txn_json(parent, chunk_ids(chunks)),
            "application/json"@,
            STATUS_CREATED,
        ),
    ).push(
        (
            head_uri(client.base_uri@, client.user_id@),
            head_json(txn),
            "application/json"@,
            STATUS_NO_CONTENT,
        ),
    )
}

/// `planned_requests`, entry by entry.
proof fn lemma_planned_requests(
    client: RemoteClient,
    txn: Identifier,
    parent: Identifier,
    chunks: Seq<(Identifier, String)>,
    content_type: Seq<char>,
)
    ensures
        ({
            let plan = planned_requests(client, txn, parent, chunks, content_type);
            &&& plan.len() == chunks.len() + 2
            &&& (forall|k: int|
                0 <= k < chunks.len() ==> #[trigger] plan[k] == (
                    chunk_uri(client.base_uri@, client.user_id@, chunks[k].0),
                    chunks[k].1@,
                    content_type,
                    STATUS_CREATED,
                ))
            &&& plan[chunks.len() as int] == (
                transaction_uri(client.base_uri@, client.user_id@, txn),
                txn_json(parent, chunk_ids(chunks)),
                "application/json"@,
                STATUS_CREATED,
            )
            &&& plan[chunks.len() as int + 1] == (
                head_uri(client.base_uri@, client.user_id@),
                head_json(txn),
                "application/json"@,
                STATUS_NO_CONTENT,
            )
        }),
{
}

/// Runs one whole publish sequence over a transport: every chunk in the
/// caller-supplied order (each with `content_type`), then the transaction
/// record `{parent, chunks}` under `txn`, then the head.  Stops at the first
/// failure and returns its error.
///
/// The contract pins what reaches the transport: the requests issued are a
/// prefix of `planned_requests`, every issued request except possibly the
/// last was answered with its expected status, and the call succeeds exactly
/// when the whole plan was issued and the last answer was the expected one.
/// Since the head request is the last of the plan, a failed transaction
/// publish means the head request is never issued and the remote head stays
/// unchanged.
pub fn publish_sequence<T: Transport>(
    client: &RemoteClient,
    transport: &mut T,
    txn: Identifier,
    parent: Identifier,
    chunks: &Vec<(Identifier, String)>,
    content_type: &String,
) -> (r: Result<(), SyncError>)
    ensures
        ({
            let plan = planned_requests(*client, txn, parent, chunks@, content_type@);
            let before = old(transport).history();
            let now = final(transport).history();
            let sent = now.skip(before.len() as int);
            &&& now.len() >= before.len()
            &&& now.take(before.len() as int) == before
            &&& sent.len() <= plan.len()
            &&& (forall|k: int| 0 <= k < sent.len() ==> (#[trigger] sent[k]).0 == plan[k])
            &&& (forall|k: int|
                0 <= k < sent.len() - 1 ==> (#[trigger] sent[k]).1 == PutOutcome::Delivered(
                    plan[k].3,
                ))
            &&& (r is Ok <==> (sent.len() == plan.len() && sent.last().1 == PutOutcome::Delivered(
                plan.last().3,
            )))
        }),
        !(r == Err::<(), SyncError>(SyncError::SerializationError)),
{
    let total = chunks.len();
    let ghost plan = planned_requests(*client, txn, parent, chunks@, content_type@);
    let ghost before = old(transport).history();
    proof {
        lemma_planned_requests(*client, txn, parent, chunks@, content_type@);
        assert(transport.history().take(before.len() as int) =~= before);
    }
    let mut chunks_confirmed: usize = 0;
    let mut transaction_confirmed = false;
    let mut head_confirmed = false;
    #[verifier::loop_isolation(false)]
    loop
        invariant
            chunks_confirmed <= total,
            transaction_confirmed ==> chunks_confirmed == total,
            head_confirmed ==> transaction_confirmed,
            ({
                let pos = chunks_confirmed as int + (if transaction_confirmed {
                    1int
                } else {
                    0int
                }) + (if head_confirmed {
                    1int
                } else {
                    0int
                });
                let now = transport.history();
                &&& now.len() == before.len() + pos
                &&& now.take(before.len() as int) == before
                &&& (forall|k: int|
                    0 <= k < pos ==> (#[trigger] now[before.len() + k]).0 == plan[k] && now[
                        before.len() + k
                    ].1 == PutOutcome::Delivered(plan[k].3))
            }),
        decreases
                (if head_confirmed { 0int } else { 1int }),
                (if transaction_confirmed { 0int } else { 1int }),
                total - chunks_confirmed,
    {
        let ghost pos = chunks_confirmed as int + (if transaction_confirmed {
            1int
        } else {
            0int
        }) + (if head_confirmed {
            1int
        } else {
            0int
        });
        match next_step(chunks_confirmed, total, transaction_confirmed, head_confirmed) {
            SyncStep::Complete => {
                proof {
                    lemma_sent_entries(transport.history(), before, pos);
                }
                return Ok(());
            },
            SyncStep::PublishChunk(i) => {
                let req = build_chunk_request(client, chunks[i].0, &chunks[i].1, content_type);
                let ghost prev = transport.history();
                let outcome = transport.put(&req);
                proof {
                    lemma_one_more(transport.history(), prev, before, plan, pos, req@, outcome);
                }
                match check_status(STATUS_CREATED, outcome) {
                    Ok(()) => {
                        chunks_confirmed = chunks_confirmed + 1;
                    },
                    Err(e) => {
                        proof {
                            lemma_sent_entries(transport.history(), before, pos + 1);
                        }
                        return Err(e);
                    },
                }
            },
            SyncStep::PublishTransaction => {
                let mut ids: Vec<Identifier> = Vec::new();
                let mut i: usize = 0;
                while i < total
                    invariant
                        i <= total,
                        total == chunks@.len(),
                        ids@.len() == i,
                        forall|k: int| 0 <= k < i ==> ids@[k] == chunks@[k].0,
                    decreases total - i,
                {
                    ids.push(chunks[i].0);
                    i += 1;
                }
                proof {
                    assert(ids@ =~= chunk_ids(chunks@));
                }
                let req = build_transaction_request(client, txn, parent, ids);
                let ghost prev = transport.history();
                let outcome = transport.put(&req);
                proof {
                    lemma_one_more(transport.history(), prev, before, plan, pos, req@, outcome);
                }
                match check_status(STATUS_CREATED, outcome) {
                    Ok(()) => {
                        transaction_confirmed = true;
                    },
                    Err(e) => {
                        proof {
                            lemma_sent_entries(transport.history(), before, pos + 1);
                        }
                        return Err(e);
                    },
                }
            },
            SyncStep::PublishHead => {
                let req = build_head_request(client, txn);
                let ghost prev = transport.history();
                let outcome = transport.put(&req);
                proof {
                    lemma_one_more(transport.history(), prev, before, plan, pos, req@, outcome);
                }
                match check_status(STATUS_NO_CONTENT, outcome) {
                    Ok(()) => {
                        head_confirmed = true;
                    },
                    Err(e) => {
                        proof {
                            lemma_sent_entries(transport.history(), before, pos + 1);
                        }
                        return Err(e);
                    },
                }
            },
        }
    }
}

/// One `put` later: the preserved prefix carries over, the older entries
/// are untouched, and the new entry is the request just issued.
proof fn lemma_one_more(
    now: Seq<(RequestView, PutOutcome)>,
    prev: Seq<(RequestView, PutOutcome)>,
    before: Seq<(RequestView, PutOutcome)>,
    plan: Seq<RequestView>,
    pos: int,
    req: RequestView,
    outcome: PutOutcome,
)
    requires
        0 <= pos,
        prev.len() == before.len() + pos,
        prev.take(before.len() as int) == before,
        forall|k: int|
            0 <= k < pos ==> (#[trigger] prev[before.len() + k]).0 == plan[k] && prev[before.len()
                + k].1 == PutOutcome::Delivered(plan[k].3),
        now == prev.push((req, outcome)),
        0 <= pos < plan.len(),
        req == plan[pos],
    ensures
        now.len() == before.len() + pos + 1,
        now.take(before.len() as int) == before,
        forall|k: int|
            0 <= k < pos ==> (#[trigger] now[before.len() + k]).0 == plan[k] && now[before.len()
                + k].1 == PutOutcome::Delivered(plan[k].3),
        (now[before.len() + pos]).0 == plan[pos],
        (now[before.len() + pos]).1 == outcome,
{
    assert(now.take(before.len() as int) =~= before);
    assert forall|k: int|
        0 <= k < pos implies (#[trigger] now[before.len() + k]).0 == plan[k] && now[before.len()
        + k].1 == PutOutcome::Delivered(plan[k].3) by {
        assert(now[before.len() + k] == prev[before.len() + k]);
    }
}

/// The issued suffix of the history, entry by entry.
proof fn lemma_sent_entries(
    now: Seq<(RequestView, PutOutcome)>,
    before: Seq<(RequestView, PutOutcome)>,
    pos: int,
)
    requires
        0 <= pos,
        now.len() == before.len() + pos,
    ensures
        now.skip(before.len() as int).len() == pos,
        forall|k: int|
            0 <= k < pos ==> #[trigger] now.skip(before.len() as int)[k] == now[before.len() + k],
{
}

} // verus!
