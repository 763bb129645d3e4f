use tolstoy::client::{RemoteChunkClient, RemoteClient, RemoteHeadClient, RemoteTransactionClient};
use tolstoy::ids::Identifier;
use tolstoy::memory::InMemoryRemote;
use tolstoy::protocol::{next_step, publish_sequence, SyncStep};
use tolstoy::transport::{check_status, PutOutcome, ScriptedTransport, SyncError, Transport};

fn client() -> RemoteClient {
    RemoteClient::new("https://example.com/api".into(), "test-user".into())
}

#[test]
fn status_match_is_success() {
    assert_eq!(Ok(()), check_status(201, PutOutcome::Delivered(201)));
    assert_eq!(Ok(()), check_status(204, PutOutcome::Delivered(204)));
}

#[test]
fn status_mismatch_is_unexpected_status_error() {
    assert_eq!(
        Err(SyncError::UnexpectedStatusError(200)),
        check_status(201, PutOutcome::Delivered(200))
    );
    assert_eq!(
        Err(SyncError::UnexpectedStatusError(500)),
        check_status(204, PutOutcome::Delivered(500))
    );
    // "Created" where "No Content" is expected is still a mismatch
    assert_eq!(
        Err(SyncError::UnexpectedStatusError(201)),
        check_status(204, PutOutcome::Delivered(201))
    );
}

#[test]
fn transport_failures_are_typed() {
    assert_eq!(Err(SyncError::TransportError), check_status(201, PutOutcome::NoResponse));
    assert_eq!(Err(SyncError::ConfigurationError), check_status(201, PutOutcome::InvalidTarget));
}

#[test]
fn next_step_orders_the_sequence() {
    assert_eq!(SyncStep::PublishChunk(0), next_step(0, 2, false, false));
    assert_eq!(SyncStep::PublishChunk(1), next_step(1, 2, false, false));
    assert_eq!(SyncStep::PublishTransaction, next_step(2, 2, false, false));
    assert_eq!(SyncStep::PublishHead, next_step(2, 2, true, false));
    assert_eq!(SyncStep::Complete, next_step(2, 2, true, true));
    // no chunks at all: straight to the transaction
    assert_eq!(SyncStep::PublishTransaction, next_step(0, 0, false, false));
}

#[test]
fn failed_transaction_publish_never_touches_the_head() {
    let c = client();
    let mut t = ScriptedTransport::new(vec![
        PutOutcome::Delivered(201),
        PutOutcome::Delivered(500),
    ]);
    let chunks = vec![(Identifier::new(0, 1), String::from("abc"))];
    let r = publish_sequence(&c, &mut t, Identifier::new(0, 9), Identifier::nil(), &chunks, &"application/octet-stream".to_owned());
    assert_eq!(Err(SyncError::UnexpectedStatusError(500)), r);
    assert_eq!(2, t.log.len());
    for req in &t.log {
        assert!(!req.uri.ends_with("/head"));
    }
}

#[test]
fn failed_chunk_publish_stops_the_sequence() {
    let c = client();
    let mut t = ScriptedTransport::new(vec![PutOutcome::NoResponse]);
    let chunks = vec![
        (Identifier::new(0, 1), String::from("abc")),
        (Identifier::new(0, 2), String::from("def")),
    ];
    let r = publish_sequence(&c, &mut t, Identifier::new(0, 9), Identifier::nil(), &chunks, &"application/octet-stream".to_owned());
    assert_eq!(Err(SyncError::TransportError), r);
    assert_eq!(1, t.log.len());
}

#[test]
fn end_to_end_sequence_in_order() {
    let c = client();
    let mut t = ScriptedTransport::new(vec![
        PutOutcome::Delivered(201),
        PutOutcome::Delivered(201),
        PutOutcome::Delivered(201),
        PutOutcome::Delivered(204),
    ]);
    let c1 = Identifier::new(0, 1);
    let c2 = Identifier::new(0, 2);
    let t1 = Identifier::new(0, 9);
    let chunks = vec![(c1, String::from("abc")), (c2, String::from("def"))];
    let r = publish_sequence(&c, &mut t, t1, Identifier::nil(), &chunks, &"application/octet-stream".to_owned());
    assert_eq!(Ok(()), r);
    assert_eq!(4, t.log.len());
    assert_eq!(
        "https://example.com/api/0.1/test-user/chunks/00000000-0000-0000-0000-000000000001",
        t.log[0].uri
    );
    assert_eq!("abc", t.log[0].body);
    assert_eq!("application/octet-stream", t.log[0].content_type);
    assert_eq!(201, t.log[0].expected);
    assert_eq!(
        "https://example.com/api/0.1/test-user/chunks/00000000-0000-0000-0000-000000000002",
        t.log[1].uri
    );
    assert_eq!("def", t.log[1].body);
    assert_eq!(
        "https://example.com/api/0.1/test-user/transactions/00000000-0000-0000-0000-000000000009",
        t.log[2].uri
    );
    assert_eq!(
        r#"{"parent":"00000000-0000-0000-0000-000000000000","chunks":["00000000-0000-0000-0000-000000000001","00000000-0000-0000-0000-000000000002"]}"#,
        t.log[2].body
    );
    assert_eq!("application/json", t.log[2].content_type);
    assert_eq!(201, t.log[2].expected);
    assert_eq!("https://example.com/api/0.1/test-user/head", t.log[3].uri);
    assert_eq!("application/json", t.log[3].content_type);
    assert_eq!(r#"{"head":"00000000-0000-0000-0000-000000000009"}"#, t.log[3].body);
    assert_eq!(204, t.log[3].expected);
}

#[test]
fn republishing_identical_chunk_is_idempotent() {
    let mut remote = InMemoryRemote::new();
    let chunk_client = RemoteChunkClient::new(client());
    let id = Identifier::new(0, 1);
    assert_eq!(Ok(()), chunk_client.put_chunk(&mut remote, id, String::from("abc"), String::from("text/plain")));
    assert_eq!(1, remote.entries.len());
    // the second publish with the identical payload succeeds and is a no-op
    assert_eq!(Ok(()), chunk_client.put_chunk(&mut remote, id, String::from("abc"), String::from("text/plain")));
    assert_eq!(1, remote.entries.len());
    assert_eq!("abc", remote.entries[0].1);
}

#[test]
fn conflicting_chunk_payload_is_refused() {
    let mut remote = InMemoryRemote::new();
    let chunk_client = RemoteChunkClient::new(client());
    let id = Identifier::new(0, 1);
    assert_eq!(Ok(()), chunk_client.put_chunk(&mut remote, id, String::from("abc"), String::from("text/plain")));
    assert_eq!(
        Err(SyncError::UnexpectedStatusError(409)),
        chunk_client.put_chunk(&mut remote, id, String::from("zzz"), String::from("text/plain"))
    );
    // the first payload is not corrupted
    assert_eq!("abc", remote.entries[0].1);
}

#[test]
fn publish_sequence_against_in_memory_remote() {
    let c = client();
    let mut remote = InMemoryRemote::new();
    let chunks = vec![
        (Identifier::new(0, 1), String::from("abc")),
        (Identifier::new(0, 2), String::from("def")),
    ];
    let t1 = Identifier::new(0, 9);
    assert_eq!(Ok(()), publish_sequence(&c, &mut remote, t1, Identifier::nil(), &chunks, &"application/octet-stream".to_owned()));
    // two chunks, the transaction record, and the head
    assert_eq!(4, remote.entries.len());
    // retrying the identical sequence is safe
    assert_eq!(Ok(()), publish_sequence(&c, &mut remote, t1, Identifier::nil(), &chunks, &"application/octet-stream".to_owned()));
    assert_eq!(4, remote.entries.len());
}

#[test]
fn individual_publishers_follow_the_same_wire_contract() {
    let mut t = ScriptedTransport::new(vec![
        PutOutcome::Delivered(201),
        PutOutcome::Delivered(201),
        PutOutcome::Delivered(204),
    ]);
    let chunk_client = RemoteChunkClient::new(client());
    let txn_client = RemoteTransactionClient::new(client());
    let head_client = RemoteHeadClient::new(client());
    let c1 = Identifier::new(0, 1);
    let t1 = Identifier::new(0, 9);
    assert_eq!(Ok(()), chunk_client.put_chunk(&mut t, c1, String::from("abc"), String::from("text/plain")));
    assert_eq!(Ok(()), txn_client.put_transaction(&mut t, t1, Identifier::nil(), vec![c1]));
    assert_eq!(Ok(()), head_client.put_head(&mut t, t1));
    assert_eq!(3, t.log.len());
    assert_eq!(
        "https://example.com/api/0.1/test-user/transactions/00000000-0000-0000-0000-000000000009",
        t.log[1].uri
    );
    assert_eq!("https://example.com/api/0.1/test-user/head", t.log[2].uri);
}
