use tolstoy::client::{RemoteClient, RemoteHeadClient, RemoteTransactionClient};
use tolstoy::codec::{SerializedHead, SerializedTransaction};
use tolstoy::ids::Identifier;

fn test_remote_client(uri: &str, user_id: &str) -> RemoteClient {
    RemoteClient::new(uri.into(), user_id.into())
}

#[test]
fn test_remote_client_bound_uri() {
    let remote_client = test_remote_client("https://example.com/api", "test-user");
    assert_eq!("https://example.com/api/0.1/test-user", remote_client.bound_base_uri());
}

#[test]
fn test_remote_client_serialize_head() {
    let remote_client = test_remote_client("https://example.com/api", "test-user");
    let remote_head_client = RemoteHeadClient::new(remote_client);
    let head = SerializedHead {
        head: Identifier::nil(),
    };
    assert_eq!(
        r#"{"head":"00000000-0000-0000-0000-000000000000"}"#,
        remote_head_client.serialize_head(&head)
    );
}

#[test]
fn test_remote_client_serialize_transaction() {
    let remote_client = test_remote_client("https://example.com/api", "test-user");
    let remote_transactions_client = RemoteTransactionClient::new(remote_client);
    let transaction = SerializedTransaction {
        parent: Identifier::nil(),
        chunks: vec![Identifier::nil(), Identifier::nil()],
    };
    assert_eq!(
        r#"{"parent":"00000000-0000-0000-0000-000000000000","chunks":["00000000-0000-0000-0000-000000000000","00000000-0000-0000-0000-000000000000"]}"#,
        remote_transactions_client.serialize_transaction(&transaction)
    );
}

#[test]
fn it_works() {
}

#[test]
fn bound_uri_keeps_base_verbatim() {
    let remote_client = test_remote_client("http://127.0.0.1:3030", "u1");
    assert_eq!("http://127.0.0.1:3030/0.1/u1", remote_client.bound_base_uri());
}

#[test]
fn hyphenated_parse_inverts_rendering() {
    let cases: Vec<(u64, u64)> = vec![(0, 0), (3, 4), (u64::MAX, 1)];
    for (hi, lo) in cases {
        let id = Identifier::new(hi, lo);
        assert_eq!(Some(id), Identifier::from_hyphenated(&id.to_hyphenated()));
    }
    assert_eq!(None, Identifier::from_hyphenated(""));
    assert_eq!(None, Identifier::from_hyphenated("00000000-0000-0000-0000-00000000000"));
    assert_eq!(None, Identifier::from_hyphenated("00000000x0000-0000-0000-000000000000"));
    assert_eq!(None, Identifier::from_hyphenated("00000000-0000-0000-0000-00000000000G"));
}

#[test]
fn hyphenated_rendering_matches_uuid_crate() {
    let cases: Vec<(u64, u64)> = vec![
        (0, 0),
        (1, 2),
        (0x0123456789abcdef, 0xfedcba9876543210),
        (u64::MAX, u64::MAX),
        (0x00000000000000ff, 0xff00000000000000),
    ];
    for (hi, lo) in cases {
        let ours = Identifier::new(hi, lo).to_hyphenated();
        let theirs = uuid::Uuid::from_u64_pair(hi, lo).hyphenated().to_string();
        assert_eq!(ours, theirs);
    }
}
