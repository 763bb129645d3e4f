use tolstoy::codec::{
    decode_head, decode_transaction, serialize_head, serialize_transaction, SerializedHead,
    SerializedTransaction,
};
use tolstoy::ids::Identifier;

#[test]
fn head_nil_encodes_exactly() {
    let s = serialize_head(&SerializedHead { head: Identifier::nil() });
    assert_eq!(r#"{"head":"00000000-0000-0000-0000-000000000000"}"#, s);
}

#[test]
fn head_nil_decodes_back() {
    let s = serialize_head(&SerializedHead { head: Identifier::nil() });
    let id = decode_head(&s).expect("canonical head record must decode");
    assert_eq!(Identifier::nil(), id);
}

#[test]
fn head_round_trip_arbitrary() {
    let ids = vec![
        Identifier::new(1, 2),
        Identifier::new(u64::MAX, 0),
        Identifier::new(0x0123456789abcdef, 0xfedcba9876543210),
    ];
    for id in ids {
        let s = serialize_head(&SerializedHead { head: id });
        assert_eq!(Some(id), decode_head(&s));
    }
}

#[test]
fn head_decode_rejects_malformed() {
    assert_eq!(None, decode_head(""));
    assert_eq!(None, decode_head(r#"{"head":"00000000-0000-0000-0000-00000000000"}"#));
    assert_eq!(None, decode_head(r#"{"head":"0000000000000-0000-0000-000000000000"}"#));
    assert_eq!(None, decode_head(r#"{"Head":"00000000-0000-0000-0000-000000000000"}"#));
    assert_eq!(None, decode_head(r#"{"head":"0000000G-0000-0000-0000-000000000000"}"#));
    // uppercase hexadecimal is not the canonical form
    assert_eq!(None, decode_head(r#"{"head":"0000000A-0000-0000-0000-000000000000"}"#));
    assert_eq!(None, decode_head(r#"{"head":"00000000-0000-0000-0000-000000000000"}x"#));
}

#[test]
fn transaction_nil_pair_encodes_exactly() {
    let t = SerializedTransaction {
        parent: Identifier::nil(),
        chunks: vec![Identifier::nil(), Identifier::nil()],
    };
    assert_eq!(
        r#"{"parent":"00000000-0000-0000-0000-000000000000","chunks":["00000000-0000-0000-0000-000000000000","00000000-0000-0000-0000-000000000000"]}"#,
        serialize_transaction(&t)
    );
}

#[test]
fn transaction_round_trip_empty_chunks() {
    let t = SerializedTransaction { parent: Identifier::new(7, 9), chunks: vec![] };
    let s = serialize_transaction(&t);
    assert_eq!(r#"{"parent":"00000000-0000-0007-0000-000000000009","chunks":[]}"#, s);
    let back = decode_transaction(&s).expect("canonical transaction record must decode");
    assert_eq!(t.parent, back.parent);
    assert_eq!(t.chunks, back.chunks);
}

#[test]
fn transaction_round_trip_many_chunks() {
    let cases: Vec<Vec<Identifier>> = vec![
        vec![Identifier::nil()],
        vec![Identifier::new(1, 1), Identifier::new(2, 2)],
        vec![
            Identifier::new(u64::MAX, u64::MAX),
            Identifier::new(0, 1),
            Identifier::new(0xdeadbeef, 0xcafe),
        ],
    ];
    for chunks in cases {
        let t = SerializedTransaction { parent: Identifier::new(3, 4), chunks };
        let s = serialize_transaction(&t);
        let back = decode_transaction(&s).expect("canonical transaction record must decode");
        assert_eq!(t.parent, back.parent);
        assert_eq!(t.chunks, back.chunks);
    }
}

#[test]
fn transaction_decode_rejects_malformed() {
    assert!(decode_transaction("").is_none());
    // truncated before the chunk list closes
    assert!(
        decode_transaction(r#"{"parent":"00000000-0000-0000-0000-000000000000","chunks":["#)
            .is_none()
    );
    // trailing comma in the chunk list
    assert!(
        decode_transaction(
            r#"{"parent":"00000000-0000-0000-0000-000000000000","chunks":["00000000-0000-0000-0000-000000000000",]}"#
        )
        .is_none()
    );
    // whitespace is not canonical
    assert!(
        decode_transaction(r#"{"parent": "00000000-0000-0000-0000-000000000000","chunks":[]}"#)
            .is_none()
    );
    // trailing garbage
    assert!(
        decode_transaction(r#"{"parent":"00000000-0000-0000-0000-000000000000","chunks":[]} "#)
            .is_none()
    );
}

#[test]
fn encodings_are_wellformed_json_with_expected_fields() {
    let head = serialize_head(&SerializedHead { head: Identifier::new(5, 6) });
    let v: serde_json::Value = serde_json::from_str(&head).expect("head record must be JSON");
    assert_eq!(
        Some("00000000-0000-0005-0000-000000000006"),
        v.get("head").and_then(|h| h.as_str())
    );

    let t = SerializedTransaction {
        parent: Identifier::new(5, 6),
        chunks: vec![Identifier::new(7, 8), Identifier::nil()],
    };
    let s = serialize_transaction(&t);
    let v: serde_json::Value = serde_json::from_str(&s).expect("transaction record must be JSON");
    assert_eq!(
        Some("00000000-0000-0005-0000-000000000006"),
        v.get("parent").and_then(|p| p.as_str())
    );
    let chunks = v.get("chunks").and_then(|c| c.as_array()).expect("chunks must be a list");
    assert_eq!(2, chunks.len());
    assert_eq!(Some("00000000-0000-0007-0000-000000000008"), chunks[0].as_str());
    assert_eq!(Some("00000000-0000-0000-0000-000000000000"), chunks[1].as_str());
}
