//! Canonical textual encoding of the wire records.
//!
//! Two records cross the wire in textual form: the head record
//! `{"head":"<uuid>"}` and the transaction record
//! `{"parent":"<uuid>","chunks":["<uuid>",...]}`.  Field order is fixed and
//! the encoding has no optional whitespace, so every record has exactly one
//! rendering.  Encoding and decoding are verified inverses.

use vstd::prelude::*;
use vstd::string::{StrSliceExecFns, StringExecFns};
use crate::ids::{
    append_uuid, lemma_uuid_chars, parse_uuid_at, uuid_chars, Identifier,
};

verus! {

/// The head record as it goes on the wire.
pub struct SerializedHead {
    pub head: Identifier,
}

/// The transaction record as it goes on the wire: the parent identifier and
/// the ordered chunk identifiers.
pub struct SerializedTransaction {
    pub parent: Identifier,
    pub chunks: Vec<Identifier>,
}

/// The encoding of a head record.
pub open spec fn head_json(id: Identifier) -> Seq<char> {
    "{\"head\":\""@ + uuid_chars(id) + "\"}"@
}

/// An identifier in double quotes.
pub open spec fn quoted(id: Identifier) -> Seq<char> {
    seq!['"'] + uuid_chars(id) + seq!['"']
}

/// The second and later elements of an encoded chunk list, each preceded by
/// a comma.
pub open spec fn rest_json(c: Seq<Identifier>) -> Seq<char>
    decreases c.len(),
{
    if c.len() == 0 {
        Seq::<char>::empty()
    } else {
        seq![','] + quoted(c[0]) + rest_json(c.skip(1))
    }
}

/// The encoding of a chunk list: quoted identifiers joined by commas.
pub open spec fn chunks_json(c: Seq<Identifier>) -> Seq<char> {
    if c.len() == 0 {
        Seq::<char>::empty()
    } else {
        quoted(c[0]) + rest_json(c.skip(1))
    }
}

/// The encoding of a transaction record.
pub open spec fn txn_json(parent: Identifier, chunks: Seq<Identifier>) -> Seq<char> {
    "{\"parent\":\""@ + uuid_chars(parent) + "\",\"chunks\":["@ + chunks_json(chunks) + "]}"@
}

proof fn lemma_quoted_len(id: Identifier)
    ensures
        quoted(id).len() == 38,
        quoted(id)[0] == '"',
        quoted(id)[37] == '"',
        quoted(id).subrange(1, 37) =~= uuid_chars(id),
{
    lemma_uuid_chars(id);
}

proof fn lemma_rest_json_len(c: Seq<Identifier>)
    ensures
        rest_json(c).len() == 39 * c.len(),
    decreases c.len(),
{
    if c.len() > 0 {
        lemma_rest_json_len(c.skip(1));
        lemma_quoted_len(c[0]);
    }
}

pub proof fn lemma_chunks_json_len(c: Seq<Identifier>)
    ensures
        c.len() == 0 ==> chunks_json(c).len() == 0,
        c.len() > 0 ==> chunks_json(c).len() == 39 * c.len() - 1,
{
    if c.len() > 0 {
        lemma_rest_json_len(c.skip(1));
        lemma_quoted_len(c[0]);
    }
}

proof fn lemma_rest_json_push(c: Seq<Identifier>, x: Identifier)
    ensures
        rest_json(c.push(x)) == rest_json(c) + seq![','] + quoted(x),
    decreases c.len(),
{
    let cx = c.push(x);
    assert(cx.len() == c.len() + 1);
    assert(cx[0] == if c.len() == 0 { x } else { c[0] });
    assert(rest_json(cx) == seq![','] + quoted(cx[0]) + rest_json(cx.skip(1)));
    if c.len() == 0 {
        assert(cx.skip(1) =~= Seq::<Identifier>::empty());
        assert(rest_json(cx.skip(1)) == Seq::<char>::empty());
        assert(rest_json(c) == Seq::<char>::empty());
        assert(rest_json(cx) =~= rest_json(c) + seq![','] + quoted(x));
    } else {
        assert(cx.skip(1) =~= c.skip(1).push(x));
        lemma_rest_json_push(c.skip(1), x);
        assert(rest_json(c) == seq![','] + quoted(c[0]) + rest_json(c.skip(1)));
        assert(rest_json(cx) =~= rest_json(c) + seq![','] + quoted(x));
    }
}

/// Appending one identifier to a chunk list appends a comma (if the list was
/// not empty) and the quoted identifier to its encoding.
pub proof fn lemma_chunks_json_push(c: Seq<Identifier>, x: Identifier)
    ensures
        chunks_json(c.push(x)) == chunks_json(c) + (if c.len() == 0 {
            Seq::<char>::empty()
        } else {
            seq![',']
        }) + quoted(x),
{
    if c.len() == 0 {
        assert(c.push(x).skip(1) =~= Seq::<Identifier>::empty());
        assert(chunks_json(c.push(x)) =~= chunks_json(c) + Seq::<char>::empty() + quoted(x));
    } else {
        assert(c.push(x).skip(1) =~= c.skip(1).push(x));
        assert(c.push(x)[0] == c[0]);
        lemma_rest_json_push(c.skip(1), x);
        assert(chunks_json(c.push(x)) =~= chunks_json(c) + seq![','] + quoted(x));
    }
}

/// The split of an encoded chunk list around element `i`.
proof fn lemma_chunks_json_split(c: Seq<Identifier>, i: int)
    requires
        0 <= i < c.len(),
    ensures
        chunks_json(c) == chunks_json(c.take(i)) + (if i == 0 {
            Seq::<char>::empty()
        } else {
            seq![',']
        }) + quoted(c[i]) + rest_json(c.skip(i + 1)),
    decreases i,
{
    if i == 0 {
        assert(c.take(0) =~= Seq::<Identifier>::empty());
        assert(chunks_json(c) =~= chunks_json(c.take(0)) + Seq::<char>::empty() + quoted(c[0])
            + rest_json(c.skip(1)));
    } else {
        lemma_chunks_json_split(c, i - 1);
        // unfold rest_json(c.skip(i)) one step
        assert(c.skip(i).len() > 0);
        assert(c.skip(i)[0] == c[i]);
        assert(c.skip(i).skip(1) =~= c.skip(i + 1));
        assert(rest_json(c.skip(i)) == seq![','] + quoted(c[i]) + rest_json(c.skip(i + 1)));
        // fold the element i - 1 into the taken prefix
        assert(c.take(i - 1).push(c[i - 1]) =~= c.take(i));
        lemma_chunks_json_push(c.take(i - 1), c[i - 1]);
        assert(chunks_json(c) =~= chunks_json(c.take(i)) + seq![','] + quoted(c[i])
            + rest_json(c.skip(i + 1)));
    }
}

/// Encodes a head record; the result is exactly `head_json`.
pub fn serialize_head(h: &SerializedHead) -> (r: String)
    ensures
        r@ == head_json(h.head),
{
    let mut s = String::from_str("{\"head\":\"");
    append_uuid(&mut s, h.head);
    s.append("\"}");
    proof {
        assert(s@ =~= head_json(h.head));
    }
    s
}

/// Encodes a transaction record; the result is exactly `txn_json`.
pub fn serialize_transaction(t: &SerializedTransaction) -> (r: String)
    ensures
        r@ == txn_json(t.parent, t.chunks@),
{
    let mut s = String::from_str("{\"parent\":\"");
    append_uuid(&mut s, t.parent);
    s.append("\",\"chunks\":[");
    proof {
        assert(t.chunks@.take(0) =~= Seq::<Identifier>::empty());
        assert(s@ =~= "{\"parent\":\""@ + uuid_chars(t.parent) + "\",\"chunks\":["@
            + chunks_json(t.chunks@.take(0)));
    }
    let n = t.chunks.len();
    let mut i: usize = 0;
    while i < n
        invariant
            i <= n,
            n == t.chunks@.len(),
            s@ == "{\"parent\":\""@ + uuid_chars(t.parent) + "\",\"chunks\":["@ + chunks_json(
                t.chunks@.take(i as int),
            ),
        decreases n - i,
    {
        if i > 0 {
            s.append(",");
        }
        s.append("\"");
        append_uuid(&mut s, t.chunks[i]);
        s.append("\"");
        proof {
            reveal_strlit(",");
            reveal_strlit("\"");
            lemma_chunks_json_push(t.chunks@.take(i as int), t.chunks@[i as int]);
            assert(t.chunks@.take(i as int).push(t.chunks@[i as int]) =~= t.chunks@.take(
                i as int + 1,
            ));
            assert(s@ =~= "{\"parent\":\""@ + uuid_chars(t.parent) + "\",\"chunks\":["@
                + chunks_json(t.chunks@.take(i as int + 1)));
        }
        i += 1;
    }
    s.append("]}");
    proof {
        assert(t.chunks@.take(n as int) =~= t.chunks@);
        assert(s@ =~= txn_json(t.parent, t.chunks@));
    }
    s
}

/// Compares the characters of `s` starting at `at` with the literal `lit`.
fn match_lit(s: &str, at: usize, lit: &str) -> (r: bool)
    requires
        at + lit@.len() <= s@.len(),
        at + lit@.len() <= usize::MAX,
    ensures
        r <==> s@.subrange(at as int, at as int + lit@.len()) == lit@,
{
    let m = lit.unicode_len();
    let mut j: usize = 0;
    while j < m
        invariant
            j <= m,
            m == lit@.len(),
            at + m <= s@.len(),
            at + m <= usize::MAX,
            forall|k: int| 0 <= k < j ==> s@[at + k] == lit@[k],
        decreases m - j,
    {
        let a = s.get_char(at + j);
        let b = lit.get_char(j);
        if a != b {
            proof {
                let sub = s@.subrange(at as int, at as int + m);
                assert(sub[j as int] == s@[at + j]);
                assert(sub != lit@);
            }
            return false;
        }
        j += 1;
    }
    proof {
        assert(s@.subrange(at as int, at as int + m) =~= lit@);
    }
    true
}

/// Decodes a head record.  Returns the identifier exactly when `s` is the
/// encoding of a head record, so decoding inverts `serialize_head`.
pub fn decode_head(s: &str) -> (r: Option<Identifier>)
    ensures
        r matches Some(id) ==> s@ == head_json(id),
        forall|id: Identifier| s@ == head_json(id) ==> r == Some(id),
{
    proof {
        reveal_strlit("{\"head\":\"");
        reveal_strlit("\"}");
    }
    let n = s.unicode_len();
    if n != 47 {
        proof {
            assert forall|id: Identifier| s@ != head_json(id) by {
                lemma_uuid_chars(id);
            }
        }
        return None;
    }
    if !match_lit(s, 0, "{\"head\":\"") {
        proof {
            assert forall|id: Identifier| s@ != head_json(id) by {
                if s@ == head_json(id) {
                    lemma_uuid_chars(id);
                    assert(s@.subrange(0, 9) =~= "{\"head\":\""@);
                }
            }
        }
        return None;
    }
    let parsed = parse_uuid_at(s, 9);
    match parsed {
        None => {
            proof {
                assert forall|id: Identifier| s@ != head_json(id) by {
                    if s@ == head_json(id) {
                        lemma_uuid_chars(id);
                        assert(s@.subrange(9, 45) =~= uuid_chars(id));
                    }
                }
            }
            None
        },
        Some(id) => {
            if !match_lit(s, 45, "\"}") {
                proof {
                    assert forall|id2: Identifier| s@ != head_json(id2) by {
                        if s@ == head_json(id2) {
                            lemma_uuid_chars(id2);
                            assert(s@.subrange(45, 47) =~= "\"}"@);
                        }
                    }
                }
                return None;
            }
            proof {
                lemma_uuid_chars(id);
                assert(s@ =~= head_json(id));
                assert forall|id2: Identifier| s@ == head_json(id2) implies Some(id) == Some::<
                    Identifier,
                >(id2) by {
                    lemma_uuid_chars(id2);
                    assert(s@.subrange(9, 45) =~= uuid_chars(id2));
                }
            }
            Some(id)
        },
    }
}

/// Under the hypothesis that `s` encodes transaction `(p, c)`, the fixed
/// regions of `s` are known.
proof fn lemma_txn_regions(s: Seq<char>, p: Identifier, c: Seq<Identifier>)
    requires
        s == txn_json(p, c),
    ensures
        s.len() == 61 + (if c.len() == 0 { 0int } else { 39 * c.len() - 1 }),
        s.subrange(0, 11) == "{\"parent\":\""@,
        s.subrange(11, 47) == uuid_chars(p),
        s.subrange(47, 59) == "\",\"chunks\":["@,
        s.subrange(59, 59 + (if c.len() == 0 { 0int } else { 39 * c.len() - 1 })) == chunks_json(c),
        s.subrange(s.len() - 2, s.len() as int) == "]}"@,
{
    reveal_strlit("{\"parent\":\"");
    reveal_strlit("\",\"chunks\":[");
    reveal_strlit("]}");
    lemma_uuid_chars(p);
    lemma_chunks_json_len(c);
    let cl = if c.len() == 0 { 0int } else { 39 * c.len() - 1 };
    assert(s.subrange(0, 11) =~= "{\"parent\":\""@);
    assert(s.subrange(11, 47) =~= uuid_chars(p));
    assert(s.subrange(47, 59) =~= "\",\"chunks\":["@);
    assert(s.subrange(59, 59 + cl) =~= chunks_json(c));
    assert(s.subrange(s.len() - 2, s.len() as int) =~= "]}"@);
}

/// Under the hypothesis that `s` encodes transaction `(p, c)` and `i` is a
/// chunk position, the characters around chunk `i` are known.
proof fn lemma_txn_chunk_at(s: Seq<char>, p: Identifier, c: Seq<Identifier>, i: int)
    requires
        s == txn_json(p, c),
        0 <= i < c.len(),
    ensures
        s.len() == 60 + 39 * c.len(),
        s[59 + 39 * i] == '"',
        s.subrange(59 + 39 * i + 1, 59 + 39 * i + 37) == uuid_chars(c[i]),
        s[59 + 39 * i + 37] == '"',
        c.len() == i + 1 ==> s[59 + 39 * i + 38] == ']' && s[59 + 39 * i + 39] == '}',
        c.len() > i + 1 ==> s[59 + 39 * i + 38] == ',',
{
    reveal_strlit("{\"parent\":\"");
    reveal_strlit("\",\"chunks\":[");
    reveal_strlit("]}");
    lemma_uuid_chars(p);
    lemma_chunks_json_len(c);
    lemma_chunks_json_split(c, i);
    lemma_chunks_json_len(c.take(i));
    assert(c.take(i).len() == i);
    lemma_quoted_len(c[i]);
    lemma_rest_json_len(c.skip(i + 1));
    let cl = 39 * c.len() - 1;
    let cj = chunks_json(c);
    assert(cj.len() == cl);
    assert(s.subrange(59, 59 + cl) =~= cj);
    let cjt = chunks_json(c.take(i));
    let sep = if i == 0 {
        Seq::<char>::empty()
    } else {
        seq![',']
    };
    let base = 39 * i;
    assert((cjt + sep).len() == base);
    assert(cj == cjt + sep + quoted(c[i]) + rest_json(c.skip(i + 1)));
    assert(cj[base] == quoted(c[i])[0]);
    assert(s[59 + base] == cj[base]);
    assert forall|k: int| 0 <= k < 36 implies s[59 + base + 1 + k] == uuid_chars(c[i])[k] by {
        assert(cj[base + 1 + k] == quoted(c[i])[1 + k]);
        assert(quoted(c[i])[1 + k] == uuid_chars(c[i])[k]);
        assert(s[59 + base + 1 + k] == cj[base + 1 + k]);
    }
    assert(s.subrange(59 + base + 1, 59 + base + 37) =~= uuid_chars(c[i]));
    assert(cj[base + 37] == quoted(c[i])[37]);
    assert(s[59 + base + 37] == cj[base + 37]);
    if c.len() > i + 1 {
        assert(rest_json(c.skip(i + 1)).len() == 39 * (c.len() - i - 1));
        assert(c.skip(i + 1).len() > 0);
        assert(rest_json(c.skip(i + 1))[0] == ',');
        assert(cj[base + 38] == rest_json(c.skip(i + 1))[0]);
        assert(s[59 + base + 38] == cj[base + 38]);
    } else {
        assert(cl == base + 38);
        assert(s.subrange(s.len() - 2, s.len() as int) =~= "]}"@);
        assert(s[59 + base + 38] == ']');
        assert(s[59 + base + 39] == '}');
    }
}

/// A string with the fixed regions, a well-formed chunk region and the right
/// length is the encoding of the transaction.
proof fn lemma_txn_compose(s: Seq<char>, p: Identifier, c: Seq<Identifier>)
    requires
        c.len() > 0,
        s.len() == 60 + 39 * c.len(),
        s.subrange(0, 11) == "{\"parent\":\""@,
        s.subrange(11, 47) == uuid_chars(p),
        s.subrange(47, 59) == "\",\"chunks\":["@,
        s.subrange(59, s.len() - 2) == chunks_json(c),
        s[s.len() - 2] == ']',
        s[s.len() - 1] == '}',
    ensures
        s == txn_json(p, c),
{
    reveal_strlit("{\"parent\":\"");
    reveal_strlit("\",\"chunks\":[");
    reveal_strlit("]}");
    lemma_uuid_chars(p);
    lemma_chunks_json_len(c);
    assert(s =~= txn_json(p, c));
}

/// Decodes a transaction record.  Returns the parent and the chunk list
/// exactly when `s` is the encoding of a transaction record, so decoding
/// inverts `serialize_transaction`.
pub fn decode_transaction(s: &str) -> (r: Option<SerializedTransaction>)
    ensures
        r matches Some(t) ==> s@ == txn_json(t.parent, t.chunks@),
        forall|p: Identifier, c: Seq<Identifier>|
            s@ == txn_json(p, c) ==> (r matches Some(t) && t.parent == p && t.chunks@ == c),
{
    proof {
        reveal_strlit("{\"parent\":\"");
        reveal_strlit("\",\"chunks\":[");
        reveal_strlit("]}");
    }
    let n = s.unicode_len();
    if n < 61 {
        proof {
            assert forall|p: Identifier, c: Seq<Identifier>| s@ != txn_json(p, c) by {
                if s@ == txn_json(p, c) {
                    lemma_txn_regions(s@, p, c);
                }
            }
        }
        return None;
    }
    if !match_lit(s, 0, "{\"parent\":\"") {
        proof {
            assert forall|p: Identifier, c: Seq<Identifier>| s@ != txn_json(p, c) by {
                if s@ == txn_json(p, c) {
                    lemma_txn_regions(s@, p, c);
                }
            }
        }
        return None;
    }
    let parent = match parse_uuid_at(s, 11) {
        Some(p) => p,
        None => {
            proof {
                assert forall|p: Identifier, c: Seq<Identifier>| s@ != txn_json(p, c) by {
                    if s@ == txn_json(p, c) {
                        lemma_txn_regions(s@, p, c);
                    }
                }
            }
            return None;
        },
    };
    if !match_lit(s, 47, "\",\"chunks\":[") {
        proof {
            assert forall|p: Identifier, c: Seq<Identifier>| s@ != txn_json(p, c) by {
                if s@ == txn_json(p, c) {
                    lemma_txn_regions(s@, p, c);
                }
            }
        }
        return None;
    }
    // At this point the parent is pinned down for every matching encoding.
    proof {
        assert forall|p: Identifier, c: Seq<Identifier>|
            s@ == txn_json(p, c) implies p == parent by {
            lemma_txn_regions(s@, p, c);
        }
    }
    // Empty chunk list.
    if s.get_char(59) == ']' {
        if n == 61 && match_lit(s, 59, "]}") {
            proof {
                assert(s@ =~= txn_json(parent, Seq::<Identifier>::empty()));
                assert forall|p: Identifier, c: Seq<Identifier>|
                    s@ == txn_json(p, c) implies c =~= Seq::<Identifier>::empty() by {
                    lemma_txn_regions(s@, p, c);
                    lemma_chunks_json_len(c);
                    if c.len() > 0 {
                        assert(s@.len() >= 61 + 38);
                    }
                }
            }
            return Some(SerializedTransaction { parent, chunks: Vec::new() });
        } else {
            proof {
                assert forall|p: Identifier, c: Seq<Identifier>| s@ != txn_json(p, c) by {
                    if s@ == txn_json(p, c) {
                        lemma_txn_regions(s@, p, c);
                        lemma_chunks_json_len(c);
                        if c.len() == 0 {
                            assert(s@.len() == 61);
                            assert(s@.subrange(59, 61) =~= "]}"@);
                        } else {
                            lemma_chunks_json_split(c, 0);
                            lemma_quoted_len(c[0]);
                            assert(chunks_json(c)[0] == '"');
                            assert(s@[59] == '"');
                        }
                    }
                }
            }
            return None;
        }
    }
    proof {
        assert forall|p: Identifier, c: Seq<Identifier>|
            s@ == txn_json(p, c) implies c.len() > 0 by {
            lemma_txn_regions(s@, p, c);
            if c.len() == 0 {
                assert(s@.subrange(59, 61) =~= "]}"@);
                assert(s@[59] == ']');
            }
        }
    }
    let mut chunks: Vec<Identifier> = Vec::new();
    let mut pos: usize = 59;
    #[verifier::loop_isolation(false)]
    loop
        invariant
            n == s@.len(),
            61 <= n <= usize::MAX,
            pos == 59 + 39 * chunks@.len(),
            pos <= n,
            chunks@.len() == 0 ==> pos == 59,
            chunks@.len() > 0 ==> s@.subrange(59, pos as int) == chunks_json(chunks@) + seq![','],
            forall|p: Identifier, c: Seq<Identifier>|
                s@ == txn_json(p, c) ==> p == parent && c.len() > chunks@.len() && c.take(
                    chunks@.len() as int,
                ) == chunks@,
        decreases n - pos,
    {
        let ghost old_chunks = chunks@;
        // Room for one quoted identifier and the closing "]}".
        if n - pos < 40 {
            proof {
                assert forall|p: Identifier, c: Seq<Identifier>| s@ != txn_json(p, c) by {
                    if s@ == txn_json(p, c) {
                        lemma_txn_regions(s@, p, c);
                        lemma_chunks_json_len(c);
                        assert(c.len() >= chunks@.len() + 1);
                    }
                }
            }
            return None;
        }
        // Each matching encoding has the quoted identifier of its next chunk
        // here, followed by a comma or the closing bracket.
        proof {
            assert forall|p: Identifier, c: Seq<Identifier>|
                s@ == txn_json(p, c) implies ({
                &&& s@[pos as int] == '"'
                &&& s@.subrange(pos as int + 1, pos as int + 37) == uuid_chars(
                    c[chunks@.len() as int],
                )
                &&& s@[pos as int + 37] == '"'
                &&& (c.len() == chunks@.len() + 1 ==> s@[pos as int + 38] == ']' && n == pos + 40
                    && s@[pos as int + 39] == '}')
                &&& (c.len() > chunks@.len() + 1 ==> s@[pos as int + 38] == ',')
            }) by {
                lemma_txn_chunk_at(s@, p, c, chunks@.len() as int);
            }
        }
        if s.get_char(pos) != '"' {
            return None;
        }
        let chunk = match parse_uuid_at(s, pos + 1) {
            Some(id) => id,
            None => {
                return None;
            },
        };
        if s.get_char(pos + 37) != '"' {
            return None;
        }
        chunks.push(chunk);
        proof {
            lemma_chunks_json_push(old_chunks, chunk);
            lemma_chunks_json_len(old_chunks);
            lemma_quoted_len(chunk);
            if old_chunks.len() > 0 {
                assert(s@.subrange(59, pos as int + 38) =~= chunks_json(chunks@));
            } else {
                assert(s@.subrange(59, pos as int + 38) =~= chunks_json(chunks@));
            }
            assert forall|p: Identifier, c: Seq<Identifier>|
                s@ == txn_json(p, c) implies c.take(chunks@.len() as int) == chunks@ by {
                let i = old_chunks.len() as int;
                assert(s@.subrange(pos as int + 1, pos as int + 37) == uuid_chars(c[i]));
                assert(chunk == c[i]);
                assert(c.take(i + 1) =~= c.take(i).push(c[i]));
            }
        }
        let next = s.get_char(pos + 38);
        if next == ']' {
            if n == pos + 40 && s.get_char(pos + 39) == '}' {
                proof {
                    assert(s@.subrange(59, pos as int + 38) == chunks_json(chunks@));
                    lemma_chunks_json_len(chunks@);
                    lemma_txn_compose(s@, parent, chunks@);
                    assert forall|p: Identifier, c: Seq<Identifier>|
                        s@ == txn_json(p, c) implies c == chunks@ by {
                        if c.len() > chunks@.len() {
                            assert(s@[pos as int + 38] == ',');
                        }
                        assert(c.len() == chunks@.len());
                        assert(c.take(chunks@.len() as int) =~= c);
                    }
                }
                return Some(SerializedTransaction { parent, chunks });
            } else {
                proof {
                    assert forall|p: Identifier, c: Seq<Identifier>| s@ != txn_json(p, c) by {
                        if s@ == txn_json(p, c) {
                            if c.len() > chunks@.len() {
                                assert(s@[pos as int + 38] == ',');
                            }
                        }
                    }
                }
                return None;
            }
        } else if next == ',' {
            proof {
                assert forall|p: Identifier, c: Seq<Identifier>|
                    s@ == txn_json(p, c) implies c.len() > chunks@.len() by {
                    if c.len() == chunks@.len() {
                        assert(s@[pos as int + 38] == ']');
                    }
                }
                assert(s@.subrange(59, pos as int + 39) =~= chunks_json(chunks@) + seq![',']);
            }
            pos = pos + 39;
        } else {
            proof {
                assert forall|p: Identifier, c: Seq<Identifier>| s@ != txn_json(p, c) by {
                    if s@ == txn_json(p, c) {
                        if c.len() > chunks@.len() {
                            assert(s@[pos as int + 38] == ',');
                        } else {
                            assert(s@[pos as int + 38] == ']');
                        }
                    }
                }
            }
            return None;
        }
    }
}

} // verus!
