//! An in-memory remote store.
//!
//! Chunks, transactions and heads are content-addressed or idempotent by
//! value, so a remote may treat a duplicate PUT of an identical body as a
//! no-op.  This verified model of such a remote makes that contract precise:
//! storing under a URI that already holds the same body succeeds and leaves
//! the store unchanged; a different body under the same URI is a conflict.

use vstd::prelude::*;
use crate::transport::{PutOutcome, PutRequest, Transport, TransportEvent};

verus! {

/// A remote store held in memory: a list of (URI, body) entries with
/// pairwise distinct URIs, plus the ghost history of the requests it was
/// handed.
pub struct InMemoryRemote {
    pub entries: Vec<(String, String)>,
    pub requests: Ghost<Seq<TransportEvent>>,
}

/// The body stored under `uri`, if any.
pub open spec fn lookup(entries: Seq<(String, String)>, uri: Seq<char>) -> Option<Seq<char>>
    decreases entries.len(),
{
    if entries.len() == 0 {
        None
    } else if entries[0].0@ == uri {
        Some(entries[0].1@)
    } else {
        lookup(entries.skip(1), uri)
    }
}

proof fn lemma_lookup_step(entries: Seq<(String, String)>, uri: Seq<char>, i: int)
    requires
        0 <= i < entries.len(),
        entries[i].0@ != uri,
    ensures
        lookup(entries.skip(i), uri) == lookup(entries.skip(i + 1), uri),
{
    assert(entries.skip(i).len() > 0);
    assert(entries.skip(i)[0] == entries[i]);
    assert(entries.skip(i).skip(1) =~= entries.skip(i + 1));
}

/// A body stored under a fresh URI is what `lookup` finds afterwards.  With
/// `store`'s contract this closes the republish argument: the first store of
/// a pair appends it, this lemma says the pair is then found, and `store`'s
/// contract says a repeated store of the found pair succeeds and changes
/// nothing.
pub proof fn lemma_store_then_lookup(entries: Seq<(String, String)>, uri: String, body: String)
    requires
        lookup(entries, uri@) is None,
    ensures
        lookup(entries.push((uri, body)), uri@) == Some(body@),
    decreases entries.len(),
{
    let pushed = entries.push((uri, body));
    if entries.len() == 0 {
        assert(pushed[0] == (uri, body));
    } else {
        assert(pushed[0] == entries[0]);
        assert(pushed.skip(1) =~= entries.skip(1).push((uri, body)));
        lemma_store_then_lookup(entries.skip(1), uri, body);
    }
}

impl InMemoryRemote {
    pub fn new() -> (r: InMemoryRemote)
        ensures
            r.entries@.len() == 0,
            r.history() == Seq::<TransportEvent>::empty(),
    {
        InMemoryRemote { entries: Vec::new(), requests: Ghost(Seq::empty()) }
    }

    /// Stores `body` under `uri`.  Publishing the same body under the same
    /// URI twice is a no-op the second time, so retries are safe; a
    /// different body under an existing URI is refused and changes nothing.
    pub fn store(&mut self, uri: &String, body: &String) -> (r: bool)
        ensures
            final(self).requests == old(self).requests,
            lookup(old(self).entries@, uri@) is None ==> r && final(self).entries@ == old(
                self,
            ).entries@.push((*uri, *body)),
            forall|b: Seq<char>|
                lookup(old(self).entries@, uri@) == Some(b) && b == body@ ==> r && *final(self)
                    == *old(self),
            forall|b: Seq<char>|
                lookup(old(self).entries@, uri@) == Some(b) && b != body@ ==> !r && *final(self)
                    == *old(self),
    {
        let n = self.entries.len();
        let mut i: usize = 0;
        proof {
            assert(self.entries@.skip(0) =~= self.entries@);
        }
        while i < n
            invariant
                i <= n,
                n == self.entries@.len(),
                *self == *old(self),
                lookup(self.entries@.skip(i as int), uri@) == lookup(self.entries@, uri@),
            decreases n - i,
        {
            let hit = self.entries[i].0 == *uri;
            if hit {
                proof {
                    assert(self.entries@.skip(i as int)[0] == self.entries@[i as int]);
                }
                let same = self.entries[i].1 == *body;
                return same;
            }
            proof {
                lemma_lookup_step(self.entries@, uri@, i as int);
            }
            i += 1;
        }
        proof {
            assert(self.entries@.skip(n as int) =~= Seq::<(String, String)>::empty());
        }
        self.entries.push((uri.clone(), body.clone()));
        true
    }
}

impl Transport for InMemoryRemote {
    /// Every request this remote was handed, with the outcome it answered.
    open spec fn history(&self) -> Seq<TransportEvent> {
        self.requests@
    }

    /// Stores the body under the URI and answers the operation's expected
    /// status; a URI already holding a different body is answered with a
    /// conflict status and the store is unchanged.
    fn put(&mut self, req: &PutRequest) -> (o: PutOutcome)
        ensures
            lookup(old(self).entries@, req.uri@) is None ==> o == PutOutcome::Delivered(
                req.expected,
            ) && final(self).entries@ == old(self).entries@.push((req.uri, req.body)),
            forall|b: Seq<char>|
                lookup(old(self).entries@, req.uri@) == Some(b) && b == req.body@ ==> o
                    == PutOutcome::Delivered(req.expected) && final(self).entries == old(
                    self,
                ).entries,
            forall|b: Seq<char>|
                lookup(old(self).entries@, req.uri@) == Some(b) && b != req.body@ ==> o
                    == PutOutcome::Delivered(409) && final(self).entries == old(self).entries,
    {
        let o = if self.store(&req.uri, &req.body) {
            PutOutcome::Delivered(req.expected)
        } else {
            PutOutcome::Delivered(409)
        };
        proof {
            self.requests@ = self.requests@.push((req@, o));
        }
        o
    }
}

} // verus!
