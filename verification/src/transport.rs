//! The transport capability boundary and the error taxonomy.
//!
//! A transport performs one blocking PUT and reports what it observed.  The
//! protocol never interprets a response body; it compares the returned
//! status against the status expected for the operation.  Everything that
//! depends on the network sits behind the `Transport` trait; what a
//! transport was handed is tracked in a ghost history, so the requests a
//! caller issues — and their order — are part of its contract.

use vstd::prelude::*;

verus! {

/// The ghost view of one PUT request: URI, body, content type, expected
/// status.
pub type RequestView = (Seq<char>, Seq<char>, Seq<char>, u16);

/// One entry of a transport's ghost history: the request handed over and
/// the outcome the transport reported for it.
pub type TransportEvent = (RequestView, PutOutcome);

/// A single PUT request: target URI, body, content type, and the status
/// code that counts as success for this operation.  The content length of
/// the request is the byte length of `body`.
pub struct PutRequest {
    pub uri: String,
    pub body: String,
    pub content_type: String,
    pub expected: u16,
}

impl View for PutRequest {
    type V = RequestView;

    open spec fn view(&self) -> RequestView {
        (self.uri@, self.body@, self.content_type@, self.expected)
    }
}

impl PutRequest {
    /// A field-for-field copy.
    pub fn duplicate(&self) -> (r: PutRequest)
        ensures
            r@ == self@,
    {
        PutRequest {
            uri: self.uri.clone(),
            body: self.body.clone(),
            content_type: self.content_type.clone(),
            expected: self.expected,
        }
    }
}

/// What a transport observed for one PUT.
#[derive(Clone, Copy, PartialEq, Eq, Structural, Debug)]
pub enum PutOutcome {
    /// The remote answered with this status code.
    Delivered(u16),
    /// The target URI could not be understood at all.
    InvalidTarget,
    /// Connection failure, timeout, or malformed response.
    NoResponse,
}

/// The typed failures of a publish operation.
#[derive(Clone, Copy, PartialEq, Eq, Structural, Debug)]
pub enum SyncError {
    /// Malformed base endpoint or namespace construction failure; fatal.
    ConfigurationError,
    /// A well-formed record failed to encode.  The verified encoder is
    /// total, so the protocol itself never produces this; it stands in the
    /// taxonomy for callers that layer their own encoding underneath.
    SerializationError,
    /// Connection failure, timeout, or malformed response; transient, safe
    /// to retry because every publish operation is idempotent.
    TransportError,
    /// The remote answered with a status other than the expected one.
    UnexpectedStatusError(u16),
}

/// Performs one blocking PUT request.  Implementations decide nothing about
/// the protocol; they only carry the request and report the outcome.  The
/// ghost `history` records every request handed to the transport, oldest
/// first, with its outcome: `put` appends exactly the request it was given.
pub trait Transport {
    spec fn history(&self) -> Seq<TransportEvent>;

    fn put(&mut self, req: &PutRequest) -> (o: PutOutcome)
        ensures
            final(self).history() == old(self).history().push((req@, o)),
    ;
}

/// Classifies a transport outcome against the expected status: success
/// exactly when the remote answered with the expected status, and a distinct
/// error for every other outcome.
pub fn check_status(expected: u16, outcome: PutOutcome) -> (r: Result<(), SyncError>)
    ensures
        r is Ok <==> outcome == PutOutcome::Delivered(expected),
        r matches Err(e) ==> e != SyncError::SerializationError && e
            != SyncError::UnexpectedStatusError(expected),
        outcome matches PutOutcome::Delivered(s) ==> (s == expected || r == Err::<(), SyncError>(
            SyncError::UnexpectedStatusError(s),
        )),
        outcome == PutOutcome::NoResponse ==> r == Err::<(), SyncError>(SyncError::TransportError),
        outcome == PutOutcome::InvalidTarget ==> r == Err::<(), SyncError>(
            SyncError::ConfigurationError,
        ),
{
    match outcome {
        PutOutcome::Delivered(s) => {
            if s == expected {
                Ok(())
            } else {
                Err(SyncError::UnexpectedStatusError(s))
            }
        },
        PutOutcome::InvalidTarget => Err(SyncError::ConfigurationError),
        PutOutcome::NoResponse => Err(SyncError::TransportError),
    }
}

/// A transport for exercising the protocol without a network: it records
/// every request and answers with scripted outcomes, then `NoResponse` once
/// the script is exhausted.
pub struct ScriptedTransport {
    pub script: Vec<PutOutcome>,
    pub log: Vec<PutRequest>,
}

/// The outcome a script yields for the call with index `k`.
pub open spec fn scripted_outcome(script: Seq<PutOutcome>, k: int) -> PutOutcome {
    if 0 <= k < script.len() {
        script[k]
    } else {
        PutOutcome::NoResponse
    }
}

impl ScriptedTransport {
    pub fn new(script: Vec<PutOutcome>) -> (r: ScriptedTransport)
        ensures
            r.script == script,
            r.log@.len() == 0,
            r.history() == Seq::<TransportEvent>::empty(),
    {
        let r = ScriptedTransport { script, log: Vec::new() };
        proof {
            assert(r.history() =~= Seq::<TransportEvent>::empty());
        }
        r
    }
}

impl Transport for ScriptedTransport {
    /// Every logged request, paired with the scripted outcome it received.
    open spec fn history(&self) -> Seq<TransportEvent> {
        Seq::new(self.log@.len(), |k: int| (self.log@[k]@, scripted_outcome(self.script@, k)))
    }

    /// Appends the request to the log and answers with the next scripted
    /// outcome; the script itself never changes.
    fn put(&mut self, req: &PutRequest) -> (o: PutOutcome)
        ensures
            final(self).script == old(self).script,
            final(self).log@.len() == old(self).log@.len() + 1,
            final(self).log@[old(self).log@.len() as int]@ == req@,
            forall|k: int|
                0 <= k < old(self).log@.len() ==> final(self).log@[k] == old(self).log@[k],
            o == scripted_outcome(old(self).script@, old(self).log@.len() as int),
    {
        let k = self.log.len();
        let o = if k < self.script.len() {
            self.script[k]
        } else {
            PutOutcome::NoResponse
        };
        self.log.push(req.duplicate());
        proof {
            assert(self.history() =~= old(self).history().push((req@, o)));
        }
        o
    }
}

} // verus!
