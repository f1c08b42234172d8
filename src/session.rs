//! The decisions of one client session: the version check and the password
//! check that open it, then the order in which updates go out.
use crate::event::Update;
use vstd::prelude::*;

verus! {

/// A protocol version.
#[derive(Clone, Copy, Debug, PartialEq, Eq, Structural)]
pub struct Version {
    pub value: u16,
}

/// What the server tells a client after checking its password proof.
#[derive(Clone, Copy, Debug, PartialEq, Eq, Structural)]
pub enum AuthStatus {
    Passed,
    Failed,
}

/// What ends one session.
#[derive(Debug)]
pub enum ClientError {
    /// The connection failed or timed out, described.
    Io(String),
    /// The client speaks another version.
    Version { server: Version, client: Version },
    /// The client's password proof was wrong.
    Auth,
    /// No random challenge could be had, described.
    Rand(String),
}

/// Where a session stands.
#[derive(Clone, Copy, Debug, PartialEq, Eq, Structural)]
pub enum Phase {
    /// The server has sent its version and waits for the client's.
    AwaitVersion,
    /// The versions matched; the challenge is out and the proof awaited.
    AwaitResponse,
    /// The client passed: updates flow.
    Streaming,
    /// The session is over.
    Closed,
}

/// The phase after the client announced `client` to a server at `server`.
pub open spec fn after_version(server: Version, client: Version) -> Phase {
    if server == client {
        Phase::AwaitResponse
    } else {
        Phase::Closed
    }
}

/// The status sent for a proof that did or did not check out.
pub open spec fn status_for(verified: bool) -> AuthStatus {
    if verified {
        AuthStatus::Passed
    } else {
        AuthStatus::Failed
    }
}

/// The phase after the status for `verified` was sent.
pub open spec fn after_response(verified: bool) -> Phase {
    if verified {
        Phase::Streaming
    } else {
        Phase::Closed
    }
}

/// The opening of one session.
pub struct Negotiation {
    server: Version,
    phase: Phase,
}

impl Negotiation {
    pub closed spec fn server(&self) -> Version {
        self.server
    }

    pub closed spec fn phase_of(&self) -> Phase {
        self.phase
    }

    /// A session whose server version `server` has just been sent.
    pub fn new(server: Version) -> (r: Negotiation)
        ensures
            r.server() == server,
            r.phase_of() == Phase::AwaitVersion,
    {
        Negotiation { server, phase: Phase::AwaitVersion }
    }

    pub fn phase(&self) -> (r: Phase)
        ensures
            r == self.phase_of(),
    {
        self.phase
    }

    /// The client announced its version: it must equal the server's exactly,
    /// else the session ends.
    pub fn on_version(&mut self, client: Version) -> (r: Result<(), ClientError>)
        requires
            old(self).phase_of() == Phase::AwaitVersion,
        ensures
            final(self).server() == old(self).server(),
            final(self).phase_of() == after_version(old(self).server(), client),
            r is Ok <==> old(self).server() == client,
            old(self).server() != client ==> (r matches Err(ClientError::Version { server, client: c })
                && server == old(self).server() && c == client),
    {
        if self.server == client {
            self.phase = Phase::AwaitResponse;
            Ok(())
        } else {
            self.phase = Phase::Closed;
            Err(ClientError::Version { server: self.server, client })
        }
    }

    /// The client's proof did (`verified`) or did not check out against the
    /// challenge and the password. The result is the status to send, and
    /// whether the session goes on.
    pub fn on_response(&mut self, verified: bool) -> (r: (AuthStatus, Result<(), ClientError>))
        requires
            old(self).phase_of() == Phase::AwaitResponse,
        ensures
            final(self).server() == old(self).server(),
            final(self).phase_of() == after_response(verified),
            r.0 == status_for(verified),
            verified ==> r.1 is Ok,
            !verified ==> r.1 matches Err(ClientError::Auth),
    {
        if verified {
            self.phase = Phase::Streaming;
            (AuthStatus::Passed, Ok(()))
        } else {
            self.phase = Phase::Closed;
            (AuthStatus::Failed, Err(ClientError::Auth))
        }
    }
}

/// A wrong password proof is answered with `Failed` and closes the session: it
/// never leads to `Passed` or to streaming.
pub proof fn lemma_wrong_password_fails(verified: bool)
    requires
        !verified,
    ensures
        status_for(verified) == AuthStatus::Failed,
        after_response(verified) == Phase::Closed,
{
}

/// A client of another version is turned away before the password check: the
/// session closes instead of reaching the phase that awaits a proof.
pub proof fn lemma_version_mismatch_rejected(server: Version, client: Version)
    requires
        server != client,
    ensures
        after_version(server, client) == Phase::Closed,
{
}

/// Where an update came from.
#[derive(Clone, Copy, Debug, PartialEq, Eq, Structural)]
pub enum Source {
    /// The announcements taken when the session was accepted.
    Initial,
    /// The session's live queue.
    Live,
}

/// Whether, after writing an update from `source`, the session goes on
/// writing whatever else is already queued before it flushes.
pub fn coalesces(source: Source) -> (r: bool)
    ensures
        r == (source == Source::Live),
{
    match source {
        Source::Initial => false,
        Source::Live => true,
    }
}

/// The updates of a session that go out before its live queue is read.
pub struct Outbox {
    pending: Vec<Update>,
}

impl Outbox {
    pub closed spec fn pending(&self) -> Seq<Update> {
        self.pending@
    }

    /// An outbox that holds `initial`, in order.
    pub fn new(initial: Vec<Update>) -> (r: Outbox)
        ensures
            r.pending() == initial@,
    {
        Outbox { pending: initial }
    }

    /// The first pending update, taken out; `None` once all are gone, when the
    /// live queue is next.
    pub fn next_initial(&mut self) -> (r: Option<Update>)
        ensures
            old(self).pending().len() == 0 ==> (r.is_none() && final(self).pending()
                == old(self).pending()),
            old(self).pending().len() > 0 ==> (r == Some(old(self).pending()[0])
                && final(self).pending() == old(self).pending().drop_first()),
    {
        if self.pending.len() == 0 {
            None
        } else {
            let u = self.pending.remove(0);
            assert(self.pending@ =~= old(self).pending@.drop_first());
            Some(u)
        }
    }

    /// Whether every initial update has gone out.
    pub fn is_drained(&self) -> (r: bool)
        ensures
            r == (self.pending().len() == 0),
    {
        self.pending.len() == 0
    }
}

/// Taking the initial updates one at a time hands them out in the order they
/// were given: after `i` of them, the next is the `i`-th and the rest follow.
pub proof fn lemma_initial_in_order(initial: Seq<Update>, i: int)
    requires
        0 <= i < initial.len(),
    ensures
        initial.skip(i)[0] == initial[i],
        initial.skip(i).drop_first() == initial.skip(i + 1),
        initial.skip(0) == initial,
{
    assert(initial.skip(i).drop_first() =~= initial.skip(i + 1));
    assert(initial.skip(0) =~= initial);
}

} // verus!
