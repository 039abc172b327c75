//! The worker endpoint: connection state, correlation table, and the
//! dispatcher's bookkeeping around one command round trip.
//!
//! A round trip is: check the connection, allocate an identifier, register a
//! completion slot, serialize the frame (`begin_send`); the host writes the
//! frame and awaits the slot; the slot is deregistered on every exit path
//! (`fail_write` on a failed write, `finish_send` on resolution, timeout, or
//! channel close). The output-stream router feeds `handle_response` and the
//! connection transitions; the host's process supervisor feeds
//! `on_process_exit`.

use vstd::prelude::*;
use crate::codec::{
    classify_line, encode_envelope, ready_view, response_view, spec_classify, spec_envelope,
    spec_is_json_text, EngineResponse, LineClass, StdoutMessage,
};
use crate::errors::DispatchError;
use crate::state::EngineConnection;
use crate::table::CorrelationTable;

verus! {

/// Default bound, in seconds, on how long a dispatch waits for its reply.
pub const COMMAND_TIMEOUT_SECS: u64 = 30;

/// What `begin_send` hands the host: the allocated identifier, the exact
/// frame to write, and the wait handle of the registered completion slot.
pub struct SendTicket {
    pub id: u64,
    pub frame: Vec<u8>,
    pub handle: tokio::sync::oneshot::Receiver<EngineResponse>,
}

/// How the wait on a completion slot ended, as observed by the host:
/// the slot resolved with a response, the timeout elapsed first, or the
/// slot's channel closed before resolution (worker died).
pub enum AwaitOutcome {
    Resolved(EngineResponse),
    TimedOut,
    Closed,
}

/// Where the router sent one line of the worker's primary output stream.
#[derive(Debug, PartialEq, Eq, Structural, Clone, Copy)]
pub enum RouteOutcome {
    /// The line was a handshake: the connection is (re-)armed, and the
    /// host should raise its one-time connection notification.
    HandshakeAccepted,
    /// The line was a correlated response; the payload says whether a
    /// pending slot took it (`false`: late, duplicate, or unknown id,
    /// silently dropped).
    ResponseDelivered(bool),
    /// Unclassified text: hand the line to the diagnostic sink unmodified.
    Diagnostic,
}

/// One worker endpoint: connection state plus pending-request table.
pub struct PythonEngine {
    conn: EngineConnection,
    table: CorrelationTable,
}

impl PythonEngine {
    /// The connection state machine's current value.
    pub closed spec fn connection(&self) -> EngineConnection {
        self.conn
    }

    /// The correlation table's current value.
    pub closed spec fn table_spec(&self) -> CorrelationTable {
        self.table
    }

    /// Whether a handshake has been seen and no disconnect since.
    pub open spec fn connected(&self) -> bool {
        self.connection().is_connected_spec()
    }

    /// The worker version reported by the last handshake, if connected.
    pub open spec fn version_view(&self) -> Option<Seq<u8>> {
        self.connection().version_spec()
    }

    /// The identifiers of the currently pending requests.
    pub open spec fn pending(&self) -> Set<u64> {
        self.table_spec().pending()
    }

    /// The identifier the next dispatch will use.
    pub open spec fn next_request(&self) -> u64 {
        self.table_spec().next_spec()
    }

    pub open spec fn wf(&self) -> bool {
        self.table_spec().wf()
    }

    /// A fresh endpoint: disconnected, nothing pending, identifiers from 1.
    pub fn new() -> (e: Self)
        ensures
            !e.connected(),
            e.version_view() == Option::<Seq<u8>>::None,
            e.pending() == Set::<u64>::empty(),
            e.next_request() == 1,
            e.wf(),
    {
        PythonEngine { conn: EngineConnection::Disconnected, table: CorrelationTable::new() }
    }

    /// Whether commands may currently be submitted.
    pub fn is_connected(&self) -> (b: bool)
        ensures
            b == self.connected(),
    {
        match &self.conn {
            EngineConnection::Disconnected => false,
            EngineConnection::Connected { .. } => true,
        }
    }

    /// Whether another request identifier can still be allocated. False
    /// only when the 64-bit counter is exhausted.
    pub fn ids_available(&self) -> (b: bool)
        ensures
            b == (self.next_request() < u64::MAX),
    {
        self.table.ids_available()
    }

    /// Whether request `id` is still pending.
    pub fn is_pending(&self, id: u64) -> (b: bool)
        ensures
            b == self.pending().contains(id),
    {
        self.table.is_pending(id)
    }

    /// How many requests are currently pending.
    pub fn pending_count(&self) -> (n: usize)
        ensures
            n == self.pending().len(),
    {
        self.table.pending_count()
    }

    /// A snapshot of the worker version, true as of this read.
    pub fn get_version(&self) -> (v: Option<Vec<u8>>)
        ensures
            match v {
                Some(bytes) => self.version_view() == Some(bytes@),
                None => self.version_view() == Option::<Seq<u8>>::None,
            },
    {
        match &self.conn {
            EngineConnection::Disconnected => None,
            EngineConnection::Connected { version, .. } => {
                let copy = version.clone();
                proof {
                    assert(copy@ =~= version@);
                }
                Some(copy)
            },
        }
    }

    /// Mark the endpoint connected with the given worker version. A repeated
    /// handshake lands here too: it re-arms `Connected` and overwrites the
    /// carried metadata. The pending table is untouched.
    pub fn set_connected(&mut self, version: Vec<u8>)
        ensures
            final(self).connected(),
            final(self).version_view() == Some(version@),
            final(self).connection().pid_spec() == Option::<u32>::None,
            final(self).table_spec() == old(self).table_spec(),
    {
        self.conn = EngineConnection::Connected { version, pid: None };
    }

    /// The worker process is gone (exit, signal, or spawn failure): the
    /// connection drops to `Disconnected` and every pending request is
    /// cancelled at once, waking each blocked dispatcher with a
    /// closed-channel error instead of leaving it to its own timeout.
    pub fn on_process_exit(&mut self)
        requires
            old(self).wf(),
        ensures
            !final(self).connected(),
            final(self).version_view() == Option::<Seq<u8>>::None,
            final(self).pending() == Set::<u64>::empty(),
            final(self).next_request() == old(self).next_request(),
            final(self).wf(),
    {
        self.conn = EngineConnection::Disconnected;
        self.table.cancel_all();
    }

    /// Start one command round trip: refuse when not connected, otherwise
    /// allocate a fresh identifier, register its completion slot, and build
    /// the frame to write. The payload must be the text of one structured
    /// value (`crate::codec::payload_is_valid` checks this), so that the
    /// frame is a well-formed single-line envelope.
    pub fn begin_send(&mut self, command: &[u8], payload: &[u8]) -> (r: Result<
        SendTicket,
        DispatchError,
    >)
        requires
            old(self).wf(),
            old(self).next_request() < u64::MAX,
            spec_is_json_text(payload@),
        ensures
            final(self).wf(),
            final(self).connection() == old(self).connection(),
            match r {
                Ok(ticket) => {
                    &&& old(self).connected()
                    &&& ticket.id == old(self).next_request()
                    &&& !old(self).pending().contains(ticket.id)
                    &&& final(self).pending() == old(self).pending().insert(ticket.id)
                    &&& final(self).next_request() == old(self).next_request() + 1
                    &&& ticket.frame@ == spec_envelope(ticket.id, command@, payload@)
                },
                Err(e) => {
                    &&& e == DispatchError::NotConnected
                    &&& !old(self).connected()
                    &&& final(self).pending() == old(self).pending()
                    &&& final(self).next_request() == old(self).next_request()
                },
            },
    {
        if !self.is_connected() {
            return Err(DispatchError::NotConnected);
        }
        let id = self.table.allocate();
        match self.table.register(id) {
            Ok(handle) => {
                let frame = encode_envelope(id, command, payload);
                Ok(SendTicket { id, frame, handle })
            },
            Err(_) => {
                proof {
                    assert(false);
                }
                Err(DispatchError::NotConnected)
            },
        }
    }

    /// The frame for `id` could not be written: deregister the slot and
    /// report the broken input stream.
    pub fn fail_write(&mut self, id: u64) -> (e: DispatchError)
        requires
            old(self).wf(),
        ensures
            e == DispatchError::WriteFailure,
            final(self).pending() == old(self).pending().remove(id),
            final(self).next_request() == old(self).next_request(),
            final(self).connection() == old(self).connection(),
            final(self).wf(),
    {
        self.table.cancel(id);
        DispatchError::WriteFailure
    }

    /// Close out the wait on request `id`. A resolved slot was already
    /// removed by the completion that resolved it; on timeout or channel
    /// close the slot is deregistered here, so a response arriving later
    /// for this identifier is dropped as a no-op.
    pub fn finish_send(&mut self, id: u64, outcome: AwaitOutcome) -> (r: Result<
        EngineResponse,
        DispatchError,
    >)
        requires
            old(self).wf(),
        ensures
            final(self).next_request() == old(self).next_request(),
            final(self).connection() == old(self).connection(),
            final(self).wf(),
            match outcome {
                AwaitOutcome::Resolved(response) => {
                    &&& r matches Ok(out) && out == response
                    &&& final(self).pending() == old(self).pending()
                },
                AwaitOutcome::TimedOut => {
                    &&& r matches Err(e) && e == DispatchError::Timeout
                    &&& final(self).pending() == old(self).pending().remove(id)
                    &&& !final(self).pending().contains(id)
                },
                AwaitOutcome::Closed => {
                    &&& r matches Err(e) && e == DispatchError::ChannelClosed
                    &&& final(self).pending() == old(self).pending().remove(id)
                    &&& !final(self).pending().contains(id)
                },
            },
    {
        match outcome {
            AwaitOutcome::Resolved(response) => Ok(response),
            AwaitOutcome::TimedOut => {
                self.table.cancel(id);
                Err(DispatchError::Timeout)
            },
            AwaitOutcome::Closed => {
                self.table.cancel(id);
                Err(DispatchError::ChannelClosed)
            },
        }
    }

    /// Classify one line of the worker's primary output stream: a
    /// handshake signal, a correlated response, or — for anything else,
    /// malformed JSON included — nothing, meaning diagnostic text.
    pub fn parse_stdout(line: &[u8]) -> (r: Option<StdoutMessage>)
        ensures
            match r {
                Some(StdoutMessage::Ready(sig)) => spec_classify(line@) == ready_view(sig)
                    && sig.status@ == crate::codec::lit_ready(),
                Some(StdoutMessage::Response(resp)) => spec_classify(line@) == response_view(resp),
                None => spec_classify(line@) == LineClass::Diagnostic,
            },
    {
        classify_line(line)
    }

    /// Consume one line of the worker's primary output stream, in arrival
    /// order: a handshake re-arms the connection with the carried version
    /// and pid; a response resolves its pending slot, or is silently
    /// dropped when none is; anything else leaves connection and table
    /// exactly as they were and goes to the diagnostic sink.
    pub fn route_line(&mut self, line: &[u8]) -> (out: RouteOutcome)
        requires
            old(self).wf(),
        ensures
            final(self).wf(),
            final(self).next_request() == old(self).next_request(),
            match spec_classify(line@) {
                LineClass::Ready { version, pid } => {
                    &&& out == RouteOutcome::HandshakeAccepted
                    &&& final(self).connected()
                    &&& final(self).version_view() == Some(version)
                    &&& final(self).connection().pid_spec() == Some(pid)
                    &&& final(self).pending() == old(self).pending()
                },
                LineClass::Response { id, .. } => {
                    &&& out == RouteOutcome::ResponseDelivered(old(self).pending().contains(id))
                    &&& final(self).pending() == old(self).pending().remove(id)
                    &&& final(self).connection() == old(self).connection()
                },
                LineClass::Diagnostic => {
                    &&& out == RouteOutcome::Diagnostic
                    &&& *final(self) == *old(self)
                },
            },
    {
        match classify_line(line) {
            Some(StdoutMessage::Ready(sig)) => {
                self.conn = EngineConnection::Connected {
                    version: sig.version,
                    pid: Some(sig.pid),
                };
                RouteOutcome::HandshakeAccepted
            },
            Some(StdoutMessage::Response(resp)) => {
                let delivered = self.handle_response(resp);
                RouteOutcome::ResponseDelivered(delivered)
            },
            None => RouteOutcome::Diagnostic,
        }
    }

    /// What a resolved response means to the caller that sent the command:
    /// the payload on success-with-data, and otherwise which of the three
    /// failure shapes the worker reported.
    pub fn extract_success_data(response: EngineResponse) -> (r: Result<
        Vec<u8>,
        crate::errors::CommandFailure,
    >)
        ensures
            match r {
                Ok(d) => response.status@ == crate::codec::lit_success() && (response.data
                    matches Some(x) && x == d),
                Err(crate::errors::CommandFailure::NoData) => response.status@
                    == crate::codec::lit_success() && response.data is None,
                Err(crate::errors::CommandFailure::Reported(e)) => response.status@
                    != crate::codec::lit_success() && (response.error matches Some(x) && x == e),
                Err(crate::errors::CommandFailure::Unspecified) => response.status@
                    != crate::codec::lit_success() && response.error is None,
            },
    {
        if crate::codec::is_lit_success(&response.status) {
            match response.data {
                Some(d) => Ok(d),
                None => Err(crate::errors::CommandFailure::NoData),
            }
        } else {
            match response.error {
                Some(e) => Err(crate::errors::CommandFailure::Reported(e)),
                None => Err(crate::errors::CommandFailure::Unspecified),
            }
        }
    }

    /// Route a correlated response to its slot: resolves and removes the
    /// slot for `response.id` when one is pending, and is a silent no-op
    /// otherwise (late, duplicate, or unknown identifier).
    pub fn handle_response(&mut self, response: EngineResponse) -> (delivered: bool)
        requires
            old(self).wf(),
        ensures
            delivered == old(self).pending().contains(response.id),
            final(self).pending() == old(self).pending().remove(response.id),
            final(self).next_request() == old(self).next_request(),
            final(self).connection() == old(self).connection(),
            final(self).wf(),
    {
        let id = response.id;
        self.table.complete(id, response)
    }
}

impl Default for PythonEngine {
    /// The same fresh endpoint `new` builds.
    fn default() -> (e: Self)
        ensures
            !e.connected(),
            e.pending() == Set::<u64>::empty(),
            e.next_request() == 1,
            e.wf(),
    {
        Self::new()
    }
}

} // verus!
