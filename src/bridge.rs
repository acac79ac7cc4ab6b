//! The connection bridge: the decisions taken for one client connection,
//! as a state machine. The caller owns the sockets; it performs each
//! [`Action`] the bridge returns and hands back what came of it as an
//! [`Event`]. The bridge accumulates the bytes of each request head, routes
//! it, forwards the head and exactly the declared body, relays the response
//! the same way, and then starts on the next (possibly pipelined) request.

use vstd::prelude::*;
use crate::config::{first_route, utf8_bytes, HpsConfig, Matcher};
use crate::frame::{parse_request, parse_response, request_frame, response_frame, FrameError, FrameView};
use crate::response::{
    bad_request_response, client_error_bytes, error_response, too_large_response, BAD_REQUEST,
    BAD_REQUEST_MESSAGE, REQUEST_TOO_LARGE, REQUEST_TOO_LARGE_MESSAGE,
};

verus! {

/// Where a connection stands in its request/response cycle. The number
/// carried is the index of the routing rule serving the current request.
#[derive(Clone, Copy, Debug, PartialEq, Eq, Structural)]
pub enum Phase {
    /// Reading the head of the next request.
    AwaitingRequest,
    /// Opening the backend connection of a route.
    Connecting(usize),
    /// Writing the request head and the body bytes already buffered.
    SendingRequest(usize),
    /// Streaming the rest of the request body from the client.
    StreamingRequest(usize),
    /// Reading the head of the response.
    AwaitingResponse(usize),
    /// Writing the response head and the body bytes already buffered.
    SendingResponse(usize),
    /// Streaming the rest of the response body from the backend.
    StreamingResponse(usize),
    /// The connection is over.
    Closed,
}

/// Why a connection ended early.
#[derive(Clone, Copy, Debug, PartialEq, Eq, Structural)]
pub enum BridgeError {
    /// The request head breaks the grammar or declares an invalid length.
    MalformedRequest(FrameError),
    /// The request line carries no path.
    NoPath,
    /// No routing rule matches the path.
    NoRoute,
    /// The client closed its side in the middle of a request head.
    ClientVanished,
    /// The request head does not fit the receive buffer.
    RequestTooLarge,
    /// The backend could not be reached.
    ConnectFailed,
    /// The client closed in the middle of a request body; the count of
    /// missing bytes is carried.
    ClientEof(usize),
    /// The backend closed before a complete response head.
    BackendEof,
    /// The response head breaks the grammar or declares an invalid length.
    MalformedResponse(FrameError),
    /// The response head does not fit the receive buffer.
    ResponseTooLarge,
    /// The backend closed in the middle of a response body; the count of
    /// missing bytes is carried.
    BackendEofInBody(usize),
    /// A read or write failed.
    Io,
    /// An event that the current phase does not wait for.
    UnexpectedEvent,
}

/// What came of the last action.
#[derive(Debug, PartialEq, Eq)]
pub enum Event {
    /// Bytes read from the client; none at all means the client closed.
    ClientData(Vec<u8>),
    /// Bytes read from the backend; none at all means the backend closed.
    BackendData(Vec<u8>),
    /// The backend connection is open.
    Connected,
    /// The backend connection could not be opened.
    ConnectFailed,
    /// The bytes of the last send were all written.
    Sent,
    /// The last copy moved every byte.
    Copied,
    /// The last copy met the end of its source with this many bytes missing.
    CopyTruncated(usize),
    /// A read or write failed.
    IoFailed,
}

/// What the caller is to do next.
#[derive(Debug, PartialEq, Eq)]
pub enum Action {
    /// Read at most this many bytes from the client.
    ReadClient(usize),
    /// Open a connection to the backend of this route.
    Connect(usize),
    /// Write these bytes to the backend of this route.
    SendToBackend(usize, Vec<u8>),
    /// Copy exactly this many bytes from the client to the backend of the route.
    CopyToBackend(usize, usize),
    /// Read at most this many bytes from the backend of the route.
    ReadBackend(usize, usize),
    /// Write these bytes to the client.
    SendToClient(Vec<u8>),
    /// Copy exactly this many bytes from the backend of the route to the client.
    CopyToClient(usize, usize),
    /// Write this error response to the client, shut it down, and stop.
    Reject(BridgeError, Vec<u8>),
    /// The client is done: close quietly.
    Finish,
    /// Stop without a response.
    Abort(BridgeError),
}

pub enum EventView {
    ClientData(Seq<u8>),
    BackendData(Seq<u8>),
    Connected,
    ConnectFailed,
    Sent,
    Copied,
    CopyTruncated(usize),
    IoFailed,
}

pub enum ActionView {
    ReadClient(usize),
    Connect(usize),
    SendToBackend(usize, Seq<u8>),
    CopyToBackend(usize, usize),
    ReadBackend(usize, usize),
    SendToClient(Seq<u8>),
    CopyToClient(usize, usize),
    Reject(BridgeError, Seq<u8>),
    Finish,
    Abort(BridgeError),
}

impl View for Event {
    type V = EventView;

    open spec fn view(&self) -> EventView {
        match self {
            Event::ClientData(d) => EventView::ClientData(d@),
            Event::BackendData(d) => EventView::BackendData(d@),
            Event::Connected => EventView::Connected,
            Event::ConnectFailed => EventView::ConnectFailed,
            Event::Sent => EventView::Sent,
            Event::Copied => EventView::Copied,
            Event::CopyTruncated(k) => EventView::CopyTruncated(*k),
            Event::IoFailed => EventView::IoFailed,
        }
    }
}

impl View for Action {
    type V = ActionView;

    open spec fn view(&self) -> ActionView {
        match self {
            Action::ReadClient(n) => ActionView::ReadClient(*n),
            Action::Connect(r) => ActionView::Connect(*r),
            Action::SendToBackend(r, b) => ActionView::SendToBackend(*r, b@),
            Action::CopyToBackend(r, n) => ActionView::CopyToBackend(*r, *n),
            Action::ReadBackend(r, n) => ActionView::ReadBackend(*r, *n),
            Action::SendToClient(b) => ActionView::SendToClient(b@),
            Action::CopyToClient(r, n) => ActionView::CopyToClient(*r, *n),
            Action::Reject(e, b) => ActionView::Reject(*e, b@),
            Action::Finish => ActionView::Finish,
            Action::Abort(e) => ActionView::Abort(*e),
        }
    }
}

/// The state of a bridge as mathematical values.
pub struct BridgeView {
    /// Size of each receive buffer.
    pub capacity: usize,
    /// Client bytes held: the current request's head and whatever followed it.
    pub client: Seq<u8>,
    /// Backend bytes held while a response head is incomplete.
    pub server: Seq<u8>,
    /// End of the current request's head within `client`.
    pub pending_start: usize,
    /// Body bytes of the current message not yet forwarded.
    pub pending_body: usize,
    /// Which routes already have an open backend connection.
    pub connected: Seq<bool>,
    pub phase: Phase,
}

pub open spec fn min(a: int, b: int) -> int {
    if a < b {
        a
    } else {
        b
    }
}

/// End the connection with an error response to the client.
pub open spec fn reject_spec(s: BridgeView, e: BridgeError, response: Seq<u8>) -> (BridgeView, ActionView) {
    (BridgeView { phase: Phase::Closed, ..s }, ActionView::Reject(e, response))
}

/// End the connection without a response.
pub open spec fn abort_spec(s: BridgeView, e: BridgeError) -> (BridgeView, ActionView) {
    (BridgeView { phase: Phase::Closed, ..s }, ActionView::Abort(e))
}

/// Forward a routed request: its head and as much of its body as is held,
/// no more than it declares; what follows stays for the next request.
pub open spec fn forward_request_spec(s: BridgeView, route: usize) -> (BridgeView, ActionView) {
    let m = min(s.pending_body as int, s.client.len() - s.pending_start);
    let k = s.pending_start + m;
    (
        BridgeView {
            client: s.client.subrange(k, s.client.len() as int),
            pending_start: 0,
            pending_body: (s.pending_body - m) as usize,
            phase: Phase::SendingRequest(route),
            ..s
        },
        ActionView::SendToBackend(route, s.client.subrange(0, k)),
    )
}

/// Decide on the client bytes held: reject, read more, or route and forward.
pub open spec fn examine_spec(s: BridgeView, rules: Seq<Matcher>) -> (BridgeView, ActionView) {
    match request_frame(s.client) {
        Err(e) => reject_spec(s, BridgeError::MalformedRequest(e), bad_request_response()),
        Ok(None) => if s.client.len() >= s.capacity {
            reject_spec(s, BridgeError::RequestTooLarge, too_large_response())
        } else {
            (s, ActionView::ReadClient((s.capacity - s.client.len()) as usize))
        },
        Ok(Some(frame)) => match frame.2 {
            None => reject_spec(s, BridgeError::NoPath, bad_request_response()),
            Some(path) => match first_route(rules, utf8_bytes(path)) {
                None => reject_spec(s, BridgeError::NoRoute, bad_request_response()),
                Some(r) => {
                    let s2 = BridgeView { pending_start: frame.0, pending_body: frame.1, ..s };
                    if s.connected[r] {
                        forward_request_spec(s2, r as usize)
                    } else {
                        (
                            BridgeView { phase: Phase::Connecting(r as usize), ..s2 },
                            ActionView::Connect(r as usize),
                        )
                    }
                },
            },
        },
    }
}

/// Bytes read from the client while a request head is awaited.
pub open spec fn client_data_spec(s: BridgeView, rules: Seq<Matcher>, d: Seq<u8>) -> (BridgeView, ActionView) {
    if d.len() == 0 {
        if s.client.len() == 0 {
            (BridgeView { phase: Phase::Closed, ..s }, ActionView::Finish)
        } else {
            reject_spec(s, BridgeError::ClientVanished, bad_request_response())
        }
    } else if s.client.len() + d.len() > s.capacity {
        reject_spec(s, BridgeError::RequestTooLarge, too_large_response())
    } else {
        examine_spec(BridgeView { client: s.client + d, ..s }, rules)
    }
}

/// Start reading the response of a route.
pub open spec fn await_response_spec(s: BridgeView, route: usize) -> (BridgeView, ActionView) {
    (
        BridgeView { server: Seq::empty(), phase: Phase::AwaitingResponse(route), ..s },
        ActionView::ReadBackend(route, s.capacity),
    )
}

/// Bytes read from the backend while a response head is awaited.
pub open spec fn backend_data_spec(s: BridgeView, route: usize, d: Seq<u8>) -> (BridgeView, ActionView) {
    if d.len() == 0 {
        abort_spec(s, BridgeError::BackendEof)
    } else if s.server.len() + d.len() > s.capacity {
        abort_spec(s, BridgeError::ResponseTooLarge)
    } else {
        let buf = s.server + d;
        match response_frame(buf) {
            Err(e) => abort_spec(BridgeView { server: buf, ..s }, BridgeError::MalformedResponse(e)),
            Ok(None) => if buf.len() >= s.capacity {
                abort_spec(BridgeView { server: buf, ..s }, BridgeError::ResponseTooLarge)
            } else {
                (
                    BridgeView { server: buf, ..s },
                    ActionView::ReadBackend(route, (s.capacity - buf.len()) as usize),
                )
            },
            Ok(Some(frame)) => {
                let m = min(frame.1 as int, buf.len() - frame.0);
                (
                    BridgeView {
                        server: Seq::empty(),
                        pending_body: (frame.1 - m) as usize,
                        phase: Phase::SendingResponse(route),
                        ..s
                    },
                    ActionView::SendToClient(buf.subrange(0, frame.0 + m)),
                )
            },
        }
    }
}

/// Start on the next request: parse what the client already sent, or read.
pub open spec fn next_request_spec(s: BridgeView, rules: Seq<Matcher>) -> (BridgeView, ActionView) {
    let s2 = BridgeView {
        server: Seq::empty(),
        pending_start: 0,
        pending_body: 0,
        phase: Phase::AwaitingRequest,
        ..s
    };
    if s.client.len() > 0 {
        examine_spec(s2, rules)
    } else {
        (s2, ActionView::ReadClient(s.capacity))
    }
}

/// One transition of the bridge.
pub open spec fn step_spec(s: BridgeView, rules: Seq<Matcher>, e: EventView) -> (BridgeView, ActionView) {
    match s.phase {
        Phase::Closed => (s, ActionView::Finish),
        Phase::AwaitingRequest => match e {
            EventView::ClientData(d) => client_data_spec(s, rules, d),
            EventView::IoFailed => abort_spec(s, BridgeError::Io),
            _ => abort_spec(s, BridgeError::UnexpectedEvent),
        },
        Phase::Connecting(r) => match e {
            EventView::Connected => forward_request_spec(
                BridgeView { connected: s.connected.update(r as int, true), ..s },
                r,
            ),
            EventView::ConnectFailed => abort_spec(s, BridgeError::ConnectFailed),
            EventView::IoFailed => abort_spec(s, BridgeError::Io),
            _ => abort_spec(s, BridgeError::UnexpectedEvent),
        },
        Phase::SendingRequest(r) => match e {
            EventView::Sent => if s.pending_body > 0 {
                (
                    BridgeView { phase: Phase::StreamingRequest(r), ..s },
                    ActionView::CopyToBackend(r, s.pending_body),
                )
            } else {
                await_response_spec(s, r)
            },
            EventView::IoFailed => abort_spec(s, BridgeError::Io),
            _ => abort_spec(s, BridgeError::UnexpectedEvent),
        },
        Phase::StreamingRequest(r) => match e {
            EventView::Copied => await_response_spec(BridgeView { pending_body: 0, ..s }, r),
            EventView::CopyTruncated(k) => abort_spec(s, BridgeError::ClientEof(k)),
            EventView::IoFailed => abort_spec(s, BridgeError::Io),
            _ => abort_spec(s, BridgeError::UnexpectedEvent),
        },
        Phase::AwaitingResponse(r) => match e {
            EventView::BackendData(d) => backend_data_spec(s, r, d),
            EventView::IoFailed => abort_spec(s, BridgeError::Io),
            _ => abort_spec(s, BridgeError::UnexpectedEvent),
        },
        Phase::SendingResponse(r) => match e {
            EventView::Sent => if s.pending_body > 0 {
                (
                    BridgeView { phase: Phase::StreamingResponse(r), ..s },
                    ActionView::CopyToClient(r, s.pending_body),
                )
            } else {
                next_request_spec(s, rules)
            },
            EventView::IoFailed => abort_spec(s, BridgeError::Io),
            _ => abort_spec(s, BridgeError::UnexpectedEvent),
        },
        Phase::StreamingResponse(r) => match e {
            EventView::Copied => next_request_spec(BridgeView { pending_body: 0, ..s }, rules),
            EventView::CopyTruncated(k) => abort_spec(s, BridgeError::BackendEofInBody(k)),
            EventView::IoFailed => abort_spec(s, BridgeError::Io),
            _ => abort_spec(s, BridgeError::UnexpectedEvent),
        },
    }
}

pub open spec fn phase_route_ok(p: Phase, routes: nat) -> bool {
    match p {
        Phase::Connecting(r) | Phase::SendingRequest(r) | Phase::StreamingRequest(r)
        | Phase::AwaitingResponse(r) | Phase::SendingResponse(r) | Phase::StreamingResponse(r) => r
            < routes,
        _ => true,
    }
}

/// The invariant of a bridge: both buffers within capacity, the head inside
/// the client bytes, and every route index within the table.
pub open spec fn bridge_wf(s: BridgeView) -> bool {
    &&& s.capacity > 0
    &&& s.client.len() <= s.capacity
    &&& s.server.len() <= s.capacity
    &&& s.pending_start <= s.client.len()
    &&& phase_route_ok(s.phase, s.connected.len())
}

/// The per-connection bridge: its two receive buffers, its offsets, and which
/// backend connections it has opened.
pub struct Adapter {
    capacity: usize,
    buf_client: Vec<u8>,
    buf_server: Vec<u8>,
    pending_start: usize,
    pending_body: usize,
    connected: Vec<bool>,
    phase: Phase,
}

impl View for Adapter {
    type V = BridgeView;

    closed spec fn view(&self) -> BridgeView {
        BridgeView {
            capacity: self.capacity,
            client: self.buf_client@,
            server: self.buf_server@,
            pending_start: self.pending_start,
            pending_body: self.pending_body,
            connected: self.connected@,
            phase: self.phase,
        }
    }
}

impl Adapter {
    /// A bridge for a new client connection, with receive buffers of the
    /// configured size and no backend connection yet.
    pub fn new(config: &HpsConfig) -> (r: Adapter)
        requires
            config.buffer_size > 0,
        ensures
            bridge_wf(r@),
            r@.capacity == config.buffer_size,
            r@.client.len() == 0,
            r@.server.len() == 0,
            r@.pending_start == 0,
            r@.pending_body == 0,
            r@.connected.len() == config.paths@.len(),
            forall|i: int| 0 <= i < r@.connected.len() ==> !r@.connected[i],
            r@.phase == Phase::AwaitingRequest,
    {
        let mut connected: Vec<bool> = Vec::new();
        let mut i: usize = 0;
        while i < config.paths.len()
            invariant
                i <= config.paths@.len(),
                connected@.len() == i,
                forall|j: int| 0 <= j < i ==> !connected@[j],
            decreases config.paths@.len() - i,
        {
            connected.push(false);
            i = i + 1;
        }
        Adapter {
            capacity: config.buffer_size,
            buf_client: Vec::new(),
            buf_server: Vec::new(),
            pending_start: 0,
            pending_body: 0,
            connected,
            phase: Phase::AwaitingRequest,
        }
    }

    /// The phase the bridge is in.
    pub fn phase(&self) -> (r: Phase)
        ensures
            r == self@.phase,
    {
        self.phase
    }

    /// How many routes the bridge was made for.
    pub fn route_count(&self) -> (r: usize)
        ensures
            r == self@.connected.len(),
    {
        self.connected.len()
    }

    /// The first action on a new connection: read the first request.
    pub fn first_action(&self) -> (r: Action)
        requires
            bridge_wf(self@),
        ensures
            r@ == ActionView::ReadClient((self@.capacity - self@.client.len()) as usize),
    {
        Action::ReadClient(self.capacity - self.buf_client.len())
    }
}


impl Adapter {
    /// Ends the connection with the response `response_line` and
    /// `response_content` to the client, for the reason `e`.
    pub fn send_client_error(&mut self, e: BridgeError, response_line: &str, response_content: &str) -> (r: Action)
        requires
            bridge_wf(old(self)@),
        ensures
            bridge_wf(final(self)@),
            (final(self)@, r@) == reject_spec(old(self)@, e, error_response(response_line@, response_content@)),
    {
        let response = client_error_bytes(response_line, response_content);
        self.phase = Phase::Closed;
        Action::Reject(e, response)
    }

    /// Ends the connection with a 431 response.
    pub fn request_too_large(&mut self) -> (r: Action)
        requires
            bridge_wf(old(self)@),
        ensures
            bridge_wf(final(self)@),
            (final(self)@, r@) == reject_spec(old(self)@, BridgeError::RequestTooLarge, too_large_response()),
    {
        self.send_client_error(BridgeError::RequestTooLarge, REQUEST_TOO_LARGE, REQUEST_TOO_LARGE_MESSAGE)
    }

    /// Ends the connection with a 400 response, for the reason `e`.
    pub fn bad_request(&mut self, e: BridgeError) -> (r: Action)
        requires
            bridge_wf(old(self)@),
        ensures
            bridge_wf(final(self)@),
            (final(self)@, r@) == reject_spec(old(self)@, e, bad_request_response()),
    {
        self.send_client_error(e, BAD_REQUEST, BAD_REQUEST_MESSAGE)
    }

    /// Ends the connection without a response, for the reason `e`.
    pub fn abort(&mut self, e: BridgeError) -> (r: Action)
        requires
            bridge_wf(old(self)@),
        ensures
            bridge_wf(final(self)@),
            (final(self)@, r@) == abort_spec(old(self)@, e),
    {
        self.phase = Phase::Closed;
        Action::Abort(e)
    }

    /// Hands the routed request to the backend of `route`: its head and the
    /// body bytes already held, up to the declared length. Bytes past that
    /// stay, at the start of the buffer, as the start of the next request.
    pub fn forward_request_to_server(&mut self, route: usize) -> (r: Action)
        requires
            bridge_wf(old(self)@),
            route < old(self)@.connected.len(),
        ensures
            bridge_wf(final(self)@),
            (final(self)@, r@) == forward_request_spec(old(self)@, route),
    {
        let held = self.buf_client.len() - self.pending_start;
        let m = if self.pending_body < held {
            self.pending_body
        } else {
            held
        };
        let k = self.pending_start + m;
        let mut out = self.buf_client.split_off(k);
        core::mem::swap(&mut out, &mut self.buf_client);
        self.pending_start = 0;
        self.pending_body = self.pending_body - m;
        self.phase = Phase::SendingRequest(route);
        Action::SendToBackend(route, out)
    }

    /// Decides on the client bytes held: a malformed head or one without a
    /// path or route is rejected with 400; an incomplete one that fills the
    /// buffer with 431; an incomplete one that does not is read further; a
    /// routed one is forwarded, once its backend connection is open.
    pub fn examine(&mut self, config: &HpsConfig) -> (r: Action)
        requires
            bridge_wf(old(self)@),
            config.paths@.len() == old(self)@.connected.len(),
        ensures
            bridge_wf(final(self)@),
            (final(self)@, r@) == examine_spec(old(self)@, config.paths@),
    {
        let parsed = parse_request(self.buf_client.as_slice());
        let frame = match parsed {
            Err(e) => return self.bad_request(BridgeError::MalformedRequest(e)),
            Ok(None) => {
                if self.buf_client.len() >= self.capacity {
                    return self.request_too_large();
                }
                return Action::ReadClient(self.capacity - self.buf_client.len());
            },
            Ok(Some(frame)) => frame,
        };
        let route = match &frame.path {
            None => return self.bad_request(BridgeError::NoPath),
            Some(path) => match config.match_route(path.as_str()) {
                None => return self.bad_request(BridgeError::NoRoute),
                Some(route) => route,
            },
        };
        self.pending_start = frame.parsed_len;
        self.pending_body = frame.content_length;
        if self.connected[route] {
            self.forward_request_to_server(route)
        } else {
            self.phase = Phase::Connecting(route);
            Action::Connect(route)
        }
    }

    /// Takes bytes read from the client while a request head is awaited.
    /// None at all: the client closed, quietly between requests, or in the
    /// middle of a head, which is a bad request.
    pub fn get_req_path(&mut self, config: &HpsConfig, data: Vec<u8>) -> (r: Action)
        requires
            bridge_wf(old(self)@),
            config.paths@.len() == old(self)@.connected.len(),
        ensures
            bridge_wf(final(self)@),
            (final(self)@, r@) == client_data_spec(old(self)@, config.paths@, data@),
    {
        let mut data = data;
        if data.len() == 0 {
            if self.buf_client.len() == 0 {
                self.phase = Phase::Closed;
                return Action::Finish;
            }
            return self.bad_request(BridgeError::ClientVanished);
        }
        if data.len() > self.capacity - self.buf_client.len() {
            return self.request_too_large();
        }
        self.buf_client.append(&mut data);
        self.examine(config)
    }

    /// Starts reading the response of `route`.
    pub fn await_response(&mut self, route: usize) -> (r: Action)
        requires
            bridge_wf(old(self)@),
            route < old(self)@.connected.len(),
        ensures
            bridge_wf(final(self)@),
            (final(self)@, r@) == await_response_spec(old(self)@, route),
    {
        self.buf_server = Vec::new();
        self.phase = Phase::AwaitingResponse(route);
        Action::ReadBackend(route, self.capacity)
    }

    /// Takes bytes read from the backend of `route` while a response head is
    /// awaited. Once the head is complete, it goes to the client with the
    /// body bytes already held, up to the declared length.
    pub fn forward_response_to_client(&mut self, route: usize, data: Vec<u8>) -> (r: Action)
        requires
            bridge_wf(old(self)@),
            route < old(self)@.connected.len(),
        ensures
            bridge_wf(final(self)@),
            (final(self)@, r@) == backend_data_spec(old(self)@, route, data@),
    {
        let mut data = data;
        if data.len() == 0 {
            return self.abort(BridgeError::BackendEof);
        }
        if data.len() > self.capacity - self.buf_server.len() {
            return self.abort(BridgeError::ResponseTooLarge);
        }
        let mut buf = Vec::new();
        core::mem::swap(&mut buf, &mut self.buf_server);
        buf.append(&mut data);
        let frame = match parse_response(buf.as_slice()) {
            Err(e) => {
                self.buf_server = buf;
                return self.abort(BridgeError::MalformedResponse(e));
            },
            Ok(None) => {
                if buf.len() >= self.capacity {
                    self.buf_server = buf;
                    return self.abort(BridgeError::ResponseTooLarge);
                }
                let room = self.capacity - buf.len();
                self.buf_server = buf;
                return Action::ReadBackend(route, room);
            },
            Ok(Some(frame)) => frame,
        };
        let held = buf.len() - frame.parsed_len;
        let m = if frame.content_length < held {
            frame.content_length
        } else {
            held
        };
        buf.truncate(frame.parsed_len + m);
        self.pending_body = frame.content_length - m;
        self.phase = Phase::SendingResponse(route);
        Action::SendToClient(buf)
    }

    /// Starts on the next request: a pipelined one already held is parsed
    /// before anything more is read.
    pub fn next_request(&mut self, config: &HpsConfig) -> (r: Action)
        requires
            bridge_wf(old(self)@),
            config.paths@.len() == old(self)@.connected.len(),
        ensures
            bridge_wf(final(self)@),
            (final(self)@, r@) == next_request_spec(old(self)@, config.paths@),
    {
        self.buf_server = Vec::new();
        self.pending_start = 0;
        self.pending_body = 0;
        self.phase = Phase::AwaitingRequest;
        if self.buf_client.len() > 0 {
            self.examine(config)
        } else {
            Action::ReadClient(self.capacity)
        }
    }

    /// Takes what came of the last action and returns the next one.
    pub fn run(&mut self, config: &HpsConfig, event: Event) -> (r: Action)
        requires
            bridge_wf(old(self)@),
            config.paths@.len() == old(self)@.connected.len(),
        ensures
            bridge_wf(final(self)@),
            final(self)@.connected.len() == old(self)@.connected.len(),
            final(self)@.capacity == old(self)@.capacity,
            (final(self)@, r@) == step_spec(old(self)@, config.paths@, event@),
    {
        match self.phase {
            Phase::Closed => Action::Finish,
            Phase::AwaitingRequest => match event {
                Event::ClientData(d) => self.get_req_path(config, d),
                Event::IoFailed => self.abort(BridgeError::Io),
                _ => self.abort(BridgeError::UnexpectedEvent),
            },
            Phase::Connecting(route) => match event {
                Event::Connected => {
                    self.connected.set(route, true);
                    self.forward_request_to_server(route)
                },
                Event::ConnectFailed => self.abort(BridgeError::ConnectFailed),
                Event::IoFailed => self.abort(BridgeError::Io),
                _ => self.abort(BridgeError::UnexpectedEvent),
            },
            Phase::SendingRequest(route) => match event {
                Event::Sent => {
                    if self.pending_body > 0 {
                        self.phase = Phase::StreamingRequest(route);
                        Action::CopyToBackend(route, self.pending_body)
                    } else {
                        self.await_response(route)
                    }
                },
                Event::IoFailed => self.abort(BridgeError::Io),
                _ => self.abort(BridgeError::UnexpectedEvent),
            },
            Phase::StreamingRequest(route) => match event {
                Event::Copied => {
                    self.pending_body = 0;
                    self.await_response(route)
                },
                Event::CopyTruncated(k) => self.abort(BridgeError::ClientEof(k)),
                Event::IoFailed => self.abort(BridgeError::Io),
                _ => self.abort(BridgeError::UnexpectedEvent),
            },
            Phase::AwaitingResponse(route) => match event {
                Event::BackendData(d) => self.forward_response_to_client(route, d),
                Event::IoFailed => self.abort(BridgeError::Io),
                _ => self.abort(BridgeError::UnexpectedEvent),
            },
            Phase::SendingResponse(route) => match event {
                Event::Sent => {
                    if self.pending_body > 0 {
                        self.phase = Phase::StreamingResponse(route);
                        Action::CopyToClient(route, self.pending_body)
                    } else {
                        self.next_request(config)
                    }
                },
                Event::IoFailed => self.abort(BridgeError::Io),
                _ => self.abort(BridgeError::UnexpectedEvent),
            },
            Phase::StreamingResponse(route) => match event {
                Event::Copied => {
                    self.pending_body = 0;
                    self.next_request(config)
                },
                Event::CopyTruncated(k) => self.abort(BridgeError::BackendEofInBody(k)),
                Event::IoFailed => self.abort(BridgeError::Io),
                _ => self.abort(BridgeError::UnexpectedEvent),
            },
        }
    }
}

/// The outcome of handing `chunks` to the bridge one client read at a time,
/// for as long as it asks for more.
pub open spec fn feed_client(s: BridgeView, rules: Seq<Matcher>, chunks: Seq<Seq<u8>>) -> (BridgeView, ActionView)
    decreases chunks.len(),
{
    if chunks.len() == 0 {
        (s, ActionView::ReadClient((s.capacity - s.client.len()) as usize))
    } else {
        let (s1, a1) = step_spec(s, rules, EventView::ClientData(chunks[0]));
        if chunks.len() > 1 && a1 is ReadClient {
            feed_client(s1, rules, chunks.drop_first())
        } else {
            (s1, a1)
        }
    }
}

proof fn lemma_take_flatten(chunks: Seq<Seq<u8>>, j: int)
    requires
        0 <= j < chunks.len(),
    ensures
        chunks.take(j + 1).flatten() == chunks[0] + chunks.drop_first().take(j).flatten(),
{
    let t = chunks.take(j + 1);
    assert(t.drop_first() =~= chunks.drop_first().take(j));
    assert(t.first() == chunks[0]);
}

/// Chunk boundaries do not matter: a request head that arrives over several
/// reads, each but the last leaving it incomplete, is decided exactly as if
/// all of its bytes had come in one read.
pub proof fn lemma_chunked_reads_match_contiguous(s: BridgeView, rules: Seq<Matcher>, chunks: Seq<Seq<u8>>)
    requires
        bridge_wf(s),
        s.phase == Phase::AwaitingRequest,
        s.connected.len() == rules.len(),
        chunks.len() > 0,
        forall|i: int| 0 <= i < chunks.len() ==> (#[trigger] chunks[i]).len() > 0,
        s.client.len() + chunks.flatten().len() <= s.capacity,
        forall|j: int|
            1 <= j < chunks.len() ==> request_frame(s.client + #[trigger] chunks.take(j).flatten()) == Ok::<
                Option<FrameView>,
                FrameError,
            >(None),
    ensures
        feed_client(s, rules, chunks) == step_spec(s, rules, EventView::ClientData(chunks.flatten())),
    decreases chunks.len(),
{
    let c0 = chunks[0];
    let rest = chunks.drop_first();
    assert(chunks.flatten() == c0 + rest.flatten());
    if chunks.len() == 1 {
        assert(rest.flatten() =~= Seq::<u8>::empty());
        assert(chunks.flatten() =~= c0);
    } else {
        lemma_take_flatten(chunks, 0);
        assert(chunks.drop_first().take(0).flatten() =~= Seq::<u8>::empty());
        assert(chunks.take(1).flatten() =~= c0);
        assert(rest[0] == chunks[1]);
        assert(rest.flatten() == rest[0] + rest.drop_first().flatten());
        let s1 = BridgeView { client: s.client + c0, ..s };
        assert(request_frame(s.client + chunks.take(1).flatten()) == Ok::<Option<FrameView>, FrameError>(None));
        assert(step_spec(s, rules, EventView::ClientData(c0)) == (
            s1,
            ActionView::ReadClient((s.capacity - s1.client.len()) as usize),
        ));
        assert forall|j: int| 1 <= j < rest.len() implies request_frame(
            s1.client + #[trigger] rest.take(j).flatten(),
        ) == Ok::<Option<FrameView>, FrameError>(None) by {
            lemma_take_flatten(chunks, j);
            assert(s1.client + rest.take(j).flatten() =~= s.client + chunks.take(j + 1).flatten());
        }
        lemma_chunked_reads_match_contiguous(s1, rules, rest);
        assert(s1.client + rest.flatten() =~= s.client + chunks.flatten());
    }
}

/// Once closed, a bridge stays closed and asks for nothing more.
pub proof fn lemma_closed_is_final(s: BridgeView, rules: Seq<Matcher>, e: EventView)
    requires
        s.phase == Phase::Closed,
    ensures
        step_spec(s, rules, e) == (s, ActionView::Finish),
{
}

/// A request head larger than the buffer is answered with one 431 response
/// and the connection closes: no byte of it goes to a backend, whatever the
/// sizes of the reads that bring it.
pub proof fn lemma_oversized_head_gets_431(s: BridgeView, rules: Seq<Matcher>, chunks: Seq<Seq<u8>>)
    requires
        bridge_wf(s),
        s.phase == Phase::AwaitingRequest,
        s.connected.len() == rules.len(),
        s.client.len() < s.capacity,
        forall|i: int| 0 <= i < chunks.len() ==> (#[trigger] chunks[i]).len() > 0,
        s.client.len() + chunks.flatten().len() >= s.capacity,
        forall|j: int|
            0 <= j <= chunks.len() && s.client.len() + (#[trigger] chunks.take(j).flatten()).len()
                <= s.capacity ==> request_frame(s.client + chunks.take(j).flatten()) == Ok::<
                Option<FrameView>,
                FrameError,
            >(None),
    ensures
        feed_client(s, rules, chunks).1 == ActionView::Reject(
            BridgeError::RequestTooLarge,
            too_large_response(),
        ),
        feed_client(s, rules, chunks).0.phase == Phase::Closed,
        forall|e: EventView|
            step_spec(feed_client(s, rules, chunks).0, rules, e) == (
                feed_client(s, rules, chunks).0,
                ActionView::Finish,
            ),
    decreases chunks.len(),
{
    if chunks.len() == 0 {
        assert(chunks.flatten() =~= Seq::<u8>::empty());
    }
    let c0 = chunks[0];
    let rest = chunks.drop_first();
    assert(chunks.flatten() == c0 + rest.flatten());
    if s.client.len() + c0.len() > s.capacity {
    } else {
        lemma_take_flatten(chunks, 0);
        assert(chunks.drop_first().take(0).flatten() =~= Seq::<u8>::empty());
        assert(chunks.take(1).flatten() =~= c0);
        let s1 = BridgeView { client: s.client + c0, ..s };
        assert(request_frame(s.client + chunks.take(1).flatten()) == Ok::<Option<FrameView>, FrameError>(None));
        if s1.client.len() >= s.capacity {
        } else {
            if chunks.len() == 1 {
                assert(rest.flatten() =~= Seq::<u8>::empty());
            }
            assert forall|j: int|
                0 <= j <= rest.len() && s1.client.len() + (#[trigger] rest.take(j).flatten()).len()
                    <= s1.capacity implies request_frame(s1.client + rest.take(j).flatten()) == Ok::<
                Option<FrameView>,
                FrameError,
            >(None) by {
                if j < rest.len() {
                    lemma_take_flatten(chunks, j);
                } else {
                    assert(rest.take(j) =~= rest);
                    assert(chunks.take(j + 1) =~= chunks);
                    lemma_take_flatten(chunks, j);
                }
                assert(s1.client + rest.take(j).flatten() =~= s.client + chunks.take(j + 1).flatten());
            }
            assert forall|i: int| 0 <= i < rest.len() implies (#[trigger] rest[i]).len() > 0 by {
                assert(rest[i] == chunks[i + 1]);
            }
            lemma_oversized_head_gets_431(s1, rules, rest);
        }
    }
}

/// A request declaring a body of `pending_body` bytes hands the backend its
/// head and then exactly that many body bytes: those already held go with
/// the head, the rest are copied from the client. The bytes held are split,
/// not lost or repeated: what follows the body stays for the next request.
pub proof fn lemma_body_forwarded_exactly(s: BridgeView, rules: Seq<Matcher>, route: usize)
    requires
        bridge_wf(s),
        route < s.connected.len(),
    ensures
        ({
            let (s1, a) = forward_request_spec(s, route);
            &&& a matches ActionView::SendToBackend(r, bytes) && r == route && {
                &&& s.pending_start <= bytes.len()
                &&& bytes.subrange(0, s.pending_start as int) == s.client.subrange(0, s.pending_start as int)
                &&& bytes + s1.client == s.client
                &&& (bytes.len() - s.pending_start) + s1.pending_body == s.pending_body
            }
            &&& step_spec(s1, rules, EventView::Sent).1 == if s1.pending_body > 0 {
                ActionView::CopyToBackend(route, s1.pending_body)
            } else {
                ActionView::ReadBackend(route, s.capacity)
            }
        }),
{
    let m = min(s.pending_body as int, s.client.len() - s.pending_start);
    let k = s.pending_start + m;
    assert(s.client.subrange(0, k) + s.client.subrange(k, s.client.len() as int) =~= s.client);
    assert(s.client.subrange(0, k).subrange(0, s.pending_start as int) =~= s.client.subrange(
        0,
        s.pending_start as int,
    ));
}

/// The client receives the response exactly as the backend sent it: its
/// head and the body bytes read with it, a prefix of what came from the
/// backend, and then a copy of the rest of the declared body.
pub proof fn lemma_response_relayed_verbatim(s: BridgeView, rules: Seq<Matcher>, route: usize, d: Seq<u8>)
    requires
        bridge_wf(s),
        s.phase == Phase::AwaitingResponse(route),
        d.len() > 0,
        s.server.len() + d.len() <= s.capacity,
        response_frame(s.server + d) is Ok,
        response_frame(s.server + d)->Ok_0 is Some,
        response_frame(s.server + d)->Ok_0->Some_0.0 <= s.server.len() + d.len(),
    ensures
        ({
            let frame = response_frame(s.server + d)->Ok_0->Some_0;
            let (s1, a) = step_spec(s, rules, EventView::BackendData(d));
            &&& a matches ActionView::SendToClient(bytes) && {
                &&& frame.0 <= bytes.len()
                &&& bytes == (s.server + d).subrange(0, bytes.len() as int)
                &&& (bytes.len() - frame.0) + s1.pending_body == frame.1
            }
            &&& step_spec(s1, rules, EventView::Sent).1 matches ActionView::CopyToClient(r, n) ==> r
                == route && n == s1.pending_body
            &&& s1.pending_body > 0 ==> step_spec(s1, rules, EventView::Sent).1
                == ActionView::CopyToClient(route, s1.pending_body)
        }),
{
}

/// Whether an event completes the relay of the current response.
pub open spec fn completes_response(s: BridgeView, e: EventView) -> bool {
    ||| (s.phase is SendingResponse && e is Sent && s.pending_body == 0)
    ||| (s.phase is StreamingResponse && e is Copied)
}

/// Requests are handled one at a time: until the current response has been
/// relayed in full, the bridge neither reads nor parses the client bytes that
/// follow the current request (a pipelined request waits, held, at the end
/// of the buffer); once it has, those held bytes are parsed before anything
/// more is read.
pub proof fn lemma_one_request_at_a_time(s: BridgeView, rules: Seq<Matcher>, e: EventView)
    requires
        bridge_wf(s),
        s.connected.len() == rules.len(),
        s.phase != Phase::AwaitingRequest,
        s.phase != Phase::Closed,
    ensures
        ({
            let (s1, a) = step_spec(s, rules, e);
            &&& !completes_response(s, e) ==> {
                &&& !(a is ReadClient)
                &&& !(a is Reject)
                &&& s1.phase != Phase::AwaitingRequest
                &&& s1.client.len() <= s.client.len()
                &&& s1.client == s.client.subrange(s.client.len() - s1.client.len(), s.client.len() as int)
            }
            &&& completes_response(s, e) ==> (s1, a) == next_request_spec(
                BridgeView { pending_body: 0, ..s },
                rules,
            )
            &&& completes_response(s, e) && s.client.len() > 0 ==> (s1, a) == examine_spec(
                BridgeView {
                    server: Seq::empty(),
                    pending_start: 0,
                    pending_body: 0,
                    phase: Phase::AwaitingRequest,
                    ..s
                },
                rules,
            )
        }),
{
    if completes_response(s, e) {
        if s.phase is SendingResponse {
            assert(BridgeView { pending_body: 0, ..s } == s);
        }
    } else {
        assert(s.client.subrange(0, s.client.len() as int) =~= s.client);
        if s.phase is Connecting && e is Connected {
            let r = s.phase->Connecting_0;
            let sc = BridgeView { connected: s.connected.update(r as int, true), ..s };
            let m = min(sc.pending_body as int, sc.client.len() - sc.pending_start);
            let k = sc.pending_start + m;
            assert(s.client.subrange(k, s.client.len() as int) =~= s.client.subrange(
                s.client.len() - (s.client.len() - k),
                s.client.len() as int,
            ));
        }
    }
}

} // verus!
