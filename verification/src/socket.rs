//! One tunnelled connection: its opening, and the data that goes both ways.

use crate::chainpack::{frame_overflows, meta_overflows};
use crate::number::{parse_u64, unsigned, IntError};
use crate::text::{decimal, opt_text, push_u64, text_outcome};
use crate::wire::{
    body_error, bytes_outcome, carries, check_body, frame_meta, framed, message_error, read_frame,
    result_blob, result_string, result_to_blob, result_to_string, FrameMeta, MetaView, Param,
    ParamView, Request, RequestView,
};
use vstd::prelude::*;

verus! {

/// The request that opens a tunnel to `host`.
pub open spec fn create_of(request_id: i64, host: Seq<char>) -> RequestView {
    RequestView {
        request_id,
        seqno: None,
        path: ".app/tunnel"@,
        method: "create"@,
        param: ParamView::Entry("host"@, host),
    }
}

/// Makes the request that opens a tunnel to `host`.
pub fn create_request(request_id: i64, host: &str) -> (r: Request)
    ensures
        r@ == create_of(request_id, host@),
{
    Request {
        request_id,
        seqno: None,
        path: ".app/tunnel".to_owned(),
        method: "create".to_owned(),
        param: Param::Entry("host".to_owned(), host.to_owned()),
    }
}

/// The path of an open tunnel.
pub open spec fn tunnel_path(id: Seq<char>) -> Seq<char> {
    ".app/tunnel/"@ + id
}

/// The request that writes to a tunnel.
pub open spec fn write_of(
    request_id: i64,
    seqno: Option<u64>,
    id: Seq<char>,
    data: Option<Seq<u8>>,
) -> RequestView {
    RequestView {
        request_id,
        seqno,
        path: tunnel_path(id),
        method: "write"@,
        param: match data {
            Some(d) => ParamView::Blob(d),
            None => ParamView::Absent,
        },
    }
}

/// The bytes in an optional slice.
pub open spec fn opt_bytes(o: Option<&[u8]>) -> Option<Seq<u8>> {
    match o {
        Some(b) => Some(b@),
        None => None,
    }
}

/// Makes the request that writes `data`, if any, to the tunnel with this id.
pub fn write_request(request_id: i64, seqno: Option<u64>, id: &str, data: Option<&[u8]>) -> (r:
    Request)
    ensures
        r@ == write_of(request_id, seqno, id@, opt_bytes(data)),
{
    let mut path = ".app/tunnel/".to_owned();
    path.append(id);
    Request {
        request_id,
        seqno,
        path,
        method: "write".to_owned(),
        param: match data {
            Some(d) => Param::Blob(vstd::slice::slice_to_vec(d)),
            None => Param::Absent,
        },
    }
}

/// The number of the tunnel in the answer to the opening request.
pub open spec fn tunnel_number(result: Result<Seq<char>, Seq<char>>) -> Result<int, Seq<char>> {
    match result {
        Ok(s) => match unsigned(s, u64::MAX as int) {
            Ok(n) => Ok(n),
            Err(e) => Err(e.text()),
        },
        Err(e) => Err(e),
    }
}

/// Reads the number of the tunnel from the answer to the opening request.
pub fn read_tunnel_number(result: Result<String, String>) -> (r: Result<u64, String>)
    ensures
        match r {
            Ok(n) => tunnel_number(text_outcome(result)) == Ok::<int, Seq<char>>(n as int),
            Err(e) => tunnel_number(text_outcome(result)) == Err::<int, Seq<char>>(e@),
        },
{
    match result {
        Ok(s) => match parse_u64(s.as_str()) {
            Ok(n) => Ok(n),
            Err(e) => Err(e.message()),
        },
        Err(e) => Err(e),
    }
}

/// The result in the message of a frame as a string, or why there is none.
pub open spec fn string_in(raw: Seq<u8>) -> Result<Seq<char>, Seq<char>> {
    match body_error(raw) {
        Some(e) => Err(e),
        None => result_string(raw),
    }
}

/// Gives the result in the message of a frame as a string.
pub fn read_string(raw: &[u8]) -> (r: Result<String, String>)
    ensures
        text_outcome(r) == string_in(raw@),
{
    match check_body(raw) {
        Some(e) => Err(e),
        None => result_to_string(raw),
    }
}

/// The result in the message of a frame as bytes, or why there is none.
pub open spec fn bytes_in(raw: Seq<u8>) -> Result<Seq<u8>, Seq<char>> {
    match body_error(raw) {
        Some(e) => Err(e),
        None => result_blob(raw),
    }
}

/// Gives the result in the message of a frame as bytes.
pub fn read_bytes(raw: &[u8]) -> (r: Result<Vec<u8>, String>)
    ensures
        bytes_outcome(r) == bytes_in(raw@),
{
    match check_body(raw) {
        Some(e) => Err(e),
        None => result_to_blob(raw),
    }
}

/// What a frame from the broker does to the reading side of a tunnel.
#[derive(Debug, PartialEq, Eq)]
pub struct Delivery {
    /// The lowest number that data may have from now on.
    pub next_seqno: u64,
    /// The data to write to the socket.
    pub data: Option<Vec<u8>>,
    /// What is to be logged about the number.
    pub warning: Option<String>,
}

/// The contents of a `Delivery`.
pub struct DeliveryView {
    pub next_seqno: int,
    pub data: Option<Seq<u8>>,
    pub warning: Option<Seq<char>>,
}

impl View for Delivery {
    type V = DeliveryView;

    open spec fn view(&self) -> DeliveryView {
        DeliveryView {
            next_seqno: self.next_seqno as int,
            data: match self.data {
                Some(d) => Some(d@),
                None => None,
            },
            warning: opt_text(self.warning),
        }
    }
}

/// What is to be logged about the number of some data.
pub open spec fn seqno_warning(expected: u64, seqno: Option<u64>) -> Option<Seq<char>> {
    match seqno {
        None => Some("Seqno not received, ignoring data."@),
        Some(n) => if expected > n {
            Some(
                "Seqno: "@ + decimal(n as int) + " received already, expected value: "@ + decimal(
                    expected as int,
                ) + ", ignoring data."@,
            )
        } else if expected < n {
            Some(
                "Seqno: "@ + decimal(n as int) + " greater than expected: "@ + decimal(
                    expected as int,
                ) + ", some data was lost!."@,
            )
        } else {
            None
        },
    }
}

/// Words what is to be logged about the number of some data.
pub fn warn_about_seqno(expected: u64, seqno: Option<u64>) -> (r: Option<String>)
    ensures
        opt_text(r) == seqno_warning(expected, seqno),
{
    match seqno {
        None => Some("Seqno not received, ignoring data.".to_owned()),
        Some(n) => if expected == n {
            None
        } else {
            let mut s = "Seqno: ".to_owned();
            push_u64(&mut s, n);
            if expected > n {
                s.append(" received already, expected value: ");
                push_u64(&mut s, expected);
                s.append(", ignoring data.");
            } else {
                s.append(" greater than expected: ");
                push_u64(&mut s, expected);
                s.append(", some data was lost!.");
            }
            Some(s)
        },
    }
}

/// What numbered data does: it is written, unless its number is missing or was passed already.
pub open spec fn delivered(expected: u64, seqno: Option<u64>, data: Seq<u8>) -> DeliveryView {
    let warning = seqno_warning(expected, seqno);
    match seqno {
        Some(n) if expected <= n => DeliveryView { next_seqno: n + 1, data: Some(data), warning },
        _ => DeliveryView { next_seqno: expected as int, data: None, warning },
    }
}

/// Decides about numbered data. There is no number behind the last one.
pub fn deliver(expected: u64, seqno: Option<u64>, data: Vec<u8>) -> (r: Delivery)
    requires
        seqno matches Some(n) ==> n < u64::MAX,
    ensures
        r@ == delivered(expected, seqno, data@),
{
    let warning = warn_about_seqno(expected, seqno);
    match seqno {
        Some(n) if expected <= n => Delivery { next_seqno: n + 1, data: Some(data), warning },
        _ => Delivery { next_seqno: expected, data: None, warning },
    }
}

/// What a frame from the broker does, given what was read of it. A frame with another request id
/// does nothing.
pub open spec fn frame_effect(
    request_id: i64,
    expected: u64,
    meta: Result<MetaView, Seq<char>>,
    bytes: Result<Seq<u8>, Seq<char>>,
) -> Result<DeliveryView, Seq<char>> {
    match meta {
        Err(e) => Err(e),
        Ok(m) => if m.id() != request_id {
            Ok(DeliveryView { next_seqno: expected as int, data: None, warning: None })
        } else {
            match bytes {
                Err(e) => Err(e),
                Ok(data) => Ok(delivered(expected, m.seqno, data)),
            }
        },
    }
}

/// Decides what the frame `raw` from the broker does to the tunnel that is written to under this
/// request id. `None` stands for the last number there is, behind which none can be expected.
pub fn process_broker_to_socket_frame(request_id: i64, expected: u64, raw: &[u8]) -> (r: Option<
    Result<Delivery, String>,
>)
    ensures
        ({
            let effect = frame_effect(request_id, expected, framed(raw@), bytes_in(raw@));
            match r {
                Some(Ok(d)) => effect == Ok::<DeliveryView, Seq<char>>(d@),
                Some(Err(e)) => effect == Err::<DeliveryView, Seq<char>>(e@),
                None => effect matches Ok(d) && d.next_seqno > u64::MAX,
            }
        }),
{
    let meta = match read_frame(raw) {
        Ok(meta) => meta,
        Err(e) => {
            return Some(Err(e));
        },
    };
    if meta.id() != request_id {
        return Some(Ok(Delivery { next_seqno: expected, data: None, warning: None }));
    }
    let data = match read_bytes(raw) {
        Ok(data) => data,
        Err(e) => {
            return Some(Err(e));
        },
    };
    match meta.seqno {
        Some(n) if n == u64::MAX => None,
        _ => Some(Ok(deliver(expected, meta.seqno, data))),
    }
}

/// The most bytes that are read from the socket at a time.
pub const READ_SIZE: usize = 1024;

/// The seconds without a frame after which the opening of a tunnel is given up.
pub const CREATE_TIMEOUT_SECS: u64 = 10;

/// The request that carries `data` from the socket to the broker, and the number of the next one.
pub open spec fn carried(tunid: u64, seqno: int, request_id: i64, data: Seq<u8>) -> (
    RequestView,
    int,
) {
    (write_of(request_id, Some(seqno as u64), decimal(tunid as int), Some(data)), seqno + 1)
}

/// Makes the request that carries `data` from the socket to the broker, and gives the number of
/// the next one.
pub fn process_socket_to_broker_data(tunid: u64, seqno: u64, request_id: i64, data: &[u8]) -> (r: (
    Request,
    u64,
))
    requires
        seqno < u64::MAX,
    ensures
        (r.0@, r.1 as int) == carried(tunid, seqno as int, request_id, data@),
{
    let mut id = String::new();
    push_u64(&mut id, tunid);
    assert(id@ =~= decimal(tunid as int));
    (write_request(request_id, Some(seqno), id.as_str(), Some(data)), seqno + 1)
}

/// How far a tunnelled connection has come.
#[derive(Debug, Clone, Copy, PartialEq, Eq, Structural)]
pub enum Phase {
    /// The broker has been asked to open the tunnel.
    Creating,
    /// Data goes both ways: the number of the tunnel, the lowest number that data from the broker
    /// may have, and the number of the next data to the broker.
    Open { tunid: u64, expected: u64, next: u64 },
    /// Nothing more happens.
    Closed,
}

/// A tunnelled connection.
#[derive(Debug, Clone, Copy, PartialEq, Eq, Structural)]
pub struct TunnelSocket {
    pub create_rqid: i64,
    pub write_rqid: i64,
    pub phase: Phase,
}

/// What is to be done for a tunnelled connection.
#[derive(Debug, PartialEq, Eq)]
pub enum SocketAction {
    /// Wait for the next event.
    Wait,
    /// Send this request to the broker.
    Send(Request),
    /// Write what was delivered to the socket.
    Deliver(Delivery),
    /// The connection is over.
    Finish,
    /// The connection failed.
    Fail(String),
}

/// The contents of a `SocketAction`.
pub enum ActionView {
    Wait,
    Send(RequestView),
    Deliver(DeliveryView),
    Finish,
    Fail(Seq<char>),
}

impl View for SocketAction {
    type V = ActionView;

    open spec fn view(&self) -> ActionView {
        match self {
            SocketAction::Wait => ActionView::Wait,
            SocketAction::Send(rq) => ActionView::Send(rq@),
            SocketAction::Deliver(d) => ActionView::Deliver(d@),
            SocketAction::Finish => ActionView::Finish,
            SocketAction::Fail(e) => ActionView::Fail(e@),
        }
    }
}

impl TunnelSocket {
    /// The connection in another phase.
    pub open spec fn in_phase(self, phase: Phase) -> TunnelSocket {
        TunnelSocket { create_rqid: self.create_rqid, write_rqid: self.write_rqid, phase }
    }

    /// What the answer to the opening request does: data starts with an empty write that has the
    /// number 0.
    pub open spec fn after_create(self, number: Result<int, Seq<char>>) -> (
        TunnelSocket,
        ActionView,
    ) {
        match number {
            Ok(n) => (
                self.in_phase(Phase::Open { tunid: n as u64, expected: 0, next: 1 }),
                ActionView::Send(write_of(self.write_rqid, Some(0), decimal(n), None)),
            ),
            Err(e) => (self.in_phase(Phase::Closed), ActionView::Fail(e)),
        }
    }

    /// What a frame from the broker does, given what was read of it. There is no next state where
    /// the numbers of the data from the broker are used up.
    pub open spec fn after_frame(
        self,
        meta: Result<MetaView, Seq<char>>,
        string: Result<Seq<char>, Seq<char>>,
        bytes: Result<Seq<u8>, Seq<char>>,
    ) -> Option<(TunnelSocket, ActionView)> {
        match self.phase {
            Phase::Creating => match meta {
                Err(e) => Some((self.in_phase(Phase::Closed), ActionView::Fail(e))),
                Ok(m) => if m.id() != self.create_rqid {
                    Some((self, ActionView::Wait))
                } else {
                    Some(self.after_create(tunnel_number(string)))
                },
            },
            Phase::Open { tunid, expected, next } => match frame_effect(
                self.write_rqid,
                expected,
                meta,
                bytes,
            ) {
                Err(e) => Some((self.in_phase(Phase::Closed), ActionView::Fail(e))),
                Ok(d) => if d.next_seqno > u64::MAX {
                    None
                } else {
                    Some(
                        (
                            self.in_phase(
                                Phase::Open { tunid, expected: d.next_seqno as u64, next },
                            ),
                            ActionView::Deliver(d),
                        ),
                    )
                },
            },
            Phase::Closed => Some((self, ActionView::Wait)),
        }
    }

    /// What data from the socket does: it is sent under the next number. No data means that the
    /// socket was closed. There is no next state where the numbers of the data to the broker are
    /// used up.
    pub open spec fn after_data(self, data: Seq<u8>) -> Option<(TunnelSocket, ActionView)> {
        match self.phase {
            Phase::Open { tunid, expected, next } => if data.len() == 0 {
                Some((self.in_phase(Phase::Closed), ActionView::Finish))
            } else if next == u64::MAX {
                None
            } else {
                Some(
                    (
                        self.in_phase(Phase::Open { tunid, expected, next: (next + 1) as u64 }),
                        ActionView::Send(
                            write_of(
                                self.write_rqid,
                                Some(next),
                                decimal(tunid as int),
                                Some(data),
                            ),
                        ),
                    ),
                )
            },
            _ => Some((self, ActionView::Wait)),
        }
    }

    /// What the end of the frames from the broker does: it fails a connection that is not open
    /// yet and ends one that is.
    pub open spec fn after_end(self, reason: Seq<char>) -> (TunnelSocket, ActionView) {
        match self.phase {
            Phase::Creating => (self.in_phase(Phase::Closed), ActionView::Fail(reason)),
            Phase::Open { .. } => (self.in_phase(Phase::Closed), ActionView::Finish),
            Phase::Closed => (self, ActionView::Wait),
        }
    }

    /// How many seconds may pass without a frame: `CREATE_TIMEOUT_SECS` until the tunnel is open,
    /// and any number then.
    pub open spec fn patience(self) -> Option<u64> {
        match self.phase {
            Phase::Creating => Some(CREATE_TIMEOUT_SECS),
            _ => None,
        }
    }

    /// What so many seconds without a frame do: a connection that is not open yet fails once its
    /// patience is used up, and nothing happens otherwise.
    pub open spec fn after_silence(self, secs: int, reason: Seq<char>) -> (
        TunnelSocket,
        ActionView,
    ) {
        match self.patience() {
            Some(limit) if secs >= limit => (
                self.in_phase(Phase::Closed),
                ActionView::Fail("Creating tunnel timeout: "@ + reason),
            ),
            _ => (self, ActionView::Wait),
        }
    }

    /// Starts a connection to `host`: gives the request that opens the tunnel.
    pub fn start(create_rqid: i64, write_rqid: i64, host: &str) -> (r: (TunnelSocket, Request))
        ensures
            r.0 == (TunnelSocket { create_rqid, write_rqid, phase: Phase::Creating }),
            r.1@ == create_of(create_rqid, host@),
    {
        (
            TunnelSocket { create_rqid, write_rqid, phase: Phase::Creating },
            create_request(create_rqid, host),
        )
    }

    /// Takes the answer to the opening request.
    pub fn on_created(&mut self, result: Result<String, String>) -> (r: SocketAction)
        ensures
            (*final(self), r@) == old(self).after_create(tunnel_number(text_outcome(result))),
    {
        match read_tunnel_number(result) {
            Ok(tunid) => {
                self.phase = Phase::Open { tunid, expected: 0, next: 1 };
                let mut id = String::new();
                push_u64(&mut id, tunid);
                assert(id@ =~= decimal(tunid as int));
                SocketAction::Send(write_request(self.write_rqid, Some(0), id.as_str(), None))
            },
            Err(e) => {
                self.phase = Phase::Closed;
                SocketAction::Fail(e)
            },
        }
    }

    /// Takes the frame `raw` from the broker. `None` stands for numbers that are used up, and
    /// changes nothing.
    pub fn on_frame(&mut self, raw: &[u8]) -> (r: Option<SocketAction>)
        ensures
            match old(self).after_frame(framed(raw@), string_in(raw@), bytes_in(raw@)) {
                Some((state, action)) => *final(self) == state && (r matches Some(a) && a@
                    == action),
                None => *final(self) == *old(self) && r is None,
            },
    {
        match self.phase {
            Phase::Closed => Some(SocketAction::Wait),
            Phase::Creating => match read_frame(raw) {
                Err(e) => {
                    self.phase = Phase::Closed;
                    Some(SocketAction::Fail(e))
                },
                Ok(meta) => if meta.id() != self.create_rqid {
                    Some(SocketAction::Wait)
                } else {
                    Some(self.on_created(read_string(raw)))
                },
            },
            Phase::Open { tunid, expected, next } => match process_broker_to_socket_frame(
                self.write_rqid,
                expected,
                raw,
            ) {
                None => None,
                Some(Err(e)) => {
                    self.phase = Phase::Closed;
                    Some(SocketAction::Fail(e))
                },
                Some(Ok(d)) => {
                    self.phase = Phase::Open { tunid, expected: d.next_seqno, next };
                    Some(SocketAction::Deliver(d))
                },
            },
        }
    }

    /// Takes data from the socket, of which `READ_SIZE` bytes at most are read at a time. `None`
    /// stands for numbers that are used up, and changes nothing.
    pub fn on_data(&mut self, data: &[u8]) -> (r: Option<SocketAction>)
        requires
            data@.len() <= READ_SIZE,
        ensures
            match old(self).after_data(data@) {
                Some((state, action)) => *final(self) == state && (r matches Some(a) && a@
                    == action),
                None => *final(self) == *old(self) && r is None,
            },
    {
        match self.phase {
            Phase::Open { tunid, expected, next } => {
                if data.len() == 0 {
                    self.phase = Phase::Closed;
                    return Some(SocketAction::Finish);
                }
                if next == u64::MAX {
                    return None;
                }
                let (rq, next) = process_socket_to_broker_data(tunid, next, self.write_rqid, data);
                self.phase = Phase::Open { tunid, expected, next };
                Some(SocketAction::Send(rq))
            },
            _ => Some(SocketAction::Wait),
        }
    }

    /// Takes the end of the frames from the broker.
    pub fn on_end(&mut self, reason: &str) -> (r: SocketAction)
        ensures
            (*final(self), r@) == old(self).after_end(reason@),
    {
        match self.phase {
            Phase::Creating => {
                self.phase = Phase::Closed;
                SocketAction::Fail(reason.to_owned())
            },
            Phase::Open { .. } => {
                self.phase = Phase::Closed;
                SocketAction::Finish
            },
            Phase::Closed => SocketAction::Wait,
        }
    }

    /// Tells how many seconds to wait for the next frame, if there is a limit.
    pub fn wait_secs(&self) -> (r: Option<u64>)
        ensures
            r == self.patience(),
    {
        match self.phase {
            Phase::Creating => Some(CREATE_TIMEOUT_SECS),
            _ => None,
        }
    }

    /// Takes the news that no frame came for `secs` seconds. The opening of a tunnel is given up
    /// after `CREATE_TIMEOUT_SECS`.
    pub fn on_timeout(&mut self, secs: u64, reason: &str) -> (r: SocketAction)
        ensures
            (*final(self), r@) == old(self).after_silence(secs as int, reason@),
    {
        let given_up = match self.wait_secs() {
            Some(limit) => secs >= limit,
            None => false,
        };
        if given_up {
            self.phase = Phase::Closed;
            let mut s = "Creating tunnel timeout: ".to_owned();
            s.append(reason);
            SocketAction::Fail(s)
        } else {
            SocketAction::Wait
        }
    }
}

/// The connection after these frames from the broker, and what is done on each of them.
pub open spec fn frame_run(socket: TunnelSocket, frames: Seq<Seq<u8>>) -> (
    TunnelSocket,
    Seq<ActionView>,
)
    decreases frames.len(),
{
    if frames.len() == 0 {
        (socket, Seq::<ActionView>::empty())
    } else {
        let raw = frames[0];
        match socket.after_frame(framed(raw), string_in(raw), bytes_in(raw)) {
            Some((state, action)) => {
                let (end, rest) = frame_run(state, frames.skip(1));
                (end, seq![action] + rest)
            },
            None => (socket, Seq::<ActionView>::empty()),
        }
    }
}

/// Whether the frame is one with another request id.
pub open spec fn is_foreign(raw: Seq<u8>, request_id: i64) -> bool {
    framed(raw) matches Ok(meta) && meta.id() != request_id
}

/// The opening of a tunnel waits for its own answer: frames with other request ids are passed
/// over, and nothing but the opening request is sent. `CREATE_TIMEOUT_SECS` seconds without a
/// frame then fail the connection, and fewer do not.
pub proof fn law_opening_is_given_up_after_silence(
    socket: TunnelSocket,
    frames: Seq<Seq<u8>>,
    secs: int,
    reason: Seq<char>,
)
    requires
        socket.phase is Creating,
        forall|i: int|
            0 <= i < frames.len() ==> is_foreign(#[trigger] frames[i], socket.create_rqid),
    ensures
        frame_run(socket, frames) == (
            socket,
            Seq::new(frames.len(), |i: int| ActionView::Wait),
        ),
        secs >= CREATE_TIMEOUT_SECS ==> frame_run(socket, frames).0.after_silence(secs, reason)
            == (
            socket.in_phase(Phase::Closed),
            ActionView::Fail("Creating tunnel timeout: "@ + reason),
        ),
        secs < CREATE_TIMEOUT_SECS ==> frame_run(socket, frames).0.after_silence(secs, reason)
            == (socket, ActionView::Wait),
    decreases frames.len(),
{
    if frames.len() > 0 {
        let rest = frames.skip(1);
        assert(is_foreign(frames[0], socket.create_rqid));
        assert forall|i: int| 0 <= i < rest.len() implies is_foreign(
            #[trigger] rest[i],
            socket.create_rqid,
        ) by {
            assert(rest[i] == frames[i + 1]);
        }
        law_opening_is_given_up_after_silence(socket, rest, secs, reason);
    }
    assert(frame_run(socket, frames).1 =~= Seq::new(frames.len(), |i: int| ActionView::Wait));
}

/// A tunnel that is open waits for frames without a limit.
pub proof fn law_open_tunnels_wait_without_limit(
    socket: TunnelSocket,
    secs: int,
    reason: Seq<char>,
)
    requires
        socket.phase is Open,
    ensures
        socket.patience() is None,
        socket.after_silence(secs, reason) == (socket, ActionView::Wait),
{
}

/// The requests that carry these data one after the other, each under the number that the one
/// before gave, and the number that the last one gives.
pub open spec fn carry_run(
    tunid: u64,
    seqno: int,
    request_id: i64,
    data: Seq<Seq<u8>>,
) -> (Seq<RequestView>, int)
    decreases data.len(),
{
    if data.len() == 0 {
        (Seq::<RequestView>::empty(), seqno)
    } else {
        let (rq, next) = carried(tunid, seqno, request_id, data[0]);
        let (rest, end) = carry_run(tunid, next, request_id, data.skip(1));
        (seq![rq] + rest, end)
    }
}

/// Data that is carried piece by piece gets consecutive numbers under one request id, in order,
/// and the last piece gives the number behind them all.
pub proof fn law_carried_data_is_numbered(
    tunid: u64,
    seqno: int,
    request_id: i64,
    data: Seq<Seq<u8>>,
)
    requires
        0 <= seqno,
        seqno + data.len() <= u64::MAX,
    ensures
        carry_run(tunid, seqno, request_id, data).0 == Seq::new(
            data.len(),
            |i: int|
                write_of(
                    request_id,
                    Some((seqno + i) as u64),
                    decimal(tunid as int),
                    Some(data[i]),
                ),
        ),
        carry_run(tunid, seqno, request_id, data).1 == seqno + data.len(),
    decreases data.len(),
{
    if data.len() > 0 {
        law_carried_data_is_numbered(tunid, seqno + 1, request_id, data.skip(1));
    }
    assert(carry_run(tunid, seqno, request_id, data).0 =~= Seq::new(
        data.len(),
        |i: int|
            write_of(request_id, Some((seqno + i) as u64), decimal(tunid as int), Some(data[i])),
    ));
}

/// What is done for data that comes from the socket chunk by chunk.
pub open spec fn send_run(socket: TunnelSocket, chunks: Seq<Seq<u8>>) -> Seq<ActionView>
    decreases chunks.len(),
{
    if chunks.len() == 0 {
        Seq::<ActionView>::empty()
    } else {
        match socket.after_data(chunks[0]) {
            Some((state, action)) => seq![action] + send_run(state, chunks.skip(1)),
            None => Seq::<ActionView>::empty(),
        }
    }
}

/// Every chunk from the socket is sent once, in order, and the numbers follow one another without
/// a gap.
pub proof fn law_chunks_are_sent_in_order(
    socket: TunnelSocket,
    tunid: u64,
    expected: u64,
    next: u64,
    chunks: Seq<Seq<u8>>,
)
    requires
        socket.phase == (Phase::Open { tunid, expected, next }),
        next + chunks.len() <= u64::MAX,
        forall|i: int| 0 <= i < chunks.len() ==> (#[trigger] chunks[i]).len() > 0,
    ensures
        send_run(socket, chunks) == Seq::new(
            chunks.len(),
            |i: int|
                ActionView::Send(
                    write_of(
                        socket.write_rqid,
                        Some((next + i) as u64),
                        decimal(tunid as int),
                        Some(chunks[i]),
                    ),
                ),
        ),
    decreases chunks.len(),
{
    if chunks.len() > 0 {
        let rest = chunks.skip(1);
        assert(chunks[0].len() > 0);
        let state = socket.in_phase(Phase::Open { tunid, expected, next: (next + 1) as u64 });
        assert forall|i: int| 0 <= i < rest.len() implies (#[trigger] rest[i]).len() > 0 by {
            assert(rest[i] == chunks[i + 1]);
        }
        law_chunks_are_sent_in_order(state, tunid, expected, (next + 1) as u64, rest);
        assert forall|i: int| 0 <= i < rest.len() implies rest[i] == chunks[i + 1] by {}
    }
    assert(send_run(socket, chunks) =~= Seq::new(
        chunks.len(),
        |i: int|
            ActionView::Send(
                write_of(
                    socket.write_rqid,
                    Some((next + i) as u64),
                    decimal(tunid as int),
                    Some(chunks[i]),
                ),
            ),
    ));
}

/// All bytes of the chunks, one chunk after the other.
pub open spec fn all_bytes(chunks: Seq<Seq<u8>>) -> Seq<u8>
    decreases chunks.len(),
{
    if chunks.len() == 0 {
        Seq::<u8>::empty()
    } else {
        chunks[0] + all_bytes(chunks.skip(1))
    }
}

/// The bytes that the requests among the actions carry.
pub open spec fn bytes_sent(actions: Seq<ActionView>) -> Seq<u8>
    decreases actions.len(),
{
    if actions.len() == 0 {
        Seq::<u8>::empty()
    } else {
        let rest = bytes_sent(actions.skip(1));
        match actions[0] {
            ActionView::Send(rq) => match rq.param {
                ParamView::Blob(data) => data + rest,
                _ => rest,
            },
            _ => rest,
        }
    }
}

/// Whether the action is to write one to `READ_SIZE` bytes to this tunnel, under this request id
/// and number.
pub open spec fn is_write(
    action: ActionView,
    request_id: i64,
    seqno: int,
    tunid: u64,
) -> bool {
    &&& action matches ActionView::Send(rq)
    &&& rq.request_id == request_id
    &&& rq.seqno == Some(seqno as u64)
    &&& rq.path == tunnel_path(decimal(tunid as int))
    &&& rq.method == "write"@
    &&& rq.param matches ParamView::Blob(data)
    &&& 1 <= data.len() <= READ_SIZE
}

/// What is read from the socket is what the broker is sent: the write requests carry the bytes in
/// order, one to `READ_SIZE` bytes each, to the path of the tunnel, under one request id and
/// under consecutive numbers.
pub proof fn law_socket_bytes_reach_the_broker(
    socket: TunnelSocket,
    tunid: u64,
    expected: u64,
    next: u64,
    chunks: Seq<Seq<u8>>,
)
    requires
        socket.phase == (Phase::Open { tunid, expected, next }),
        next + chunks.len() <= u64::MAX,
        forall|i: int| 0 <= i < chunks.len() ==> 1 <= (#[trigger] chunks[i]).len() <= READ_SIZE,
    ensures
        bytes_sent(send_run(socket, chunks)) == all_bytes(chunks),
        send_run(socket, chunks).len() == chunks.len(),
        forall|i: int|
            0 <= i < chunks.len() ==> is_write(
                #[trigger] send_run(socket, chunks)[i],
                socket.write_rqid,
                next + i,
                tunid,
            ),
    decreases chunks.len(),
{
    law_chunks_are_sent_in_order(socket, tunid, expected, next, chunks);
    if chunks.len() > 0 {
        let rest = chunks.skip(1);
        let state = socket.in_phase(Phase::Open { tunid, expected, next: (next + 1) as u64 });
        assert(chunks[0].len() > 0);
        assert forall|i: int| 0 <= i < rest.len() implies 1 <= (#[trigger] rest[i]).len()
            <= READ_SIZE by {
            assert(rest[i] == chunks[i + 1]);
        }
        law_socket_bytes_reach_the_broker(state, tunid, expected, (next + 1) as u64, rest);
        assert(send_run(socket, chunks).skip(1) =~= send_run(state, rest));
    }
}

/// The numbers and the data that the frames from the broker bring to the socket.
pub open spec fn deliver_run(
    request_id: i64,
    expected: u64,
    frames: Seq<Seq<u8>>,
) -> Seq<(u64, Seq<u8>)>
    decreases frames.len(),
{
    if frames.len() == 0 {
        Seq::<(u64, Seq<u8>)>::empty()
    } else {
        match frame_effect(request_id, expected, framed(frames[0]), bytes_in(frames[0])) {
            Err(_) => Seq::<(u64, Seq<u8>)>::empty(),
            Ok(d) => if d.next_seqno > u64::MAX {
                Seq::<(u64, Seq<u8>)>::empty()
            } else {
                let rest = deliver_run(request_id, d.next_seqno as u64, frames.skip(1));
                match d.data {
                    Some(data) => seq![((d.next_seqno - 1) as u64, data)] + rest,
                    None => rest,
                }
            },
        }
    }
}

/// Data from the broker is written in the order of its numbers, and none twice.
pub proof fn law_delivered_numbers_increase(
    request_id: i64,
    expected: u64,
    frames: Seq<Seq<u8>>,
)
    ensures
        ({
            let run = deliver_run(request_id, expected, frames);
            &&& forall|i: int| 0 <= i < run.len() ==> expected <= (#[trigger] run[i]).0
            &&& forall|i: int, j: int| 0 <= i < j < run.len() ==> run[i].0 < run[j].0
        }),
    decreases frames.len(),
{
    if frames.len() > 0 {
        match frame_effect(request_id, expected, framed(frames[0]), bytes_in(frames[0])) {
            Err(_) => {},
            Ok(d) => {
                if d.next_seqno <= u64::MAX {
                    law_delivered_numbers_increase(
                        request_id,
                        d.next_seqno as u64,
                        frames.skip(1),
                    );
                    let rest = deliver_run(request_id, d.next_seqno as u64, frames.skip(1));
                    let run = deliver_run(request_id, expected, frames);
                    if d.data is Some {
                        assert(forall|i: int| 0 < i < run.len() ==> run[i] == rest[i - 1]);
                    }
                }
            },
        }
    }
}

/// Whether a frame brings `data` under the number `seqno` to the tunnel with this request id.
pub open spec fn brings(raw: Seq<u8>, request_id: i64, seqno: int, data: Seq<u8>) -> bool {
    &&& framed(raw) matches Ok(meta)
    &&& meta.id() == request_id
    &&& meta.seqno matches Some(n)
    &&& n == seqno
    &&& bytes_in(raw) == Ok::<Seq<u8>, Seq<char>>(data)
}

/// Data that the broker sends under consecutive numbers reaches the socket whole and in order.
pub proof fn law_gapless_data_arrives_whole(
    request_id: i64,
    expected: u64,
    frames: Seq<Seq<u8>>,
    data: Seq<Seq<u8>>,
)
    requires
        frames.len() == data.len(),
        expected + frames.len() <= u64::MAX,
        forall|i: int|
            0 <= i < frames.len() ==> brings(
                #[trigger] frames[i],
                request_id,
                expected + i,
                data[i],
            ),
    ensures
        deliver_run(request_id, expected, frames) == Seq::new(
            data.len(),
            |i: int| ((expected + i) as u64, data[i]),
        ),
    decreases frames.len(),
{
    if frames.len() > 0 {
        let rest = frames.skip(1);
        assert(brings(frames[0], request_id, expected + 0, data[0]));
        assert forall|i: int| 0 <= i < rest.len() implies brings(
            #[trigger] rest[i],
            request_id,
            (expected + 1) as u64 + i,
            data.skip(1)[i],
        ) by {
            assert(rest[i] == frames[i + 1]);
        }
        law_gapless_data_arrives_whole(request_id, (expected + 1) as u64, rest, data.skip(1));
    }
    assert(deliver_run(request_id, expected, frames) =~= Seq::new(
        data.len(),
        |i: int| ((expected + i) as u64, data[i]),
    ));
}

/// A frame with another request id writes nothing and leaves the connection as it is.
pub proof fn law_foreign_frames_leave_the_socket_alone(
    socket: TunnelSocket,
    meta: MetaView,
    string: Result<Seq<char>, Seq<char>>,
    bytes: Result<Seq<u8>, Seq<char>>,
)
    requires
        meta.id() != socket.create_rqid,
        meta.id() != socket.write_rqid,
    ensures
        socket.after_frame(Ok(meta), string, bytes) matches Some((state, action)) && state == socket
            && (action matches ActionView::Deliver(d) ==> d.data is None) && !(action is Send),
{
}

/// The two directions of an open connection do not disturb each other: frames from the broker
/// leave the number of the next data to the broker as it is, and data from the socket leaves the
/// number that is expected from the broker as it is.
pub proof fn law_directions_are_independent(
    socket: TunnelSocket,
    meta: Result<MetaView, Seq<char>>,
    string: Result<Seq<char>, Seq<char>>,
    bytes: Result<Seq<u8>, Seq<char>>,
    data: Seq<u8>,
)
    requires
        socket.phase is Open,
    ensures
        socket.after_frame(meta, string, bytes) matches Some((state, _)) ==> (state.phase is Open
            ==> state.phase->tunid == socket.phase->tunid && state.phase->next
            == socket.phase->next),
        socket.after_data(data) matches Some((state, _)) ==> (state.phase is Open
            ==> state.phase->tunid == socket.phase->tunid && state.phase->expected
            == socket.phase->expected),
{
}

/// Nothing happens on a connection that is over.
pub proof fn law_closed_stays_closed(
    socket: TunnelSocket,
    meta: Result<MetaView, Seq<char>>,
    string: Result<Seq<char>, Seq<char>>,
    bytes: Result<Seq<u8>, Seq<char>>,
    data: Seq<u8>,
    secs: int,
    reason: Seq<char>,
)
    requires
        socket.phase is Closed,
    ensures
        socket.after_frame(meta, string, bytes) == Some((socket, ActionView::Wait)),
        socket.after_data(data) == Some((socket, ActionView::Wait)),
        socket.after_end(reason) == (socket, ActionView::Wait),
        socket.after_silence(secs, reason) == (socket, ActionView::Wait),
{
}

/// The result of a call is read from the frame of its answer as it is: as a string and as bytes,
/// or the error in its place. Where there is no message, the reason is given.
pub proof fn law_results_are_read_as_they_are(
    raw: &[u8],
    string: Result<String, String>,
    bytes: Result<Vec<u8>, String>,
)
    requires
        call_ensures(read_string, (raw,), string),
        call_ensures(read_bytes, (raw,), bytes),
    ensures
        !frame_overflows(raw@) && message_error(raw@) is None ==> {
            &&& match (result_string(raw@), string) {
                (Ok(a), Ok(b)) => b@ == a,
                (Err(a), Err(b)) => b@ == a,
                _ => false,
            }
            &&& match (result_blob(raw@), bytes) {
                (Ok(a), Ok(b)) => b@ == a,
                (Err(a), Err(b)) => b@ == a,
                _ => false,
            }
        },
        !frame_overflows(raw@) ==> (message_error(raw@) matches Some(e) ==> (string matches Err(a)
            && a@ == e) && (bytes matches Err(b) && b@ == e)),
        frame_overflows(raw@) ==> (string matches Err(a) && a@ == "DateTime overflow"@) && (
        bytes matches Err(b) && b@ == "DateTime overflow"@),
{
}

/// A tunnel is opened by calling `.app/tunnel:create` with the host in a map.
pub proof fn law_tunnels_are_asked_for(
    create_rqid: i64,
    write_rqid: i64,
    host: &str,
    r: (TunnelSocket, Request),
    rq: Request,
)
    requires
        call_ensures(TunnelSocket::start, (create_rqid, write_rqid, host), r),
        call_ensures(create_request, (create_rqid, host), rq),
    ensures
        r.0.create_rqid == create_rqid,
        r.0.write_rqid == write_rqid,
        r.0.phase is Creating,
        r.1@ == rq@,
        r.1.request_id == create_rqid,
        r.1.seqno is None,
        r.1.path@ == ".app/tunnel"@,
        r.1.method@ == "create"@,
        r.1.param matches Param::Entry(key, value) && key@ == "host"@ && value@ == host@,
        rq.request_id == create_rqid,
        rq.path@ == ".app/tunnel"@,
        rq.method@ == "create"@,
        rq.param matches Param::Entry(key, value) && key@ == "host"@ && value@ == host@,
{
}

/// Data is written to a tunnel by calling `write` on its path, with the data as it is.
pub proof fn law_writes_carry_their_data(
    request_id: i64,
    seqno: Option<u64>,
    id: &str,
    data: Option<&[u8]>,
    rq: Request,
)
    requires
        call_ensures(write_request, (request_id, seqno, id, data), rq),
    ensures
        rq.request_id == request_id,
        rq.seqno == seqno,
        rq.path@ == ".app/tunnel/"@ + id@,
        rq.method@ == "write"@,
        data is None ==> rq.param is Absent,
        data matches Some(d) ==> (rq.param matches Param::Blob(b) && b@ == d@),
{
}

/// The data of the socket goes into one write request, whole, under the number that is given, and
/// the next number is one more.
pub proof fn law_socket_data_is_written(
    tunid: u64,
    seqno: u64,
    request_id: i64,
    data: &[u8],
    r: (Request, u64),
)
    requires
        call_ensures(process_socket_to_broker_data, (tunid, seqno, request_id, data), r),
    ensures
        r.0.request_id == request_id,
        r.0.seqno == Some(seqno),
        r.0.path@ == ".app/tunnel/"@ + decimal(tunid as int),
        r.0.method@ == "write"@,
        r.0.param matches Param::Blob(b) && b@ == data@,
        r.1 == seqno + 1,
{
}

/// The request id of a frame; a frame without one counts as 0.
pub open spec fn id_of(meta: MetaView) -> i64 {
    match meta.request_id {
        Some(id) => id,
        None => 0,
    }
}

/// While a tunnel is being opened, its own answer opens it: the result is its number, and data
/// starts with an empty write to its path under the number 0. An error in place of a number fails
/// the connection, and frames with other request ids are passed over.
pub proof fn law_the_answer_opens_the_tunnel(
    socket: &mut TunnelSocket,
    raw: &[u8],
    text: &str,
    number: Result<u64, IntError>,
    words: String,
    r: Option<SocketAction>,
)
    requires
        call_ensures(TunnelSocket::on_frame, (socket, raw), r),
        old(socket).phase is Creating,
        !meta_overflows(raw@),
        !frame_overflows(raw@),
        result_string(raw@) matches Ok(s) ==> text@ == s,
        call_ensures(parse_u64, (text,), number),
        number matches Err(e) ==> call_ensures(IntError::message, (e,), words),
    ensures
        final(socket).create_rqid == old(socket).create_rqid,
        final(socket).write_rqid == old(socket).write_rqid,
        frame_meta(raw@) matches Err(e) ==> final(socket).phase is Closed && (r matches Some(
            SocketAction::Fail(error),
        ) && error@ == "FramingError - "@ + e),
        frame_meta(raw@) matches Ok(meta) ==> {
            let own = id_of(meta) == old(socket).create_rqid;
            &&& !own ==> r == Some(SocketAction::Wait) && final(socket).phase is Creating
            &&& own ==> match (message_error(raw@), result_string(raw@), number) {
                (Some(e), _, _) => final(socket).phase is Closed && (r matches Some(
                    SocketAction::Fail(error),
                ) && error@ == e),
                (None, Err(e), _) => final(socket).phase is Closed && (r matches Some(
                    SocketAction::Fail(error),
                ) && error@ == e),
                (None, Ok(_), Err(_)) => final(socket).phase is Closed && (r matches Some(
                    SocketAction::Fail(error),
                ) && error@ == words@),
                (None, Ok(_), Ok(n)) => {
                    &&& final(socket).phase == (Phase::Open { tunid: n, expected: 0, next: 1 })
                    &&& r matches Some(SocketAction::Send(rq))
                    &&& rq.request_id == old(socket).write_rqid
                    &&& rq.seqno == Some(0u64)
                    &&& rq.path@ == ".app/tunnel/"@ + decimal(n as int)
                    &&& rq.method@ == "write"@
                    &&& rq.param is Absent
                },
            }
        },
{
}

/// The number of a tunnel is the `u64` in the result. An error in its place, and what is said of a
/// text that is no such number, are passed on.
pub proof fn law_tunnel_numbers_are_read(
    result: Result<String, String>,
    number: Result<u64, IntError>,
    text: &str,
    error: IntError,
    words: String,
    r: Result<u64, String>,
)
    requires
        call_ensures(read_tunnel_number, (result,), r),
        result matches Ok(s) ==> text@ == s@,
        call_ensures(parse_u64, (text,), number),
        number matches Err(e) ==> e == error,
        call_ensures(IntError::message, (error,), words),
    ensures
        match (result, number) {
            (Err(e), _) => r matches Err(a) && a@ == e@,
            (Ok(_), Ok(n)) => r == Ok::<u64, String>(n),
            (Ok(_), Err(_)) => r matches Err(a) && a@ == words@,
        },
{
}

/// Data from the broker reaches the socket of an open tunnel byte for byte, if it comes with the
/// number that is expected or a higher one; then the next higher number is expected. Data with a
/// lower number and data without one is dropped, and what is lost or dropped is logged. Frames
/// with other request ids do nothing. A frame without data fails the connection.
pub proof fn law_data_reaches_the_socket_as_it_is(
    socket: &mut TunnelSocket,
    raw: &[u8],
    tunid: u64,
    expected: u64,
    next: u64,
    r: Option<SocketAction>,
)
    requires
        call_ensures(TunnelSocket::on_frame, (socket, raw), r),
        old(socket).phase == (Phase::Open { tunid, expected, next }),
        !meta_overflows(raw@),
        !frame_overflows(raw@),
    ensures
        final(socket).create_rqid == old(socket).create_rqid,
        final(socket).write_rqid == old(socket).write_rqid,
        frame_meta(raw@) matches Err(e) ==> final(socket).phase is Closed && (r matches Some(
            SocketAction::Fail(error),
        ) && error@ == "FramingError - "@ + e),
        frame_meta(raw@) matches Ok(meta) ==> {
            let own = id_of(meta) == old(socket).write_rqid;
            &&& !own ==> *final(socket) == *old(socket) && (r matches Some(
                SocketAction::Deliver(d),
            ) && d.data is None && d.warning is None)
            &&& own ==> match (message_error(raw@), result_blob(raw@)) {
                (Some(e), _) => final(socket).phase is Closed && (r matches Some(
                    SocketAction::Fail(error),
                ) && error@ == e),
                (None, Err(e)) => final(socket).phase is Closed && (r matches Some(
                    SocketAction::Fail(error),
                ) && error@ == e),
                (None, Ok(data)) => match meta.seqno {
                    None => {
                        &&& final(socket).phase == old(socket).phase
                        &&& r matches Some(SocketAction::Deliver(d))
                        &&& d.data is None
                        &&& d.warning matches Some(w)
                        &&& w@ == "Seqno not received, ignoring data."@
                    },
                    Some(n) => if n < expected {
                        &&& final(socket).phase == old(socket).phase
                        &&& r matches Some(SocketAction::Deliver(d))
                        &&& d.data is None
                        &&& d.warning matches Some(w)
                        &&& w@ == "Seqno: "@ + decimal(n as int)
                            + " received already, expected value: "@ + decimal(expected as int)
                            + ", ignoring data."@
                    } else if n == u64::MAX {
                        r is None && *final(socket) == *old(socket)
                    } else {
                        &&& final(socket).phase == (Phase::Open {
                            tunid,
                            expected: (n + 1) as u64,
                            next,
                        })
                        &&& r matches Some(SocketAction::Deliver(d))
                        &&& d.data matches Some(bytes)
                        &&& bytes@ == data
                        &&& n == expected ==> d.warning is None
                        &&& n > expected ==> (d.warning matches Some(w) && w@ == "Seqno: "@
                            + decimal(n as int) + " greater than expected: "@ + decimal(
                            expected as int,
                        ) + ", some data was lost!."@)
                    },
                },
            }
        },
{
}

/// One frame decides the same by itself as on a connection.
pub proof fn law_frames_are_processed_as_on_a_connection(
    socket: &mut TunnelSocket,
    raw: &[u8],
    tunid: u64,
    expected: u64,
    next: u64,
    request_id: i64,
    r: Option<SocketAction>,
    p: Option<Result<Delivery, String>>,
)
    requires
        call_ensures(TunnelSocket::on_frame, (socket, raw), r),
        call_ensures(process_broker_to_socket_frame, (request_id, expected, raw), p),
        request_id == old(socket).write_rqid,
        old(socket).phase == (Phase::Open { tunid, expected, next }),
    ensures
        match (p, r) {
            (None, None) => true,
            (Some(Err(a)), Some(SocketAction::Fail(b))) => b@ == a@,
            (Some(Ok(a)), Some(SocketAction::Deliver(b))) => {
                &&& b.next_seqno == a.next_seqno
                &&& match (a.data, b.data) {
                    (Some(x), Some(y)) => x@ == y@,
                    (None, None) => true,
                    _ => false,
                }
                &&& match (a.warning, b.warning) {
                    (Some(x), Some(y)) => x@ == y@,
                    (None, None) => true,
                    _ => false,
                }
            },
            _ => false,
        },
{
}

/// Data is written where it has the number that is expected or a higher one, and the number
/// behind it is expected next.
pub proof fn law_numbered_data_is_written_once(
    expected: u64,
    seqno: Option<u64>,
    data: Vec<u8>,
    r: Delivery,
    warning: Option<String>,
)
    requires
        call_ensures(deliver, (expected, seqno, data), r),
        call_ensures(warn_about_seqno, (expected, seqno), warning),
    ensures
        seqno matches Some(n) ==> (expected <= n ==> {
            &&& r.next_seqno == n + 1
            &&& r.data matches Some(d)
            &&& d@ == data@
        }),
        !(seqno matches Some(n) && expected <= n) ==> r.next_seqno == expected && r.data is None,
        warning is None <==> seqno == Some(expected),
        match (r.warning, warning) {
            (Some(a), Some(b)) => a@ == b@,
            (None, None) => true,
            _ => false,
        },
{
}

/// Data from the socket of an open tunnel is sent to the broker as it is, under the next number.
/// No data means that the socket was closed, and a connection that is not open sends nothing.
pub proof fn law_socket_data_is_sent_as_it_is(
    socket: &mut TunnelSocket,
    data: &[u8],
    r: Option<SocketAction>,
)
    requires
        call_ensures(TunnelSocket::on_data, (socket, data), r),
    ensures
        final(socket).create_rqid == old(socket).create_rqid,
        final(socket).write_rqid == old(socket).write_rqid,
        old(socket).phase matches Phase::Open { tunid, expected, next } ==> {
            &&& data@.len() == 0 ==> {
                &&& r == Some(SocketAction::Finish)
                &&& final(socket).phase is Closed
            }
            &&& data@.len() > 0 && next == u64::MAX ==> r is None && *final(socket) == *old(socket)
            &&& data@.len() > 0 && next < u64::MAX ==> {
                &&& final(socket).phase == (Phase::Open {
                    tunid,
                    expected,
                    next: (next + 1) as u64,
                })
                &&& r matches Some(SocketAction::Send(rq))
                &&& rq.request_id == old(socket).write_rqid
                &&& rq.seqno == Some(next)
                &&& rq.path@ == ".app/tunnel/"@ + decimal(tunid as int)
                &&& rq.method@ == "write"@
                &&& rq.param matches Param::Blob(b)
                &&& b@ == data@
            }
        },
        !(old(socket).phase is Open) ==> {
            &&& r == Some(SocketAction::Wait)
            &&& *final(socket) == *old(socket)
        },
{
}

/// The end of the frames from the broker ends an open connection well and fails one that is being
/// opened. Only the latter has a limit on how long it waits for a frame.
pub proof fn law_connections_end(
    socket: &mut TunnelSocket,
    other: &mut TunnelSocket,
    still: &TunnelSocket,
    secs: u64,
    reason: &str,
    end: SocketAction,
    timeout: SocketAction,
    limit: Option<u64>,
)
    requires
        call_ensures(TunnelSocket::on_end, (socket, reason), end),
        call_ensures(TunnelSocket::on_timeout, (other, secs, reason), timeout),
        call_ensures(TunnelSocket::wait_secs, (still,), limit),
    ensures
        old(socket).phase is Creating ==> (end matches SocketAction::Fail(e) && e@ == reason@),
        old(socket).phase is Open ==> end is Finish,
        old(socket).phase is Closed ==> end is Wait,
        final(socket).phase is Closed,
        old(other).phase is Creating && secs >= 10 ==> final(other).phase is Closed && (
        timeout matches SocketAction::Fail(e) && e@ == "Creating tunnel timeout: "@ + reason@),
        !(old(other).phase is Creating && secs >= 10) ==> {
            &&& timeout is Wait
            &&& *final(other) == *old(other)
        },
        still.phase is Creating ==> limit == Some(10u64),
        !(still.phase is Creating) ==> limit is None,
{
}

/// The bytes that are written to the socket in these actions, one after another.
pub open spec fn bytes_written(actions: Seq<ActionView>) -> Seq<u8>
    decreases actions.len(),
{
    if actions.len() == 0 {
        Seq::<u8>::empty()
    } else {
        let rest = bytes_written(actions.skip(1));
        match actions[0] {
            ActionView::Deliver(d) => match d.data {
                Some(data) => data + rest,
                None => rest,
            },
            _ => rest,
        }
    }
}

/// Whether a frame is the broker's answer with this request id and number, and `data` is the blob
/// in it.
pub open spec fn holds_data(raw: Seq<u8>, request_id: i64, seqno: int, data: Seq<u8>) -> bool {
    &&& exists|meta: MetaView|
        {
            &&& #[trigger] carries(raw, meta)
            &&& meta.request_id == Some(request_id)
            &&& meta.seqno matches Some(n)
            &&& n == seqno
        }
    &&& result_blob(raw) == Ok::<Seq<u8>, Seq<char>>(data)
}

/// What an open connection writes to its socket is what the broker sent, byte for byte: frames
/// that hold data under consecutive numbers from the expected one are written one after another,
/// nothing is lost, added or changed, and the connection expects the number behind the last.
pub proof fn law_broker_bytes_reach_the_socket(
    socket: TunnelSocket,
    tunid: u64,
    expected: u64,
    next: u64,
    frames: Seq<Seq<u8>>,
    data: Seq<Seq<u8>>,
)
    requires
        socket.phase == (Phase::Open { tunid, expected, next }),
        frames.len() == data.len(),
        expected + frames.len() <= u64::MAX,
        forall|i: int|
            0 <= i < frames.len() ==> holds_data(
                #[trigger] frames[i],
                socket.write_rqid,
                expected + i,
                data[i],
            ),
    ensures
        bytes_written(frame_run(socket, frames).1) == all_bytes(data),
        frame_run(socket, frames).1.len() == frames.len(),
        forall|i: int|
            0 <= i < frames.len() ==> (#[trigger] frame_run(
                socket,
                frames,
            ).1[i] matches ActionView::Deliver(d) && d.data == Some(data[i]) && d.warning is None),
        frame_run(socket, frames).0 == socket.in_phase(
            Phase::Open { tunid, expected: (expected + frames.len()) as u64, next },
        ),
    decreases frames.len(),
{
    if frames.len() > 0 {
        let raw = frames[0];
        let rest = frames.skip(1);
        let after = socket.in_phase(Phase::Open { tunid, expected: (expected + 1) as u64, next });
        assert(holds_data(raw, socket.write_rqid, expected + 0, data[0]));
        assert forall|i: int| 0 <= i < rest.len() implies holds_data(
            #[trigger] rest[i],
            after.write_rqid,
            (expected + 1) as u64 + i,
            data.skip(1)[i],
        ) by {
            assert(rest[i] == frames[i + 1]);
        }
        law_broker_bytes_reach_the_socket(
            after,
            tunid,
            (expected + 1) as u64,
            next,
            rest,
            data.skip(1),
        );
        let run = frame_run(socket, frames).1;
        let tail = frame_run(after, rest).1;
        assert(run.len() == tail.len() + 1);
        assert(run.skip(1) =~= tail);
        assert forall|i: int| 0 <= i < frames.len() implies (#[trigger] run[i]
            matches ActionView::Deliver(d) && d.data == Some(data[i]) && d.warning is None) by {
            if i > 0 {
                assert(run[i] == tail[i - 1]);
            }
        }
    }
}

/// Whatever frames arrive, what is written to the socket of an open connection is the data that
/// `deliver_run` tells of: it comes in the order of its numbers and none of it twice.
pub proof fn law_runs_write_what_is_delivered(
    socket: TunnelSocket,
    tunid: u64,
    expected: u64,
    next: u64,
    frames: Seq<Seq<u8>>,
)
    requires
        socket.phase == (Phase::Open { tunid, expected, next }),
    ensures
        bytes_written(frame_run(socket, frames).1) == all_bytes(
            Seq::new(
                deliver_run(socket.write_rqid, expected, frames).len(),
                |i: int| deliver_run(socket.write_rqid, expected, frames)[i].1,
            ),
        ),
    decreases frames.len(),
{
    let run = deliver_run(socket.write_rqid, expected, frames);
    let parts = Seq::new(run.len(), |i: int| run[i].1);
    if frames.len() > 0 {
        let raw = frames[0];
        let tail = frames.skip(1);
        match frame_effect(socket.write_rqid, expected, framed(raw), bytes_in(raw)) {
            Err(_) => {
                let closed = socket.in_phase(Phase::Closed);
                lemma_closed_writes_nothing(closed, tail);
                assert(frame_run(socket, frames).1.skip(1) =~= frame_run(closed, tail).1);
            },
            Ok(d) => {
                if d.next_seqno <= u64::MAX {
                    let e = d.next_seqno as u64;
                    let after = socket.in_phase(Phase::Open { tunid, expected: e, next });
                    law_runs_write_what_is_delivered(after, tunid, e, next, tail);
                    let rest = deliver_run(socket.write_rqid, e, tail);
                    let others = Seq::new(rest.len(), |i: int| rest[i].1);
                    assert(frame_run(socket, frames).1.skip(1) =~= frame_run(after, tail).1);
                    if d.data is Some {
                        assert(parts.skip(1) =~= others);
                    } else {
                        assert(parts =~= others);
                    }
                }
            },
        }
    }
}

/// A connection that is over writes nothing.
proof fn lemma_closed_writes_nothing(socket: TunnelSocket, frames: Seq<Seq<u8>>)
    requires
        socket.phase is Closed,
    ensures
        bytes_written(frame_run(socket, frames).1) == Seq::<u8>::empty(),
    decreases frames.len(),
{
    if frames.len() > 0 {
        lemma_closed_writes_nothing(socket, frames.skip(1));
        assert(frame_run(socket, frames).1.skip(1) =~= frame_run(socket, frames.skip(1)).1);
    }
}

/// What cannot be read fails a connection in the words of the reader: bytes that are no frame, and
/// an answer of its own without a result. A connection that is over takes nothing.
pub proof fn law_unreadable_frames_fail_a_connection(
    socket: &mut TunnelSocket,
    raw: &[u8],
    meta: Result<FrameMeta, String>,
    string: Result<String, String>,
    bytes: Result<Vec<u8>, String>,
    r: Option<SocketAction>,
)
    requires
        call_ensures(TunnelSocket::on_frame, (socket, raw), r),
        call_ensures(read_frame, (raw,), meta),
        call_ensures(read_string, (raw,), string),
        call_ensures(read_bytes, (raw,), bytes),
    ensures
        old(socket).phase is Closed ==> {
            &&& r == Some(SocketAction::Wait)
            &&& *final(socket) == *old(socket)
        },
        !(old(socket).phase is Closed) ==> (meta matches Err(error) ==> {
            &&& final(socket).phase is Closed
            &&& r matches Some(SocketAction::Fail(e))
            &&& e@ == error@
        }),
        meta matches Ok(m) ==> {
            let id: i64 = match m.request_id {
                Some(id) => id,
                None => 0,
            };
            &&& old(socket).phase is Creating && id == old(socket).create_rqid ==> (
            string matches Err(error) ==> final(socket).phase is Closed && (r matches Some(
                SocketAction::Fail(e),
            ) && e@ == error@))
            &&& old(socket).phase is Open && id == old(socket).write_rqid ==> (
            bytes matches Err(error) ==> final(socket).phase is Closed && (r matches Some(
                SocketAction::Fail(e),
            ) && e@ == error@))
        },
{
}

} // verus!
