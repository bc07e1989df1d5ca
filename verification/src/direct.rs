//! The client without request timeouts and data numbers: its options and its tunnels.

use crate::call::{given, given_text, CallPlan, PlanView};
use crate::chainpack::frame_overflows;
use crate::number::{
    law_signed_reads_decimal, lemma_decimal_chars, parse_i32, signed, IntError,
};
use crate::output::{format_named, FormatView, OutputFormat};
use crate::socket::{bytes_in, create_of, create_request, read_bytes, write_of, write_request};
use crate::text::{
    decimal, fields_at, find, lemma_next_field_at, lemma_one_field_at, same_text, split,
    text_outcome, texts,
};
use crate::tunnel::{SpecView, TunnelSpec};
use crate::wire::{
    bytes_outcome, message_error, result_blob, Param, Request, RequestView,
};
use vstd::prelude::*;

verus! {

/// The format that an option value names; there is no indented one.
pub open spec fn direct_format(value: Seq<char>) -> FormatView {
    if value == "icpon"@ {
        FormatView::Custom(value)
    } else {
        format_named(value)
    }
}

/// Gives the format that an option value names.
pub fn find_format(value: &str) -> (r: OutputFormat)
    ensures
        r@ == direct_format(value@),
{
    if same_text(value, "icpon") {
        OutputFormat::Custom(value.to_owned())
    } else {
        OutputFormat::from(value)
    }
}

/// What the path, method and parameter options ask for. A method with a colon names the path,
/// too.
pub open spec fn planned(
    path: Option<String>,
    method: Option<String>,
    param: Option<String>,
) -> Result<PlanView, Seq<char>> {
    if path is Some && method is None {
        Err("--method parameter missing"@)
    } else if path is None && method is None {
        Ok(PlanView::Interactive)
    } else {
        match given(method).index_of_first(':') {
            None => Ok(
                PlanView::Single { path: given(path), method: given(method), param: given(param) },
            ),
            Some(i) => Ok(
                PlanView::Single {
                    path: given(method).take(i),
                    method: given(method).skip(i + 1),
                    param: given(param),
                },
            ),
        }
    }
}

/// Decides what the path, method and parameter options ask for.
pub fn plan_call(path: &Option<String>, method: &Option<String>, param: &Option<String>) -> (r:
    Result<CallPlan, String>)
    ensures
        match r {
            Ok(plan) => planned(*path, *method, *param) matches Ok(p) && p == plan@,
            Err(error) => planned(*path, *method, *param) matches Err(e) && e == error@,
        },
{
    if path.is_some() && method.is_none() {
        return Err("--method parameter missing".to_owned());
    }
    if path.is_none() && method.is_none() {
        return Ok(CallPlan::Interactive);
    }
    let m = given_text(method);
    let param = given_text(param).to_owned();
    match find(m, ':') {
        None => Ok(
            CallPlan::Single { path: given_text(path).to_owned(), method: m.to_owned(), param },
        ),
        Some(i) => {
            proof {
                m@.index_of_first_ensures(':');
            }
            let n: usize = m.unicode_len();
            assert(m@.subrange(0, i as int) =~= m@.take(i as int));
            assert(m@.subrange(i + 1, n as int) =~= m@.skip(i + 1));
            Ok(
                CallPlan::Single {
                    path: m.substring_char(0, i).to_owned(),
                    method: m.substring_char(i + 1, n).to_owned(),
                    param,
                },
            )
        },
    }
}

/// What a tunnel option `local_port:host:port` asks for. The tunnel listens on the loopback
/// address, and what stands behind a third colon is passed over.
pub open spec fn tunnel_spec(text: Seq<char>) -> Result<SpecView, Seq<char>> {
    let parts = fields_at(text, ':');
    if parts.len() < 2 {
        Err("Host must be specified"@)
    } else if parts.len() < 3 {
        Err("Remote port must be specified"@)
    } else {
        match signed(parts[0], i32::MIN as int, i32::MAX as int) {
            Err(e) => Err(e.text()),
            Ok(local_port) => Ok(
                SpecView {
                    local_host: "127.0.0.1"@,
                    local_port,
                    remote: parts[1] + ":"@ + parts[2],
                },
            ),
        }
    }
}

/// Reads a tunnel option.
pub fn parse_tunnel(text: &str) -> (r: Result<TunnelSpec, String>)
    ensures
        match r {
            Ok(t) => tunnel_spec(text@) matches Ok(v) && v == t@,
            Err(error) => tunnel_spec(text@) matches Err(e) && e == error@,
        },
{
    let parts = split(text, ':');
    assert(fields_at(text@, ':').len() == parts@.len());
    assert(forall|i: int|
        0 <= i < parts@.len() ==> fields_at(text@, ':')[i] == (#[trigger] parts@[i])@);
    if parts.len() < 2 {
        return Err("Host must be specified".to_owned());
    }
    if parts.len() < 3 {
        return Err("Remote port must be specified".to_owned());
    }
    let local_port = match parse_i32(parts[0]) {
        Ok(p) => p,
        Err(e) => {
            return Err(e.message());
        },
    };
    let mut remote = parts[1].to_owned();
    remote.append(":");
    remote.append(parts[2]);
    Ok(TunnelSpec { local_host: "127.0.0.1".to_owned(), local_port, remote })
}

/// A tunnelled connection whose data has no numbers.
#[derive(Debug, PartialEq, Eq)]
pub enum DirectSocket {
    /// The broker has been asked to open the tunnel.
    Creating,
    /// Data goes both ways through the tunnel with this id.
    Open(String),
    /// Nothing more happens.
    Closed,
}

/// The contents of a `DirectSocket`.
pub enum DirectView {
    Creating,
    Open(Seq<char>),
    Closed,
}

impl View for DirectSocket {
    type V = DirectView;

    open spec fn view(&self) -> DirectView {
        match self {
            DirectSocket::Creating => DirectView::Creating,
            DirectSocket::Open(id) => DirectView::Open(id@),
            DirectSocket::Closed => DirectView::Closed,
        }
    }
}

/// What is to be done for a tunnelled connection.
#[derive(Debug, PartialEq, Eq)]
pub enum DirectAction {
    /// Wait for the next event.
    Wait,
    /// Send this request to the broker.
    Send(Request),
    /// Write these bytes to the socket.
    Write(Vec<u8>),
    /// The connection is over.
    Finish,
    /// The connection failed.
    Fail(String),
}

/// The contents of a `DirectAction`.
pub enum DirectActionView {
    Wait,
    Send(RequestView),
    Write(Seq<u8>),
    Finish,
    Fail(Seq<char>),
}

impl View for DirectAction {
    type V = DirectActionView;

    open spec fn view(&self) -> DirectActionView {
        match self {
            DirectAction::Wait => DirectActionView::Wait,
            DirectAction::Send(rq) => DirectActionView::Send(rq@),
            DirectAction::Write(bytes) => DirectActionView::Write(bytes@),
            DirectAction::Finish => DirectActionView::Finish,
            DirectAction::Fail(e) => DirectActionView::Fail(e@),
        }
    }
}

impl DirectView {
    /// What the answer to the opening request does: an empty write under the request id
    /// `write_rqid` asks for data.
    pub open spec fn after_create(
        self,
        result: Result<Seq<char>, Seq<char>>,
        write_rqid: i64,
    ) -> (DirectView, DirectActionView) {
        match result {
            Ok(id) => (
                DirectView::Open(id),
                DirectActionView::Send(write_of(write_rqid, None, id, None)),
            ),
            Err(e) => (DirectView::Closed, DirectActionView::Fail(e)),
        }
    }

    /// What a frame with data from the broker does.
    pub open spec fn after_bytes(self, bytes: Result<Seq<u8>, Seq<char>>) -> (
        DirectView,
        DirectActionView,
    ) {
        match (self, bytes) {
            (DirectView::Open(_), Ok(data)) => (self, DirectActionView::Write(data)),
            (DirectView::Open(_), Err(e)) => (DirectView::Closed, DirectActionView::Fail(e)),
            _ => (self, DirectActionView::Wait),
        }
    }

    /// What data from the socket does: it is sent under a request id of its own. No data means
    /// that the socket was closed.
    pub open spec fn after_data(self, data: Seq<u8>, request_id: i64) -> (
        DirectView,
        DirectActionView,
    ) {
        match self {
            DirectView::Open(id) => if data.len() == 0 {
                (DirectView::Closed, DirectActionView::Finish)
            } else {
                (self, DirectActionView::Send(write_of(request_id, None, id, Some(data))))
            },
            _ => (self, DirectActionView::Wait),
        }
    }

    /// What the end of the frames from the broker does.
    pub open spec fn after_end(self, reason: Seq<char>) -> (DirectView, DirectActionView) {
        match self {
            DirectView::Creating => (DirectView::Closed, DirectActionView::Fail(reason)),
            DirectView::Open(_) => (DirectView::Closed, DirectActionView::Finish),
            DirectView::Closed => (self, DirectActionView::Wait),
        }
    }
}

impl DirectSocket {
    /// Starts a connection to `host`: gives the request that opens the tunnel.
    pub fn start(create_rqid: i64, host: &str) -> (r: (DirectSocket, Request))
        ensures
            r.0@ == DirectView::Creating,
            r.1@ == create_of(create_rqid, host@),
    {
        (DirectSocket::Creating, create_request(create_rqid, host))
    }

    /// Takes the answer to the opening request.
    pub fn on_created(&mut self, result: Result<String, String>, write_rqid: i64) -> (r:
        DirectAction)
        ensures
            (final(self)@, r@) == old(self)@.after_create(text_outcome(result), write_rqid),
    {
        match result {
            Ok(id) => {
                let rq = write_request(write_rqid, None, id.as_str(), None);
                *self = DirectSocket::Open(id);
                DirectAction::Send(rq)
            },
            Err(e) => {
                *self = DirectSocket::Closed;
                DirectAction::Fail(e)
            },
        }
    }

    /// Takes what was read of a frame with data from the broker.
    pub fn on_bytes(&mut self, bytes: Result<Vec<u8>, String>) -> (r: DirectAction)
        ensures
            (final(self)@, r@) == old(self)@.after_bytes(bytes_outcome(bytes)),
    {
        match (&*self, bytes) {
            (DirectSocket::Open(_), Ok(data)) => DirectAction::Write(data),
            (DirectSocket::Open(_), Err(e)) => {
                *self = DirectSocket::Closed;
                DirectAction::Fail(e)
            },
            _ => DirectAction::Wait,
        }
    }

    /// Takes the frame `raw` with data from the broker.
    pub fn on_frame(&mut self, raw: &[u8]) -> (r: DirectAction)
        ensures
            (final(self)@, r@) == old(self)@.after_bytes(bytes_in(raw@)),
    {
        self.on_bytes(read_bytes(raw))
    }

    /// Takes data from the socket, to be sent under the request id `request_id`.
    pub fn on_data(&mut self, data: &[u8], request_id: i64) -> (r: DirectAction)
        ensures
            (final(self)@, r@) == old(self)@.after_data(data@, request_id),
    {
        if let DirectSocket::Open(id) = &*self {
            if data.len() > 0 {
                return DirectAction::Send(write_request(request_id, None, id.as_str(), Some(data)));
            }
        } else {
            return DirectAction::Wait;
        }
        *self = DirectSocket::Closed;
        DirectAction::Finish
    }

    /// Takes the end of the frames from the broker.
    pub fn on_end(&mut self, reason: &str) -> (r: DirectAction)
        ensures
            (final(self)@, r@) == old(self)@.after_end(reason@),
    {
        let action = match &*self {
            DirectSocket::Creating => DirectAction::Fail(reason.to_owned()),
            DirectSocket::Open(_) => DirectAction::Finish,
            DirectSocket::Closed => {
                return DirectAction::Wait;
            },
        };
        *self = DirectSocket::Closed;
        action
    }
}

/// A tunnel option `local_port:host:port` is read as written.
pub proof fn law_tunnel_option_reads_back(local_port: int, host: Seq<char>, port: Seq<char>)
    requires
        i32::MIN <= local_port <= i32::MAX,
        !host.contains(':'),
        !port.contains(':'),
    ensures
        tunnel_spec((decimal(local_port).push(':') + host).push(':') + port) == Ok::<
            SpecView,
            Seq<char>,
        >(SpecView { local_host: "127.0.0.1"@, local_port, remote: host + ":"@ + port }),
{
    lemma_decimal_chars(local_port);
    lemma_one_field_at(decimal(local_port), ':');
    lemma_next_field_at(decimal(local_port), host, ':');
    lemma_next_field_at(decimal(local_port).push(':') + host, port, ':');
    law_signed_reads_decimal(local_port, i32::MIN as int, i32::MAX as int);
}

/// Nothing happens on a connection that is over.
pub proof fn law_closed_stays_closed(
    bytes: Result<Seq<u8>, Seq<char>>,
    data: Seq<u8>,
    request_id: i64,
    reason: Seq<char>,
)
    ensures
        DirectView::Closed.after_bytes(bytes) == (DirectView::Closed, DirectActionView::Wait),
        DirectView::Closed.after_data(data, request_id) == (
            DirectView::Closed,
            DirectActionView::Wait,
        ),
        DirectView::Closed.after_end(reason) == (DirectView::Closed, DirectActionView::Wait),
{
}

/// Four words name a format, and every other text is a custom format of its own.
pub proof fn law_formats_have_names(value: &str, r: OutputFormat)
    requires
        call_ensures(find_format, (value,), r),
    ensures
        r is Cpon <==> value@ == "cpon"@,
        r is ChainPack <==> value@ == "chainpack"@,
        r is Simple <==> value@ == "simple"@,
        r is Value <==> value@ == "value"@,
        !(r is CponIndented),
        r matches OutputFormat::Custom(text) ==> text@ == value@,
{
    reveal_strlit("cpon");
    reveal_strlit("icpon");
    reveal_strlit("chainpack");
    reveal_strlit("simple");
    reveal_strlit("value");
    assert("cpon"@[0] == 'c');
    assert("icpon"@[0] == 'i');
    assert("chainpack"@.len() == 9);
    assert("simple"@.len() == 6);
    assert("value"@[0] == 'v');
}

/// The options name the call: the path option and the method option, or a method option
/// `path:method`, which goes before the path option. The parameter is what the parameter option
/// holds, whatever it is, and empty where it is not given. Without a method calls are typed in,
/// but a path alone is refused.
pub proof fn law_options_name_the_call(
    path: &Option<String>,
    method: &Option<String>,
    param: &Option<String>,
    before: Seq<char>,
    name: Seq<char>,
    r: Result<CallPlan, String>,
)
    requires
        call_ensures(plan_call, (path, method, param), r),
        !before.contains(':'),
    ensures
        *method is None && *path is None ==> (r matches Ok(plan) && plan is Interactive),
        *method is None && *path is Some ==> (r matches Err(error) && error@
            == "--method parameter missing"@),
        *method matches Some(m) ==> {
            &&& r matches Ok(CallPlan::Single { path: a, method: b, param: c })
            &&& *param matches Some(p) ==> c@ == p@
            &&& *param is None ==> c@.len() == 0
            &&& m@ == before + seq![':'] + name ==> a@ == before && b@ == name
            &&& !m@.contains(':') ==> {
                &&& b@ == m@
                &&& *path matches Some(p) ==> a@ == p@
                &&& *path is None ==> a@.len() == 0
            }
        },
{
    if let Some(m) = *method {
        m@.index_of_first_ensures(':');
        if m@ == before + seq![':'] + name {
            let i = before.len() as int;
            assert(m@[i] == ':');
            assert(m@.contains(':'));
            assert forall|k: int| 0 <= k < i implies m@[k] != ':' by {
                assert(before.contains(before[k]));
            }
            assert(m@.index_of_first(':') == Some(i));
            assert(m@.take(i) =~= before);
            assert(m@.skip(i + 1) =~= name);
        }
    }
}

/// A tunnel option is read by its parts between colons: the local port on the loopback address,
/// the host and the port it leads to. What is missing is told.
pub proof fn law_tunnel_options_are_read(
    text: &str,
    parts: Vec<&str>,
    port: Result<i32, IntError>,
    words: String,
    r: Result<TunnelSpec, String>,
)
    requires
        call_ensures(parse_tunnel, (text,), r),
        call_ensures(split, (text, ':'), parts),
        call_ensures(parse_i32, (parts@[0],), port),
        port matches Err(e) ==> call_ensures(IntError::message, (e,), words),
    ensures
        parts@.len() < 2 ==> (r matches Err(error) && error@ == "Host must be specified"@),
        parts@.len() == 2 ==> (r matches Err(error) && error@ == "Remote port must be specified"@),
        parts@.len() > 2 ==> match port {
            Err(_) => r matches Err(error) && error@ == words@,
            Ok(n) => {
                &&& r matches Ok(t)
                &&& t.local_host@ == "127.0.0.1"@
                &&& t.local_port == n
                &&& t.remote@ == parts@[1]@ + ":"@ + parts@[2]@
            },
        },
{
    let model = fields_at(text@, ':');
    assert(texts(parts@) == model);
    assert forall|i: int| 0 <= i < parts@.len() implies model[i] == (#[trigger] parts@[i])@ by {
        assert(texts(parts@)[i] == parts@[i]@);
    }
}

/// A connection asks for a tunnel to its host, and the answer opens it: data is asked for with an
/// empty write to the path of the tunnel. An error in its place fails the connection.
pub proof fn law_the_answer_opens_the_tunnel(
    create_rqid: i64,
    host: &str,
    start: (DirectSocket, Request),
    socket: &mut DirectSocket,
    result: Result<String, String>,
    write_rqid: i64,
    r: DirectAction,
)
    requires
        call_ensures(DirectSocket::start, (create_rqid, host), start),
        call_ensures(DirectSocket::on_created, (socket, result, write_rqid), r),
    ensures
        start.0 is Creating,
        start.1.request_id == create_rqid,
        start.1.seqno is None,
        start.1.path@ == ".app/tunnel"@,
        start.1.method@ == "create"@,
        start.1.param matches Param::Entry(key, value) && key@ == "host"@ && value@ == host@,
        result matches Ok(id) ==> {
            &&& *final(socket) matches DirectSocket::Open(open)
            &&& open@ == id@
            &&& r matches DirectAction::Send(rq)
            &&& rq.request_id == write_rqid
            &&& rq.seqno is None
            &&& rq.path@ == ".app/tunnel/"@ + id@
            &&& rq.method@ == "write"@
            &&& rq.param is Absent
        },
        result matches Err(e) ==> *final(socket) is Closed && (r matches DirectAction::Fail(error)
            && error@ == e@),
{
}

/// Data from the broker is written to the socket of an open connection byte for byte. An error in
/// its place fails the connection.
pub proof fn law_data_reaches_the_socket_as_it_is(
    socket: &mut DirectSocket,
    raw: &[u8],
    r: DirectAction,
)
    requires
        call_ensures(DirectSocket::on_frame, (socket, raw), r),
        !frame_overflows(raw@),
    ensures
        *old(socket) matches DirectSocket::Open(id) ==> match (
            message_error(raw@),
            result_blob(raw@),
        ) {
            (None, Ok(data)) => {
                &&& r matches DirectAction::Write(bytes)
                &&& bytes@ == data
                &&& *final(socket) matches DirectSocket::Open(still)
                &&& still@ == id@
            },
            (None, Err(e)) => *final(socket) is Closed && (r matches DirectAction::Fail(error)
                && error@ == e),
            (Some(e), _) => *final(socket) is Closed && (r matches DirectAction::Fail(error)
                && error@ == e),
        },
        !(*old(socket) is Open) ==> r is Wait && final(socket)@ == old(socket)@,
{
}

/// Plain bytes are written as they are, too.
pub proof fn law_bytes_are_written_as_they_are(
    socket: &mut DirectSocket,
    bytes: Result<Vec<u8>, String>,
    r: DirectAction,
)
    requires
        call_ensures(DirectSocket::on_bytes, (socket, bytes), r),
    ensures
        *old(socket) is Open ==> match bytes {
            Ok(data) => {
                &&& final(socket)@ == old(socket)@
                &&& r matches DirectAction::Write(b)
                &&& b@ == data@
            },
            Err(e) => *final(socket) is Closed && (r matches DirectAction::Fail(error) && error@
                == e@),
        },
        !(*old(socket) is Open) ==> r is Wait && final(socket)@ == old(socket)@,
{
}

/// Data from the socket of an open connection is written to the tunnel as it is, under a request
/// id of its own. No data means that the socket was closed.
pub proof fn law_socket_data_is_sent_as_it_is(
    socket: &mut DirectSocket,
    data: &[u8],
    request_id: i64,
    r: DirectAction,
)
    requires
        call_ensures(DirectSocket::on_data, (socket, data, request_id), r),
    ensures
        *old(socket) matches DirectSocket::Open(id) ==> {
            &&& data@.len() == 0 ==> r is Finish && *final(socket) is Closed
            &&& data@.len() > 0 ==> {
                &&& *final(socket) matches DirectSocket::Open(still)
                &&& still@ == id@
                &&& r matches DirectAction::Send(rq)
                &&& rq.request_id == request_id
                &&& rq.seqno is None
                &&& rq.path@ == ".app/tunnel/"@ + id@
                &&& rq.method@ == "write"@
                &&& rq.param matches Param::Blob(b)
                &&& b@ == data@
            }
        },
        !(*old(socket) is Open) ==> r is Wait && final(socket)@ == old(socket)@,
{
}

/// The end of the frames from the broker ends an open connection well and fails one that is being
/// opened.
pub proof fn law_connections_end(socket: &mut DirectSocket, reason: &str, r: DirectAction)
    requires
        call_ensures(DirectSocket::on_end, (socket, reason), r),
    ensures
        *final(socket) is Closed,
        *old(socket) is Creating ==> (r matches DirectAction::Fail(e) && e@ == reason@),
        *old(socket) is Open ==> r is Finish,
        *old(socket) is Closed ==> r is Wait,
{
}

/// An answer without data fails an open connection in the words of the reader.
pub proof fn law_unreadable_frames_fail_a_connection(
    socket: &mut DirectSocket,
    raw: &[u8],
    bytes: Result<Vec<u8>, String>,
    r: DirectAction,
)
    requires
        call_ensures(DirectSocket::on_frame, (socket, raw), r),
        call_ensures(read_bytes, (raw,), bytes),
        *old(socket) is Open,
    ensures
        match bytes {
            Ok(data) => r matches DirectAction::Write(b) && b@ == data@,
            Err(error) => *final(socket) is Closed && (r matches DirectAction::Fail(e) && e@
                == error@),
        },
{
}

} // verus!
