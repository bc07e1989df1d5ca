//! TCP tunnels through the broker.

use crate::chainpack::meta_overflows;
use crate::number::{
    law_signed_reads_decimal, lemma_decimal_chars, parse_i32, signed, IntError,
};
use crate::text::{
    decimal, fields, joined, lemma_joined_fields, lemma_same_cuts, marked, opt_text, push_i32,
    split_marked, texts,
};
use crate::wire::{frame_meta, framed, meta_outcome, read_frame, FrameMeta, MetaView};
use vstd::prelude::*;

verus! {

/// Whether a text ends inside square brackets: the last bracket in it opens.
pub open spec fn in_brackets(s: Seq<char>) -> bool
    decreases s.len(),
{
    if s.len() == 0 {
        false
    } else if s.last() == '[' {
        true
    } else if s.last() == ']' {
        false
    } else {
        in_brackets(s.drop_last())
    }
}

/// The positions of the colons outside square brackets.
pub open spec fn bare_colons(s: Seq<char>) -> spec_fn(int) -> bool {
    |i: int| s[i] == ':' && !in_brackets(s.take(i))
}

/// Splits `s` at the colons outside square brackets.
pub fn split_quoted<'a>(s: &'a str) -> (r: Vec<&'a str>)
    ensures
        texts(r@) == fields(s@, bare_colons(s@)),
        r@.len() >= 1,
{
    let mut marks: Vec<bool> = Vec::new();
    let mut wrapped = false;
    for c in it: s.chars()
        invariant
            it.seq() == s@,
            marks@.len() == it.index(),
            wrapped == in_brackets(s@.take(it.index())),
            forall|i: int| 0 <= i < marks@.len() ==> marks@[i] == bare_colons(s@)(i),
    {
        let ghost i = marks@.len() as int;
        assert(s@.take(i + 1).drop_last() =~= s@.take(i));
        if c == '[' {
            wrapped = true;
        } else if c == ']' {
            wrapped = false;
        }
        marks.push(c == ':' && !wrapped);
    }
    proof {
        lemma_same_cuts(s@, marked(marks@), bare_colons(s@));
    }
    split_marked(s, &marks)
}

/// Splitting loses nothing: the parts joined with colons are the text.
pub proof fn law_split_quoted_joins_back(s: Seq<char>)
    ensures
        joined(fields(s, bare_colons(s)), ':') == s,
{
    lemma_joined_fields(s, bare_colons(s), ':');
}

/// Whether no colon of `p` stands outside its square brackets.
pub open spec fn colons_quoted(p: Seq<char>) -> bool {
    forall|i: int| 0 <= i < p.len() && #[trigger] p[i] == ':' ==> in_brackets(p.take(i))
}

/// Whether `p` can be one part: its square brackets are closed and no colon stands outside them.
pub open spec fn is_part(p: Seq<char>) -> bool {
    !in_brackets(p) && colons_quoted(p)
}

/// Brackets that are closed before do not matter behind.
proof fn lemma_brackets_behind(a: Seq<char>, b: Seq<char>)
    requires
        !in_brackets(a),
    ensures
        in_brackets(a + b) == in_brackets(b),
    decreases b.len(),
{
    if b.len() == 0 {
        assert(a + b =~= a);
    } else {
        lemma_brackets_behind(a, b.drop_last());
        assert((a + b).drop_last() =~= a + b.drop_last());
    }
}

/// Where no colon stands outside brackets, there is one field.
proof fn lemma_one_field(b: Seq<char>)
    requires
        colons_quoted(b),
    ensures
        fields(b, bare_colons(b)) == seq![b],
    decreases b.len(),
{
    if b.len() == 0 {
        assert(b =~= Seq::<char>::empty());
    } else {
        let init = b.drop_last();
        assert forall|i: int| 0 <= i < init.len() && #[trigger] init[i] == ':' implies in_brackets(
            init.take(i),
        ) by {
            assert(b[i] == ':');
            assert(init.take(i) =~= b.take(i));
        }
        lemma_one_field(init);
        assert forall|i: int| 0 <= i < init.len() implies #[trigger] bare_colons(b)(i)
            == bare_colons(init)(i) by {
            assert(init.take(i) =~= b.take(i));
        }
        lemma_same_cuts(init, bare_colons(b), bare_colons(init));
        assert(init =~= b.take(b.len() - 1));
        assert(fields(b, bare_colons(b)) =~= seq![b]) by {
            assert(init.push(b.last()) =~= b);
        }
    }
}

/// A colon outside brackets begins a new field.
proof fn lemma_next_field(a: Seq<char>, b: Seq<char>)
    requires
        !in_brackets(a),
        colons_quoted(b),
    ensures
        fields(a.push(':') + b, bare_colons(a.push(':') + b)) == fields(a, bare_colons(a)).push(b),
    decreases b.len(),
{
    let s = a.push(':') + b;
    if b.len() == 0 {
        assert(s =~= a.push(':'));
        assert(s.drop_last() =~= a);
        assert(s.take(s.len() - 1) =~= a);
        assert forall|i: int| 0 <= i < a.len() implies #[trigger] bare_colons(s)(i)
            == bare_colons(a)(i) by {
            assert(s.take(i) =~= a.take(i));
        }
        lemma_same_cuts(a, bare_colons(s), bare_colons(a));
        assert(b =~= Seq::<char>::empty());
    } else {
        let init = b.drop_last();
        let t = a.push(':') + init;
        assert(s.drop_last() =~= t);
        assert forall|i: int| 0 <= i < init.len() && #[trigger] init[i] == ':' implies in_brackets(
            init.take(i),
        ) by {
            assert(b[i] == ':');
            assert(init.take(i) =~= b.take(i));
        }
        lemma_next_field(a, init);
        assert forall|i: int| 0 <= i < t.len() implies #[trigger] bare_colons(s)(i)
            == bare_colons(t)(i) by {
            assert(s.take(i) =~= t.take(i));
        }
        lemma_same_cuts(t, bare_colons(s), bare_colons(t));
        assert(s.take(s.len() - 1) =~= t);
        assert(a.push(':').drop_last() =~= a);
        lemma_brackets_behind(a.push(':'), init);
        assert(init =~= b.take(b.len() - 1));
        assert(b[b.len() - 1] == s.last());
        assert(!bare_colons(s)(s.len() - 1));
        let before = fields(a, bare_colons(a));
        assert(init.push(b.last()) =~= b);
        assert(before.push(init).update(before.len() as int, b) =~= before.push(b));
    }
}

/// Parts joined with colons leave no bracket open.
proof fn lemma_joined_closed(parts: Seq<Seq<char>>)
    requires
        forall|i: int| 0 <= i < parts.len() ==> is_part(#[trigger] parts[i]),
    ensures
        !in_brackets(joined(parts, ':')),
    decreases parts.len(),
{
    if parts.len() == 1 {
        assert(is_part(parts[0]));
    } else if parts.len() > 1 {
        let init = parts.drop_last();
        assert forall|i: int| 0 <= i < init.len() implies is_part(#[trigger] init[i]) by {
            assert(is_part(parts[i]));
        }
        lemma_joined_closed(init);
        let a = joined(init, ':');
        assert(is_part(parts[parts.len() - 1]));
        assert(a.push(':').drop_last() =~= a);
        lemma_brackets_behind(a.push(':'), parts.last());
    }
}

/// Splitting undoes joining: parts joined with colons split into those parts. Brackets may stay
/// open in the last part.
pub proof fn law_split_quoted_splits_back(parts: Seq<Seq<char>>)
    requires
        parts.len() > 0,
        forall|i: int| 0 <= i < parts.len() - 1 ==> is_part(#[trigger] parts[i]),
        colons_quoted(parts.last()),
    ensures
        fields(joined(parts, ':'), bare_colons(joined(parts, ':'))) == parts,
    decreases parts.len(),
{
    if parts.len() == 1 {
        lemma_one_field(parts[0]);
        assert(seq![parts[0]] =~= parts);
    } else {
        let init = parts.drop_last();
        assert forall|i: int| 0 <= i < init.len() implies is_part(#[trigger] init[i]) by {
            assert(is_part(parts[i]));
        }
        law_split_quoted_splits_back(init);
        lemma_joined_closed(init);
        lemma_next_field(joined(init, ':'), parts.last());
        assert(init.push(parts.last()) =~= parts);
    }
}

/// A text without brackets and colons is a part.
proof fn lemma_bare_part(p: Seq<char>)
    requires
        forall|i: int| 0 <= i < p.len() ==> p[i] != '[' && p[i] != ':',
    ensures
        is_part(p),
    decreases p.len(),
{
    if p.len() > 0 {
        lemma_bare_part(p.drop_last());
    }
}

/// Where a tunnel listens and where it leads.
#[derive(Debug, PartialEq, Eq)]
pub struct TunnelSpec {
    pub local_host: String,
    pub local_port: i32,
    /// Host and port at the far end.
    pub remote: String,
}

/// The contents of a `TunnelSpec`.
pub struct SpecView {
    pub local_host: Seq<char>,
    pub local_port: int,
    pub remote: Seq<char>,
}

impl View for TunnelSpec {
    type V = SpecView;

    open spec fn view(&self) -> SpecView {
        SpecView {
            local_host: self.local_host@,
            local_port: self.local_port as int,
            remote: self.remote@,
        }
    }
}

/// What a tunnel option `[local_host:]local_port:host:port` asks for. Without a local host the
/// tunnel listens on the loopback address, with an empty one on all addresses.
pub open spec fn tunnel_spec(text: Seq<char>) -> Result<SpecView, Seq<char>> {
    let parts = fields(text, bare_colons(text));
    if parts.len() < 3 || parts.len() > 4 {
        Err("Invalid tunnel specification: "@ + text)
    } else {
        let local_host = if parts.len() == 3 {
            "127.0.0.1"@
        } else if parts[0].len() == 0 {
            "0.0.0.0"@
        } else {
            parts[0]
        };
        let k = parts.len() - 3;
        match signed(parts[k], i32::MIN as int, i32::MAX as int) {
            Err(e) => Err(e.text()),
            Ok(local_port) => Ok(
                SpecView { local_host, local_port, remote: parts[k + 1] + ":"@ + parts[k + 2] },
            ),
        }
    }
}

/// Reads a tunnel option.
pub fn parse_tunnel(text: &str) -> (r: Result<TunnelSpec, String>)
    ensures
        match r {
            Ok(t) => tunnel_spec(text@) matches Ok(v) && v == t@,
            Err(error) => tunnel_spec(text@) matches Err(e) && e == error@,
        },
{
    let parts = split_quoted(text);
    let ghost model = fields(text@, bare_colons(text@));
    assert(model.len() == parts@.len());
    assert(forall|i: int| 0 <= i < parts@.len() ==> model[i] == (#[trigger] parts@[i])@);
    if parts.len() < 3 || parts.len() > 4 {
        let mut s = "Invalid tunnel specification: ".to_owned();
        s.append(text);
        return Err(s);
    }
    let local_host = if parts.len() == 3 {
        "127.0.0.1"
    } else if parts[0].is_empty() {
        "0.0.0.0"
    } else {
        parts[0]
    };
    let k: usize = parts.len() - 3;
    let local_port = match parse_i32(parts[k]) {
        Ok(p) => p,
        Err(e) => {
            return Err(e.message());
        },
    };
    let mut remote = parts[k + 1].to_owned();
    remote.append(":");
    remote.append(parts[k + 2]);
    Ok(TunnelSpec { local_host: local_host.to_owned(), local_port, remote })
}

/// An address as host and port.
pub open spec fn address(host: Seq<char>, port: int) -> Seq<char> {
    host + ":"@ + decimal(port)
}

impl TunnelSpec {
    /// The address to listen on.
    pub fn local_address(&self) -> (r: String)
        ensures
            r@ == address(self@.local_host, self@.local_port),
    {
        let mut s = self.local_host.clone();
        s.append(":");
        push_i32(&mut s, self.local_port);
        s
    }
}

/// A tunnel option as it is written.
pub open spec fn tunnel_option(
    local_host: Option<Seq<char>>,
    local_port: int,
    host: Seq<char>,
    port: Seq<char>,
) -> Seq<char> {
    match local_host {
        None => joined(seq![decimal(local_port), host, port], ':'),
        Some(h) => joined(seq![h, decimal(local_port), host, port], ':'),
    }
}

/// A tunnel option `[local_host:]local_port:host:port` is read as written: without a local host
/// the tunnel listens on 127.0.0.1, with an empty one on 0.0.0.0. A host with colons stands in
/// square brackets.
pub proof fn law_tunnel_option_reads_back(
    local_host: Option<Seq<char>>,
    local_port: int,
    host: Seq<char>,
    port: Seq<char>,
)
    requires
        i32::MIN <= local_port <= i32::MAX,
        local_host matches Some(h) ==> is_part(h),
        is_part(host),
        colons_quoted(port),
    ensures
        tunnel_spec(tunnel_option(local_host, local_port, host, port)) == Ok::<
            SpecView,
            Seq<char>,
        >(
            SpecView {
                local_host: match local_host {
                    None => "127.0.0.1"@,
                    Some(h) => if h.len() == 0 {
                        "0.0.0.0"@
                    } else {
                        h
                    },
                },
                local_port,
                remote: host + ":"@ + port,
            },
        ),
{
    lemma_decimal_chars(local_port);
    lemma_bare_part(decimal(local_port));
    law_signed_reads_decimal(local_port, i32::MIN as int, i32::MAX as int);
    match local_host {
        None => {
            law_split_quoted_splits_back(seq![decimal(local_port), host, port]);
        },
        Some(h) => {
            law_split_quoted_splits_back(seq![h, decimal(local_port), host, port]);
        },
    }
}

/// An open tunnel: the request ids under which the broker answers it, and where its frames are
/// sent on to.
#[derive(Debug)]
pub struct Tunnel<S> {
    pub create_rqid: i64,
    pub write_rqid: i64,
    pub frame_sender: S,
}

impl<S> Tunnel<S> {
    /// Whether frames with this request id belong to the tunnel.
    pub open spec fn owns(self, request_id: i64) -> bool {
        self.write_rqid == request_id || self.create_rqid == request_id
    }
}

/// The tunnel that a frame with this request id goes to: the first one that owns the id, looked
/// for from position `k` on.
pub open spec fn routed<S>(tunnels: Seq<Tunnel<S>>, request_id: i64, k: int) -> Option<int>
    decreases tunnels.len() - k,
{
    if k < 0 || k >= tunnels.len() {
        None
    } else if tunnels[k].owns(request_id) {
        Some(k)
    } else {
        routed(tunnels, request_id, k + 1)
    }
}

/// Finds the tunnel that a frame with this meta data goes to. A frame without a request id counts
/// as one with the id 0.
pub fn route<S>(tunnels: &Vec<Tunnel<S>>, meta: &FrameMeta) -> (r: Option<usize>)
    ensures
        match r {
            Some(i) => routed(tunnels@, meta@.id(), 0) == Some(i as int),
            None => routed(tunnels@, meta@.id(), 0) is None,
        },
{
    let request_id = meta.id();
    let mut k: usize = 0;
    while k < tunnels.len()
        invariant
            k <= tunnels.len(),
            request_id == meta@.id(),
            routed(tunnels@, request_id, 0) == routed(tunnels@, request_id, k as int),
        decreases tunnels.len() - k,
    {
        let t = &tunnels[k];
        if t.write_rqid == request_id || t.create_rqid == request_id {
            return Some(k);
        }
        k += 1;
    }
    None
}

/// The items whose flag is set, in their order.
pub open spec fn flagged<T>(items: Seq<T>, flags: Seq<bool>) -> Seq<T>
    decreases items.len(),
{
    if items.len() == 0 {
        Seq::<T>::empty()
    } else if flags[0] {
        seq![items[0]] + flagged(items.skip(1), flags.skip(1))
    } else {
        flagged(items.skip(1), flags.skip(1))
    }
}

/// Which tunnels are open, given which are closed.
pub open spec fn open_flags(closed: Seq<bool>) -> Seq<bool> {
    Seq::new(closed.len(), |i: int| !closed[i])
}

/// Removes the tunnels whose receiving end is gone and keeps the others; `closed` tells for each
/// tunnel whether its receiving end is gone.
pub fn retain_open<S>(tunnels: &mut Vec<Tunnel<S>>, closed: &Vec<bool>)
    requires
        closed@.len() == old(tunnels)@.len(),
    ensures
        final(tunnels)@ == flagged(old(tunnels)@, open_flags(closed@)),
{
    let ghost before = tunnels@;
    let ghost open = open_flags(closed@);
    let mut k: usize = tunnels.len();
    assert(before.skip(k as int) =~= Seq::<Tunnel<S>>::empty());
    assert(tunnels@ =~= before.take(k as int) + flagged(
        before.skip(k as int),
        open.skip(k as int),
    ));
    while k > 0
        invariant
            k <= before.len(),
            closed@.len() == before.len(),
            open == open_flags(closed@),
            tunnels@ == before.take(k as int) + flagged(
                before.skip(k as int),
                open.skip(k as int),
            ),
        decreases k,
    {
        let ghost behind = flagged(before.skip(k as int), open.skip(k as int));
        k -= 1;
        assert(before.skip(k as int).skip(1) =~= before.skip(k + 1));
        assert(open.skip(k as int).skip(1) =~= open.skip(k + 1));
        if closed[k] {
            tunnels.remove(k);
            assert(tunnels@ =~= before.take(k as int) + behind);
        } else {
            assert(tunnels@ =~= before.take(k as int) + (seq![before[k as int]] + behind));
        }
    }
    assert(before.skip(0) =~= before);
    assert(open.skip(0) =~= open);
    assert(tunnels@ =~= flagged(before, open));
}

/// What the tunnel server is to do next.
#[derive(Debug, PartialEq, Eq)]
pub enum ServerAction {
    /// Wait for the next event.
    Wait,
    /// Send the frame on to the tunnel at this place.
    Forward(usize),
    /// End well, after logging this, if anything.
    Finish(Option<String>),
    /// End with this error.
    Fail(String),
}

/// The contents of a `ServerAction`.
pub enum ServerActionView {
    Wait,
    Forward(int),
    Finish(Option<Seq<char>>),
    Fail(Seq<char>),
}

impl View for ServerAction {
    type V = ServerActionView;

    open spec fn view(&self) -> ServerActionView {
        match self {
            ServerAction::Wait => ServerActionView::Wait,
            ServerAction::Forward(i) => ServerActionView::Forward(*i as int),
            ServerAction::Finish(log) => ServerActionView::Finish(opt_text(*log)),
            ServerAction::Fail(e) => ServerActionView::Fail(e@),
        }
    }
}

/// The tunnel server: its tunnels, and whether it goes on.
#[derive(Debug)]
pub struct TunnelServer<S> {
    pub tunnels: Vec<Tunnel<S>>,
    pub running: bool,
}

/// The contents of a `TunnelServer`.
pub struct ServerView<S> {
    pub tunnels: Seq<Tunnel<S>>,
    pub running: bool,
}

impl<S> View for TunnelServer<S> {
    type V = ServerView<S>;

    open spec fn view(&self) -> ServerView<S> {
        ServerView { tunnels: self.tunnels@, running: self.running }
    }
}

/// What is logged where the frames from the broker or to it come to an end.
pub open spec fn end_log(error: Seq<char>) -> Seq<char> {
    "Get response receiver error: "@ + error
}

impl<S> ServerView<S> {
    /// The server at its end.
    pub open spec fn stopped(self) -> ServerView<S> {
        ServerView { tunnels: self.tunnels, running: false }
    }

    /// What a frame from the broker does: it goes to the tunnel that it belongs to, if there is
    /// one. Bytes that are no frame end the server.
    pub open spec fn after_frame(self, meta: Result<MetaView, Seq<char>>) -> (
        ServerView<S>,
        ServerActionView,
    ) {
        match meta {
            Err(e) => (self.stopped(), ServerActionView::Finish(Some(end_log(e)))),
            Ok(m) => match routed(self.tunnels, m.id(), 0) {
                Some(i) => (self, ServerActionView::Forward(i)),
                None => (self, ServerActionView::Wait),
            },
        }
    }

    /// The server with one more tunnel.
    pub open spec fn accepted(self, tunnel: Tunnel<S>) -> ServerView<S> {
        ServerView { tunnels: self.tunnels.push(tunnel), running: self.running }
    }

    /// The server without the tunnels whose receiving end is gone.
    pub open spec fn swept(self, closed: Seq<bool>) -> ServerView<S> {
        ServerView { tunnels: flagged(self.tunnels, open_flags(closed)), running: self.running }
    }
}

impl<S> TunnelServer<S> {
    /// A server without tunnels.
    pub fn start() -> (r: TunnelServer<S>)
        ensures
            r@.tunnels == Seq::<Tunnel<S>>::empty(),
            r@.running,
    {
        TunnelServer { tunnels: Vec::new(), running: true }
    }

    /// Takes a new connection: its tunnel is opened and written to under these request ids, and
    /// its frames are sent on to `frame_sender`.
    pub fn on_connection(&mut self, create_rqid: i64, write_rqid: i64, frame_sender: S)
        ensures
            final(self)@ == old(self)@.accepted(
                (Tunnel { create_rqid, write_rqid, frame_sender }),
            ),
    {
        self.tunnels.push(Tunnel { create_rqid, write_rqid, frame_sender });
    }

    /// Takes the end of the connections: the server ends well.
    pub fn on_no_connection(&mut self) -> (r: ServerAction)
        ensures
            final(self)@ == old(self)@.stopped(),
            r@ == ServerActionView::Finish(None),
    {
        self.running = false;
        ServerAction::Finish(None)
    }

    /// Takes what was read of a frame from the broker.
    pub fn on_meta(&mut self, meta: Result<FrameMeta, String>) -> (r: ServerAction)
        ensures
            (final(self)@, r@) == old(self)@.after_frame(meta_outcome(meta)),
    {
        match meta {
            Err(e) => self.on_read_error(e.as_str()),
            Ok(m) => match route(&self.tunnels, &m) {
                Some(i) => ServerAction::Forward(i),
                None => ServerAction::Wait,
            },
        }
    }

    /// Takes the frame `raw` from the broker.
    pub fn on_frame(&mut self, raw: &[u8]) -> (r: ServerAction)
        ensures
            (final(self)@, r@) == old(self)@.after_frame(framed(raw@)),
    {
        self.on_meta(read_frame(raw))
    }

    /// Takes note that the frame is dealt with: tunnels whose receiving end is gone are removed.
    pub fn on_frame_done(&mut self, closed: &Vec<bool>)
        requires
            closed@.len() == old(self)@.tunnels.len(),
        ensures
            final(self)@ == old(self)@.swept(closed@),
    {
        retain_open(&mut self.tunnels, closed);
    }

    /// Takes a failed read from the broker, or the end of the frames to it: it is logged, and the
    /// server ends well.
    pub fn on_read_error(&mut self, error: &str) -> (r: ServerAction)
        ensures
            final(self)@ == old(self)@.stopped(),
            r@ == ServerActionView::Finish(Some(end_log(error@))),
    {
        self.running = false;
        let mut s = "Get response receiver error: ".to_owned();
        s.append(error);
        ServerAction::Finish(Some(s))
    }

    /// Takes a failed write to the broker or to a tunnel, or a connection that could not be
    /// accepted: the server ends with the error.
    pub fn on_write_error(&mut self, error: &str) -> (r: ServerAction)
        ensures
            final(self)@ == old(self)@.stopped(),
            r@ == ServerActionView::Fail(error@),
    {
        self.running = false;
        ServerAction::Fail(error.to_owned())
    }
}

/// Whether no request id belongs to two tunnels.
pub open spec fn ids_apart<S>(tunnels: Seq<Tunnel<S>>) -> bool {
    forall|i: int, j: int, id: i64|
        0 <= i < tunnels.len() && 0 <= j < tunnels.len() && #[trigger] tunnels[i].owns(id)
            && #[trigger] tunnels[j].owns(id) ==> i == j
}

/// A frame goes to a tunnel that owns its request id, and to none only if no tunnel does.
proof fn lemma_routed<S>(tunnels: Seq<Tunnel<S>>, request_id: i64, k: int)
    requires
        0 <= k <= tunnels.len(),
    ensures
        match routed(tunnels, request_id, k) {
            Some(i) => {
                &&& k <= i < tunnels.len()
                &&& tunnels[i].owns(request_id)
                &&& forall|j: int| k <= j < i ==> !(#[trigger] tunnels[j]).owns(request_id)
            },
            None => forall|j: int|
                k <= j < tunnels.len() ==> !(#[trigger] tunnels[j]).owns(request_id),
        },
    decreases tunnels.len() - k,
{
    if k < tunnels.len() && !tunnels[k].owns(request_id) {
        lemma_routed(tunnels, request_id, k + 1);
    }
}

/// As long as no request id belongs to two tunnels, every frame reaches the tunnel that it
/// belongs to.
pub proof fn law_frames_reach_their_tunnel<S>(tunnels: Seq<Tunnel<S>>, i: int, request_id: i64)
    requires
        ids_apart(tunnels),
        0 <= i < tunnels.len(),
        tunnels[i].owns(request_id),
    ensures
        routed(tunnels, request_id, 0) == Some(i),
{
    lemma_routed(tunnels, request_id, 0);
}

/// Where several tunnels own a request id, the one that was opened first gets the frame; a frame
/// that no tunnel owns goes nowhere.
pub proof fn law_first_owner_gets_the_frame<S>(tunnels: Seq<Tunnel<S>>, request_id: i64)
    ensures
        match routed(tunnels, request_id, 0) {
            Some(i) => {
                &&& 0 <= i < tunnels.len()
                &&& tunnels[i].owns(request_id)
                &&& forall|j: int| 0 <= j < i ==> !(#[trigger] tunnels[j]).owns(request_id)
            },
            None => forall|j: int|
                0 <= j < tunnels.len() ==> !(#[trigger] tunnels[j]).owns(request_id),
        },
{
    lemma_routed(tunnels, request_id, 0);
}

/// Request ids are positive, so a frame without a request id is for no tunnel.
pub proof fn law_signals_reach_no_tunnel<S>(tunnels: Seq<Tunnel<S>>, meta: MetaView)
    requires
        meta.request_id is None,
        forall|i: int|
            0 <= i < tunnels.len() ==> (#[trigger] tunnels[i]).create_rqid > 0
                && tunnels[i].write_rqid > 0,
    ensures
        routed(tunnels, meta.id(), 0) is None,
{
    lemma_routed(tunnels, meta.id(), 0);
}

/// Whether the request ids of `tunnel` belong to none of the tunnels.
pub open spec fn has_new_ids<S>(tunnels: Seq<Tunnel<S>>, tunnel: Tunnel<S>) -> bool {
    forall|i: int|
        0 <= i < tunnels.len() ==> !(#[trigger] tunnels[i]).owns(tunnel.create_rqid)
            && !tunnels[i].owns(tunnel.write_rqid)
}

/// Opening a tunnel under new request ids keeps the ids apart.
pub proof fn law_new_ids_stay_apart<S>(tunnels: Seq<Tunnel<S>>, tunnel: Tunnel<S>)
    requires
        ids_apart(tunnels),
        has_new_ids(tunnels, tunnel),
    ensures
        ids_apart(tunnels.push(tunnel)),
{
    let all = tunnels.push(tunnel);
    assert forall|i: int, j: int, id: i64|
        0 <= i < all.len() && 0 <= j < all.len() && #[trigger] all[i].owns(id)
            && #[trigger] all[j].owns(id) implies i == j by {
        if i < tunnels.len() {
            assert(all[i] == tunnels[i]);
        }
        if j < tunnels.len() {
            assert(all[j] == tunnels[j]);
        }
    }
}

/// The positions of the items whose flag is set, `base` more.
spec fn flag_positions(flags: Seq<bool>, base: int) -> Seq<int>
    decreases flags.len(),
{
    if flags.len() == 0 {
        Seq::<int>::empty()
    } else if flags[0] {
        seq![base] + flag_positions(flags.skip(1), base + 1)
    } else {
        flag_positions(flags.skip(1), base + 1)
    }
}

/// The items whose flag is set stand at increasing positions.
proof fn lemma_flagged_positions<T>(items: Seq<T>, flags: Seq<bool>, base: int)
    requires
        items.len() == flags.len(),
    ensures
        ({
            let at = flag_positions(flags, base);
            &&& at.len() == flagged(items, flags).len()
            &&& forall|i: int|
                0 <= i < at.len() ==> base <= #[trigger] at[i] < base + items.len()
                    && flagged(items, flags)[i] == items[at[i] - base] && flags[at[i] - base]
            &&& forall|i: int, j: int| 0 <= i < j < at.len() ==> at[i] < at[j]
        }),
    decreases items.len(),
{
    if items.len() > 0 {
        lemma_flagged_positions(items.skip(1), flags.skip(1), base + 1);
        let rest = flag_positions(flags.skip(1), base + 1);
        let at = flag_positions(flags, base);
        let k = if flags[0] {
            1int
        } else {
            0int
        };
        assert forall|i: int| 0 <= i < at.len() implies base <= #[trigger] at[i] < base
            + items.len() && flagged(items, flags)[i] == items[at[i] - base]
            && flags[at[i] - base] by {
            if i >= k {
                assert(at[i] == rest[i - k]);
                assert(flagged(items, flags)[i] == flagged(items.skip(1), flags.skip(1))[i - k]);
            }
        }
        assert forall|i: int, j: int| 0 <= i < j < at.len() implies at[i] < at[j] by {
            assert(at[j] == rest[j - k]);
            if i >= k {
                assert(at[i] == rest[i - k]);
            }
        }
    }
}

/// An item whose flag is set is kept.
proof fn lemma_flagged_kept<T>(items: Seq<T>, flags: Seq<bool>, i: int) -> (k: int)
    requires
        items.len() == flags.len(),
        0 <= i < items.len(),
        flags[i],
    ensures
        0 <= k < flagged(items, flags).len(),
        flagged(items, flags)[k] == items[i],
    decreases items.len(),
{
    if i == 0 {
        0
    } else {
        let k = lemma_flagged_kept(items.skip(1), flags.skip(1), i - 1);
        if flags[0] {
            k + 1
        } else {
            k
        }
    }
}

/// Frames reach an open tunnel as long as it is open: when a frame is dealt with and the tunnels
/// whose receiving end is gone are removed, the next frame of an open tunnel is still routed to
/// it.
pub proof fn law_open_tunnels_stay_routed<S>(
    server: ServerView<S>,
    closed: Seq<bool>,
    i: int,
    request_id: i64,
)
    requires
        ids_apart(server.tunnels),
        closed.len() == server.tunnels.len(),
        0 <= i < server.tunnels.len(),
        !closed[i],
        server.tunnels[i].owns(request_id),
    ensures
        routed(server.tunnels, request_id, 0) == Some(i),
        ids_apart(server.swept(closed).tunnels),
        routed(server.swept(closed).tunnels, request_id, 0) matches Some(k) && 0 <= k
            < server.swept(closed).tunnels.len() && server.swept(closed).tunnels[k]
            == server.tunnels[i],
{
    law_frames_reach_their_tunnel(server.tunnels, i, request_id);
    law_kept_ids_stay_apart(server.tunnels, closed);
    let k = lemma_flagged_kept(server.tunnels, open_flags(closed), i);
    law_frames_reach_their_tunnel(server.swept(closed).tunnels, k, request_id);
}

/// What happens to the server: a frame comes from the broker, and the flags tell which tunnels are
/// closed once it is dealt with; or a connection is accepted, and this is its tunnel.
pub enum ServerEvent<S> {
    Frame(Seq<u8>, Seq<bool>),
    Connection(Tunnel<S>),
}

/// The server after an event.
pub open spec fn server_after<S>(server: ServerView<S>, event: ServerEvent<S>) -> ServerView<S> {
    match event {
        ServerEvent::Frame(raw, closed) => {
            let (state, _) = server.after_frame(framed(raw));
            if state.running {
                state.swept(closed)
            } else {
                state
            }
        },
        ServerEvent::Connection(tunnel) => server.accepted(tunnel),
    }
}

/// Whether the events can happen one after the other: there is a flag for each tunnel, and new
/// tunnels have new request ids. After the end of the server nothing more happens.
pub open spec fn can_happen<S>(server: ServerView<S>, events: Seq<ServerEvent<S>>) -> bool
    decreases events.len(),
{
    server.running && events.len() > 0 ==> {
        &&& match events[0] {
            ServerEvent::Frame(_, closed) => closed.len() == server.tunnels.len(),
            ServerEvent::Connection(new) => has_new_ids(server.tunnels, new),
        }
        &&& can_happen(server_after(server, events[0]), events.skip(1))
    }
}

/// Whether `tunnel` is there and open at each frame.
pub open spec fn stays_open<S>(
    server: ServerView<S>,
    events: Seq<ServerEvent<S>>,
    tunnel: Tunnel<S>,
) -> bool
    decreases events.len(),
{
    server.running && events.len() > 0 ==> {
        &&& events[0] matches ServerEvent::Frame(_, closed) ==> exists|i: int|
            0 <= i < server.tunnels.len() && #[trigger] server.tunnels[i] == tunnel && !closed[i]
        &&& stays_open(server_after(server, events[0]), events.skip(1), tunnel)
    }
}

/// The frames that are forwarded to `tunnel`, in order.
pub open spec fn forwarded_to<S>(
    server: ServerView<S>,
    events: Seq<ServerEvent<S>>,
    tunnel: Tunnel<S>,
) -> Seq<Seq<u8>>
    decreases events.len(),
{
    if !server.running || events.len() == 0 {
        Seq::<Seq<u8>>::empty()
    } else {
        let rest = forwarded_to(server_after(server, events[0]), events.skip(1), tunnel);
        match events[0] {
            ServerEvent::Frame(raw, _) => match server.after_frame(framed(raw)).1 {
                ServerActionView::Forward(i) if server.tunnels[i] == tunnel => seq![raw] + rest,
                _ => rest,
            },
            ServerEvent::Connection(_) => rest,
        }
    }
}

/// The frames that belong to `tunnel`, in order, up to bytes that are no frame.
pub open spec fn belonging<S>(events: Seq<ServerEvent<S>>, tunnel: Tunnel<S>) -> Seq<Seq<u8>>
    decreases events.len(),
{
    if events.len() == 0 {
        Seq::<Seq<u8>>::empty()
    } else {
        let rest = belonging(events.skip(1), tunnel);
        match events[0] {
            ServerEvent::Connection(_) => rest,
            ServerEvent::Frame(raw, _) => match framed(raw) {
                Err(_) => Seq::<Seq<u8>>::empty(),
                Ok(meta) => if tunnel.owns(meta.id()) {
                    seq![raw] + rest
                } else {
                    rest
                },
            },
        }
    }
}

/// A tunnel that stays open gets every frame that belongs to it, in order, and no other, however
/// many connections are accepted and closed meanwhile. Its own connection may be the first event.
pub proof fn law_open_tunnel_gets_its_frames<S>(
    server: ServerView<S>,
    events: Seq<ServerEvent<S>>,
    tunnel: Tunnel<S>,
)
    requires
        server.running,
        ids_apart(server.tunnels),
        can_happen(server, events),
        stays_open(server, events, tunnel),
    ensures
        forwarded_to(server, events, tunnel) == belonging(events, tunnel),
    decreases events.len(),
{
    if events.len() > 0 {
        let next = server_after(server, events[0]);
        match events[0] {
            ServerEvent::Connection(new) => {
                law_new_ids_stay_apart(server.tunnels, new);
                law_open_tunnel_gets_its_frames(next, events.skip(1), tunnel);
            },
            ServerEvent::Frame(raw, closed) => {
                if let Ok(meta) = framed(raw) {
                    let i = choose|i: int|
                        0 <= i < server.tunnels.len() && #[trigger] server.tunnels[i] == tunnel
                            && !closed[i];
                    law_kept_ids_stay_apart(server.tunnels, closed);
                    law_open_tunnel_gets_its_frames(next, events.skip(1), tunnel);
                    if tunnel.owns(meta.id()) {
                        law_frames_reach_their_tunnel(server.tunnels, i, meta.id());
                    } else {
                        lemma_routed(server.tunnels, meta.id(), 0);
                    }
                } else {
                    assert(forwarded_to(next, events.skip(1), tunnel) =~= Seq::<Seq<u8>>::empty());
                }
            },
        }
    }
}

/// A tunnel whose receiving end is gone gets nothing more: none of the tunnels that are kept was
/// closed.
pub proof fn law_closed_tunnels_are_removed<S>(
    server: ServerView<S>,
    closed: Seq<bool>,
    i: int,
    request_id: i64,
)
    requires
        ids_apart(server.tunnels),
        closed.len() == server.tunnels.len(),
        0 <= i < server.tunnels.len(),
        closed[i],
        server.tunnels[i].owns(request_id),
    ensures
        routed(server.swept(closed).tunnels, request_id, 0) is None,
{
    let kept = server.swept(closed).tunnels;
    let open = open_flags(closed);
    let at = flag_positions(open, 0);
    lemma_flagged_positions(server.tunnels, open, 0);
    lemma_routed(kept, request_id, 0);
    if let Some(k) = routed(kept, request_id, 0) {
        assert(kept[k] == server.tunnels[at[k]]);
        assert(at[k] == i);
        assert(open[at[k]]);
    }
}

/// Removing tunnels keeps the ids of the others apart.
pub proof fn law_kept_ids_stay_apart<S>(tunnels: Seq<Tunnel<S>>, closed: Seq<bool>)
    requires
        ids_apart(tunnels),
        closed.len() == tunnels.len(),
    ensures
        ids_apart(flagged(tunnels, open_flags(closed))),
{
    let kept = flagged(tunnels, open_flags(closed));
    let at = flag_positions(open_flags(closed), 0);
    lemma_flagged_positions(tunnels, open_flags(closed), 0);
    assert forall|i: int, j: int, id: i64|
        0 <= i < kept.len() && 0 <= j < kept.len() && #[trigger] kept[i].owns(id)
            && #[trigger] kept[j].owns(id) implies i == j by {
        assert(kept[i] == tunnels[at[i]]);
        assert(kept[j] == tunnels[at[j]]);
        assert(at[i] == at[j]);
    }
}

/// A text ends inside brackets exactly if a bracket opens in it that is not closed behind.
pub proof fn law_brackets_open_until_closed(s: Seq<char>)
    ensures
        in_brackets(s) <==> exists|i: int|
            0 <= i < s.len() && #[trigger] s[i] == '[' && forall|j: int|
                i < j < s.len() ==> #[trigger] s[j] != ']',
    decreases s.len(),
{
    if s.len() > 0 {
        let init = s.drop_last();
        let n = s.len() - 1;
        law_brackets_open_until_closed(init);
        if s.last() == '[' {
            assert(s[n] == '[');
        } else if s.last() == ']' {
            assert forall|i: int|
                0 <= i < s.len() && #[trigger] s[i] == '[' && (forall|j: int|
                    i < j < s.len() ==> #[trigger] s[j] != ']') implies false by {
                assert(s[n] == ']');
            }
        } else {
            if in_brackets(init) {
                let i = choose|i: int|
                    0 <= i < init.len() && #[trigger] init[i] == '[' && forall|j: int|
                        i < j < init.len() ==> #[trigger] init[j] != ']';
                assert(s[i] == '[');
                assert forall|j: int| i < j < s.len() implies #[trigger] s[j] != ']' by {
                    if j < n {
                        assert(init[j] == s[j]);
                    }
                }
            }
            if exists|i: int|
                0 <= i < s.len() && #[trigger] s[i] == '[' && forall|j: int|
                    i < j < s.len() ==> #[trigger] s[j] != ']' {
                let i = choose|i: int|
                    0 <= i < s.len() && #[trigger] s[i] == '[' && forall|j: int|
                        i < j < s.len() ==> #[trigger] s[j] != ']';
                assert(init[i] == '[');
                assert forall|j: int| i < j < init.len() implies #[trigger] init[j] != ']' by {
                    assert(s[j] == init[j]);
                }
            }
        }
    }
}

/// A text is split into the parts that it is made of with colons between them, where brackets are
/// closed in each part but the last and no colon stands outside them.
pub proof fn law_split_quoted_gives_the_parts(s: &str, parts: Seq<Seq<char>>, r: Vec<&str>)
    requires
        call_ensures(split_quoted, (s,), r),
        parts.len() > 0,
        s@ == joined(parts, ':'),
        forall|i: int| 0 <= i < parts.len() - 1 ==> is_part(#[trigger] parts[i]),
        colons_quoted(parts.last()),
    ensures
        r@.len() == parts.len(),
        forall|i: int| 0 <= i < parts.len() ==> (#[trigger] r@[i])@ == parts[i],
{
    law_split_quoted_splits_back(parts);
    assert(texts(r@).len() == parts.len());
    assert forall|i: int| 0 <= i < parts.len() implies (#[trigger] r@[i])@ == parts[i] by {
        assert(texts(r@)[i] == parts[i]);
    }
}

/// The parts that a text is split into, joined with colons, are the text.
pub proof fn law_split_quoted_loses_nothing(s: &str, r: Vec<&str>)
    requires
        call_ensures(split_quoted, (s,), r),
    ensures
        joined(Seq::new(r@.len(), |i: int| r@[i]@), ':') == s@,
        r@.len() > 0,
{
    law_split_quoted_joins_back(s@);
    assert(texts(r@) =~= Seq::new(r@.len(), |i: int| r@[i]@));
}

/// A tunnel option is read by its parts: port, host and port, with the host to listen on before
/// them where there are four. It listens on 127.0.0.1 where none is given and on 0.0.0.0 where an
/// empty one is, and leads to the host and the port at the end. An option with fewer or more
/// parts is refused, and so is one whose local port is no number.
pub proof fn law_tunnel_options_are_read(
    text: &str,
    parts: Vec<&str>,
    port_text: &str,
    port: Result<i32, IntError>,
    words: String,
    r: Result<TunnelSpec, String>,
    tunnel: &TunnelSpec,
    address: String,
)
    requires
        call_ensures(parse_tunnel, (text,), r),
        call_ensures(split_quoted, (text,), parts),
        3 <= parts@.len() <= 4 ==> port_text@ == parts@[parts@.len() - 3]@,
        call_ensures(parse_i32, (port_text,), port),
        port matches Err(e) ==> call_ensures(IntError::message, (e,), words),
        r matches Ok(t) ==> t == *tunnel,
        call_ensures(TunnelSpec::local_address, (tunnel,), address),
    ensures
        parts@.len() < 3 || parts@.len() > 4 ==> (r matches Err(error) && error@
            == "Invalid tunnel specification: "@ + text@),
        3 <= parts@.len() <= 4 ==> match port {
            Err(_) => r matches Err(error) && error@ == words@,
            Ok(n) => {
                let k = parts@.len() - 3;
                let host = if parts@.len() == 3 {
                    "127.0.0.1"@
                } else if parts@[0]@.len() == 0 {
                    "0.0.0.0"@
                } else {
                    parts@[0]@
                };
                &&& r is Ok
                &&& tunnel.local_port == n
                &&& tunnel.local_host@ == host
                &&& tunnel.remote@ == parts@[k + 1]@ + ":"@ + parts@[k + 2]@
                &&& address@ == host + ":"@ + decimal(n as int)
            },
        },
{
    let model = fields(text@, bare_colons(text@));
    assert(texts(parts@) == model);
    assert forall|i: int| 0 <= i < parts@.len() implies model[i] == (#[trigger] parts@[i])@ by {
        assert(texts(parts@)[i] == parts@[i]@);
    }
}

/// The broker's frame goes to the first tunnel that was opened under its request id or is written
/// to under it, and to none where there is no such tunnel. The server keeps its tunnels.
pub proof fn law_frames_are_forwarded_to_their_owner<S>(
    server: &mut TunnelServer<S>,
    raw: &[u8],
    r: ServerAction,
)
    requires
        call_ensures(TunnelServer::<S>::on_frame, (server, raw), r),
        !meta_overflows(raw@),
    ensures
        final(server).tunnels@ == old(server).tunnels@,
        frame_meta(raw@) matches Ok(meta) ==> {
            let id = match meta.request_id {
                Some(id) => id,
                None => 0,
            };
            let tunnels = old(server).tunnels@;
            &&& final(server).running == old(server).running
            &&& r matches ServerAction::Forward(i) ==> {
                &&& i < tunnels.len()
                &&& tunnels[i as int].create_rqid == id || tunnels[i as int].write_rqid == id
                &&& forall|j: int|
                    0 <= j < i ==> (#[trigger] tunnels[j]).create_rqid != id
                        && tunnels[j].write_rqid != id
            }
            &&& !(r is Forward) ==> r is Wait && forall|j: int|
                0 <= j < tunnels.len() ==> (#[trigger] tunnels[j]).create_rqid != id
                    && tunnels[j].write_rqid != id
        },
        frame_meta(raw@) matches Err(e) ==> {
            &&& !final(server).running
            &&& r matches ServerAction::Finish(Some(log))
            &&& log@ == "Get response receiver error: FramingError - "@ + e
        },
{
    if let Ok(meta) = frame_meta(raw@) {
        let id = meta.id();
        let tunnels = old(server).tunnels@;
        lemma_routed(tunnels, id, 0);
        assert forall|j: int| 0 <= j < tunnels.len() implies #[trigger] tunnels[j].owns(id) == (
        tunnels[j].create_rqid == id || tunnels[j].write_rqid == id) by {}
        if let ServerAction::Forward(i) = r {
            assert forall|j: int| 0 <= j < i implies (#[trigger] tunnels[j]).create_rqid != id
                && tunnels[j].write_rqid != id by {
                assert(!tunnels[j].owns(id));
            }
        } else {
            assert forall|j: int| 0 <= j < tunnels.len() implies (
            #[trigger] tunnels[j]).create_rqid != id && tunnels[j].write_rqid != id by {
                assert(!tunnels[j].owns(id));
            }
        }
    } else if let Err(e) = frame_meta(raw@) {
        reveal_strlit("Get response receiver error: ");
        reveal_strlit("FramingError - ");
        reveal_strlit("Get response receiver error: FramingError - ");
        assert("Get response receiver error: "@ + ("FramingError - "@ + e)
            =~= "Get response receiver error: FramingError - "@ + e);
    }
}

/// A frame is routed by its request id alone.
pub proof fn law_routes_go_to_the_owner<S>(
    tunnels: &Vec<Tunnel<S>>,
    meta: &FrameMeta,
    r: Option<usize>,
)
    requires
        call_ensures(route::<S>, (tunnels, meta), r),
    ensures
        ({
            let id = match meta.request_id {
                Some(id) => id,
                None => 0,
            };
            &&& r matches Some(i) ==> {
                &&& i < tunnels@.len()
                &&& tunnels@[i as int].create_rqid == id || tunnels@[i as int].write_rqid == id
                &&& forall|j: int|
                    0 <= j < i ==> (#[trigger] tunnels@[j]).create_rqid != id
                        && tunnels@[j].write_rqid != id
            }
            &&& r is None ==> forall|j: int|
                0 <= j < tunnels@.len() ==> (#[trigger] tunnels@[j]).create_rqid != id
                    && tunnels@[j].write_rqid != id
        }),
{
    let id = meta@.id();
    lemma_routed(tunnels@, id, 0);
    let last = match r {
        Some(i) => i as int,
        None => tunnels@.len() as int,
    };
    assert forall|j: int| 0 <= j < last implies (#[trigger] tunnels@[j]).create_rqid != id
        && tunnels@[j].write_rqid != id by {
        assert(!tunnels@[j].owns(id));
    }
}

/// After a frame the open tunnels are left, all of them, in their order, and no closed one.
pub proof fn law_open_tunnels_are_left<S>(
    server: &mut TunnelServer<S>,
    closed: &Vec<bool>,
    r: (),
)
    requires
        call_ensures(TunnelServer::<S>::on_frame_done, (server, closed), r),
        closed@.len() == old(server).tunnels@.len(),
    ensures
        final(server).running == old(server).running,
        final(server).tunnels@ == Seq::new(
            open_places(closed@, 0).len(),
            |i: int| old(server).tunnels@[open_places(closed@, 0)[i]],
        ),
{
    lemma_left_tunnels(old(server).tunnels@, closed@);
}

/// Removing closed tunnels does the same without a server.
pub proof fn law_retained_tunnels_are_open<S>(
    tunnels: &mut Vec<Tunnel<S>>,
    closed: &Vec<bool>,
    r: (),
)
    requires
        call_ensures(retain_open::<S>, (tunnels, closed), r),
        closed@.len() == old(tunnels)@.len(),
    ensures
        final(tunnels)@ == Seq::new(
            open_places(closed@, 0).len(),
            |i: int| old(tunnels)@[open_places(closed@, 0)[i]],
        ),
{
    lemma_left_tunnels(old(tunnels)@, closed@);
}

/// The places of the open tunnels from `k` on.
pub open spec fn open_places(closed: Seq<bool>, k: int) -> Seq<int>
    decreases closed.len() - k,
{
    if k < 0 || k >= closed.len() {
        Seq::<int>::empty()
    } else if closed[k] {
        open_places(closed, k + 1)
    } else {
        seq![k] + open_places(closed, k + 1)
    }
}

/// The places of the open tunnels are all places that are not closed, in increasing order.
pub proof fn law_open_places_are_all_and_in_order(closed: Seq<bool>, k: int)
    requires
        0 <= k <= closed.len(),
    ensures
        ({
            let at = open_places(closed, k);
            &&& forall|i: int|
                0 <= i < at.len() ==> k <= #[trigger] at[i] < closed.len() && !closed[at[i]]
            &&& forall|i: int, j: int| 0 <= i < j < at.len() ==> at[i] < at[j]
            &&& forall|p: int| k <= p < closed.len() && !closed[p] ==> at.contains(p)
        }),
    decreases closed.len() - k,
{
    if k < closed.len() {
        law_open_places_are_all_and_in_order(closed, k + 1);
        let rest = open_places(closed, k + 1);
        let at = open_places(closed, k);
        if !closed[k] {
            assert(forall|i: int| 0 < i < at.len() ==> at[i] == rest[i - 1]);
            assert(at[0] == k);
            assert forall|p: int| k <= p < closed.len() && !closed[p] implies at.contains(p) by {
                if p > k {
                    assert(rest.contains(p));
                    let i = choose|i: int| 0 <= i < rest.len() && rest[i] == p;
                    assert(at[i + 1] == p);
                }
            }
        }
    }
}

/// The flagged tunnels stand at the places of the open ones.
proof fn lemma_left_tunnels<S>(tunnels: Seq<Tunnel<S>>, closed: Seq<bool>)
    requires
        closed.len() == tunnels.len(),
    ensures
        flagged(tunnels, open_flags(closed)) == Seq::new(
            open_places(closed, 0).len(),
            |i: int| tunnels[open_places(closed, 0)[i]],
        ),
{
    lemma_left_from(tunnels, closed, 0);
    assert(tunnels.skip(0) =~= tunnels);
    assert(open_flags(closed).skip(0) =~= open_flags(closed));
}

proof fn lemma_left_from<S>(tunnels: Seq<Tunnel<S>>, closed: Seq<bool>, k: int)
    requires
        closed.len() == tunnels.len(),
        0 <= k <= tunnels.len(),
    ensures
        flagged(tunnels.skip(k), open_flags(closed).skip(k)) == Seq::new(
            open_places(closed, k).len(),
            |i: int| tunnels[open_places(closed, k)[i]],
        ),
    decreases tunnels.len() - k,
{
    let all = Seq::new(
        open_places(closed, k).len(),
        |i: int| tunnels[open_places(closed, k)[i]],
    );
    if k < tunnels.len() {
        lemma_left_from(tunnels, closed, k + 1);
        let tail = Seq::new(
            open_places(closed, k + 1).len(),
            |i: int| tunnels[open_places(closed, k + 1)[i]],
        );
        assert(tunnels.skip(k).skip(1) =~= tunnels.skip(k + 1));
        assert(open_flags(closed).skip(k).skip(1) =~= open_flags(closed).skip(k + 1));
        if closed[k] {
            assert(all =~= tail);
        } else {
            assert(all =~= seq![tunnels[k]] + tail);
        }
    }
    assert(flagged(tunnels.skip(k), open_flags(closed).skip(k)) =~= all);
}

/// A server starts without tunnels. A connection adds its tunnel at the end, with its request ids
/// and its sender, and changes nothing else.
pub proof fn law_connections_get_their_tunnel<S>(
    start: TunnelServer<S>,
    server: &mut TunnelServer<S>,
    create_rqid: i64,
    write_rqid: i64,
    frame_sender: S,
    r: (),
)
    requires
        call_ensures(TunnelServer::<S>::start, (), start),
        call_ensures(
            TunnelServer::<S>::on_connection,
            (server, create_rqid, write_rqid, frame_sender),
            r,
        ),
    ensures
        start.tunnels@.len() == 0,
        start.running,
        final(server).running == old(server).running,
        final(server).tunnels@.drop_last() == old(server).tunnels@,
        final(server).tunnels@.len() == old(server).tunnels@.len() + 1,
        final(server).tunnels@.last().create_rqid == create_rqid,
        final(server).tunnels@.last().write_rqid == write_rqid,
        final(server).tunnels@.last().frame_sender == frame_sender,
{
    assert(final(server).tunnels@.drop_last() =~= old(server).tunnels@);
}

/// A server ends well where no connection comes any more and, with a note in the log, where no
/// frame does. It ends with an error where a frame cannot be written.
pub proof fn law_servers_end<S>(
    a: &mut TunnelServer<S>,
    b: &mut TunnelServer<S>,
    c: &mut TunnelServer<S>,
    error: &str,
    none: ServerAction,
    read: ServerAction,
    write: ServerAction,
)
    requires
        call_ensures(TunnelServer::<S>::on_no_connection, (a,), none),
        call_ensures(TunnelServer::<S>::on_read_error, (b, error), read),
        call_ensures(TunnelServer::<S>::on_write_error, (c, error), write),
    ensures
        !final(a).running && !final(b).running && !final(c).running,
        none matches ServerAction::Finish(None),
        read matches ServerAction::Finish(Some(log)) && log@ == "Get response receiver error: "@
            + error@,
        write matches ServerAction::Fail(e) && e@ == error@,
{
}

/// Bytes that are no frame end the server, and the words of the reader are logged.
pub proof fn law_unreadable_frames_end_the_server<S>(
    server: &mut TunnelServer<S>,
    raw: &[u8],
    meta: Result<FrameMeta, String>,
    r: ServerAction,
)
    requires
        call_ensures(TunnelServer::<S>::on_frame, (server, raw), r),
        call_ensures(read_frame, (raw,), meta),
    ensures
        meta matches Err(error) ==> !final(server).running && (r matches ServerAction::Finish(
            Some(log),
        ) && log@ == "Get response receiver error: "@ + error@),
        meta is Ok ==> final(server).running == old(server).running && (r is Wait || r is Forward),
{
}

} // verus!
