//! A session of calls that are typed in line by line.

use crate::call::{
    answers, call_of, law_typed_call_reads_back, line_parts, on_typed_frame, parse_line,
    send_request, space_first, typed_step,
};
use crate::cpon::{cpon_text, packable};
use crate::output::{opened, print_resp, printed, FormatView, OutputFormat};
use crate::text::{opt_text, tight};
use crate::wire::{
    call_frame, carries, frame_meta, has_meta, message_cpon, request_meta, MetaView,
};
use vstd::prelude::*;
use vstd::utf8::encode_utf8;

verus! {

/// A session: whether a person sits at a terminal, and the request id of the call that waits for
/// its answer.
#[derive(Debug, Clone, Copy, PartialEq, Eq, Structural)]
pub struct Session {
    pub terminal: bool,
    pub waiting: Option<i64>,
}

/// What is to be done in a session.
#[derive(Debug, PartialEq, Eq)]
pub enum SessionAction {
    /// Send this frame and wait for the answer.
    Send(Vec<u8>),
    /// Print these bytes.
    Print(Vec<u8>),
    /// Show this error and read the next line.
    Show(String),
    /// End the session well, after logging this, if anything.
    Finish(Option<String>),
    /// End the session with this error.
    Fail(String),
}

/// The contents of a `SessionAction`.
pub enum SessionView {
    Send(Seq<u8>),
    Print(Seq<u8>),
    Show(Seq<char>),
    Finish(Option<Seq<char>>),
    Fail(Seq<char>),
}

impl View for SessionAction {
    type V = SessionView;

    open spec fn view(&self) -> SessionView {
        match self {
            SessionAction::Send(raw) => SessionView::Send(raw@),
            SessionAction::Print(bytes) => SessionView::Print(bytes@),
            SessionAction::Show(e) => SessionView::Show(e@),
            SessionAction::Finish(log) => SessionView::Finish(opt_text(*log)),
            SessionAction::Fail(e) => SessionView::Fail(e@),
        }
    }
}

impl Session {
    /// The session with another waiting call.
    pub open spec fn with_waiting(self, waiting: Option<i64>) -> Session {
        Session { terminal: self.terminal, waiting }
    }

    /// What a line does: a call is sent under the request id `request_id`, and a line that is no
    /// call is shown to a person at a terminal and ends a script. There is no next state where
    /// the parameter cannot be packed.
    pub open spec fn after_line(self, line: Seq<char>, request_id: i64) -> Option<
        (Session, SessionView),
    > {
        match line_parts(line) {
            Err(e) => Some(
                (
                    self,
                    if self.terminal {
                        SessionView::Show(e)
                    } else {
                        SessionView::Fail(e)
                    },
                ),
            ),
            Ok((path, method, param)) => {
                let rq = call_of(request_id, path, method, param);
                if !rq.fits() {
                    None
                } else {
                    match rq.error() {
                        Some(e) => Some((self, SessionView::Fail(e))),
                        None => Some(
                            (self.with_waiting(Some(request_id)), SessionView::Send(rq.frame())),
                        ),
                    }
                }
            },
        }
    }

    /// What a frame does, given what the waiting call does on it: every message is printed, and
    /// the answer ends the wait.
    pub open spec fn after_step(self, step: Result<(Seq<u8>, bool), Seq<char>>) -> (
        Session,
        SessionView,
    ) {
        match step {
            Err(e) => (self, SessionView::Fail(e)),
            Ok((bytes, done)) => (
                self.with_waiting(
                    if done {
                        None
                    } else {
                        self.waiting
                    },
                ),
                SessionView::Print(bytes),
            ),
        }
    }

    /// What a line that cannot be read does: it is logged at a terminal, where the session ends
    /// well, and fails a script.
    pub open spec fn after_input_error(self, error: Seq<char>) -> SessionView {
        if self.terminal {
            SessionView::Finish(Some("readline error: "@ + error))
        } else {
            SessionView::Fail("Read line error: "@ + error)
        }
    }

    /// Starts a session.
    pub fn start(terminal: bool) -> (r: Session)
        ensures
            r == (Session { terminal, waiting: None }),
    {
        Session { terminal, waiting: None }
    }

    /// Takes a line while no call waits. `None` stands for a parameter that cannot be packed, and
    /// changes nothing.
    pub fn on_line(&mut self, line: &str, request_id: i64) -> (r: Option<SessionAction>)
        requires
            old(self).waiting is None,
            request_id > i64::MIN,
            !space_first(line@),
        ensures
            match old(self).after_line(line@, request_id) {
                Some((state, action)) => *final(self) == state && (r matches Some(a) && a@
                    == action),
                None => *final(self) == *old(self) && r is None,
            },
            r matches Some(SessionAction::Send(raw)) ==> (line_parts(line@) matches Ok(parts)
                && has_meta(raw@, request_meta(request_id, None, parts.0, parts.1))),
    {
        match parse_line(line) {
            Err(e) => Some(
                if self.terminal {
                    SessionAction::Show(e)
                } else {
                    SessionAction::Fail(e)
                },
            ),
            Ok((path, method, param)) => match send_request(request_id, path, method, param) {
                None => None,
                Some(Err(e)) => Some(SessionAction::Fail(e)),
                Some(Ok(raw)) => {
                    self.waiting = Some(request_id);
                    Some(SessionAction::Send(raw))
                },
            },
        }
    }

    /// Takes the frame `raw` while the call with the request id `request_id` waits.
    pub fn on_frame(&mut self, raw: &[u8], request_id: i64, format: &OutputFormat) -> (r:
        SessionAction)
        requires
            old(self).waiting == Some(request_id),
        ensures
            (*final(self), r@) == old(self).after_step(typed_step(raw@, request_id, format@)),
    {
        match on_typed_frame(raw, request_id, format) {
            Err(e) => SessionAction::Fail(e),
            Ok((bytes, done)) => {
                if done {
                    self.waiting = None;
                }
                SessionAction::Print(bytes)
            },
        }
    }

    /// Takes the end of the lines: the session ends well.
    pub fn on_input_end(&self) -> (r: SessionAction)
        ensures
            r@ == SessionView::Finish(None),
    {
        SessionAction::Finish(None)
    }

    /// Takes a line that cannot be read.
    pub fn on_input_error(&self, error: &str) -> (r: SessionAction)
        ensures
            r@ == self.after_input_error(error@),
    {
        if self.terminal {
            let mut s = "readline error: ".to_owned();
            s.append(error);
            SessionAction::Finish(Some(s))
        } else {
            let mut s = "Read line error: ".to_owned();
            s.append(error);
            SessionAction::Fail(s)
        }
    }
}

/// What is done in a session that is given these lines, each with the request id that its call
/// would have, and these frames: a line is taken while no call waits, and a frame while one does.
/// The session ends well where the lines end.
pub open spec fn session_run(
    session: Session,
    lines: Seq<(Seq<char>, i64)>,
    frames: Seq<Seq<u8>>,
    format: FormatView,
) -> Seq<SessionView>
    decreases lines.len() + frames.len(),
{
    match session.waiting {
        None => if lines.len() == 0 {
            seq![SessionView::Finish(None)]
        } else {
            match session.after_line(lines[0].0, lines[0].1) {
                None => Seq::<SessionView>::empty(),
                Some((_, SessionView::Fail(e))) => seq![SessionView::Fail(e)],
                Some((state, action)) => seq![action] + session_run(
                    state,
                    lines.skip(1),
                    frames,
                    format,
                ),
            }
        },
        Some(id) => if frames.len() == 0 {
            Seq::<SessionView>::empty()
        } else {
            match session.after_step(typed_step(frames[0], id, format)) {
                (_, SessionView::Fail(e)) => seq![SessionView::Fail(e)],
                (state, action) => seq![action] + session_run(
                    state,
                    lines,
                    frames.skip(1),
                    format,
                ),
            }
        },
    }
}

/// The frame of the call in a line, if it is a call whose parameter can be packed.
pub open spec fn line_frame(line: Seq<char>, request_id: i64) -> Option<Seq<u8>> {
    match line_parts(line) {
        Err(_) => None,
        Ok((path, method, param)) => {
            let rq = call_of(request_id, path, method, param);
            if rq.fits() && rq.error() is None {
                Some(rq.frame())
            } else {
                None
            }
        },
    }
}

/// Whether each of these frames holds a message that does not answer the call.
pub open spec fn no_answer(frames: Seq<Seq<u8>>, request_id: i64) -> bool {
    forall|i: int|
        0 <= i < frames.len() ==> (opened(#[trigger] frames[i]) matches Ok(meta) && !answers(
            meta,
            request_id,
        ))
}

/// Whether these frames are what comes in while the call waits: messages, of which the last one
/// and no other answers the call.
pub open spec fn is_exchange(frames: Seq<Seq<u8>>, request_id: i64) -> bool {
    &&& frames.len() > 0
    &&& no_answer(frames.drop_last(), request_id)
    &&& opened(frames.last()) matches Ok(meta)
    &&& answers(meta, request_id)
}

/// The messages in these frames, printed one after the other.
pub open spec fn prints(frames: Seq<Seq<u8>>, format: FormatView) -> Seq<SessionView> {
    Seq::new(
        frames.len(),
        |i: int| SessionView::Print(printed(frames[i], opened(frames[i])->Ok_0, format)),
    )
}

/// The frames of all exchanges, one exchange after the other.
pub open spec fn all_frames(exchanges: Seq<Seq<Seq<u8>>>) -> Seq<Seq<u8>>
    decreases exchanges.len(),
{
    if exchanges.len() == 0 {
        Seq::<Seq<u8>>::empty()
    } else {
        exchanges[0] + all_frames(exchanges.skip(1))
    }
}

/// What a session should do: for each line its call is sent once, and the messages of its
/// exchange are printed. Then the session ends well.
pub open spec fn dialogue(
    lines: Seq<(Seq<char>, i64)>,
    exchanges: Seq<Seq<Seq<u8>>>,
    format: FormatView,
) -> Seq<SessionView>
    decreases lines.len(),
{
    if lines.len() == 0 {
        seq![SessionView::Finish(None)]
    } else {
        seq![SessionView::Send(line_frame(lines[0].0, lines[0].1)->0)] + prints(
            exchanges[0],
            format,
        ) + dialogue(lines.skip(1), exchanges.skip(1), format)
    }
}

/// While a call waits, every message is printed in order up to its answer, and only then the next
/// line is taken.
pub proof fn law_messages_are_printed_up_to_the_answer(
    session: Session,
    lines: Seq<(Seq<char>, i64)>,
    exchange: Seq<Seq<u8>>,
    rest: Seq<Seq<u8>>,
    format: FormatView,
)
    requires
        session.waiting is Some,
        is_exchange(exchange, session.waiting->0),
    ensures
        session_run(session, lines, exchange + rest, format) == prints(exchange, format)
            + session_run(session.with_waiting(None), lines, rest, format),
    decreases exchange.len(),
{
    let frames = exchange + rest;
    let next = exchange.skip(1);
    assert(frames[0] == exchange[0]);
    assert(frames.skip(1) =~= next + rest);
    assert(prints(exchange, format) =~= prints(exchange.take(1), format) + prints(next, format));
    assert(prints(exchange.take(1), format) =~= seq![
        SessionView::Print(printed(exchange[0], opened(exchange[0])->Ok_0, format)),
    ]);
    if exchange.len() == 1 {
        assert(exchange.last() == exchange[0]);
        assert(next + rest =~= rest);
        assert(prints(next, format) =~= Seq::<SessionView>::empty());
        assert(session_run(session, lines, frames, format) =~= prints(exchange, format)
            + session_run(session.with_waiting(None), lines, rest, format));
    } else {
        assert(exchange.drop_last()[0] == exchange[0]);
        assert(next.last() == exchange.last());
        assert forall|i: int| 0 <= i < next.drop_last().len() implies (opened(
            #[trigger] next.drop_last()[i],
        ) matches Ok(meta) && !answers(meta, session.waiting->0)) by {
            assert(next.drop_last()[i] == exchange.drop_last()[i + 1]);
        }
        law_messages_are_printed_up_to_the_answer(session, lines, next, rest, format);
        assert(session.with_waiting(session.waiting) == session);
        assert(session_run(session, lines, frames, format) =~= prints(exchange, format)
            + session_run(session.with_waiting(None), lines, rest, format));
    }
}

/// No line is taken before the answer: without it messages are printed, and nothing else is done.
pub proof fn law_no_line_is_taken_before_the_answer(
    session: Session,
    lines: Seq<(Seq<char>, i64)>,
    frames: Seq<Seq<u8>>,
    format: FormatView,
)
    requires
        session.waiting is Some,
        no_answer(frames, session.waiting->0),
    ensures
        session_run(session, lines, frames, format) == prints(frames, format),
    decreases frames.len(),
{
    if frames.len() > 0 {
        let next = frames.skip(1);
        assert(opened(frames[0]) is Ok);
        assert forall|i: int| 0 <= i < next.len() implies (opened(#[trigger] next[i]) matches Ok(
            meta,
        ) && !answers(meta, session.waiting->0)) by {
            assert(next[i] == frames[i + 1]);
        }
        law_no_line_is_taken_before_the_answer(session, lines, next, format);
        assert(session.with_waiting(session.waiting) == session);
    }
    assert(session_run(session, lines, frames, format) =~= prints(frames, format));
}

/// A session of calls is a dialogue: one request for each line, in the order of the lines, each
/// followed by the messages up to its answer, and a good end where the lines end.
pub proof fn law_a_session_is_a_dialogue(
    session: Session,
    lines: Seq<(Seq<char>, i64)>,
    exchanges: Seq<Seq<Seq<u8>>>,
    format: FormatView,
)
    requires
        session.waiting is None,
        exchanges.len() == lines.len(),
        forall|i: int|
            0 <= i < lines.len() ==> (#[trigger] line_frame(lines[i].0, lines[i].1)) is Some,
        forall|i: int|
            0 <= i < lines.len() ==> is_exchange(#[trigger] exchanges[i], lines[i].1),
    ensures
        session_run(session, lines, all_frames(exchanges), format) == dialogue(
            lines,
            exchanges,
            format,
        ),
    decreases lines.len(),
{
    if lines.len() > 0 {
        let id = lines[0].1;
        let rest = all_frames(exchanges.skip(1));
        assert(line_frame(lines[0].0, lines[0].1) is Some);
        assert(is_exchange(exchanges[0], lines[0].1));
        assert forall|i: int| 0 <= i < lines.skip(1).len() implies (#[trigger] line_frame(
            lines.skip(1)[i].0,
            lines.skip(1)[i].1,
        )) is Some by {
            assert(line_frame(lines[i + 1].0, lines[i + 1].1) is Some);
        }
        assert forall|i: int| 0 <= i < lines.skip(1).len() implies is_exchange(
            #[trigger] exchanges.skip(1)[i],
            lines.skip(1)[i].1,
        ) by {
            assert(exchanges.skip(1)[i] == exchanges[i + 1]);
        }
        let waiting = session.with_waiting(Some(id));
        law_messages_are_printed_up_to_the_answer(
            waiting,
            lines.skip(1),
            exchanges[0],
            rest,
            format,
        );
        assert(waiting.with_waiting(None) == session);
        law_a_session_is_a_dialogue(session, lines.skip(1), exchanges.skip(1), format);
        assert(session_run(session, lines, all_frames(exchanges), format) =~= dialogue(
            lines,
            exchanges,
            format,
        ));
    }
}

/// A session takes the next line exactly when the answer to the call has come: a message ends the
/// wait if and only if it answers the call.
pub proof fn law_only_the_answer_ends_the_wait(
    session: Session,
    raw: Seq<u8>,
    request_id: i64,
    format: FormatView,
)
    requires
        session.waiting == Some(request_id),
        opened(raw) is Ok,
    ensures
        session.after_step(typed_step(raw, request_id, format)).0.waiting is None <==> answers(
            opened(raw)->Ok_0,
            request_id,
        ),
{
}

/// A mistyped line does not end a session at a terminal and always ends a script.
pub proof fn law_typing_errors(session: Session, line: Seq<char>, request_id: i64)
    requires
        line_parts(line) is Err,
    ensures
        session.after_line(line, request_id) matches Some((state, action)) && state == session && (
        action is Show <==> session.terminal) && (action is Fail <==> !session.terminal),
{
}

/// The line `path:method param` of a call, typed while no call waits, sends that call: a frame
/// with the given request id, this path, this method and this parameter, if one is typed. The
/// session then waits for the answer to it. No part has white space at its ends, the path holds
/// neither colon nor space and the method no space.
pub proof fn law_a_typed_line_sends_its_call(
    session: &mut Session,
    line: &str,
    request_id: i64,
    path: Seq<char>,
    method: Seq<char>,
    param: Seq<char>,
    r: Option<SessionAction>,
)
    requires
        call_ensures(Session::on_line, (session, line, request_id), r),
        tight(path),
        tight(method),
        tight(param),
        !path.contains(':'),
        !path.contains(' '),
        !method.contains(' '),
        line@ == if param.len() == 0 {
            path + seq![':'] + method
        } else {
            path + seq![':'] + method + seq![' '] + param
        },
        param.len() > 0 ==> packable(param) && cpon_text(param) is Ok,
    ensures
        r matches Some(SessionAction::Send(raw)) && {
            &&& frame_meta(raw@) matches Ok(meta)
            &&& meta.request_id == Some(request_id)
            &&& meta.method == Some(method)
            &&& path.len() > 0 ==> meta.shv_path == Some(path)
            &&& path.len() == 0 ==> meta.shv_path is None
            &&& raw@ == call_frame(
                request_id,
                None,
                path,
                method,
                if param.len() == 0 {
                    None
                } else {
                    Some(param)
                },
            )
        },
        final(session).waiting == Some(request_id),
        final(session).terminal == old(session).terminal,
{
    law_typed_call_reads_back(path, method, param);
}

/// A line does what reading it and sending its call do: the frame that is sent is the one that
/// `send_request` makes of the parts that `parse_line` finds. A line that cannot be read is shown
/// at a terminal and ends a script, a parameter that is no Cpon text ends the session, and only
/// a call that is sent is waited for.
pub proof fn law_lines_are_read_and_sent(
    session: &mut Session,
    line: &str,
    request_id: i64,
    r: Option<SessionAction>,
    path: &str,
    method: &str,
    param: &str,
    parts: Result<(&str, &str, &str), String>,
    sent: Option<Result<Vec<u8>, String>>,
)
    requires
        call_ensures(Session::on_line, (session, line, request_id), r),
        call_ensures(parse_line, (line,), parts),
        parts matches Ok(p) ==> p == (path, method, param),
        call_ensures(send_request, (request_id, path, method, param), sent),
    ensures
        final(session).terminal == old(session).terminal,
        parts matches Err(error) ==> {
            &&& final(session).waiting == old(session).waiting
            &&& old(session).terminal ==> (r matches Some(SessionAction::Show(e)) && e@ == error@)
            &&& !old(session).terminal ==> (r matches Some(SessionAction::Fail(e)) && e@ == error@)
        },
        parts is Ok ==> match sent {
            None => r is None && final(session).waiting == old(session).waiting,
            Some(Err(error)) => {
                &&& final(session).waiting == old(session).waiting
                &&& r matches Some(SessionAction::Fail(e))
                &&& e@ == error@
            },
            Some(Ok(frame)) => {
                &&& final(session).waiting == Some(request_id)
                &&& r matches Some(SessionAction::Send(raw))
                &&& raw@ == frame@
            },
        },
{
}

/// While a call waits, every message is printed as it is printed, and the wait ends with the
/// response that has the call's request id and with no other. A frame without a message ends the
/// session.
pub proof fn law_messages_are_printed_as_they_are(
    session: &mut Session,
    raw: &[u8],
    request_id: i64,
    format: &OutputFormat,
    r: SessionAction,
    p: Result<Vec<u8>, String>,
)
    requires
        call_ensures(Session::on_frame, (session, raw, request_id, format), r),
        call_ensures(print_resp, (raw, format), p),
        old(session).waiting == Some(request_id),
    ensures
        final(session).terminal == old(session).terminal,
        p matches Ok(bytes) ==> {
            &&& r matches SessionAction::Print(b)
            &&& b@ == bytes@
            &&& frame_meta(raw@) matches Ok(meta)
            &&& final(session).waiting == if meta.request_id == Some(request_id)
                && meta.method is None {
                None::<i64>
            } else {
                Some(request_id)
            }
        },
        p matches Err(error) ==> (r matches SessionAction::Fail(e) && e@ == error@),
{
}

/// A session starts without a waiting call. It ends well where the lines end, and where a line
/// cannot be read it ends well at a terminal, with a note in the log, and fails otherwise.
pub proof fn law_sessions_start_and_end(
    terminal: bool,
    start: Session,
    session: &Session,
    error: &str,
    end: SessionAction,
    r: SessionAction,
)
    requires
        call_ensures(Session::start, (terminal,), start),
        call_ensures(Session::on_input_end, (session,), end),
        call_ensures(Session::on_input_error, (session, error), r),
    ensures
        start.terminal == terminal,
        start.waiting is None,
        end matches SessionAction::Finish(None),
        session.terminal ==> (r matches SessionAction::Finish(Some(log)) && log@
            == "readline error: "@ + error@),
        !session.terminal ==> (r matches SessionAction::Fail(e) && e@ == "Read line error: "@
            + error@),
{
}

/// The frame of a typed line is the frame of the call in it.
pub proof fn law_line_frame_is_the_frame_of_the_call(
    path: Seq<char>,
    method: Seq<char>,
    param: Seq<char>,
    request_id: i64,
)
    requires
        tight(path),
        tight(method),
        tight(param),
        !path.contains(':'),
        !path.contains(' '),
        !method.contains(' '),
    ensures
        line_frame(path + seq![':'] + method, request_id) == Some(
            call_frame(request_id, None, path, method, None),
        ),
        param.len() > 0 && packable(param) && cpon_text(param) is Ok ==> line_frame(
            path + seq![':'] + method + seq![' '] + param,
            request_id,
        ) == Some(call_frame(request_id, None, path, method, Some(param))),
{
    law_typed_call_reads_back(path, method, Seq::<char>::empty());
    law_typed_call_reads_back(path, method, param);
}

/// A call of a session: its path, its method and its parameter, empty where there is none, its
/// request id, and the frames that come in while it waits.
pub struct Exchange {
    pub path: Seq<char>,
    pub method: Seq<char>,
    pub param: Seq<char>,
    pub request_id: i64,
    pub frames: Seq<Seq<u8>>,
}

/// Whether the call can be typed in and sent, and the last of its frames, and no other, answers it.
pub open spec fn is_sound(call: Exchange) -> bool {
    &&& tight(call.path)
    &&& tight(call.method)
    &&& tight(call.param)
    &&& !call.path.contains(':')
    &&& !call.path.contains(' ')
    &&& !call.method.contains(' ')
    &&& call.param.len() > 0 ==> packable(call.param) && cpon_text(call.param) is Ok
    &&& call.frames.len() > 0
    &&& forall|i: int|
        0 <= i < call.frames.len() ==> exists|meta: MetaView|
            {
                &&& carries(#[trigger] call.frames[i], meta)
                &&& (meta.request_id == Some(call.request_id) && meta.method is None) == (i
                    == call.frames.len() - 1)
            }
}

/// The line in which the call is typed.
pub open spec fn typed(call: Exchange) -> (Seq<char>, i64) {
    (
        if call.param.len() == 0 {
            call.path + seq![':'] + call.method
        } else {
            call.path + seq![':'] + call.method + seq![' '] + call.param
        },
        call.request_id,
    )
}

/// What a session in the format `cpon` does for its calls: each is sent, and every message that
/// comes in up to its answer is printed whole, on a line of its own.
pub open spec fn transcript(calls: Seq<Exchange>) -> Seq<SessionView>
    decreases calls.len(),
{
    if calls.len() == 0 {
        seq![SessionView::Finish(None)]
    } else {
        let call = calls[0];
        let param = if call.param.len() == 0 {
            None
        } else {
            Some(call.param)
        };
        seq![
            SessionView::Send(
                call_frame(call.request_id, None, call.path, call.method, param),
            ),
        ] + Seq::new(
            call.frames.len(),
            |i: int| SessionView::Print(encode_utf8(message_cpon(call.frames[i]) + "\n"@)),
        ) + transcript(calls.skip(1))
    }
}

/// A session over lines `path:method param` sends those calls, one after the other, and prints
/// the messages that come in up to the answer of each before it goes on.
pub proof fn law_a_session_makes_its_calls(session: Session, calls: Seq<Exchange>)
    requires
        session.waiting is None,
        forall|i: int| 0 <= i < calls.len() ==> is_sound(#[trigger] calls[i]),
    ensures
        session_run(
            session,
            Seq::new(calls.len(), |i: int| typed(calls[i])),
            all_frames(Seq::new(calls.len(), |i: int| calls[i].frames)),
            FormatView::Cpon,
        ) == transcript(calls),
    decreases calls.len(),
{
    let lines = Seq::new(calls.len(), |i: int| typed(calls[i]));
    let exchanges = Seq::new(calls.len(), |i: int| calls[i].frames);
    assert forall|i: int| 0 <= i < lines.len() implies (#[trigger] line_frame(
        lines[i].0,
        lines[i].1,
    )) is Some by {
        let call = calls[i];
        assert(is_sound(call));
        law_line_frame_is_the_frame_of_the_call(
            call.path,
            call.method,
            call.param,
            call.request_id,
        );
    }
    assert forall|i: int| 0 <= i < lines.len() implies is_exchange(
        #[trigger] exchanges[i],
        lines[i].1,
    ) by {
        let call = calls[i];
        assert(is_sound(call));
        lemma_sound_exchange(call);
    }
    law_a_session_is_a_dialogue(session, lines, exchanges, FormatView::Cpon);
    lemma_dialogue_is_transcript(calls);
}

/// The frames of a sound call are an exchange.
proof fn lemma_sound_exchange(call: Exchange)
    requires
        is_sound(call),
    ensures
        is_exchange(call.frames, call.request_id),
        forall|i: int|
            0 <= i < call.frames.len() ==> (opened(#[trigger] call.frames[i]) is Ok),
{
    let frames = call.frames;
    assert forall|i: int| 0 <= i < frames.len() implies (opened(#[trigger] frames[i]) matches Ok(
        m,
    ) && answers(m, call.request_id) == (i == frames.len() - 1)) by {
        let meta = choose|meta: MetaView|
            {
                &&& carries(#[trigger] frames[i], meta)
                &&& (meta.request_id == Some(call.request_id) && meta.method is None) == (i
                    == frames.len() - 1)
            };
        assert(carries(frames[i], meta));
    }
    assert forall|i: int| 0 <= i < frames.drop_last().len() implies (opened(
        #[trigger] frames.drop_last()[i],
    ) matches Ok(m) && !answers(m, call.request_id)) by {
        assert(frames.drop_last()[i] == frames[i]);
    }
    assert(opened(frames[frames.len() - 1]) is Ok);
}

/// The dialogue over typed calls is their transcript.
proof fn lemma_dialogue_is_transcript(calls: Seq<Exchange>)
    requires
        forall|i: int| 0 <= i < calls.len() ==> is_sound(#[trigger] calls[i]),
    ensures
        dialogue(
            Seq::new(calls.len(), |i: int| typed(calls[i])),
            Seq::new(calls.len(), |i: int| calls[i].frames),
            FormatView::Cpon,
        ) == transcript(calls),
    decreases calls.len(),
{
    if calls.len() > 0 {
        let lines = Seq::new(calls.len(), |i: int| typed(calls[i]));
        let exchanges = Seq::new(calls.len(), |i: int| calls[i].frames);
        let rest = calls.skip(1);
        let call = calls[0];
        assert(is_sound(call));
        assert forall|i: int| 0 <= i < rest.len() implies is_sound(#[trigger] rest[i]) by {
            assert(rest[i] == calls[i + 1]);
        }
        lemma_dialogue_is_transcript(rest);
        assert(lines.skip(1) =~= Seq::new(rest.len(), |i: int| typed(rest[i])));
        assert(exchanges.skip(1) =~= Seq::new(rest.len(), |i: int| rest[i].frames));
        law_line_frame_is_the_frame_of_the_call(
            call.path,
            call.method,
            call.param,
            call.request_id,
        );
        lemma_sound_exchange(call);
        assert(prints(call.frames, FormatView::Cpon) =~= Seq::new(
            call.frames.len(),
            |i: int| SessionView::Print(encode_utf8(message_cpon(call.frames[i]) + "\n"@)),
        ));
        assert(lines[0] == typed(call));
        assert(exchanges[0] == call.frames);
    }
}

} // verus!
