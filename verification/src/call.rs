//! Calls: what is asked, which frame is the answer, and what is shown.

use crate::chainpack::meta_overflows;
use crate::cpon::{cpon_text, packable};
use crate::output::{open_message, opened, print_resp, printed, FormatView, OutputFormat};
use crate::text::{
    decimal, find, is_core, lemma_is_core, push_u64, tight, trim, trimmed,
};
use crate::wire::{
    call_frame, frame_meta, framed, has_meta, meta_outcome, read_frame, FrameMeta, MetaView, Param,
    ParamView, Request, RequestView,
};
use vstd::prelude::*;

verus! {

/// Whether the line, trimmed, has a space before its first colon.
pub open spec fn space_first(line: Seq<char>) -> bool {
    let t = trimmed(line);
    match (t.index_of_first(':'), t.index_of_first(' ')) {
        (Some(m), Some(p)) => p < m,
        _ => false,
    }
}

/// Whether the line, trimmed, has a space before its first colon.
pub fn has_space_first(line: &str) -> (r: bool)
    ensures
        r == space_first(line@),
{
    let t = trim(line);
    match (find(t, ':'), find(t, ' ')) {
        (Some(m), Some(p)) => p < m,
        _ => false,
    }
}

/// The path, the method and the parameter in a line `path:method param`.
pub open spec fn line_parts(line: Seq<char>) -> Result<
    (Seq<char>, Seq<char>, Seq<char>),
    Seq<char>,
> {
    let t = trimmed(line);
    match t.index_of_first(':') {
        None => Err("Invalid line format, method not found: "@ + t),
        Some(m) => match t.index_of_first(' ') {
            None => Ok((trimmed(t.take(m)), trimmed(t.skip(m + 1)), Seq::<char>::empty())),
            Some(p) => Ok(
                (trimmed(t.take(m)), trimmed(t.subrange(m + 1, p)), trimmed(t.skip(p + 1))),
            ),
        },
    }
}

/// Splits a line `path:method param`. The space that begins the parameter stands behind the colon.
pub fn parse_line<'a>(line: &'a str) -> (r: Result<(&'a str, &'a str, &'a str), String>)
    requires
        !space_first(line@),
    ensures
        match r {
            Ok((path, method, param)) => line_parts(line@) matches Ok(parts) && parts == (
                path@,
                method@,
                param@,
            ),
            Err(error) => line_parts(line@) matches Err(e) && e == error@,
        },
{
    let t = trim(line);
    proof {
        t@.index_of_first_ensures(':');
        t@.index_of_first_ensures(' ');
        reveal_strlit("");
    }
    let m: usize = match find(t, ':') {
        None => {
            let mut s = "Invalid line format, method not found: ".to_owned();
            s.append(t);
            return Err(s);
        },
        Some(m) => m,
    };
    let n: usize = t.unicode_len();
    let path = trim(t.substring_char(0, m));
    assert(t@.subrange(0, m as int) =~= t@.take(m as int));
    match find(t, ' ') {
        None => {
            assert(t@.subrange(m + 1, n as int) =~= t@.skip(m + 1));
            let method = trim(t.substring_char(m + 1, n));
            assert(""@ =~= Seq::<char>::empty());
            Ok((path, method, ""))
        },
        Some(p) => {
            assert(t@.subrange(p + 1, n as int) =~= t@.skip(p + 1));
            let method = trim(t.substring_char(m + 1, p));
            let param = trim(t.substring_char(p + 1, n));
            Ok((path, method, param))
        },
    }
}

/// The request of a call; an empty text stands for no parameter.
pub open spec fn call_of(
    request_id: i64,
    path: Seq<char>,
    method: Seq<char>,
    param: Seq<char>,
) -> RequestView {
    RequestView {
        request_id,
        seqno: None,
        path,
        method,
        param: if param.len() == 0 {
            ParamView::Absent
        } else {
            ParamView::Cpon(param)
        },
    }
}

/// Makes the request of a call.
pub fn call_request(request_id: i64, path: &str, method: &str, param: &str) -> (r: Request)
    ensures
        r@ == call_of(request_id, path@, method@, param@),
{
    Request {
        request_id,
        seqno: None,
        path: path.to_owned(),
        method: method.to_owned(),
        param: if param.is_empty() {
            Param::Absent
        } else {
            Param::Cpon(param.to_owned())
        },
    }
}

/// Gives the bytes of the frame that makes a call, or why its parameter is no Cpon text. `None`
/// stands for a parameter that cannot be packed.
pub fn send_request(request_id: i64, path: &str, method: &str, param: &str) -> (r: Option<
    Result<Vec<u8>, String>,
>)
    requires
        request_id > i64::MIN,
    ensures
        ({
            let rq = call_of(request_id, path@, method@, param@);
            match r {
                Some(Ok(raw)) => {
                    &&& rq.fits()
                    &&& rq.error() is None
                    &&& raw@ == rq.frame()
                    &&& has_meta(raw@, rq.meta())
                },
                Some(Err(e)) => rq.fits() && rq.error() == Some(e@),
                None => !rq.fits(),
            }
        }),
{
    call_request(request_id, path, method, param).try_to_frame()
}

/// What a run without a tunnel does: calls typed in line by line, or a single call.
#[derive(Debug, PartialEq, Eq)]
pub enum CallPlan {
    Interactive,
    Single { path: String, method: String, param: String },
}

/// The contents of a `CallPlan`.
pub enum PlanView {
    Interactive,
    Single { path: Seq<char>, method: Seq<char>, param: Seq<char> },
}

impl View for CallPlan {
    type V = PlanView;

    open spec fn view(&self) -> PlanView {
        match self {
            CallPlan::Interactive => PlanView::Interactive,
            CallPlan::Single { path, method, param } => PlanView::Single {
                path: path@,
                method: method@,
                param: param@,
            },
        }
    }
}

/// The text in an optional option value, empty where the option is not given.
pub open spec fn given(o: Option<String>) -> Seq<char> {
    match o {
        Some(s) => s@,
        None => Seq::<char>::empty(),
    }
}

/// The text of an optional option value, empty where the option is not given.
pub fn given_text(o: &Option<String>) -> (r: &str)
    ensures
        r@ == given(*o),
{
    match o {
        Some(s) => s.as_str(),
        None => {
            proof {
                reveal_strlit("");
            }
            ""
        },
    }
}

/// What the method and parameter options ask for.
pub open spec fn planned(method: Option<String>, param: Option<String>) -> Result<
    PlanView,
    Seq<char>,
> {
    match method {
        None => Ok(PlanView::Interactive),
        Some(m) => match m@.index_of_first(':') {
            None => Err("--method parameter must be in form shv/path:method"@),
            Some(i) => Ok(
                PlanView::Single { path: m@.take(i), method: m@.skip(i + 1), param: given(param) },
            ),
        },
    }
}

/// Decides what the method and parameter options ask for. The path stands before the first colon
/// of the method option.
pub fn plan_call(method: &Option<String>, param: &Option<String>) -> (r: Result<CallPlan, String>)
    ensures
        match r {
            Ok(plan) => planned(*method, *param) matches Ok(p) && p == plan@,
            Err(error) => planned(*method, *param) matches Err(e) && e == error@,
        },
{
    let m = match method {
        None => {
            return Ok(CallPlan::Interactive);
        },
        Some(m) => m.as_str(),
    };
    match find(m, ':') {
        None => Err("--method parameter must be in form shv/path:method".to_owned()),
        Some(i) => {
            proof {
                m@.index_of_first_ensures(':');
            }
            let n: usize = m.unicode_len();
            assert(m@.subrange(0, i as int) =~= m@.take(i as int));
            assert(m@.subrange(i + 1, n as int) =~= m@.skip(i + 1));
            Ok(
                CallPlan::Single {
                    path: m.substring_char(0, i).to_owned(),
                    method: m.substring_char(i + 1, n).to_owned(),
                    param: given_text(param).to_owned(),
                },
            )
        },
    }
}

/// Whether a frame with this meta data answers the call with this request id.
pub open spec fn answers(meta: MetaView, request_id: i64) -> bool {
    meta.is_response() && meta.id() == request_id
}

/// Whether a frame with this meta data answers the call with this request id.
pub fn is_answer(meta: &FrameMeta, request_id: i64) -> (r: bool)
    ensures
        r == answers(meta@, request_id),
{
    meta.is_response() && meta.id() == request_id
}

/// What a frame means to a single call that waits for its answer.
#[derive(Debug, PartialEq, Eq)]
pub enum Reception {
    /// The frame is not the answer: wait for the next one.
    Skip,
    /// The frame is the answer.
    Answer,
    /// The frame cannot be read.
    Failed(String),
}

/// The contents of a `Reception`.
pub enum ReceptionView {
    Skip,
    Answer,
    Failed(Seq<char>),
}

impl View for Reception {
    type V = ReceptionView;

    open spec fn view(&self) -> ReceptionView {
        match self {
            Reception::Skip => ReceptionView::Skip,
            Reception::Answer => ReceptionView::Answer,
            Reception::Failed(e) => ReceptionView::Failed(e@),
        }
    }
}

/// What a frame means to a call, given what was read of its meta data.
pub open spec fn received(meta: Result<MetaView, Seq<char>>, request_id: i64) -> ReceptionView {
    match meta {
        Ok(m) => if answers(m, request_id) {
            ReceptionView::Answer
        } else {
            ReceptionView::Skip
        },
        Err(e) => ReceptionView::Failed(e),
    }
}

/// Decides what a frame means to the call with this request id, given what was read of its meta
/// data.
pub fn reception(meta: Result<FrameMeta, String>, request_id: i64) -> (r: Reception)
    ensures
        r@ == received(meta_outcome(meta), request_id),
{
    match meta {
        Ok(meta) => if is_answer(&meta, request_id) {
            Reception::Answer
        } else {
            Reception::Skip
        },
        Err(e) => Reception::Failed(e),
    }
}

/// Decides what the frame `raw` means to the call with this request id.
pub fn receive_response(raw: &[u8], request_id: i64) -> (r: Reception)
    ensures
        r@ == received(framed(raw@), request_id),
{
    reception(read_frame(raw), request_id)
}

/// What a single call does on a frame.
#[derive(Debug, PartialEq, Eq)]
pub enum Step {
    /// Wait for the next frame.
    Wait,
    /// Print these bytes and finish.
    Print(Vec<u8>),
    /// Finish with this error.
    Fail(String),
}

/// The contents of a `Step`.
pub enum StepView {
    Wait,
    Print(Seq<u8>),
    Fail(Seq<char>),
}

impl View for Step {
    type V = StepView;

    open spec fn view(&self) -> StepView {
        match self {
            Step::Wait => StepView::Wait,
            Step::Print(bytes) => StepView::Print(bytes@),
            Step::Fail(e) => StepView::Fail(e@),
        }
    }
}

/// What a single call does on a frame: it prints its answer and passes over everything else.
pub open spec fn single_step(raw: Seq<u8>, request_id: i64, format: FormatView) -> StepView {
    match received(framed(raw), request_id) {
        ReceptionView::Skip => StepView::Wait,
        ReceptionView::Failed(e) => StepView::Fail(e),
        ReceptionView::Answer => match opened(raw) {
            Ok(meta) => StepView::Print(printed(raw, meta, format)),
            Err(e) => StepView::Fail(e),
        },
    }
}

/// Decides what the single call with this request id does on the frame `raw`.
pub fn on_single_frame(raw: &[u8], request_id: i64, format: &OutputFormat) -> (r: Step)
    ensures
        r@ == single_step(raw@, request_id, format@),
{
    match receive_response(raw, request_id) {
        Reception::Skip => Step::Wait,
        Reception::Failed(e) => Step::Fail(e),
        Reception::Answer => match print_resp(raw, format) {
            Ok(bytes) => Step::Print(bytes),
            Err(e) => Step::Fail(e),
        },
    }
}

/// What a call that was typed in does on a frame: every message is printed, and the answer ends
/// the call.
pub open spec fn typed_step(raw: Seq<u8>, request_id: i64, format: FormatView) -> Result<
    (Seq<u8>, bool),
    Seq<char>,
> {
    match opened(raw) {
        Ok(meta) => Ok((printed(raw, meta, format), answers(meta, request_id))),
        Err(e) => Err(e),
    }
}

/// Gives the bytes to print for the frame `raw` and whether the call with this request id is
/// over, or why the frame holds no message.
pub fn on_typed_frame(raw: &[u8], request_id: i64, format: &OutputFormat) -> (r: Result<
    (Vec<u8>, bool),
    String,
>)
    ensures
        match r {
            Ok((bytes, done)) => typed_step(raw@, request_id, format@) matches Ok(s) && s == (
                bytes@,
                done,
            ),
            Err(error) => typed_step(raw@, request_id, format@) matches Err(e) && e == error@,
        },
{
    match open_message(raw) {
        Ok(meta) => match print_resp(raw, format) {
            Ok(bytes) => Ok((bytes, is_answer(&meta, request_id))),
            Err(e) => Err(e),
        },
        Err(e) => Err(e),
    }
}

/// How long a single call waits for its answer, in milliseconds; `None` is forever.
pub open spec fn patience(timeout: u64) -> Option<u64> {
    if timeout > 0 {
        Some(timeout)
    } else {
        None
    }
}

/// Reads the timeout option: 0 means to wait forever.
pub fn wait_limit(timeout: u64) -> (r: Option<u64>)
    ensures
        r == patience(timeout),
{
    if timeout > 0 {
        Some(timeout)
    } else {
        None
    }
}

/// Words the error of a call that was not answered in time.
pub fn timeout_error(timeout: u64) -> (r: String)
    ensures
        r@ == "Method call response timeout after "@ + decimal(timeout as int) + " msec."@,
{
    let mut s = "Method call response timeout after ".to_owned();
    push_u64(&mut s, timeout);
    s.append(" msec.");
    s
}

/// A call as it is typed in; no parameter is typed for an empty one.
pub open spec fn typed_call(path: Seq<char>, method: Seq<char>, param: Seq<char>) -> Seq<char> {
    if param.len() == 0 {
        path + seq![':'] + method
    } else {
        path + seq![':'] + method + seq![' '] + param
    }
}

/// A call typed in as `path:method param` is read as that path, method and parameter. None of
/// the three has white space at its ends, the path holds neither colon nor space and the method
/// no space.
pub proof fn law_typed_call_reads_back(path: Seq<char>, method: Seq<char>, param: Seq<char>)
    requires
        tight(path),
        tight(method),
        tight(param),
        !path.contains(':'),
        !path.contains(' '),
        !method.contains(' '),
    ensures
        !space_first(typed_call(path, method, param)),
        line_parts(typed_call(path, method, param)) == Ok::<
            (Seq<char>, Seq<char>, Seq<char>),
            Seq<char>,
        >((path, method, param)),
{
    let line = typed_call(path, method, param);
    assert(tight(line));
    assert(trimmed(line) == line);
    line.index_of_first_ensures(':');
    line.index_of_first_ensures(' ');
    let m = path.len() as int;
    assert(line[m] == ':');
    assert(line.contains(':'));
    assert forall|i: int| 0 <= i < m implies line[i] != ':' && line[i] != ' ' by {
        assert(path.contains(path[i]));
    }
    assert(line.index_of_first(':') == Some(m));
    assert(line.take(m) =~= path);
    assert forall|i: int| m < i < m + 1 + method.len() implies line[i] != ' ' by {
        assert(line[i] == method[i - m - 1]);
        assert(method.contains(method[i - m - 1]));
    }
    if param.len() == 0 {
        assert(line.skip(m + 1) =~= method);
        assert(param =~= Seq::<char>::empty());
        assert(!line.contains(' '));
    } else {
        let p = m + 1 + method.len();
        assert(line[p] == ' ');
        assert(line.contains(' '));
        assert(line.index_of_first(' ') == Some(p));
        assert(line.subrange(m + 1, p) =~= method);
        assert(line.skip(p + 1) =~= param);
    }
}

/// A frame answers at most one call.
pub proof fn law_one_frame_answers_one_call(meta: MetaView, a: i64, b: i64)
    requires
        answers(meta, a),
        answers(meta, b),
    ensures
        a == b,
{
}

/// A request, whatever its id, answers no call.
pub proof fn law_a_request_is_no_answer(request: RequestView, request_id: i64)
    ensures
        !answers(request.meta(), request_id),
{
}

/// What a single call does on the frames that arrive, up to the one that ends it.
pub open spec fn single_run(
    frames: Seq<Seq<u8>>,
    request_id: i64,
    format: FormatView,
) -> StepView
    decreases frames.len(),
{
    if frames.len() == 0 {
        StepView::Wait
    } else {
        match single_step(frames[0], request_id, format) {
            StepView::Wait => single_run(frames.skip(1), request_id, format),
            end => end,
        }
    }
}

/// Whether a frame can be read and does not answer the call with this request id.
pub open spec fn is_foreign(raw: Seq<u8>, request_id: i64) -> bool {
    framed(raw) matches Ok(meta) && !answers(meta, request_id)
}

/// Frames that are not the answer, however many arrive first, change nothing about how a call
/// ends.
pub proof fn law_foreign_frames_do_not_matter(
    before: Seq<Seq<u8>>,
    frames: Seq<Seq<u8>>,
    request_id: i64,
    format: FormatView,
)
    requires
        forall|i: int| 0 <= i < before.len() ==> is_foreign(#[trigger] before[i], request_id),
    ensures
        single_run(before + frames, request_id, format) == single_run(frames, request_id, format),
    decreases before.len(),
{
    if before.len() == 0 {
        assert(before + frames =~= frames);
    } else {
        assert((before + frames).skip(1) =~= before.skip(1) + frames);
        assert(is_foreign(before[0], request_id));
        law_foreign_frames_do_not_matter(before.skip(1), frames, request_id, format);
    }
}

/// A call that prints something prints the first answer to it.
pub proof fn law_only_the_first_answer_is_printed(
    frames: Seq<Seq<u8>>,
    request_id: i64,
    format: FormatView,
)
    requires
        single_run(frames, request_id, format) is Print,
    ensures
        exists|i: int|
            {
                &&& 0 <= i < frames.len()
                &&& forall|k: int| 0 <= k < i ==> is_foreign(#[trigger] frames[k], request_id)
                &&& opened(#[trigger] frames[i]) matches Ok(meta)
                &&& answers(meta, request_id)
                &&& single_run(frames, request_id, format) == StepView::Print(
                    printed(frames[i], meta, format),
                )
            },
    decreases frames.len(),
{
    if single_step(frames[0], request_id, format) is Wait {
        let tail = frames.skip(1);
        law_only_the_first_answer_is_printed(tail, request_id, format);
        let j = choose|i: int|
            {
                &&& 0 <= i < tail.len()
                &&& forall|k: int| 0 <= k < i ==> is_foreign(#[trigger] tail[k], request_id)
                &&& opened(#[trigger] tail[i]) matches Ok(meta)
                &&& answers(meta, request_id)
                &&& single_run(tail, request_id, format) == StepView::Print(
                    printed(tail[i], meta, format),
                )
            };
        assert(frames[j + 1] == tail[j]);
        assert forall|k: int| 0 <= k < j + 1 implies is_foreign(
            #[trigger] frames[k],
            request_id,
        ) by {
            if k > 0 {
                assert(frames[k] == tail[k - 1]);
            }
        }
    } else {
        assert(opened(frames[0]) is Ok);
    }
}

/// The options `-m path:method` and `-p param` ask for the call of exactly that path, method and
/// parameter, whatever the parameter holds; without `-p` there is none. The path ends at the
/// first colon, which has to be there. Without `-m` calls are typed in.
pub proof fn law_options_name_the_call(
    method: &Option<String>,
    param: &Option<String>,
    path: Seq<char>,
    name: Seq<char>,
    r: Result<CallPlan, String>,
)
    requires
        call_ensures(plan_call, (method, param), r),
        !path.contains(':'),
    ensures
        *method matches Some(m) && m@ == path + seq![':'] + name ==> {
            &&& r matches Ok(CallPlan::Single { path: a, method: b, param: c })
            &&& a@ == path
            &&& b@ == name
            &&& *param matches Some(p) ==> c@ == p@
            &&& *param is None ==> c@.len() == 0
        },
        *method matches Some(m) && !m@.contains(':') ==> (r matches Err(error) && error@
            == "--method parameter must be in form shv/path:method"@),
        *method is None ==> (r matches Ok(plan) && plan is Interactive),
{
    if let Some(m) = *method {
        m@.index_of_first_ensures(':');
        if m@ == path + seq![':'] + name {
            let i = path.len() as int;
            assert(m@[i] == ':');
            assert(m@.contains(':'));
            assert forall|k: int| 0 <= k < i implies m@[k] != ':' by {
                assert(path.contains(path[k]));
            }
            assert(m@.index_of_first(':') == Some(i));
            assert(m@.take(i) =~= path);
            assert(m@.skip(i + 1) =~= name);
        }
    }
}

/// A call is sent as a request with its id, path, method and parameter, and without a number. An
/// empty parameter is none. A call fails where its parameter is no Cpon text.
pub proof fn law_a_call_is_sent_as_asked(
    request_id: i64,
    path: &str,
    method: &str,
    param: &str,
    r: Option<Result<Vec<u8>, String>>,
)
    requires
        call_ensures(send_request, (request_id, path, method, param), r),
    ensures
        r matches Some(Ok(raw)) ==> {
            &&& frame_meta(raw@) matches Ok(meta)
            &&& !meta_overflows(raw@)
            &&& meta.request_id == Some(request_id)
            &&& meta.method == Some(method@)
            &&& meta.seqno is None
            &&& path@.len() > 0 ==> meta.shv_path == Some(path@)
            &&& path@.len() == 0 ==> meta.shv_path is None
            &&& param@.len() > 0 ==> raw@ == call_frame(
                request_id,
                None,
                path@,
                method@,
                Some(param@),
            )
            &&& param@.len() == 0 ==> raw@ == call_frame(request_id, None, path@, method@, None)
        },
        param@.len() == 0 ==> (r matches Some(Ok(_))),
        param@.len() > 0 ==> (r is None <==> !packable(param@)),
        param@.len() > 0 && packable(param@) ==> match cpon_text(param@) {
            Ok(_) => r matches Some(Ok(_)),
            Err(e) => r matches Some(Err(error)) && error@ == e,
        },
{
}

/// The request of a call has these parts.
pub proof fn law_a_call_has_its_parts(
    request_id: i64,
    path: &str,
    method: &str,
    param: &str,
    r: Request,
)
    requires
        call_ensures(call_request, (request_id, path, method, param), r),
    ensures
        r.request_id == request_id,
        r.seqno is None,
        r.path@ == path@,
        r.method@ == method@,
        param@.len() == 0 <==> r.param is Absent,
        param@.len() > 0 ==> (r.param matches Param::Cpon(text) && text@ == param@),
{
}

/// Whether these are the parts of the line `t` when the path ends at the colon at `m` and the
/// method at the space at `p`, or at the end of the line. White space around a part does not
/// count.
pub open spec fn is_cut(
    t: Seq<char>,
    m: int,
    p: int,
    path: Seq<char>,
    method: Seq<char>,
    param: Seq<char>,
) -> bool {
    &&& 0 <= m < p <= t.len()
    &&& t[m] == ':'
    &&& forall|i: int| 0 <= i < m ==> #[trigger] t[i] != ':'
    &&& p < t.len() ==> t[p] == ' '
    &&& forall|i: int| 0 <= i < p ==> #[trigger] t[i] != ' '
    &&& is_core(t.take(m), path)
    &&& is_core(t.subrange(m + 1, p), method)
    &&& p < t.len() ==> is_core(t.skip(p + 1), param)
    &&& p == t.len() ==> param.len() == 0
}

/// Whether `t` is a line `path:method` or `path:method param` with these parts in it.
pub open spec fn is_line_of(
    t: Seq<char>,
    path: Seq<char>,
    method: Seq<char>,
    param: Seq<char>,
) -> bool {
    exists|m: int, p: int| is_cut(t, m, p, path, method, param)
}

/// Every line with a colon is read as a path, a method and a parameter, and one without a colon
/// is refused. White space around a line does not count.
pub proof fn law_lines_are_read(line: &str, t: &str, r: Result<(&str, &str, &str), String>)
    requires
        call_ensures(parse_line, (line,), r),
        call_ensures(trim, (line,), t),
        !space_first(line@),
    ensures
        t@.contains(':') ==> (r matches Ok((path, method, param)) && is_line_of(
            t@,
            path@,
            method@,
            param@,
        )),
        !t@.contains(':') ==> (r matches Err(error) && error@
            == "Invalid line format, method not found: "@ + t@),
{
    let s = t@;
    s.index_of_first_ensures(':');
    s.index_of_first_ensures(' ');
    if s.contains(':') {
        let m = s.index_of_first(':')->0;
        let p = match s.index_of_first(' ') {
            Some(p) => p,
            None => s.len() as int,
        };
        lemma_is_core(s.take(m));
        lemma_is_core(s.subrange(m + 1, p));
        assert(s.subrange(m + 1, s.len() as int) =~= s.skip(m + 1));
        if p < s.len() {
            lemma_is_core(s.skip(p + 1));
        }
        if s.index_of_first(' ') is None {
            assert forall|i: int| 0 <= i < p implies #[trigger] s[i] != ' ' by {
                assert(s.contains(s[i]));
            }
        }
        if let Ok((path, method, param)) = r {
            assert(is_cut(s, m, p, path@, method@, param@));
        }
    }
}

/// Whether a space stands before the first colon of a line is told without the white space at its
/// ends.
pub proof fn law_a_space_before_the_colon_is_noticed(line: &str, t: &str, r: bool)
    requires
        call_ensures(has_space_first, (line,), r),
        call_ensures(trim, (line,), t),
    ensures
        r <==> exists|p: int, m: int|
            {
                &&& 0 <= p < m < t@.len()
                &&& #[trigger] t@[p] == ' '
                &&& #[trigger] t@[m] == ':'
                &&& forall|i: int| 0 <= i < m ==> t@[i] != ':'
            },
{
    let s = t@;
    s.index_of_first_ensures(':');
    s.index_of_first_ensures(' ');
    if r {
        let p = s.index_of_first(' ')->0;
        let m = s.index_of_first(':')->0;
        assert(s[p] == ' ' && s[m] == ':');
    } else {
        assert forall|p: int, m: int|
            0 <= p < m < s.len() && #[trigger] s[p] == ' ' && #[trigger] s[m] == ':' && (forall|
                i: int,
            |
                0 <= i < m ==> s[i] != ':') implies false by {
            assert(s.contains(' ') && s.contains(':'));
            let a = s.index_of_first(' ')->0;
            let b = s.index_of_first(':')->0;
            assert(b == m);
            assert(a <= p);
        }
    }
}

/// A single call ends with the first frame that has its request id and no method, and prints what
/// is printed for it. It passes over every other frame and fails on bytes that are no frame.
pub proof fn law_a_single_call_takes_its_answer(
    raw: &[u8],
    request_id: i64,
    format: &OutputFormat,
    step: Step,
    p: Result<Vec<u8>, String>,
)
    requires
        call_ensures(on_single_frame, (raw, request_id, format), step),
        call_ensures(print_resp, (raw, format), p),
        !meta_overflows(raw@),
    ensures
        frame_meta(raw@) matches Ok(meta) ==> {
            let own = meta.request_id == Some(request_id) && meta.method is None;
            &&& !own ==> step is Wait
            &&& own ==> match p {
                Ok(bytes) => step matches Step::Print(b) && b@ == bytes@,
                Err(error) => step matches Step::Fail(e) && e@ == error@,
            }
        },
        frame_meta(raw@) matches Err(error) ==> (step matches Step::Fail(e) && e@
            == "FramingError - "@ + error),
{
}

/// A call that was typed in prints every message as it is printed, and is over with the response
/// that has its request id.
pub proof fn law_a_typed_call_prints_every_message(
    raw: &[u8],
    request_id: i64,
    format: &OutputFormat,
    step: Result<(Vec<u8>, bool), String>,
    p: Result<Vec<u8>, String>,
)
    requires
        call_ensures(on_typed_frame, (raw, request_id, format), step),
        call_ensures(print_resp, (raw, format), p),
    ensures
        match (p, step) {
            (Ok(bytes), Ok((b, over))) => {
                &&& b@ == bytes@
                &&& frame_meta(raw@) matches Ok(meta)
                &&& over <==> meta.request_id == Some(request_id) && meta.method is None
            },
            (Err(error), Err(e)) => e@ == error@,
            _ => false,
        },
{
}

/// A frame is the answer to a call if it is a response with the call's request id.
pub proof fn law_answers_have_the_id_of_the_call(
    raw: &[u8],
    meta: &FrameMeta,
    request_id: i64,
    r: Reception,
    is: bool,
)
    requires
        call_ensures(receive_response, (raw, request_id), r),
        call_ensures(is_answer, (meta, request_id), is),
        !meta_overflows(raw@),
    ensures
        is <==> meta.request_id == Some(request_id) && meta.method is None,
        frame_meta(raw@) matches Ok(m) ==> {
            let own = m.request_id == Some(request_id) && m.method is None;
            &&& own ==> r is Answer
            &&& !own ==> r is Skip
        },
        frame_meta(raw@) matches Err(error) ==> (r matches Reception::Failed(e) && e@
            == "FramingError - "@ + error),
{
}

/// A call waits as long as the timeout says, forever where it is 0, and says so when it gives up.
pub proof fn law_the_timeout_is_kept(timeout: u64, limit: Option<u64>, error: String)
    requires
        call_ensures(wait_limit, (timeout,), limit),
        call_ensures(timeout_error, (timeout,), error),
    ensures
        timeout == 0 ==> limit is None,
        timeout > 0 ==> limit == Some(timeout),
        error@ == "Method call response timeout after "@ + decimal(timeout as int) + " msec."@,
{
}

/// Bytes that are no frame fail a call in the words of the reader.
pub proof fn law_unreadable_frames_fail_a_call(
    raw: &[u8],
    request_id: i64,
    format: &OutputFormat,
    meta: Result<FrameMeta, String>,
    step: Step,
    reception: Reception,
)
    requires
        call_ensures(on_single_frame, (raw, request_id, format), step),
        call_ensures(receive_response, (raw, request_id), reception),
        call_ensures(read_frame, (raw,), meta),
    ensures
        meta matches Err(error) ==> (step matches Step::Fail(a) && a@ == error@) && (
        reception matches Reception::Failed(b) && b@ == error@),
        meta is Ok ==> !(reception is Failed),
{
}

} // verus!
