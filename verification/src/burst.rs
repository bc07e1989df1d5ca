//! Bursts: the same call many times over, from several tasks.

use crate::call::{answers, received, reception, Reception, ReceptionView};
use crate::chainpack::meta_overflows;
use crate::number::{law_signed_reads_decimal, lemma_decimal_chars, parse_i32, signed, IntError};
use crate::text::{
    decimal, fields_at, lemma_next_field_at, lemma_one_field_at, opt_text, push_i32, split,
};
use crate::wire::{
    frame_meta, framed, meta_outcome, read_frame, FrameMeta, MetaView, Param, ParamView, Request,
    RequestView,
};
use shvrpc::rpc::ShvRI;
use vstd::prelude::*;

verus! {

/// The path and the method in a resource identifier `path:method[:signal]`, or the words in which
/// it is rejected.
pub open spec fn ri_parts(text: Seq<char>) -> Result<(Seq<char>, Seq<char>), Seq<char>> {
    match text.index_of_first(':') {
        None => Err("Method separator ':' is missing."@),
        Some(m) => {
            let rest = text.skip(m + 1);
            match rest.index_of_first(':') {
                None => if rest.len() == 0 {
                    Err("Method must not be empty."@)
                } else {
                    Ok((text.take(m), rest))
                },
                Some(s) => if s == 0 {
                    Err("Method must not be empty."@)
                } else if s + 1 == rest.len() {
                    Err("Signal, if present, must not be empty."@)
                } else {
                    Ok((text.take(m), rest.take(s)))
                },
            }
        },
    }
}

/// The texts in an outcome that is a pair of texts or a text.
pub open spec fn pair_outcome(r: Result<(String, String), String>) -> Result<
    (Seq<char>, Seq<char>),
    Seq<char>,
> {
    match r {
        Ok((a, b)) => Ok((a@, b@)),
        Err(e) => Err(e@),
    }
}

/// `ShvRI::try_from`, `path` and `method`: splits a resource identifier at its first two colons.
/// The method must not be empty, nor a signal behind a second colon.
#[verifier::external_body]
fn parse_ri(text: &str) -> (r: Result<(String, String), String>)
    ensures
        pair_outcome(r) == ri_parts(text@),
{
    match ShvRI::try_from(text) {
        Ok(ri) => Ok((ri.path().to_owned(), ri.method().to_owned())),
        Err(err) => Err(err.to_owned()),
    }
}

/// The number of calls and the number of tasks in a burst option `N[,M]`; M is 1 where it is not
/// given.
pub open spec fn burst_counts(text: Seq<char>) -> Result<(int, int), IntError> {
    let parts = fields_at(text, ',');
    match signed(parts[0], i32::MIN as int, i32::MAX as int) {
        Err(e) => Err(e),
        Ok(calls) => if parts.len() == 1 {
            Ok((calls, 1))
        } else {
            match signed(parts[1], i32::MIN as int, i32::MAX as int) {
                Err(e) => Err(e),
                Ok(tasks) => Ok((calls, tasks)),
            }
        },
    }
}

/// Reads a burst option. The error is that of the number that cannot be read.
pub fn parse_burst(text: &str) -> (r: Result<(i32, i32), IntError>)
    ensures
        match r {
            Ok((calls, tasks)) => burst_counts(text@) == Ok::<(int, int), IntError>(
                (calls as int, tasks as int),
            ),
            Err(e) => burst_counts(text@) == Err::<(int, int), IntError>(e),
        },
{
    let parts = split(text, ',');
    assert(fields_at(text@, ',')[0] == parts@[0]@);
    let calls = match parse_i32(parts[0]) {
        Ok(n) => n,
        Err(e) => {
            return Err(e);
        },
    };
    if parts.len() == 1 {
        return Ok((calls, 1));
    }
    assert(fields_at(text@, ',')[1] == parts@[1]@);
    match parse_i32(parts[1]) {
        Ok(tasks) => Ok((calls, tasks)),
        Err(e) => Err(e),
    }
}

/// What a burst does: each task makes the same call so many times, one after another.
#[derive(Debug, PartialEq, Eq)]
pub struct BurstPlan {
    pub calls: i32,
    pub tasks: i32,
    pub path: String,
    pub method: String,
    pub param: Option<String>,
}

/// The contents of a `BurstPlan`.
pub struct BurstView {
    pub calls: int,
    pub tasks: int,
    pub path: Seq<char>,
    pub method: Seq<char>,
    pub param: Option<Seq<char>>,
}

impl View for BurstPlan {
    type V = BurstView;

    open spec fn view(&self) -> BurstView {
        BurstView {
            calls: self.calls as int,
            tasks: self.tasks as int,
            path: self.path@,
            method: self.method@,
            param: opt_text(self.param),
        }
    }
}

/// Why there is no burst.
#[derive(Debug, PartialEq, Eq)]
pub enum BurstError {
    /// The method option is missing or is no resource identifier.
    Method(String),
    /// A number in the burst option cannot be read.
    Count(IntError),
}

/// The contents of a `BurstError`.
pub enum BurstErrorView {
    Method(Seq<char>),
    Count(IntError),
}

impl View for BurstError {
    type V = BurstErrorView;

    open spec fn view(&self) -> BurstErrorView {
        match self {
            BurstError::Method(e) => BurstErrorView::Method(e@),
            BurstError::Count(e) => BurstErrorView::Count(*e),
        }
    }
}

/// What the burst, method and parameter options ask for.
pub open spec fn planned_burst(
    burst: Seq<char>,
    method: Option<Seq<char>>,
    param: Option<Seq<char>>,
) -> Result<BurstView, BurstErrorView> {
    match method {
        None => Err(BurstErrorView::Method("--method parameter missing"@)),
        Some(m) => match burst_counts(burst) {
            Err(e) => Err(BurstErrorView::Count(e)),
            Ok((calls, tasks)) => match ri_parts(m) {
                Err(e) => Err(BurstErrorView::Method(e)),
                Ok((path, method)) => Ok(BurstView { calls, tasks, path, method, param }),
            },
        },
    }
}

/// Decides what the burst, method and parameter options ask for.
pub fn plan_burst(burst: &str, method: &Option<String>, param: &Option<String>) -> (r: Result<
    BurstPlan,
    BurstError,
>)
    ensures
        match r {
            Ok(plan) => planned_burst(burst@, opt_text(*method), opt_text(*param)) matches Ok(p)
                && p == plan@,
            Err(error) => planned_burst(burst@, opt_text(*method), opt_text(*param)) matches Err(e)
                && e == error@,
        },
{
    let m = match method {
        None => {
            return Err(BurstError::Method("--method parameter missing".to_owned()));
        },
        Some(m) => m.as_str(),
    };
    let (calls, tasks) = match parse_burst(burst) {
        Ok(counts) => counts,
        Err(e) => {
            return Err(BurstError::Count(e));
        },
    };
    match parse_ri(m) {
        Err(e) => Err(BurstError::Method(e)),
        Ok((path, method)) => Ok(
            BurstPlan {
                calls,
                tasks,
                path,
                method,
                param: match param {
                    Some(p) => Some(p.clone()),
                    None => None,
                },
            },
        ),
    }
}

impl BurstView {
    /// The request of one call of the burst. Unlike that of a single call, an empty parameter
    /// counts as one.
    pub open spec fn request(self, request_id: i64) -> RequestView {
        RequestView {
            request_id,
            seqno: None,
            path: self.path,
            method: self.method,
            param: match self.param {
                Some(p) => ParamView::Cpon(p),
                None => ParamView::Absent,
            },
        }
    }

    /// What is printed when a task starts.
    pub open spec fn start_line(self, taskno: int) -> Seq<char> {
        "Starting burst task #"@ + decimal(taskno) + ", "@ + decimal(self.calls) + " calls of "@
            + self.path + ":"@ + self.method
    }

    /// What is printed when a task is done.
    pub open spec fn end_line(self, taskno: int) -> Seq<char> {
        "Burst task #"@ + decimal(taskno) + " finished, after "@ + decimal(self.calls)
            + " calls made successfully."@
    }
}

impl BurstPlan {
    /// Makes the request of one call of the burst.
    pub fn request(&self, request_id: i64) -> (r: Request)
        ensures
            r@ == self@.request(request_id),
    {
        Request {
            request_id,
            seqno: None,
            path: self.path.clone(),
            method: self.method.clone(),
            param: match &self.param {
                Some(p) => Param::Cpon(p.clone()),
                None => Param::Absent,
            },
        }
    }

    /// Words what is printed when a task starts.
    pub fn start_line(&self, taskno: i32) -> (r: String)
        ensures
            r@ == self@.start_line(taskno as int),
    {
        let mut s = "Starting burst task #".to_owned();
        push_i32(&mut s, taskno);
        s.append(", ");
        push_i32(&mut s, self.calls);
        s.append(" calls of ");
        s.append(self.path.as_str());
        s.append(":");
        s.append(self.method.as_str());
        s
    }

    /// Words what is printed when a task is done.
    pub fn end_line(&self, taskno: i32) -> (r: String)
        ensures
            r@ == self@.end_line(taskno as int),
    {
        let mut s = "Burst task #".to_owned();
        push_i32(&mut s, taskno);
        s.append(" finished, after ");
        push_i32(&mut s, self.calls);
        s.append(" calls made successfully.");
        s
    }
}

/// A task of a burst: the calls that it still makes, and the request id of the one that waits for
/// its answer.
#[derive(Debug, Clone, Copy, PartialEq, Eq, Structural)]
pub struct BurstTask {
    pub left: i32,
    pub waiting: Option<i64>,
}

/// What a task of a burst is to do next.
#[derive(Debug, PartialEq, Eq)]
pub enum TaskAction {
    /// Wait for the next frame.
    Wait,
    /// Make the call under this request id.
    Call(i64),
    /// The task is done.
    Finish,
    /// The task failed.
    Fail(String),
}

/// The contents of a `TaskAction`.
pub enum TaskView {
    Wait,
    Call(i64),
    Finish,
    Fail(Seq<char>),
}

impl View for TaskAction {
    type V = TaskView;

    open spec fn view(&self) -> TaskView {
        match self {
            TaskAction::Wait => TaskView::Wait,
            TaskAction::Call(id) => TaskView::Call(*id),
            TaskAction::Finish => TaskView::Finish,
            TaskAction::Fail(e) => TaskView::Fail(e@),
        }
    }
}

impl BurstTask {
    /// What the task does where no call waits: the next call, as long as there are any.
    pub open spec fn after_ready(self, request_id: i64) -> (BurstTask, TaskView) {
        if self.waiting is Some {
            (self, TaskView::Wait)
        } else if self.left > 0 {
            (
                BurstTask { left: (self.left - 1) as i32, waiting: Some(request_id) },
                TaskView::Call(request_id),
            )
        } else {
            (self, TaskView::Finish)
        }
    }

    /// What a frame does: the answer to the call that waits ends the wait.
    pub open spec fn after_frame(self, meta: Result<MetaView, Seq<char>>) -> (BurstTask, TaskView) {
        match self.waiting {
            None => (self, TaskView::Wait),
            Some(id) => match received(meta, id) {
                ReceptionView::Skip => (self, TaskView::Wait),
                ReceptionView::Answer => (
                    BurstTask { left: self.left, waiting: None },
                    TaskView::Wait,
                ),
                ReceptionView::Failed(e) => (self, TaskView::Fail(e)),
            },
        }
    }

    /// Starts a task that makes so many calls.
    pub fn start(calls: i32) -> (r: BurstTask)
        ensures
            r == (BurstTask { left: calls, waiting: None }),
    {
        BurstTask { left: calls, waiting: None }
    }

    /// Makes the next call under the request id `request_id`, if none waits and one is left.
    pub fn next_call(&mut self, request_id: i64) -> (r: TaskAction)
        ensures
            (*final(self), r@) == old(self).after_ready(request_id),
    {
        if self.waiting.is_some() {
            TaskAction::Wait
        } else if self.left > 0 {
            self.left = self.left - 1;
            self.waiting = Some(request_id);
            TaskAction::Call(request_id)
        } else {
            TaskAction::Finish
        }
    }

    /// Takes what was read of a frame.
    pub fn on_meta(&mut self, meta: Result<FrameMeta, String>) -> (r: TaskAction)
        ensures
            (*final(self), r@) == old(self).after_frame(meta_outcome(meta)),
    {
        match self.waiting {
            None => TaskAction::Wait,
            Some(id) => match reception(meta, id) {
                Reception::Skip => TaskAction::Wait,
                Reception::Answer => {
                    self.waiting = None;
                    TaskAction::Wait
                },
                Reception::Failed(e) => TaskAction::Fail(e),
            },
        }
    }

    /// Takes the frame `raw`.
    pub fn on_frame(&mut self, raw: &[u8]) -> (r: TaskAction)
        ensures
            (*final(self), r@) == old(self).after_frame(framed(raw@)),
    {
        self.on_meta(read_frame(raw))
    }
}

/// An event of a task: it is ready to go on with a new request id, or a frame arrives.
pub enum TaskEvent {
    Ready(i64),
    Frame(Result<MetaView, Seq<char>>),
}

/// What an event does to a task.
pub open spec fn task_step(task: BurstTask, event: TaskEvent) -> (BurstTask, TaskView) {
    match event {
        TaskEvent::Ready(id) => task.after_ready(id),
        TaskEvent::Frame(meta) => task.after_frame(meta),
    }
}

/// The task after so many events.
pub open spec fn task_after(task: BurstTask, events: Seq<TaskEvent>) -> BurstTask
    decreases events.len(),
{
    if events.len() == 0 {
        task
    } else {
        task_step(task_after(task, events.drop_last()), events.last()).0
    }
}

/// The calls that a task makes on so many events.
pub open spec fn calls_made(task: BurstTask, events: Seq<TaskEvent>) -> nat
    decreases events.len(),
{
    if events.len() == 0 {
        0
    } else {
        let before = task_after(task, events.drop_last());
        calls_made(task, events.drop_last()) + if task_step(before, events.last()).1 is Call {
            1nat
        } else {
            0nat
        }
    }
}

/// The answers that a task takes on so many events.
pub open spec fn answers_taken(task: BurstTask, events: Seq<TaskEvent>) -> nat
    decreases events.len(),
{
    if events.len() == 0 {
        0
    } else {
        let before = task_after(task, events.drop_last());
        let after = task_step(before, events.last()).0;
        answers_taken(task, events.drop_last()) + if before.waiting is Some && after.waiting
            is None {
            1nat
        } else {
            0nat
        }
    }
}

/// The calls that are still to be made where the counter says `n`.
pub open spec fn wanted(n: int) -> nat {
    if n > 0 {
        n as nat
    } else {
        0
    }
}

/// A task has at most one call waiting: whatever the events, the calls that it made are the
/// answers that it took and the one that waits, if one does. With those that are left they are
/// the calls that it was asked for.
pub proof fn law_one_call_at_a_time(calls: i32, events: Seq<TaskEvent>)
    ensures
        ({
            let start = BurstTask { left: calls, waiting: None };
            let task = task_after(start, events);
            let made = calls_made(start, events);
            let taken = answers_taken(start, events);
            &&& made == taken + if task.waiting is Some {
                1nat
            } else {
                0nat
            }
            &&& made + wanted(task.left as int) == wanted(calls as int)
        }),
    decreases events.len(),
{
    if events.len() > 0 {
        law_one_call_at_a_time(calls, events.drop_last());
    }
}

/// A new call is made only when none waits, and a wait ends only with the answer to the call that
/// waits.
pub proof fn law_a_call_waits_for_its_answer(task: BurstTask, event: TaskEvent)
    requires
        task.waiting is Some,
    ensures
        !(task_step(task, event).1 is Call),
        task_step(task, event).0.waiting is None <==> (event matches TaskEvent::Frame(Ok(m))
            && answers(m, task.waiting->0)),
        task_step(task, event).0.waiting is Some ==> task_step(task, event).0 == task,
{
}

/// Whether a task is done after so many events.
pub open spec fn is_done(calls: i32, events: Seq<TaskEvent>) -> bool {
    let task = task_after(BurstTask { left: calls, waiting: None }, events);
    task.after_ready(0).1 is Finish
}

/// A task that is done has made as many calls as it was asked for, and has taken the answer to
/// each of them.
pub proof fn law_a_task_makes_its_calls(calls: i32, events: Seq<TaskEvent>)
    requires
        is_done(calls, events),
    ensures
        ({
            let start = BurstTask { left: calls, waiting: None };
            &&& calls_made(start, events) == wanted(calls as int)
            &&& answers_taken(start, events) == wanted(calls as int)
        }),
{
    law_one_call_at_a_time(calls, events);
}

/// The calls that are made by tasks that go through these events.
pub open spec fn burst_calls(calls: i32, tasks: Seq<Seq<TaskEvent>>) -> nat
    decreases tasks.len(),
{
    if tasks.len() == 0 {
        0
    } else {
        calls_made(BurstTask { left: calls, waiting: None }, tasks[0]) + burst_calls(
            calls,
            tasks.skip(1),
        )
    }
}

/// A burst `N,M` makes N calls in each of M tasks.
pub proof fn law_a_burst_makes_its_calls(calls: i32, tasks: Seq<Seq<TaskEvent>>)
    requires
        forall|i: int| 0 <= i < tasks.len() ==> is_done(calls, #[trigger] tasks[i]),
    ensures
        burst_calls(calls, tasks) == wanted(calls as int) * tasks.len(),
    decreases tasks.len(),
{
    let n = wanted(calls as int) as int;
    let m = tasks.len() as int;
    if tasks.len() > 0 {
        assert(is_done(calls, tasks[0]));
        law_a_task_makes_its_calls(calls, tasks[0]);
        assert forall|i: int| 0 <= i < tasks.skip(1).len() implies is_done(
            calls,
            #[trigger] tasks.skip(1)[i],
        ) by {
            assert(tasks.skip(1)[i] == tasks[i + 1]);
        }
        law_a_burst_makes_its_calls(calls, tasks.skip(1));
        assert(n * m == n + n * (m - 1)) by (nonlinear_arith);
    } else {
        assert(n * m == 0) by (nonlinear_arith)
            requires
                m == 0,
        ;
    }
}

/// A burst option `N` asks for the same as `N,1`.
pub proof fn law_one_task_by_default(calls: Seq<char>)
    requires
        !calls.contains(','),
    ensures
        burst_counts(calls.push(',') + decimal(1)) == burst_counts(calls),
{
    lemma_one_field_at(calls, ',');
    lemma_decimal_chars(1);
    lemma_next_field_at(calls, decimal(1), ',');
    law_signed_reads_decimal(1, i32::MIN as int, i32::MAX as int);
}

/// A burst option `N,M` is read as N calls in M tasks.
pub proof fn law_burst_option_reads_back(calls: int, tasks: int)
    requires
        i32::MIN <= calls <= i32::MAX,
        i32::MIN <= tasks <= i32::MAX,
    ensures
        burst_counts(decimal(calls).push(',') + decimal(tasks)) == Ok::<(int, int), IntError>(
            (calls, tasks),
        ),
{
    lemma_decimal_chars(calls);
    lemma_decimal_chars(tasks);
    lemma_one_field_at(decimal(calls), ',');
    lemma_next_field_at(decimal(calls), decimal(tasks), ',');
    law_signed_reads_decimal(calls, i32::MIN as int, i32::MAX as int);
    law_signed_reads_decimal(tasks, i32::MIN as int, i32::MAX as int);
}

/// A burst option is a number of calls and, behind a comma, a number of tasks, 1 where there is
/// none. What stands behind a second comma is passed over.
pub proof fn law_burst_options_are_read(
    text: &str,
    parts: Vec<&str>,
    calls: Result<i32, IntError>,
    tasks: Result<i32, IntError>,
    r: Result<(i32, i32), IntError>,
)
    requires
        call_ensures(parse_burst, (text,), r),
        call_ensures(split, (text, ','), parts),
        call_ensures(parse_i32, (parts@[0],), calls),
        parts@.len() > 1 ==> call_ensures(parse_i32, (parts@[1],), tasks),
    ensures
        parts@.len() == 1 ==> r == match calls {
            Ok(n) => Ok::<(i32, i32), IntError>((n, 1)),
            Err(e) => Err(e),
        },
        parts@.len() > 1 ==> r == match (calls, tasks) {
            (Ok(n), Ok(m)) => Ok::<(i32, i32), IntError>((n, m)),
            (Err(e), _) => Err(e),
            (_, Err(e)) => Err(e),
        },
{
    let all = fields_at(text@, ',');
    assert(all[0] == parts@[0]@);
    if parts@.len() > 1 {
        assert(all[1] == parts@[1]@);
    }
}

/// A burst makes the calls that its options name: each is a request to the path and the method in
/// the method option, `path:method` or `path:method:signal`, and carries the parameter option as
/// it is given, an empty one too, or nothing where it is not given.
pub proof fn law_a_burst_makes_the_call_of_its_options(
    burst: &str,
    method: &Option<String>,
    param: &Option<String>,
    path: Seq<char>,
    name: Seq<char>,
    signal: Option<Seq<char>>,
    counts: Result<(i32, i32), IntError>,
    r: Result<BurstPlan, BurstError>,
    plan: &BurstPlan,
    request_id: i64,
    rq: Request,
)
    requires
        call_ensures(plan_burst, (burst, method, param), r),
        call_ensures(parse_burst, (burst,), counts),
        r matches Ok(p) ==> p == *plan,
        call_ensures(BurstPlan::request, (plan, request_id), rq),
        *method matches Some(m) && m@ == path + seq![':'] + name + match signal {
            Some(s) => seq![':'] + s,
            None => Seq::<char>::empty(),
        },
        !path.contains(':'),
        !name.contains(':'),
        name.len() > 0,
        signal matches Some(s) ==> s.len() > 0,
    ensures
        counts matches Err(e) ==> r == Err::<BurstPlan, BurstError>(BurstError::Count(e)),
        counts matches Ok((calls, tasks)) ==> {
            &&& r is Ok
            &&& plan.calls == calls
            &&& plan.tasks == tasks
            &&& rq.request_id == request_id
            &&& rq.seqno is None
            &&& rq.path@ == path
            &&& rq.method@ == name
            &&& *param is None ==> rq.param is Absent
            &&& *param matches Some(p) ==> (rq.param matches Param::Cpon(text) && text@ == p@)
        },
{
    if let Some(m) = *method {
        lemma_ri_parts(m@, path, name, signal);
    }
}

/// A resource identifier made of these parts has them.
proof fn lemma_ri_parts(
    text: Seq<char>,
    path: Seq<char>,
    name: Seq<char>,
    signal: Option<Seq<char>>,
)
    requires
        text == path + seq![':'] + name + match signal {
            Some(s) => seq![':'] + s,
            None => Seq::<char>::empty(),
        },
        !path.contains(':'),
        !name.contains(':'),
        name.len() > 0,
        signal matches Some(s) ==> s.len() > 0,
    ensures
        ri_parts(text) == Ok::<(Seq<char>, Seq<char>), Seq<char>>((path, name)),
{
    text.index_of_first_ensures(':');
    let m = path.len() as int;
    assert(text[m] == ':');
    assert(text.contains(':'));
    assert forall|i: int| 0 <= i < m implies text[i] != ':' by {
        assert(path.contains(path[i]));
    }
    assert(text.index_of_first(':') == Some(m));
    assert(text.take(m) =~= path);
    let rest = text.skip(m + 1);
    rest.index_of_first_ensures(':');
    assert forall|i: int| 0 <= i < name.len() implies rest[i] == name[i] && rest[i] != ':' by {
        assert(name.contains(name[i]));
    }
    match signal {
        None => {
            assert(rest =~= name);
        },
        Some(s) => {
            assert(rest[name.len() as int] == ':');
            assert(rest.contains(':'));
            assert(rest.index_of_first(':') == Some(name.len() as int));
            assert(rest.take(name.len() as int) =~= name);
        },
    }
}

/// There is no burst without a method option, with one that has no colon or no method behind it,
/// or with an empty signal.
pub proof fn law_a_burst_needs_a_method(
    burst: &str,
    method: &Option<String>,
    param: &Option<String>,
    path: Seq<char>,
    name: Seq<char>,
    counts: Result<(i32, i32), IntError>,
    r: Result<BurstPlan, BurstError>,
)
    requires
        call_ensures(plan_burst, (burst, method, param), r),
        call_ensures(parse_burst, (burst,), counts),
        !path.contains(':'),
        !name.contains(':'),
    ensures
        *method is None ==> (r matches Err(BurstError::Method(e)) && e@
            == "--method parameter missing"@),
        counts is Ok ==> (*method matches Some(m) ==> {
            &&& !m@.contains(':') ==> (r matches Err(BurstError::Method(e)) && e@
                == "Method separator ':' is missing."@)
            &&& m@ == path + seq![':'] ==> (r matches Err(BurstError::Method(e)) && e@
                == "Method must not be empty."@)
            &&& name.len() > 0 && m@ == path + seq![':'] + name + seq![':'] ==> (r matches Err(
                BurstError::Method(e),
            ) && e@ == "Signal, if present, must not be empty."@)
        }),
{
    if let Some(m) = *method {
        m@.index_of_first_ensures(':');
        let k = path.len() as int;
        assert forall|i: int| 0 <= i < k implies path[i] != ':' by {
            assert(path.contains(path[i]));
        }
        if m@ == path + seq![':'] {
            assert(m@[k] == ':');
            assert(m@.contains(':'));
            assert(m@.index_of_first(':') == Some(k));
            assert(m@.skip(k + 1) =~= Seq::<char>::empty());
            m@.skip(k + 1).index_of_first_ensures(':');
        }
        if name.len() > 0 && m@ == path + seq![':'] + name + seq![':'] {
            assert(m@[k] == ':');
            assert(m@.contains(':'));
            assert(m@.index_of_first(':') == Some(k));
            let rest = m@.skip(k + 1);
            rest.index_of_first_ensures(':');
            assert forall|i: int| 0 <= i < name.len() implies rest[i] != ':' by {
                assert(name.contains(name[i]));
                assert(rest[i] == name[i]);
            }
            assert(rest[name.len() as int] == ':');
            assert(rest.contains(':'));
            assert(rest.index_of_first(':') == Some(name.len() as int));
        }
    }
}

/// A burst tells what its tasks do.
pub proof fn law_tasks_are_announced(plan: &BurstPlan, taskno: i32, start: String, end: String)
    requires
        call_ensures(BurstPlan::start_line, (plan, taskno), start),
        call_ensures(BurstPlan::end_line, (plan, taskno), end),
    ensures
        start@ == "Starting burst task #"@ + decimal(taskno as int) + ", "@ + decimal(
            plan.calls as int,
        ) + " calls of "@ + plan.path@ + ":"@ + plan.method@,
        end@ == "Burst task #"@ + decimal(taskno as int) + " finished, after "@ + decimal(
            plan.calls as int,
        ) + " calls made successfully."@,
{
}

/// A task makes its next call under the id that it is given where none waits and one is left, and
/// is done where none is left. While a call waits it makes no other.
pub proof fn law_tasks_make_their_next_call(
    calls: i32,
    start: BurstTask,
    task: &mut BurstTask,
    request_id: i64,
    r: TaskAction,
)
    requires
        call_ensures(BurstTask::start, (calls,), start),
        call_ensures(BurstTask::next_call, (task, request_id), r),
    ensures
        start.left == calls && start.waiting is None,
        old(task).waiting is Some ==> r is Wait && *final(task) == *old(task),
        old(task).waiting is None && old(task).left > 0 ==> {
            &&& r == TaskAction::Call(request_id)
            &&& final(task).left == old(task).left - 1
            &&& final(task).waiting == Some(request_id)
        },
        old(task).waiting is None && old(task).left <= 0 ==> {
            &&& r is Finish
            &&& *final(task) == *old(task)
        },
{
}

/// The wait of a task ends with the response that has the call's request id, and with no other
/// frame. Bytes that are no frame fail the task.
pub proof fn law_tasks_take_their_answer(task: &mut BurstTask, raw: &[u8], r: TaskAction)
    requires
        call_ensures(BurstTask::on_frame, (task, raw), r),
        !meta_overflows(raw@),
    ensures
        final(task).left == old(task).left,
        frame_meta(raw@) matches Ok(meta) ==> {
            let own = meta.request_id is Some && meta.request_id == old(task).waiting
                && meta.method is None;
            &&& r is Wait
            &&& own ==> final(task).waiting is None
            &&& !own ==> final(task).waiting == old(task).waiting
        },
        old(task).waiting is Some ==> (frame_meta(raw@) matches Err(error) ==> (
        r matches TaskAction::Fail(e) && e@ == "FramingError - "@ + error)),
{
}

/// Bytes that are no frame fail a waiting task in the words of the reader.
pub proof fn law_unreadable_frames_fail_a_task(
    task: &mut BurstTask,
    raw: &[u8],
    meta: Result<FrameMeta, String>,
    r: TaskAction,
)
    requires
        call_ensures(BurstTask::on_frame, (task, raw), r),
        call_ensures(read_frame, (raw,), meta),
    ensures
        old(task).waiting is Some ==> (meta matches Err(error) ==> (r matches TaskAction::Fail(e)
            && e@ == error@)),
        meta is Ok ==> !(r is Fail),
        old(task).waiting is None ==> r is Wait && *final(task) == *old(task),
{
}

} // verus!
