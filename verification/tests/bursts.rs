use shvcall::burst::{parse_burst, plan_burst, BurstError, BurstPlan, BurstTask, TaskAction};
use shvcall::number::IntError;
use shvcall::wire::{Param, Request};
use shvrpc::framerw::serialize_meta;
use shvrpc::RpcMessage;

fn raw(msg: &RpcMessage) -> Vec<u8> {
    let frame = msg.to_frame().unwrap();
    let mut raw = vec![frame.protocol as u8];
    raw.extend(serialize_meta(&frame).unwrap());
    raw.extend(frame.data());
    raw
}

fn response(request_id: i64) -> Vec<u8> {
    let rq = RpcMessage::create_request_with_id(request_id, "a", "m");
    raw(&rq.prepare_response().unwrap())
}

fn some(s: &str) -> Option<String> {
    Some(s.to_string())
}

#[test]
fn burst_options_are_read() {
    assert_eq!(parse_burst("100,4"), Ok((100, 4)));
    assert_eq!(parse_burst("100"), Ok((100, 1)));
    assert_eq!(parse_burst("100"), parse_burst("100,1"));
    assert_eq!(parse_burst("5,2,9"), Ok((5, 2)));
    assert_eq!(parse_burst("-1,0"), Ok((-1, 0)));
    assert_eq!(parse_burst(""), Err(IntError::Empty));
    assert_eq!(parse_burst("5,"), Err(IntError::Empty));
    assert_eq!(parse_burst("5, 2"), Err(IntError::InvalidDigit));
    assert_eq!(parse_burst("5,2147483648"), Err(IntError::PosOverflow));
    assert_eq!(parse_burst("-2147483649"), Err(IntError::NegOverflow));
}

#[test]
fn bursts_are_planned() {
    assert_eq!(
        plan_burst("3,2", &some("a/b:get"), &some("7")),
        Ok(BurstPlan {
            calls: 3,
            tasks: 2,
            path: "a/b".to_string(),
            method: "get".to_string(),
            param: some("7")
        })
    );
    let plan = plan_burst("3", &some("a/b:get:chng"), &None).unwrap();
    assert_eq!(plan.path, "a/b");
    assert_eq!(plan.method, "get");
    assert_eq!(plan.param, None);
    assert_eq!(plan_burst("3", &some("ůů:žž:x"), &None).unwrap().method, "žž");
}

#[test]
fn bursts_need_a_method() {
    let refused = |method: Option<String>| match plan_burst("3", &method, &None) {
        Err(BurstError::Method(e)) => e,
        other => panic!("{other:?}"),
    };
    assert_eq!(refused(None), "--method parameter missing");
    assert_eq!(refused(some("get")), "Method separator ':' is missing.");
    assert_eq!(refused(some("a:")), "Method must not be empty.");
    assert_eq!(refused(some("a::x")), "Method must not be empty.");
    assert_eq!(refused(some("a:m:")), "Signal, if present, must not be empty.");
}

#[test]
fn bursts_need_numbers() {
    assert_eq!(
        plan_burst("x", &some("a:b"), &None),
        Err(BurstError::Count(IntError::InvalidDigit))
    );
    assert_eq!(
        plan_burst("x", &some("no method"), &None),
        Err(BurstError::Count(IntError::InvalidDigit))
    );
    assert_eq!(
        plan_burst("x", &None, &None),
        Err(BurstError::Method("--method parameter missing".to_string()))
    );
}

#[test]
fn a_burst_makes_the_same_call() {
    let mut plan = plan_burst("3,2", &some("a/b:get"), &some("")).unwrap();
    assert_eq!(
        plan.request(9),
        Request {
            request_id: 9,
            seqno: None,
            path: "a/b".to_string(),
            method: "get".to_string(),
            param: Param::Cpon(String::new())
        }
    );
    plan.param = None;
    assert_eq!(plan.request(9).param, Param::Absent);
    assert_eq!(plan.start_line(1), "Starting burst task #1, 3 calls of a/b:get");
    assert_eq!(
        plan.end_line(1),
        "Burst task #1 finished, after 3 calls made successfully."
    );
}

#[test]
fn a_task_makes_all_its_calls() {
    for (calls, made) in [(3, 3), (1, 1), (0, 0), (-2, 0)] {
        let mut task = BurstTask::start(calls);
        let mut n = 0;
        while task.next_call(n + 1) == TaskAction::Call(n + 1) {
            n += 1;
            assert_eq!(task.on_frame(&response(n)), TaskAction::Wait);
        }
        assert_eq!(task.next_call(n + 1), TaskAction::Finish);
        assert_eq!(n, made);
    }
}

#[test]
fn a_task_makes_one_call_at_a_time() {
    let mut task = BurstTask::start(2);
    assert_eq!(task, BurstTask { left: 2, waiting: None });
    assert_eq!(task.on_frame(&response(7)), TaskAction::Wait);
    assert_eq!(task.next_call(7), TaskAction::Call(7));
    assert_eq!(task, BurstTask { left: 1, waiting: Some(7) });
    assert_eq!(task.next_call(8), TaskAction::Wait);
    assert_eq!(task, BurstTask { left: 1, waiting: Some(7) });
    assert_eq!(task.on_frame(&response(6)), TaskAction::Wait);
    assert_eq!(task.on_frame(&raw(&RpcMessage::new_signal("a", "b"))), TaskAction::Wait);
    assert_eq!(
        task.on_frame(&raw(&RpcMessage::create_request_with_id(7, "a", "m"))),
        TaskAction::Wait
    );
    assert_eq!(task.next_call(8), TaskAction::Wait);
    assert_eq!(task.on_frame(&response(7)), TaskAction::Wait);
    assert_eq!(task, BurstTask { left: 1, waiting: None });
    assert_eq!(task.next_call(8), TaskAction::Call(8));
    assert_eq!(
        task.on_frame(&[]),
        TaskAction::Fail(
            "FramingError - Empty data cannot be converted to RpcFrame".to_string()
        )
    );
    assert_eq!(task.on_frame(&response(8)), TaskAction::Wait);
    assert_eq!(task.next_call(9), TaskAction::Finish);
}
