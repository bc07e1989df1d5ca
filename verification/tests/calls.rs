use shvcall::call::{
    call_request, given_text, has_space_first, is_answer, on_single_frame, on_typed_frame,
    parse_line, plan_call, receive_response, reception, send_request, timeout_error, wait_limit,
    CallPlan, Reception, Step,
};
use shvcall::output::OutputFormat;
use shvcall::wire::{FrameMeta, Param};
use shvproto::RpcValue;
use shvrpc::framerw::serialize_meta;
use shvrpc::{RpcFrame, RpcMessage, RpcMessageMetaTags};

fn raw(msg: &RpcMessage) -> Vec<u8> {
    let frame = msg.to_frame().unwrap();
    let mut raw = vec![frame.protocol as u8];
    raw.extend(serialize_meta(&frame).unwrap());
    raw.extend(frame.data());
    raw
}

fn answer(request_id: i64, value: i64) -> Vec<u8> {
    let rq = RpcMessage::create_request_with_id(request_id, "a", "m");
    let mut msg = rq.prepare_response().unwrap();
    msg.set_result(value);
    raw(&msg)
}

#[test]
fn lines_are_split() {
    assert_eq!(parse_line("shv/path:method 42"), Ok(("shv/path", "method", "42")));
    assert_eq!(parse_line("  shv/path:method \n"), Ok(("shv/path", "method", "")));
    assert_eq!(parse_line(":ls"), Ok(("", "ls", "")));
    assert_eq!(parse_line("a:"), Ok(("a", "", "")));
    assert_eq!(parse_line("a:b:c"), Ok(("a", "b:c", "")));
    assert_eq!(parse_line("a: b"), Ok(("a", "", "b")));
    assert_eq!(parse_line("a:b  {\"x\": 1}"), Ok(("a", "b", "{\"x\": 1}")));
    assert_eq!(parse_line("a\t:\tb c"), Ok(("a", "b", "c")));
    assert_eq!(parse_line("žluť:kůň [1, 2]"), Ok(("žluť", "kůň", "[1, 2]")));
}

#[test]
fn a_line_without_a_colon_is_no_call() {
    let error = "Invalid line format, method not found: ";
    assert_eq!(parse_line("  shv/path  "), Err(format!("{error}shv/path")));
    assert_eq!(parse_line(""), Err(error.to_string()));
    assert_eq!(parse_line("a b"), Err(format!("{error}a b")));
}

#[test]
fn a_space_before_the_colon_is_noticed() {
    assert!(has_space_first("a b:c"));
    assert!(has_space_first(" foo \"x:y\""));
    assert!(!has_space_first("  a:b c"));
    assert!(!has_space_first("a b"));
    assert!(!has_space_first("a:b"));
    assert!(!has_space_first(""));
}

#[test]
fn a_typed_call_reads_back() {
    for (path, method, param) in [("a/b", "get", ""), ("", "dir", "1"), ("x", "set", "[1, 2]")] {
        let line = if param.is_empty() {
            format!("{path}:{method}")
        } else {
            format!("{path}:{method} {param}")
        };
        assert!(!has_space_first(&line));
        assert_eq!(parse_line(&line), Ok((path, method, param)));
    }
}

#[test]
fn a_call_is_sent() {
    let bytes = send_request(5, "test", "get", "[1,2]").unwrap().unwrap();
    let msg = RpcFrame::from_raw_data(bytes).unwrap().to_rpcmesage().unwrap();
    assert_eq!(msg.request_id(), Some(5));
    assert_eq!(msg.shv_path(), Some("test"));
    assert_eq!(msg.method(), Some("get"));
    assert_eq!(msg.param().unwrap().to_cpon(), "[1,2]");
    let bytes = send_request(6, "", "dir", "").unwrap().unwrap();
    let msg = RpcFrame::from_raw_data(bytes).unwrap().to_rpcmesage().unwrap();
    assert_eq!(msg.shv_path(), None);
    assert!(msg.param().is_none());
}

#[test]
fn a_call_with_a_bad_parameter_is_not_sent() {
    let error = RpcValue::from_cpon("{").unwrap_err().to_string();
    assert_eq!(send_request(5, "a", "b", "{"), Some(Err(error)));
    assert_eq!(send_request(5, "a", "b", "-9223372036854775808"), None);
}

#[test]
fn an_empty_parameter_is_none() {
    assert_eq!(call_request(1, "p", "m", "").param, Param::Absent);
    assert_eq!(call_request(1, "p", "m", "0").param, Param::Cpon("0".to_string()));
    assert_eq!(call_request(1, "p", "m", "").request_id, 1);
    assert_eq!(call_request(1, "p", "m", "").path, "p");
    assert_eq!(call_request(1, "p", "m", "").method, "m");
}

#[test]
fn options_ask_for_calls() {
    let some = |s: &str| Some(s.to_string());
    assert_eq!(plan_call(&None, &some("1")), Ok(CallPlan::Interactive));
    assert_eq!(
        plan_call(&some("shv/path:method"), &some("1")),
        Ok(CallPlan::Single {
            path: "shv/path".to_string(),
            method: "method".to_string(),
            param: "1".to_string()
        })
    );
    assert_eq!(
        plan_call(&some(":a:b"), &None),
        Ok(CallPlan::Single {
            path: String::new(),
            method: "a:b".to_string(),
            param: String::new()
        })
    );
    assert_eq!(
        plan_call(&some("method"), &None),
        Err("--method parameter must be in form shv/path:method".to_string())
    );
    assert_eq!(given_text(&None), "");
    assert_eq!(given_text(&some("x")), "x");
}

#[test]
fn only_the_answer_with_the_id_is_taken() {
    assert_eq!(receive_response(&answer(7, 1), 7), Reception::Answer);
    assert_eq!(receive_response(&answer(8, 1), 7), Reception::Skip);
    let rq = raw(&RpcMessage::create_request_with_id(7, "a", "m"));
    assert_eq!(receive_response(&rq, 7), Reception::Skip);
    assert_eq!(receive_response(&raw(&RpcMessage::new_signal("a", "chng")), 0), Reception::Skip);
    assert_eq!(
        receive_response(&[], 7),
        Reception::Failed("FramingError - Empty data cannot be converted to RpcFrame".to_string())
    );
}

#[test]
fn reception_depends_on_the_meta_data() {
    let meta = |request_id: Option<i64>, method: Option<&str>| FrameMeta {
        request_id,
        shv_path: None,
        method: method.map(str::to_owned),
        seqno: None,
    };
    assert!(is_answer(&meta(Some(2), None), 2));
    assert!(!is_answer(&meta(Some(2), Some("m")), 2));
    assert!(!is_answer(&meta(None, None), 0));
    assert_eq!(reception(Ok(meta(Some(2), None)), 2), Reception::Answer);
    assert_eq!(reception(Ok(meta(Some(2), None)), 3), Reception::Skip);
    assert_eq!(reception(Err("e".to_string()), 3), Reception::Failed("e".to_string()));
}

#[test]
fn a_single_call_prints_its_answer() {
    let format = OutputFormat::Simple;
    assert_eq!(on_single_frame(&answer(8, 1), 7, &format), Step::Wait);
    assert_eq!(on_single_frame(&answer(7, 1), 7, &format), Step::Print(b"RES 1\n".to_vec()));
    assert!(matches!(on_single_frame(&[9], 7, &format), Step::Fail(_)));
    let mut cut = answer(7, 100);
    cut.pop();
    cut.pop();
    assert!(matches!(on_single_frame(&cut, 7, &format), Step::Fail(_)));
    assert_eq!(on_single_frame(&cut, 8, &format), Step::Wait);
}

#[test]
fn frames_before_the_answer_do_not_matter() {
    let format = OutputFormat::Value;
    let mut printed: Option<Vec<u8>> = None;
    for frame in [answer(1, 10), raw(&RpcMessage::new_signal("a", "b")), answer(7, 20), answer(7, 30)] {
        if let Step::Print(bytes) = on_single_frame(&frame, 7, &format) {
            printed = Some(bytes);
            break;
        }
    }
    assert_eq!(printed, Some(b"20\n".to_vec()));
}

#[test]
fn a_typed_call_prints_every_message() {
    let format = OutputFormat::Value;
    assert_eq!(on_typed_frame(&answer(8, 1), 7, &format), Ok((b"1\n".to_vec(), false)));
    assert_eq!(on_typed_frame(&answer(7, 1), 7, &format), Ok((b"1\n".to_vec(), true)));
    assert_eq!(on_typed_frame(&[0], 7, &format), Err("Invalid protocol".to_string()));
}

#[test]
fn no_timeout_means_forever() {
    assert_eq!(wait_limit(0), None);
    assert_eq!(wait_limit(5000), Some(5000));
    assert_eq!(timeout_error(5000), "Method call response timeout after 5000 msec.");
}
