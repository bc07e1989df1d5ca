use shvcall::output::{
    open_message, print_resp, write_custom, write_simple_line, write_value_line, OutputFormat,
};
use shvcall::wire::FrameMeta;
use shvproto::RpcValue;
use shvrpc::framerw::serialize_meta;
use shvrpc::rpcmessage::{RpcError, RpcErrorCode};
use shvrpc::{RpcMessage, RpcMessageMetaTags};

fn raw(msg: &RpcMessage) -> Vec<u8> {
    let frame = msg.to_frame().unwrap();
    let mut raw = vec![frame.protocol as u8];
    raw.extend(serialize_meta(&frame).unwrap());
    raw.extend(frame.data());
    raw
}

fn response(value: &str) -> RpcMessage {
    let mut msg = RpcMessage::create_request_with_id(3, "a", "m").prepare_response().unwrap();
    msg.set_result(RpcValue::from_cpon(value).unwrap());
    msg
}

fn failure() -> RpcMessage {
    let mut msg = RpcMessage::create_request_with_id(3, "a", "m").prepare_response().unwrap();
    msg.set_error(RpcError::new(RpcErrorCode::MethodNotFound, "no such method"));
    msg
}

fn shown(msg: &RpcMessage, format: &str) -> String {
    String::from_utf8(print_resp(&raw(msg), &OutputFormat::from(format)).unwrap()).unwrap()
}

#[test]
fn formats_are_named() {
    assert_eq!(OutputFormat::from("cpon"), OutputFormat::Cpon);
    assert_eq!(OutputFormat::from("icpon"), OutputFormat::CponIndented);
    assert_eq!(OutputFormat::from("chainpack"), OutputFormat::ChainPack);
    assert_eq!(OutputFormat::from("simple"), OutputFormat::Simple);
    assert_eq!(OutputFormat::from("value"), OutputFormat::Value);
    assert_eq!(OutputFormat::from("Cpon"), OutputFormat::Custom("Cpon".to_string()));
    assert_eq!(OutputFormat::from(""), OutputFormat::Custom(String::new()));
}

#[test]
fn prints_cpon() {
    let msg = response("[1,2]");
    assert_eq!(shown(&msg, "cpon"), "<1:1,8:3>i{2:[1,2]}\n");
    assert_eq!(shown(&msg, "cpon"), format!("{}\n", msg.to_cpon()));
}

#[test]
fn prints_indented_cpon() {
    let msg = response("{\"a\":[1,2,{\"b\":3}]}");
    let expected = msg.as_rpcvalue().to_cpon_indented("\t");
    assert!(expected.contains("\n\t"));
    assert_eq!(shown(&msg, "icpon"), format!("{expected}\n"));
}

#[test]
fn prints_packed_bytes() {
    let msg = response("[1,2]");
    let bytes = print_resp(&raw(&msg), &OutputFormat::ChainPack).unwrap();
    assert_eq!(bytes, msg.to_chainpack());
    assert_eq!(RpcValue::from_chainpack(&bytes).unwrap(), *msg.as_rpcvalue());
}

#[test]
fn prints_simple_lines() {
    assert_eq!(shown(&response("42"), "simple"), "RES 42\n");
    assert_eq!(shown(&failure(), "simple"), format!("ERR {}\n", failure().error().unwrap()));
    let mut rq = RpcMessage::create_request_with_id(1, "p/q", "get");
    assert_eq!(shown(&rq, "simple"), "REQ p/q:get null\n");
    rq.set_param(7);
    assert_eq!(shown(&rq, "simple"), "REQ p/q:get 7\n");
    let mut sig = RpcMessage::new_signal("p/q", "chng");
    sig.set_param("x");
    assert_eq!(shown(&sig, "simple"), "SIG p/q:chng \"x\"\n");
}

#[test]
fn prints_values() {
    assert_eq!(shown(&response("42"), "value"), "42\n");
    assert_eq!(shown(&failure(), "value"), format!("{}\n", failure().error().unwrap()));
    let mut rq = RpcMessage::create_request_with_id(1, "p/q", "get");
    rq.set_param(7);
    assert_eq!(shown(&rq, "value"), "7\n");
    assert_eq!(shown(&RpcMessage::new_signal("p", "chng"), "value"), "null\n");
}

#[test]
fn an_answer_without_a_result_is_null() {
    let msg = RpcMessage::create_request_with_id(3, "a", "m").prepare_response().unwrap();
    assert_eq!(shown(&msg, "value"), "null\n");
}

#[test]
fn fills_in_custom_formats() {
    let mut sig = RpcMessage::new_signal("p/q", "chng");
    sig.set_result(5);
    assert_eq!(
        shown(&sig, "{METHOD} of {PATH}: {VALUE}{VALUE}\\n\\t{PATH}"),
        "chng of p/q: 55\n\tp/q"
    );
    assert_eq!(shown(&response("\"x\""), "[{PATH}|{METHOD}|{VALUE}]"), "[||\"x\"]");
    assert_eq!(shown(&failure(), "{VALUE}"), "null");
    assert_eq!(shown(&response("1"), "no placeholder"), "no placeholder");
    assert_eq!(shown(&response("1"), ""), "");
}

#[test]
fn placeholders_are_filled_in_one_after_another() {
    assert_eq!(write_custom("{PATH}", "{METHOD}", "{VALUE}", "v"), "v");
    assert_eq!(write_custom("{VALUE}", "p", "m", "{PATH}"), "{PATH}");
    assert_eq!(write_custom("{VALUE}", "p", "m", "\"a\\nb\""), "\"a\nb\"");
    assert_eq!(write_custom("{FOO}\\x\\", "p", "m", "v"), "{FOO}\\x\\");
}

#[test]
fn lines_are_written_from_plain_values() {
    let mut meta = FrameMeta { request_id: None, shv_path: None, method: None, seqno: None };
    let result = Ok("r".to_string());
    assert_eq!(write_simple_line(&meta, "p", &result), "SIG : p\n");
    assert_eq!(write_value_line(&meta, "p", &result), "p\n");
    meta.request_id = Some(0);
    assert_eq!(write_simple_line(&meta, "p", &result), "RES r\n");
    assert_eq!(write_value_line(&meta, "p", &result), "r\n");
    assert_eq!(write_simple_line(&meta, "p", &Err("e".to_string())), "ERR e\n");
    assert_eq!(write_value_line(&meta, "p", &Err("e".to_string())), "e\n");
    meta.method = Some("m".to_string());
    assert_eq!(write_simple_line(&meta, "p", &result), "REQ :m p\n");
}

#[test]
fn frames_without_a_message_are_refused() {
    assert_eq!(
        print_resp(&[], &OutputFormat::Cpon).unwrap_err(),
        "FramingError - Empty data cannot be converted to RpcFrame"
    );
    assert_eq!(print_resp(&[0], &OutputFormat::Cpon).unwrap_err(), "Invalid protocol");
    let mut cut = raw(&response("42"));
    cut.pop();
    cut.pop();
    assert!(print_resp(&cut, &OutputFormat::Value).is_err());
    assert!(open_message(&cut).is_err());
    assert_eq!(open_message(&raw(&response("42"))).unwrap().request_id, Some(3));
}

#[test]
fn meta_tags_are_read_from_the_message() {
    let mut msg = response("1");
    msg.set_seqno(9);
    assert_eq!(open_message(&raw(&msg)).unwrap().seqno, Some(9));
}
