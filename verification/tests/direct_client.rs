use shvcall::call::CallPlan;
use shvcall::direct::{find_format, parse_tunnel, plan_call, DirectAction, DirectSocket};
use shvcall::output::OutputFormat;
use shvcall::socket::write_request;
use shvproto::RpcValue;
use shvrpc::framerw::serialize_meta;
use shvrpc::RpcMessage;

fn some(s: &str) -> Option<String> {
    Some(s.to_string())
}

fn single(path: &str, method: &str, param: &str) -> CallPlan {
    CallPlan::Single {
        path: path.to_string(),
        method: method.to_string(),
        param: param.to_string(),
    }
}

fn data(bytes: &[u8]) -> Vec<u8> {
    let rq = RpcMessage::create_request_with_id(2, "a", "m");
    let mut msg = rq.prepare_response().unwrap();
    msg.set_result(RpcValue::from(bytes));
    let frame = msg.to_frame().unwrap();
    let mut raw = vec![frame.protocol as u8];
    raw.extend(serialize_meta(&frame).unwrap());
    raw.extend(frame.data());
    raw
}

#[test]
fn there_is_no_indented_format() {
    assert_eq!(find_format("icpon"), OutputFormat::Custom("icpon".to_string()));
    assert_eq!(find_format("cpon"), OutputFormat::Cpon);
    assert_eq!(find_format("chainpack"), OutputFormat::ChainPack);
    assert_eq!(find_format("simple"), OutputFormat::Simple);
    assert_eq!(find_format("value"), OutputFormat::Value);
    assert_eq!(find_format("{VALUE}"), OutputFormat::Custom("{VALUE}".to_string()));
}

#[test]
fn a_path_may_be_given_apart() {
    assert_eq!(plan_call(&None, &None, &some("1")), Ok(CallPlan::Interactive));
    assert_eq!(
        plan_call(&some("p"), &None, &None),
        Err("--method parameter missing".to_string())
    );
    assert_eq!(plan_call(&some("p"), &some("m"), &some("1")), Ok(single("p", "m", "1")));
    assert_eq!(plan_call(&None, &some("m"), &None), Ok(single("", "m", "")));
    assert_eq!(plan_call(&some("p"), &some("q:m:n"), &None), Ok(single("q", "m:n", "")));
}

#[test]
fn direct_tunnel_options_are_read() {
    let spec = parse_tunnel("2222:some.host.org:22").unwrap();
    assert_eq!(spec.local_address(), "127.0.0.1:2222");
    assert_eq!(spec.remote, "some.host.org:22");
    assert_eq!(parse_tunnel("1:h:2:x:y").unwrap().remote, "h:2");
    assert_eq!(parse_tunnel("2222"), Err("Host must be specified".to_string()));
    assert_eq!(parse_tunnel(""), Err("Host must be specified".to_string()));
    assert_eq!(parse_tunnel("2222:h"), Err("Remote port must be specified".to_string()));
    assert_eq!(parse_tunnel("x:h:1"), Err("invalid digit found in string".to_string()));
}

#[test]
fn a_direct_connection_carries_data() {
    let (mut socket, request) = DirectSocket::start(1, "h:22");
    assert_eq!(request.request_id, 1);
    assert_eq!(request.method, "create");
    assert_eq!(
        socket.on_created(Ok("x1".to_string()), 2),
        DirectAction::Send(write_request(2, None, "x1", None))
    );
    assert_eq!(socket, DirectSocket::Open("x1".to_string()));
    assert_eq!(
        socket.on_data(b"abc", 3),
        DirectAction::Send(write_request(3, None, "x1", Some(b"abc")))
    );
    assert_eq!(socket.on_frame(&data(b"def")), DirectAction::Write(b"def".to_vec()));
    assert_eq!(socket.on_data(&[], 4), DirectAction::Finish);
    assert_eq!(socket, DirectSocket::Closed);
    assert_eq!(socket.on_data(b"abc", 5), DirectAction::Wait);
    assert_eq!(socket.on_frame(&data(b"def")), DirectAction::Wait);
    assert_eq!(socket.on_end("gone"), DirectAction::Wait);
}

#[test]
fn a_direct_connection_fails() {
    let mut socket = DirectSocket::Creating;
    assert_eq!(socket.on_created(Err("e".to_string()), 2), DirectAction::Fail("e".to_string()));
    assert_eq!(socket, DirectSocket::Closed);
    let mut socket = DirectSocket::Creating;
    assert_eq!(socket.on_end("gone"), DirectAction::Fail("gone".to_string()));
    let mut socket = DirectSocket::Open("x".to_string());
    assert_eq!(socket.on_end("gone"), DirectAction::Finish);
    let mut socket = DirectSocket::Open("x".to_string());
    assert_eq!(socket.on_frame(&[0]), DirectAction::Fail("Invalid protocol".to_string()));
    let mut socket = DirectSocket::Open("x".to_string());
    assert_eq!(socket.on_bytes(Err("e".to_string())), DirectAction::Fail("e".to_string()));
    assert_eq!(socket, DirectSocket::Closed);
}
