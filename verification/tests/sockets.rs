use shvcall::socket::{
    create_request, deliver, process_broker_to_socket_frame, process_socket_to_broker_data,
    read_bytes, read_string, read_tunnel_number, warn_about_seqno, write_request, Delivery, Phase,
    SocketAction, TunnelSocket, CREATE_TIMEOUT_SECS, READ_SIZE,
};
use shvcall::wire::{Param, Request};
use shvproto::RpcValue;
use shvrpc::framerw::serialize_meta;
use shvrpc::rpcmessage::{RpcError, RpcErrorCode};
use shvrpc::{RpcMessage, RpcMessageMetaTags};

fn raw(msg: &RpcMessage) -> Vec<u8> {
    let frame = msg.to_frame().unwrap();
    let mut raw = vec![frame.protocol as u8];
    raw.extend(serialize_meta(&frame).unwrap());
    raw.extend(frame.data());
    raw
}

fn answer(request_id: i64, seqno: Option<u64>, value: RpcValue) -> Vec<u8> {
    let rq = RpcMessage::create_request_with_id(request_id, "a", "m");
    let mut msg = rq.prepare_response().unwrap();
    if let Some(seqno) = seqno {
        msg.set_seqno(seqno);
    }
    msg.set_result(value);
    raw(&msg)
}

fn data(request_id: i64, seqno: Option<u64>, bytes: &[u8]) -> Vec<u8> {
    answer(request_id, seqno, RpcValue::from(bytes))
}

fn failure(request_id: i64) -> (Vec<u8>, String) {
    let rq = RpcMessage::create_request_with_id(request_id, "a", "m");
    let mut msg = rq.prepare_response().unwrap();
    msg.set_error(RpcError::new(RpcErrorCode::MethodCallException, "closed"));
    (raw(&msg), msg.error().unwrap().to_string())
}

fn write(seqno: u64, bytes: Option<&[u8]>) -> Request {
    Request {
        request_id: 2,
        seqno: Some(seqno),
        path: ".app/tunnel/7".to_string(),
        method: "write".to_string(),
        param: match bytes {
            Some(b) => Param::Blob(b.to_vec()),
            None => Param::Absent,
        },
    }
}

fn open() -> TunnelSocket {
    let (mut socket, _) = TunnelSocket::start(1, 2, "h:22");
    let action = socket.on_frame(&answer(1, None, RpcValue::from("7"))).unwrap();
    assert_eq!(action, SocketAction::Send(write(0, None)));
    socket
}

#[test]
fn a_tunnel_is_opened() {
    let (mut socket, request) = TunnelSocket::start(1, 2, "some.host.org:22");
    assert_eq!(request, create_request(1, "some.host.org:22"));
    assert_eq!(
        request,
        Request {
            request_id: 1,
            seqno: None,
            path: ".app/tunnel".to_string(),
            method: "create".to_string(),
            param: Param::Entry("host".to_string(), "some.host.org:22".to_string())
        }
    );
    assert_eq!(socket.phase, Phase::Creating);
    assert_eq!(socket.on_frame(&answer(2, None, RpcValue::from("9"))), Some(SocketAction::Wait));
    assert_eq!(socket.phase, Phase::Creating);
    assert_eq!(
        socket.on_frame(&answer(1, None, RpcValue::from("7"))),
        Some(SocketAction::Send(write(0, None)))
    );
    assert_eq!(socket.phase, Phase::Open { tunid: 7, expected: 0, next: 1 });
}

#[test]
fn a_tunnel_that_is_refused_fails() {
    let (mut socket, _) = TunnelSocket::start(1, 2, "h:22");
    let (frame, error) = failure(1);
    assert_eq!(socket.on_frame(&frame), Some(SocketAction::Fail(error)));
    assert_eq!(socket.phase, Phase::Closed);
    let (mut socket, _) = TunnelSocket::start(1, 2, "h:22");
    assert_eq!(
        socket.on_frame(&answer(1, None, RpcValue::from("x"))),
        Some(SocketAction::Fail("invalid digit found in string".to_string()))
    );
    let (mut socket, _) = TunnelSocket::start(1, 2, "h:22");
    assert_eq!(
        socket.on_frame(&answer(1, None, RpcValue::from(7))),
        Some(SocketAction::Fail("cannot parse integer from empty string".to_string()))
    );
    let (mut socket, _) = TunnelSocket::start(1, 2, "h:22");
    assert_eq!(socket.on_end("gone"), SocketAction::Fail("gone".to_string()));
    let (mut socket, _) = TunnelSocket::start(1, 2, "h:22");
    assert!(matches!(socket.on_frame(&[]), Some(SocketAction::Fail(_))));
}

#[test]
fn opening_is_given_up_after_ten_seconds() {
    let (mut socket, _) = TunnelSocket::start(1, 2, "h:22");
    assert_eq!(CREATE_TIMEOUT_SECS, 10);
    for id in [2, 3, 0] {
        assert_eq!(socket.wait_secs(), Some(10));
        assert_eq!(socket.on_frame(&data(id, Some(0), b"x")), Some(SocketAction::Wait));
        assert_eq!(socket.phase, Phase::Creating);
    }
    assert_eq!(socket.on_timeout(9, "future timed out"), SocketAction::Wait);
    assert_eq!(socket.phase, Phase::Creating);
    assert_eq!(
        socket.on_timeout(10, "future timed out"),
        SocketAction::Fail("Creating tunnel timeout: future timed out".to_string())
    );
    assert_eq!(socket.phase, Phase::Closed);
    assert_eq!(socket.wait_secs(), None);
    assert_eq!(socket.on_timeout(10, "future timed out"), SocketAction::Wait);
}

#[test]
fn open_tunnels_wait_without_limit() {
    let mut socket = open();
    let before = socket;
    assert_eq!(socket.wait_secs(), None);
    assert_eq!(socket.on_timeout(u64::MAX, "future timed out"), SocketAction::Wait);
    assert_eq!(socket, before);
}

#[test]
fn the_answer_names_the_tunnel() {
    assert_eq!(read_tunnel_number(Ok("12".to_string())), Ok(12));
    assert_eq!(
        read_tunnel_number(Ok("18446744073709551616".to_string())),
        Err("number too large to fit in target type".to_string())
    );
    assert_eq!(read_tunnel_number(Err("e".to_string())), Err("e".to_string()));
    let mut socket = TunnelSocket { create_rqid: 1, write_rqid: 2, phase: Phase::Creating };
    assert_eq!(socket.on_created(Ok("7".to_string())), SocketAction::Send(write(0, None)));
    assert_eq!(socket.on_created(Err("e".to_string())), SocketAction::Fail("e".to_string()));
    assert_eq!(socket.phase, Phase::Closed);
}

#[test]
fn chunks_are_sent_under_consecutive_numbers() {
    let mut socket = open();
    for (i, chunk) in ["a", "bc", "def"].iter().enumerate() {
        assert_eq!(
            socket.on_data(chunk.as_bytes()),
            Some(SocketAction::Send(write(i as u64 + 1, Some(chunk.as_bytes()))))
        );
    }
    assert_eq!(socket.phase, Phase::Open { tunid: 7, expected: 0, next: 4 });
    assert_eq!(socket.on_data(&[]), Some(SocketAction::Finish));
    assert_eq!(socket.phase, Phase::Closed);
}

#[test]
fn numbers_run_out() {
    let phase = Phase::Open { tunid: 7, expected: 0, next: u64::MAX };
    let mut socket = TunnelSocket { create_rqid: 1, write_rqid: 2, phase };
    assert_eq!(socket.on_data(b"x"), None);
    assert_eq!(socket.phase, phase);
    assert_eq!(socket.on_frame(&data(2, Some(u64::MAX), b"x")), None);
    assert_eq!(socket.phase, phase);
    assert_eq!(process_broker_to_socket_frame(2, 5, &data(2, Some(u64::MAX), b"x")), None);
    let (request, next) = process_socket_to_broker_data(7, u64::MAX - 1, 2, b"x");
    assert_eq!(request, write(u64::MAX - 1, Some(b"x")));
    assert_eq!(next, u64::MAX);
}

#[test]
fn data_is_delivered_in_the_order_of_its_numbers() {
    let mut socket = open();
    let mut written: Vec<u8> = Vec::new();
    let frames = [
        data(2, Some(0), b"a"),
        data(2, Some(1), b"b"),
        data(2, Some(1), b"B"),
        data(3, Some(2), b"X"),
        data(2, None, b"Y"),
        data(2, Some(5), b"c"),
        data(2, Some(4), b"Z"),
        data(2, Some(6), b"d"),
    ];
    for frame in frames {
        match socket.on_frame(&frame) {
            Some(SocketAction::Deliver(d)) => written.extend(d.data.unwrap_or_default()),
            other => panic!("{other:?}"),
        }
    }
    assert_eq!(written, b"abcd");
    assert_eq!(socket.phase, Phase::Open { tunid: 7, expected: 7, next: 1 });
}

#[test]
fn foreign_frames_change_nothing() {
    let mut socket = open();
    let before = socket;
    assert_eq!(
        socket.on_frame(&data(9, Some(3), b"x")),
        Some(SocketAction::Deliver(Delivery { next_seqno: 0, data: None, warning: None }))
    );
    assert_eq!(socket, before);
}

#[test]
fn a_failed_read_ends_the_connection() {
    let (frame, error) = failure(2);
    let mut socket = open();
    assert_eq!(socket.on_frame(&frame), Some(SocketAction::Fail(error.clone())));
    assert_eq!(socket.phase, Phase::Closed);
    assert_eq!(process_broker_to_socket_frame(2, 0, &frame), Some(Err(error)));
    assert!(matches!(process_broker_to_socket_frame(2, 0, &[0]), Some(Ok(_))));
    assert!(matches!(process_broker_to_socket_frame(0, 0, &[0]), Some(Err(_))));
    assert!(matches!(process_broker_to_socket_frame(2, 0, &[]), Some(Err(_))));
}

#[test]
fn the_end_of_frames_ends_an_open_connection() {
    let mut socket = open();
    assert_eq!(socket.on_end("gone"), SocketAction::Finish);
    assert_eq!(socket.phase, Phase::Closed);
    assert_eq!(socket.on_end("gone"), SocketAction::Wait);
    assert_eq!(socket.on_data(b"x"), Some(SocketAction::Wait));
    assert_eq!(socket.on_frame(&data(2, Some(0), b"x")), Some(SocketAction::Wait));
    assert_eq!(socket.phase, Phase::Closed);
}

#[test]
fn deliveries_depend_on_the_number() {
    let x = vec![1, 2];
    assert_eq!(
        deliver(3, Some(3), x.clone()),
        Delivery { next_seqno: 4, data: Some(x.clone()), warning: None }
    );
    assert_eq!(
        deliver(3, Some(5), x.clone()),
        Delivery {
            next_seqno: 6,
            data: Some(x.clone()),
            warning: Some("Seqno: 5 greater than expected: 3, some data was lost!.".to_string())
        }
    );
    assert_eq!(
        deliver(3, Some(2), x.clone()),
        Delivery {
            next_seqno: 3,
            data: None,
            warning: Some(
                "Seqno: 2 received already, expected value: 3, ignoring data.".to_string()
            )
        }
    );
    assert_eq!(
        deliver(3, None, x),
        Delivery {
            next_seqno: 3,
            data: None,
            warning: Some("Seqno not received, ignoring data.".to_string())
        }
    );
    assert_eq!(warn_about_seqno(1, Some(1)), None);
}

#[test]
fn results_are_read_from_frames() {
    assert_eq!(read_string(&answer(1, None, RpcValue::from("id"))), Ok("id".to_string()));
    assert_eq!(read_string(&answer(1, None, RpcValue::from(1))), Ok(String::new()));
    assert_eq!(read_bytes(&data(1, None, &[0, 255])), Ok(vec![0, 255]));
    assert_eq!(read_bytes(&answer(1, None, RpcValue::from("id"))), Ok(vec![]));
    let (frame, error) = failure(1);
    assert_eq!(read_string(&frame), Err(error.clone()));
    assert_eq!(read_bytes(&frame), Err(error));
    assert_eq!(read_string(&[0]), Err("Invalid protocol".to_string()));
    assert_eq!(read_bytes(&[0]), Err("Invalid protocol".to_string()));
}

#[test]
fn writes_go_to_the_path_of_the_tunnel() {
    let request = write_request(5, None, "x1", Some(b"abc"));
    assert_eq!(
        request,
        Request {
            request_id: 5,
            seqno: None,
            path: ".app/tunnel/x1".to_string(),
            method: "write".to_string(),
            param: Param::Blob(b"abc".to_vec())
        }
    );
}

#[test]
fn all_bytes_of_the_socket_are_sent() {
    let mut socket = open();
    let bytes: Vec<u8> = (0..3000).map(|i| i as u8).collect();
    let mut sent = Vec::new();
    for (i, chunk) in bytes.chunks(READ_SIZE).enumerate() {
        let Some(SocketAction::Send(rq)) = socket.on_data(chunk) else {
            panic!("nothing to send");
        };
        assert_eq!(rq, write(i as u64 + 1, Some(chunk)));
        let Param::Blob(data) = rq.param else {
            panic!("no data");
        };
        assert!(!data.is_empty() && data.len() <= READ_SIZE);
        sent.extend(data);
    }
    assert_eq!(READ_SIZE, 1024);
    assert_eq!(sent, bytes);
}

#[test]
fn carried_data_is_numbered() {
    let mut seqno = 40;
    for (i, bytes) in [b"a".as_slice(), b"bc", b"def"].into_iter().enumerate() {
        let (rq, next) = process_socket_to_broker_data(7, seqno, 2, bytes);
        assert_eq!(rq, write(40 + i as u64, Some(bytes)));
        seqno = next;
    }
    assert_eq!(seqno, 43);
}
