use shvcall::tunnel::{
    parse_tunnel, retain_open, route, split_quoted, ServerAction, Tunnel, TunnelServer, TunnelSpec,
};
use shvcall::wire::FrameMeta;
use shvrpc::framerw::serialize_meta;
use shvrpc::RpcMessage;

fn raw(msg: &RpcMessage) -> Vec<u8> {
    let frame = msg.to_frame().unwrap();
    let mut raw = vec![frame.protocol as u8];
    raw.extend(serialize_meta(&frame).unwrap());
    raw.extend(frame.data());
    raw
}

fn tunnel(create_rqid: i64, write_rqid: i64, frame_sender: char) -> Tunnel<char> {
    Tunnel { create_rqid, write_rqid, frame_sender }
}

fn with_id(request_id: Option<i64>) -> FrameMeta {
    FrameMeta { request_id, shv_path: None, method: None, seqno: None }
}

#[test]
fn colons_in_brackets_do_not_split() {
    assert_eq!(split_quoted("2222:some.host.org:22"), vec!["2222", "some.host.org", "22"]);
    assert_eq!(split_quoted("[::1]:2222:[fe80::1]:22"), vec!["[::1]", "2222", "[fe80::1]", "22"]);
    assert_eq!(split_quoted(""), vec![""]);
    assert_eq!(split_quoted(":"), vec!["", ""]);
    assert_eq!(split_quoted("a[b:c"), vec!["a[b:c"]);
    assert_eq!(split_quoted("a]b:c"), vec!["a]b", "c"]);
    assert_eq!(split_quoted("[a[b]:c]"), vec!["[a[b]", "c]"]);
}

#[test]
fn the_parts_join_to_the_text() {
    for s in ["", "a", ":::", "[::1]:1:h:2", "[a:b", "ů:[ů:ů]:ů"] {
        assert_eq!(split_quoted(s).join(":"), s);
    }
}

#[test]
fn joined_parts_split_again() {
    let parts = vec!["", "[::1]", "2222", "x[a:b]y", "h"];
    let text = parts.join(":");
    assert_eq!(split_quoted(&text), parts);
}

#[test]
fn tunnel_options_are_read() {
    assert_eq!(
        parse_tunnel("2222:some.host.org:22"),
        Ok(TunnelSpec {
            local_host: "127.0.0.1".to_string(),
            local_port: 2222,
            remote: "some.host.org:22".to_string()
        })
    );
    let spec = parse_tunnel("[::1]:2222:[fe80::1]:22").unwrap();
    assert_eq!(spec.local_host, "[::1]");
    assert_eq!(spec.remote, "[fe80::1]:22");
    assert_eq!(spec.local_address(), "[::1]:2222");
    assert_eq!(parse_tunnel(":8080:h:80").unwrap().local_address(), "0.0.0.0:8080");
    assert_eq!(parse_tunnel("8080::").unwrap().remote, ":");
    assert_eq!(parse_tunnel("-1:h:80").unwrap().local_address(), "127.0.0.1:-1");
}

#[test]
fn bad_tunnel_options_are_refused() {
    assert_eq!(
        parse_tunnel("2222:host"),
        Err("Invalid tunnel specification: 2222:host".to_string())
    );
    assert_eq!(
        parse_tunnel("a:1:b:2:c"),
        Err("Invalid tunnel specification: a:1:b:2:c".to_string())
    );
    assert_eq!(parse_tunnel("x:h:1"), Err("invalid digit found in string".to_string()));
    assert_eq!(parse_tunnel(":h:1"), Err("cannot parse integer from empty string".to_string()));
    assert_eq!(
        parse_tunnel("3000000000:h:1"),
        Err("number too large to fit in target type".to_string())
    );
    assert_eq!(
        parse_tunnel("-3000000000:h:1"),
        Err("number too small to fit in target type".to_string())
    );
}

#[test]
fn frames_go_to_the_tunnel_of_their_id() {
    let tunnels = vec![tunnel(1, 2, 'a'), tunnel(3, 4, 'b')];
    assert_eq!(route(&tunnels, &with_id(Some(1))), Some(0));
    assert_eq!(route(&tunnels, &with_id(Some(2))), Some(0));
    assert_eq!(route(&tunnels, &with_id(Some(3))), Some(1));
    assert_eq!(route(&tunnels, &with_id(Some(4))), Some(1));
    assert_eq!(route(&tunnels, &with_id(Some(5))), None);
    assert_eq!(route(&tunnels, &with_id(None)), None);
    let same = vec![tunnel(1, 2, 'a'), tunnel(2, 0, 'b')];
    assert_eq!(route(&same, &with_id(Some(2))), Some(0));
    assert_eq!(route(&same, &with_id(None)), Some(1));
}

fn response(request_id: i64) -> Vec<u8> {
    let rq = RpcMessage::create_request_with_id(request_id, "a", "m");
    raw(&rq.prepare_response().unwrap())
}

fn senders(tunnels: &[Tunnel<char>]) -> Vec<char> {
    tunnels.iter().map(|t| t.frame_sender).collect()
}

fn server() -> TunnelServer<char> {
    let mut server = TunnelServer::start();
    assert!(server.running);
    assert!(server.tunnels.is_empty());
    server.on_connection(1, 2, 'a');
    server.on_connection(3, 4, 'b');
    server
}

#[test]
fn packed_frames_are_routed() {
    let mut server = server();
    assert_eq!(server.on_frame(&response(4)), ServerAction::Forward(1));
    assert_eq!(server.on_frame(&response(1)), ServerAction::Forward(0));
    assert_eq!(server.on_frame(&response(5)), ServerAction::Wait);
    assert_eq!(server.on_frame(&raw(&RpcMessage::new_signal("a", "b"))), ServerAction::Wait);
    assert!(server.running);
}

#[test]
fn open_tunnels_are_kept() {
    let mut tunnels = vec![tunnel(1, 2, 'a'), tunnel(3, 4, 'b'), tunnel(5, 6, 'c')];
    retain_open(&mut tunnels, &vec![false, false, false]);
    assert_eq!(senders(&tunnels), vec!['a', 'b', 'c']);
    retain_open(&mut tunnels, &vec![false, true, false]);
    assert_eq!(senders(&tunnels), vec!['a', 'c']);
    retain_open(&mut tunnels, &vec![true, true]);
    assert!(tunnels.is_empty());
    retain_open(&mut tunnels, &vec![]);
    assert!(tunnels.is_empty());
}

#[test]
fn frames_reach_an_open_tunnel_again_and_again() {
    let mut server = server();
    assert_eq!(server.on_frame(&response(3)), ServerAction::Forward(1));
    server.on_frame_done(&vec![false, false]);
    assert_eq!(server.on_frame(&response(4)), ServerAction::Forward(1));
    server.on_frame_done(&vec![true, false]);
    assert_eq!(senders(&server.tunnels), vec!['b']);
    assert_eq!(server.on_frame(&response(4)), ServerAction::Forward(0));
    server.on_frame_done(&vec![false]);
    assert_eq!(server.on_frame(&response(2)), ServerAction::Wait);
    server.on_frame_done(&vec![true]);
    assert_eq!(server.on_frame(&response(4)), ServerAction::Wait);
    assert!(server.running);
}

#[test]
fn frames_reach_an_open_tunnel_between_new_connections() {
    let mut server = TunnelServer::start();
    server.on_connection(1, 2, 'a');
    assert_eq!(server.on_frame(&response(1)), ServerAction::Forward(0));
    server.on_frame_done(&vec![false]);
    server.on_connection(3, 4, 'b');
    assert_eq!(server.on_frame(&response(2)), ServerAction::Forward(0));
    server.on_frame_done(&vec![true, false]);
    server.on_connection(5, 6, 'c');
    assert_eq!(server.on_frame(&response(4)), ServerAction::Forward(0));
    assert_eq!(server.tunnels[0].frame_sender, 'b');
    server.on_frame_done(&vec![false, false]);
    assert_eq!(server.on_frame(&response(6)), ServerAction::Forward(1));
    assert_eq!(server.on_frame(&response(3)), ServerAction::Forward(0));
    assert_eq!(senders(&server.tunnels), vec!['b', 'c']);
}

#[test]
fn bytes_that_are_no_frame_end_the_server() {
    let mut server = server();
    assert_eq!(
        server.on_frame(&[]),
        ServerAction::Finish(Some(
            "Get response receiver error: FramingError - Empty data cannot be converted to RpcFrame"
                .to_string()
        ))
    );
    assert!(!server.running);
    assert_eq!(senders(&server.tunnels), vec!['a', 'b']);
}

#[test]
fn a_server_ends_well_or_with_an_error() {
    let mut ended = server();
    assert_eq!(ended.on_no_connection(), ServerAction::Finish(None));
    assert!(!ended.running);
    let mut ended = server();
    assert_eq!(
        ended.on_read_error("gone"),
        ServerAction::Finish(Some("Get response receiver error: gone".to_string()))
    );
    assert!(!ended.running);
    let mut ended = server();
    assert_eq!(ended.on_write_error("broken pipe"), ServerAction::Fail("broken pipe".to_string()));
    assert!(!ended.running);
}
