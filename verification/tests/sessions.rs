use shvcall::output::OutputFormat;
use shvcall::session::{Session, SessionAction};
use shvcall::wire::read_frame;
use shvrpc::framerw::serialize_meta;
use shvrpc::RpcMessage;

fn raw(msg: &RpcMessage) -> Vec<u8> {
    let frame = msg.to_frame().unwrap();
    let mut raw = vec![frame.protocol as u8];
    raw.extend(serialize_meta(&frame).unwrap());
    raw.extend(frame.data());
    raw
}

fn answer(request_id: i64, value: i64) -> Vec<u8> {
    let rq = RpcMessage::create_request_with_id(request_id, "a", "m");
    let mut msg = rq.prepare_response().unwrap();
    msg.set_result(value);
    raw(&msg)
}

#[test]
fn a_session_waits_for_the_answer() {
    let mut session = Session::start(true);
    assert_eq!(session, Session { terminal: true, waiting: None });
    let Some(SessionAction::Send(frame)) = session.on_line("a:get 1", 4) else {
        panic!("no call");
    };
    assert_eq!(read_frame(&frame).unwrap().request_id, Some(4));
    assert_eq!(session.waiting, Some(4));
    let action = session.on_frame(&answer(3, 10), 4, &OutputFormat::Value);
    assert_eq!(action, SessionAction::Print(b"10\n".to_vec()));
    assert_eq!(session.waiting, Some(4));
    let action = session.on_frame(&answer(4, 20), 4, &OutputFormat::Value);
    assert_eq!(action, SessionAction::Print(b"20\n".to_vec()));
    assert_eq!(session.waiting, None);
}

#[test]
fn a_frame_without_a_message_ends_a_session() {
    let mut session = Session { terminal: false, waiting: Some(4) };
    let action = session.on_frame(&[0], 4, &OutputFormat::Value);
    assert_eq!(action, SessionAction::Fail("Invalid protocol".to_string()));
}

#[test]
fn a_mistyped_line_is_shown_or_ends_a_script() {
    let error = "Invalid line format, method not found: ls".to_string();
    let mut session = Session::start(true);
    assert_eq!(session.on_line("ls", 1), Some(SessionAction::Show(error.clone())));
    assert_eq!(session.waiting, None);
    let mut session = Session::start(false);
    assert_eq!(session.on_line("ls", 1), Some(SessionAction::Fail(error)));
}

#[test]
fn a_bad_parameter_ends_a_session() {
    for terminal in [false, true] {
        let mut session = Session::start(terminal);
        assert!(matches!(session.on_line("a:b {", 1), Some(SessionAction::Fail(_))));
        assert_eq!(session.on_line("a:b -9223372036854775808", 1), None);
        assert_eq!(session.waiting, None);
    }
}

/// Runs a session on lines and frames and gives the request ids that are sent, with what is
/// printed behind each.
fn run(lines: &[(&str, i64)], frames: &[Vec<u8>]) -> Vec<(i64, String)> {
    let mut session = Session::start(false);
    let mut frames = frames.iter();
    let mut done = Vec::new();
    for (line, id) in lines {
        let Some(SessionAction::Send(frame)) = session.on_line(line, *id) else {
            panic!("no call");
        };
        let mut shown = String::new();
        while let Some(waiting) = session.waiting {
            let SessionAction::Print(bytes) =
                session.on_frame(frames.next().unwrap(), waiting, &OutputFormat::Value)
            else {
                panic!("nothing to print");
            };
            shown.push_str(&String::from_utf8(bytes).unwrap());
        }
        done.push((read_frame(&frame).unwrap().request_id.unwrap(), shown));
    }
    assert!(frames.next().is_none());
    assert_eq!(session.on_input_end(), SessionAction::Finish(None));
    done
}

#[test]
fn a_session_is_a_dialogue() {
    let frames = [answer(9, 1), answer(5, 2), answer(6, 3), answer(5, 4), answer(7, 5)];
    let done = run(&[("a:x", 5), ("a:y", 6), ("a:z 1", 7)], &frames);
    assert_eq!(
        done,
        vec![
            (5, "1\n2\n".to_string()),
            (6, "3\n".to_string()),
            (7, "4\n5\n".to_string()),
        ]
    );
    assert_eq!(run(&[], &[]), vec![]);
}

#[test]
fn unreadable_lines_end_a_session() {
    assert_eq!(
        Session::start(true).on_input_error("IO"),
        SessionAction::Finish(Some("readline error: IO".to_string()))
    );
    assert_eq!(
        Session::start(false).on_input_error("IO"),
        SessionAction::Fail("Read line error: IO".to_string())
    );
}
