use shvcall::cpon::is_packable;
use shvcall::wire::{read_frame, FrameMeta, Param, Request};
use shvproto::RpcValue;
use shvrpc::{RpcFrame, RpcMessage, RpcMessageMetaTags};

fn request(param: Param) -> Request {
    Request {
        request_id: 12,
        seqno: None,
        path: "test/device".to_string(),
        method: "get".to_string(),
        param,
    }
}

fn message(raw: &[u8]) -> RpcMessage {
    RpcFrame::from_raw_data(raw.to_vec()).unwrap().to_rpcmesage().unwrap()
}

#[test]
fn a_request_is_packed_as_the_broker_reads_it() {
    let raw = request(Param::Cpon("[1,\"x\",2.5]".to_string())).to_frame().unwrap();
    let msg = message(&raw);
    assert!(msg.is_request());
    assert_eq!(msg.request_id(), Some(12));
    assert_eq!(msg.shv_path(), Some("test/device"));
    assert_eq!(msg.method(), Some("get"));
    assert_eq!(msg.seqno(), None);
    assert_eq!(msg.param(), Some(&RpcValue::from_cpon("[1,\"x\",2.5]").unwrap()));
}

#[test]
fn a_request_without_a_parameter_has_none() {
    let msg = message(&request(Param::Absent).to_frame().unwrap());
    assert!(msg.param().is_none());
}

#[test]
fn a_map_entry_and_a_blob_are_packed() {
    let entry = Param::Entry("host".to_string(), "h:22".to_string());
    let msg = message(&request(entry).to_frame().unwrap());
    assert_eq!(msg.param().unwrap().to_cpon(), "{\"host\":\"h:22\"}");
    let msg = message(&request(Param::Blob(vec![0, 255, 7])).to_frame().unwrap());
    assert_eq!(msg.param().unwrap().as_blob(), &[0, 255, 7]);
}

#[test]
fn the_meta_data_of_a_request_reads_back() {
    for seqno in [None, Some(0), Some(63), Some(64), Some(u64::MAX)] {
        for request_id in [0, 1, 63, 64, -1, i64::MAX, i64::MIN + 1] {
            for path in ["", "a", "příliš/žluť"] {
                for param in [Param::Absent, Param::Blob(vec![1]), Param::Cpon("1u".to_string())] {
                    let rq = Request {
                        request_id,
                        seqno,
                        path: path.to_string(),
                        method: "write".to_string(),
                        param,
                    };
                    let meta = read_frame(&rq.to_frame().unwrap()).unwrap();
                    assert_eq!(meta.request_id, Some(request_id));
                    assert_eq!(meta.seqno, seqno);
                    assert_eq!(meta.shv_path.is_none(), path.is_empty());
                    assert_eq!(meta.path(), path);
                    assert_eq!(meta.method_name(), "write");
                    assert!(meta.is_request());
                    assert!(!meta.is_response());
                }
            }
        }
    }
}

#[test]
fn a_parameter_that_is_no_cpon_is_refused() {
    let rq = request(Param::Cpon("[1,".to_string()));
    let error = RpcValue::from_cpon("[1,").unwrap_err().to_string();
    assert_eq!(rq.to_frame(), Err(error.clone()));
    assert_eq!(rq.try_to_frame(), Some(Err(error)));
}

#[test]
fn the_lowest_number_cannot_be_packed() {
    assert!(!is_packable("-9223372036854775808"));
    assert!(!is_packable("[1, {\"a\": -99999999999999999999}]"));
    assert!(is_packable("-9223372036854775807"));
    assert!(is_packable("\"-9223372036854775808\""));
    assert!(is_packable("\"a\\\"-9223372036854775808\\\"\""));
    assert!(is_packable("not cpon"));
    assert_eq!(request(Param::Cpon("-9223372036854775808".to_string())).try_to_frame(), None);
    let quoted = request(Param::Cpon("\"x -9223372036854775808\"".to_string()));
    let msg = message(&quoted.try_to_frame().unwrap().unwrap());
    assert_eq!(msg.param().unwrap().as_str(), "x -9223372036854775808");
}

#[test]
fn bytes_that_are_no_frame_are_refused() {
    assert_eq!(
        read_frame(&[]).unwrap_err(),
        "FramingError - Empty data cannot be converted to RpcFrame"
    );
    assert_eq!(
        read_frame(&[7]).unwrap_err(),
        "FramingError - Invalid protocol type received 0x7."
    );
}

#[test]
fn a_session_reset_has_no_meta_data() {
    let meta = read_frame(&[0]).unwrap();
    assert!(meta.request_id.is_none() && meta.method.is_none());
    assert_eq!(meta.id(), 0);
}

#[test]
fn kinds_of_frames_are_told_apart() {
    let meta = |request_id: Option<i64>, method: Option<&str>| FrameMeta {
        request_id,
        shv_path: None,
        method: method.map(str::to_owned),
        seqno: None,
    };
    assert!(meta(Some(1), Some("m")).is_request());
    assert!(!meta(Some(1), Some("m")).is_response());
    assert!(meta(Some(1), None).is_response());
    assert!(!meta(Some(1), None).is_request());
    assert!(!meta(None, Some("m")).is_request());
    assert!(!meta(None, Some("m")).is_response());
    assert_eq!(meta(None, None).path(), "");
    assert_eq!(meta(None, None).method_name(), "");
}
