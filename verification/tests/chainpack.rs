use shvcall::call::{on_single_frame, on_typed_frame, Step};
use shvcall::chainpack::{does_frame_overflow, does_meta_overflow};
use shvcall::output::{print_resp, OutputFormat};
use shvcall::socket::{read_bytes, read_string};
use shvcall::wire::read_frame;
use shvrpc::framerw::serialize_meta;
use shvrpc::{RpcFrame, RpcMessage};

/// A date whose milliseconds run over when the start of its calendar is added.
const BAD_DATE: [u8; 10] = [0x8d, 0xf4, 0x00, 0x83, 0x12, 0x6e, 0x97, 0x8d, 0x4f, 0xde];

/// The latest date whose milliseconds do not run over.
const LAST_DATE: [u8; 10] = [0x8d, 0xf4, 0x00, 0x83, 0x12, 0x6d, 0x2d, 0xbe, 0xa7, 0xde];

/// The date behind it.
const NEXT_DATE: [u8; 10] = [0x8d, 0xf4, 0x00, 0x83, 0x12, 0x6d, 0x2d, 0xbe, 0xa7, 0xe2];

/// The frame of a response with these bytes for its result.
fn response(request_id: i64, result: &[u8]) -> Vec<u8> {
    let rq = RpcMessage::create_request_with_id(request_id, "a", "m");
    let mut msg = rq.prepare_response().unwrap();
    msg.set_result(1);
    let frame = msg.to_frame().unwrap();
    let mut raw = vec![frame.protocol as u8];
    raw.extend(serialize_meta(&frame).unwrap());
    raw.extend(frame.data());
    assert_eq!(raw[raw.len() - 2..], [0x41, 0xff]);
    raw.truncate(raw.len() - 2);
    raw.extend(result);
    raw.push(0xff);
    raw
}

/// The same frame with an entry of these bytes added to its meta data.
fn with_meta(raw: &[u8], value: &[u8]) -> Vec<u8> {
    assert_eq!(raw[..2], [0x01, 0x8b]);
    let mut all = vec![0x01, 0x8b, 0x7f];
    all.extend(value);
    all.extend(&raw[2..]);
    all
}

fn overflow() -> String {
    "DateTime overflow".to_string()
}

#[test]
fn a_date_that_overflows_is_no_message() {
    let raw = response(4, &BAD_DATE);
    assert!(does_frame_overflow(&raw));
    assert!(!does_meta_overflow(&raw));
    assert_eq!(read_frame(&raw).unwrap().request_id, Some(4));
    assert_eq!(print_resp(&raw, &OutputFormat::Cpon), Err(overflow()));
    assert_eq!(read_string(&raw), Err(overflow()));
    assert_eq!(read_bytes(&raw), Err(overflow()));
    assert_eq!(on_single_frame(&raw, 4, &OutputFormat::Cpon), Step::Fail(overflow()));
    assert_eq!(on_single_frame(&raw, 5, &OutputFormat::Cpon), Step::Wait);
    assert_eq!(on_typed_frame(&raw, 5, &OutputFormat::Cpon), Err(overflow()));
    let mut nested = vec![0x88, 0x41];
    nested.extend(BAD_DATE);
    nested.push(0xff);
    assert!(does_frame_overflow(&response(4, &nested)));
    assert!(does_frame_overflow(&response(4, &NEXT_DATE)));
}

#[test]
fn a_date_that_overflows_in_the_meta_data_is_no_frame() {
    let raw = with_meta(&response(4, &[0x41]), &BAD_DATE);
    assert!(does_meta_overflow(&raw));
    assert_eq!(
        read_frame(&raw).unwrap_err(),
        "FramingError - DateTime overflow".to_string()
    );
    let raw = with_meta(&response(4, &[0x41]), &[0x8d, 0x04]);
    assert!(!does_meta_overflow(&raw));
    assert_eq!(read_frame(&raw).unwrap().request_id, Some(4));
}

#[test]
fn dates_that_fit_are_printed() {
    let raw = response(4, &[0x8d, 0x04]);
    assert!(!does_frame_overflow(&raw));
    assert_eq!(
        print_resp(&raw, &OutputFormat::Value),
        Ok(b"d\"2018-02-02T00:00:00.001Z\"\n".to_vec())
    );
}

#[test]
fn the_reader_itself_refuses_the_last_dates() {
    let raw = response(4, &LAST_DATE);
    assert!(!does_frame_overflow(&raw));
    let error = RpcFrame::from_raw_data(raw.clone()).unwrap().to_rpcmesage().unwrap_err();
    assert_eq!(print_resp(&raw, &OutputFormat::Value), Err(error.to_string()));
}

#[test]
fn the_bytes_of_a_date_may_stand_in_data() {
    let mut blob = vec![0x85, 10];
    blob.extend(BAD_DATE);
    let raw = response(4, &blob);
    assert!(!does_frame_overflow(&raw));
    assert_eq!(read_bytes(&raw), Ok(BAD_DATE.to_vec()));
    // A string has to be text: the reader stops in front of the date.
    let mut string = vec![0x88, 0x86, 2, 0xff, 0xfe];
    string.extend(BAD_DATE);
    string.push(0xff);
    let raw = response(4, &string);
    assert!(!does_frame_overflow(&raw));
    assert!(print_resp(&raw, &OutputFormat::Value).is_err());
    let mut string = vec![0x88, 0x86, 2, 0xc5, 0xaf];
    string.extend(BAD_DATE);
    string.push(0xff);
    assert!(does_frame_overflow(&response(4, &string)));
}

fn value(next: &mut dyn FnMut(usize) -> usize, depth: usize) -> Vec<u8> {
    let mut all = Vec::new();
    match next(if depth == 0 { 9 } else { 13 }) {
        0 => all.push(0x80),
        1 => all.push(next(128) as u8),
        2 | 3 => {
            all.push([0x81, 0x82, 0x8c, 0x8d][next(4)]);
            all.push([0xf4, 0xf4, 0xf3, 0xf5, 0xf0][next(5)]);
            all.push([0x00, 0x80, 0x7f, 0xff][next(4)]);
            for _ in 0..7 {
                all.push([0x00, 0xff, 0x83, next(256) as u8][next(4)]);
            }
            all.push(next(256) as u8);
        }
        4 => all.extend(BAD_DATE),
        5 => all.extend(LAST_DATE),
        6 => all.extend([[0x8d, 0x04], [0x8d, 0x41], [0x8c, 0x41]][next(3)]),
        7 => {
            all.extend([[0x85, 2], [0x86, 2]][next(2)]);
            all.extend([[0x61, 0x62], [0xc5, 0xaf], [0xff, 0x00]][next(3)]);
        }
        8 => all.push(next(256) as u8),
        9 | 10 => {
            all.push(0x88);
            for _ in 0..next(4) {
                all.extend(value(next, depth - 1));
            }
            all.push(0xff);
        }
        11 => {
            all.push(0x89);
            for _ in 0..next(3) {
                all.extend([0x86, 1, 0x61]);
                all.extend(value(next, depth - 1));
            }
            all.push(0xff);
        }
        _ => {
            all.push([0x8a, 0x8b][next(2)]);
            for _ in 0..next(3) {
                all.push(0x40 + next(8) as u8);
                all.extend(value(next, depth - 1));
            }
            all.push(0xff);
            all.push(0x41);
        }
    }
    all
}

#[test]
fn messages_that_are_let_through_do_not_overflow() {
    let mut seed: u64 = 11;
    let mut next = |n: usize| {
        seed = seed.wrapping_mul(6364136223846793005).wrapping_add(1442695040888963407);
        (seed >> 33) as usize % n
    };
    let formats = [
        OutputFormat::Cpon,
        OutputFormat::CponIndented,
        OutputFormat::ChainPack,
        OutputFormat::Simple,
        OutputFormat::Value,
    ];
    let (mut over, mut read, mut refused) = (0, 0, 0);
    for round in 0..20000 {
        let mut raw = response(4, &value(&mut next, 3));
        if round % 3 == 0 {
            raw = with_meta(&raw, &value(&mut next, 2));
        }
        if round % 5 == 0 {
            let at = next(raw.len());
            raw[at] = next(256) as u8;
        }
        if does_frame_overflow(&raw) {
            over += 1;
        }
        for format in &formats {
            match print_resp(&raw, format) {
                Ok(_) => read += 1,
                Err(_) => refused += 1,
            }
        }
        let _ = read_string(&raw);
        let _ = read_bytes(&raw);
    }
    assert!(over > 100 && read > 100 && refused > 100, "{over} {read} {refused}");
}
