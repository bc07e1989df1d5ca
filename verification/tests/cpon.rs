use shvcall::cpon::{does_text_overflow, is_packable};
use shvcall::wire::{Param, Request};
use shvproto::RpcValue;
use shvrpc::RpcFrame;

fn sent(text: &str) -> Option<Result<Vec<u8>, String>> {
    Request {
        request_id: 12,
        seqno: None,
        path: "a".to_string(),
        method: "m".to_string(),
        param: Param::Cpon(text.to_string()),
    }
    .try_to_frame()
}

fn param(text: &str) -> RpcValue {
    let raw = sent(text).unwrap().unwrap();
    let msg = RpcFrame::from_raw_data(raw).unwrap().to_rpcmesage().unwrap();
    msg.param().unwrap().clone()
}

#[test]
fn numbers_that_overflow_are_not_packed() {
    for text in [
        "1.25e-9223372036854775807",
        "[/* \" */ 1.25E-9223372036854775807]",
        "0.25e-x7fffffffffffffff",
        "{\"a\":1.00e-9223372036854775807}",
        "i{1:1.00e-9223372036854775807}",
        "<1:1.00e-9223372036854775807>1",
    ] {
        assert!(does_text_overflow(text), "{text}");
        assert!(!is_packable(text), "{text}");
        assert_eq!(sent(text), None, "{text}");
    }
    assert!(!does_text_overflow("-9223372036854775808"));
    assert!(!is_packable("-9223372036854775808"));
    assert_eq!(sent("-9223372036854775808"), None);
}

#[test]
fn a_quote_may_be_any_character() {
    for text in [
        "{a\"1.00e-9223372036854775807}",
        "[ba\"1.00e-9223372036854775807]",
        "[xa\"1.00e-9223372036854775807]",
        "{aa\"1.00e-9223372036854775807}",
    ] {
        assert!(does_text_overflow(text), "{text}");
        assert_eq!(sent(text), None, "{text}");
    }
    // What looks like a number here stands inside a date that cannot be read.
    assert!(!does_text_overflow("[da1.00e-9223372036854775807\"]"));
    assert!(sent("[da1.00e-9223372036854775807\"]").unwrap().is_err());
}

#[test]
fn a_date_ends_before_the_next_number() {
    let text = "[d\"2018-02-02T00:00:00Z\",1.00e-9223372036854775807]";
    assert!(does_text_overflow(text));
    let text = "[d\"2018-02-02\",1.00e-9223372036854775807]";
    assert!(!does_text_overflow(text));
    assert!(sent(text).unwrap().is_err());
    assert_eq!(
        param("[d\"2018-02-02T00:00:00Z\"]"),
        RpcValue::from_cpon("[d\"2018-02-02T00:00:00Z\"]").unwrap()
    );
}

#[test]
fn padded_exponents_are_sent() {
    for text in [
        "1e-0000000000000001",
        "1.25e-12",
        "1.25e-00000000000000000000000000012",
        "\"1.25e-9223372036854775807\"",
        "b\"1.25e-9223372036854775807\"",
        "{\"1.25e-9223372036854775807\":1}",
        "[1,/* 1.25e-9223372036854775807 */2]",
        "{\"a\":i{1:<2:3>[true,null,1.5,2u,x\"00ff\"]}}",
    ] {
        assert!(!does_text_overflow(text), "{text}");
        assert!(is_packable(text), "{text}");
        assert_eq!(param(text), RpcValue::from_cpon(text).unwrap(), "{text}");
    }
    for text in ["1.5e-9223372036854775807", "1e-9223372036854775807"] {
        assert!(!does_text_overflow(text), "{text}");
        assert!(is_packable(text), "{text}");
    }
}

#[test]
fn unreadable_texts_give_the_error_of_the_reader() {
    for text in [
        "?e-0000000000000001",
        "?1.25e-9223372036854775807",
        "[1,?,1.25e-9223372036854775807]",
        "{\"a\" 1 2}",
        "",
        "{",
        "\"x",
        "1.25e-92233720368547758079223372036854775807",
    ] {
        assert!(!does_text_overflow(text), "{text}");
        let error = RpcValue::from_cpon(text).unwrap_err().to_string();
        assert_eq!(sent(text), Some(Err(error)), "{text}");
    }
}

#[test]
fn texts_that_are_let_through_do_not_overflow() {
    let pieces = [
        "[", "]", "{", "}", "i{", "<", ">", "\"", "a", "b", "x", "d", "b\"", "x\"", "d\"", ",",
        ":", " ", "/*", "*/", "//", "\n", "1", "-", "+", ".", "e-", "E", "u", "n", "null", "true",
        "9223372036854775807", "9223372036854775808", "9223372036854775806", "0x", "00", "7f",
        "\\", "e-9223372036854775807", "1.25e-9223372036854775807", "-x7fffffffffffffff",
        "2018-02-02T00:00:00Z\"", "\u{16f}", "1.5", "2.75", "18446744073709551615", "\u{0}",
    ];
    let mut seed: u64 = 7;
    let mut next = |n: usize| {
        seed = seed.wrapping_mul(6364136223846793005).wrapping_add(1442695040888963407);
        (seed >> 33) as usize % n
    };
    let (mut over, mut read, mut refused) = (0, 0, 0);
    for _ in 0..60000 {
        let mut text = String::new();
        for _ in 0..1 + next(9) {
            text.push_str(pieces[next(pieces.len())]);
        }
        match sent(&text) {
            None => over += 1,
            Some(Ok(_)) => read += 1,
            Some(Err(_)) => refused += 1,
        }
    }
    assert!(over > 100 && read > 100 && refused > 100, "{over} {read} {refused}");
}
