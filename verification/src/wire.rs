//! RPC frames as bytes, and what the client reads from them and writes into them.
//!
//! A frame is carried as the bytes that travel between the client and the broker: the protocol
//! byte, the packed meta data and the packed message body. Packing, unpacking and the Cpon text
//! form are those of `shvproto` and `shvrpc`.

use crate::chainpack::{
    does_frame_overflow, does_meta_overflow, frame_overflows, meta_overflows,
};
use crate::cpon::{cpon_text, is_packable, packable};
use crate::text::{opt_str, opt_text, text_outcome};
use shvproto::RpcValue;
use shvrpc::framerw::serialize_meta;
use shvrpc::rpcmessage::Tag;
use shvrpc::{RpcFrame, RpcMessage, RpcMessageMetaTags};
use vstd::prelude::*;

verus! {

/// What the client reads from the meta data of a frame.
#[derive(Debug, PartialEq, Eq)]
pub struct FrameMeta {
    pub request_id: Option<i64>,
    pub shv_path: Option<String>,
    pub method: Option<String>,
    pub seqno: Option<u64>,
}

/// The contents of a `FrameMeta`.
pub struct MetaView {
    pub request_id: Option<i64>,
    pub shv_path: Option<Seq<char>>,
    pub method: Option<Seq<char>>,
    pub seqno: Option<u64>,
}

impl View for FrameMeta {
    type V = MetaView;

    open spec fn view(&self) -> MetaView {
        MetaView {
            request_id: self.request_id,
            shv_path: opt_text(self.shv_path),
            method: opt_text(self.method),
            seqno: self.seqno,
        }
    }
}

impl MetaView {
    /// A request has a request id and a method.
    pub open spec fn is_request(self) -> bool {
        self.request_id is Some && self.method is Some
    }

    /// A response has a request id and no method.
    pub open spec fn is_response(self) -> bool {
        self.request_id is Some && self.method is None
    }

    /// The request id, 0 where there is none.
    pub open spec fn id(self) -> i64 {
        match self.request_id {
            Some(id) => id,
            None => 0,
        }
    }

    /// The path, empty where there is none.
    pub open spec fn path(self) -> Seq<char> {
        match self.shv_path {
            Some(p) => p,
            None => Seq::<char>::empty(),
        }
    }

    /// The method, empty where there is none.
    pub open spec fn method_name(self) -> Seq<char> {
        match self.method {
            Some(m) => m,
            None => Seq::<char>::empty(),
        }
    }
}

impl FrameMeta {
    /// Whether the frame is a request.
    pub fn is_request(&self) -> (r: bool)
        ensures
            r == self@.is_request(),
    {
        self.request_id.is_some() && self.method.is_some()
    }

    /// Whether the frame is a response.
    pub fn is_response(&self) -> (r: bool)
        ensures
            r == self@.is_response(),
    {
        self.request_id.is_some() && self.method.is_none()
    }

    /// The request id, 0 where there is none.
    pub fn id(&self) -> (r: i64)
        ensures
            r == self@.id(),
    {
        match self.request_id {
            Some(id) => id,
            None => 0,
        }
    }

    /// The path, empty where there is none.
    pub fn path(&self) -> (r: &str)
        ensures
            r@ == self@.path(),
    {
        match &self.shv_path {
            Some(p) => p.as_str(),
            None => {
                proof {
                    reveal_strlit("");
                }
                ""
            },
        }
    }

    /// The method, empty where there is none.
    pub fn method_name(&self) -> (r: &str)
        ensures
            r@ == self@.method_name(),
    {
        match &self.method {
            Some(m) => m.as_str(),
            None => {
                proof {
                    reveal_strlit("");
                }
                ""
            },
        }
    }
}

/// What `RpcFrame::from_raw_data` makes of the bytes of a frame: the meta data that the client
/// reads, or the words of its error.
pub uninterp spec fn frame_meta(raw: Seq<u8>) -> Result<MetaView, Seq<char>>;

/// The contents of the outcome of reading meta data.
pub open spec fn meta_outcome(r: Result<FrameMeta, String>) -> Result<MetaView, Seq<char>> {
    match r {
        Ok(m) => Ok(m@),
        Err(e) => Err(e@),
    }
}

/// `RpcFrame::from_raw_data`: reads the meta data at the head of a frame. What is read is a
/// function of the bytes alone. Meta data on which unpacking overflows is left out.
#[verifier::external_body]
fn read_meta(raw: &[u8]) -> (r: Result<FrameMeta, String>)
    requires
        !meta_overflows(raw@),
    ensures
        meta_outcome(r) == frame_meta(raw@),
{
    RpcFrame::from_raw_data(raw.to_vec())
        .map(|frame| FrameMeta {
            request_id: frame.request_id(),
            shv_path: frame.shv_path().map(str::to_owned),
            method: frame.method().map(str::to_owned),
            seqno: frame.seqno(),
        })
        .map_err(|err| err.to_string())
}

/// The meta data of a frame, or what is said of bytes that are no frame.
pub open spec fn framed(raw: Seq<u8>) -> Result<MetaView, Seq<char>> {
    if meta_overflows(raw) {
        Err("FramingError - DateTime overflow"@)
    } else {
        match frame_meta(raw) {
            Ok(meta) => Ok(meta),
            Err(e) => Err("FramingError - "@ + e),
        }
    }
}

/// Reads the meta data of a frame.
pub fn read_frame(raw: &[u8]) -> (r: Result<FrameMeta, String>)
    ensures
        meta_outcome(r) == framed(raw@),
{
    if does_meta_overflow(raw) {
        return Err("FramingError - DateTime overflow".to_owned());
    }
    match read_meta(raw) {
        Ok(meta) => Ok(meta),
        Err(e) => {
            let mut s = "FramingError - ".to_owned();
            s.append(e.as_str());
            Err(s)
        },
    }
}

/// The words in which `RpcFrame::to_rpcmesage` rejects a frame, if it does.
pub uninterp spec fn message_error(raw: Seq<u8>) -> Option<Seq<char>>;

/// `RpcFrame::to_rpcmesage`: whether a frame holds a message, that is whether its body can be
/// unpacked. A frame that holds a message has readable meta data. A frame on which unpacking
/// overflows is left out.
#[verifier::external_body]
fn check_message(raw: &[u8]) -> (r: Option<String>)
    requires
        !frame_overflows(raw@),
    ensures
        opt_text(r) == message_error(raw@),
        r is None ==> frame_meta(raw@) is Ok,
{
    match RpcFrame::from_raw_data(raw.to_vec()) {
        Ok(frame) => frame.to_rpcmesage().err().map(|err| err.to_string()),
        Err(err) => Some(err.to_string()),
    }
}

/// Whether a frame holds a message.
pub open spec fn has_message(raw: Seq<u8>) -> bool {
    !frame_overflows(raw) && message_error(raw) is None
}

/// Why there is no message in a frame with readable meta data, if there is none.
pub open spec fn body_error(raw: Seq<u8>) -> Option<Seq<char>> {
    if frame_overflows(raw) {
        Some("DateTime overflow"@)
    } else {
        message_error(raw)
    }
}

/// Tells why there is no message in a frame, if there is none.
pub fn check_body(raw: &[u8]) -> (r: Option<String>)
    ensures
        opt_text(r) == body_error(raw@),
        r is None <==> has_message(raw@),
{
    if does_frame_overflow(raw) {
        return Some("DateTime overflow".to_owned());
    }
    check_message(raw)
}

/// The Cpon text that `RpcValue::to_cpon` gives for the message in a frame.
pub uninterp spec fn message_cpon(raw: Seq<u8>) -> Seq<char>;

/// `RpcValue::to_cpon` of the whole message, meta data first.
#[verifier::external_body]
pub(crate) fn to_cpon(raw: &[u8]) -> (r: String)
    requires
        has_message(raw@),
    ensures
        r@ == message_cpon(raw@),
{
    let frame = RpcFrame::from_raw_data(raw.to_vec()).unwrap();
    frame.to_rpcmesage().unwrap().as_rpcvalue().to_cpon()
}

/// The Cpon text that `RpcValue::to_cpon_indented` gives for the message in a frame.
pub uninterp spec fn message_cpon_indented(raw: Seq<u8>, indent: Seq<char>) -> Seq<char>;

/// `RpcValue::to_cpon_indented` of the whole message: Cpon on several lines, each nesting level
/// set off by `indent`.
#[verifier::external_body]
pub(crate) fn to_cpon_indented(raw: &[u8], indent: &str) -> (r: String)
    requires
        has_message(raw@),
    ensures
        r@ == message_cpon_indented(raw@, indent@),
{
    let frame = RpcFrame::from_raw_data(raw.to_vec()).unwrap();
    frame.to_rpcmesage().unwrap().as_rpcvalue().to_cpon_indented(indent)
}

/// The bytes that `RpcValue::to_chainpack` gives for the message in a frame.
pub uninterp spec fn message_chainpack(raw: Seq<u8>) -> Seq<u8>;

/// `RpcValue::to_chainpack` of the whole message.
#[verifier::external_body]
pub(crate) fn to_chainpack(raw: &[u8]) -> (r: Vec<u8>)
    requires
        has_message(raw@),
    ensures
        r@ == message_chainpack(raw@),
{
    let frame = RpcFrame::from_raw_data(raw.to_vec()).unwrap();
    frame.to_rpcmesage().unwrap().as_rpcvalue().to_chainpack()
}

/// The Cpon text of what `RpcMessage::param` gives for the message in a frame.
pub uninterp spec fn param_cpon(raw: Seq<u8>) -> Seq<char>;

/// `RpcMessage::param`: the parameter of a request or a signal as Cpon text. A message without a
/// parameter has the null value in its place.
#[verifier::external_body]
pub(crate) fn param_to_cpon(raw: &[u8]) -> (r: String)
    requires
        has_message(raw@),
    ensures
        r@ == param_cpon(raw@),
{
    let frame = RpcFrame::from_raw_data(raw.to_vec()).unwrap();
    frame.to_rpcmesage().unwrap().param().unwrap_or_default().to_cpon()
}

/// The contents of an outcome that is bytes or a text.
pub open spec fn bytes_outcome(r: Result<Vec<u8>, String>) -> Result<Seq<u8>, Seq<char>> {
    match r {
        Ok(b) => Ok(b@),
        Err(e) => Err(e@),
    }
}

/// What `RpcMessage::response` gives for the message in a frame: the result as Cpon text, or the
/// words of the error that the message carries.
pub uninterp spec fn result_cpon(raw: Seq<u8>) -> Result<Seq<char>, Seq<char>>;

/// `RpcMessage::response` with the result as Cpon text. A message that carries neither a result
/// nor an error has the null value as its result, and so has one that announces a delay.
#[verifier::external_body]
pub(crate) fn result_to_cpon(raw: &[u8]) -> (r: Result<String, String>)
    requires
        has_message(raw@),
    ensures
        text_outcome(r) == result_cpon(raw@),
{
    let message = RpcFrame::from_raw_data(raw.to_vec()).unwrap().to_rpcmesage().unwrap();
    match message.response() {
        Ok(response) => Ok(response.success().unwrap_or_default().to_cpon()),
        Err(err) => Err(err.to_string()),
    }
}

/// What `RpcMessage::response` gives for the message in a frame: the result as a string, or the
/// words of the error that the message carries.
pub uninterp spec fn result_string(raw: Seq<u8>) -> Result<Seq<char>, Seq<char>>;

/// `RpcMessage::response` and `RpcValue::as_str`: the result as a string, empty where the result
/// is something else. The result of a message that announces a delay is null.
#[verifier::external_body]
pub(crate) fn result_to_string(raw: &[u8]) -> (r: Result<String, String>)
    requires
        has_message(raw@),
    ensures
        text_outcome(r) == result_string(raw@),
{
    let message = RpcFrame::from_raw_data(raw.to_vec()).unwrap().to_rpcmesage().unwrap();
    match message.response() {
        Ok(response) => Ok(response.success().unwrap_or_default().as_str().to_owned()),
        Err(err) => Err(err.to_string()),
    }
}

/// What `RpcMessage::response` gives for the message in a frame: the result as bytes, or the
/// words of the error that the message carries.
pub uninterp spec fn result_blob(raw: Seq<u8>) -> Result<Seq<u8>, Seq<char>>;

/// `RpcMessage::response` and `RpcValue::as_blob`: the result as bytes, empty where the result is
/// something else. The result of a message that announces a delay is null.
#[verifier::external_body]
pub(crate) fn result_to_blob(raw: &[u8]) -> (r: Result<Vec<u8>, String>)
    requires
        has_message(raw@),
    ensures
        bytes_outcome(r) == result_blob(raw@),
{
    let message = RpcFrame::from_raw_data(raw.to_vec()).unwrap().to_rpcmesage().unwrap();
    match message.response() {
        Ok(response) => Ok(response.success().unwrap_or_default().as_blob().to_owned()),
        Err(err) => Err(err.to_string()),
    }
}

/// Whether the meta data that is read from a frame is `meta`; there is no date in it.
pub open spec fn has_meta(raw: Seq<u8>, meta: MetaView) -> bool {
    !meta_overflows(raw) && frame_meta(raw) == Ok::<MetaView, Seq<char>>(meta)
}

/// The meta data of a request: an empty path is left out.
pub open spec fn request_meta(
    request_id: i64,
    seqno: Option<u64>,
    path: Seq<char>,
    method: Seq<char>,
) -> MetaView {
    MetaView {
        request_id: Some(request_id),
        shv_path: if path.len() == 0 {
            None
        } else {
            Some(path)
        },
        method: Some(method),
        seqno,
    }
}

/// The bytes of the frame that `RpcMessage::create_request_with_id`, `set_param_opt` and
/// `to_frame` give for a request whose parameter, if any, is what `RpcValue::from_cpon` reads
/// from a text.
pub uninterp spec fn call_frame(
    request_id: i64,
    seqno: Option<u64>,
    path: Seq<char>,
    method: Seq<char>,
    param: Option<Seq<char>>,
) -> Seq<u8>;

/// `RpcMessage::create_request_with_id`, `set_param_opt` and `to_frame`: the frame of a request
/// with an optional parameter in Cpon. It fails exactly where `RpcValue::from_cpon` rejects the
/// parameter. The meta data of the frame reads back as it was given.
#[verifier::external_body]
pub(crate) fn encode_call(
    request_id: i64,
    seqno: Option<u64>,
    path: &str,
    method: &str,
    param: Option<&str>,
) -> (r: Result<Vec<u8>, String>)
    requires
        request_id > i64::MIN,
        param matches Some(p) ==> packable(p@),
    ensures
        match r {
            Ok(raw) => {
                &&& param matches Some(p) ==> cpon_text(p@) is Ok
                &&& raw@ == call_frame(request_id, seqno, path@, method@, opt_str(param))
                &&& has_meta(raw@, request_meta(request_id, seqno, path@, method@))
            },
            Err(e) => param matches Some(p) && cpon_text(p@) == Err::<Seq<char>, Seq<char>>(e@),
        },
{
    let param = param.map(RpcValue::from_cpon).transpose().map_err(|err| err.to_string())?;
    let mut rq = RpcMessage::create_request_with_id(request_id, path, method);
    rq.set_tag(Tag::SeqNo as i32, seqno);
    rq.set_param_opt(param);
    let frame = rq.to_frame().unwrap();
    let mut raw = vec![frame.protocol as u8];
    raw.extend(serialize_meta(&frame).unwrap());
    raw.extend(frame.data());
    Ok(raw)
}

/// The bytes of the frame that `RpcMessage::create_request_with_id`, `set_param` and `to_frame`
/// give for a request whose parameter is a map with one entry, a string under a string key.
pub uninterp spec fn entry_frame(
    request_id: i64,
    seqno: Option<u64>,
    path: Seq<char>,
    method: Seq<char>,
    key: Seq<char>,
    value: Seq<char>,
) -> Seq<u8>;

/// `RpcMessage::create_request_with_id`, `set_param` and `to_frame`: the frame of a request whose
/// parameter is the map `{key: value}`. The meta data of the frame reads back as it was given.
#[verifier::external_body]
pub(crate) fn encode_entry(
    request_id: i64,
    seqno: Option<u64>,
    path: &str,
    method: &str,
    key: &str,
    value: &str,
) -> (r: Vec<u8>)
    requires
        request_id > i64::MIN,
    ensures
        r@ == entry_frame(request_id, seqno, path@, method@, key@, value@),
        has_meta(r@, request_meta(request_id, seqno, path@, method@)),
{
    let mut rq = RpcMessage::create_request_with_id(request_id, path, method);
    rq.set_tag(Tag::SeqNo as i32, seqno);
    rq.set_param(shvproto::Map::from([(key.to_owned(), value.into())]));
    let frame = rq.to_frame().unwrap();
    let mut raw = vec![frame.protocol as u8];
    raw.extend(serialize_meta(&frame).unwrap());
    raw.extend(frame.data());
    raw
}

/// The bytes of the frame that `RpcMessage::create_request_with_id`, `set_param` and `to_frame`
/// give for a request whose parameter is a blob.
pub uninterp spec fn blob_frame(
    request_id: i64,
    seqno: Option<u64>,
    path: Seq<char>,
    method: Seq<char>,
    data: Seq<u8>,
) -> Seq<u8>;

/// `RpcMessage::create_request_with_id`, `set_param` and `to_frame`: the frame of a request whose
/// parameter is the blob `data`. The meta data of the frame reads back as it was given.
#[verifier::external_body]
pub(crate) fn encode_blob(
    request_id: i64,
    seqno: Option<u64>,
    path: &str,
    method: &str,
    data: &[u8],
) -> (r: Vec<u8>)
    requires
        request_id > i64::MIN,
    ensures
        r@ == blob_frame(request_id, seqno, path@, method@, data@),
        has_meta(r@, request_meta(request_id, seqno, path@, method@)),
{
    let mut rq = RpcMessage::create_request_with_id(request_id, path, method);
    rq.set_tag(Tag::SeqNo as i32, seqno);
    rq.set_param(RpcValue::from(data));
    let frame = rq.to_frame().unwrap();
    let mut raw = vec![frame.protocol as u8];
    raw.extend(serialize_meta(&frame).unwrap());
    raw.extend(frame.data());
    raw
}

/// The parameter of a request.
#[derive(Debug, PartialEq, Eq)]
pub enum Param {
    /// No parameter.
    Absent,
    /// What a Cpon text denotes.
    Cpon(String),
    /// A map with one entry, a string under a string key.
    Entry(String, String),
    /// Bytes.
    Blob(Vec<u8>),
}

/// The contents of a `Param`.
pub enum ParamView {
    Absent,
    Cpon(Seq<char>),
    Entry(Seq<char>, Seq<char>),
    Blob(Seq<u8>),
}

impl View for Param {
    type V = ParamView;

    open spec fn view(&self) -> ParamView {
        match self {
            Param::Absent => ParamView::Absent,
            Param::Cpon(s) => ParamView::Cpon(s@),
            Param::Entry(k, v) => ParamView::Entry(k@, v@),
            Param::Blob(b) => ParamView::Blob(b@),
        }
    }
}

/// A request to be sent.
#[derive(Debug, PartialEq, Eq)]
pub struct Request {
    pub request_id: i64,
    pub seqno: Option<u64>,
    pub path: String,
    pub method: String,
    pub param: Param,
}

/// The contents of a `Request`.
pub struct RequestView {
    pub request_id: i64,
    pub seqno: Option<u64>,
    pub path: Seq<char>,
    pub method: Seq<char>,
    pub param: ParamView,
}

impl View for Request {
    type V = RequestView;

    open spec fn view(&self) -> RequestView {
        RequestView {
            request_id: self.request_id,
            seqno: self.seqno,
            path: self.path@,
            method: self.method@,
            param: self.param@,
        }
    }
}

impl RequestView {
    /// Why the request cannot be sent: its parameter is no Cpon text.
    pub open spec fn error(self) -> Option<Seq<char>> {
        match self.param {
            ParamView::Cpon(s) => match cpon_text(s) {
                Ok(_) => None,
                Err(e) => Some(e),
            },
            _ => None,
        }
    }

    /// Whether the parameter can be packed.
    pub open spec fn fits(self) -> bool {
        self.param matches ParamView::Cpon(s) ==> packable(s)
    }

    /// The bytes of the request's frame.
    pub open spec fn frame(self) -> Seq<u8> {
        match self.param {
            ParamView::Absent => call_frame(
                self.request_id,
                self.seqno,
                self.path,
                self.method,
                None,
            ),
            ParamView::Cpon(s) => call_frame(
                self.request_id,
                self.seqno,
                self.path,
                self.method,
                Some(s),
            ),
            ParamView::Entry(k, v) => entry_frame(
                self.request_id,
                self.seqno,
                self.path,
                self.method,
                k,
                v,
            ),
            ParamView::Blob(b) => blob_frame(
                self.request_id,
                self.seqno,
                self.path,
                self.method,
                b,
            ),
        }
    }

    /// The meta data of the request.
    pub open spec fn meta(self) -> MetaView {
        request_meta(self.request_id, self.seqno, self.path, self.method)
    }
}

impl Request {
    /// Packs the request into the bytes of a frame. It fails exactly where the parameter is no
    /// Cpon text, and the meta data of the frame reads back as that of the request.
    pub fn to_frame(&self) -> (r: Result<Vec<u8>, String>)
        requires
            self.request_id > i64::MIN,
            self@.fits(),
        ensures
            match r {
                Ok(raw) => {
                    &&& self@.error() is None
                    &&& raw@ == self@.frame()
                    &&& has_meta(raw@, self@.meta())
                },
                Err(e) => self@.error() == Some(e@),
            },
    {
        let path = self.path.as_str();
        let method = self.method.as_str();
        match &self.param {
            Param::Absent => encode_call(self.request_id, self.seqno, path, method, None),
            Param::Cpon(s) => encode_call(
                self.request_id,
                self.seqno,
                path,
                method,
                Some(s.as_str()),
            ),
            Param::Entry(k, v) => Ok(
                encode_entry(self.request_id, self.seqno, path, method, k.as_str(), v.as_str()),
            ),
            Param::Blob(b) => Ok(
                encode_blob(self.request_id, self.seqno, path, method, b.as_slice()),
            ),
        }
    }

    /// Packs the request as `to_frame` does, or gives `None` where the parameter cannot be packed.
    pub fn try_to_frame(&self) -> (r: Option<Result<Vec<u8>, String>>)
        requires
            self.request_id > i64::MIN,
        ensures
            match r {
                Some(Ok(raw)) => {
                    &&& self@.fits()
                    &&& self@.error() is None
                    &&& raw@ == self@.frame()
                    &&& has_meta(raw@, self@.meta())
                },
                Some(Err(e)) => self@.fits() && self@.error() == Some(e@),
                None => !self@.fits(),
            },
    {
        if let Param::Cpon(s) = &self.param {
            if !is_packable(s.as_str()) {
                return None;
            }
        }
        Some(self.to_frame())
    }
}

/// Whether a frame holds a message and has this meta data.
pub open spec fn carries(raw: Seq<u8>, meta: MetaView) -> bool {
    has_meta(raw, meta) && !frame_overflows(raw) && message_error(raw) is None
}

/// What a frame is and whom it concerns follows from three parts of its meta data: with a request
/// id and a method it is a request, with an id and no method a response, and what is missing
/// counts as 0 or as empty.
pub proof fn law_meta_data_tells_the_kind(
    meta: &FrameMeta,
    is_request: bool,
    is_response: bool,
    id: i64,
    path: &str,
    method: &str,
)
    requires
        call_ensures(FrameMeta::is_request, (meta,), is_request),
        call_ensures(FrameMeta::is_response, (meta,), is_response),
        call_ensures(FrameMeta::id, (meta,), id),
        call_ensures(FrameMeta::path, (meta,), path),
        call_ensures(FrameMeta::method_name, (meta,), method),
    ensures
        is_request <==> meta.request_id is Some && meta.method is Some,
        is_response <==> meta.request_id is Some && meta.method is None,
        meta.request_id matches Some(n) ==> id == n,
        meta.request_id is None ==> id == 0,
        meta.shv_path matches Some(p) ==> path@ == p@,
        meta.shv_path is None ==> path@.len() == 0,
        meta.method matches Some(m) ==> method@ == m@,
        meta.method is None ==> method@.len() == 0,
{
}

/// The meta data that is read from a frame is what `RpcFrame::from_raw_data` finds in it, part by
/// part, and its errors are marked as such.
pub proof fn law_meta_data_is_read_as_it_is(raw: &[u8], r: Result<FrameMeta, String>)
    requires
        call_ensures(read_frame, (raw,), r),
    ensures
        meta_overflows(raw@) ==> (r matches Err(error) && error@
            == "FramingError - DateTime overflow"@),
        !meta_overflows(raw@) ==> match (frame_meta(raw@), r) {
            (Ok(found), Ok(meta)) => {
                &&& meta.request_id == found.request_id
                &&& meta.seqno == found.seqno
                &&& match (meta.shv_path, found.shv_path) {
                    (Some(a), Some(b)) => a@ == b,
                    (None, None) => true,
                    _ => false,
                }
                &&& match (meta.method, found.method) {
                    (Some(a), Some(b)) => a@ == b,
                    (None, None) => true,
                    _ => false,
                }
            },
            (Err(e), Err(error)) => error@ == "FramingError - "@ + e,
            _ => false,
        },
{
}

/// A frame holds a message where `RpcFrame::to_rpcmesage` finds one, and its errors are passed
/// on.
pub proof fn law_bodies_are_checked(raw: &[u8], r: Option<String>)
    requires
        call_ensures(check_body, (raw,), r),
    ensures
        !frame_overflows(raw@) ==> match (message_error(raw@), r) {
            (None, None) => true,
            (Some(e), Some(error)) => error@ == e,
            _ => false,
        },
        frame_overflows(raw@) ==> (r matches Some(error) && error@ == "DateTime overflow"@),
{
}

/// The frame of a request has the request's id, number, path, method and parameter in it. Only a
/// parameter in Cpon can keep a request from being packed.
pub proof fn law_a_frame_holds_its_request(rq: &Request, r: Option<Result<Vec<u8>, String>>)
    requires
        call_ensures(Request::try_to_frame, (rq,), r),
    ensures
        r matches Some(Ok(raw)) ==> {
            &&& frame_meta(raw@) matches Ok(meta)
            &&& meta.request_id == Some(rq.request_id)
            &&& meta.seqno == rq.seqno
            &&& meta.method == Some(rq.method@)
            &&& rq.path@.len() > 0 ==> meta.shv_path == Some(rq.path@)
            &&& rq.path@.len() == 0 ==> meta.shv_path is None
            &&& !meta_overflows(raw@)
            &&& raw@ == match rq.param {
                Param::Absent => call_frame(
                    rq.request_id,
                    rq.seqno,
                    rq.path@,
                    rq.method@,
                    None,
                ),
                Param::Cpon(text) => call_frame(
                    rq.request_id,
                    rq.seqno,
                    rq.path@,
                    rq.method@,
                    Some(text@),
                ),
                Param::Entry(key, value) => entry_frame(
                    rq.request_id,
                    rq.seqno,
                    rq.path@,
                    rq.method@,
                    key@,
                    value@,
                ),
                Param::Blob(data) => blob_frame(
                    rq.request_id,
                    rq.seqno,
                    rq.path@,
                    rq.method@,
                    data@,
                ),
            }
        },
        !(rq.param is Cpon) ==> (r matches Some(Ok(_))),
        rq.param matches Param::Cpon(text) ==> {
            &&& r is None <==> !packable(text@)
            &&& packable(text@) && cpon_text(text@) is Ok ==> (r matches Some(Ok(_)))
            &&& packable(text@) ==> (cpon_text(text@) matches Err(e) ==> (r matches Some(Err(error))
                && error@ == e))
        },
{
}

/// `to_frame` and `try_to_frame` give the same frame.
pub proof fn law_both_ways_to_pack_agree(
    rq: &Request,
    a: Result<Vec<u8>, String>,
    b: Option<Result<Vec<u8>, String>>,
)
    requires
        call_ensures(Request::to_frame, (rq,), a),
        call_ensures(Request::try_to_frame, (rq,), b),
        rq.param matches Param::Cpon(text) ==> packable(text@),
    ensures
        match (a, b) {
            (Ok(x), Some(Ok(y))) => x@ == y@,
            (Err(x), Some(Err(y))) => x@ == y@,
            _ => false,
        },
{
}

} // verus!
