//! How a message is printed.

use crate::chainpack::{frame_overflows, meta_overflows};
use crate::text::{
    inert, lemma_replaced_first, lemma_replaced_inert, replace, replaced, same_text, text_outcome,
};
use crate::wire::{
    body_error, carries, check_body, frame_meta, framed, has_message, message_chainpack,
    message_cpon, message_cpon_indented, message_error, param_cpon, param_to_cpon, read_frame,
    result_cpon, result_to_cpon, to_chainpack, to_cpon, to_cpon_indented, FrameMeta, MetaView,
};
use vstd::prelude::*;
use vstd::utf8::encode_utf8;

verus! {

/// The ways to print a message.
#[derive(Debug, PartialEq, Eq)]
pub enum OutputFormat {
    /// Cpon on one line.
    Cpon,
    /// Cpon on several lines, indented by tabs.
    CponIndented,
    /// Packed bytes.
    ChainPack,
    /// A line that starts with the kind of the message.
    Simple,
    /// The parameter or the result.
    Value,
    /// A text with placeholders.
    Custom(String),
}

/// The contents of an `OutputFormat`.
pub enum FormatView {
    Cpon,
    CponIndented,
    ChainPack,
    Simple,
    Value,
    Custom(Seq<char>),
}

impl View for OutputFormat {
    type V = FormatView;

    open spec fn view(&self) -> FormatView {
        match self {
            OutputFormat::Cpon => FormatView::Cpon,
            OutputFormat::CponIndented => FormatView::CponIndented,
            OutputFormat::ChainPack => FormatView::ChainPack,
            OutputFormat::Simple => FormatView::Simple,
            OutputFormat::Value => FormatView::Value,
            OutputFormat::Custom(s) => FormatView::Custom(s@),
        }
    }
}

/// The format that an option value names; a value that names none is a custom format.
pub open spec fn format_named(value: Seq<char>) -> FormatView {
    if value == "chainpack"@ {
        FormatView::ChainPack
    } else if value == "simple"@ {
        FormatView::Simple
    } else if value == "value"@ {
        FormatView::Value
    } else if value == "cpon"@ {
        FormatView::Cpon
    } else if value == "icpon"@ {
        FormatView::CponIndented
    } else {
        FormatView::Custom(value)
    }
}

impl OutputFormat {
    /// The format that an option value names.
    pub fn from(value: &str) -> (r: OutputFormat)
        ensures
            r@ == format_named(value@),
    {
        if same_text(value, "chainpack") {
            OutputFormat::ChainPack
        } else if same_text(value, "simple") {
            OutputFormat::Simple
        } else if same_text(value, "value") {
            OutputFormat::Value
        } else if same_text(value, "cpon") {
            OutputFormat::Cpon
        } else if same_text(value, "icpon") {
            OutputFormat::CponIndented
        } else {
            OutputFormat::Custom(value.to_owned())
        }
    }
}

/// The line of a request or a signal: its kind, its address and its parameter.
pub open spec fn address_line(kind: Seq<char>, meta: MetaView, param: Seq<char>) -> Seq<char> {
    kind + meta.path() + ":"@ + meta.method_name() + " "@ + param + "\n"@
}

/// The line that starts with the kind of the message.
pub open spec fn simple_line(
    meta: MetaView,
    param: Seq<char>,
    result: Result<Seq<char>, Seq<char>>,
) -> Seq<char> {
    if meta.is_request() {
        address_line("REQ "@, meta, param)
    } else if meta.is_response() {
        match result {
            Ok(value) => "RES "@ + value + "\n"@,
            Err(error) => "ERR "@ + error + "\n"@,
        }
    } else {
        address_line("SIG "@, meta, param)
    }
}

/// The line with the value that the message carries: the parameter, or the outcome of a call.
pub open spec fn value_line(
    meta: MetaView,
    param: Seq<char>,
    result: Result<Seq<char>, Seq<char>>,
) -> Seq<char> {
    if meta.is_response() {
        match result {
            Ok(value) => value + "\n"@,
            Err(error) => error + "\n"@,
        }
    } else {
        param + "\n"@
    }
}

/// A custom format filled in: the placeholders one after another, then the escapes.
pub open spec fn custom_text(
    format: Seq<char>,
    path: Seq<char>,
    method: Seq<char>,
    value: Seq<char>,
) -> Seq<char> {
    let with_path = replaced(format, "{PATH}"@, path);
    let with_method = replaced(with_path, "{METHOD}"@, method);
    let with_value = replaced(with_method, "{VALUE}"@, value);
    let with_newlines = replaced(with_value, "\\n"@, "\n"@);
    replaced(with_newlines, "\\t"@, "\t"@)
}

fn write_address_line(kind: &str, meta: &FrameMeta, param: &str) -> (r: String)
    ensures
        r@ == address_line(kind@, meta@, param@),
{
    let mut s = kind.to_owned();
    s.append(meta.path());
    s.append(":");
    s.append(meta.method_name());
    s.append(" ");
    s.append(param);
    s.append("\n");
    s
}

/// Writes the line that starts with the kind of the message. `param` is the Cpon text of the
/// parameter, `result` the Cpon text of the result or the words of the error.
pub fn write_simple_line(meta: &FrameMeta, param: &str, result: &Result<String, String>) -> (r:
    String)
    ensures
        r@ == simple_line(meta@, param@, text_outcome(*result)),
{
    if meta.is_request() {
        write_address_line("REQ ", meta, param)
    } else if meta.is_response() {
        match result {
            Ok(value) => {
                let mut s = "RES ".to_owned();
                s.append(value.as_str());
                s.append("\n");
                s
            },
            Err(error) => {
                let mut s = "ERR ".to_owned();
                s.append(error.as_str());
                s.append("\n");
                s
            },
        }
    } else {
        write_address_line("SIG ", meta, param)
    }
}

/// Writes the line with the value that the message carries.
pub fn write_value_line(meta: &FrameMeta, param: &str, result: &Result<String, String>) -> (r:
    String)
    ensures
        r@ == value_line(meta@, param@, text_outcome(*result)),
{
    let value = if meta.is_response() {
        match result {
            Ok(value) => value.as_str(),
            Err(error) => error.as_str(),
        }
    } else {
        param
    };
    let mut s = value.to_owned();
    s.append("\n");
    s
}

/// Fills in a custom format.
pub fn write_custom(format: &str, path: &str, method: &str, value: &str) -> (r: String)
    ensures
        r@ == custom_text(format@, path@, method@, value@),
{
    proof {
        reveal_strlit("{PATH}");
        reveal_strlit("{METHOD}");
        reveal_strlit("{VALUE}");
        reveal_strlit("\\n");
        reveal_strlit("\\t");
    }
    let s = replace(format, "{PATH}", path);
    let s = replace(s.as_str(), "{METHOD}", method);
    let s = replace(s.as_str(), "{VALUE}", value);
    let s = replace(s.as_str(), "\\n", "\n");
    replace(s.as_str(), "\\t", "\t")
}

/// The result that a custom format shows; the null value stands for a failed call.
pub open spec fn shown_result(result: Result<Seq<char>, Seq<char>>) -> Seq<char> {
    match result {
        Ok(value) => value,
        Err(_) => "null"@,
    }
}

/// The meta data of the message in a frame, or why there is no message in it.
pub open spec fn opened(raw: Seq<u8>) -> Result<MetaView, Seq<char>> {
    match framed(raw) {
        Ok(meta) => match body_error(raw) {
            None => Ok(meta),
            Some(error) => Err(error),
        },
        Err(error) => Err(error),
    }
}

/// Opens a frame that should hold a message.
pub fn open_message(raw: &[u8]) -> (r: Result<FrameMeta, String>)
    ensures
        match r {
            Ok(meta) => opened(raw@) == Ok::<MetaView, Seq<char>>(meta@),
            Err(error) => opened(raw@) == Err::<MetaView, Seq<char>>(error@),
        },
        r is Ok ==> has_message(raw@),
{
    match read_frame(raw) {
        Ok(meta) => match check_body(raw) {
            None => Ok(meta),
            Some(error) => Err(error),
        },
        Err(error) => Err(error),
    }
}

/// What is printed for the message in a frame.
pub open spec fn printed(raw: Seq<u8>, meta: MetaView, format: FormatView) -> Seq<u8> {
    match format {
        FormatView::Cpon => encode_utf8(message_cpon(raw) + "\n"@),
        FormatView::CponIndented => encode_utf8(message_cpon_indented(raw, "\t"@) + "\n"@),
        FormatView::ChainPack => message_chainpack(raw),
        FormatView::Simple => encode_utf8(simple_line(meta, param_cpon(raw), result_cpon(raw))),
        FormatView::Value => encode_utf8(value_line(meta, param_cpon(raw), result_cpon(raw))),
        FormatView::Custom(text) => encode_utf8(
            custom_text(text, meta.path(), meta.method_name(), shown_result(result_cpon(raw))),
        ),
    }
}

/// Gives the bytes to print for the frame `raw`, or why it holds no message.
pub fn print_resp(raw: &[u8], format: &OutputFormat) -> (r: Result<Vec<u8>, String>)
    ensures
        match r {
            Ok(bytes) => opened(raw@) matches Ok(meta) && bytes@ == printed(raw@, meta, format@),
            Err(error) => opened(raw@) == Err::<MetaView, Seq<char>>(error@),
        },
{
    let meta = match open_message(raw) {
        Ok(meta) => meta,
        Err(error) => {
            return Err(error);
        },
    };
    let text = match format {
        OutputFormat::ChainPack => {
            return Ok(to_chainpack(raw));
        },
        OutputFormat::Cpon => {
            let mut s = to_cpon(raw);
            s.append("\n");
            s
        },
        OutputFormat::CponIndented => {
            let mut s = to_cpon_indented(raw, "\t");
            s.append("\n");
            s
        },
        OutputFormat::Simple => write_simple_line(
            &meta,
            param_to_cpon(raw).as_str(),
            &result_to_cpon(raw),
        ),
        OutputFormat::Value => write_value_line(
            &meta,
            param_to_cpon(raw).as_str(),
            &result_to_cpon(raw),
        ),
        OutputFormat::Custom(format) => {
            let value = match result_to_cpon(raw) {
                Ok(value) => value,
                Err(_) => "null".to_owned(),
            };
            write_custom(format.as_str(), meta.path(), meta.method_name(), value.as_str())
        },
    };
    Ok(text.as_str().as_bytes_vec())
}

/// The formats `simple` and `value` print a line.
pub proof fn law_lines_end(
    meta: MetaView,
    param: Seq<char>,
    result: Result<Seq<char>, Seq<char>>,
)
    ensures
        simple_line(meta, param, result).last() == '\n',
        value_line(meta, param, result).last() == '\n',
{
    reveal_strlit("\n");
}

/// A piece of a custom format.
pub enum Piece {
    Text(Seq<char>),
    Path,
    Method,
    Value,
    Newline,
    Tab,
}

/// How a piece is spelled in a format.
pub open spec fn spelled(piece: Piece) -> Seq<char> {
    match piece {
        Piece::Text(t) => t,
        Piece::Path => "{PATH}"@,
        Piece::Method => "{METHOD}"@,
        Piece::Value => "{VALUE}"@,
        Piece::Newline => "\\n"@,
        Piece::Tab => "\\t"@,
    }
}

/// What a piece stands for. Of the placeholders and escapes, the first `steps` are filled in, the
/// others keep their spelling.
pub open spec fn filled(
    piece: Piece,
    steps: int,
    path: Seq<char>,
    method: Seq<char>,
    value: Seq<char>,
) -> Seq<char> {
    match piece {
        Piece::Path if steps > 0 => path,
        Piece::Method if steps > 1 => method,
        Piece::Value if steps > 2 => value,
        Piece::Newline if steps > 3 => "\n"@,
        Piece::Tab if steps > 4 => "\t"@,
        _ => spelled(piece),
    }
}

/// The pieces one after another, with the first `steps` placeholders and escapes filled in.
pub open spec fn assembled(
    pieces: Seq<Piece>,
    steps: int,
    path: Seq<char>,
    method: Seq<char>,
    value: Seq<char>,
) -> Seq<char>
    decreases pieces.len(),
{
    if pieces.len() == 0 {
        Seq::<char>::empty()
    } else {
        filled(pieces[0], steps, path, method, value) + assembled(
            pieces.skip(1),
            steps,
            path,
            method,
            value,
        )
    }
}

/// Whether `t` holds nothing that could be taken for an escape.
pub open spec fn escape_free(t: Seq<char>) -> bool {
    inert(t, "\\n"@) && inert(t, "\\t"@)
}

/// Whether `t` holds nothing that could be taken for a placeholder or an escape.
pub open spec fn plain(t: Seq<char>) -> bool {
    &&& inert(t, "{PATH}"@)
    &&& inert(t, "{METHOD}"@)
    &&& inert(t, "{VALUE}"@)
    &&& escape_free(t)
}

/// What is replaced in a step of filling in a custom format.
spec fn step_from(step: int) -> Seq<char> {
    if step == 0 {
        "{PATH}"@
    } else if step == 1 {
        "{METHOD}"@
    } else if step == 2 {
        "{VALUE}"@
    } else if step == 3 {
        "\\n"@
    } else {
        "\\t"@
    }
}

/// What is put in its place.
spec fn step_to(step: int, path: Seq<char>, method: Seq<char>, value: Seq<char>) -> Seq<char> {
    if step == 0 {
        path
    } else if step == 1 {
        method
    } else if step == 2 {
        value
    } else if step == 3 {
        "\n"@
    } else {
        "\t"@
    }
}

/// One step fills in one more placeholder or escape and nothing else.
proof fn lemma_step(
    pieces: Seq<Piece>,
    step: int,
    path: Seq<char>,
    method: Seq<char>,
    value: Seq<char>,
)
    requires
        0 <= step < 5,
        plain(path),
        plain(method),
        escape_free(value),
        forall|i: int|
            0 <= i < pieces.len() ==> (#[trigger] pieces[i] matches Piece::Text(t) ==> plain(t)),
    ensures
        replaced(
            assembled(pieces, step, path, method, value),
            step_from(step),
            step_to(step, path, method, value),
        ) == assembled(pieces, step + 1, path, method, value),
    decreases pieces.len(),
{
    reveal_strlit("{PATH}");
    reveal_strlit("{METHOD}");
    reveal_strlit("{VALUE}");
    reveal_strlit("\\n");
    reveal_strlit("\\t");
    reveal_strlit("\n");
    reveal_strlit("\t");
    let from = step_from(step);
    let to = step_to(step, path, method, value);
    if pieces.len() > 0 {
        let piece = pieces[0];
        let tail = pieces.skip(1);
        assert forall|i: int| 0 <= i < tail.len() implies (#[trigger] tail[i] matches Piece::Text(
            t,
        ) ==> plain(t)) by {
            assert(tail[i] == pieces[i + 1]);
        }
        lemma_step(tail, step, path, method, value);
        let rest = assembled(tail, step, path, method, value);
        let now = filled(piece, step, path, method, value);
        if now == from && filled(piece, step + 1, path, method, value) == to {
            lemma_replaced_first(rest, from, to);
        } else {
            assert(filled(piece, step + 1, path, method, value) == now);
            assert(inert(now, from));
            lemma_replaced_inert(now, rest, from, to);
        }
    }
}

/// Placeholders may stand in a custom format in any number and combination: each is printed as
/// what it stands for, each escape as its character, and the text between them as it is. This
/// holds where nothing in the text, the path and the method could be taken for a placeholder or
/// an escape, and nothing in the value for an escape.
pub proof fn law_custom_fills_each_placeholder(
    pieces: Seq<Piece>,
    path: Seq<char>,
    method: Seq<char>,
    value: Seq<char>,
)
    requires
        plain(path),
        plain(method),
        escape_free(value),
        forall|i: int|
            0 <= i < pieces.len() ==> (#[trigger] pieces[i] matches Piece::Text(t) ==> plain(t)),
    ensures
        custom_text(assembled(pieces, 0, path, method, value), path, method, value)
            == assembled(pieces, 5, path, method, value),
{
    lemma_step(pieces, 0, path, method, value);
    lemma_step(pieces, 1, path, method, value);
    lemma_step(pieces, 2, path, method, value);
    lemma_step(pieces, 3, path, method, value);
    lemma_step(pieces, 4, path, method, value);
}

/// Five words name a format, and every other text is a custom format of its own.
pub proof fn law_formats_have_names(value: &str, r: OutputFormat)
    requires
        call_ensures(OutputFormat::from, (value,), r),
    ensures
        r is Cpon <==> value@ == "cpon"@,
        r is CponIndented <==> value@ == "icpon"@,
        r is ChainPack <==> value@ == "chainpack"@,
        r is Simple <==> value@ == "simple"@,
        r is Value <==> value@ == "value"@,
        r matches OutputFormat::Custom(text) ==> text@ == value@,
{
    reveal_strlit("cpon");
    reveal_strlit("icpon");
    reveal_strlit("chainpack");
    reveal_strlit("simple");
    reveal_strlit("value");
    assert("cpon"@[0] == 'c');
    assert("icpon"@[0] == 'i');
    assert("chainpack"@.len() == 9);
    assert("simple"@.len() == 6);
    assert("value"@[0] == 'v');
}

/// Whatever message a frame holds, the formats `cpon`, `icpon` and `chainpack` print the whole of
/// it: as Cpon on one line, as Cpon indented by tabs, and as packed bytes.
pub proof fn law_whole_messages_are_printed(
    raw: &[u8],
    format: &OutputFormat,
    meta: MetaView,
    r: Result<Vec<u8>, String>,
)
    requires
        call_ensures(print_resp, (raw, format), r),
        carries(raw@, meta),
    ensures
        r is Ok,
        format is Cpon ==> r->Ok_0@ == encode_utf8(message_cpon(raw@) + "\n"@),
        format is CponIndented ==> r->Ok_0@ == encode_utf8(
            message_cpon_indented(raw@, "\t"@) + "\n"@,
        ),
        format is ChainPack ==> r->Ok_0@ == message_chainpack(raw@),
{
}

/// The format `simple` prints a line that tells the kind of the message: the path, the method and
/// the parameter of a request or a signal, and the result or the error of a response. The format
/// `value` prints the parameter, the result or the error alone.
pub proof fn law_values_are_printed(
    raw: &[u8],
    format: &OutputFormat,
    meta: MetaView,
    r: Result<Vec<u8>, String>,
)
    requires
        call_ensures(print_resp, (raw, format), r),
        carries(raw@, meta),
    ensures
        r is Ok,
        ({
            let none = Seq::<char>::empty();
            let path = match meta.shv_path {
                Some(p) => p,
                None => none,
            };
            let method = match meta.method {
                Some(m) => m,
                None => none,
            };
            let param = param_cpon(raw@);
            let simple = match (meta.request_id, meta.method, result_cpon(raw@)) {
                (Some(_), Some(_), _) => "REQ "@ + path + ":"@ + method + " "@ + param + "\n"@,
                (Some(_), None, Ok(value)) => "RES "@ + value + "\n"@,
                (Some(_), None, Err(error)) => "ERR "@ + error + "\n"@,
                (None, _, _) => "SIG "@ + path + ":"@ + method + " "@ + param + "\n"@,
            };
            let value = match (meta.request_id, meta.method, result_cpon(raw@)) {
                (Some(_), None, Ok(value)) => value,
                (Some(_), None, Err(error)) => error,
                _ => param,
            };
            &&& format is Simple ==> r->Ok_0@ == encode_utf8(simple)
            &&& format is Value ==> r->Ok_0@ == encode_utf8(value + "\n"@)
        }),
{
}

/// A custom format prints its text with the placeholders filled in, one kind after another: the
/// path and the method of the message, empty where there is none, and its result, null where
/// there is none. Then the two escapes are filled in.
pub proof fn law_custom_formats_are_filled_in(
    raw: &[u8],
    text: String,
    format: &OutputFormat,
    meta: MetaView,
    r: Result<Vec<u8>, String>,
)
    requires
        call_ensures(print_resp, (raw, format), r),
        *format == OutputFormat::Custom(text),
        carries(raw@, meta),
    ensures
        r is Ok,
        ({
            let none = Seq::<char>::empty();
            let path = match meta.shv_path {
                Some(p) => p,
                None => none,
            };
            let method = match meta.method {
                Some(m) => m,
                None => none,
            };
            let value = match result_cpon(raw@) {
                Ok(value) => value,
                Err(_) => "null"@,
            };
            let a = replaced(text@, "{PATH}"@, path);
            let b = replaced(a, "{METHOD}"@, method);
            let c = replaced(b, "{VALUE}"@, value);
            let d = replaced(c, "\\n"@, "\n"@);
            r->Ok_0@ == encode_utf8(replaced(d, "\\t"@, "\t"@))
        }),
{
}

/// A custom format can be filled in from plain values, too.
pub proof fn law_custom_texts_are_written(
    format: &str,
    path: &str,
    method: &str,
    value: &str,
    r: String,
)
    requires
        call_ensures(write_custom, (format, path, method, value), r),
    ensures
        ({
            let a = replaced(format@, "{PATH}"@, path@);
            let b = replaced(a, "{METHOD}"@, method@);
            let c = replaced(b, "{VALUE}"@, value@);
            let d = replaced(c, "\\n"@, "\n"@);
            r@ == replaced(d, "\\t"@, "\t"@)
        }),
{
}

/// What is printed for a custom format made of pieces is what the pieces stand for, one after
/// another.
pub proof fn law_custom_formats_print_their_pieces(
    raw: &[u8],
    pieces: Seq<Piece>,
    text: String,
    format: &OutputFormat,
    path: Seq<char>,
    method: Seq<char>,
    value: Seq<char>,
    meta: MetaView,
    r: Result<Vec<u8>, String>,
)
    requires
        call_ensures(print_resp, (raw, format), r),
        *format == OutputFormat::Custom(text),
        text@ == assembled(pieces, 0, path, method, value),
        carries(raw@, meta),
        meta.shv_path == Some(path),
        meta.method == Some(method),
        result_cpon(raw@) == Ok::<Seq<char>, Seq<char>>(value),
        plain(path),
        plain(method),
        escape_free(value),
        forall|i: int|
            0 <= i < pieces.len() ==> (#[trigger] pieces[i] matches Piece::Text(t) ==> plain(t)),
    ensures
        r is Ok,
        r->Ok_0@ == encode_utf8(assembled(pieces, 5, path, method, value)),
{
    law_custom_fills_each_placeholder(pieces, path, method, value);
}

/// Pieces stand for what they name.
pub proof fn law_pieces_stand_for_what_they_name(
    path: Seq<char>,
    method: Seq<char>,
    value: Seq<char>,
    t: Seq<char>,
    rest: Seq<Piece>,
)
    ensures
        assembled(Seq::<Piece>::empty(), 5, path, method, value).len() == 0,
        assembled(seq![Piece::Text(t)] + rest, 5, path, method, value) == t + assembled(
            rest,
            5,
            path,
            method,
            value,
        ),
        assembled(seq![Piece::Path] + rest, 5, path, method, value) == path + assembled(
            rest,
            5,
            path,
            method,
            value,
        ),
        assembled(seq![Piece::Method] + rest, 5, path, method, value) == method + assembled(
            rest,
            5,
            path,
            method,
            value,
        ),
        assembled(seq![Piece::Value] + rest, 5, path, method, value) == value + assembled(
            rest,
            5,
            path,
            method,
            value,
        ),
        assembled(seq![Piece::Newline] + rest, 5, path, method, value) == "\n"@ + assembled(
            rest,
            5,
            path,
            method,
            value,
        ),
        assembled(seq![Piece::Tab] + rest, 5, path, method, value) == "\t"@ + assembled(
            rest,
            5,
            path,
            method,
            value,
        ),
{
    assert((seq![Piece::Newline] + rest).skip(1) =~= rest);
    assert((seq![Piece::Tab] + rest).skip(1) =~= rest);
    assert((seq![Piece::Text(t)] + rest).skip(1) =~= rest);
    assert((seq![Piece::Path] + rest).skip(1) =~= rest);
    assert((seq![Piece::Method] + rest).skip(1) =~= rest);
    assert((seq![Piece::Value] + rest).skip(1) =~= rest);
}

/// Nothing is printed for bytes that are no frame or hold no message: the reason is given.
pub proof fn law_only_messages_are_printed(
    raw: &[u8],
    format: &OutputFormat,
    r: Result<Vec<u8>, String>,
)
    requires
        call_ensures(print_resp, (raw, format), r),
        !meta_overflows(raw@),
        !frame_overflows(raw@),
    ensures
        frame_meta(raw@) matches Err(e) ==> (r matches Err(error) && error@ == "FramingError - "@
            + e),
        frame_meta(raw@) is Ok ==> (message_error(raw@) matches Some(e) ==> (r matches Err(error)
            && error@ == e)),
        r is Ok <==> frame_meta(raw@) is Ok && message_error(raw@) is None,
{
}

/// The lines that are made of plain values are those that are printed.
pub proof fn law_lines_are_written(
    meta: &FrameMeta,
    param: &str,
    result: &Result<String, String>,
    simple: String,
    value: String,
)
    requires
        call_ensures(write_simple_line, (meta, param, result), simple),
        call_ensures(write_value_line, (meta, param, result), value),
    ensures
        ({
            let none = Seq::<char>::empty();
            let path = match meta.shv_path {
                Some(p) => p@,
                None => none,
            };
            let method = match meta.method {
                Some(m) => m@,
                None => none,
            };
            let outcome = match *result {
                Ok(value) => value@,
                Err(error) => error@,
            };
            let kind = if meta.request_id is None {
                "SIG "@
            } else if meta.method is Some {
                "REQ "@
            } else if *result is Ok {
                "RES "@
            } else {
                "ERR "@
            };
            if meta.request_id is Some && meta.method is None {
                simple@ == kind + outcome + "\n"@ && value@ == outcome + "\n"@
            } else {
                simple@ == kind + path + ":"@ + method + " "@ + param@ + "\n"@ && value@ == param@
                    + "\n"@
            }
        }),
{
}

/// What cannot be read or holds no message is refused in the words of the reader, whatever the
/// format.
pub proof fn law_refusals_are_passed_on(
    raw: &[u8],
    format: &OutputFormat,
    meta: Result<FrameMeta, String>,
    body: Option<String>,
    r: Result<Vec<u8>, String>,
    m: Result<FrameMeta, String>,
)
    requires
        call_ensures(print_resp, (raw, format), r),
        call_ensures(open_message, (raw,), m),
        call_ensures(read_frame, (raw,), meta),
        call_ensures(check_body, (raw,), body),
    ensures
        meta matches Err(e) ==> (r matches Err(a) && a@ == e@) && (m matches Err(b) && b@ == e@),
        meta is Ok ==> (body matches Some(e) ==> (r matches Err(a) && a@ == e@) && (m matches Err(b)
            && b@ == e@)),
        meta matches Ok(x) ==> (body is None ==> r is Ok && (m matches Ok(y) && y.request_id
            == x.request_id && y.seqno == x.seqno && y.shv_path is Some == x.shv_path is Some
            && y.method is Some == x.method is Some)),
{
}

} // verus!
