//! gRPC-web framing: the request body that wraps a protobuf message, and the reading of a
//! response made of data frames and trailer frames.

use crate::status::ascii_lowercase;
use crate::text::{
    lemma_index_of_char_after_prefix, lemma_parse_decimal_i32, decimal_digits, trim_start, trim_end, is_white_space,
    decimal_string, decimal_text, find_char, from_utf8_lossy, index_of_char, lemma_index_of_char,
    lowercase, parse_i32, parse_i32_spec, to_chars, to_lowercase, trim, trim_bounds, utf8_lossy,
};
use vstd::prelude::*;
use vstd::slice::slice_to_vec;
use vstd::string::*;
use vstd::utf8::is_ascii_chars;

verus! {

/// Length of a frame header: one flag byte and a four-byte big-endian payload length.
pub const FRAME_HEADER_LEN: usize = 5;

/// Bit of the flag byte that marks a trailer frame.
pub const TRAILER_FRAME_FLAG: u8 = 0x80;

/// What goes wrong while reading a gRPC-web response.
#[derive(Debug)]
pub enum GrpcWebError {
    /// The response is shorter than one frame header.
    ResponseTooShort { len: usize },
    /// A frame header announces more payload than the response holds.
    InvalidFrameLength,
    /// The trailers carry a non-zero `grpc-status`.
    GrpcStatus { code: i32, message: Option<String> },
    /// The response holds no data frame.
    NoMessageData,
}

/// The characters of an optional string.
pub open spec fn option_chars(o: Option<String>) -> Option<Seq<char>> {
    match o {
        Some(s) => Some(s@),
        None => None,
    }
}

/// The bytes of an optional byte vector.
pub open spec fn option_bytes(o: Option<Vec<u8>>) -> Option<Seq<u8>> {
    match o {
        Some(v) => Some(v@),
        None => None,
    }
}

impl GrpcWebError {
    /// The text that describes the error.
    pub open spec fn text(self) -> Seq<char> {
        match self {
            GrpcWebError::ResponseTooShort { len } => "Response too short: "@ + decimal_text(
                len as int,
            ) + " bytes"@,
            GrpcWebError::InvalidFrameLength => "Invalid frame length"@,
            GrpcWebError::GrpcStatus { code, message } => match message {
                Some(m) => m@,
                None => "gRPC error "@ + decimal_text(code as int),
            },
            GrpcWebError::NoMessageData => "No message data in response"@,
        }
    }

    /// The text that describes the error.
    pub fn message(&self) -> (r: String)
        ensures
            r@ == self.text(),
    {
        match self {
            GrpcWebError::ResponseTooShort { len } => {
                let mut s = String::from_str("Response too short: ");
                let digits = decimal_string(*len as i128);
                s.append(digits.as_str());
                s.append(" bytes");
                s
            },
            GrpcWebError::InvalidFrameLength => String::from_str("Invalid frame length"),
            GrpcWebError::GrpcStatus { code, message } => match message {
                Some(m) => m.clone(),
                None => {
                    let mut s = String::from_str("gRPC error ");
                    let digits = decimal_string(*code as i128);
                    s.append(digits.as_str());
                    s
                },
            },
            GrpcWebError::NoMessageData => String::from_str("No message data in response"),
        }
    }
}

/// The value of the four bytes at `i`, read big-endian.
pub open spec fn be_u32_at(b: Seq<u8>, i: int) -> int {
    b[i] * 16777216 + b[i + 1] * 65536 + b[i + 2] * 256 + b[i + 3]
}

/// The four big-endian bytes of `n`, which lies below 2^32.
pub open spec fn be_u32_bytes(n: int) -> Seq<u8> {
    seq![
        (n / 16777216) as u8,
        ((n / 65536) % 256) as u8,
        ((n / 256) % 256) as u8,
        (n % 256) as u8,
    ]
}

/// A frame with the given flag and payload. The length field holds the payload's length
/// modulo 2^32.
pub open spec fn frame_bytes(flag: u8, payload: Seq<u8>) -> Seq<u8> {
    seq![flag] + be_u32_bytes((payload.len() % 0x1_0000_0000) as int) + payload
}

/// Wraps an encoded protobuf message in a data frame.
pub fn encode_request_body(message_bytes: &[u8]) -> (body: Vec<u8>)
    ensures
        body@ == frame_bytes(0, message_bytes@),
{
    let len = message_bytes.len() as u64;
    let n = len % 0x1_0000_0000;
    let mut body: Vec<u8> = Vec::new();
    body.push(0);
    body.push((n / 16777216) as u8);
    body.push(((n / 65536) % 256) as u8);
    body.push(((n / 256) % 256) as u8);
    body.push((n % 256) as u8);
    body.extend_from_slice(message_bytes);
    assert(body@ =~= frame_bytes(0, message_bytes@));
    body
}

/// Fails when the response is too short to hold even one frame header.
pub fn ensure_frame_present(response_bytes: &[u8]) -> (r: Result<(), GrpcWebError>)
    ensures
        response_bytes@.len() < FRAME_HEADER_LEN ==> r == Err::<(), GrpcWebError>(
            GrpcWebError::ResponseTooShort { len: response_bytes@.len() as usize },
        ),
        response_bytes@.len() >= FRAME_HEADER_LEN ==> r is Ok,
{
    if response_bytes.len() < FRAME_HEADER_LEN {
        return Err(GrpcWebError::ResponseTooShort { len: response_bytes.len() });
    }
    Ok(())
}

/// The payload length written big-endian in the four bytes at `offset`.
pub fn parse_frame_length(response_bytes: &[u8], offset: usize) -> (r: usize)
    requires
        offset + 4 <= response_bytes@.len(),
    ensures
        r == be_u32_at(response_bytes@, offset as int),
{
    let b0 = response_bytes[offset] as u32;
    let b1 = response_bytes[offset + 1] as u32;
    let b2 = response_bytes[offset + 2] as u32;
    let b3 = response_bytes[offset + 3] as u32;
    (b0 * 16777216 + b1 * 65536 + b2 * 256 + b3) as usize
}

/// Whether a frame flag marks a trailer frame: its high bit is set.
pub open spec fn is_trailer_flag(flag: u8) -> bool {
    flag >= 0x80
}

/// Whether a frame with this flag is a trailer frame.
pub fn is_trailer_frame(flag: u8) -> (r: bool)
    ensures
        r == is_trailer_flag(flag),
{
    assert((flag & 0x80u8 != 0) == (flag >= 0x80)) by (bit_vector);
    flag & TRAILER_FRAME_FLAG != 0
}


/// One frame of a response: its flag byte and its payload.
#[derive(Debug)]
pub struct Frame<'a> {
    pub flag: u8,
    pub data: &'a [u8],
}

/// What the frames of a response have given so far.
#[derive(Debug)]
pub struct ParsedFrames {
    /// The payload of the last data frame.
    pub message_data: Option<Vec<u8>>,
    /// The value of the last `grpc-status` trailer, when it parsed as an integer.
    pub grpc_status: Option<i32>,
    /// The value of the last `grpc-message` trailer.
    pub grpc_message: Option<String>,
}

/// The model of `ParsedFrames`: bytes and characters in place of vectors and strings.
pub struct ParsedFramesView {
    pub message_data: Option<Seq<u8>>,
    pub grpc_status: Option<i32>,
    pub grpc_message: Option<Seq<char>>,
}

impl View for ParsedFrames {
    type V = ParsedFramesView;

    open spec fn view(&self) -> ParsedFramesView {
        ParsedFramesView {
            message_data: option_bytes(self.message_data),
            grpc_status: self.grpc_status,
            grpc_message: option_chars(self.grpc_message),
        }
    }
}

/// Nothing read yet.
pub open spec fn empty_parsed() -> ParsedFramesView {
    ParsedFramesView { message_data: None, grpc_status: None, grpc_message: None }
}

impl ParsedFrames {
    /// Nothing read yet.
    pub fn new() -> (r: ParsedFrames)
        ensures
            r@ == empty_parsed(),
    {
        ParsedFrames { message_data: None, grpc_status: None, grpc_message: None }
    }
}

impl Default for ParsedFrames {
    fn default() -> (r: ParsedFrames)
        ensures
            r@ == empty_parsed(),
    {
        ParsedFrames::new()
    }
}

/// The state after one trailer line: a `grpc-status` line sets the status to its value
/// parsed as an integer (none when that fails), a `grpc-message` line sets the message;
/// keys are matched after trimming and lowercasing, values are trimmed. Lines without a
/// colon and other keys change nothing.
pub open spec fn apply_line(state: ParsedFramesView, line: Seq<char>) -> ParsedFramesView {
    let k = index_of_char(line, ':');
    if k >= line.len() {
        state
    } else {
        let key = lowercase(trim(line.take(k)));
        let value = trim(line.skip(k + 1));
        if key == "grpc-status"@ {
            ParsedFramesView { grpc_status: parse_i32_spec(value), ..state }
        } else if key == "grpc-message"@ {
            ParsedFramesView { grpc_message: Some(value), ..state }
        } else {
            state
        }
    }
}

/// `apply_line` for a line of ASCII characters, whose key is lowercased character by
/// character.
pub open spec fn apply_line_ascii(state: ParsedFramesView, line: Seq<char>) -> ParsedFramesView {
    let k = index_of_char(line, ':');
    if k >= line.len() {
        state
    } else {
        let key = ascii_lowercase(trim(line.take(k)));
        let value = trim(line.skip(k + 1));
        if key == "grpc-status"@ {
            ParsedFramesView { grpc_status: parse_i32_spec(value), ..state }
        } else if key == "grpc-message"@ {
            ParsedFramesView { grpc_message: Some(value), ..state }
        } else {
            state
        }
    }
}

/// The first line of `t`: everything before the first line feed, without a carriage
/// return just before that line feed.
pub open spec fn first_line(t: Seq<char>) -> Seq<char> {
    let nl = index_of_char(t, '\n');
    if nl < t.len() && nl > 0 && t[nl - 1] == '\r' {
        t.take(nl - 1)
    } else {
        t.take(nl)
    }
}

/// The state after each line of `t` in turn. Lines end at a line feed, optionally
/// preceded by a carriage return; a last line without a line feed counts too.
pub open spec fn apply_text(state: ParsedFramesView, t: Seq<char>) -> ParsedFramesView
    decreases t.len(),
{
    if t.len() == 0 {
        state
    } else {
        let nl = index_of_char(t, '\n');
        let next = apply_line(state, first_line(t));
        if nl < t.len() {
            proof {
                lemma_index_of_char(t, '\n');
            }
            apply_text(next, t.skip(nl + 1))
        } else {
            next
        }
    }
}

/// The state after a trailer frame with payload `data`, read as lossy UTF-8 text.
pub open spec fn apply_trailer(state: ParsedFramesView, data: Seq<u8>) -> ParsedFramesView {
    apply_text(state, utf8_lossy(data))
}

/// Applies one trailer line to `parsed`.
pub fn update_status_from_trailer_line(line: &str, parsed: &mut ParsedFrames)
    ensures
        final(parsed)@ == apply_line(old(parsed)@, line@),
        is_ascii_chars(line@) ==> final(parsed)@ == apply_line_ascii(old(parsed)@, line@),
{
    let chars = to_chars(line);
    let len = chars.len();
    let k = find_char(&chars, 0, ':');
    proof {
        assert(chars@.skip(0) =~= chars@);
    }
    if k >= len {
        return;
    }
    let (ks, ke) = trim_bounds(&chars, 0, k);
    proof {
        assert(chars@.subrange(0, k as int) =~= line@.take(k as int));
        assert(chars@.subrange(k + 1, len as int) =~= line@.skip(k + 1));
    }
    let key_text = line.substring_char(ks, ke);
    proof {
        if is_ascii_chars(line@) {
            assert forall|i: int| 0 <= i < key_text@.len() implies '\0' <= #[trigger] key_text@[i]
                <= '\u{7f}' by {
                assert(key_text@[i] == line@[ks + i]);
            }
        }
    }
    let key = to_lowercase(key_text);
    proof {
        if is_ascii_chars(line@) {
            assert(key@ =~= ascii_lowercase(key_text@));
        }
    }
    if key == String::from_str("grpc-status") {
        let (vs, ve) = trim_bounds(&chars, k + 1, len);
        parsed.grpc_status = parse_i32(&chars, vs, ve);
    } else if key == String::from_str("grpc-message") {
        let (vs, ve) = trim_bounds(&chars, k + 1, len);
        parsed.grpc_message = Some(String::from_str(line.substring_char(vs, ve)));
    }
}

/// Reads a trailer frame's payload as text and applies each of its lines to `parsed`.
pub fn parse_trailer_lines(frame_data: &[u8], parsed: &mut ParsedFrames)
    ensures
        final(parsed)@ == apply_trailer(old(parsed)@, frame_data@),
{
    let text = from_utf8_lossy(frame_data);
    let chars = to_chars(text.as_str());
    let len = chars.len();
    let mut pos: usize = 0;
    proof {
        assert(chars@.skip(0) =~= chars@);
    }
    while pos < len
        invariant
            pos <= len == chars@.len(),
            chars@ == text@,
            text@ == utf8_lossy(frame_data@),
            apply_trailer(old(parsed)@, frame_data@) == apply_text(
                parsed@,
                chars@.skip(pos as int),
            ),
        decreases len - pos,
    {
        let ghost t = chars@.skip(pos as int);
        let nl = find_char(&chars, pos, '\n');
        proof {
            lemma_index_of_char(t, '\n');
        }
        let end = if nl < len && nl > pos && chars[nl - 1] == '\r' {
            nl - 1
        } else {
            nl
        };
        proof {
            assert(first_line(t) =~= chars@.subrange(pos as int, end as int));
        }
        let line = text.as_str().substring_char(pos, end);
        update_status_from_trailer_line(line, parsed);
        if nl < len {
            proof {
                assert(t.skip(nl - pos + 1) =~= chars@.skip(nl + 1));
            }
            pos = nl + 1;
        } else {
            proof {
                assert(chars@.skip(len as int) =~= Seq::<char>::empty());
            }
            pos = len;
        }
    }
}


/// Whether a whole frame header starts at `offset`.
pub open spec fn has_header_at(b: Seq<u8>, offset: int) -> bool {
    offset + FRAME_HEADER_LEN <= b.len()
}

/// Where the frame whose header starts at `offset` ends.
pub open spec fn frame_end_at(b: Seq<u8>, offset: int) -> int {
    offset + FRAME_HEADER_LEN + be_u32_at(b, offset + 1)
}

/// The state after one frame: a trailer frame's lines are applied, a data frame's
/// payload becomes the message.
pub open spec fn apply_frame(state: ParsedFramesView, flag: u8, data: Seq<u8>) -> ParsedFramesView {
    if is_trailer_flag(flag) {
        apply_trailer(state, data)
    } else {
        ParsedFramesView { message_data: Some(data), ..state }
    }
}

/// The state after the frames from `offset` on, or none when a frame runs past the end.
/// Reading stops where fewer bytes than a frame header are left.
pub open spec fn frames_from(b: Seq<u8>, offset: int, state: ParsedFramesView) -> Option<
    ParsedFramesView,
>
    decreases b.len() - offset,
{
    if offset < 0 || !has_header_at(b, offset) {
        Some(state)
    } else if frame_end_at(b, offset) > b.len() {
        None
    } else {
        let end = frame_end_at(b, offset);
        let data = b.subrange(offset + FRAME_HEADER_LEN, end);
        frames_from(b, end, apply_frame(state, b[offset], data))
    }
}

/// What the frames of a whole response give, or none when a frame runs past the end.
pub open spec fn parsed_response(b: Seq<u8>) -> Option<ParsedFramesView> {
    frames_from(b, 0, empty_parsed())
}

/// Reads the frame whose header starts at `*offset` and moves `*offset` past it.
/// Gives nothing when fewer bytes than a header are left, and fails, leaving `*offset`
/// as it was, when the frame runs past the end.
pub fn next_frame<'a>(response_bytes: &'a [u8], offset: &mut usize) -> (r: Result<
    Option<Frame<'a>>,
    GrpcWebError,
>)
    ensures
        ({
            let b = response_bytes@;
            let o = *old(offset) as int;
            &&& !has_header_at(b, o) ==> (r matches Ok(None) && *final(offset) == o)
            &&& has_header_at(b, o) && frame_end_at(b, o) > b.len() ==> (r matches Err(
                GrpcWebError::InvalidFrameLength,
            ) && *final(offset) == o)
            &&& has_header_at(b, o) && frame_end_at(b, o) <= b.len() ==> (r matches Ok(Some(f))
                && f.flag == b[o] && f.data@ == b.subrange(o + FRAME_HEADER_LEN, frame_end_at(b, o))
                && *final(offset) == frame_end_at(b, o))
        }),
{
    let len = response_bytes.len();
    if *offset >= len {
        return Ok(None);
    }
    if len - *offset < FRAME_HEADER_LEN {
        return Ok(None);
    }
    let flag = response_bytes[*offset];
    let frame_length = parse_frame_length(response_bytes, *offset + 1);
    let frame_start = *offset + FRAME_HEADER_LEN;
    if frame_length > len - frame_start {
        return Err(GrpcWebError::InvalidFrameLength);
    }
    let frame_end = frame_start + frame_length;
    *offset = frame_end;
    Ok(Some(Frame { flag, data: &response_bytes[frame_start..frame_end] }))
}

/// Reads every frame of a response: the payload of the last data frame is the message,
/// and trailer frames set the status and the status message.
pub fn parse_response_frames(response_bytes: &[u8]) -> (r: Result<ParsedFrames, GrpcWebError>)
    ensures
        parsed_response(response_bytes@) is None ==> r matches Err(
            GrpcWebError::InvalidFrameLength,
        ),
        parsed_response(response_bytes@) matches Some(p) ==> (r matches Ok(parsed) && parsed@ == p),
{
    let mut parsed = ParsedFrames::new();
    let mut offset: usize = 0;
    let ghost b = response_bytes@;
    loop
        invariant
            b == response_bytes@,
            offset <= b.len(),
            parsed_response(b) == frames_from(b, offset as int, parsed@),
        decreases b.len() - offset,
    {
        let ghost prev = parsed@;
        match next_frame(response_bytes, &mut offset) {
            Err(e) => {
                return Err(e);
            },
            Ok(None) => {
                return Ok(parsed);
            },
            Ok(Some(frame)) => {
                if is_trailer_frame(frame.flag) {
                    parse_trailer_lines(frame.data, &mut parsed);
                } else {
                    parsed.message_data = Some(slice_to_vec(frame.data));
                }
                assert(parsed@ == apply_frame(prev, frame.flag, frame.data@));
            },
        }
    }
}


/// Fails when the trailers carry a non-zero status: the error keeps the code and the
/// trailers' status message.
pub fn ensure_grpc_success(status: Option<i32>, message: Option<String>) -> (r: Result<
    (),
    GrpcWebError,
>)
    ensures
        (status matches Some(code) && code != 0) ==> r == Err::<(), GrpcWebError>(
            GrpcWebError::GrpcStatus { code: status->0, message },
        ),
        !(status matches Some(code) && code != 0) ==> r is Ok,
{
    if let Some(code) = status {
        if code != 0 {
            return Err(GrpcWebError::GrpcStatus { code, message });
        }
    }
    Ok(())
}

/// The payload of the message, or an error when the response held no data frame.
pub fn response_payload(message_data: Option<Vec<u8>>) -> (r: Result<Vec<u8>, GrpcWebError>)
    ensures
        message_data is None ==> r matches Err(GrpcWebError::NoMessageData),
        message_data matches Some(v) ==> r == Ok::<Vec<u8>, GrpcWebError>(v),
{
    match message_data {
        Some(payload) => Ok(payload),
        None => Err(GrpcWebError::NoMessageData),
    }
}

/// How reading a response ends, in terms of bytes and characters.
pub enum ResponseOutcome {
    TooShort { len: nat },
    InvalidFrameLength,
    Status { code: i32, message: Option<Seq<char>> },
    NoMessageData,
    Message { data: Seq<u8> },
}

/// The outcome that a result of `read_response` stands for.
pub open spec fn outcome_of(r: Result<Vec<u8>, GrpcWebError>) -> ResponseOutcome {
    match r {
        Ok(v) => ResponseOutcome::Message { data: v@ },
        Err(GrpcWebError::ResponseTooShort { len }) => ResponseOutcome::TooShort { len: len as nat },
        Err(GrpcWebError::InvalidFrameLength) => ResponseOutcome::InvalidFrameLength,
        Err(GrpcWebError::GrpcStatus { code, message }) => ResponseOutcome::Status {
            code,
            message: option_chars(message),
        },
        Err(GrpcWebError::NoMessageData) => ResponseOutcome::NoMessageData,
    }
}

/// Whether the trailers report a failure: a status other than 0.
pub open spec fn status_failed(p: ParsedFramesView) -> bool {
    p.grpc_status matches Some(code) && code != 0
}

/// How reading the response `b` ends: too short for a frame header, a frame that runs past
/// the end, a non-zero status, no data frame, or the payload of the last data frame.
pub open spec fn response_outcome(b: Seq<u8>) -> ResponseOutcome {
    if b.len() < FRAME_HEADER_LEN {
        ResponseOutcome::TooShort { len: b.len() }
    } else {
        match parsed_response(b) {
            None => ResponseOutcome::InvalidFrameLength,
            Some(p) => if status_failed(p) {
                ResponseOutcome::Status { code: p.grpc_status->0, message: p.grpc_message }
            } else {
                match p.message_data {
                    None => ResponseOutcome::NoMessageData,
                    Some(m) => ResponseOutcome::Message { data: m },
                }
            },
        }
    }
}

/// Reads a whole response: checks that it holds a frame, reads its frames, checks the
/// status, and gives the payload of the message.
pub fn read_response(response_bytes: &[u8]) -> (r: Result<Vec<u8>, GrpcWebError>)
    ensures
        outcome_of(r) == response_outcome(response_bytes@),
{
    ensure_frame_present(response_bytes)?;
    let parsed = parse_response_frames(response_bytes)?;
    ensure_grpc_success(parsed.grpc_status, parsed.grpc_message)?;
    response_payload(parsed.message_data)
}

/// The URL of a method: the base URL, the service and the method, joined by `/`.
pub fn request_url(base_url: &str, service: &str, method: &str) -> (r: String)
    ensures
        r@ == base_url@ + "/"@ + service@ + "/"@ + method@,
{
    let mut url = String::from_str(base_url);
    url.append("/");
    url.append(service);
    url.append("/");
    url.append(method);
    url
}

/// The headers of a request, as names and values.
pub open spec fn request_headers_spec(token: Option<Seq<char>>) -> Seq<(Seq<char>, Seq<char>)> {
    let fixed = seq![
        ("Content-Type"@, "application/grpc-web+proto"@),
        ("Accept"@, "application/grpc-web+proto"@),
        ("x-grpc-web"@, "1"@),
    ];
    match token {
        Some(t) => fixed.push(("Authorization"@, "Bearer "@ + t)),
        None => fixed,
    }
}

/// The characters of each header name and value.
pub open spec fn headers_view(h: Seq<(String, String)>) -> Seq<(Seq<char>, Seq<char>)> {
    h.map_values(|p: (String, String)| (p.0@, p.1@))
}

/// The headers of a gRPC-web request: the content type and accepted type, the gRPC-web
/// marker, and a bearer token when there is one.
pub fn request_headers(token: &Option<String>) -> (r: Vec<(String, String)>)
    ensures
        headers_view(r@) == request_headers_spec(option_chars(*token)),
{
    let mut headers: Vec<(String, String)> = Vec::new();
    headers.push(
        (String::from_str("Content-Type"), String::from_str("application/grpc-web+proto")),
    );
    headers.push((String::from_str("Accept"), String::from_str("application/grpc-web+proto")));
    headers.push((String::from_str("x-grpc-web"), String::from_str("1")));
    if let Some(t) = token {
        let mut value = String::from_str("Bearer ");
        value.append(t.as_str());
        headers.push((String::from_str("Authorization"), value));
    }
    assert(headers_view(headers@) =~= request_headers_spec(option_chars(*token)));
    headers
}


/// The four big-endian bytes of `n` read back give `n`.
proof fn lemma_be_u32_roundtrip(n: int)
    requires
        0 <= n < 0x1_0000_0000,
    ensures
        be_u32_at(be_u32_bytes(n), 0) == n,
{
    let b = be_u32_bytes(n);
    assert(0 <= n / 16777216 < 256) by (nonlinear_arith)
        requires
            0 <= n < 0x1_0000_0000,
    ;
    assert((n / 16777216) * 16777216 + ((n / 65536) % 256) * 65536 + ((n / 256) % 256) * 256 + n
        % 256 == n) by (nonlinear_arith)
        requires
            0 <= n < 0x1_0000_0000,
    ;
    assert(b[0] == n / 16777216);
    assert(b[1] == (n / 65536) % 256);
    assert(b[2] == (n / 256) % 256);
    assert(b[3] == n % 256);
}

/// Reading frames from `pre + rest` at position `pre.len() + k` is reading `rest` at `k`.
proof fn lemma_frames_shift(pre: Seq<u8>, rest: Seq<u8>, k: int, state: ParsedFramesView)
    requires
        0 <= k,
    ensures
        frames_from(pre + rest, pre.len() + k, state) == frames_from(rest, k, state),
    decreases rest.len() - k,
{
    let whole = pre + rest;
    let o = pre.len() + k;
    if has_header_at(rest, k) {
        assert(whole[o] == rest[k]);
        assert(whole[o + 1] == rest[k + 1]);
        assert(whole[o + 2] == rest[k + 2]);
        assert(whole[o + 3] == rest[k + 3]);
        assert(whole[o + 4] == rest[k + 4]);
        assert(be_u32_at(whole, o + 1) == be_u32_at(rest, k + 1));
        if frame_end_at(rest, k) <= rest.len() {
            let end = frame_end_at(rest, k);
            assert(whole.subrange(o + FRAME_HEADER_LEN, pre.len() + end) =~= rest.subrange(
                k + FRAME_HEADER_LEN,
                end,
            ));
            lemma_frames_shift(
                pre,
                rest,
                end,
                apply_frame(state, rest[k], rest.subrange(k + FRAME_HEADER_LEN, end)),
            );
        }
    }
}

/// Frames are read in order: a response that starts with a whole frame is read as that
/// frame applied to the state, then the rest of the response.
pub proof fn lemma_frames_in_order(flag: u8, payload: Seq<u8>, rest: Seq<u8>, state: ParsedFramesView)
    requires
        payload.len() < 0x1_0000_0000,
    ensures
        frames_from(frame_bytes(flag, payload) + rest, 0, state) == frames_from(
            rest,
            0,
            apply_frame(state, flag, payload),
        ),
{
    let f = frame_bytes(flag, payload);
    let whole = f + rest;
    let n = payload.len() as int;
    lemma_be_u32_roundtrip(n);
    assert(n % 0x1_0000_0000 == n);
    let hdr = be_u32_bytes(n);
    assert(whole[0] == flag);
    assert(whole[1] == hdr[0]);
    assert(whole[2] == hdr[1]);
    assert(whole[3] == hdr[2]);
    assert(whole[4] == hdr[3]);
    assert(be_u32_at(whole, 1) == n);
    assert(whole.subrange(FRAME_HEADER_LEN as int, FRAME_HEADER_LEN + n) =~= payload);
    lemma_frames_shift(f, rest, 0, apply_frame(state, flag, payload));
}

/// A request body, read back as a response, gives exactly the message that it wraps.
pub proof fn lemma_encoded_body_reads_back(message: Seq<u8>)
    requires
        message.len() < 0x1_0000_0000,
    ensures
        parsed_response(frame_bytes(0, message)) == Some(
            ParsedFramesView { message_data: Some(message), grpc_status: None, grpc_message: None },
        ),
        response_outcome(frame_bytes(0, message)) == (ResponseOutcome::Message { data: message }),
{
    let empty = Seq::<u8>::empty();
    assert(frame_bytes(0, message) + empty =~= frame_bytes(0, message));
    lemma_frames_in_order(0, message, empty, empty_parsed());
}


/// `line` without one carriage return at its end.
pub open spec fn strip_cr(line: Seq<char>) -> Seq<char> {
    if line.len() > 0 && line.last() == '\r' {
        line.drop_last()
    } else {
        line
    }
}

/// Trailer lines are applied in order: text that starts with a line and a line feed is
/// read as that line, without a carriage return at its end, and then the rest of the text.
pub proof fn lemma_trailer_lines_in_order(
    state: ParsedFramesView,
    line: Seq<char>,
    rest: Seq<char>,
)
    requires
        forall|i: int| 0 <= i < line.len() ==> line[i] != '\n',
    ensures
        apply_text(state, line + seq!['\n'] + rest) == apply_text(
            apply_line(state, strip_cr(line)),
            rest,
        ),
{
    let t = line + seq!['\n'] + rest;
    lemma_index_of_char(t, '\n');
    let nl = index_of_char(t, '\n');
    assert(t[line.len() as int] == '\n');
    if nl < line.len() {
        assert(t[nl] == line[nl]);
    }
    assert(nl == line.len());
    assert(first_line(t) =~= strip_cr(line));
    assert(t.skip(nl + 1) =~= rest);
}


/// `state` with its status replaced by `status`.
pub open spec fn with_status(state: ParsedFramesView, status: Option<i32>) -> ParsedFramesView {
    ParsedFramesView { grpc_status: status, ..state }
}

/// `state` with its message replaced by `message`.
pub open spec fn with_message(state: ParsedFramesView, message: Seq<char>) -> ParsedFramesView {
    ParsedFramesView { grpc_message: Some(message), ..state }
}

/// A trailer line is split at its first colon: for a key without a colon, the line
/// `key:v` sets the status to `v` trimmed and parsed as an `i32` when the trimmed,
/// lowercased key is `grpc-status`, sets the message to `v` trimmed when it is
/// `grpc-message`, and changes nothing otherwise. The value is all of the text after the
/// colon, whether or not a space follows it.
pub proof fn lemma_trailer_line_splits_at_first_colon(
    state: ParsedFramesView,
    key: Seq<char>,
    v: Seq<char>,
)
    requires
        forall|i: int| 0 <= i < key.len() ==> key[i] != ':',
    ensures
        apply_line(state, key + seq![':'] + v) == (if lowercase(trim(key)) == "grpc-status"@ {
            with_status(state, parse_i32_spec(trim(v)))
        } else if lowercase(trim(key)) == "grpc-message"@ {
            with_message(state, trim(v))
        } else {
            state
        }),
        apply_line_ascii(state, key + seq![':'] + v) == (if ascii_lowercase(trim(key))
            == "grpc-status"@ {
            with_status(state, parse_i32_spec(trim(v)))
        } else if ascii_lowercase(trim(key)) == "grpc-message"@ {
            with_message(state, trim(v))
        } else {
            state
        }),
{
    let line = key + seq![':'] + v;
    lemma_index_of_char_after_prefix(key, ':', v);
    assert(line.take(key.len() as int) =~= key);
    assert(line.skip(key.len() as int + 1) =~= v);
}

/// `grpc-status` and `grpc-message` are their own trimmed, lowercased forms, and hold no
/// colon.
proof fn lemma_trailer_keys()
    ensures
        trim("grpc-status"@) == "grpc-status"@,
        ascii_lowercase("grpc-status"@) == "grpc-status"@,
        forall|i: int| 0 <= i < "grpc-status"@.len() ==> "grpc-status"@[i] != ':',
        trim("grpc-message"@) == "grpc-message"@,
        ascii_lowercase("grpc-message"@) == "grpc-message"@,
        forall|i: int| 0 <= i < "grpc-message"@.len() ==> "grpc-message"@[i] != ':',
        "grpc-status"@ != "grpc-message"@,
{
    reveal_strlit("grpc-status");
    reveal_strlit("grpc-message");
    assert(ascii_lowercase("grpc-status"@) =~= "grpc-status"@);
    assert(ascii_lowercase("grpc-message"@) =~= "grpc-message"@);
    assert(trim_start("grpc-status"@) == "grpc-status"@);
    assert(trim_end("grpc-status"@) == "grpc-status"@);
    assert(trim_start("grpc-message"@) == "grpc-message"@);
    assert(trim_end("grpc-message"@) == "grpc-message"@);
    assert("grpc-status"@.len() != "grpc-message"@.len());
}

/// A `grpc-status:` line, with or without spaces around the value, whose value is an
/// `i32` written in decimal sets the status to that number and leaves the rest.
pub proof fn lemma_grpc_status_line_sets_status(
    state: ParsedFramesView,
    n: i32,
    before: Seq<char>,
    after: Seq<char>,
)
    requires
        forall|i: int| 0 <= i < before.len() ==> is_white_space(before[i]),
        forall|i: int| 0 <= i < after.len() ==> is_white_space(after[i]),
    ensures
        is_ascii_chars(before + decimal_text(n as int) + after) ==> is_ascii_chars(
            "grpc-status"@ + seq![':'] + before + decimal_text(n as int) + after,
        ),
        apply_line_ascii(state, "grpc-status"@ + seq![':'] + (before + decimal_text(n as int) + after))
            == with_status(state, Some(n)),
{
    lemma_trailer_keys();
    let d = decimal_text(n as int);
    let v = before + d + after;
    lemma_parse_decimal_i32(n);
    lemma_trim_around(before, d, after);
    lemma_trailer_line_splits_at_first_colon(state, "grpc-status"@, v);
    reveal_strlit("grpc-status");
    let line = "grpc-status"@ + seq![':'] + before + d + after;
    if is_ascii_chars(v) {
        assert forall|i: int| 0 <= i < line.len() implies '\0' <= #[trigger] line[i] <= '\u{7f}' by {
            if i >= 12 {
                assert(line[i] == v[i - 12]);
            }
        }
    }
}

/// A `grpc-message:` line sets the message to all of the text after the colon, trimmed,
/// and leaves the rest.
pub proof fn lemma_grpc_message_line_sets_message(state: ParsedFramesView, m: Seq<char>)
    ensures
        apply_line_ascii(state, "grpc-message"@ + seq![':'] + m) == with_message(state, trim(m)),
        lowercase("grpc-message"@) == "grpc-message"@ ==> apply_line(
            state,
            "grpc-message"@ + seq![':'] + m,
        ) == with_message(state, trim(m)),
{
    lemma_trailer_keys();
    lemma_trailer_line_splits_at_first_colon(state, "grpc-message"@, m);
}

/// Trimming whitespace around a text that neither starts nor ends with whitespace gives
/// that text.
proof fn lemma_trim_around(before: Seq<char>, d: Seq<char>, after: Seq<char>)
    requires
        d.len() >= 1,
        !is_white_space(d[0]),
        !is_white_space(d.last()),
        forall|i: int| 0 <= i < before.len() ==> is_white_space(before[i]),
        forall|i: int| 0 <= i < after.len() ==> is_white_space(after[i]),
    ensures
        trim(before + d + after) == d,
    decreases before.len() + after.len(),
{
    if before.len() > 0 {
        let t = before + d + after;
        assert(t.drop_first() =~= before.drop_first() + d + after);
        lemma_trim_around(before.drop_first(), d, after);
        assert(trim_start(t) == trim_start(t.drop_first()));
    } else if after.len() > 0 {
        let t = before + d + after;
        assert(t.drop_last() =~= before + d + after.drop_last());
        lemma_trim_around(before, d, after.drop_last());
        assert(before + d + after =~= d + after);
        lemma_trim_start_fixed(d + after);
        lemma_trim_start_fixed(d + after.drop_last());
        assert((d + after).drop_last() =~= d + after.drop_last());
        assert(trim_end(d + after) == trim_end(d + after.drop_last()));
    } else {
        assert(before + d + after =~= d);
        assert(trim_start(d) == d);
        assert(trim_end(d) == d);
    }
}

/// A text that does not start with whitespace is its own `trim_start`.
proof fn lemma_trim_start_fixed(t: Seq<char>)
    requires
        t.len() >= 1,
        !is_white_space(t[0]),
    ensures
        trim_start(t) == t,
{
}

} // verus!
