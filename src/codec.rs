use vstd::prelude::*;
use vstd::utf8::{
    decode_utf8, encode_utf8, encode_utf8_decode_utf8, encode_utf8_valid_utf8, valid_utf8,
};

use bytes::BytesMut;

use crate::escape::no_marker;
use crate::parser::{
    has_prefix, lemma_parse_operation_text, lemma_parse_response_text,
    lemma_parse_server_error_text, operation_markless, parse_operation, parse_operation_spec,
    parse_response, parse_response_spec, response_markless, ParseError, ParseErrorView,
};
use crate::protocol::{
    encode_operation, encode_response, encode_server_error, err_prefix, get_prefix, list_keyword,
    ok_get_prefix, ok_list_prefix, operation_text, response_text, server_error_text, texts,
    Operation, OperationView, Response, ResponseView,
};

verus! {

/// The byte buffer of the `bytes` crate, which the transport fills and drains.
#[verifier::external_type_specification]
#[verifier::external_body]
pub struct ExBytesMut(BytesMut);

/// The bytes that a buffer holds, in order.
pub uninterp spec fn buffered(b: BytesMut) -> Seq<u8>;

/// Relies on `BytesMut::is_empty`: true exactly when the buffer holds no byte.
#[verifier::external_body]
fn buffer_is_empty(b: &BytesMut) -> (r: bool)
    ensures
        r == (buffered(*b).len() == 0),
{
    b.is_empty()
}

/// Relies on `BytesMut`'s `Deref` to `[u8]`, which gives the bytes it holds;
/// they are copied out.
#[verifier::external_body]
fn buffer_bytes(b: &BytesMut) -> (r: Vec<u8>)
    ensures
        r@ == buffered(*b),
{
    b.to_vec()
}

/// Relies on `BytesMut::clear`: the buffer holds no byte afterwards.
#[verifier::external_body]
fn buffer_clear(b: &mut BytesMut)
    ensures
        buffered(*final(b)) == Seq::<u8>::empty(),
{
    b.clear()
}

/// Relies on `BytesMut::extend_from_slice`: the bytes are appended. It
/// panics when the new length overflows the capacity that can be allocated.
#[verifier::external_body]
fn buffer_extend(b: &mut BytesMut, s: &[u8])
    requires
        buffered(*old(b)).len() + s@.len() <= isize::MAX,
    ensures
        buffered(*final(b)) == buffered(*old(b)) + s@,
{
    b.extend_from_slice(s)
}

/// Relies on std's `String::from_utf8`: it succeeds exactly on UTF-8 bytes,
/// with the text that they encode.
#[verifier::external_body]
fn text_from_utf8(v: Vec<u8>) -> (r: Option<String>)
    ensures
        match r {
            Some(s) => valid_utf8(v@) && s@ == decode_utf8(v@),
            None => !valid_utf8(v@),
        },
{
    String::from_utf8(v).ok()
}

/// Why a codec could not produce a value.
#[derive(Debug, Clone, PartialEq)]
pub enum ProtocolError {
    /// The frame is not valid protocol text, or it is a server error.
    ParseError { source: ParseError },
    /// The transport failed.
    IOError { message: String },
    /// The frame is not UTF-8 text.
    EncodingError,
    /// The reply is of another kind than the request asked for.
    UnexpectedResponse,
}

/// What a `ProtocolError` holds.
pub enum ProtocolErrorView {
    ParseError { source: ParseErrorView },
    IOError { message: Seq<char> },
    EncodingError,
    UnexpectedResponse,
}

impl View for ProtocolError {
    type V = ProtocolErrorView;

    open spec fn view(&self) -> ProtocolErrorView {
        match self {
            ProtocolError::ParseError { source } => ProtocolErrorView::ParseError { source: source@ },
            ProtocolError::IOError { message } => ProtocolErrorView::IOError { message: message@ },
            ProtocolError::EncodingError => ProtocolErrorView::EncodingError,
            ProtocolError::UnexpectedResponse => ProtocolErrorView::UnexpectedResponse,
        }
    }
}

/// The text of a frame, when it is UTF-8.
pub open spec fn frame_text(b: Seq<u8>) -> Option<Seq<char>> {
    if valid_utf8(b) {
        Some(decode_utf8(b))
    } else {
        None
    }
}

/// What decoding a buffer that holds `b` gives: nothing yet when it is empty,
/// else the request that the whole buffer holds as one frame.
pub open spec fn decode_operation_spec(b: Seq<u8>) -> Result<Option<OperationView>, ProtocolErrorView> {
    if b.len() == 0 {
        Ok(None)
    } else {
        match frame_text(b) {
            None => Err(ProtocolErrorView::EncodingError),
            Some(t) => match parse_operation_spec(t) {
                Ok(v) => Ok(Some(v)),
                Err(e) => Err(ProtocolErrorView::ParseError { source: e }),
            },
        }
    }
}

/// What decoding a buffer that holds `b` gives: nothing yet when it is empty,
/// else the reply that the whole buffer holds as one frame.
pub open spec fn decode_response_spec(b: Seq<u8>) -> Result<Option<ResponseView>, ProtocolErrorView> {
    if b.len() == 0 {
        Ok(None)
    } else {
        match frame_text(b) {
            None => Err(ProtocolErrorView::EncodingError),
            Some(t) => match parse_response_spec(t) {
                Ok(v) => Ok(Some(v)),
                Err(e) => Err(ProtocolErrorView::ParseError { source: e }),
            },
        }
    }
}

pub open spec fn operation_result_view(r: Result<Option<Operation>, ProtocolError>) -> Result<
    Option<OperationView>,
    ProtocolErrorView,
> {
    match r {
        Ok(Some(v)) => Ok(Some(v@)),
        Ok(None) => Ok(None),
        Err(e) => Err(e@),
    }
}

pub open spec fn response_result_view(r: Result<Option<Response>, ProtocolError>) -> Result<
    Option<ResponseView>,
    ProtocolErrorView,
> {
    match r {
        Ok(Some(v)) => Ok(Some(v@)),
        Ok(None) => Ok(None),
        Err(e) => Err(e@),
    }
}

/// Takes the whole buffer as one frame and empties it; `None` when the frame
/// is not UTF-8.
fn take_frame(src: &mut BytesMut) -> (r: Option<String>)
    requires
        buffered(*old(src)).len() > 0,
    ensures
        buffered(*final(src)) == Seq::<u8>::empty(),
        match r {
            Some(s) => frame_text(buffered(*old(src))) == Some(s@),
            None => frame_text(buffered(*old(src))) is None,
        },
{
    let bytes = buffer_bytes(src);
    buffer_clear(src);
    text_from_utf8(bytes)
}

/// The codec of requests: it reads requests from and writes requests to a buffer.
pub struct ProtocolOperationCodec;

impl ProtocolOperationCodec {
    /// Reads a request from the buffer. An empty buffer gives `Ok(None)`;
    /// otherwise its whole content is one frame, and the buffer is emptied
    /// whatever the outcome.
    pub fn decode(&mut self, src: &mut BytesMut) -> (r: Result<Option<Operation>, ProtocolError>)
        ensures
            operation_result_view(r) == decode_operation_spec(buffered(*old(src))),
            buffered(*final(src)) == Seq::<u8>::empty(),
    {
        if buffer_is_empty(src) {
            return Ok(None);
        }
        match take_frame(src) {
            None => Err(ProtocolError::EncodingError),
            Some(text) => match parse_operation(text.as_str()) {
                Ok(op) => Ok(Some(op)),
                Err(e) => Err(ProtocolError::ParseError { source: e }),
            },
        }
    }

    /// Appends the bytes of a request to the buffer.
    pub fn encode(&mut self, item: Operation, dst: &mut BytesMut) -> (r: Result<(), ProtocolError>)
        requires
            buffered(*old(dst)).len() + encode_utf8(operation_text(item@)).len() <= isize::MAX,
        ensures
            r is Ok,
            buffered(*final(dst)) == buffered(*old(dst)) + encode_utf8(operation_text(item@)),
    {
        let bytes = encode_operation(&item);
        buffer_extend(dst, bytes.as_slice());
        Ok(())
    }
}

/// The codec of replies: it reads replies from and writes replies to a buffer.
pub struct ProtocolResponseCodec;

impl ProtocolResponseCodec {
    /// Reads a reply from the buffer. An empty buffer gives `Ok(None)`;
    /// otherwise its whole content is one frame, and the buffer is emptied
    /// whatever the outcome. An `ERR` frame gives the server's message as an
    /// error.
    pub fn decode(&mut self, src: &mut BytesMut) -> (r: Result<Option<Response>, ProtocolError>)
        ensures
            response_result_view(r) == decode_response_spec(buffered(*old(src))),
            buffered(*final(src)) == Seq::<u8>::empty(),
    {
        if buffer_is_empty(src) {
            return Ok(None);
        }
        match take_frame(src) {
            None => Err(ProtocolError::EncodingError),
            Some(text) => match parse_response(text.as_str()) {
                Ok(v) => Ok(Some(v)),
                Err(e) => Err(ProtocolError::ParseError { source: e }),
            },
        }
    }

    /// Appends the bytes of a server error to the buffer.
    pub fn encode_error(&mut self, message: &str, dst: &mut BytesMut) -> (r: Result<(), ProtocolError>)
        requires
            buffered(*old(dst)).len() + encode_utf8(server_error_text(message@)).len() <= isize::MAX,
        ensures
            r is Ok,
            buffered(*final(dst)) == buffered(*old(dst)) + encode_utf8(server_error_text(message@)),
    {
        let bytes = encode_server_error(message);
        buffer_extend(dst, bytes.as_slice());
        Ok(())
    }

    /// Appends the bytes of a reply to the buffer.
    pub fn encode(&mut self, item: Response, dst: &mut BytesMut) -> (r: Result<(), ProtocolError>)
        requires
            buffered(*old(dst)).len() + encode_utf8(response_text(item@)).len() <= isize::MAX,
        ensures
            r is Ok,
            buffered(*final(dst)) == buffered(*old(dst)) + encode_utf8(response_text(item@)),
    {
        let bytes = encode_response(&item);
        buffer_extend(dst, bytes.as_slice());
        Ok(())
    }
}

/// The file names that a reply to `LIST` carries; a reply of another kind is
/// an error.
pub fn expect_files(r: Response) -> (res: Result<Vec<String>, ProtocolError>)
    ensures
        match r@ {
            ResponseView::List { files } => match res {
                Ok(fs) => texts(fs@) == files,
                Err(_) => false,
            },
            ResponseView::Get { .. } => res matches Err(ProtocolError::UnexpectedResponse),
        },
{
    match r {
        Response::ListOperation { files } => Ok(files),
        Response::GetOperation { .. } => Err(ProtocolError::UnexpectedResponse),
    }
}

/// The content that a reply to `GET` carries; a reply of another kind is an
/// error.
pub fn expect_content(r: Response) -> (res: Result<String, ProtocolError>)
    ensures
        match r@ {
            ResponseView::Get { content } => match res {
                Ok(c) => c@ == content,
                Err(_) => false,
            },
            ResponseView::List { .. } => res matches Err(ProtocolError::UnexpectedResponse),
        },
{
    match r {
        Response::GetOperation { content } => Ok(content),
        Response::ListOperation { .. } => Err(ProtocolError::UnexpectedResponse),
    }
}

/// Decoding the bytes of a server error yields that message as an error,
/// when it holds no escape marker.
pub proof fn lemma_server_error_round_trip(message: Seq<char>)
    requires
        no_marker(message),
    ensures
        decode_response_spec(encode_utf8(server_error_text(message))) == Err::<
            Option<ResponseView>,
            ProtocolErrorView,
        >(ProtocolErrorView::ParseError { source: ParseErrorView::ServerError { message } }),
{
    let t = server_error_text(message);
    assert(t.len() > 0);
    lemma_encode_nonempty(t);
    encode_utf8_valid_utf8(t);
    encode_utf8_decode_utf8(t);
    lemma_parse_server_error_text(message);
}

/// The bytes of non-empty text are not empty.
proof fn lemma_encode_nonempty(t: Seq<char>)
    requires
        t.len() > 0,
    ensures
        encode_utf8(t).len() > 0,
{
}

/// Decoding the bytes that encoding a request gives yields that request, when
/// its path holds no escape marker.
pub proof fn lemma_operation_round_trip(v: OperationView)
    requires
        operation_markless(v),
    ensures
        decode_operation_spec(encode_utf8(operation_text(v))) == Ok::<
            Option<OperationView>,
            ProtocolErrorView,
        >(Some(v)),
{
    let t = operation_text(v);
    assert(t.len() > 0);
    lemma_encode_nonempty(t);
    encode_utf8_valid_utf8(t);
    encode_utf8_decode_utf8(t);
    lemma_parse_operation_text(v);
}

/// Decoding the bytes that encoding a reply gives yields that reply, when its
/// strings hold no escape marker.
pub proof fn lemma_response_round_trip(v: ResponseView)
    requires
        response_markless(v),
    ensures
        decode_response_spec(encode_utf8(response_text(v))) == Ok::<
            Option<ResponseView>,
            ProtocolErrorView,
        >(Some(v)),
{
    let t = response_text(v);
    assert(t.len() > 0);
    lemma_encode_nonempty(t);
    encode_utf8_valid_utf8(t);
    encode_utf8_decode_utf8(t);
    lemma_parse_response_text(v);
}

/// A UTF-8 frame that is neither `LIST` nor starts with `GET ` matches no
/// rule of the request grammar: decoding it fails with a syntax error at its
/// first character.
pub proof fn lemma_unknown_request(b: Seq<u8>)
    requires
        b.len() > 0,
        valid_utf8(b),
        decode_utf8(b) != list_keyword(),
        !has_prefix(decode_utf8(b), get_prefix()),
    ensures
        decode_operation_spec(b) == Err::<Option<OperationView>, ProtocolErrorView>(
            ProtocolErrorView::ParseError { source: ParseErrorView::InvalidSyntax { position: 0 } },
        ),
{
}

/// A UTF-8 frame that starts with none of `OK GET `, `OK LIST ` and `ERR `
/// matches no rule of the reply grammar: decoding it fails with a syntax
/// error at its first character.
pub proof fn lemma_unknown_response(b: Seq<u8>)
    requires
        b.len() > 0,
        valid_utf8(b),
        !has_prefix(decode_utf8(b), ok_get_prefix()),
        !has_prefix(decode_utf8(b), ok_list_prefix()),
        !has_prefix(decode_utf8(b), err_prefix()),
    ensures
        decode_response_spec(b) == Err::<Option<ResponseView>, ProtocolErrorView>(
            ProtocolErrorView::ParseError { source: ParseErrorView::InvalidSyntax { position: 0 } },
        ),
{
}

/// Decoding an empty buffer gives no value yet, and no error.
pub proof fn lemma_empty_buffer()
    ensures
        decode_operation_spec(Seq::empty()) == Ok::<Option<OperationView>, ProtocolErrorView>(None),
        decode_response_spec(Seq::empty()) == Ok::<Option<ResponseView>, ProtocolErrorView>(None),
{
}

} // verus!
