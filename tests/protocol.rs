use bytes::BytesMut;
use fileproto::{
    encode_operation, encode_response, encode_server_error, encode_string, expect_content,
    expect_files, next_action, ServerAction, ServerEvent, escape_string, interpret_escaped_string,
    parse_operation, parse_response, EscapeError, Operation, ParseError, ProtocolError,
    ProtocolOperationCodec, ProtocolResponseCodec, Response,
};

const LOCK: &str = "# This file is automatically @generated by Cargo.
# It is not intended for manual editing.
[[package]]
name = \"autocfg\"
version = \"1.0.1\"
source = \"registry+https://github.com/rust-lang/crates.io-index\"
checksum = \"cdb031dd78e28731d87d56cc8ffef4a8f36ca26c38fe2de700543e627f8a464a\"

[[package]]
name = \"bytes\"
version = \"1.0.1\"
dependencies = [
 \"autocfg\",
]
";

fn decode_op(bytes: &[u8]) -> Result<Option<Operation>, ProtocolError> {
    let mut buf = BytesMut::from(bytes);
    ProtocolOperationCodec.decode(&mut buf)
}

fn decode_resp(bytes: &[u8]) -> Result<Option<Response>, ProtocolError> {
    let mut buf = BytesMut::from(bytes);
    ProtocolResponseCodec.decode(&mut buf)
}

fn round_trip_op(op: Operation) -> Result<Option<Operation>, ProtocolError> {
    let mut buf = BytesMut::new();
    ProtocolOperationCodec.encode(op, &mut buf).unwrap();
    ProtocolOperationCodec.decode(&mut buf)
}

fn round_trip_resp(resp: Response) -> Result<Option<Response>, ProtocolError> {
    let mut buf = BytesMut::new();
    ProtocolResponseCodec.encode(resp, &mut buf).unwrap();
    ProtocolResponseCodec.decode(&mut buf)
}

#[test]
fn test_escape() {
    let lock = LOCK;
    let es = escape_string(lock).unwrap();
    let des = interpret_escaped_string(&es).unwrap();

    assert_eq!(lock, des);
}

#[test]
fn escape_puts_marker_before_quotes() {
    assert_eq!(escape_string("a\"b").unwrap(), "a\\\"b");
    assert_eq!(escape_string("").unwrap(), "");
    assert_eq!(escape_string("\"\"").unwrap(), "\\\"\\\"");
    assert_eq!(escape_string("line\nbreak").unwrap(), "line\nbreak");
}

#[test]
fn escape_round_trip_edge_cases() {
    for s in ["", "\"", "\"\"\"", "a\"", "\"a", "plain", "é\"ü"] {
        let e = escape_string(s).unwrap();
        assert_eq!(interpret_escaped_string(&e).unwrap(), s);
    }
}

#[test]
fn unescape_errors() {
    assert_eq!(interpret_escaped_string("abc\\"), Err(EscapeError::EscapeAtEndOfString));
    assert_eq!(
        interpret_escaped_string("a\\nb"),
        Err(EscapeError::InvalidEscapedChar { char: 'n' })
    );
    assert_eq!(interpret_escaped_string("a\\\"b").unwrap(), "a\"b");
}

#[test]
fn encode_string_quotes() {
    assert_eq!(encode_string("a\"b"), "\"a\\\"b\"");
    assert_eq!(encode_string(""), "\"\"");
}

#[test]
fn parse_operations() {
    assert_eq!(parse_operation("LIST"), Ok(Operation::ListOperation));
    assert_eq!(
        parse_operation("GET \"notes.txt\""),
        Ok(Operation::GetOperation { path: "notes.txt".to_string() })
    );
}

#[test]
fn malformed_requests_are_syntax_errors() {
    assert_eq!(parse_operation("GETX"), Err(ParseError::InvalidSyntax { position: 0 }));
    assert_eq!(parse_operation("LIST extra"), Err(ParseError::InvalidSyntax { position: 0 }));
    assert_eq!(parse_operation("GET \"a\" b"), Err(ParseError::InvalidSyntax { position: 7 }));
    assert_eq!(parse_operation("GET \"abc"), Err(ParseError::InvalidSyntax { position: 8 }));
    assert_eq!(parse_operation("GET abc"), Err(ParseError::InvalidSyntax { position: 4 }));
    assert!(matches!(
        decode_op(b"GETX"),
        Err(ProtocolError::ParseError { source: ParseError::InvalidSyntax { .. } })
    ));
    assert!(matches!(
        decode_op(b"LIST extra"),
        Err(ProtocolError::ParseError { source: ParseError::InvalidSyntax { .. } })
    ));
}

#[test]
fn escape_error_in_field() {
    assert_eq!(
        parse_operation("GET \"a\\nb\""),
        Err(ParseError::EscapeError { source: EscapeError::InvalidEscapedChar { char: 'n' } })
    );
}

#[test]
fn empty_buffer_gives_nothing_yet() {
    assert_eq!(decode_op(b""), Ok(None));
    assert_eq!(decode_resp(b""), Ok(None));
}

#[test]
fn invalid_utf8_is_encoding_error() {
    assert_eq!(decode_op(&[0xff, 0xfe]), Err(ProtocolError::EncodingError));
    assert_eq!(decode_resp(&[b'O', b'K', 0xc3]), Err(ProtocolError::EncodingError));
}

#[test]
fn decode_clears_buffer_whatever_the_outcome() {
    let mut buf = BytesMut::from(&b"GETX"[..]);
    assert!(ProtocolOperationCodec.decode(&mut buf).is_err());
    assert!(buf.is_empty());
    let mut buf = BytesMut::from(&b"LIST"[..]);
    assert_eq!(ProtocolOperationCodec.decode(&mut buf), Ok(Some(Operation::ListOperation)));
    assert!(buf.is_empty());
}

#[test]
fn operation_round_trip() {
    for op in [
        Operation::ListOperation,
        Operation::GetOperation { path: "".to_string() },
        Operation::GetOperation { path: "dir/file name.txt".to_string() },
        Operation::GetOperation { path: "\"\"".to_string() },
    ] {
        assert_eq!(round_trip_op(op.clone()), Ok(Some(op)));
    }
}

#[test]
fn response_round_trip() {
    for resp in [
        Response::GetOperation { content: "hello\"world\"\nline two".to_string() },
        Response::GetOperation { content: "".to_string() },
        Response::ListOperation { files: vec!["a.txt".to_string()] },
        Response::ListOperation {
            files: vec!["a,b".to_string(), "q\"uote".to_string(), "".to_string()],
        },
    ] {
        assert_eq!(round_trip_resp(resp.clone()), Ok(Some(resp)));
    }
}

#[test]
fn empty_list_round_trip() {
    let resp = Response::ListOperation { files: vec![] };
    assert_eq!(encode_response(&resp), b"OK LIST ".to_vec());
    assert_eq!(round_trip_resp(resp), Ok(Some(Response::ListOperation { files: vec![] })));
}

#[test]
fn quoted_special_character() {
    let op = Operation::GetOperation { path: "a\"b".to_string() };
    let bytes = encode_operation(&op);
    let text = String::from_utf8(bytes.clone()).unwrap();
    assert!(text.contains("GET \"a\\\"b\""));
    assert_eq!(text, "GET \"a\\\"b\"");
    assert_eq!(decode_op(&bytes), Ok(Some(Operation::GetOperation { path: "a\"b".to_string() })));
}

#[test]
fn server_error_frame() {
    assert_eq!(
        decode_resp(b"ERR \"boom\""),
        Err(ProtocolError::ParseError {
            source: ParseError::ServerError { message: "boom".to_string() }
        })
    );
    assert_eq!(
        parse_response("ERR \"file not found\""),
        Err(ParseError::ServerError { message: "file not found".to_string() })
    );
}

#[test]
fn end_to_end_list() {
    let mut wire = BytesMut::new();
    ProtocolOperationCodec.encode(Operation::ListOperation, &mut wire).unwrap();
    assert_eq!(&wire[..], b"LIST");
    assert_eq!(ProtocolOperationCodec.decode(&mut wire), Ok(Some(Operation::ListOperation)));

    let reply = Response::ListOperation { files: vec!["x.txt".to_string(), "y.txt".to_string()] };
    let mut back = BytesMut::new();
    ProtocolResponseCodec.encode(reply, &mut back).unwrap();
    assert_eq!(&back[..], b"OK LIST \"x.txt\",\"y.txt\"");
    assert_eq!(
        ProtocolResponseCodec.decode(&mut back),
        Ok(Some(Response::ListOperation {
            files: vec!["x.txt".to_string(), "y.txt".to_string()]
        }))
    );
}

#[test]
fn parse_responses() {
    assert_eq!(
        parse_response("OK GET \"hello\\\"world\\\"\""),
        Ok(Response::GetOperation { content: "hello\"world\"".to_string() })
    );
    assert_eq!(
        parse_response("OK LIST \"a.txt\",\"b.txt\""),
        Ok(Response::ListOperation { files: vec!["a.txt".to_string(), "b.txt".to_string()] })
    );
    assert_eq!(parse_response("OK LIST "), Ok(Response::ListOperation { files: vec![] }));
}

#[test]
fn malformed_responses() {
    assert_eq!(parse_response("OK LIST"), Err(ParseError::InvalidSyntax { position: 0 }));
    assert_eq!(parse_response("OK LIST \"a\","), Err(ParseError::InvalidSyntax { position: 12 }));
    assert_eq!(parse_response("OK LIST \"a\";\"b\""), Err(ParseError::InvalidSyntax { position: 11 }));
    assert_eq!(parse_response("NOPE"), Err(ParseError::InvalidSyntax { position: 0 }));
    assert_eq!(parse_response("OK GET \"x\"y"), Err(ParseError::InvalidSyntax { position: 10 }));
}

#[test]
fn encoded_bytes_are_utf8_text() {
    let op = Operation::GetOperation { path: "é".to_string() };
    assert_eq!(encode_operation(&op), "GET \"é\"".as_bytes().to_vec());
    assert_eq!(
        encode_response(&Response::GetOperation { content: "x".to_string() }),
        b"OK GET \"x\"".to_vec()
    );
}

#[test]
fn server_error_encoding_round_trip() {
    assert_eq!(encode_server_error("no \"x\""), b"ERR \"no \\\"x\\\"\"".to_vec());
    let mut buf = BytesMut::new();
    ProtocolResponseCodec.encode_error("file not found", &mut buf).unwrap();
    assert_eq!(&buf[..], b"ERR \"file not found\"");
    assert_eq!(
        ProtocolResponseCodec.decode(&mut buf),
        Err(ProtocolError::ParseError {
            source: ParseError::ServerError { message: "file not found".to_string() }
        })
    );
}

#[test]
fn replies_of_the_wrong_kind_are_errors() {
    let files = Response::ListOperation { files: vec!["a".to_string()] };
    let content = Response::GetOperation { content: "c".to_string() };
    assert_eq!(expect_files(files.clone()), Ok(vec!["a".to_string()]));
    assert_eq!(expect_content(content.clone()), Ok("c".to_string()));
    assert_eq!(expect_files(content), Err(ProtocolError::UnexpectedResponse));
    assert_eq!(expect_content(files), Err(ProtocolError::UnexpectedResponse));
}

#[test]
fn server_steps() {
    assert!(matches!(
        next_action(ServerEvent::Frame { frame: Ok(Operation::GetOperation { path: "p".to_string() }) }),
        ServerAction::ReadFile { path } if path == "p"
    ));
    assert!(matches!(
        next_action(ServerEvent::Frame { frame: Ok(Operation::ListOperation) }),
        ServerAction::ListDirectory
    ));
    assert!(matches!(
        next_action(ServerEvent::Frame { frame: Err(ProtocolError::EncodingError) }),
        ServerAction::Skip { error: ProtocolError::EncodingError }
    ));
    assert!(matches!(
        next_action(ServerEvent::FileRead { result: Ok("body".to_string()) }),
        ServerAction::Send { response: Response::GetOperation { content } } if content == "body"
    ));
    assert!(matches!(
        next_action(ServerEvent::FileRead { result: Err("gone".to_string()) }),
        ServerAction::SendError { message } if message == "gone"
    ));
    assert!(matches!(
        next_action(ServerEvent::Listed { result: Ok(vec!["f".to_string()]) }),
        ServerAction::Send { response: Response::ListOperation { files } } if files == vec!["f".to_string()]
    ));
    assert!(matches!(
        next_action(ServerEvent::Listed { result: Err("denied".to_string()) }),
        ServerAction::SendError { message } if message == "denied"
    ));
}

#[test]
fn backslash_is_not_escaped() {
    assert_eq!(escape_string("a\\b").unwrap(), "a\\b");
    assert_eq!(
        interpret_escaped_string(&escape_string("a\\b").unwrap()),
        Err(EscapeError::InvalidEscapedChar { char: 'b' })
    );
}
