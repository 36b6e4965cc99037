//! A line protocol for listing and fetching files: the escaping of quoted
//! fields, the grammar of requests and responses, their canonical encoding,
//! and the codecs that move them through a byte buffer.

pub mod escape;
pub mod protocol;
pub mod parser;
pub mod codec;
pub mod server;

pub use codec::{
    expect_content, expect_files, ProtocolError, ProtocolOperationCodec, ProtocolResponseCodec,
};
pub use escape::{encode_string, escape_string, interpret_escaped_string, EscapeError};
pub use parser::{parse_operation, parse_response, ParseError};
pub use protocol::{encode_operation, encode_response, encode_server_error, Operation, Response};
pub use server::{next_action, ServerAction, ServerEvent};
