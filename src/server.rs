use vstd::prelude::*;

use crate::codec::ProtocolError;
use crate::protocol::{Operation, Response};

verus! {

/// What a connection handler has just learned.
pub enum ServerEvent {
    /// A frame was decoded, or failed to decode.
    Frame { frame: Result<Operation, ProtocolError> },
    /// The file that a request asked for was read, or could not be.
    FileRead { result: Result<String, String> },
    /// The data directory was listed, or could not be.
    Listed { result: Result<Vec<String>, String> },
}

/// What a connection handler does next.
pub enum ServerAction {
    /// Read the file at `path`.
    ReadFile { path: String },
    /// List the files of the data directory.
    ListDirectory,
    /// Send this reply.
    Send { response: Response },
    /// Send a server error with this message.
    SendError { message: String },
    /// Report the malformed frame and wait for the next one.
    Skip { error: ProtocolError },
}

/// The step that follows an event: a request leads to the work it asks for,
/// the outcome of that work to a reply, and a malformed frame is skipped.
/// Failures of the work are sent back as server errors.
pub fn next_action(event: ServerEvent) -> (a: ServerAction)
    ensures
        match event {
            ServerEvent::Frame { frame: Ok(Operation::GetOperation { path }) } => a == (
            ServerAction::ReadFile { path }),
            ServerEvent::Frame { frame: Ok(Operation::ListOperation) } => a
                == ServerAction::ListDirectory,
            ServerEvent::Frame { frame: Err(error) } => a == (ServerAction::Skip { error }),
            ServerEvent::FileRead { result: Ok(content) } => a == (ServerAction::Send {
                response: Response::GetOperation { content },
            }),
            ServerEvent::Listed { result: Ok(files) } => a == (ServerAction::Send {
                response: Response::ListOperation { files },
            }),
            ServerEvent::FileRead { result: Err(message) } => a == (ServerAction::SendError {
                message,
            }),
            ServerEvent::Listed { result: Err(message) } => a == (ServerAction::SendError {
                message,
            }),
        },
{
    match event {
        ServerEvent::Frame { frame: Ok(Operation::GetOperation { path }) } => {
            ServerAction::ReadFile { path }
        },
        ServerEvent::Frame { frame: Ok(Operation::ListOperation) } => ServerAction::ListDirectory,
        ServerEvent::Frame { frame: Err(error) } => ServerAction::Skip { error },
        ServerEvent::FileRead { result: Ok(content) } => ServerAction::Send {
            response: Response::GetOperation { content },
        },
        ServerEvent::Listed { result: Ok(files) } => ServerAction::Send {
            response: Response::ListOperation { files },
        },
        ServerEvent::FileRead { result: Err(message) } => ServerAction::SendError { message },
        ServerEvent::Listed { result: Err(message) } => ServerAction::SendError { message },
    }
}

} // verus!
