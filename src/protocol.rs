use vstd::prelude::*;
use vstd::string::*;
use vstd::utf8::encode_utf8;

use crate::escape::{chars_of, push_char, push_quoted, quoted};

verus! {

/// A request from a client.
#[derive(Debug, Clone, PartialEq)]
pub enum Operation {
    /// Asks for the content of the file at `path`.
    GetOperation { path: String },
    /// Asks for the names of the files on offer.
    ListOperation,
}

/// A reply from the server.
#[derive(Debug, Clone, PartialEq)]
pub enum Response {
    /// The content of the file that was asked for.
    GetOperation { content: String },
    /// The names of the files on offer, in the order the server gave them.
    ListOperation { files: Vec<String> },
}

/// What an `Operation` holds, as text.
pub enum OperationView {
    Get { path: Seq<char> },
    List,
}

/// What a `Response` holds, as text.
pub enum ResponseView {
    Get { content: Seq<char> },
    List { files: Seq<Seq<char>> },
}

impl View for Operation {
    type V = OperationView;

    open spec fn view(&self) -> OperationView {
        match self {
            Operation::GetOperation { path } => OperationView::Get { path: path@ },
            Operation::ListOperation => OperationView::List,
        }
    }
}

/// The texts of a list of strings.
pub open spec fn texts(v: Seq<String>) -> Seq<Seq<char>> {
    v.map_values(|f: String| f@)
}

impl View for Response {
    type V = ResponseView;

    open spec fn view(&self) -> ResponseView {
        match self {
            Response::GetOperation { content } => ResponseView::Get { content: content@ },
            Response::ListOperation { files } => ResponseView::List { files: texts(files@) },
        }
    }
}

pub open spec fn list_keyword() -> Seq<char> {
    seq!['L', 'I', 'S', 'T']
}

pub open spec fn get_prefix() -> Seq<char> {
    seq!['G', 'E', 'T', ' ']
}

pub open spec fn ok_get_prefix() -> Seq<char> {
    seq!['O', 'K', ' ', 'G', 'E', 'T', ' ']
}

pub open spec fn ok_list_prefix() -> Seq<char> {
    seq!['O', 'K', ' ', 'L', 'I', 'S', 'T', ' ']
}

pub open spec fn err_prefix() -> Seq<char> {
    seq!['E', 'R', 'R', ' ']
}

/// Quoted fields separated by commas, with no separator at either end.
pub open spec fn joined(fs: Seq<Seq<char>>) -> Seq<char>
    decreases fs.len(),
{
    if fs.len() == 0 {
        Seq::empty()
    } else if fs.len() == 1 {
        quoted(fs[0])
    } else {
        joined(fs.drop_last()) + seq![','] + quoted(fs.last())
    }
}

/// The canonical text of a request.
pub open spec fn operation_text(v: OperationView) -> Seq<char> {
    match v {
        OperationView::Get { path } => get_prefix() + quoted(path),
        OperationView::List => list_keyword(),
    }
}

/// The canonical text of a reply.
pub open spec fn response_text(v: ResponseView) -> Seq<char> {
    match v {
        ResponseView::Get { content } => ok_get_prefix() + quoted(content),
        ResponseView::List { files } => ok_list_prefix() + joined(files),
    }
}

/// The canonical text of a server error.
pub open spec fn server_error_text(message: Seq<char>) -> Seq<char> {
    err_prefix() + quoted(message)
}

fn push_get_prefix(out: &mut String)
    ensures
        final(out)@ == old(out)@ + get_prefix(),
{
    push_char(out, 'G');
    push_char(out, 'E');
    push_char(out, 'T');
    push_char(out, ' ');
    assert(final(out)@ =~= old(out)@ + get_prefix());
}

fn push_ok(out: &mut String)
    ensures
        final(out)@ == old(out)@ + seq!['O', 'K', ' '],
{
    push_char(out, 'O');
    push_char(out, 'K');
    push_char(out, ' ');
    assert(final(out)@ =~= old(out)@ + seq!['O', 'K', ' ']);
}

fn push_list_keyword(out: &mut String)
    ensures
        final(out)@ == old(out)@ + list_keyword(),
{
    push_char(out, 'L');
    push_char(out, 'I');
    push_char(out, 'S');
    push_char(out, 'T');
    assert(final(out)@ =~= old(out)@ + list_keyword());
}

/// Appends the quoted text of `s`.
fn push_quoted_string(out: &mut String, s: &String)
    ensures
        final(out)@ == old(out)@ + quoted(s@),
{
    let t = chars_of(s.as_str());
    push_quoted(out, &t);
}

/// The canonical text of a request.
pub fn encode_operation_text(op: &Operation) -> (r: String)
    ensures
        r@ == operation_text(op@),
{
    let mut out = String::new();
    match op {
        Operation::GetOperation { path } => {
            push_get_prefix(&mut out);
            push_quoted_string(&mut out, path);
        },
        Operation::ListOperation => {
            push_list_keyword(&mut out);
        },
    }
    assert(out@ =~= operation_text(op@));
    out
}

/// The canonical text of a reply.
pub fn encode_response_text(resp: &Response) -> (r: String)
    ensures
        r@ == response_text(resp@),
{
    let mut out = String::new();
    push_ok(&mut out);
    match resp {
        Response::GetOperation { content } => {
            push_get_prefix(&mut out);
            push_quoted_string(&mut out, content);
        },
        Response::ListOperation { files } => {
            push_list_keyword(&mut out);
            push_char(&mut out, ' ');
            let ghost start = out@;
            let mut i: usize = 0;
            while i < files.len()
                invariant
                    i <= files@.len(),
                    out@ == start + joined(texts(files@).subrange(0, i as int)),
                decreases files@.len() - i,
            {
                proof {
                    let next = texts(files@).subrange(0, i + 1);
                    assert(next.drop_last() =~= texts(files@).subrange(0, i as int));
                    assert(next.last() == files@[i as int]@);
                }
                if i > 0 {
                    push_char(&mut out, ',');
                }
                push_quoted_string(&mut out, &files[i]);
                proof {
                    if i == 0 {
                        assert(texts(files@).subrange(0, 1)[0] == files@[0]@);
                    }
                }
                assert(out@ =~= start + joined(texts(files@).subrange(0, i + 1)));
                i = i + 1;
            }
            assert(texts(files@).subrange(0, files@.len() as int) =~= texts(files@));
        },
    }
    assert(out@ =~= response_text(resp@));
    out
}

/// The bytes of a request on the wire: its canonical text in UTF-8.
pub fn encode_operation(op: &Operation) -> (r: Vec<u8>)
    ensures
        r@ == encode_utf8(operation_text(op@)),
{
    let text = encode_operation_text(op);
    text.as_str().as_bytes_vec()
}

/// The bytes of a reply on the wire: its canonical text in UTF-8.
pub fn encode_response(resp: &Response) -> (r: Vec<u8>)
    ensures
        r@ == encode_utf8(response_text(resp@)),
{
    let text = encode_response_text(resp);
    text.as_str().as_bytes_vec()
}

fn push_err_prefix(out: &mut String)
    ensures
        final(out)@ == old(out)@ + err_prefix(),
{
    push_char(out, 'E');
    push_char(out, 'R');
    push_char(out, 'R');
    push_char(out, ' ');
    assert(final(out)@ =~= old(out)@ + err_prefix());
}

/// The bytes of a server error on the wire: `ERR` and the quoted message.
pub fn encode_server_error(message: &str) -> (r: Vec<u8>)
    ensures
        r@ == encode_utf8(server_error_text(message@)),
{
    let mut out = String::new();
    push_err_prefix(&mut out);
    let t = chars_of(message);
    push_quoted(&mut out, &t);
    assert(out@ =~= server_error_text(message@));
    out.as_str().as_bytes_vec()
}

} // verus!
