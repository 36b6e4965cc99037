use vstd::prelude::*;

use crate::escape::{
    chars_of, escape, escape_char, lemma_escape_first, lemma_unescape_escape, no_marker, quoted,
    unescape, unescape_range, EscapeError,
};
use crate::protocol::{
    err_prefix, get_prefix, joined, list_keyword, ok_get_prefix, ok_list_prefix, operation_text,
    response_text, server_error_text, texts, Operation, OperationView, Response, ResponseView,
};

verus! {

/// Why a frame could not be read.
#[derive(Debug, Clone, PartialEq)]
pub enum ParseError {
    /// The frame matches no rule of the grammar; `position` is the index of
    /// the character at which it stops matching.
    InvalidSyntax { position: usize },
    /// A quoted field holds a malformed escape.
    EscapeError { source: EscapeError },
    /// The peer reported a failure with an `ERR` frame.
    ServerError { message: String },
}

/// What a `ParseError` holds.
pub enum ParseErrorView {
    InvalidSyntax { position: int },
    EscapeError { source: EscapeError },
    ServerError { message: Seq<char> },
}

impl View for ParseError {
    type V = ParseErrorView;

    open spec fn view(&self) -> ParseErrorView {
        match self {
            ParseError::InvalidSyntax { position } => ParseErrorView::InvalidSyntax {
                position: *position as int,
            },
            ParseError::EscapeError { source } => ParseErrorView::EscapeError { source: *source },
            ParseError::ServerError { message } => ParseErrorView::ServerError { message: message@ },
        }
    }
}

/// Where the escaped text that starts at `j` ends, counted from `j`: the first
/// quote that no backslash escapes. A backslash takes the next character with it.
pub open spec fn quoted_span(t: Seq<char>, j: int) -> Option<nat>
    decreases t.len() - j,
{
    if j < 0 || j >= t.len() {
        None
    } else if t[j] == '"' {
        Some(0)
    } else if t[j] == '\\' {
        if j + 1 < t.len() {
            match quoted_span(t, j + 2) {
                Some(k) => Some(k + 2),
                None => None,
            }
        } else {
            None
        }
    } else {
        match quoted_span(t, j + 1) {
            Some(k) => Some(k + 1),
            None => None,
        }
    }
}

pub open spec fn syntax_error<T>(position: int) -> Result<T, ParseErrorView> {
    Err(ParseErrorView::InvalidSyntax { position })
}

/// The quoted field that starts at `i`: its text, read back, and the length
/// of its escaped text.
pub open spec fn field_at(t: Seq<char>, i: int) -> Result<(Seq<char>, nat), ParseErrorView> {
    if i < 0 || i >= t.len() || t[i] != '"' {
        syntax_error(i)
    } else {
        match quoted_span(t, i + 1) {
            None => syntax_error(t.len() as int),
            Some(n) => match unescape(t.subrange(i + 1, i + 1 + n)) {
                Ok(v) => Ok((v, n)),
                Err(e) => Err(ParseErrorView::EscapeError { source: e }),
            },
        }
    }
}

/// The quoted field that starts at `i` and ends the frame.
pub open spec fn last_field_at(t: Seq<char>, i: int) -> Result<Seq<char>, ParseErrorView> {
    match field_at(t, i) {
        Err(e) => Err(e),
        Ok((v, n)) => if i + 2 + n == t.len() {
            Ok(v)
        } else {
            syntax_error(i + 2 + n)
        },
    }
}

/// Quoted fields separated by commas, from `i` to the end of the frame.
pub open spec fn items_at(t: Seq<char>, i: int) -> Result<Seq<Seq<char>>, ParseErrorView>
    decreases t.len() - i,
{
    match field_at(t, i) {
        Err(e) => Err(e),
        Ok((v, n)) => {
            let end = i + 2 + n;
            if end >= t.len() {
                Ok(seq![v])
            } else if t[end] == ',' {
                match items_at(t, end + 1) {
                    Ok(vs) => Ok(seq![v] + vs),
                    Err(e) => Err(e),
                }
            } else {
                syntax_error(end)
            }
        },
    }
}

pub open spec fn has_prefix(t: Seq<char>, p: Seq<char>) -> bool {
    p.len() <= t.len() && t.subrange(0, p.len() as int) == p
}

/// The request that a frame holds, by the grammar `LIST` | `GET <field>`.
pub open spec fn parse_operation_spec(t: Seq<char>) -> Result<OperationView, ParseErrorView> {
    if t == list_keyword() {
        Ok(OperationView::List)
    } else if has_prefix(t, get_prefix()) {
        match last_field_at(t, 4) {
            Ok(p) => Ok(OperationView::Get { path: p }),
            Err(e) => Err(e),
        }
    } else {
        syntax_error(0)
    }
}

/// The reply that a frame holds, by the grammar `OK GET <field>` |
/// `OK LIST ` followed by zero or more fields separated by commas |
/// `ERR <field>`, the last of which is a server error.
pub open spec fn parse_response_spec(t: Seq<char>) -> Result<ResponseView, ParseErrorView> {
    if has_prefix(t, ok_get_prefix()) {
        match last_field_at(t, 7) {
            Ok(c) => Ok(ResponseView::Get { content: c }),
            Err(e) => Err(e),
        }
    } else if has_prefix(t, ok_list_prefix()) {
        if t.len() == 8 {
            Ok(ResponseView::List { files: Seq::empty() })
        } else {
            match items_at(t, 8) {
                Ok(fs) => Ok(ResponseView::List { files: fs }),
                Err(e) => Err(e),
            }
        }
    } else if has_prefix(t, err_prefix()) {
        match last_field_at(t, 4) {
            Ok(m) => Err(ParseErrorView::ServerError { message: m }),
            Err(e) => Err(e),
        }
    } else {
        syntax_error(0)
    }
}

/// Finds the quote that closes the escaped text starting at `j`.
fn scan_quoted(t: &Vec<char>, j: usize) -> (r: Option<usize>)
    requires
        j <= t@.len(),
    ensures
        match r {
            Some(e) => j <= e < t@.len() && quoted_span(t@, j as int) == Some((e - j) as nat),
            None => quoted_span(t@, j as int) is None,
        },
{
    let mut k: usize = j;
    while k < t.len()
        invariant
            j <= k <= t@.len() + 1,
            quoted_span(t@, j as int) == match quoted_span(t@, k as int) {
                Some(m) => Some((m + (k - j)) as nat),
                None => None,
            },
        decreases t@.len() + 1 - k,
    {
        let c = t[k];
        if c == '"' {
            return Some(k);
        } else if c == '\\' {
            if k + 1 < t.len() {
                k = k + 2;
            } else {
                return None;
            }
        } else {
            k = k + 1;
        }
    }
    None
}

/// Reads the quoted field that starts at `i`; gives its text and the index
/// just past its closing quote.
fn parse_field(t: &Vec<char>, i: usize) -> (r: Result<(String, usize), ParseError>)
    requires
        i <= t@.len(),
    ensures
        match r {
            Ok((v, end)) => end <= t@.len() && i + 2 <= end && field_at(t@, i as int) == Ok::<
                (Seq<char>, nat),
                ParseErrorView,
            >((v@, (end - i - 2) as nat)),
            Err(e) => field_at(t@, i as int) == Err::<(Seq<char>, nat), ParseErrorView>(e@),
        },
{
    if i >= t.len() || t[i] != '"' {
        return Err(ParseError::InvalidSyntax { position: i });
    }
    match scan_quoted(t, i + 1) {
        None => Err(ParseError::InvalidSyntax { position: t.len() }),
        Some(e) => match unescape_range(t, i + 1, e) {
            Ok(v) => Ok((v, e + 1)),
            Err(x) => Err(ParseError::EscapeError { source: x }),
        },
    }
}

/// Reads the quoted field that starts at `i` and ends the frame.
fn parse_last_field(t: &Vec<char>, i: usize) -> (r: Result<String, ParseError>)
    requires
        i <= t@.len(),
    ensures
        match r {
            Ok(v) => last_field_at(t@, i as int) == Ok::<Seq<char>, ParseErrorView>(v@),
            Err(e) => last_field_at(t@, i as int) == Err::<Seq<char>, ParseErrorView>(e@),
        },
{
    let (v, end) = parse_field(t, i)?;
    if end == t.len() {
        Ok(v)
    } else {
        Err(ParseError::InvalidSyntax { position: end })
    }
}

/// Whether `t` starts with `p`.
fn starts_with(t: &Vec<char>, p: &Vec<char>) -> (r: bool)
    ensures
        r == has_prefix(t@, p@),
{
    if p.len() > t.len() {
        return false;
    }
    let mut i: usize = 0;
    while i < p.len()
        invariant
            i <= p@.len() <= t@.len(),
            forall|k: int| 0 <= k < i ==> t@[k] == p@[k],
        decreases p@.len() - i,
    {
        if t[i] != p[i] {
            assert(t@.subrange(0, p@.len() as int)[i as int] != p@[i as int]);
            return false;
        }
        i = i + 1;
    }
    assert(t@.subrange(0, p@.len() as int) =~= p@);
    true
}

/// Text before the result of reading a list, when that succeeds.
pub open spec fn prefixed_items(
    p: Seq<Seq<char>>,
    r: Result<Seq<Seq<char>>, ParseErrorView>,
) -> Result<Seq<Seq<char>>, ParseErrorView> {
    match r {
        Ok(x) => Ok(p + x),
        Err(e) => Err(e),
    }
}

/// Reads the comma-separated fields from `i` to the end of the frame.
fn parse_items(t: &Vec<char>, i: usize) -> (r: Result<Vec<String>, ParseError>)
    requires
        i <= t@.len(),
    ensures
        match r {
            Ok(fs) => items_at(t@, i as int) == Ok::<Seq<Seq<char>>, ParseErrorView>(texts(fs@)),
            Err(e) => items_at(t@, i as int) == Err::<Seq<Seq<char>>, ParseErrorView>(e@),
        },
{
    let mut files: Vec<String> = Vec::new();
    let mut j: usize = i;
    proof {
        match items_at(t@, j as int) {
            Ok(x) => {
                assert(texts(files@) + x =~= x);
            },
            Err(_) => {},
        }
    }
    loop
        invariant
            i <= j <= t@.len(),
            items_at(t@, i as int) == prefixed_items(texts(files@), items_at(t@, j as int)),
        decreases t@.len() - j,
    {
        let ghost before = texts(files@);
        let (v, end) = parse_field(t, j)?;
        files.push(v);
        assert(texts(files@) =~= before.push(v@));
        if end >= t.len() {
            proof {
                assert(before + seq![v@] =~= texts(files@));
            }
            return Ok(files);
        }
        if t[end] != ',' {
            return Err(ParseError::InvalidSyntax { position: end });
        }
        proof {
            match items_at(t@, end + 1) {
                Ok(x) => {
                    assert(before + (seq![v@] + x) =~= texts(files@) + x);
                },
                Err(_) => {},
            }
        }
        j = end + 1;
    }
}

/// Reads a request from one complete frame.
pub fn parse_operation(command: &str) -> (r: Result<Operation, ParseError>)
    ensures
        match r {
            Ok(op) => parse_operation_spec(command@) == Ok::<OperationView, ParseErrorView>(op@),
            Err(e) => parse_operation_spec(command@) == Err::<OperationView, ParseErrorView>(e@),
        },
{
    let t = chars_of(command);
    let list = vec!['L', 'I', 'S', 'T'];
    let get = vec!['G', 'E', 'T', ' '];
    assert(list@ =~= list_keyword());
    assert(get@ =~= get_prefix());
    if t.len() == 4 && starts_with(&t, &list) {
        assert(t@ =~= t@.subrange(0, 4));
        return Ok(Operation::ListOperation);
    }
    if starts_with(&t, &get) {
        assert(t@ != list_keyword()) by {
            assert(t@.subrange(0, 4)[0] == 'G');
        }
        match parse_last_field(&t, 4) {
            Ok(path) => {
                Ok(Operation::GetOperation { path })
            },
            Err(e) => Err(e),
        }
    } else {
        assert(t@ != list_keyword()) by {
            if t@ == list_keyword() {
                assert(t@.subrange(0, 4) =~= t@);
            }
        }
        Err(ParseError::InvalidSyntax { position: 0 })
    }
}

/// Reads a reply from one complete frame. An `ERR` frame gives the server's
/// message as an error.
pub fn parse_response(response: &str) -> (r: Result<Response, ParseError>)
    ensures
        match r {
            Ok(v) => parse_response_spec(response@) == Ok::<ResponseView, ParseErrorView>(v@),
            Err(e) => parse_response_spec(response@) == Err::<ResponseView, ParseErrorView>(e@),
        },
{
    let t = chars_of(response);
    let ok_get = vec!['O', 'K', ' ', 'G', 'E', 'T', ' '];
    let ok_list = vec!['O', 'K', ' ', 'L', 'I', 'S', 'T', ' '];
    let err = vec!['E', 'R', 'R', ' '];
    assert(ok_get@ =~= ok_get_prefix());
    assert(ok_list@ =~= ok_list_prefix());
    assert(err@ =~= err_prefix());
    if starts_with(&t, &ok_get) {
        let content = parse_last_field(&t, 7)?;
        Ok(Response::GetOperation { content })
    } else if starts_with(&t, &ok_list) {
        if t.len() == 8 {
            let files: Vec<String> = Vec::new();
            assert(texts(files@) =~= Seq::<Seq<char>>::empty());
            Ok(Response::ListOperation { files })
        } else {
            let files = parse_items(&t, 8)?;
            Ok(Response::ListOperation { files })
        }
    } else if starts_with(&t, &err) {
        let message = parse_last_field(&t, 4)?;
        Err(ParseError::ServerError { message })
    } else {
        Err(ParseError::InvalidSyntax { position: 0 })
    }
}

/// A piece of a piece of `t` is a piece of `t`.
proof fn lemma_subrange_of(t: Seq<char>, i: int, u: Seq<char>, a: int, b: int)
    requires
        0 <= i,
        i + u.len() <= t.len(),
        t.subrange(i, i + u.len()) == u,
        0 <= a <= b <= u.len(),
    ensures
        t.subrange(i + a, i + b) == u.subrange(a, b),
        forall|k: int| a <= k < b ==> t[i + k] == u[k],
{
    assert forall|k: int| a <= k < b implies t[i + k] == u[k] by {
        assert(t.subrange(i, i + u.len())[k] == t[i + k]);
    }
    assert(t.subrange(i + a, i + b) =~= u.subrange(a, b));
}

/// The scan of a quoted field stops at the quote that follows escaped text.
proof fn lemma_quoted_span(t: Seq<char>, j: int, s: Seq<char>)
    requires
        no_marker(s),
        0 <= j,
        j + escape(s).len() < t.len(),
        t.subrange(j, j + escape(s).len()) == escape(s),
        t[j + escape(s).len()] == '"',
    ensures
        quoted_span(t, j) == Some(escape(s).len()),
    decreases s.len(),
{
    let e = escape(s);
    if s.len() == 0 {
        assert(e =~= Seq::<char>::empty());
    } else {
        let rest = s.drop_first();
        assert(no_marker(rest)) by {
            assert forall|k: int| 0 <= k < rest.len() implies rest[k] != '\\' by {
                assert(rest[k] == s[k + 1]);
            }
        }
        lemma_escape_first(s);
        let w = escape_char(s[0]).len();
        assert(t[j] == e[0]);
        assert(t.subrange(j + w, j + e.len()) =~= e.subrange(w as int, e.len() as int));
        assert(e.subrange(w as int, e.len() as int) =~= escape(rest));
        lemma_quoted_span(t, j + w, rest);
        if s[0] == '"' {
            assert(t[j + 1] == e[1]);
        } else {
            assert(s[0] != '\\');
        }
    }
}

/// A quoted field of text without escape markers reads back as that text.
proof fn lemma_field_at(t: Seq<char>, i: int, s: Seq<char>)
    requires
        no_marker(s),
        0 <= i,
        i + quoted(s).len() <= t.len(),
        t.subrange(i, i + quoted(s).len()) == quoted(s),
    ensures
        field_at(t, i) == Ok::<(Seq<char>, nat), ParseErrorView>((s, escape(s).len())),
{
    let e = escape(s);
    let q = quoted(s);
    lemma_subrange_of(t, i, q, 0, q.len() as int);
    lemma_subrange_of(t, i, q, 1, 1 + e.len() as int);
    assert(q.subrange(1, 1 + e.len() as int) =~= e);
    assert(t[i + 1 + e.len()] == q[e.len() + 1 as int]);
    assert(t[i + 0] == q[0]);
    assert(t[i] == '"');
    lemma_quoted_span(t, i + 1, s);
    lemma_unescape_escape(s);
    assert(t.subrange(i + 1, i + 1 + e.len()) == e);
}

/// A list of fields read from the front: the first field, then the rest.
proof fn lemma_joined_first(fs: Seq<Seq<char>>)
    requires
        fs.len() >= 2,
    ensures
        joined(fs) == quoted(fs[0]) + seq![','] + joined(fs.drop_first()),
    decreases fs.len(),
{
    let rest = fs.drop_first();
    if fs.len() == 2 {
        assert(fs.drop_last() =~= seq![fs[0]]);
        assert(joined(fs.drop_last()) == quoted(fs[0]));
        assert(joined(rest) == quoted(fs[1]));
    } else {
        assert(joined(rest) == joined(rest.drop_last()) + seq![','] + quoted(rest.last()));
        lemma_joined_first(fs.drop_last());
        assert(fs.drop_last().drop_first() =~= rest.drop_last());
        assert(rest.last() == fs.last());
        assert(joined(fs) =~= quoted(fs[0]) + seq![','] + joined(rest));
    }
}

/// Every string in `fs` is free of escape markers.
pub open spec fn all_markless(fs: Seq<Seq<char>>) -> bool {
    forall|k: int| 0 <= k < fs.len() ==> no_marker(#[trigger] fs[k])
}

/// A non-empty list of fields reads back as its strings, in order.
proof fn lemma_items_at(t: Seq<char>, i: int, fs: Seq<Seq<char>>)
    requires
        fs.len() >= 1,
        all_markless(fs),
        0 <= i <= t.len(),
        t.subrange(i, t.len() as int) == joined(fs),
    ensures
        items_at(t, i) == Ok::<Seq<Seq<char>>, ParseErrorView>(fs),
    decreases fs.len(),
{
    let q = quoted(fs[0]);
    assert(no_marker(fs[0]));
    let j = joined(fs);
    assert(t.subrange(i, t.len() as int).len() == j.len());
    if fs.len() == 1 {
        assert(j == q);
        lemma_field_at(t, i, fs[0]);
        assert(seq![fs[0]] =~= fs);
    } else {
        lemma_joined_first(fs);
        let rest = fs.drop_first();
        lemma_subrange_of(t, i, j, 0, q.len() as int);
        lemma_subrange_of(t, i, j, q.len() as int, j.len() as int);
        lemma_subrange_of(t, i, j, q.len() + 1 as int, j.len() as int);
        assert(j.subrange(0, q.len() as int) =~= q);
        lemma_field_at(t, i, fs[0]);
        assert(t[i + q.len()] == j[q.len() as int]);
        assert(j.subrange(q.len() + 1 as int, j.len() as int) =~= joined(rest));
        assert(all_markless(rest)) by {
            assert forall|k: int| 0 <= k < rest.len() implies no_marker(#[trigger] rest[k]) by {
                assert(rest[k] == fs[k + 1]);
            }
        }
        lemma_items_at(t, i + q.len() + 1, rest);
        assert(seq![fs[0]] + rest =~= fs);
    }
}

/// A request whose path holds no escape marker.
pub open spec fn operation_markless(v: OperationView) -> bool {
    match v {
        OperationView::Get { path } => no_marker(path),
        OperationView::List => true,
    }
}

/// A reply whose strings hold no escape marker.
pub open spec fn response_markless(v: ResponseView) -> bool {
    match v {
        ResponseView::Get { content } => no_marker(content),
        ResponseView::List { files } => all_markless(files),
    }
}

/// The grammar reads the canonical text of a request back as that request.
pub proof fn lemma_parse_operation_text(v: OperationView)
    requires
        operation_markless(v),
    ensures
        parse_operation_spec(operation_text(v)) == Ok::<OperationView, ParseErrorView>(v),
{
    let t = operation_text(v);
    match v {
        OperationView::Get { path } => {
            assert(t.subrange(0, 4) =~= get_prefix());
            assert(t != list_keyword()) by {
                if t == list_keyword() {
                    assert(t[0] == 'G');
                }
            }
            assert(t.subrange(4, t.len() as int) =~= quoted(path));
            lemma_field_at(t, 4, path);
        },
        OperationView::List => {},
    }
}

/// The grammar reads the canonical text of a reply back as that reply.
pub proof fn lemma_parse_response_text(v: ResponseView)
    requires
        response_markless(v),
    ensures
        parse_response_spec(response_text(v)) == Ok::<ResponseView, ParseErrorView>(v),
{
    let t = response_text(v);
    match v {
        ResponseView::Get { content } => {
            assert(t.subrange(0, 7) =~= ok_get_prefix());
            assert(t.subrange(7, t.len() as int) =~= quoted(content));
            lemma_field_at(t, 7, content);
        },
        ResponseView::List { files } => {
            assert(!has_prefix(t, ok_get_prefix())) by {
                assert(t.subrange(0, 7)[3] != ok_get_prefix()[3]);
            }
            assert(t.subrange(0, 8) =~= ok_list_prefix());
            assert(t.subrange(8, t.len() as int) =~= joined(files));
            if files.len() == 0 {
                assert(files =~= Seq::<Seq<char>>::empty());
            } else {
                lemma_items_at(t, 8, files);
            }
        },
    }
}

/// The grammar reads the text of a server error back as that message.
pub proof fn lemma_parse_server_error_text(message: Seq<char>)
    requires
        no_marker(message),
    ensures
        parse_response_spec(server_error_text(message)) == Err::<ResponseView, ParseErrorView>(
            ParseErrorView::ServerError { message },
        ),
{
    let t = server_error_text(message);
    assert(t[0] == 'E');
    assert(!has_prefix(t, ok_get_prefix())) by {
        if t.len() >= 7 {
            assert(t.subrange(0, 7)[0] != ok_get_prefix()[0]);
        }
    }
    assert(!has_prefix(t, ok_list_prefix())) by {
        if t.len() >= 8 {
            assert(t.subrange(0, 8)[0] != ok_list_prefix()[0]);
        }
    }
    assert(t.subrange(0, 4) =~= err_prefix());
    assert(t.subrange(4, t.len() as int) =~= quoted(message));
    lemma_field_at(t, 4, message);
}

} // verus!
