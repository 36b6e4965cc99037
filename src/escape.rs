use vstd::prelude::*;
use vstd::std_specs::iter::IteratorSpec;

verus! {

/// An error in the escaped text of a quoted field.
#[derive(Debug, Clone, Copy, PartialEq, Eq)]
pub enum EscapeError {
    /// The text ends with an escape marker.
    EscapeAtEndOfString,
    /// The escape marker is followed by a character that needs no escape.
    InvalidEscapedChar { char: char },
}

/// The text of one character once escaped: a quote gets a backslash before it.
pub open spec fn escape_char(c: char) -> Seq<char> {
    if c == '"' {
        seq!['\\', '"']
    } else {
        seq![c]
    }
}

/// Escaping, character by character. A backslash is not escaped itself, so
/// text that holds one need not read back as it was.
pub open spec fn escape(s: Seq<char>) -> Seq<char>
    decreases s.len(),
{
    if s.len() == 0 {
        Seq::empty()
    } else {
        escape(s.drop_last()) + escape_char(s.last())
    }
}

/// Reading escaped text back: `\"` stands for a quote, any other character for
/// itself, and a backslash before anything but a quote is an error.
pub open spec fn unescape(s: Seq<char>) -> Result<Seq<char>, EscapeError>
    decreases s.len(),
{
    if s.len() == 0 {
        Ok(Seq::empty())
    } else if s[0] == '\\' {
        if s.len() == 1 {
            Err(EscapeError::EscapeAtEndOfString)
        } else if s[1] == '"' {
            match unescape(s.subrange(2, s.len() as int)) {
                Ok(r) => Ok(seq!['"'] + r),
                Err(e) => Err(e),
            }
        } else {
            Err(EscapeError::InvalidEscapedChar { char: s[1] })
        }
    } else {
        match unescape(s.drop_first()) {
            Ok(r) => Ok(seq![s[0]] + r),
            Err(e) => Err(e),
        }
    }
}

/// A quoted field: the escaped text between two quotes.
pub open spec fn quoted(s: Seq<char>) -> Seq<char> {
    seq!['"'] + escape(s) + seq!['"']
}

/// Text that holds no escape marker, on which escaping can be undone.
pub open spec fn no_marker(s: Seq<char>) -> bool {
    forall|i: int| 0 <= i < s.len() ==> s[i] != '\\'
}

/// Escaping distributes over concatenation.
pub proof fn lemma_escape_concat(a: Seq<char>, b: Seq<char>)
    ensures
        escape(a + b) == escape(a) + escape(b),
    decreases b.len(),
{
    if b.len() == 0 {
        assert(a + b =~= a);
        assert(escape(a) + escape(b) =~= escape(a));
    } else {
        lemma_escape_concat(a, b.drop_last());
        assert((a + b).drop_last() =~= a + b.drop_last());
        assert((a + b).last() == b.last());
        assert(escape(a + b) =~= escape(a) + escape(b));
    }
}

/// Escaping, read from the front: the first character, then the rest.
pub proof fn lemma_escape_first(s: Seq<char>)
    requires
        s.len() > 0,
    ensures
        escape(s) == escape_char(s[0]) + escape(s.drop_first()),
{
    lemma_escape_concat(seq![s[0]], s.drop_first());
    assert(seq![s[0]] + s.drop_first() =~= s);
    let one = seq![s[0]];
    assert(one.drop_last() =~= Seq::<char>::empty());
    assert(escape(Seq::<char>::empty()) =~= Seq::<char>::empty());
    assert(escape(one) =~= escape_char(s[0]));
}

/// Unescaping undoes escaping, on text without an escape marker.
pub proof fn lemma_unescape_escape(s: Seq<char>)
    requires
        no_marker(s),
    ensures
        unescape(escape(s)) == Ok::<Seq<char>, EscapeError>(s),
    decreases s.len(),
{
    if s.len() == 0 {
        assert(escape(s) =~= Seq::<char>::empty());
        assert(s =~= Seq::<char>::empty());
    } else {
        let rest = s.drop_first();
        assert(no_marker(rest)) by {
            assert forall|i: int| 0 <= i < rest.len() implies rest[i] != '\\' by {
                assert(rest[i] == s[i + 1]);
            }
        }
        lemma_escape_first(s);
        lemma_unescape_escape(rest);
        let e = escape(s);
        if s[0] == '"' {
            assert(e[0] == '\\' && e[1] == '"');
            assert(e.subrange(2, e.len() as int) =~= escape(rest));
            assert(unescape(e) == Ok::<Seq<char>, EscapeError>(seq!['"'] + rest));
        } else {
            assert(s[0] != '\\');
            assert(e[0] == s[0]);
            assert(e.drop_first() =~= escape(rest));
            assert(unescape(e) == Ok::<Seq<char>, EscapeError>(seq![s[0]] + rest));
        }
        assert(seq![s[0]] + rest =~= s);
    }
}

/// Relies on std's `String::push`, which appends one character.
#[verifier::external_body]
pub(crate) fn push_char(s: &mut String, c: char)
    ensures
        final(s)@ == old(s)@.push(c),
{
    s.push(c)
}

/// The characters of a text, in order.
pub fn chars_of(s: &str) -> (r: Vec<char>)
    ensures
        r@ == s@,
{
    broadcast use vstd::string::group_string_axioms;

    let mut it = s.chars();
    let mut out: Vec<char> = Vec::new();
    let ghost n = s@.len();
    loop
        invariant
            out@.len() <= n,
            n == s@.len(),
            it.remaining() == s@.subrange(out@.len() as int, n as int),
            out@ == s@.subrange(0, out@.len() as int),
        ensures
            out@ == s@,
        decreases n - out@.len(),
    {
        let ghost before = it;
        match it.next() {
            Some(c) => {
                out.push(c);
                assert(out@ =~= s@.subrange(0, out@.len() as int));
            },
            None => {
                assert(before.remaining().len() == 0);
                assert(out@ =~= s@);
                break ;
            },
        }
    }
    out
}

/// Text before the result of reading escaped text, when that succeeds.
pub open spec fn prefixed(p: Seq<char>, r: Result<Seq<char>, EscapeError>) -> Result<Seq<char>, EscapeError> {
    match r {
        Ok(x) => Ok(p + x),
        Err(e) => Err(e),
    }
}

/// Appends the escaped form of `t` to `out`.
pub(crate) fn push_escaped(out: &mut String, t: &Vec<char>)
    ensures
        final(out)@ == old(out)@ + escape(t@),
{
    let ghost start = out@;
    let mut i: usize = 0;
    while i < t.len()
        invariant
            i <= t@.len(),
            out@ == start + escape(t@.subrange(0, i as int)),
        decreases t@.len() - i,
    {
        let c = t[i];
        proof {
            let next = t@.subrange(0, i + 1);
            assert(next.drop_last() =~= t@.subrange(0, i as int));
            assert(next.last() == c);
        }
        if c == '"' {
            push_char(out, '\\');
        }
        push_char(out, c);
        assert(out@ =~= start + escape(t@.subrange(0, i + 1)));
        i = i + 1;
    }
    assert(t@.subrange(0, t@.len() as int) =~= t@);
}

/// Appends a quoted field holding `t` to `out`.
pub(crate) fn push_quoted(out: &mut String, t: &Vec<char>)
    ensures
        final(out)@ == old(out)@ + quoted(t@),
{
    push_char(out, '"');
    push_escaped(out, t);
    push_char(out, '"');
    assert(final(out)@ =~= old(out)@ + quoted(t@));
}

/// Reads the escaped text `t[from..to]`.
pub(crate) fn unescape_range(t: &Vec<char>, from: usize, to: usize) -> (r: Result<String, EscapeError>)
    requires
        from <= to <= t@.len(),
    ensures
        match r {
            Ok(v) => unescape(t@.subrange(from as int, to as int)) == Ok::<Seq<char>, EscapeError>(v@),
            Err(e) => unescape(t@.subrange(from as int, to as int)) == Err::<Seq<char>, EscapeError>(e),
        },
{
    let mut out = String::new();
    let mut j: usize = from;
    proof {
        assert(out@ =~= Seq::<char>::empty());
        assert(prefixed(out@, unescape(t@.subrange(j as int, to as int))) == unescape(
            t@.subrange(j as int, to as int),
        )) by {
            match unescape(t@.subrange(j as int, to as int)) {
                Ok(x) => {
                    assert(out@ + x =~= x);
                },
                Err(_) => {},
            }
        }
    }
    while j < to
        invariant
            from <= j <= to <= t@.len(),
            unescape(t@.subrange(from as int, to as int)) == prefixed(
                out@,
                unescape(t@.subrange(j as int, to as int)),
            ),
        decreases to - j,
    {
        let ghost u = t@.subrange(j as int, to as int);
        let ghost before = out@;
        let c = t[j];
        if c == '\\' {
            if j + 1 == to {
                return Err(EscapeError::EscapeAtEndOfString);
            }
            let d = t[j + 1];
            if d != '"' {
                return Err(EscapeError::InvalidEscapedChar { char: d });
            }
            push_char(&mut out, '"');
            proof {
                assert(u.subrange(2, u.len() as int) =~= t@.subrange(j + 2, to as int));
                match unescape(t@.subrange(j + 2, to as int)) {
                    Ok(x) => {
                        assert(before + (seq!['"'] + x) =~= out@ + x);
                    },
                    Err(_) => {},
                }
            }
            j = j + 2;
        } else {
            push_char(&mut out, c);
            proof {
                assert(u.drop_first() =~= t@.subrange(j + 1, to as int));
                match unescape(t@.subrange(j + 1, to as int)) {
                    Ok(x) => {
                        assert(before + (seq![c] + x) =~= out@ + x);
                    },
                    Err(_) => {},
                }
            }
            j = j + 1;
        }
    }
    proof {
        assert(t@.subrange(j as int, to as int) =~= Seq::<char>::empty());
        assert(out@ + Seq::<char>::empty() =~= out@);
    }
    Ok(out)
}

/// Escapes `s`: every quote gets a backslash before it, and every other
/// character stays as it is. Escaping cannot fail.
pub fn escape_string(s: &str) -> (r: Result<String, EscapeError>)
    ensures
        match r {
            Ok(e) => e@ == escape(s@),
            Err(_) => false,
        },
{
    let t = chars_of(s);
    let mut out = String::new();
    push_escaped(&mut out, &t);
    assert(out@ =~= escape(s@));
    Ok(out)
}

/// Reads escaped text back: `\"` gives a quote, a backslash at the end or
/// before any other character is an error.
pub fn interpret_escaped_string(s: &str) -> (r: Result<String, EscapeError>)
    ensures
        match r {
            Ok(v) => unescape(s@) == Ok::<Seq<char>, EscapeError>(v@),
            Err(e) => unescape(s@) == Err::<Seq<char>, EscapeError>(e),
        },
{
    let t = chars_of(s);
    assert(t@.subrange(0, t@.len() as int) =~= s@);
    unescape_range(&t, 0, t.len())
}

/// The quoted field that holds `s`: a quote, the escaped text, a quote.
pub fn encode_string(s: &str) -> (r: String)
    ensures
        r@ == quoted(s@),
{
    let t = chars_of(s);
    let mut out = String::new();
    push_quoted(&mut out, &t);
    assert(out@ =~= quoted(s@));
    out
}

} // verus!
