//! The building blocks of the sudoers parser: results and errors, whitespace, comments and
//! line continuations, single syntax characters, tokens, and lists.

use vstd::prelude::*;
use super::char_stream::CharStream;
use crate::text::{char_is_control, owned, push_char};

verus! {

/// A region of the input, from (line, column) to (line, column).
#[derive(Clone, Copy, Debug, PartialEq, Eq)]
pub struct Span {
    pub start: (usize, usize),
    pub end: (usize, usize),
}

/// Why a parser did not produce a value: a `Reject` consumed nothing that matters and lets
/// another alternative be tried; a `Fatal` error ends the parse of the line.
#[derive(Debug)]
pub enum Status {
    Fatal(Span, String),
    Reject,
}

pub type Parsed<T> = Result<T, Status>;

/// The remaining input `a` is what is left of `b` after reading some of it.
pub open spec fn is_suffix(a: Seq<char>, b: Seq<char>) -> bool {
    a.len() <= b.len() && a == b.skip(b.len() - a.len())
}

pub proof fn lemma_suffix_trans(a: Seq<char>, b: Seq<char>, c: Seq<char>)
    requires
        is_suffix(a, b),
        is_suffix(b, c),
    ensures
        is_suffix(a, c),
{
    assert(c.skip(c.len() - b.len()).skip(b.len() - a.len()) =~= c.skip(c.len() - a.len()));
}

pub proof fn lemma_suffix_refl(a: Seq<char>)
    ensures
        is_suffix(a, a),
{
    assert(a.skip(0) =~= a);
}

pub proof fn lemma_suffix_drop(b: Seq<char>, n: int)
    requires
        0 <= n <= b.len(),
    ensures
        is_suffix(b.skip(n), b),
{
    assert(b.skip(b.len() - b.skip(n).len()) =~= b.skip(n));
}

/// A fatal error spanning from `start` to where the stream stands.
pub fn fatal_at(start: (usize, usize), stream: &CharStream, msg: String) -> (s: Status)
    ensures
        s matches Status::Fatal(span, m) && m@ == msg@ && span.start == start && span.end
            == stream.pos(),
{
    Status::Fatal(Span { start, end: stream.get_pos() }, msg)
}

/// A fatal error at the position of the stream.
pub fn fatal(stream: &CharStream, msg: String) -> (s: Status)
    ensures
        s matches Status::Fatal(span, m) && m@ == msg@ && span.start == stream.pos() && span.end
            == stream.pos(),
{
    let pos = stream.get_pos();
    Status::Fatal(Span { start: pos, end: pos }, msg)
}

/// Turn a rejection into "nothing here".
pub fn maybe<T>(r: Parsed<T>) -> (res: Parsed<Option<T>>)
    ensures
        match r {
            Ok(x) => res == Ok::<Option<T>, Status>(Some(x)),
            Err(Status::Reject) => res == Ok::<Option<T>, Status>(None),
            Err(e) => res == Err::<Option<T>, Status>(e),
        },
{
    match r {
        Ok(x) => Ok(Some(x)),
        Err(Status::Reject) => Ok(None),
        Err(e) => Err(e),
    }
}

// ---------------------------------------------------------------------------------------------
// Whitespace
// ---------------------------------------------------------------------------------------------

pub open spec fn is_space(c: char) -> bool {
    c == ' ' || c == '\t'
}

/// The number of spaces and tabs at the start of `s`.
pub open spec fn spaces(s: Seq<char>) -> int
    decreases s.len(),
{
    if s.len() > 0 && is_space(s[0]) {
        1 + spaces(s.drop_first())
    } else {
        0
    }
}

/// The number of characters before the first newline of `s` (all of them if there is none).
pub open spec fn line_len(s: Seq<char>) -> int
    decreases s.len(),
{
    if s.len() > 0 && s[0] != '\n' {
        1 + line_len(s.drop_first())
    } else {
        0
    }
}

pub proof fn lemma_spaces(s: Seq<char>)
    ensures
        0 <= spaces(s) <= s.len(),
        forall|i: int| 0 <= i < spaces(s) ==> is_space(#[trigger] s[i]),
        spaces(s) < s.len() ==> !is_space(s[spaces(s)]),
    decreases s.len(),
{
    if s.len() > 0 && is_space(s[0]) {
        lemma_spaces(s.drop_first());
        assert forall|i: int| 0 <= i < spaces(s) implies is_space(#[trigger] s[i]) by {
            if i > 0 {
                assert(s[i] == s.drop_first()[i - 1]);
            }
        }
    }
}

pub proof fn lemma_line_len(s: Seq<char>)
    ensures
        0 <= line_len(s) <= s.len(),
        forall|i: int| 0 <= i < line_len(s) ==> #[trigger] s[i] != '\n',
        line_len(s) < s.len() ==> s[line_len(s)] == '\n',
    decreases s.len(),
{
    if s.len() > 0 && s[0] != '\n' {
        lemma_line_len(s.drop_first());
        assert forall|i: int| 0 <= i < line_len(s) implies #[trigger] s[i] != '\n' by {
            if i > 0 {
                assert(s[i] == s.drop_first()[i - 1]);
            }
        }
    }
}

/// What is left after the whitespace that may follow any item: spaces and tabs, and line
/// continuations (a backslash at the end of a line).
/// `None` for a backslash that does not end the line.
pub open spec fn after_ws(s: Seq<char>) -> Option<Seq<char>>
    decreases s.len(),
{
    let t = s.skip(spaces(s));
    if t.len() > 0 && t[0] == '\\' {
        if t.len() > 1 && t[1] == '\n' {
            proof {
                lemma_spaces(s);
            }
            after_ws(t.skip(2))
        } else {
            None
        }
    } else {
        Some(t)
    }
}

pub proof fn lemma_after_ws(s: Seq<char>)
    ensures
        after_ws(s) matches Some(t) ==> is_suffix(t, s),
    decreases s.len(),
{
    lemma_spaces(s);
    let t = s.skip(spaces(s));
    lemma_suffix_drop(s, spaces(s));
    if t.len() > 0 && t[0] == '\\' {
        if t.len() > 1 && t[1] == '\n' {
            lemma_after_ws(t.skip(2));
            lemma_suffix_drop(t, 2);
            if after_ws(s) is Some {
                lemma_suffix_trans(after_ws(s)->0, t.skip(2), t);
                lemma_suffix_trans(after_ws(s)->0, t, s);
            }
        }
    }
}

/// Skip spaces and tabs.
pub fn skip_spaces(stream: &mut CharStream) -> (n: usize)
    requires
        old(stream).wf(),
    ensures
        final(stream).wf(),
        n == spaces(old(stream).rest()),
        final(stream).rest() == old(stream).rest().skip(n as int),
        final(stream).pos().0 == old(stream).pos().0,
{
    let ghost start = stream.rest();
    let mut n: usize = 0;
    proof {
        lemma_spaces(start);
        assert(start.skip(0) =~= start);
        old(stream).lemma_rest_len();
    }
    loop
        invariant
            stream.wf(),
            start == old(stream).rest(),
            start.len() < usize::MAX,
            n <= spaces(start),
            spaces(start) <= start.len(),
            stream.rest() == start.skip(n as int),
            stream.pos().0 == old(stream).pos().0,
            spaces(start) == n + spaces(stream.rest()),
        ensures
            stream.wf(),
            n == spaces(start),
            stream.rest() == start.skip(n as int),
            stream.pos().0 == old(stream).pos().0,
        decreases stream.rest().len(),
    {
        match stream.peek() {
            Some(c) => {
                if c == ' ' || c == '\t' {
                    let ghost before = stream.rest();
                    stream.bump();
                    proof {
                        assert(start.skip(n + 1) =~= before.drop_first());
                        lemma_spaces(before);
                    }
                    n = n + 1;
                } else {
                    break;
                }
            },
            None => {
                break;
            },
        }
    }
    n
}

/// Skip the rest of the line (not the newline itself).
pub fn skip_line(stream: &mut CharStream)
    requires
        old(stream).wf(),
    ensures
        final(stream).wf(),
        final(stream).rest() == old(stream).rest().skip(line_len(old(stream).rest())),
{
    let ghost start = stream.rest();
    stream.skip_to_newline();
    proof {
        lemma_line_len(start);
        let k = start.len() - stream.rest().len();
        // the newline found is the first one
        if k < line_len(start) {
            assert(start[k] == stream.rest()[0]);
        }
        if k > line_len(start) {
            assert(start[line_len(start)] == '\n');
        }
        assert(k == line_len(start));
    }
}

/// Skip the whitespace that may follow any item.
pub fn skip_trailing_whitespace(stream: &mut CharStream) -> (r: Parsed<()>)
    requires
        old(stream).wf(),
    ensures
        final(stream).wf(),
        is_suffix(final(stream).rest(), old(stream).rest()),
        match after_ws(old(stream).rest()) {
            Some(t) => r is Ok && final(stream).rest() == t,
            None => r is Err && r != Err::<(), Status>(Status::Reject),
        },
{
    let ghost start = stream.rest();
    proof {
        lemma_suffix_refl(start);
    }
    loop
        invariant
            stream.wf(),
            start == old(stream).rest(),
            is_suffix(stream.rest(), start),
            after_ws(stream.rest()) == after_ws(start),
        decreases stream.rest().len(),
    {
        let ghost s = stream.rest();
        skip_spaces(stream);
        let ghost t = stream.rest();
        proof {
            lemma_spaces(s);
            lemma_suffix_drop(s, spaces(s));
            lemma_suffix_trans(t, s, start);
        }
        if stream.eat_char('\\') {
            if stream.eat_char('\n') {
                proof {
                    assert(t.skip(2) =~= t.drop_first().drop_first());
                    lemma_suffix_drop(t, 2);
                    lemma_suffix_trans(stream.rest(), t, start);
                }
            } else {
                proof {
                    assert(t.skip(1) =~= t.drop_first());
                    lemma_suffix_drop(t, 1);
                    lemma_suffix_trans(stream.rest(), t, start);
                }
                return Err(fatal(stream, owned("stray escape sequence")));
            }
        } else {
            return Ok(());
        }
    }
}

// ---------------------------------------------------------------------------------------------
// Syntax characters
// ---------------------------------------------------------------------------------------------

/// Eat the character `syntax` and the whitespace after it; `false` when it is not next.
pub fn is_syntax(syntax: char, stream: &mut CharStream) -> (r: Parsed<bool>)
    requires
        old(stream).wf(),
    ensures
        final(stream).wf(),
        is_suffix(final(stream).rest(), old(stream).rest()),
        r != Err::<bool, Status>(Status::Reject),
        !(old(stream).rest().len() > 0 && old(stream).rest()[0] == syntax) ==> r == Ok::<
            bool,
            Status,
        >(false) && *final(stream) == *old(stream),
        old(stream).rest().len() > 0 && old(stream).rest()[0] == syntax ==> match after_ws(
            old(stream).rest().drop_first(),
        ) {
            Some(t) => r == Ok::<bool, Status>(true) && final(stream).rest() == t,
            None => r is Err,
        },
{
    let ghost start = stream.rest();
    if stream.eat_char(syntax) {
        let r = skip_trailing_whitespace(stream);
        proof {
            lemma_suffix_drop(start, 1);
            assert(start.skip(1) =~= start.drop_first());
            lemma_suffix_trans(stream.rest(), start.drop_first(), start);
        }
        match r {
            Ok(()) => Ok(true),
            Err(e) => Err(e),
        }
    } else {
        proof {
            lemma_suffix_refl(start);
        }
        Ok(false)
    }
}

/// Eat the character `syntax` and the whitespace after it, or reject.
pub fn try_syntax(syntax: char, stream: &mut CharStream) -> (r: Parsed<()>)
    requires
        old(stream).wf(),
    ensures
        final(stream).wf(),
        is_suffix(final(stream).rest(), old(stream).rest()),
        !(old(stream).rest().len() > 0 && old(stream).rest()[0] == syntax) ==> r == Err::<
            (),
            Status,
        >(Status::Reject) && *final(stream) == *old(stream),
        old(stream).rest().len() > 0 && old(stream).rest()[0] == syntax ==> match after_ws(
            old(stream).rest().drop_first(),
        ) {
            Some(t) => r is Ok && final(stream).rest() == t,
            None => r is Err && r != Err::<(), Status>(Status::Reject),
        },
{
    match is_syntax(syntax, stream) {
        Ok(true) => Ok(()),
        Ok(false) => Err(Status::Reject),
        Err(e) => Err(e),
    }
}

fn char_to_string(c: char) -> (s: String)
    ensures
        s@ == seq![c],
{
    let mut s = String::new();
    push_char(&mut s, c);
    proof {
        assert(Seq::<char>::empty().push(c) =~= seq![c]);
    }
    s
}

/// Eat the character `syntax` and the whitespace after it; a fatal error when it is not next.
pub fn expect_syntax(syntax: char, stream: &mut CharStream) -> (r: Parsed<()>)
    requires
        old(stream).wf(),
    ensures
        final(stream).wf(),
        is_suffix(final(stream).rest(), old(stream).rest()),
        r != Err::<(), Status>(Status::Reject),
        !(old(stream).rest().len() > 0 && old(stream).rest()[0] == syntax) ==> r is Err,
        old(stream).rest().len() > 0 && old(stream).rest()[0] == syntax ==> match after_ws(
            old(stream).rest().drop_first(),
        ) {
            Some(t) => r is Ok && final(stream).rest() == t,
            None => r is Err,
        },
{
    match try_syntax(syntax, stream) {
        Ok(()) => Ok(()),
        Err(Status::Reject) => {
            let found = match stream.peek() {
                Some(c) => char_to_string(c),
                None => owned("EOF"),
            };
            let mut msg = owned("expecting '");
            push_char(&mut msg, syntax);
            msg.append("' but found '");
            msg.append(found.as_str());
            msg.append("'");
            Err(fatal(stream, msg))
        },
        Err(e) => Err(e),
    }
}

// ---------------------------------------------------------------------------------------------
// Tokens
// ---------------------------------------------------------------------------------------------

/// How the characters of a token are recognised: which may start it, which may continue it,
/// whether a backslash escapes the next character and which characters it may escape, and how
/// long the token may be.
pub struct TokenClass {
    pub accept_1st: spec_fn(char) -> bool,
    pub accept: spec_fn(char) -> bool,
    pub escaped: spec_fn(char) -> bool,
    pub allow_escape: bool,
    pub max_len: nat,
}

/// Reading one character of a token: `Char(c, n)` gives the character `c` and reads `n`
/// characters of input.
pub enum Step {
    Char(char, nat),
    Reject,
    Fatal,
}

pub open spec fn token_step(pred: spec_fn(char) -> bool, class: TokenClass, s: Seq<char>) -> Step {
    if s.len() > 0 && pred(s[0]) {
        Step::Char(s[0], 1)
    } else if class.allow_escape && s.len() > 0 && s[0] == '\\' {
        if s.len() > 1 && (class.escaped)(s[1]) {
            Step::Char(s[1], 2)
        } else {
            Step::Fatal
        }
    } else {
        Step::Reject
    }
}

/// The outcome of reading a token.
pub enum Scan {
    /// The text of the token (escapes removed) and the number of characters read.
    Token(Seq<char>, nat),
    Reject,
    Fatal,
}

/// Reading the rest of a token whose text so far is `text`.
pub open spec fn scan_more(class: TokenClass, s: Seq<char>, text: Seq<char>, read: nat) -> Scan
    decreases s.len(),
{
    match token_step(class.accept, class, s) {
        Step::Char(c, n) => if text.len() + 1 > class.max_len {
            Scan::Fatal
        } else if n <= s.len() {
            scan_more(class, s.skip(n as int), text.push(c), read + n)
        } else {
            Scan::Fatal
        },
        Step::Reject => Scan::Token(text, read),
        Step::Fatal => Scan::Fatal,
    }
}

/// Reading a token at the start of `s`.
pub open spec fn scan_token(class: TokenClass, s: Seq<char>) -> Scan {
    match token_step(class.accept_1st, class, s) {
        Step::Char(c, n) => if n <= s.len() {
            scan_more(class, s.skip(n as int), seq![c], n)
        } else {
            Scan::Fatal
        },
        Step::Reject => Scan::Reject,
        Step::Fatal => Scan::Fatal,
    }
}

/// What a parser does with a text: reads an item and leaves the rest, rejects it without
/// reading, or fails with an error.
pub enum Outcome<M> {
    Done(M, Seq<char>),
    Reject,
    Fail,
}

/// `is_syntax`: the character and the whitespace after it, or nothing when it is not next.
pub open spec fn syntax_outcome(c: char, s: Seq<char>) -> Outcome<bool> {
    if s.len() > 0 && s[0] == c {
        match after_ws(s.drop_first()) {
            Some(t) => Outcome::Done(true, t),
            None => Outcome::Fail,
        }
    } else {
        Outcome::Done(false, s)
    }
}

/// `expect_syntax`: the character and the whitespace after it, which must be there.
pub open spec fn expect_outcome(c: char, s: Seq<char>) -> Outcome<()> {
    if s.len() > 0 && s[0] == c {
        match after_ws(s.drop_first()) {
            Some(t) => Outcome::Done((), t),
            None => Outcome::Fail,
        }
    } else {
        Outcome::Fail
    }
}

} // verus!
