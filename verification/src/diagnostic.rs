//! How an error in a configuration file is shown: where it is, and the line it is on with
//! the offending part marked.

use vstd::prelude::*;
use crate::sudoers::basic_parser::Span;
use crate::text::{chars_of, concat, is_whitespace, push_char, char_is_whitespace};

verus! {

/// The decimal digits of a number, as characters.
pub open spec fn decimal_chars(n: nat) -> Seq<char>
    decreases n,
{
    if n < 10 {
        seq![digit_char(n)]
    } else {
        decimal_chars(n / 10).push(digit_char(n % 10))
    }
}

pub open spec fn digit_char(d: nat) -> char {
    if d == 0 {
        '0'
    } else if d == 1 {
        '1'
    } else if d == 2 {
        '2'
    } else if d == 3 {
        '3'
    } else if d == 4 {
        '4'
    } else if d == 5 {
        '5'
    } else if d == 6 {
        '6'
    } else if d == 7 {
        '7'
    } else if d == 8 {
        '8'
    } else {
        '9'
    }
}

fn digit(d: usize) -> (c: char)
    requires
        d < 10,
    ensures
        c == digit_char(d as nat),
{
    if d == 0 {
        '0'
    } else if d == 1 {
        '1'
    } else if d == 2 {
        '2'
    } else if d == 3 {
        '3'
    } else if d == 4 {
        '4'
    } else if d == 5 {
        '5'
    } else if d == 6 {
        '6'
    } else if d == 7 {
        '7'
    } else if d == 8 {
        '8'
    } else {
        '9'
    }
}

/// Append the decimal digits of `n`.
pub(crate) fn push_decimal(s: &mut String, n: usize)
    ensures
        final(s)@ == old(s)@ + decimal_chars(n as nat),
    decreases n,
{
    if n < 10 {
        push_char(s, digit(n));
    } else {
        push_decimal(s, n / 10);
        push_char(s, digit(n % 10));
    }
}

/// `path:line:column: message`
pub open spec fn header_text(path: Seq<char>, span: Span, message: Seq<char>) -> Seq<char> {
    path + seq![':'] + decimal_chars(span.start.0 as nat) + seq![':'] + decimal_chars(
        span.start.1 as nat,
    ) + ": "@ + message
}

/// The first line of a cited error: where it is, and the message.
pub fn cited_header(path: &str, span: &Span, message: &str) -> (s: String)
    ensures
        s@ == header_text(path@, *span, message@),
{
    let mut s = concat(path, ":");
    proof {
        reveal_strlit(":");
        assert(s@ =~= path@ + seq![':']);
    }
    push_decimal(&mut s, span.start.0);
    push_char(&mut s, ':');
    push_decimal(&mut s, span.start.1);
    s.append(": ");
    s.append(message);
    proof {
        assert(s@ =~= header_text(path@, *span, message@));
    }
    s
}

/// The marks under the cited line: the characters before the column as blanks (whitespace
/// kept, so that tabs line up), then `^`, then `~` under the rest of the span when it ends on
/// the same line.
pub open spec fn underline_text(line: Seq<char>, span: Span) -> Seq<char> {
    let col = span.start.1 as int;
    let end_col = if span.start.0 != span.end.0 {
        col
    } else {
        span.end.1 as int
    };
    let take = if col - 1 < line.len() {
        col - 1
    } else {
        line.len() as int
    };
    Seq::new(take as nat, |i: int| if char_is_whitespace(line[i]) { line[i] } else { ' ' }) + seq![
        '^',
    ] + Seq::new(
        if end_col - col - 1 > 0 {
            (end_col - col - 1) as nat
        } else {
            0
        },
        |i: int| '~',
    )
}

/// The line under the cited line of a cited error.
pub fn cited_underline(line: &str, span: &Span) -> (s: String)
    requires
        span.start.1 >= 1,
        span.start.0 == span.end.0 ==> span.end.1 >= span.start.1,
    ensures
        s@ == underline_text(line@, *span),
{
    let col = span.start.1;
    let end_col = if span.start.0 != span.end.0 {
        col
    } else {
        span.end.1
    };
    let chars = chars_of(line);
    let take = if col - 1 < chars.len() {
        col - 1
    } else {
        chars.len()
    };
    let mut s = String::new();
    let mut i: usize = 0;
    while i < take
        invariant
            take <= chars@.len(),
            chars@ == line@,
            i <= take,
            s@ == Seq::new(
                i as nat,
                |k: int| if char_is_whitespace(line@[k]) { line@[k] } else { ' ' },
            ),
        decreases take - i,
    {
        let c = chars[i];
        if is_whitespace(c) {
            push_char(&mut s, c);
        } else {
            push_char(&mut s, ' ');
        }
        proof {
            assert(s@ =~= Seq::new(
                (i + 1) as nat,
                |k: int| if char_is_whitespace(line@[k]) { line@[k] } else { ' ' },
            ));
        }
        i += 1;
    }
    let ghost padding = s@;
    push_char(&mut s, '^');
    let tildes: usize = if end_col - col > 1 {
        end_col - col - 1
    } else {
        0
    };
    let mut j: usize = 0;
    while j < tildes
        invariant
            j <= tildes,
            s@ == padding + seq!['^'] + Seq::new(j as nat, |k: int| '~'),
        decreases tildes - j,
    {
        push_char(&mut s, '~');
        proof {
            assert(s@ =~= padding + seq!['^'] + Seq::new((j + 1) as nat, |k: int| '~'));
        }
        j += 1;
    }
    proof {
        assert(s@ =~= underline_text(line@, *span));
    }
    s
}

} // verus!
