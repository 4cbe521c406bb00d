//! Tokens of the configuration grammars: which characters a token may hold, and the value
//! that its text stands for.

use vstd::prelude::*;
use crate::system::{digits_value, parse_u32, parse_u32_exec, without_plus, all_digits};
use crate::text::{
    ascii_alphanumeric, ascii_digit, char_is_uppercase, chars_eq_str, chars_of, is_ascii_alphanumeric,
    is_ascii_digit, is_uppercase, trim, trim_from,
};

verus! {

/// A token: a run of characters that it accepts, the first of which may be held to another
/// rule; its text stands for a value.
pub trait Token: Sized {
    /// A character that may continue the token.
    spec fn accepts(c: char) -> bool;

    /// A character that may start the token.
    spec fn accepts_first(c: char) -> bool;

    /// A text that stands for a value of the token.
    spec fn valid(text: Seq<char>) -> bool;

    fn accept(c: char) -> (b: bool)
        ensures
            b == Self::accepts(c),
    ;

    fn accept_1st(c: char) -> (b: bool)
        ensures
            b == Self::accepts_first(c),
    ;

    /// The value that the text stands for.
    fn ident(text: String) -> (t: Self)
        requires
            Self::valid(text@),
    ;
}

pub open spec fn name_char(c: char) -> bool {
    ascii_alphanumeric(c) || c == '.' || c == '-' || c == '_'
}

fn is_name_char(c: char) -> (b: bool)
    ensures
        b == name_char(c),
{
    is_ascii_alphanumeric(c) || c == '.' || c == '-' || c == '_'
}

/// A user name: letters, digits, `.`, `-` and `_`, not starting with `_`.
#[derive(Debug, PartialEq, Eq)]
pub struct Username(pub String);

impl Token for Username {
    open spec fn accepts(c: char) -> bool {
        name_char(c)
    }

    open spec fn accepts_first(c: char) -> bool {
        c != '_' && name_char(c)
    }

    open spec fn valid(text: Seq<char>) -> bool {
        true
    }

    fn accept(c: char) -> (b: bool) {
        is_name_char(c)
    }

    fn accept_1st(c: char) -> (b: bool) {
        c != '_' && is_name_char(c)
    }

    fn ident(text: String) -> (t: Username)
        ensures
            t.0@ == text@,
    {
        Username(text)
    }
}

/// A text without its sign.
pub open spec fn unsigned_part(s: Seq<char>) -> Seq<char> {
    if s.len() > 0 && (s[0] == '+' || s[0] == '-') {
        s.drop_first()
    } else {
        s
    }
}

pub open spec fn negative(s: Seq<char>) -> bool {
    s.len() > 0 && s[0] == '-'
}

/// What `str::parse::<i32>` gives: an optional sign, then at least one decimal digit and
/// nothing else, for a number that fits in 32 bits with a sign.
pub open spec fn parse_i32(s: Seq<char>) -> Option<i32> {
    let t = unsigned_part(s);
    if t.len() > 0 && all_digits(t) {
        if negative(s) && digits_value(t) <= 0x8000_0000 {
            Some((0 - digits_value(t)) as i32)
        } else if !negative(s) && digits_value(t) <= 0x7fff_ffff {
            Some(digits_value(t) as i32)
        } else {
            None
        }
    } else {
        None
    }
}

/// Parse a number as `str::parse::<i32>` does.
pub fn parse_i32_exec(s: &Vec<char>) -> (r: Option<i32>)
    ensures
        r == parse_i32(s@),
{
    let signed = s.len() > 0 && (s[0] == '+' || s[0] == '-');
    let neg = s.len() > 0 && s[0] == '-';
    let mut rest: Vec<char> = Vec::new();
    let mut i: usize = if signed {
        1
    } else {
        0
    };
    let start = i;
    while i < s.len()
        invariant
            start <= i <= s@.len(),
            start == (if signed { 1int } else { 0int }),
            rest@ == s@.subrange(start as int, i as int),
        decreases s.len() - i,
    {
        rest.push(s[i]);
        proof {
            assert(rest@ =~= s@.subrange(start as int, i + 1));
        }
        i += 1;
    }
    let ghost t = unsigned_part(s@);
    proof {
        assert(rest@ =~= t);
    }
    if rest.len() > 0 && rest[0] == '+' {
        proof {
            assert(!all_digits(t)) by {
                assert(!('0' <= t[0] <= '9'));
            }
        }
        return None;
    }
    proof {
        assert(without_plus(t) =~= t);
    }
    match parse_u32_exec(&rest) {
        Some(v) => {
            if neg && v <= 0x8000_0000 {
                if v == 0x8000_0000 {
                    Some(-2147483647i32 - 1)
                } else {
                    Some(0 - (v as i32))
                }
            } else if !neg && v <= 0x7fff_ffff {
                Some(v as i32)
            } else {
                None
            }
        },
        None => None,
    }
}

/// A decimal number, with an optional sign.
#[derive(Debug)]
pub struct Decimal(pub i32);

impl Token for Decimal {
    open spec fn accepts(c: char) -> bool {
        ascii_digit(c)
    }

    open spec fn accepts_first(c: char) -> bool {
        ascii_digit(c) || c == '+' || c == '-'
    }

    open spec fn valid(text: Seq<char>) -> bool {
        parse_i32(text) is Some
    }

    fn accept(c: char) -> (b: bool) {
        is_ascii_digit(c)
    }

    fn accept_1st(c: char) -> (b: bool) {
        is_ascii_digit(c) || c == '+' || c == '-'
    }

    fn ident(text: String) -> (t: Decimal)
        ensures
            Some(t.0) == parse_i32(text@),
    {
        let chars = chars_of(text.as_str());
        match parse_i32_exec(&chars) {
            Some(v) => Decimal(v),
            None => Decimal(0),
        }
    }
}

/// A host name: letters, digits, `.`, `-` and `_`.
#[derive(Debug)]
pub struct Hostname(pub String);

impl Token for Hostname {
    open spec fn accepts(c: char) -> bool {
        name_char(c)
    }

    open spec fn accepts_first(c: char) -> bool {
        name_char(c)
    }

    open spec fn valid(text: Seq<char>) -> bool {
        true
    }

    fn accept(c: char) -> (b: bool) {
        is_name_char(c)
    }

    fn accept_1st(c: char) -> (b: bool) {
        is_name_char(c)
    }

    fn ident(text: String) -> (t: Hostname)
        ensures
            t.0@ == text@,
    {
        Hostname(text)
    }
}

/// `ALL`, or a token of another kind.
#[derive(Debug)]
pub enum All<T> {
    All,
    Only(T),
}

impl<T: Token> Token for All<T> {
    open spec fn accepts(c: char) -> bool {
        T::accepts(c) || c == 'L'
    }

    open spec fn accepts_first(c: char) -> bool {
        T::accepts_first(c) || c == 'A'
    }

    open spec fn valid(text: Seq<char>) -> bool {
        text == "ALL"@ || T::valid(text)
    }

    fn accept(c: char) -> (b: bool) {
        T::accept(c) || c == 'L'
    }

    fn accept_1st(c: char) -> (b: bool) {
        T::accept_1st(c) || c == 'A'
    }

    fn ident(text: String) -> (t: All<T>)
        ensures
            (t is All) == (text@ == "ALL"@),
    {
        let chars = chars_of(text.as_str());
        if chars_eq_str(chars.as_slice(), "ALL") {
            All::All
        } else {
            All::Only(T::ident(text))
        }
    }
}

/// A run of upper case letters.
#[derive(Debug)]
pub struct Upper(pub String);

impl Token for Upper {
    open spec fn accepts(c: char) -> bool {
        char_is_uppercase(c)
    }

    open spec fn accepts_first(c: char) -> bool {
        char_is_uppercase(c)
    }

    open spec fn valid(text: Seq<char>) -> bool {
        true
    }

    fn accept(c: char) -> (b: bool) {
        is_uppercase(c)
    }

    fn accept_1st(c: char) -> (b: bool) {
        is_uppercase(c)
    }

    fn ident(text: String) -> (t: Upper)
        ensures
            t.0@ == text@,
    {
        Upper(text)
    }
}

/// The characters that a command escapes with a backslash.
pub open spec fn command_escaped(c: char) -> bool {
    c == '\\' || c == ',' || c == ':' || c == '='
}

/// A command line, up to 1024 characters: any character but those it escapes; its value is
/// the text without surrounding whitespace.
#[derive(Debug)]
pub struct Command(pub String);

impl Command {
    /// The longest command.
    pub const MAX_LEN: usize = 1024;

    /// The character that escapes another.
    pub const ESCAPE: char = '\\';

    /// Whether the character must be escaped.
    pub fn escaped(c: char) -> (b: bool)
        ensures
            b == command_escaped(c),
    {
        c == '\\' || c == ',' || c == ':' || c == '='
    }
}

impl Token for Command {
    open spec fn accepts(c: char) -> bool {
        !command_escaped(c)
    }

    open spec fn accepts_first(c: char) -> bool {
        !command_escaped(c)
    }

    open spec fn valid(text: Seq<char>) -> bool {
        true
    }

    fn accept(c: char) -> (b: bool) {
        !Self::escaped(c)
    }

    fn accept_1st(c: char) -> (b: bool) {
        !Self::escaped(c)
    }

    fn ident(text: String) -> (t: Command)
        ensures
            t.0@ == trim(text@),
    {
        let chars = chars_of(text.as_str());
        proof {
            assert(chars@.skip(0) =~= chars@);
        }
        Command(trim_from(chars.as_slice(), 0))
    }
}

} // verus!
