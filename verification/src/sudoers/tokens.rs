//! The tokens of the sudoers grammar: which characters they hold, and what they stand for.

use vstd::prelude::*;
use super::basic_parser::{
    after_ws, fatal, fatal_at, is_suffix, lemma_after_ws, lemma_suffix_drop, lemma_suffix_trans,
    scan_more, scan_token, skip_trailing_whitespace, token_step, Outcome, Parsed, Scan, Status, Step,
    TokenClass,
};
use super::char_stream::CharStream;
use crate::text::{
    ascii_alphanumeric, ascii_digit, ascii_hexdigit, ascii_upper, char_is_alphanumeric,
    char_is_control, char_is_uppercase, char_is_whitespace, chars_eq_str, chars_of, is_alphanumeric,
    is_ascii_alphanumeric, is_ascii_digit, is_ascii_hexdigit, is_ascii_uppercase, is_control,
    is_uppercase, is_whitespace, owned, push_char, string_from_chars,
};

verus! {

broadcast use vstd::string::group_string_axioms;

/// The kinds of token.
#[derive(Clone, Copy, PartialEq, Eq, Structural)]
pub enum TokenKind {
    /// A user name: alphanumeric characters and `.-_@$`, not starting with `@`.
    Username,
    /// Up to nine decimal digits.
    Digits,
    /// Hexadecimal digits and dots.
    Numeric,
    /// A host name: ASCII alphanumeric characters and `.-_`.
    Hostname,
    /// An upper case identifier: upper case letters, digits and `_`.
    AliasName,
    /// A command with its arguments.
    Command,
    /// A command without arguments.
    SimpleCommand,
    /// The name of a setting.
    DefaultName,
    /// The name of an environment variable.
    EnvVar,
    /// The text between double quotes.
    QuotedStringParameter,
    /// The path between double quotes after `@include`.
    QuotedIncludePath,
    /// The path after `@include`.
    IncludePath,
    /// The text of a setting, without quotes.
    StringParameter,
    /// A working directory.
    ChDir,
    /// The text of a user name between double quotes.
    UnquotedUsername,
    /// `ALL`, an alias, or a user name.
    MetaUsername,
    /// `ALL`, an alias, or a host name.
    MetaHostname,
    /// `ALL`, an alias, or a command with arguments.
    MetaCommand,
    /// `ALL`, an alias, or a command without arguments.
    MetaSimpleCommand,
}

pub open spec fn username_char(c: char) -> bool {
    char_is_alphanumeric(c) || c == '.' || c == '-' || c == '_' || c == '@' || c == '$'
}

pub open spec fn hostname_char(c: char) -> bool {
    ascii_alphanumeric(c) || c == '.' || c == '-' || c == '_'
}

pub open spec fn alias_char(c: char) -> bool {
    ascii_upper(c) || ascii_digit(c) || c == '_'
}

pub open spec fn command_escaped(c: char) -> bool {
    c == '\\' || c == ',' || c == ':' || c == '=' || c == '#' || c == ' '
}

pub open spec fn command_char(c: char) -> bool {
    (!command_escaped(c) && !char_is_control(c)) || c == '='
}

pub open spec fn command_first(c: char) -> bool {
    c == '/' || c == 's' || c == 'l'
}

/// The characters that a backslash may escape in a token of the kind.
pub open spec fn kind_escaped(k: TokenKind, c: char) -> bool {
    match k {
        TokenKind::Username | TokenKind::MetaUsername => c == '\\' || c == '"' || c == ',' || c
            == ':' || c == '=' || c == '!' || c == '(' || c == ')' || c == ' ',
        TokenKind::Command | TokenKind::SimpleCommand | TokenKind::MetaCommand
        | TokenKind::MetaSimpleCommand => command_escaped(c),
        TokenKind::EnvVar => c == '\\' || c == '=' || c == '#' || c == '"' || c == ',',
        TokenKind::QuotedStringParameter => c == '\\' || c == '"' || char_is_control(c),
        TokenKind::QuotedIncludePath => c == '"' || char_is_control(c),
        TokenKind::IncludePath | TokenKind::ChDir => c == '\\' || c == '"' || c == ' ',
        TokenKind::StringParameter => c == '\\' || c == '"' || c == ' ' || c == '#' || c == ',',
        _ => false,
    }
}

pub open spec fn kind_allow_escape(k: TokenKind) -> bool {
    match k {
        TokenKind::Digits | TokenKind::Numeric | TokenKind::Hostname | TokenKind::AliasName
        | TokenKind::DefaultName | TokenKind::UnquotedUsername | TokenKind::MetaHostname => false,
        _ => true,
    }
}

/// The characters that may continue a token of the kind.
pub open spec fn kind_accept(k: TokenKind, c: char) -> bool {
    match k {
        TokenKind::Username => username_char(c),
        TokenKind::Digits => ascii_digit(c),
        TokenKind::Numeric => ascii_hexdigit(c) || c == '.',
        TokenKind::Hostname => hostname_char(c),
        TokenKind::AliasName => alias_char(c),
        TokenKind::Command => command_char(c) || c == ' ',
        TokenKind::SimpleCommand => command_char(c),
        TokenKind::DefaultName => ascii_alphanumeric(c) || c == '_',
        TokenKind::EnvVar => !char_is_control(c) && !char_is_whitespace(c) && !kind_escaped(
            k,
            c,
        ),
        TokenKind::QuotedStringParameter | TokenKind::QuotedIncludePath => !kind_escaped(k, c),
        TokenKind::IncludePath | TokenKind::StringParameter | TokenKind::ChDir => !char_is_control(
            c,
        ) && !kind_escaped(k, c),
        TokenKind::UnquotedUsername => c != '"' && !char_is_control(c),
        TokenKind::MetaUsername => username_char(c) || char_is_uppercase(c),
        TokenKind::MetaHostname => hostname_char(c) || char_is_uppercase(c),
        TokenKind::MetaCommand => command_char(c) || c == ' ' || char_is_uppercase(c),
        TokenKind::MetaSimpleCommand => command_char(c) || char_is_uppercase(c),
    }
}

/// The characters that may start a token of the kind.
pub open spec fn kind_accept_1st(k: TokenKind, c: char) -> bool {
    match k {
        TokenKind::Username => c != '@' && username_char(c),
        TokenKind::AliasName => ascii_upper(c),
        TokenKind::Command | TokenKind::SimpleCommand => command_first(c),
        TokenKind::ChDir => c == '~' || c == '/' || c == '*',
        TokenKind::MetaUsername => (c != '@' && username_char(c)) || char_is_uppercase(c),
        TokenKind::MetaCommand | TokenKind::MetaSimpleCommand => command_first(c)
            || char_is_uppercase(c),
        _ => kind_accept(k, c),
    }
}

/// The longest a token of the kind may be.
pub open spec fn kind_max_len(k: TokenKind) -> nat {
    match k {
        TokenKind::Digits => 9,
        TokenKind::Numeric => 18,
        TokenKind::Command | TokenKind::SimpleCommand | TokenKind::QuotedStringParameter
        | TokenKind::QuotedIncludePath | TokenKind::IncludePath | TokenKind::StringParameter
        | TokenKind::ChDir | TokenKind::UnquotedUsername | TokenKind::MetaCommand
        | TokenKind::MetaSimpleCommand => 1024,
        _ => 255,
    }
}

pub open spec fn class_of(k: TokenKind) -> TokenClass {
    TokenClass {
        accept_1st: |c: char| kind_accept_1st(k, c),
        accept: |c: char| kind_accept(k, c),
        escaped: |c: char| kind_escaped(k, c),
        allow_escape: kind_allow_escape(k),
        max_len: kind_max_len(k),
    }
}

fn is_username_char(c: char) -> (b: bool)
    ensures
        b == username_char(c),
{
    is_alphanumeric(c) || c == '.' || c == '-' || c == '_' || c == '@' || c == '$'
}

fn is_hostname_char(c: char) -> (b: bool)
    ensures
        b == hostname_char(c),
{
    is_ascii_alphanumeric(c) || c == '.' || c == '-' || c == '_'
}

fn is_alias_char(c: char) -> (b: bool)
    ensures
        b == alias_char(c),
{
    is_ascii_uppercase(c) || is_ascii_digit(c) || c == '_'
}

fn is_command_escaped(c: char) -> (b: bool)
    ensures
        b == command_escaped(c),
{
    c == '\\' || c == ',' || c == ':' || c == '=' || c == '#' || c == ' '
}

fn is_command_char(c: char) -> (b: bool)
    ensures
        b == command_char(c),
{
    (!is_command_escaped(c) && !is_control(c)) || c == '='
}

fn escaped(k: TokenKind, c: char) -> (b: bool)
    ensures
        b == kind_escaped(k, c),
{
    match k {
        TokenKind::Username | TokenKind::MetaUsername => c == '\\' || c == '"' || c == ',' || c
            == ':' || c == '=' || c == '!' || c == '(' || c == ')' || c == ' ',
        TokenKind::Command | TokenKind::SimpleCommand | TokenKind::MetaCommand
        | TokenKind::MetaSimpleCommand => is_command_escaped(c),
        TokenKind::EnvVar => c == '\\' || c == '=' || c == '#' || c == '"' || c == ',',
        TokenKind::QuotedStringParameter => c == '\\' || c == '"' || is_control(c),
        TokenKind::QuotedIncludePath => c == '"' || is_control(c),
        TokenKind::IncludePath | TokenKind::ChDir => c == '\\' || c == '"' || c == ' ',
        TokenKind::StringParameter => c == '\\' || c == '"' || c == ' ' || c == '#' || c == ',',
        _ => false,
    }
}

fn allow_escape(k: TokenKind) -> (b: bool)
    ensures
        b == kind_allow_escape(k),
{
    match k {
        TokenKind::Digits | TokenKind::Numeric | TokenKind::Hostname | TokenKind::AliasName
        | TokenKind::DefaultName | TokenKind::UnquotedUsername | TokenKind::MetaHostname => false,
        _ => true,
    }
}

fn accept(k: TokenKind, c: char) -> (b: bool)
    ensures
        b == kind_accept(k, c),
{
    match k {
        TokenKind::Username => is_username_char(c),
        TokenKind::Digits => is_ascii_digit(c),
        TokenKind::Numeric => is_ascii_hexdigit(c) || c == '.',
        TokenKind::Hostname => is_hostname_char(c),
        TokenKind::AliasName => is_alias_char(c),
        TokenKind::Command => is_command_char(c) || c == ' ',
        TokenKind::SimpleCommand => is_command_char(c),
        TokenKind::DefaultName => is_ascii_alphanumeric(c) || c == '_',
        TokenKind::EnvVar => !is_control(c) && !is_whitespace(c) && !escaped(k, c),
        TokenKind::QuotedStringParameter | TokenKind::QuotedIncludePath => !escaped(k, c),
        TokenKind::IncludePath | TokenKind::StringParameter | TokenKind::ChDir => !is_control(c)
            && !escaped(k, c),
        TokenKind::UnquotedUsername => c != '"' && !is_control(c),
        TokenKind::MetaUsername => is_username_char(c) || is_uppercase(c),
        TokenKind::MetaHostname => is_hostname_char(c) || is_uppercase(c),
        TokenKind::MetaCommand => is_command_char(c) || c == ' ' || is_uppercase(c),
        TokenKind::MetaSimpleCommand => is_command_char(c) || is_uppercase(c),
    }
}

fn accept_1st(k: TokenKind, c: char) -> (b: bool)
    ensures
        b == kind_accept_1st(k, c),
{
    match k {
        TokenKind::Username => c != '@' && is_username_char(c),
        TokenKind::AliasName => is_ascii_uppercase(c),
        TokenKind::Command | TokenKind::SimpleCommand => c == '/' || c == 's' || c == 'l',
        TokenKind::ChDir => c == '~' || c == '/' || c == '*',
        TokenKind::MetaUsername => (c != '@' && is_username_char(c)) || is_uppercase(c),
        TokenKind::MetaCommand | TokenKind::MetaSimpleCommand => c == '/' || c == 's' || c == 'l'
            || is_uppercase(c),
        _ => accept(k, c),
    }
}

fn max_len(k: TokenKind) -> (n: usize)
    ensures
        n == kind_max_len(k),
{
    match k {
        TokenKind::Digits => 9,
        TokenKind::Numeric => 18,
        TokenKind::Command | TokenKind::SimpleCommand | TokenKind::QuotedStringParameter
        | TokenKind::QuotedIncludePath | TokenKind::IncludePath | TokenKind::StringParameter
        | TokenKind::ChDir | TokenKind::UnquotedUsername | TokenKind::MetaCommand
        | TokenKind::MetaSimpleCommand => 1024,
        _ => 255,
    }
}

/// Read one character of a token: the first one when `first`.
fn read_step(k: TokenKind, first: bool, stream: &mut CharStream) -> (r: Parsed<char>)
    requires
        old(stream).wf(),
    ensures
        final(stream).wf(),
        match token_step(
            if first {
                class_of(k).accept_1st
            } else {
                class_of(k).accept
            },
            class_of(k),
            old(stream).rest(),
        ) {
            Step::Char(c, n) => r == Ok::<char, Status>(c) && n <= old(stream).rest().len()
                && final(stream).rest() == old(stream).rest().skip(n as int),
            Step::Reject => r == Err::<char, Status>(Status::Reject) && *final(stream) == *old(stream),
            Step::Fatal => r is Err && r != Err::<char, Status>(Status::Reject) && is_suffix(
                final(stream).rest(),
                old(stream).rest(),
            ),
        },
{
    let ghost s = stream.rest();
    match stream.peek() {
        Some(c) => {
            let ok = if first {
                accept_1st(k, c)
            } else {
                accept(k, c)
            };
            if ok {
                stream.bump();
                assert(s.skip(1) =~= s.drop_first());
                Ok(c)
            } else if allow_escape(k) && c == '\\' {
                stream.bump();
                match stream.peek() {
                    Some(d) => {
                        if escaped(k, d) {
                            stream.bump();
                            assert(s.skip(2) =~= s.drop_first().drop_first());
                            Ok(d)
                        } else {
                            proof {
                                lemma_suffix_drop(s, 1);
                                assert(s.skip(1) =~= s.drop_first());
                            }
                            Err(fatal(stream, owned("tried to escape an invalid character")))
                        }
                    },
                    None => {
                        proof {
                            lemma_suffix_drop(s, 1);
                            assert(s.skip(1) =~= s.drop_first());
                        }
                        Err(fatal(stream, owned("tried to escape an invalid character")))
                    },
                }
            } else {
                Err(Status::Reject)
            }
        },
        None => Err(Status::Reject),
    }
}

/// Read the text of a token of kind `k` (escapes removed), without the whitespace after it.
pub fn read_token(k: TokenKind, stream: &mut CharStream) -> (r: Parsed<String>)
    requires
        old(stream).wf(),
    ensures
        final(stream).wf(),
        is_suffix(final(stream).rest(), old(stream).rest()),
        match scan_token(class_of(k), old(stream).rest()) {
            Scan::Token(t, n) => r matches Ok(s) && s@ == t && n <= old(stream).rest().len()
                && final(stream).rest() == old(stream).rest().skip(n as int),
            Scan::Reject => r == Err::<String, Status>(Status::Reject) && *final(stream) == *old(stream),
            Scan::Fatal => r is Err && r != Err::<String, Status>(Status::Reject),
        },
{
    let ghost s0 = stream.rest();
    let c = match read_step(k, true, stream) {
        Ok(c) => c,
        Err(e) => {
            proof {
                super::basic_parser::lemma_suffix_refl(s0);
            }
            return Err(e);
        },
    };
    let mut text = String::new();
    push_char(&mut text, c);
    let mut count: usize = 1;
    let ghost mut read: nat = (s0.len() - stream.rest().len()) as nat;
    let limit = max_len(k);
    proof {
        assert(text@ =~= seq![c]);
        lemma_suffix_drop(s0, read as int);
    }
    loop
        invariant
            stream.wf(),
            s0 == old(stream).rest(),
            count == text@.len(),
            count <= limit,
            limit == kind_max_len(k),
            read == s0.len() - stream.rest().len(),
            is_suffix(stream.rest(), s0),
            stream.rest() == s0.skip(read as int),
            scan_token(class_of(k), s0) == scan_more(class_of(k), stream.rest(), text@, read),
        decreases stream.rest().len(),
    {
        let ghost before = stream.rest();
        match read_step(k, false, stream) {
            Ok(c) => {
                if count + 1 > limit {
                    proof {
                        lemma_suffix_trans(stream.rest(), before, s0);
                    }
                    return Err(fatal(stream, owned("token exceeds maximum length")));
                }
                push_char(&mut text, c);
                count = count + 1;
                proof {
                    let n = (before.len() - stream.rest().len()) as nat;
                    read = read + n;
                    assert(s0.skip(read as int) =~= before.skip(n as int));
                    lemma_suffix_drop(s0, read as int);
                }
            },
            Err(Status::Reject) => {
                return Ok(text);
            },
            Err(e) => {
                proof {
                    lemma_suffix_trans(stream.rest(), before, s0);
                }
                return Err(e);
            },
        }
    }
}


// ---------------------------------------------------------------------------------------------
// Token values
// ---------------------------------------------------------------------------------------------

/// `ALL`, an alias, or one item.
#[derive(Debug, PartialEq, Eq)]
pub enum Meta<T> {
    All,
    Only(T),
    Alias(String),
}

#[derive(Debug, PartialEq, Eq)]
pub struct Username(pub String);

pub struct Digits(pub u32);

pub struct Numeric(pub String);

#[derive(Debug, PartialEq, Eq)]
pub struct Hostname(pub String);

pub struct AliasName(pub String);

pub struct DefaultName(pub String);

pub struct EnvVar(pub String);

pub struct QuotedStringParameter(pub String);

pub struct QuotedIncludePath(pub String);

pub struct IncludePath(pub String);

pub struct StringParameter(pub String);

/// A user name that stood between double quotes, with the characters that a user name must
/// escape escaped again.
pub struct Unquoted(pub String);

/// A working directory: a path, or `*` for any.
#[derive(Clone, Debug, PartialEq, Eq)]
pub enum ChDir {
    Path(String),
    Any,
}

/// The kind of the ChDir value with this text.
pub enum ChDirModel {
    Path(Seq<char>),
    Any,
}

impl ChDir {
    pub open spec fn model(&self) -> ChDirModel {
        match self {
            ChDir::Path(p) => ChDirModel::Path(p@),
            ChDir::Any => ChDirModel::Any,
        }
    }
}

// ---------------------------------------------------------------------------------------------
// Shell patterns
// ---------------------------------------------------------------------------------------------

#[verifier::external_type_specification]
#[verifier::external_body]
pub struct ExPattern(glob::Pattern);

/// What `glob::Pattern::new` reports for a malformed pattern (as its error displays), or
/// `None` when the pattern is well formed.
pub uninterp spec fn glob_pattern_error(source: Seq<char>) -> Option<Seq<char>>;

/// Calls `glob::Pattern::new`, which compiles a shell pattern; its contract says that it
/// succeeds exactly when the pattern is well formed and otherwise gives the error's text, both
/// through the name `glob_pattern_error`.
#[verifier::external_body]
fn compile_glob(source: &str) -> (r: Result<glob::Pattern, String>)
    ensures
        match glob_pattern_error(source@) {
            None => r is Ok,
            Some(m) => r matches Err(x) && x@ == m,
        },
{
    match glob::Pattern::new(source) {
        Ok(p) => Ok(p),
        Err(e) => Err(format!("{e}")),
    }
}

/// A command path as a shell pattern, with the text it was compiled from.
pub struct SimpleCommand {
    text: String,
    pattern: glob::Pattern,
}

impl SimpleCommand {
    pub closed spec fn source(&self) -> Seq<char> {
        self.text@
    }

    /// The pattern's text.
    pub fn as_str(&self) -> (s: &str)
        ensures
            s@ == self.source(),
    {
        self.text.as_str()
    }

    pub fn pattern(&self) -> &glob::Pattern {
        &self.pattern
    }
}

/// A command with the arguments it must be given (`None`: any arguments).
pub type Command = (SimpleCommand, Option<Vec<String>>);

// ---------------------------------------------------------------------------------------------
// Constructing values from the text of a token
// ---------------------------------------------------------------------------------------------

pub open spec fn contains_char(s: Seq<char>, c: char) -> bool {
    exists|i: int| 0 <= i < s.len() && s[i] == c
}

/// A `$` may only end a user name.
pub open spec fn username_check(t: Seq<char>) -> Result<(), Seq<char>> {
    let core = if t.len() > 0 && t.last() == '$' {
        t.drop_last()
    } else {
        t
    };
    if contains_char(core, '$') {
        Err("embedded $ in username"@)
    } else {
        Ok(())
    }
}

/// The number that decimal digits denote.
pub open spec fn decimal_value(s: Seq<char>) -> nat
    decreases s.len(),
{
    if s.len() == 0 {
        0
    } else {
        decimal_value(s.drop_last()) * 10 + (s.last() as nat - '0' as nat) as nat
    }
}

/// The text of the shell pattern for a command path, or why it is not one: `list` and
/// `sudoedit` stand for themselves, other commands need an absolute path, and a trailing
/// slash allows every command in the directory.
pub open spec fn command_pattern_text(cmd: Seq<char>) -> Result<Seq<char>, Seq<char>> {
    if cmd == "list"@ || cmd == "sudoedit"@ {
        Ok(cmd)
    } else if cmd.len() >= 3 && cmd.take(3) == "sha"@ {
        Err("digest specifications are not supported"@)
    } else if cmd.len() >= 1 && cmd[0] == '^' {
        Err("regular expressions are not supported"@)
    } else if !(cmd.len() >= 1 && cmd[0] == '/') {
        Err("fully qualified path needed"@)
    } else if cmd.last() == '/' {
        Ok(cmd.drop_last() + "/*"@)
    } else {
        Ok(cmd)
    }
}

/// The source text of the pattern that a command path compiles to, or the error.
pub open spec fn simple_command_check(cmd: Seq<char>) -> Result<Seq<char>, Seq<char>> {
    match command_pattern_text(cmd) {
        Ok(src) => match glob_pattern_error(src) {
            None => Ok(src),
            Some(m) => Err("wildcard pattern error "@ + m),
        },
        Err(e) => Err(e),
    }
}

/// The words of `s`: the maximal runs of characters that are not whitespace (as
/// `str::split_whitespace`).
pub open spec fn words(s: Seq<char>) -> Seq<Seq<char>>
    decreases s.len(),
{
    if s.len() == 0 {
        Seq::empty()
    } else if char_is_whitespace(s[0]) {
        words(s.drop_first())
    } else {
        let w = word_len(s);
        proof {
            lemma_word_len(s);
        }
        seq![s.take(w)] + words(s.skip(w))
    }
}

/// The number of characters before the first whitespace.
pub open spec fn word_len(s: Seq<char>) -> int
    decreases s.len(),
{
    if s.len() > 0 && !char_is_whitespace(s[0]) {
        1 + word_len(s.drop_first())
    } else {
        0
    }
}

pub proof fn lemma_word_len(s: Seq<char>)
    ensures
        0 <= word_len(s) <= s.len(),
        s.len() > 0 && !char_is_whitespace(s[0]) ==> word_len(s) >= 1,
        forall|i: int| 0 <= i < word_len(s) ==> !char_is_whitespace(#[trigger] s[i]),
        word_len(s) < s.len() ==> char_is_whitespace(s[word_len(s)]),
    decreases s.len(),
{
    if s.len() > 0 && !char_is_whitespace(s[0]) {
        lemma_word_len(s.drop_first());
        assert forall|i: int| 0 <= i < word_len(s) implies !char_is_whitespace(#[trigger] s[i]) by {
            if i > 0 {
                assert(s[i] == s.drop_first()[i - 1]);
            }
        }
    }
}

/// The arguments that a command's text requires: none given allows any arguments; a single
/// `""` at the end requires no further arguments.
pub open spec fn command_args(args: Seq<Seq<char>>) -> Result<Option<Seq<Seq<char>>>, Seq<char>> {
    if args.len() == 0 {
        Ok(None)
    } else if args[0].len() >= 1 && args[0][0] == '^' {
        Err("regular expressions are not supported"@)
    } else if args.last() == "\"\""@ {
        Ok(Some(args.drop_last()))
    } else {
        Ok(Some(args))
    }
}

/// A command with arguments: the pattern's text and the required arguments, or the error.
pub open spec fn command_check(t: Seq<char>) -> Result<(Seq<char>, Option<Seq<Seq<char>>>), Seq<
    char,
>> {
    let ws = words(t);
    if ws.len() == 0 {
        Err("fully qualified path needed"@)
    } else {
        match simple_command_check(ws[0]) {
            Err(e) => Err(e),
            Ok(src) => match command_args(ws.drop_first()) {
                Err(e) => Err(e),
                Ok(args) => if src == "list"@ && args is Some {
                    Err("list does not take arguments"@)
                } else {
                    Ok((src, args))
                },
            },
        }
    }
}

/// `*` is any directory; another path may not hold a `*`.
pub open spec fn chdir_check(t: Seq<char>) -> Result<ChDirModel, Seq<char>> {
    if t == "*"@ {
        Ok(ChDirModel::Any)
    } else if contains_char(t, '*') {
        Err("path cannot contain '*'"@)
    } else {
        Ok(ChDirModel::Path(t))
    }
}

/// The text with a backslash before every character that a user name must escape.
pub open spec fn requote(t: Seq<char>) -> Seq<char>
    decreases t.len(),
{
    if t.len() == 0 {
        Seq::empty()
    } else {
        let c = t.last();
        requote(t.drop_last()) + if kind_escaped(TokenKind::Username, c) {
            seq!['\\', c]
        } else {
            seq![c]
        }
    }
}

/// `ALL`, an upper case alias name, or something else (the text without trailing whitespace
/// decides).
pub enum MetaKind {
    All,
    Alias(Seq<char>),
    Only,
}

pub open spec fn meta_kind(raw: Seq<char>) -> MetaKind {
    let cooked = crate::text::trim_end(raw);
    if cooked == "ALL"@ {
        MetaKind::All
    } else if cooked.len() >= 1 && ascii_upper(cooked[0]) && forall|i: int|
        1 <= i < cooked.len() ==> alias_char(#[trigger] cooked[i]) {
        MetaKind::Alias(cooked)
    } else {
        MetaKind::Only
    }
}

fn contains(v: &[char], c: char) -> (b: bool)
    ensures
        b == contains_char(v@, c),
{
    let mut i: usize = 0;
    while i < v.len()
        invariant
            i <= v.len(),
            forall|j: int| 0 <= j < i ==> v@[j] != c,
        decreases v.len() - i,
    {
        if v[i] == c {
            return true;
        }
        i += 1;
    }
    false
}

/// Check where a `$` stands in a user name.
pub fn check_username(t: &String) -> (r: Result<(), String>)
    ensures
        match username_check(t@) {
            Ok(_) => r is Ok,
            Err(e) => r matches Err(x) && x@ == e,
        },
{
    let v = chars_of(t.as_str());
    let core = if v.len() > 0 && v[v.len() - 1] == '$' {
        vstd::slice::slice_subrange(v.as_slice(), 0, v.len() - 1)
    } else {
        v.as_slice()
    };
    proof {
        if v@.len() > 0 && v@.last() == '$' {
            assert(core@ =~= v@.drop_last());
        }
    }
    if contains(core, '$') {
        Err(owned("embedded $ in username"))
    } else {
        Ok(())
    }
}

/// The number that up to nine decimal digits denote.
pub fn digits_value(t: &String) -> (n: u32)
    requires
        t@.len() <= 9,
        forall|i: int| 0 <= i < t@.len() ==> ascii_digit(#[trigger] t@[i]),
    ensures
        n == decimal_value(t@),
{
    let v = chars_of(t.as_str());
    let mut n: u32 = 0;
    let mut i: usize = 0;
    while i < v.len()
        invariant
            i <= v@.len(),
            v@ == t@,
            v@.len() <= 9,
            forall|j: int| 0 <= j < v@.len() ==> ascii_digit(#[trigger] v@[j]),
            n == decimal_value(v@.take(i as int)),
            n < pow10(i as nat),
        decreases v.len() - i,
    {
        let d = v[i];
        assert(ascii_digit(v@[i as int]));
        proof {
            assert(v@.take(i + 1).drop_last() =~= v@.take(i as int));
            assert(v@.take(i + 1).last() == d);
            lemma_pow10_bound(i as nat);
            assert(pow10((i + 1) as nat) == pow10(i as nat) * 10);
        }
        n = n * 10 + ((d as u32) - ('0' as u32));
        i += 1;
    }
    proof {
        assert(v@.take(v@.len() as int) =~= v@);
    }
    n
}

pub open spec fn pow10(n: nat) -> nat
    decreases n,
{
    if n == 0 {
        1
    } else {
        10 * pow10((n - 1) as nat)
    }
}

proof fn lemma_pow10_mono(n: nat, m: nat)
    requires
        n <= m,
    ensures
        pow10(n) <= pow10(m),
    decreases m,
{
    if n < m {
        lemma_pow10_mono(n, (m - 1) as nat);
    }
}

proof fn lemma_pow10_bound(n: nat)
    requires
        n <= 8,
    ensures
        pow10(n) <= 100_000_000,
{
    lemma_pow10_mono(n, 8);
    assert(pow10(8) == 100_000_000) by {
        reveal_with_fuel(pow10, 9);
    }
}

/// The source text of the pattern for a command path, and the pattern.
pub fn construct_simple_command(cmd: &String) -> (r: Result<SimpleCommand, String>)
    ensures
        match simple_command_check(cmd@) {
            Ok(src) => r matches Ok(c) && c.source() == src,
            Err(e) => r matches Err(x) && x@ == e,
        },
{
    proof {
        reveal_strlit("list");
        reveal_strlit("sudoedit");
        reveal_strlit("sha");
    }
    let v = chars_of(cmd.as_str());
    let text = if chars_eq_str(v.as_slice(), "list") || chars_eq_str(v.as_slice(), "sudoedit") {
        string_from_chars(v.as_slice())
    } else if crate::text::starts_with_str(v.as_slice(), "sha") {
        return Err(owned("digest specifications are not supported"));
    } else if v.len() >= 1 && v[0] == '^' {
        return Err(owned("regular expressions are not supported"));
    } else if !(v.len() >= 1 && v[0] == '/') {
        return Err(owned("fully qualified path needed"));
    } else if v[v.len() - 1] == '/' {
        let mut t = crate::text::string_from_range(v.as_slice(), 0, v.len() - 1);
        t.append("/*");
        proof {
            assert(v@.subrange(0, v@.len() - 1) =~= v@.drop_last());
        }
        t
    } else {
        string_from_chars(v.as_slice())
    };
    assert(command_pattern_text(cmd@) == Ok::<Seq<char>, Seq<char>>(text@));
    match compile_glob(text.as_str()) {
        Ok(pattern) => Ok(SimpleCommand { text, pattern }),
        Err(e) => {
            let mut msg = owned("wildcard pattern error ");
            msg.append(e.as_str());
            Err(msg)
        },
    }
}


pub open spec fn strings_view(v: Seq<String>) -> Seq<Seq<char>> {
    v.map_values(|x: String| x@)
}

/// The words of `v` (as `str::split_whitespace`).
pub fn split_words(v: &[char]) -> (r: Vec<String>)
    ensures
        strings_view(r@) == words(v@),
{
    let mut r: Vec<String> = Vec::new();
    let mut i: usize = 0;
    proof {
        assert(v@.skip(0) =~= v@);
        assert(strings_view(r@) + words(v@.skip(0)) =~= words(v@));
    }
    while i < v.len()
        invariant
            i <= v@.len(),
            strings_view(r@) + words(v@.skip(i as int)) == words(v@),
        decreases v.len() - i,
    {
        let ghost tail = v@.skip(i as int);
        if is_whitespace(v[i]) {
            proof {
                assert(tail.drop_first() =~= v@.skip(i + 1));
            }
            i += 1;
        } else {
            let start = i;
            while i < v.len() && !is_whitespace(v[i])
                invariant
                    start <= i <= v@.len(),
                    word_len(v@.skip(start as int)) == (i - start) + word_len(v@.skip(i as int)),
                decreases v.len() - i,
            {
                proof {
                    assert(v@.skip(i as int).drop_first() =~= v@.skip(i + 1));
                }
                i += 1;
            }
            proof {
                lemma_word_len(tail);
                assert(word_len(v@.skip(i as int)) == 0);
            }
            let w = crate::text::string_from_range(v, start, i);
            let ghost before = r@;
            r.push(w);
            proof {
                let n = i - start;
                assert(tail.take(n) =~= v@.subrange(start as int, i as int));
                assert(tail.skip(n) =~= v@.skip(i as int));
                assert(strings_view(r@) =~= strings_view(before).push(w@));
                assert(words(tail) == seq![tail.take(n)] + words(tail.skip(n)));
                assert(strings_view(before) + words(tail) =~= strings_view(r@) + words(
                    v@.skip(i as int),
                ));
            }
        }
    }
    proof {
        assert(words(v@.skip(v@.len() as int)) == Seq::<Seq<char>>::empty());
        assert(strings_view(r@) + Seq::<Seq<char>>::empty() =~= strings_view(r@));
    }
    r
}

/// A command with arguments.
pub fn construct_command(t: &String) -> (r: Result<Command, String>)
    ensures
        match command_check(t@) {
            Ok((src, args)) => r matches Ok(c) && c.0.source() == src && match args {
                None => c.1 is None,
                Some(a) => c.1 matches Some(v) && strings_view(v@) == a,
            },
            Err(e) => r matches Err(x) && x@ == e,
        },
{
    proof {
        reveal_strlit("list");
        reveal_strlit("\"\"");
    }
    let v = chars_of(t.as_str());
    let mut ws = split_words(v.as_slice());
    if ws.len() == 0 {
        return Err(owned("fully qualified path needed"));
    }
    let ghost wv = strings_view(ws@);
    let first = ws.remove(0);
    proof {
        assert(strings_view(ws@) =~= wv.drop_first());
    }
    let command = match construct_simple_command(&first) {
        Ok(c) => c,
        Err(e) => {
            return Err(e);
        },
    };
    let args = if ws.len() == 0 {
        None
    } else {
        let a0 = chars_of(ws[0].as_str());
        if a0.len() >= 1 && a0[0] == '^' {
            return Err(owned("regular expressions are not supported"));
        }
        let last = chars_of(ws[ws.len() - 1].as_str());
        if chars_eq_str(last.as_slice(), "\"\"") {
            let ghost before = strings_view(ws@);
            ws.pop();
            proof {
                assert(strings_view(ws@) =~= before.drop_last());
            }
        }
        Some(ws)
    };
    let src = chars_of(command.as_str());
    if chars_eq_str(src.as_slice(), "list") && args.is_some() {
        return Err(owned("list does not take arguments"));
    }
    Ok((command, args))
}

/// A working directory.
pub fn construct_chdir(t: &String) -> (r: Result<ChDir, String>)
    ensures
        match chdir_check(t@) {
            Ok(m) => r matches Ok(c) && c.model() == m,
            Err(e) => r matches Err(x) && x@ == e,
        },
{
    let v = chars_of(t.as_str());
    if chars_eq_str(v.as_slice(), "*") {
        Ok(ChDir::Any)
    } else if contains(v.as_slice(), '*') {
        Err(owned("path cannot contain '*'"))
    } else {
        Ok(ChDir::Path(string_from_chars(v.as_slice())))
    }
}

/// Escape again the characters that a user name must escape.
pub fn construct_unquoted(t: &String) -> (r: Unquoted)
    ensures
        r.0@ == requote(t@),
{
    let v = chars_of(t.as_str());
    let mut quoted = String::new();
    let mut i: usize = 0;
    while i < v.len()
        invariant
            i <= v@.len(),
            quoted@ == requote(v@.take(i as int)),
        decreases v.len() - i,
    {
        let ch = v[i];
        let ghost before = quoted@;
        if escaped(TokenKind::Username, ch) {
            push_char(&mut quoted, '\\');
        }
        push_char(&mut quoted, ch);
        proof {
            assert(v@.take(i + 1).drop_last() =~= v@.take(i as int));
            if kind_escaped(TokenKind::Username, ch) {
                assert(quoted@ =~= before + seq!['\\', ch]);
            } else {
                assert(quoted@ =~= before + seq![ch]);
            }
        }
        i += 1;
    }
    proof {
        assert(v@.take(v@.len() as int) =~= v@);
    }
    Unquoted(quoted)
}

/// Whether the text of a token is `ALL`, an alias name, or neither.
fn classify_meta(raw: &String) -> (r: (u8, String))
    ensures
        match meta_kind(raw@) {
            MetaKind::All => r.0 == 0,
            MetaKind::Alias(a) => r.0 == 1 && r.1@ == a,
            MetaKind::Only => r.0 == 2,
        },
{
    proof {
        reveal_strlit("ALL");
    }
    let v = chars_of(raw.as_str());
    let mut hi = v.len();
    proof {
        assert(v@.take(hi as int) =~= v@);
    }
    while hi > 0 && is_whitespace(v[hi - 1])
        invariant
            hi <= v@.len(),
            crate::text::trim_end(v@) == crate::text::trim_end(v@.take(hi as int)),
        decreases hi,
    {
        proof {
            assert(v@.take(hi as int).drop_last() =~= v@.take(hi - 1));
        }
        hi -= 1;
    }
    let cooked = vstd::slice::slice_subrange(v.as_slice(), 0, hi);
    proof {
        assert(cooked@ =~= v@.take(hi as int));
        assert(crate::text::trim_end(cooked@) == cooked@);
    }
    if chars_eq_str(cooked, "ALL") {
        return (0, String::new());
    }
    assert(crate::text::trim_end(raw@) == cooked@);
    if cooked.len() >= 1 && is_ascii_uppercase(cooked[0]) {
        let mut i: usize = 1;
        while i < cooked.len()
            invariant
                1 <= i <= cooked@.len(),
                crate::text::trim_end(raw@) == cooked@,
                cooked@ != "ALL"@,
                ascii_upper(cooked@[0]),
                forall|j: int| 1 <= j < i ==> alias_char(#[trigger] cooked@[j]),
            decreases cooked.len() - i,
        {
            if !is_alias_char(cooked[i]) {
                assert(!alias_char(cooked@[i as int]));
                return (2, String::new());
            }
            i += 1;
        }
        return (1, string_from_chars(cooked));
    }
    (2, String::new())
}


// ---------------------------------------------------------------------------------------------
// Parsing tokens
// ---------------------------------------------------------------------------------------------

/// Read the text of a token, and where it starts.
pub fn lex(k: TokenKind, stream: &mut CharStream) -> (r: Parsed<(String, (usize, usize))>)
    requires
        old(stream).wf(),
    ensures
        final(stream).wf(),
        is_suffix(final(stream).rest(), old(stream).rest()),
        match scan_token(class_of(k), old(stream).rest()) {
            Scan::Token(t, n) => r matches Ok((x, p)) && x@ == t && p == old(stream).pos() && n
                <= old(stream).rest().len() && final(stream).rest() == old(stream).rest().skip(
                n as int,
            ),
            Scan::Reject => r == Err::<(String, (usize, usize)), Status>(Status::Reject)
                && *final(stream) == *old(stream),
            Scan::Fatal => r is Err && r != Err::<(String, (usize, usize)), Status>(
                Status::Reject,
            ),
        },
{
    let start = stream.get_pos();
    match read_token(k, stream) {
        Ok(t) => Ok((t, start)),
        Err(e) => Err(e),
    }
}

/// Skip the whitespace after an item, and give the item.
pub fn finish<T>(v: T, stream: &mut CharStream) -> (r: Parsed<T>)
    requires
        old(stream).wf(),
    ensures
        final(stream).wf(),
        is_suffix(final(stream).rest(), old(stream).rest()),
        match after_ws(old(stream).rest()) {
            Some(t) => r == Ok::<T, Status>(v) && final(stream).rest() == t,
            None => r is Err && r != Err::<T, Status>(Status::Reject),
        },
{
    match skip_trailing_whitespace(stream) {
        Ok(()) => Ok(v),
        Err(e) => Err(e),
    }
}

/// Parse a token of kind `Numeric`, and the whitespace after it.
pub fn parse_numeric(stream: &mut CharStream) -> (r: Parsed<Numeric>)
    requires
        old(stream).wf(),
    ensures
        final(stream).wf(),
        is_suffix(final(stream).rest(), old(stream).rest()),
        match scan_token(class_of(TokenKind::Numeric), old(stream).rest()) {
            Scan::Token(t, n) => match after_ws(old(stream).rest().skip(n as int)) {
                Some(rest) => r matches Ok(x) && x.0@ == t && final(stream).rest() == rest,
                None => r is Err && r != Err::<Numeric, Status>(Status::Reject),
            },
            Scan::Reject => r == Err::<Numeric, Status>(Status::Reject) && *final(stream) == *old(stream),
            Scan::Fatal => r is Err && r != Err::<Numeric, Status>(Status::Reject),
        },
{
    let ghost s0 = stream.rest();
    match lex(TokenKind::Numeric, stream) {
        Ok((text, _)) => {
            let ghost s1 = stream.rest();
            let r = finish(Numeric(text), stream);
            proof {
                lemma_suffix_trans(stream.rest(), s1, s0);
            }
            r
        },
        Err(e) => Err(e),
    }
}

/// Parse a token of kind `Hostname`, and the whitespace after it.
pub fn parse_hostname(stream: &mut CharStream) -> (r: Parsed<Hostname>)
    requires
        old(stream).wf(),
    ensures
        final(stream).wf(),
        is_suffix(final(stream).rest(), old(stream).rest()),
        match scan_token(class_of(TokenKind::Hostname), old(stream).rest()) {
            Scan::Token(t, n) => match after_ws(old(stream).rest().skip(n as int)) {
                Some(rest) => r matches Ok(x) && x.0@ == t && final(stream).rest() == rest,
                None => r is Err && r != Err::<Hostname, Status>(Status::Reject),
            },
            Scan::Reject => r == Err::<Hostname, Status>(Status::Reject) && *final(stream) == *old(stream),
            Scan::Fatal => r is Err && r != Err::<Hostname, Status>(Status::Reject),
        },
{
    let ghost s0 = stream.rest();
    match lex(TokenKind::Hostname, stream) {
        Ok((text, _)) => {
            let ghost s1 = stream.rest();
            let r = finish(Hostname(text), stream);
            proof {
                lemma_suffix_trans(stream.rest(), s1, s0);
            }
            r
        },
        Err(e) => Err(e),
    }
}

/// Parse a token of kind `AliasName`, and the whitespace after it.
pub fn parse_alias_name(stream: &mut CharStream) -> (r: Parsed<AliasName>)
    requires
        old(stream).wf(),
    ensures
        final(stream).wf(),
        is_suffix(final(stream).rest(), old(stream).rest()),
        match scan_token(class_of(TokenKind::AliasName), old(stream).rest()) {
            Scan::Token(t, n) => match after_ws(old(stream).rest().skip(n as int)) {
                Some(rest) => r matches Ok(x) && x.0@ == t && final(stream).rest() == rest,
                None => r is Err && r != Err::<AliasName, Status>(Status::Reject),
            },
            Scan::Reject => r == Err::<AliasName, Status>(Status::Reject) && *final(stream) == *old(stream),
            Scan::Fatal => r is Err && r != Err::<AliasName, Status>(Status::Reject),
        },
{
    let ghost s0 = stream.rest();
    match lex(TokenKind::AliasName, stream) {
        Ok((text, _)) => {
            let ghost s1 = stream.rest();
            let r = finish(AliasName(text), stream);
            proof {
                lemma_suffix_trans(stream.rest(), s1, s0);
            }
            r
        },
        Err(e) => Err(e),
    }
}

/// Parse a token of kind `DefaultName`, and the whitespace after it.
pub fn parse_default_name(stream: &mut CharStream) -> (r: Parsed<DefaultName>)
    requires
        old(stream).wf(),
    ensures
        final(stream).wf(),
        is_suffix(final(stream).rest(), old(stream).rest()),
        match scan_token(class_of(TokenKind::DefaultName), old(stream).rest()) {
            Scan::Token(t, n) => match after_ws(old(stream).rest().skip(n as int)) {
                Some(rest) => r matches Ok(x) && x.0@ == t && final(stream).rest() == rest,
                None => r is Err && r != Err::<DefaultName, Status>(Status::Reject),
            },
            Scan::Reject => r == Err::<DefaultName, Status>(Status::Reject) && *final(stream) == *old(stream),
            Scan::Fatal => r is Err && r != Err::<DefaultName, Status>(Status::Reject),
        },
{
    let ghost s0 = stream.rest();
    match lex(TokenKind::DefaultName, stream) {
        Ok((text, _)) => {
            let ghost s1 = stream.rest();
            let r = finish(DefaultName(text), stream);
            proof {
                lemma_suffix_trans(stream.rest(), s1, s0);
            }
            r
        },
        Err(e) => Err(e),
    }
}

/// Parse a token of kind `EnvVar`, and the whitespace after it.
pub fn parse_env_var(stream: &mut CharStream) -> (r: Parsed<EnvVar>)
    requires
        old(stream).wf(),
    ensures
        final(stream).wf(),
        is_suffix(final(stream).rest(), old(stream).rest()),
        match scan_token(class_of(TokenKind::EnvVar), old(stream).rest()) {
            Scan::Token(t, n) => match after_ws(old(stream).rest().skip(n as int)) {
                Some(rest) => r matches Ok(x) && x.0@ == t && final(stream).rest() == rest,
                None => r is Err && r != Err::<EnvVar, Status>(Status::Reject),
            },
            Scan::Reject => r == Err::<EnvVar, Status>(Status::Reject) && *final(stream) == *old(stream),
            Scan::Fatal => r is Err && r != Err::<EnvVar, Status>(Status::Reject),
        },
{
    let ghost s0 = stream.rest();
    match lex(TokenKind::EnvVar, stream) {
        Ok((text, _)) => {
            let ghost s1 = stream.rest();
            let r = finish(EnvVar(text), stream);
            proof {
                lemma_suffix_trans(stream.rest(), s1, s0);
            }
            r
        },
        Err(e) => Err(e),
    }
}

/// Parse a token of kind `QuotedStringParameter`, and the whitespace after it.
pub fn parse_quoted_string_parameter(stream: &mut CharStream) -> (r: Parsed<QuotedStringParameter>)
    requires
        old(stream).wf(),
    ensures
        final(stream).wf(),
        is_suffix(final(stream).rest(), old(stream).rest()),
        match scan_token(class_of(TokenKind::QuotedStringParameter), old(stream).rest()) {
            Scan::Token(t, n) => match after_ws(old(stream).rest().skip(n as int)) {
                Some(rest) => r matches Ok(x) && x.0@ == t && final(stream).rest() == rest,
                None => r is Err && r != Err::<QuotedStringParameter, Status>(Status::Reject),
            },
            Scan::Reject => r == Err::<QuotedStringParameter, Status>(Status::Reject) && *final(stream) == *old(stream),
            Scan::Fatal => r is Err && r != Err::<QuotedStringParameter, Status>(Status::Reject),
        },
{
    let ghost s0 = stream.rest();
    match lex(TokenKind::QuotedStringParameter, stream) {
        Ok((text, _)) => {
            let ghost s1 = stream.rest();
            let r = finish(QuotedStringParameter(text), stream);
            proof {
                lemma_suffix_trans(stream.rest(), s1, s0);
            }
            r
        },
        Err(e) => Err(e),
    }
}

/// Parse a token of kind `QuotedIncludePath`, and the whitespace after it.
pub fn parse_quoted_include_path(stream: &mut CharStream) -> (r: Parsed<QuotedIncludePath>)
    requires
        old(stream).wf(),
    ensures
        final(stream).wf(),
        is_suffix(final(stream).rest(), old(stream).rest()),
        match scan_token(class_of(TokenKind::QuotedIncludePath), old(stream).rest()) {
            Scan::Token(t, n) => match after_ws(old(stream).rest().skip(n as int)) {
                Some(rest) => r matches Ok(x) && x.0@ == t && final(stream).rest() == rest,
                None => r is Err && r != Err::<QuotedIncludePath, Status>(Status::Reject),
            },
            Scan::Reject => r == Err::<QuotedIncludePath, Status>(Status::Reject) && *final(stream) == *old(stream),
            Scan::Fatal => r is Err && r != Err::<QuotedIncludePath, Status>(Status::Reject),
        },
{
    let ghost s0 = stream.rest();
    match lex(TokenKind::QuotedIncludePath, stream) {
        Ok((text, _)) => {
            let ghost s1 = stream.rest();
            let r = finish(QuotedIncludePath(text), stream);
            proof {
                lemma_suffix_trans(stream.rest(), s1, s0);
            }
            r
        },
        Err(e) => Err(e),
    }
}

/// Parse a token of kind `IncludePath`, and the whitespace after it.
pub fn parse_include_path(stream: &mut CharStream) -> (r: Parsed<IncludePath>)
    requires
        old(stream).wf(),
    ensures
        final(stream).wf(),
        is_suffix(final(stream).rest(), old(stream).rest()),
        match scan_token(class_of(TokenKind::IncludePath), old(stream).rest()) {
            Scan::Token(t, n) => match after_ws(old(stream).rest().skip(n as int)) {
                Some(rest) => r matches Ok(x) && x.0@ == t && final(stream).rest() == rest,
                None => r is Err && r != Err::<IncludePath, Status>(Status::Reject),
            },
            Scan::Reject => r == Err::<IncludePath, Status>(Status::Reject) && *final(stream) == *old(stream),
            Scan::Fatal => r is Err && r != Err::<IncludePath, Status>(Status::Reject),
        },
{
    let ghost s0 = stream.rest();
    match lex(TokenKind::IncludePath, stream) {
        Ok((text, _)) => {
            let ghost s1 = stream.rest();
            let r = finish(IncludePath(text), stream);
            proof {
                lemma_suffix_trans(stream.rest(), s1, s0);
            }
            r
        },
        Err(e) => Err(e),
    }
}

/// Parse a token of kind `StringParameter`, and the whitespace after it.
pub fn parse_string_parameter(stream: &mut CharStream) -> (r: Parsed<StringParameter>)
    requires
        old(stream).wf(),
    ensures
        final(stream).wf(),
        is_suffix(final(stream).rest(), old(stream).rest()),
        match scan_token(class_of(TokenKind::StringParameter), old(stream).rest()) {
            Scan::Token(t, n) => match after_ws(old(stream).rest().skip(n as int)) {
                Some(rest) => r matches Ok(x) && x.0@ == t && final(stream).rest() == rest,
                None => r is Err && r != Err::<StringParameter, Status>(Status::Reject),
            },
            Scan::Reject => r == Err::<StringParameter, Status>(Status::Reject) && *final(stream) == *old(stream),
            Scan::Fatal => r is Err && r != Err::<StringParameter, Status>(Status::Reject),
        },
{
    let ghost s0 = stream.rest();
    match lex(TokenKind::StringParameter, stream) {
        Ok((text, _)) => {
            let ghost s1 = stream.rest();
            let r = finish(StringParameter(text), stream);
            proof {
                lemma_suffix_trans(stream.rest(), s1, s0);
            }
            r
        },
        Err(e) => Err(e),
    }
}

/// Parse a user name, and the whitespace after it.
pub fn parse_username(stream: &mut CharStream) -> (r: Parsed<Username>)
    requires
        old(stream).wf(),
    ensures
        final(stream).wf(),
        is_suffix(final(stream).rest(), old(stream).rest()),
        match scan_token(class_of(TokenKind::Username), old(stream).rest()) {
            Scan::Token(t, n) => match username_check(t) {
                Ok(_) => match after_ws(old(stream).rest().skip(n as int)) {
                    Some(rest) => r matches Ok(x) && x.0@ == t && final(stream).rest() == rest,
                    None => r is Err && r != Err::<Username, Status>(Status::Reject),
                },
                Err(m) => r matches Err(Status::Fatal(_, x)) && x@ == m,
            },
            Scan::Reject => r == Err::<Username, Status>(Status::Reject) && *final(stream) == *old(stream),
            Scan::Fatal => r is Err && r != Err::<Username, Status>(Status::Reject),
        },
{
    let ghost s0 = stream.rest();
    match lex(TokenKind::Username, stream) {
        Ok((text, start)) => {
            let ghost s1 = stream.rest();
            match check_username(&text) {
                Ok(()) => {
                    let r = finish(Username(text), stream);
                    proof {
                        lemma_suffix_trans(stream.rest(), s1, s0);
                    }
                    r
                },
                Err(m) => Err(fatal_at(start, stream, m)),
            }
        },
        Err(e) => Err(e),
    }
}

/// Parse up to nine decimal digits, and the whitespace after them.
pub fn parse_digits(stream: &mut CharStream) -> (r: Parsed<Digits>)
    requires
        old(stream).wf(),
    ensures
        final(stream).wf(),
        is_suffix(final(stream).rest(), old(stream).rest()),
        match scan_token(class_of(TokenKind::Digits), old(stream).rest()) {
            Scan::Token(t, n) => match after_ws(old(stream).rest().skip(n as int)) {
                Some(rest) => r matches Ok(x) && x.0 == decimal_value(t) && final(stream).rest()
                    == rest,
                None => r is Err && r != Err::<Digits, Status>(Status::Reject),
            },
            Scan::Reject => r == Err::<Digits, Status>(Status::Reject) && *final(stream) == *old(stream),
            Scan::Fatal => r is Err && r != Err::<Digits, Status>(Status::Reject),
        },
{
    let ghost s0 = stream.rest();
    match lex(TokenKind::Digits, stream) {
        Ok((text, _)) => {
            let ghost s1 = stream.rest();
            proof {
                lemma_scan_digits(s0);
            }
            let n = digits_value(&text);
            let r = finish(Digits(n), stream);
            proof {
                lemma_suffix_trans(stream.rest(), s1, s0);
            }
            r
        },
        Err(e) => Err(e),
    }
}

/// The text of a token holds only characters that the kind accepts, and is no longer than the
/// kind allows.
pub proof fn lemma_scan_digits(s: Seq<char>)
    ensures
        scan_token(class_of(TokenKind::Digits), s) matches Scan::Token(t, n) ==> t.len() <= 9
            && forall|i: int| 0 <= i < t.len() ==> ascii_digit(#[trigger] t[i]),
{
    let c = class_of(TokenKind::Digits);
    if let Step::Char(ch, n) = token_step(c.accept_1st, c, s) {
        if n <= s.len() {
            lemma_scan_more_digits(s.skip(n as int), seq![ch], n);
        }
    }
}

proof fn lemma_scan_more_digits(s: Seq<char>, text: Seq<char>, read: nat)
    requires
        text.len() <= 9,
        forall|i: int| 0 <= i < text.len() ==> ascii_digit(#[trigger] text[i]),
    ensures
        scan_more(class_of(TokenKind::Digits), s, text, read) matches Scan::Token(t, n) ==> t.len()
            <= 9 && forall|i: int| 0 <= i < t.len() ==> ascii_digit(#[trigger] t[i]),
    decreases s.len(),
{
    let c = class_of(TokenKind::Digits);
    if let Step::Char(ch, n) = token_step(c.accept, c, s) {
        if text.len() + 1 <= 9 && n <= s.len() && n > 0 {
            let t2 = text.push(ch);
            assert forall|i: int| 0 <= i < t2.len() implies ascii_digit(#[trigger] t2[i]) by {
                if i < text.len() {
                    assert(t2[i] == text[i]);
                }
            }
            lemma_scan_more_digits(s.skip(n as int), t2, read + n);
        }
    }
}

/// Parse a working directory, and the whitespace after it.
pub fn parse_chdir(stream: &mut CharStream) -> (r: Parsed<ChDir>)
    requires
        old(stream).wf(),
    ensures
        final(stream).wf(),
        is_suffix(final(stream).rest(), old(stream).rest()),
        match scan_token(class_of(TokenKind::ChDir), old(stream).rest()) {
            Scan::Token(t, n) => match chdir_check(t) {
                Ok(m) => match after_ws(old(stream).rest().skip(n as int)) {
                    Some(rest) => r matches Ok(x) && x.model() == m && final(stream).rest() == rest,
                    None => r is Err && r != Err::<ChDir, Status>(Status::Reject),
                },
                Err(m) => r matches Err(Status::Fatal(_, x)) && x@ == m,
            },
            Scan::Reject => r == Err::<ChDir, Status>(Status::Reject) && *final(stream) == *old(stream),
            Scan::Fatal => r is Err && r != Err::<ChDir, Status>(Status::Reject),
        },
{
    let ghost s0 = stream.rest();
    match lex(TokenKind::ChDir, stream) {
        Ok((text, start)) => {
            let ghost s1 = stream.rest();
            match construct_chdir(&text) {
                Ok(c) => {
                    let r = finish(c, stream);
                    proof {
                        lemma_suffix_trans(stream.rest(), s1, s0);
                    }
                    r
                },
                Err(m) => Err(fatal_at(start, stream, m)),
            }
        },
        Err(e) => Err(e),
    }
}

/// Parse the text of a quoted user name (up to the closing quote), and the whitespace after it.
pub fn parse_unquoted(stream: &mut CharStream) -> (r: Parsed<Unquoted>)
    requires
        old(stream).wf(),
    ensures
        final(stream).wf(),
        is_suffix(final(stream).rest(), old(stream).rest()),
        match scan_token(class_of(TokenKind::UnquotedUsername), old(stream).rest()) {
            Scan::Token(t, n) => match after_ws(old(stream).rest().skip(n as int)) {
                Some(rest) => r matches Ok(x) && x.0@ == requote(t) && final(stream).rest() == rest,
                None => r is Err && r != Err::<Unquoted, Status>(Status::Reject),
            },
            Scan::Reject => r == Err::<Unquoted, Status>(Status::Reject) && *final(stream) == *old(stream),
            Scan::Fatal => r is Err && r != Err::<Unquoted, Status>(Status::Reject),
        },
{
    let ghost s0 = stream.rest();
    match lex(TokenKind::UnquotedUsername, stream) {
        Ok((text, _)) => {
            let ghost s1 = stream.rest();
            let r = finish(construct_unquoted(&text), stream);
            proof {
                lemma_suffix_trans(stream.rest(), s1, s0);
            }
            r
        },
        Err(e) => Err(e),
    }
}


/// The stream goes on after the whitespace, with the property `ok` of the result.
pub open spec fn then_ws<T>(r: Parsed<T>, s: Seq<char>, fin: Seq<char>, ok: bool) -> bool {
    match after_ws(s) {
        Some(rest) => r is Ok && ok && fin == rest,
        None => r is Err && r != Err::<T, Status>(Status::Reject),
    }
}

/// Parse `ALL`, an alias or a user name, and the whitespace after it.
pub fn parse_meta_username(stream: &mut CharStream) -> (r: Parsed<Meta<Username>>)
    requires
        old(stream).wf(),
    ensures
        final(stream).wf(),
        is_suffix(final(stream).rest(), old(stream).rest()),
        match scan_token(class_of(TokenKind::MetaUsername), old(stream).rest()) {
            Scan::Token(t, n) => match meta_kind(t) {
                MetaKind::All => then_ws(
                    r,
                    old(stream).rest().skip(n as int),
                    final(stream).rest(),
                    r matches Ok(Meta::All),
                ),
                MetaKind::Alias(a) => then_ws(
                    r,
                    old(stream).rest().skip(n as int),
                    final(stream).rest(),
                    r matches Ok(Meta::Alias(x)) && x@ == a,
                ),
                MetaKind::Only => match username_check(t) {
                    Ok(_) => then_ws(
                        r,
                        old(stream).rest().skip(n as int),
                        final(stream).rest(),
                        r matches Ok(Meta::Only(u)) && u.0@ == t,
                    ),
                    Err(m) => r matches Err(Status::Fatal(_, x)) && x@ == m,
                },
            },
            Scan::Reject => r == Err::<Meta<Username>, Status>(Status::Reject) && *final(stream)
                == *old(stream),
            Scan::Fatal => r is Err && r != Err::<Meta<Username>, Status>(Status::Reject),
        },
{
    let ghost s0 = stream.rest();
    match lex(TokenKind::MetaUsername, stream) {
        Ok((text, start)) => {
            let ghost s1 = stream.rest();
            let (kind, alias) = classify_meta(&text);
            let v = if kind == 0 {
                Meta::All
            } else if kind == 1 {
                Meta::Alias(alias)
            } else {
                match check_username(&text) {
                    Ok(()) => Meta::Only(Username(text)),
                    Err(m) => {
                        return Err(fatal_at(start, stream, m));
                    },
                }
            };
            let r = finish(v, stream);
            proof {
                lemma_suffix_trans(stream.rest(), s1, s0);
            }
            r
        },
        Err(e) => Err(e),
    }
}

/// Parse `ALL`, an alias or a host name, and the whitespace after it.
pub fn parse_meta_hostname(stream: &mut CharStream) -> (r: Parsed<Meta<Hostname>>)
    requires
        old(stream).wf(),
    ensures
        final(stream).wf(),
        is_suffix(final(stream).rest(), old(stream).rest()),
        match scan_token(class_of(TokenKind::MetaHostname), old(stream).rest()) {
            Scan::Token(t, n) => then_ws(
                r,
                old(stream).rest().skip(n as int),
                final(stream).rest(),
                match meta_kind(t) {
                    MetaKind::All => r matches Ok(Meta::All),
                    MetaKind::Alias(a) => r matches Ok(Meta::Alias(x)) && x@ == a,
                    MetaKind::Only => r matches Ok(Meta::Only(h)) && h.0@ == t,
                },
            ),
            Scan::Reject => r == Err::<Meta<Hostname>, Status>(Status::Reject) && *final(stream)
                == *old(stream),
            Scan::Fatal => r is Err && r != Err::<Meta<Hostname>, Status>(Status::Reject),
        },
{
    let ghost s0 = stream.rest();
    match lex(TokenKind::MetaHostname, stream) {
        Ok((text, _)) => {
            let ghost s1 = stream.rest();
            let (kind, alias) = classify_meta(&text);
            let v = if kind == 0 {
                Meta::All
            } else if kind == 1 {
                Meta::Alias(alias)
            } else {
                Meta::Only(Hostname(text))
            };
            let r = finish(v, stream);
            proof {
                lemma_suffix_trans(stream.rest(), s1, s0);
            }
            r
        },
        Err(e) => Err(e),
    }
}

/// Parse `ALL`, an alias or a command with its arguments, and the whitespace after it.
pub fn parse_meta_command(stream: &mut CharStream) -> (r: Parsed<Meta<Command>>)
    requires
        old(stream).wf(),
    ensures
        final(stream).wf(),
        is_suffix(final(stream).rest(), old(stream).rest()),
        match scan_token(class_of(TokenKind::MetaCommand), old(stream).rest()) {
            Scan::Token(t, n) => match meta_kind(t) {
                MetaKind::All => then_ws(
                    r,
                    old(stream).rest().skip(n as int),
                    final(stream).rest(),
                    r matches Ok(Meta::All),
                ),
                MetaKind::Alias(a) => then_ws(
                    r,
                    old(stream).rest().skip(n as int),
                    final(stream).rest(),
                    r matches Ok(Meta::Alias(x)) && x@ == a,
                ),
                MetaKind::Only => match command_check(t) {
                    Ok((src, args)) => then_ws(
                        r,
                        old(stream).rest().skip(n as int),
                        final(stream).rest(),
                        r matches Ok(Meta::Only(c)) && c.0.source() == src && match args {
                            None => c.1 is None,
                            Some(a) => c.1 matches Some(v) && strings_view(v@) == a,
                        },
                    ),
                    Err(m) => r matches Err(Status::Fatal(_, x)) && x@ == m,
                },
            },
            Scan::Reject => r == Err::<Meta<Command>, Status>(Status::Reject) && *final(stream)
                == *old(stream),
            Scan::Fatal => r is Err && r != Err::<Meta<Command>, Status>(Status::Reject),
        },
{
    let ghost s0 = stream.rest();
    match lex(TokenKind::MetaCommand, stream) {
        Ok((text, start)) => {
            let ghost s1 = stream.rest();
            let (kind, alias) = classify_meta(&text);
            let v = if kind == 0 {
                Meta::All
            } else if kind == 1 {
                Meta::Alias(alias)
            } else {
                match construct_command(&text) {
                    Ok(c) => Meta::Only(c),
                    Err(m) => {
                        return Err(fatal_at(start, stream, m));
                    },
                }
            };
            let r = finish(v, stream);
            proof {
                lemma_suffix_trans(stream.rest(), s1, s0);
            }
            r
        },
        Err(e) => Err(e),
    }
}

/// Parse `ALL`, an alias or a command without arguments, and the whitespace after it.
pub fn parse_meta_simple_command(stream: &mut CharStream) -> (r: Parsed<Meta<SimpleCommand>>)
    requires
        old(stream).wf(),
    ensures
        final(stream).wf(),
        is_suffix(final(stream).rest(), old(stream).rest()),
        match scan_token(class_of(TokenKind::MetaSimpleCommand), old(stream).rest()) {
            Scan::Token(t, n) => match meta_kind(t) {
                MetaKind::All => then_ws(
                    r,
                    old(stream).rest().skip(n as int),
                    final(stream).rest(),
                    r matches Ok(Meta::All),
                ),
                MetaKind::Alias(a) => then_ws(
                    r,
                    old(stream).rest().skip(n as int),
                    final(stream).rest(),
                    r matches Ok(Meta::Alias(x)) && x@ == a,
                ),
                MetaKind::Only => match simple_command_check(t) {
                    Ok(src) => then_ws(
                        r,
                        old(stream).rest().skip(n as int),
                        final(stream).rest(),
                        r matches Ok(Meta::Only(c)) && c.source() == src,
                    ),
                    Err(m) => r matches Err(Status::Fatal(_, x)) && x@ == m,
                },
            },
            Scan::Reject => r == Err::<Meta<SimpleCommand>, Status>(Status::Reject) && *final(stream) == *old(stream),
            Scan::Fatal => r is Err && r != Err::<Meta<SimpleCommand>, Status>(Status::Reject),
        },
{
    let ghost s0 = stream.rest();
    match lex(TokenKind::MetaSimpleCommand, stream) {
        Ok((text, start)) => {
            let ghost s1 = stream.rest();
            let (kind, alias) = classify_meta(&text);
            let v = if kind == 0 {
                Meta::All
            } else if kind == 1 {
                Meta::Alias(alias)
            } else {
                match construct_simple_command(&text) {
                    Ok(c) => Meta::Only(c),
                    Err(m) => {
                        return Err(fatal_at(start, stream, m));
                    },
                }
            };
            let r = finish(v, stream);
            proof {
                lemma_suffix_trans(stream.rest(), s1, s0);
            }
            r
        },
        Err(e) => Err(e),
    }
}

/// Reading a token of the kind and the whitespace after it.
pub open spec fn lexed(kind: TokenKind, s: Seq<char>) -> Outcome<Seq<char>> {
    match scan_token(class_of(kind), s) {
        Scan::Token(t, n) => match after_ws(s.skip(n as int)) {
            Some(rest) => Outcome::Done(t, rest),
            None => Outcome::Fail,
        },
        Scan::Reject => Outcome::Reject,
        Scan::Fatal => Outcome::Fail,
    }
}

} // verus!
