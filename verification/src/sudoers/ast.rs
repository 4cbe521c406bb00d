//! The syntax tree of the sudoers file, and its parser.

use vstd::prelude::*;
use super::basic_parser::{
    after_ws, expect_outcome, scan_token, syntax_outcome, Outcome, Scan,
    expect_syntax, fatal, fatal_at, is_suffix, is_syntax, lemma_after_ws, lemma_suffix_drop, lemma_suffix_refl,
    lemma_suffix_trans, maybe, try_syntax, Parsed, Span, Status,
};
use super::char_stream::{advance, CharStream};
use super::defaults::{
    integer_value, negation, setting_named, SettingsModifierModel,
    integer_checker, lookup_setting, negate, ListMode, SettingKind, SettingsModifier, TextSetting,
};
use super::tokens::{
    chdir_check, class_of, command_check, decimal_value, lexed, strings_view, meta_kind, requote, simple_command_check, then_ws,
    username_check, MetaKind, TokenKind,
    parse_alias_name, parse_chdir, parse_default_name, parse_digits, parse_env_var,
    parse_include_path, parse_meta_command, parse_meta_hostname, parse_meta_simple_command,
    parse_meta_username, parse_numeric, parse_quoted_include_path, parse_quoted_string_parameter,
    parse_string_parameter, parse_unquoted, parse_username, AliasName, ChDir, Command,
    DefaultName, Digits, EnvVar, Hostname, IncludePath, Meta, Numeric, QuotedIncludePath,
    QuotedStringParameter, SimpleCommand, StringParameter, Unquoted, Username,
};
use crate::text::{chars_eq_str, chars_of, concat, copy_string, owned, push_char, starts_with_str};

verus! {

broadcast use vstd::string::group_string_axioms;

/// An item, or its negation (`!item`).
#[derive(Debug, PartialEq, Eq)]
pub enum Qualified<T> {
    Allow(T),
    Forbid(T),
}

/// `ALL`, an alias or an item, possibly negated.
pub type Spec<T> = Qualified<Meta<T>>;

pub type SpecList<T> = Vec<Spec<T>>;

impl<T> Spec<T> {
    /// Apply `f` to the item, keeping `ALL`, aliases and the negation as they are.
    pub fn map<U>(self, f: impl Fn(T) -> U) -> (r: Qualified<Meta<U>>)
        requires
            forall|x: T| f.requires((x,)),
        ensures
            match (self, r) {
                (Qualified::Allow(a), Qualified::Allow(b)) => meta_mapped(a, b, f),
                (Qualified::Forbid(a), Qualified::Forbid(b)) => meta_mapped(a, b, f),
                _ => false,
            },
    {
        match self {
            Qualified::Allow(m) => Qualified::Allow(map_meta(m, f)),
            Qualified::Forbid(m) => Qualified::Forbid(map_meta(m, f)),
        }
    }
}

/// `b` is `a` with `f` applied to its item.
pub open spec fn meta_mapped<T, U, F: Fn(T) -> U>(a: Meta<T>, b: Meta<U>, f: F) -> bool {
    match (a, b) {
        (Meta::All, Meta::All) => true,
        (Meta::Alias(x), Meta::Alias(y)) => x == y,
        (Meta::Only(x), Meta::Only(y)) => f.ensures((x,), y),
        _ => false,
    }
}

fn map_meta<T, U>(m: Meta<T>, f: impl Fn(T) -> U) -> (r: Meta<U>)
    requires
        forall|x: T| f.requires((x,)),
    ensures
        meta_mapped(m, r, f),
{
    match m {
        Meta::All => Meta::All,
        Meta::Alias(a) => Meta::Alias(a),
        Meta::Only(x) => Meta::Only(f(x)),
    }
}

/// A user or group: a name, or `#` and a number.
#[derive(Debug, PartialEq, Eq)]
pub enum Identifier {
    Name(String),
    ID(u32),
}

/// A user, a group (`%`) or a non-Unix group (`%:`).
#[derive(Debug, PartialEq, Eq)]
pub enum UserSpecifier {
    User(Identifier),
    Group(Identifier),
    NonunixGroup(Identifier),
}

/// `(users : groups)`: whom a command may be run as.
pub struct RunAs {
    pub users: SpecList<UserSpecifier>,
    pub groups: SpecList<Identifier>,
}

/// Whether a password must be given: `PASSWD:`, `NOPASSWD:` or not said.
#[derive(Clone, Copy, Debug, PartialEq, Eq, Structural)]
pub enum Authenticate {
    Unspecified,
    Passwd,
    Nopasswd,
}

/// `SETENV:`, `NOSETENV:` or not said.
#[derive(Clone, Copy, Debug, PartialEq, Eq, Structural)]
pub enum EnvironmentControl {
    Implicit,
    Setenv,
    Nosetenv,
}

/// `EXEC:`, `NOEXEC:` or not said.
#[derive(Clone, Copy, Debug, PartialEq, Eq, Structural)]
pub enum ExecControl {
    Implicit,
    Exec,
    Noexec,
}

/// The attributes of a command.
#[derive(Clone, Debug, PartialEq, Eq)]
pub struct Tag {
    pub authenticate: Authenticate,
    pub cwd: Option<ChDir>,
    pub env: EnvironmentControl,
    pub apparmor_profile: Option<String>,
    pub noexec: ExecControl,
    pub ignored: Vec<Span>,
}

impl Default for Tag {
    fn default() -> (t: Tag)
        ensures
            t.authenticate == Authenticate::Unspecified,
            t.cwd is None,
            t.env == EnvironmentControl::Implicit,
            t.apparmor_profile is None,
            t.noexec == ExecControl::Implicit,
            t.ignored@.len() == 0,
    {
        Tag {
            authenticate: Authenticate::Unspecified,
            cwd: None,
            env: EnvironmentControl::Implicit,
            apparmor_profile: None,
            noexec: ExecControl::Implicit,
            ignored: Vec::new(),
        }
    }
}

impl Tag {
    pub open spec fn needs_passwd_spec(&self) -> bool {
        self.authenticate != Authenticate::Nopasswd
    }

    /// A password is needed unless `NOPASSWD:` was given.
    pub fn needs_passwd(&self) -> (b: bool)
        ensures
            b == (self.authenticate != Authenticate::Nopasswd),
    {
        match self.authenticate {
            Authenticate::Unspecified | Authenticate::Passwd => true,
            Authenticate::Nopasswd => false,
        }
    }

    /// The command may set environment variables (`SETENV:`).
    pub fn allows_setenv(&self) -> (b: bool)
        ensures
            b == (self.env == EnvironmentControl::Setenv),
    {
        match self.env {
            EnvironmentControl::Setenv => true,
            _ => false,
        }
    }
}

/// A change to the attributes of the commands that follow it on a line.
#[derive(Clone, Debug)]
pub enum Modifier {
    Exec,
    Noexec,
    Setenv,
    Nosetenv,
    Passwd,
    Nopasswd,
    Cwd(ChDir),
    ApparmorProfile(String),
    /// A tag that is accepted and has no effect, where it stood.
    Ignored(Span),
    /// A tag that asks for what is done anyway.
    Nothing,
}

/// The attributes `after` are `before` with the modifier `m` applied.
pub open spec fn applied(m: Modifier, before: Tag, after: Tag) -> bool {
    let same_auth = after.authenticate == before.authenticate;
    let same_cwd = after.cwd == before.cwd;
    let same_env = after.env == before.env;
    let same_profile = after.apparmor_profile == before.apparmor_profile;
    let same_exec = after.noexec == before.noexec;
    let same_ignored = after.ignored@ == before.ignored@;
    match m {
        Modifier::Exec => after.noexec == ExecControl::Exec && same_auth && same_cwd && same_env
            && same_profile && same_ignored,
        Modifier::Noexec => after.noexec == ExecControl::Noexec && same_auth && same_cwd
            && same_env && same_profile && same_ignored,
        Modifier::Setenv => after.env == EnvironmentControl::Setenv && same_auth && same_cwd
            && same_exec && same_profile && same_ignored,
        Modifier::Nosetenv => after.env == EnvironmentControl::Nosetenv && same_auth && same_cwd
            && same_exec && same_profile && same_ignored,
        Modifier::Passwd => after.authenticate == Authenticate::Passwd && same_env && same_cwd
            && same_exec && same_profile && same_ignored,
        Modifier::Nopasswd => after.authenticate == Authenticate::Nopasswd && same_env && same_cwd
            && same_exec && same_profile && same_ignored,
        Modifier::Cwd(c) => (after.cwd matches Some(x) && x.model() == c.model()) && same_auth
            && same_env && same_exec && same_profile && same_ignored,
        Modifier::ApparmorProfile(p) => (after.apparmor_profile matches Some(x) && x@ == p@)
            && same_auth && same_env && same_exec && same_cwd && same_ignored,
        Modifier::Ignored(span) => after.ignored@ == before.ignored@.push(span) && same_auth
            && same_env && same_exec && same_cwd && same_profile,
        Modifier::Nothing => same_auth && same_env && same_exec && same_cwd && same_profile
            && same_ignored,
    }
}

impl Modifier {
    /// Apply the modifier to the attributes.
    pub fn apply(&self, tag: &mut Tag)
        ensures
            applied(*self, *old(tag), *final(tag)),
    {
        match self {
            Modifier::Exec => {
                tag.noexec = ExecControl::Exec;
            },
            Modifier::Noexec => {
                tag.noexec = ExecControl::Noexec;
            },
            Modifier::Setenv => {
                tag.env = EnvironmentControl::Setenv;
            },
            Modifier::Nosetenv => {
                tag.env = EnvironmentControl::Nosetenv;
            },
            Modifier::Passwd => {
                tag.authenticate = Authenticate::Passwd;
            },
            Modifier::Nopasswd => {
                tag.authenticate = Authenticate::Nopasswd;
            },
            Modifier::Cwd(c) => {
                tag.cwd = Some(clone_chdir(c));
            },
            Modifier::ApparmorProfile(p) => {
                tag.apparmor_profile = Some(copy_string(p));
            },
            Modifier::Ignored(span) => {
                tag.ignored.push(*span);
            },
            Modifier::Nothing => {},
        }
    }
}

fn clone_chdir(c: &ChDir) -> (r: ChDir)
    ensures
        r.model() == c.model(),
{
    match c {
        ChDir::Path(p) => ChDir::Path(copy_string(p)),
        ChDir::Any => ChDir::Any,
    }
}

/// Commands with the tags that come before them.
pub struct CommandSpec(pub Vec<Modifier>, pub Spec<Command>);

/// One permission line: who may do what, where, as whom.
pub struct PermissionSpec {
    pub users: SpecList<UserSpecifier>,
    pub permissions: Vec<(SpecList<Hostname>, Vec<(Option<RunAs>, CommandSpec)>)>,
}

/// The definition of an alias.
pub struct Def<T>(pub String, pub SpecList<T>);

/// Alias definitions and `Defaults` lines.
pub enum Directive {
    UserAlias(Vec<Def<UserSpecifier>>),
    HostAlias(Vec<Def<Hostname>>),
    CmndAlias(Vec<Def<Command>>),
    RunasAlias(Vec<Def<UserSpecifier>>),
    Defaults(Vec<SettingsModifier>, ConfigScope),
}

/// Where a `Defaults` line applies: everywhere, or for some hosts (`@`), users (`:`), target
/// users (`>`) or commands (`!`).
pub enum ConfigScope {
    Generic,
    Host(SpecList<Hostname>),
    User(SpecList<UserSpecifier>),
    RunAs(SpecList<UserSpecifier>),
    Command(SpecList<SimpleCommand>),
}

/// A line of the sudoers file.
pub enum Sudo {
    Spec(PermissionSpec),
    Decl(Directive),
    Include(String, Span),
    IncludeDir(String, Span),
    LineComment,
}

impl Sudo {
    pub fn is_spec(&self) -> (b: bool)
        ensures
            b == (*self is Spec),
    {
        matches!(self, Sudo::Spec(..))
    }

    pub fn is_decl(&self) -> (b: bool)
        ensures
            b == (*self is Decl),
    {
        matches!(self, Sudo::Decl(..))
    }

    pub fn is_line_comment(&self) -> (b: bool)
        ensures
            b == (*self is LineComment),
    {
        matches!(self, Sudo::LineComment)
    }

    pub fn is_include(&self) -> (b: bool)
        ensures
            b == (*self is Include),
    {
        matches!(self, Sudo::Include(..))
    }

    pub fn is_include_dir(&self) -> (b: bool)
        ensures
            b == (*self is IncludeDir),
    {
        matches!(self, Sudo::IncludeDir(..))
    }

    /// The path of an `@include`.
    pub fn as_include(&self) -> (r: Option<&str>)
        ensures
            match *self {
                Sudo::Include(p, _) => r matches Some(x) && x@ == p@,
                _ => r is None,
            },
    {
        match self {
            Sudo::Include(p, _) => Some(p.as_str()),
            _ => None,
        }
    }

    /// The permission of a permission line.
    pub fn as_spec(&self) -> (r: Option<&PermissionSpec>)
        ensures
            match *self {
                Sudo::Spec(p) => r == Some(&p),
                _ => r is None,
            },
    {
        match self {
            Sudo::Spec(p) => Some(p),
            _ => None,
        }
    }
}

impl<T> Qualified<T> {
    /// The item, when it is not negated.
    pub fn as_allow(&self) -> (r: Option<&T>)
        ensures
            match *self {
                Qualified::Allow(x) => r == Some(&x),
                Qualified::Forbid(_) => r is None,
            },
    {
        match self {
            Qualified::Allow(x) => Some(x),
            Qualified::Forbid(_) => None,
        }
    }
}

impl<T> Meta<T> {
    pub fn is_alias(&self) -> (b: bool)
        ensures
            b == (*self is Alias),
    {
        matches!(self, Meta::Alias(..))
    }
}

// ---------------------------------------------------------------------------------------------
// Parsing
// ---------------------------------------------------------------------------------------------

/// The result is a rejection.
pub open spec fn rejected<T>(r: Parsed<T>) -> bool {
    r matches Err(Status::Reject)
}

/// The items of the grammar. A parser only reads its input forward; it rejects exactly the
/// texts that `rejects` names (those that do not start the item), and then has read nothing.
pub trait Parse: Sized {
    /// What the item is called in error messages.
    spec fn spec_description() -> Seq<char>;

    /// The texts that do not start an item of this kind.
    spec fn rejects(s: Seq<char>) -> bool;

    /// What the item is called in error messages.
    fn description() -> (d: &'static str)
        ensures
            d@ == Self::spec_description(),
    ;

    fn parse(stream: &mut CharStream) -> (r: Parsed<Self>)
        requires
            old(stream).wf(),
        ensures
            final(stream).wf(),
            is_suffix(final(stream).rest(), old(stream).rest()),
            rejected(r) ==> *final(stream) == *old(stream),
            rejected(r) <==> Self::rejects(old(stream).rest()),
    ;
}

/// Parse an item, which must be there: a rejection turns into a fatal error.
pub fn expect_nonterminal<T: Parse>(stream: &mut CharStream) -> (r: Parsed<T>)
    requires
        old(stream).wf(),
    ensures
        final(stream).wf(),
        is_suffix(final(stream).rest(), old(stream).rest()),
        !rejected(r),
        T::rejects(old(stream).rest()) ==> r is Err,
{
    let begin = stream.get_pos();
    match T::parse(stream) {
        Err(Status::Reject) => Err(fatal_at(begin, stream, concat("expected ", T::description()))),
        r => r,
    }
}

/// Parse an item if it is there.
pub fn maybe_nonterminal<T: Parse>(stream: &mut CharStream) -> (r: Parsed<Option<T>>)
    requires
        old(stream).wf(),
    ensures
        final(stream).wf(),
        is_suffix(final(stream).rest(), old(stream).rest()),
        !rejected(r),
        r matches Ok(None) ==> *final(stream) == *old(stream),
{
    maybe(T::parse(stream))
}

/// Parse a list of items separated by `sep`, of at most `limit` items.
pub fn parse_list<T: Parse>(sep: char, limit: usize, stream: &mut CharStream) -> (r:
    Parsed<Vec<T>>)
    requires
        old(stream).wf(),
    ensures
        final(stream).wf(),
        is_suffix(final(stream).rest(), old(stream).rest()),
        rejected(r) ==> *final(stream) == *old(stream),
        rejected(r) <==> T::rejects(old(stream).rest()),
        r matches Ok(v) ==> 1 <= v@.len() && (v@.len() <= limit || v@.len() == 1),
{
    let ghost s0 = stream.rest();
    let first = match T::parse(stream) {
        Ok(x) => x,
        Err(e) => {
            return Err(e);
        },
    };
    let mut elems: Vec<T> = Vec::new();
    elems.push(first);
    loop
        invariant
            stream.wf(),
            s0 == old(stream).rest(),
            is_suffix(stream.rest(), s0),
            !T::rejects(s0),
            1 <= elems@.len(),
            elems@.len() <= limit || elems@.len() == 1,
        decreases stream.rest().len(),
    {
        let ghost s1 = stream.rest();
        match try_syntax(sep, stream) {
            Ok(()) => {
                proof {
                    lemma_suffix_trans(stream.rest(), s1, s0);
                    lemma_after_ws(s1.drop_first());
                    assert(stream.rest().len() < s1.len());
                }
                if elems.len() >= limit {
                    return Err(fatal(stream, owned("too many items in list")));
                }
                let ghost s2 = stream.rest();
                let x = expect_nonterminal::<T>(stream);
                proof {
                    lemma_suffix_trans(stream.rest(), s2, s0);
                }
                match x {
                    Ok(x) => {
                        elems.push(x);
                    },
                    Err(e) => {
                        return Err(e);
                    },
                }
            },
            Err(Status::Reject) => {
                return Ok(elems);
            },
            Err(e) => {
                proof {
                    lemma_suffix_trans(stream.rest(), s1, s0);
                }
                return Err(e);
            },
        }
    }
}


// ---------------------------------------------------------------------------------------------
// Tokens as items of the grammar
// ---------------------------------------------------------------------------------------------

impl Parse for Username {
    open spec fn spec_description() -> Seq<char> {
        "user name"@
    }

    open spec fn rejects(s: Seq<char>) -> bool {
        scan_token(class_of(TokenKind::Username), s) is Reject
    }

    fn description() -> (d: &'static str) {
        "user name"
    }

    fn parse(stream: &mut CharStream) -> (r: Parsed<Self>)
        ensures
            final(stream).wf(),
            is_suffix(final(stream).rest(), old(stream).rest()),
            match scan_token(class_of(TokenKind::Username), old(stream).rest()) {
                Scan::Token(t, n) => match username_check(t) {
                    Ok(_) => match after_ws(old(stream).rest().skip(n as int)) {
                        Some(rest) => r matches Ok(x) && x.0@ == t && final(stream).rest() == rest,
                        None => r is Err && r != Err::<Username, Status>(Status::Reject),
                    },
                    Err(m) => r matches Err(Status::Fatal(_, x)) && x@ == m,
                },
                Scan::Reject => r == Err::<Username, Status>(Status::Reject) && *final(stream) == *old(stream),
                Scan::Fatal => r is Err && r != Err::<Username, Status>(Status::Reject),
            },
    {
        parse_username(stream)
    }
}

impl Parse for Digits {
    open spec fn spec_description() -> Seq<char> {
        "number"@
    }

    open spec fn rejects(s: Seq<char>) -> bool {
        scan_token(class_of(TokenKind::Digits), s) is Reject
    }

    fn description() -> (d: &'static str) {
        "number"
    }

    fn parse(stream: &mut CharStream) -> (r: Parsed<Self>)
        ensures
            final(stream).wf(),
            is_suffix(final(stream).rest(), old(stream).rest()),
            match scan_token(class_of(TokenKind::Digits), old(stream).rest()) {
                Scan::Token(t, n) => match after_ws(old(stream).rest().skip(n as int)) {
                    Some(rest) => r matches Ok(x) && x.0 == decimal_value(t) && final(stream).rest()
                        == rest,
                    None => r is Err && r != Err::<Digits, Status>(Status::Reject),
                },
                Scan::Reject => r == Err::<Digits, Status>(Status::Reject) && *final(stream) == *old(stream),
                Scan::Fatal => r is Err && r != Err::<Digits, Status>(Status::Reject),
            },
    {
        parse_digits(stream)
    }
}

impl Parse for Numeric {
    open spec fn spec_description() -> Seq<char> {
        "number"@
    }

    open spec fn rejects(s: Seq<char>) -> bool {
        scan_token(class_of(TokenKind::Numeric), s) is Reject
    }

    fn description() -> (d: &'static str) {
        "number"
    }

    fn parse(stream: &mut CharStream) -> (r: Parsed<Self>)
        ensures
            final(stream).wf(),
            is_suffix(final(stream).rest(), old(stream).rest()),
            match scan_token(class_of(TokenKind::Numeric), old(stream).rest()) {
                Scan::Token(t, n) => match after_ws(old(stream).rest().skip(n as int)) {
                    Some(rest) => r matches Ok(x) && x.0@ == t && final(stream).rest() == rest,
                    None => r is Err && r != Err::<Numeric, Status>(Status::Reject),
                },
                Scan::Reject => r == Err::<Numeric, Status>(Status::Reject) && *final(stream) == *old(stream),
                Scan::Fatal => r is Err && r != Err::<Numeric, Status>(Status::Reject),
            },
    {
        parse_numeric(stream)
    }
}

impl Parse for AliasName {
    open spec fn spec_description() -> Seq<char> {
        "alias name"@
    }

    open spec fn rejects(s: Seq<char>) -> bool {
        scan_token(class_of(TokenKind::AliasName), s) is Reject
    }

    fn description() -> (d: &'static str) {
        "alias name"
    }

    fn parse(stream: &mut CharStream) -> (r: Parsed<Self>)
        ensures
            final(stream).wf(),
            is_suffix(final(stream).rest(), old(stream).rest()),
            match scan_token(class_of(TokenKind::AliasName), old(stream).rest()) {
                Scan::Token(t, n) => match after_ws(old(stream).rest().skip(n as int)) {
                    Some(rest) => r matches Ok(x) && x.0@ == t && final(stream).rest() == rest,
                    None => r is Err && r != Err::<AliasName, Status>(Status::Reject),
                },
                Scan::Reject => r == Err::<AliasName, Status>(Status::Reject) && *final(stream) == *old(stream),
                Scan::Fatal => r is Err && r != Err::<AliasName, Status>(Status::Reject),
            },
    {
        parse_alias_name(stream)
    }
}

impl Parse for DefaultName {
    open spec fn spec_description() -> Seq<char> {
        "setting name"@
    }

    open spec fn rejects(s: Seq<char>) -> bool {
        scan_token(class_of(TokenKind::DefaultName), s) is Reject
    }

    fn description() -> (d: &'static str) {
        "setting name"
    }

    fn parse(stream: &mut CharStream) -> (r: Parsed<Self>)
        ensures
            final(stream).wf(),
            is_suffix(final(stream).rest(), old(stream).rest()),
            match scan_token(class_of(TokenKind::DefaultName), old(stream).rest()) {
                Scan::Token(t, n) => match after_ws(old(stream).rest().skip(n as int)) {
                    Some(rest) => r matches Ok(x) && x.0@ == t && final(stream).rest() == rest,
                    None => r is Err && r != Err::<DefaultName, Status>(Status::Reject),
                },
                Scan::Reject => r == Err::<DefaultName, Status>(Status::Reject) && *final(stream) == *old(stream),
                Scan::Fatal => r is Err && r != Err::<DefaultName, Status>(Status::Reject),
            },
    {
        parse_default_name(stream)
    }
}

impl Parse for EnvVar {
    open spec fn spec_description() -> Seq<char> {
        "environment variable"@
    }

    open spec fn rejects(s: Seq<char>) -> bool {
        scan_token(class_of(TokenKind::EnvVar), s) is Reject
    }

    fn description() -> (d: &'static str) {
        "environment variable"
    }

    fn parse(stream: &mut CharStream) -> (r: Parsed<Self>)
        ensures
            final(stream).wf(),
            is_suffix(final(stream).rest(), old(stream).rest()),
            match scan_token(class_of(TokenKind::EnvVar), old(stream).rest()) {
                Scan::Token(t, n) => match after_ws(old(stream).rest().skip(n as int)) {
                    Some(rest) => r matches Ok(x) && x.0@ == t && final(stream).rest() == rest,
                    None => r is Err && r != Err::<EnvVar, Status>(Status::Reject),
                },
                Scan::Reject => r == Err::<EnvVar, Status>(Status::Reject) && *final(stream) == *old(stream),
                Scan::Fatal => r is Err && r != Err::<EnvVar, Status>(Status::Reject),
            },
    {
        parse_env_var(stream)
    }
}

impl Parse for QuotedStringParameter {
    open spec fn spec_description() -> Seq<char> {
        "text"@
    }

    open spec fn rejects(s: Seq<char>) -> bool {
        scan_token(class_of(TokenKind::QuotedStringParameter), s) is Reject
    }

    fn description() -> (d: &'static str) {
        "text"
    }

    fn parse(stream: &mut CharStream) -> (r: Parsed<Self>)
        ensures
            final(stream).wf(),
            is_suffix(final(stream).rest(), old(stream).rest()),
            match scan_token(class_of(TokenKind::QuotedStringParameter), old(stream).rest()) {
                Scan::Token(t, n) => match after_ws(old(stream).rest().skip(n as int)) {
                    Some(rest) => r matches Ok(x) && x.0@ == t && final(stream).rest() == rest,
                    None => r is Err && r != Err::<QuotedStringParameter, Status>(Status::Reject),
                },
                Scan::Reject => r == Err::<QuotedStringParameter, Status>(Status::Reject) && *final(stream) == *old(stream),
                Scan::Fatal => r is Err && r != Err::<QuotedStringParameter, Status>(Status::Reject),
            },
    {
        parse_quoted_string_parameter(stream)
    }
}

impl Parse for QuotedIncludePath {
    open spec fn spec_description() -> Seq<char> {
        "path"@
    }

    open spec fn rejects(s: Seq<char>) -> bool {
        scan_token(class_of(TokenKind::QuotedIncludePath), s) is Reject
    }

    fn description() -> (d: &'static str) {
        "path"
    }

    fn parse(stream: &mut CharStream) -> (r: Parsed<Self>)
        ensures
            final(stream).wf(),
            is_suffix(final(stream).rest(), old(stream).rest()),
            match scan_token(class_of(TokenKind::QuotedIncludePath), old(stream).rest()) {
                Scan::Token(t, n) => match after_ws(old(stream).rest().skip(n as int)) {
                    Some(rest) => r matches Ok(x) && x.0@ == t && final(stream).rest() == rest,
                    None => r is Err && r != Err::<QuotedIncludePath, Status>(Status::Reject),
                },
                Scan::Reject => r == Err::<QuotedIncludePath, Status>(Status::Reject) && *final(stream) == *old(stream),
                Scan::Fatal => r is Err && r != Err::<QuotedIncludePath, Status>(Status::Reject),
            },
    {
        parse_quoted_include_path(stream)
    }
}

impl Parse for IncludePath {
    open spec fn spec_description() -> Seq<char> {
        "path"@
    }

    open spec fn rejects(s: Seq<char>) -> bool {
        scan_token(class_of(TokenKind::IncludePath), s) is Reject
    }

    fn description() -> (d: &'static str) {
        "path"
    }

    fn parse(stream: &mut CharStream) -> (r: Parsed<Self>)
        ensures
            final(stream).wf(),
            is_suffix(final(stream).rest(), old(stream).rest()),
            match scan_token(class_of(TokenKind::IncludePath), old(stream).rest()) {
                Scan::Token(t, n) => match after_ws(old(stream).rest().skip(n as int)) {
                    Some(rest) => r matches Ok(x) && x.0@ == t && final(stream).rest() == rest,
                    None => r is Err && r != Err::<IncludePath, Status>(Status::Reject),
                },
                Scan::Reject => r == Err::<IncludePath, Status>(Status::Reject) && *final(stream) == *old(stream),
                Scan::Fatal => r is Err && r != Err::<IncludePath, Status>(Status::Reject),
            },
    {
        parse_include_path(stream)
    }
}

impl Parse for StringParameter {
    open spec fn spec_description() -> Seq<char> {
        "text"@
    }

    open spec fn rejects(s: Seq<char>) -> bool {
        scan_token(class_of(TokenKind::StringParameter), s) is Reject
    }

    fn description() -> (d: &'static str) {
        "text"
    }

    fn parse(stream: &mut CharStream) -> (r: Parsed<Self>)
        ensures
            final(stream).wf(),
            is_suffix(final(stream).rest(), old(stream).rest()),
            match scan_token(class_of(TokenKind::StringParameter), old(stream).rest()) {
                Scan::Token(t, n) => match after_ws(old(stream).rest().skip(n as int)) {
                    Some(rest) => r matches Ok(x) && x.0@ == t && final(stream).rest() == rest,
                    None => r is Err && r != Err::<StringParameter, Status>(Status::Reject),
                },
                Scan::Reject => r == Err::<StringParameter, Status>(Status::Reject) && *final(stream) == *old(stream),
                Scan::Fatal => r is Err && r != Err::<StringParameter, Status>(Status::Reject),
            },
    {
        parse_string_parameter(stream)
    }
}

impl Parse for ChDir {
    open spec fn spec_description() -> Seq<char> {
        "directory"@
    }

    open spec fn rejects(s: Seq<char>) -> bool {
        scan_token(class_of(TokenKind::ChDir), s) is Reject
    }

    fn description() -> (d: &'static str) {
        "directory"
    }

    fn parse(stream: &mut CharStream) -> (r: Parsed<Self>)
        ensures
            final(stream).wf(),
            is_suffix(final(stream).rest(), old(stream).rest()),
            match scan_token(class_of(TokenKind::ChDir), old(stream).rest()) {
                Scan::Token(t, n) => match chdir_check(t) {
                    Ok(m) => match after_ws(old(stream).rest().skip(n as int)) {
                        Some(rest) => r matches Ok(x) && x.model() == m && final(stream).rest() == rest,
                        None => r is Err && r != Err::<ChDir, Status>(Status::Reject),
                    },
                    Err(m) => r matches Err(Status::Fatal(_, x)) && x@ == m,
                },
                Scan::Reject => r == Err::<ChDir, Status>(Status::Reject) && *final(stream) == *old(stream),
                Scan::Fatal => r is Err && r != Err::<ChDir, Status>(Status::Reject),
            },
    {
        parse_chdir(stream)
    }
}

impl Parse for Unquoted {
    open spec fn spec_description() -> Seq<char> {
        "user name"@
    }

    open spec fn rejects(s: Seq<char>) -> bool {
        scan_token(class_of(TokenKind::UnquotedUsername), s) is Reject
    }

    fn description() -> (d: &'static str) {
        "user name"
    }

    fn parse(stream: &mut CharStream) -> (r: Parsed<Self>)
        ensures
            final(stream).wf(),
            is_suffix(final(stream).rest(), old(stream).rest()),
            match scan_token(class_of(TokenKind::UnquotedUsername), old(stream).rest()) {
                Scan::Token(t, n) => match after_ws(old(stream).rest().skip(n as int)) {
                    Some(rest) => r matches Ok(x) && x.0@ == requote(t) && final(stream).rest() == rest,
                    None => r is Err && r != Err::<Unquoted, Status>(Status::Reject),
                },
                Scan::Reject => r == Err::<Unquoted, Status>(Status::Reject) && *final(stream) == *old(stream),
                Scan::Fatal => r is Err && r != Err::<Unquoted, Status>(Status::Reject),
            },
    {
        parse_unquoted(stream)
    }
}

impl Parse for Meta<Username> {
    open spec fn spec_description() -> Seq<char> {
        "user name"@
    }

    open spec fn rejects(s: Seq<char>) -> bool {
        scan_token(class_of(TokenKind::MetaUsername), s) is Reject
    }

    fn description() -> (d: &'static str) {
        "user name"
    }

    fn parse(stream: &mut CharStream) -> (r: Parsed<Self>)
        ensures
            final(stream).wf(),
            is_suffix(final(stream).rest(), old(stream).rest()),
            match scan_token(class_of(TokenKind::MetaUsername), old(stream).rest()) {
                Scan::Token(t, n) => match meta_kind(t) {
                    MetaKind::All => then_ws(
                        r,
                        old(stream).rest().skip(n as int),
                        final(stream).rest(),
                        r matches Ok(Meta::All),
                    ),
                    MetaKind::Alias(a) => then_ws(
                        r,
                        old(stream).rest().skip(n as int),
                        final(stream).rest(),
                        r matches Ok(Meta::Alias(x)) && x@ == a,
                    ),
                    MetaKind::Only => match username_check(t) {
                        Ok(_) => then_ws(
                            r,
                            old(stream).rest().skip(n as int),
                            final(stream).rest(),
                            r matches Ok(Meta::Only(u)) && u.0@ == t,
                        ),
                        Err(m) => r matches Err(Status::Fatal(_, x)) && x@ == m,
                    },
                },
                Scan::Reject => r == Err::<Meta<Username>, Status>(Status::Reject) && *final(stream)
                    == *old(stream),
                Scan::Fatal => r is Err && r != Err::<Meta<Username>, Status>(Status::Reject),
            },
    {
        parse_meta_username(stream)
    }
}

impl Parse for Meta<Hostname> {
    open spec fn spec_description() -> Seq<char> {
        "host name"@
    }

    open spec fn rejects(s: Seq<char>) -> bool {
        scan_token(class_of(TokenKind::MetaHostname), s) is Reject
    }

    fn description() -> (d: &'static str) {
        "host name"
    }

    fn parse(stream: &mut CharStream) -> (r: Parsed<Self>)
        ensures
            final(stream).wf(),
            is_suffix(final(stream).rest(), old(stream).rest()),
            match scan_token(class_of(TokenKind::MetaHostname), old(stream).rest()) {
                Scan::Token(t, n) => then_ws(
                    r,
                    old(stream).rest().skip(n as int),
                    final(stream).rest(),
                    match meta_kind(t) {
                        MetaKind::All => r matches Ok(Meta::All),
                        MetaKind::Alias(a) => r matches Ok(Meta::Alias(x)) && x@ == a,
                        MetaKind::Only => r matches Ok(Meta::Only(h)) && h.0@ == t,
                    },
                ),
                Scan::Reject => r == Err::<Meta<Hostname>, Status>(Status::Reject) && *final(stream)
                    == *old(stream),
                Scan::Fatal => r is Err && r != Err::<Meta<Hostname>, Status>(Status::Reject),
            },
    {
        parse_meta_hostname(stream)
    }
}

impl Parse for Meta<Command> {
    open spec fn spec_description() -> Seq<char> {
        "command"@
    }

    open spec fn rejects(s: Seq<char>) -> bool {
        scan_token(class_of(TokenKind::MetaCommand), s) is Reject
    }

    fn description() -> (d: &'static str) {
        "command"
    }

    fn parse(stream: &mut CharStream) -> (r: Parsed<Self>)
        ensures
            final(stream).wf(),
            is_suffix(final(stream).rest(), old(stream).rest()),
            match scan_token(class_of(TokenKind::MetaCommand), old(stream).rest()) {
                Scan::Token(t, n) => match meta_kind(t) {
                    MetaKind::All => then_ws(
                        r,
                        old(stream).rest().skip(n as int),
                        final(stream).rest(),
                        r matches Ok(Meta::All),
                    ),
                    MetaKind::Alias(a) => then_ws(
                        r,
                        old(stream).rest().skip(n as int),
                        final(stream).rest(),
                        r matches Ok(Meta::Alias(x)) && x@ == a,
                    ),
                    MetaKind::Only => match command_check(t) {
                        Ok((src, args)) => then_ws(
                            r,
                            old(stream).rest().skip(n as int),
                            final(stream).rest(),
                            r matches Ok(Meta::Only(c)) && c.0.source() == src && match args {
                                None => c.1 is None,
                                Some(a) => c.1 matches Some(v) && strings_view(v@) == a,
                            },
                        ),
                        Err(m) => r matches Err(Status::Fatal(_, x)) && x@ == m,
                    },
                },
                Scan::Reject => r == Err::<Meta<Command>, Status>(Status::Reject) && *final(stream)
                    == *old(stream),
                Scan::Fatal => r is Err && r != Err::<Meta<Command>, Status>(Status::Reject),
            },
    {
        parse_meta_command(stream)
    }
}

impl Parse for Meta<SimpleCommand> {
    open spec fn spec_description() -> Seq<char> {
        "command"@
    }

    open spec fn rejects(s: Seq<char>) -> bool {
        scan_token(class_of(TokenKind::MetaSimpleCommand), s) is Reject
    }

    fn description() -> (d: &'static str) {
        "command"
    }

    fn parse(stream: &mut CharStream) -> (r: Parsed<Self>)
        ensures
            final(stream).wf(),
            is_suffix(final(stream).rest(), old(stream).rest()),
            match scan_token(class_of(TokenKind::MetaSimpleCommand), old(stream).rest()) {
                Scan::Token(t, n) => match meta_kind(t) {
                    MetaKind::All => then_ws(
                        r,
                        old(stream).rest().skip(n as int),
                        final(stream).rest(),
                        r matches Ok(Meta::All),
                    ),
                    MetaKind::Alias(a) => then_ws(
                        r,
                        old(stream).rest().skip(n as int),
                        final(stream).rest(),
                        r matches Ok(Meta::Alias(x)) && x@ == a,
                    ),
                    MetaKind::Only => match simple_command_check(t) {
                        Ok(src) => then_ws(
                            r,
                            old(stream).rest().skip(n as int),
                            final(stream).rest(),
                            r matches Ok(Meta::Only(c)) && c.source() == src,
                        ),
                        Err(m) => r matches Err(Status::Fatal(_, x)) && x@ == m,
                    },
                },
                Scan::Reject => r == Err::<Meta<SimpleCommand>, Status>(Status::Reject) && *final(stream) == *old(stream),
                Scan::Fatal => r is Err && r != Err::<Meta<SimpleCommand>, Status>(Status::Reject),
            },
    {
        parse_meta_simple_command(stream)
    }
}


// ---------------------------------------------------------------------------------------------
// Identifiers and user specifications
// ---------------------------------------------------------------------------------------------

impl Parse for Identifier {
    open spec fn spec_description() -> Seq<char> {
        "user or group"@
    }

    open spec fn rejects(s: Seq<char>) -> bool {
        !(s.len() > 0 && s[0] == '#') && scan_token(class_of(TokenKind::Username), s) is Reject
    }

    fn description() -> (d: &'static str) {
        "user or group"
    }

    /// `#` and a number, or a name. When no digit follows the `#`, that is an error, and
    /// only the `#` has been read.
    fn parse(stream: &mut CharStream) -> (r: Parsed<Self>)
        ensures
            old(stream).rest().len() > 0 && old(stream).rest()[0] == '#' && scan_token(
                class_of(TokenKind::Digits),
                old(stream).rest().drop_first(),
            ) is Reject ==> r is Err && final(stream).rest() == old(stream).rest().drop_first(),
    {
        let ghost s0 = stream.rest();
        if stream.eat_char('#') {
            proof {
                assert(s0.skip(1) =~= s0.drop_first());
                lemma_suffix_drop(s0, 1);
            }
            let ghost s1 = stream.rest();
            let begin = stream.get_pos();
            let r = match parse_digits(stream) {
                Err(Status::Reject) => Err(fatal_at(begin, stream, concat("expected ", Digits::description()))),
                r => r,
            };
            proof {
                lemma_suffix_trans(stream.rest(), s1, s0);
            }
            match r {
                Ok(Digits(n)) => Ok(Identifier::ID(n)),
                Err(e) => Err(e),
            }
        } else {
            match parse_username(stream) {
                Ok(Username(name)) => Ok(Identifier::Name(name)),
                Err(e) => Err(e),
            }
        }
    }
}

impl<T: Parse> Parse for Qualified<T> {
    open spec fn spec_description() -> Seq<char> {
        T::spec_description()
    }

    open spec fn rejects(s: Seq<char>) -> bool {
        !(s.len() > 0 && s[0] == '!') && T::rejects(s)
    }

    fn description() -> (d: &'static str) {
        T::description()
    }

    /// An item, after any number of `!`; an odd number of them negates it.
    fn parse(stream: &mut CharStream) -> (r: Parsed<Self>) {
        let ghost s0 = stream.rest();
        let first = match is_syntax('!', stream) {
            Ok(b) => b,
            Err(e) => {
                return Err(e);
            },
        };
        if first {
            let mut neg = true;
            loop
                invariant
                    stream.wf(),
                    s0 == old(stream).rest(),
                    is_suffix(stream.rest(), s0),
                    s0.len() > 0 && s0[0] == '!',
                decreases stream.rest().len(),
            {
                let ghost s1 = stream.rest();
                match is_syntax('!', stream) {
                    Ok(true) => {
                        neg = !neg;
                        proof {
                            lemma_after_ws(s1.drop_first());
                            lemma_suffix_trans(stream.rest(), s1, s0);
                        }
                    },
                    Ok(false) => {
                        break;
                    },
                    Err(e) => {
                        proof {
                            lemma_suffix_trans(stream.rest(), s1, s0);
                        }
                        return Err(e);
                    },
                }
            }
            let ghost s2 = stream.rest();
            let r = expect_nonterminal::<T>(stream);
            proof {
                lemma_suffix_trans(stream.rest(), s2, s0);
            }
            match r {
                Ok(x) => if neg {
                    Ok(Qualified::Forbid(x))
                } else {
                    Ok(Qualified::Allow(x))
                },
                Err(e) => Err(e),
            }
        } else {
            match T::parse(stream) {
                Ok(x) => Ok(Qualified::Allow(x)),
                Err(e) => Err(e),
            }
        }
    }
}

impl Parse for Meta<Identifier> {
    open spec fn spec_description() -> Seq<char> {
        "group"@
    }

    open spec fn rejects(s: Seq<char>) -> bool {
        scan_token(class_of(TokenKind::MetaUsername), s) is Reject && Identifier::rejects(s)
    }

    fn description() -> (d: &'static str) {
        "group"
    }

    fn parse(stream: &mut CharStream) -> (r: Parsed<Self>) {
        match parse_meta_username(stream) {
            Ok(Meta::All) => Ok(Meta::All),
            Ok(Meta::Alias(a)) => Ok(Meta::Alias(a)),
            Ok(Meta::Only(Username(name))) => Ok(Meta::Only(Identifier::Name(name))),
            Err(Status::Reject) => match Identifier::parse(stream) {
                Ok(x) => Ok(Meta::Only(x)),
                Err(e) => Err(e),
            },
            Err(e) => Err(e),
        }
    }
}

/// The text does not start a user, `%group` or `+netgroup`.
pub open spec fn user_rejects(s: Seq<char>) -> bool {
    !(s.len() > 0 && (s[0] == '%' || s[0] == '+')) && Identifier::rejects(s)
}

/// A user, `%group`, `%:group` (netgroups, `+name`, are refused).
fn parse_user(stream: &mut CharStream) -> (r: Parsed<UserSpecifier>)
    requires
        old(stream).wf(),
    ensures
        final(stream).wf(),
        is_suffix(final(stream).rest(), old(stream).rest()),
        rejected(r) ==> *final(stream) == *old(stream),
        rejected(r) <==> user_rejects(old(stream).rest()),
{
    let ghost s0 = stream.rest();
    if stream.eat_char('%') {
        proof {
            assert(s0.skip(1) =~= s0.drop_first());
            lemma_suffix_drop(s0, 1);
        }
        let ghost s1 = stream.rest();
        let nonunix = stream.eat_char(':');
        proof {
            if nonunix {
                assert(s1.skip(1) =~= s1.drop_first());
                lemma_suffix_drop(s1, 1);
                lemma_suffix_trans(stream.rest(), s1, s0);
            }
        }
        let ghost s2 = stream.rest();
        let r = expect_nonterminal::<Identifier>(stream);
        proof {
            lemma_suffix_trans(stream.rest(), s2, s0);
        }
        match r {
            Ok(id) => if nonunix {
                Ok(UserSpecifier::NonunixGroup(id))
            } else {
                Ok(UserSpecifier::Group(id))
            },
            Err(e) => Err(e),
        }
    } else if stream.eat_char('+') {
        proof {
            assert(s0.skip(1) =~= s0.drop_first());
            lemma_suffix_drop(s0, 1);
        }
        Err(fatal(stream, owned("netgroups are not supported yet")))
    } else {
        match Identifier::parse(stream) {
            Ok(id) => Ok(UserSpecifier::User(id)),
            Err(e) => Err(e),
        }
    }
}

impl Parse for UserSpecifier {
    open spec fn spec_description() -> Seq<char> {
        "user"@
    }

    open spec fn rejects(s: Seq<char>) -> bool {
        !(s.len() > 0 && s[0] == '"') && user_rejects(s)
    }

    fn description() -> (d: &'static str) {
        "user"
    }

    /// A user specification; between double quotes, the quoted text is read as one.
    fn parse(stream: &mut CharStream) -> (r: Parsed<Self>) {
        let ghost s0 = stream.rest();
        if stream.eat_char('"') {
            proof {
                assert(s0.skip(1) =~= s0.drop_first());
                lemma_suffix_drop(s0, 1);
            }
            let begin = stream.get_pos();
            let ghost s1 = stream.rest();
            let text = expect_nonterminal::<Unquoted>(stream);
            proof {
                lemma_suffix_trans(stream.rest(), s1, s0);
            }
            let text = match text {
                Ok(Unquoted(t)) => t,
                Err(e) => {
                    return Err(e);
                },
            };
            let chars = chars_of(text.as_str());
            let len = chars.len();
            if begin.0 > usize::MAX - len || begin.1 > usize::MAX - len || begin.1 < 1 {
                return Err(fatal(stream, owned("line too long")));
            }
            let mut inner = CharStream::from_chars(chars, begin);
            let result = match parse_user(&mut inner) {
                Ok(u) => u,
                Err(Status::Reject) => {
                    return Err(fatal_at(begin, stream, owned("expected user")));
                },
                Err(e) => {
                    return Err(e);
                },
            };
            let ghost s2 = stream.rest();
            let r = expect_syntax('"', stream);
            proof {
                lemma_suffix_trans(stream.rest(), s2, s0);
            }
            match r {
                Ok(()) => Ok(result),
                Err(e) => Err(e),
            }
        } else {
            parse_user(stream)
        }
    }
}

impl Parse for Meta<UserSpecifier> {
    open spec fn spec_description() -> Seq<char> {
        "user"@
    }

    open spec fn rejects(s: Seq<char>) -> bool {
        scan_token(class_of(TokenKind::MetaUsername), s) is Reject && UserSpecifier::rejects(s)
    }

    fn description() -> (d: &'static str) {
        "user"
    }

    fn parse(stream: &mut CharStream) -> (r: Parsed<Self>) {
        match parse_meta_username(stream) {
            Ok(Meta::All) => Ok(Meta::All),
            Ok(Meta::Alias(a)) => Ok(Meta::Alias(a)),
            Ok(Meta::Only(Username(name))) => Ok(
                Meta::Only(UserSpecifier::User(Identifier::Name(name))),
            ),
            Err(Status::Reject) => match UserSpecifier::parse(stream) {
                Ok(x) => Ok(Meta::Only(x)),
                Err(e) => Err(e),
            },
            Err(e) => Err(e),
        }
    }
}

/// The most items a list may hold.
pub const LIST_LIMIT: usize = 127;

impl Parse for RunAs {
    open spec fn spec_description() -> Seq<char> {
        "runas specification"@
    }

    open spec fn rejects(s: Seq<char>) -> bool {
        !(s.len() > 0 && s[0] == '(')
    }

    fn description() -> (d: &'static str) {
        "runas specification"
    }

    /// `(users)`, `(users : groups)`, `(: groups)`.
    fn parse(stream: &mut CharStream) -> (r: Parsed<Self>) {
        let ghost s0 = stream.rest();
        match try_syntax('(', stream) {
            Ok(()) => {},
            Err(e) => {
                return Err(e);
            },
        }
        let ghost s1 = stream.rest();
        let users = match parse_list::<Spec<UserSpecifier>>(',', LIST_LIMIT, stream) {
            Ok(v) => v,
            Err(_) => Vec::new(),
        };
        let ghost s2 = stream.rest();
        proof {
            lemma_suffix_trans(s2, s1, s0);
        }
        let groups = match try_syntax(':', stream) {
            Ok(()) => {
                let ghost s3 = stream.rest();
                let g = parse_list::<Spec<Identifier>>(',', LIST_LIMIT, stream);
                proof {
                    lemma_suffix_trans(s3, s2, s0);
                    lemma_suffix_trans(stream.rest(), s3, s0);
                }
                match g {
                    Ok(v) => v,
                    Err(Status::Reject) => Vec::new(),
                    Err(e) => {
                        return Err(e);
                    },
                }
            },
            Err(Status::Reject) => Vec::new(),
            Err(e) => {
                proof {
                    lemma_suffix_trans(stream.rest(), s2, s0);
                }
                return Err(e);
            },
        };
        let ghost s4 = stream.rest();
        let r = expect_syntax(')', stream);
        proof {
            lemma_suffix_trans(stream.rest(), s4, s0);
        }
        match r {
            Ok(()) => Ok(RunAs { users, groups }),
            Err(e) => Err(e),
        }
    }
}

/// An item that must be there, as a list of items separated by `sep`.
pub fn expect_list<T: Parse>(sep: char, stream: &mut CharStream) -> (r: Parsed<Vec<T>>)
    requires
        old(stream).wf(),
    ensures
        final(stream).wf(),
        is_suffix(final(stream).rest(), old(stream).rest()),
        !rejected(r),
        r matches Ok(v) ==> 1 <= v@.len() <= LIST_LIMIT,
{
    let begin = stream.get_pos();
    match parse_list::<T>(sep, LIST_LIMIT, stream) {
        Err(Status::Reject) => Err(fatal_at(begin, stream, concat("expected ", T::description()))),
        r => r,
    }
}


// ---------------------------------------------------------------------------------------------
// Commands and their tags
// ---------------------------------------------------------------------------------------------

fn is_word(k: &[char], w: &str) -> (b: bool)
    ensures
        b == (k@ == w@),
{
    chars_eq_str(k, w)
}

/// The error for a tag that sudo-rs does not support.
pub open spec fn unsupported_tag_message(k: Seq<char>) -> Option<Seq<char>> {
    if k == "INTERCEPT"@ || k == "CHROOT"@ || k == "TIMEOUT"@ || k == "NOTBEFORE"@ || k == "NOTAFTER"@ {
        Some(k + " is not supported by sudo-rs"@)
    } else if k == "ROLE"@ || k == "TYPE"@ {
        Some("SELinux role based access control is not yet supported by sudo-rs"@)
    } else {
        None
    }
}

/// The tags that sudo-rs knows.
pub open spec fn is_tag_keyword(k: Seq<char>) -> bool {
    ||| k == "EXEC"@ || k == "NOEXEC"@ || k == "SETENV"@ || k == "NOSETENV"@
    ||| k == "PASSWD"@ || k == "NOPASSWD"@ || k == "NOFOLLOW"@ || k == "NOINTERCEPT"@
    ||| k == "LOG_INPUT"@ || k == "NOLOG_INPUT"@ || k == "LOG_OUTPUT"@ || k == "NOLOG_OUTPUT"@
    ||| k == "MAIL"@ || k == "NOMAIL"@ || k == "FOLLOW"@ || k == "CWD"@ || k == "APPARMOR_PROFILE"@
}

/// A tag (`NOPASSWD:`, `CWD=dir`, ...), `ALL` or an alias name: where a command may start,
/// an upper case word is one of these. A tag that sudo-rs does not support is an error that
/// says so; `ALL` is `ALL`; another word that is no tag, and that no `=` follows, is an alias.
fn parse_meta_or_tag(stream: &mut CharStream) -> (r: Parsed<Meta<Modifier>>)
    requires
        old(stream).wf(),
    ensures
        final(stream).wf(),
        is_suffix(final(stream).rest(), old(stream).rest()),
        rejected(r) ==> *final(stream) == *old(stream),
        match scan_token(class_of(TokenKind::AliasName), old(stream).rest()) {
            Scan::Token(k, n) => match after_ws(old(stream).rest().skip(n as int)) {
                Some(rest) => {
                    &&& (unsupported_tag_message(k) matches Some(m) ==> (r matches Err(Status::Fatal(span, msg))
                        && msg@ == m && span.start == old(stream).pos()))
                    &&& (unsupported_tag_message(k) is None && k == "ALL"@ ==> r matches Ok(Meta::All))
                    &&& (unsupported_tag_message(k) is None && k != "ALL"@ && !is_tag_keyword(k) && !(
                    rest.len() > 0 && rest[0] == '=') ==> (r matches Ok(Meta::Alias(a)) && a@ == k))
                },
                None => true,
            },
            _ => true,
        },
{
    let ghost s0 = stream.rest();
    let start = stream.get_pos();
    let keyword = match parse_alias_name(stream) {
        Ok(AliasName(k)) => k,
        Err(e) => {
            return Err(e);
        },
    };
    let ghost s1 = stream.rest();
    let kc = chars_of(keyword.as_str());
    let k = kc.as_slice();
    if is_word(k, "INTERCEPT") || is_word(k, "CHROOT") || is_word(k, "TIMEOUT") || is_word(
        k,
        "NOTBEFORE",
    ) || is_word(k, "NOTAFTER") {
        let mut msg = copy_string(&keyword);
        msg.append(" is not supported by sudo-rs");
        return Err(fatal_at(start, stream, msg));
    }
    if is_word(k, "ROLE") || is_word(k, "TYPE") {
        return Err(
            fatal_at(
                start,
                stream,
                owned("SELinux role based access control is not yet supported by sudo-rs"),
            ),
        );
    }
    if is_word(k, "ALL") {
        return Ok(Meta::All);
    }
    let simple = if is_word(k, "EXEC") {
        Some(Modifier::Exec)
    } else if is_word(k, "NOEXEC") {
        Some(Modifier::Noexec)
    } else if is_word(k, "SETENV") {
        Some(Modifier::Setenv)
    } else if is_word(k, "NOSETENV") {
        Some(Modifier::Nosetenv)
    } else if is_word(k, "PASSWD") {
        Some(Modifier::Passwd)
    } else if is_word(k, "NOPASSWD") {
        Some(Modifier::Nopasswd)
    } else if is_word(k, "NOFOLLOW") || is_word(k, "NOINTERCEPT") {
        Some(Modifier::Nothing)
    } else if is_word(k, "LOG_INPUT") || is_word(k, "NOLOG_INPUT") || is_word(k, "LOG_OUTPUT")
        || is_word(k, "NOLOG_OUTPUT") || is_word(k, "MAIL") || is_word(k, "NOMAIL") || is_word(
        k,
        "FOLLOW",
    ) {
        Some(Modifier::Ignored(Span { start, end: stream.get_pos() }))
    } else {
        None
    };
    let result = match simple {
        Some(m) => {
            let r = expect_syntax(':', stream);
            proof {
                lemma_suffix_trans(stream.rest(), s1, s0);
            }
            match r {
                Ok(()) => m,
                Err(e) => {
                    return Err(e);
                },
            }
        },
        None => {
            if is_word(k, "CWD") {
                let r = expect_syntax('=', stream);
                proof {
                    lemma_suffix_trans(stream.rest(), s1, s0);
                }
                if let Err(e) = r {
                    return Err(e);
                }
                let ghost s2 = stream.rest();
                let path = expect_nonterminal::<ChDir>(stream);
                proof {
                    lemma_suffix_trans(stream.rest(), s2, s0);
                }
                match path {
                    Ok(p) => Modifier::Cwd(p),
                    Err(e) => {
                        return Err(e);
                    },
                }
            } else if is_word(k, "APPARMOR_PROFILE") {
                let r = expect_syntax('=', stream);
                proof {
                    lemma_suffix_trans(stream.rest(), s1, s0);
                }
                if let Err(e) = r {
                    return Err(e);
                }
                let ghost s2 = stream.rest();
                let profile = expect_nonterminal::<StringParameter>(stream);
                proof {
                    lemma_suffix_trans(stream.rest(), s2, s0);
                }
                match profile {
                    Ok(StringParameter(p)) => Modifier::ApparmorProfile(p),
                    Err(e) => {
                        return Err(e);
                    },
                }
            } else {
                let r = is_syntax('=', stream);
                proof {
                    lemma_suffix_trans(stream.rest(), s1, s0);
                }
                match r {
                    Ok(true) => {
                        let mut msg = owned("unsupported modifier '");
                        msg.append(keyword.as_str());
                        msg.append("'");
                        return Err(fatal_at(start, stream, msg));
                    },
                    Ok(false) => {
                        return Ok(Meta::Alias(keyword));
                    },
                    Err(e) => {
                        return Err(e);
                    },
                }
            }
        },
    };
    Ok(Meta::Only(result))
}

/// The most tags before one command.
pub const TAG_LIMIT: usize = 127;

impl Parse for CommandSpec {
    open spec fn spec_description() -> Seq<char> {
        "command"@
    }

    open spec fn rejects(s: Seq<char>) -> bool {
        false
    }

    fn description() -> (d: &'static str) {
        "command"
    }

    /// Tags, then a command; `ALL` and aliases may come right after the tags.
    fn parse(stream: &mut CharStream) -> (r: Parsed<Self>) {
        let ghost s0 = stream.rest();
        proof {
            lemma_suffix_refl(s0);
        }
        let mut tags: Vec<Modifier> = Vec::new();
        loop
            invariant
                stream.wf(),
                s0 == old(stream).rest(),
                is_suffix(stream.rest(), s0),
                tags@.len() <= TAG_LIMIT,
            decreases TAG_LIMIT - tags@.len(),
        {
            let ghost s1 = stream.rest();
            let r = parse_meta_or_tag(stream);
            proof {
                lemma_suffix_trans(stream.rest(), s1, s0);
            }
            match r {
                Ok(Meta::Only(m)) => {
                    if tags.len() >= TAG_LIMIT {
                        return Err(fatal(stream, owned("too many tags for command specifier")));
                    }
                    tags.push(m);
                },
                Ok(Meta::All) => {
                    return Ok(CommandSpec(tags, Qualified::Allow(Meta::All)));
                },
                Ok(Meta::Alias(name)) => {
                    return Ok(CommandSpec(tags, Qualified::Allow(Meta::Alias(name))));
                },
                Err(Status::Reject) => {
                    break;
                },
                Err(e) => {
                    return Err(e);
                },
            }
        }
        let ghost s2 = stream.rest();
        let cmd = expect_nonterminal::<Spec<Command>>(stream);
        proof {
            lemma_suffix_trans(stream.rest(), s2, s0);
        }
        match cmd {
            Ok(c) => Ok(CommandSpec(tags, c)),
            Err(e) => Err(e),
        }
    }
}

impl Parse for (Option<RunAs>, CommandSpec) {
    open spec fn spec_description() -> Seq<char> {
        "command"@
    }

    open spec fn rejects(s: Seq<char>) -> bool {
        false
    }

    fn description() -> (d: &'static str) {
        "command"
    }

    /// An optional runas specification, and a command.
    fn parse(stream: &mut CharStream) -> (r: Parsed<Self>) {
        let ghost s0 = stream.rest();
        let runas = match maybe_nonterminal::<RunAs>(stream) {
            Ok(r) => r,
            Err(e) => {
                return Err(e);
            },
        };
        let ghost s1 = stream.rest();
        let cmd = if runas.is_some() {
            expect_nonterminal::<CommandSpec>(stream)
        } else {
            CommandSpec::parse(stream)
        };
        proof {
            lemma_suffix_trans(stream.rest(), s1, s0);
        }
        match cmd {
            Ok(c) => Ok((runas, c)),
            Err(e) => Err(e),
        }
    }
}

impl Parse for (SpecList<Hostname>, Vec<(Option<RunAs>, CommandSpec)>) {
    open spec fn spec_description() -> Seq<char> {
        "host list"@
    }

    open spec fn rejects(s: Seq<char>) -> bool {
        Spec::<Hostname>::rejects(s)
    }

    fn description() -> (d: &'static str) {
        "host list"
    }

    /// `hosts = commands`.
    fn parse(stream: &mut CharStream) -> (r: Parsed<Self>) {
        let ghost s0 = stream.rest();
        let hosts = match parse_list::<Spec<Hostname>>(',', LIST_LIMIT, stream) {
            Ok(h) => h,
            Err(e) => {
                return Err(e);
            },
        };
        let ghost s1 = stream.rest();
        let r = expect_syntax('=', stream);
        proof {
            lemma_suffix_trans(stream.rest(), s1, s0);
        }
        if let Err(e) = r {
            return Err(e);
        }
        let ghost s2 = stream.rest();
        let cmds = expect_list::<(Option<RunAs>, CommandSpec)>(',', stream);
        proof {
            lemma_suffix_trans(stream.rest(), s2, s0);
        }
        match cmds {
            Ok(c) => Ok((hosts, c)),
            Err(e) => Err(e),
        }
    }
}


// ---------------------------------------------------------------------------------------------
// Aliases
// ---------------------------------------------------------------------------------------------

impl<T> Parse for Def<T> where Meta<T>: Parse {
    open spec fn spec_description() -> Seq<char> {
        "alias definition"@
    }

    open spec fn rejects(s: Seq<char>) -> bool {
        scan_token(class_of(TokenKind::AliasName), s) is Reject
    }

    fn description() -> (d: &'static str) {
        "alias definition"
    }

    /// `NAME = items`; `ALL` cannot be defined.
    fn parse(stream: &mut CharStream) -> (r: Parsed<Self>) {
        let ghost s0 = stream.rest();
        let begin = stream.get_pos();
        let name = match parse_alias_name(stream) {
            Ok(AliasName(n)) => n,
            Err(e) => {
                return Err(e);
            },
        };
        let ghost s1 = stream.rest();
        let nc = chars_of(name.as_str());
        if is_word(nc.as_slice(), "ALL") {
            return Err(
                fatal_at(begin, stream, owned("the reserved alias ALL cannot be redefined")),
            );
        }
        let r = expect_syntax('=', stream);
        proof {
            lemma_suffix_trans(stream.rest(), s1, s0);
        }
        if let Err(e) = r {
            return Err(e);
        }
        let ghost s2 = stream.rest();
        let items = expect_list::<Spec<T>>(',', stream);
        proof {
            lemma_suffix_trans(stream.rest(), s2, s0);
        }
        match items {
            Ok(v) => Ok(Def(name, v)),
            Err(e) => Err(e),
        }
    }
}

// ---------------------------------------------------------------------------------------------
// Settings
// ---------------------------------------------------------------------------------------------

/// The most names in one quoted list.
pub const VAR_LIMIT: usize = 127;

/// The rest of a double quoted list of names, after the names `acc` already read: names,
/// each maybe with `=value`, up to the closing quote; not empty, and at most `VAR_LIMIT`.
pub open spec fn quoted_vars(s: Seq<char>, acc: Seq<Seq<char>>) -> Outcome<Seq<Seq<char>>>
    decreases VAR_LIMIT + 1 - acc.len(),
{
    match lexed(TokenKind::EnvVar, s) {
        Outcome::Done(n, r1) => {
            let item: Option<(Seq<char>, Seq<char>)> = match syntax_outcome('=', r1) {
                Outcome::Done(true, r2) => match lexed(TokenKind::StringParameter, r2) {
                    Outcome::Done(v, r3) => Some((n + "="@ + v, r3)),
                    _ => None,
                },
                Outcome::Done(false, r2) => Some((n, r2)),
                _ => None,
            };
            match item {
                Some((x, r)) => if acc.len() + 1 > VAR_LIMIT {
                    Outcome::Fail
                } else {
                    quoted_vars(r, acc.push(x))
                },
                None => Outcome::Fail,
            }
        },
        Outcome::Reject => match expect_outcome('"', s) {
            Outcome::Done(_, t) => if acc.len() == 0 {
                Outcome::Fail
            } else {
                Outcome::Done(acc, t)
            },
            _ => Outcome::Fail,
        },
        Outcome::Fail => Outcome::Fail,
    }
}

/// The names for a set of names: a double quoted list, or one name without `=`.
pub open spec fn vars_outcome(s: Seq<char>) -> Outcome<Seq<Seq<char>>> {
    if s.len() > 0 && s[0] == '"' {
        quoted_vars(s.drop_first(), Seq::empty())
    } else {
        match lexed(TokenKind::EnvVar, s) {
            Outcome::Done(n, r1) => match syntax_outcome('=', r1) {
                Outcome::Done(false, r2) => Outcome::Done(seq![n], r2),
                _ => Outcome::Fail,
            },
            _ => Outcome::Fail,
        }
    }
}

/// The views of some strings.
pub open spec fn string_views(v: Seq<String>) -> Seq<Seq<char>> {
    v.map_values(|x: String| x@)
}

/// Names for a set of names: a double quoted list (where `NAME=value` is allowed) or one name.
fn parse_vars(stream: &mut CharStream) -> (r: Parsed<Vec<String>>)
    requires
        old(stream).wf(),
    ensures
        final(stream).wf(),
        is_suffix(final(stream).rest(), old(stream).rest()),
        !rejected(r),
        match vars_outcome(old(stream).rest()) {
            Outcome::Done(v, rest) => r matches Ok(x) && string_views(x@) == v && final(stream).rest() == rest,
            _ => r is Err,
        },
{
    let ghost s0 = stream.rest();
    if stream.eat_char('"') {
        proof {
            assert(s0.skip(1) =~= s0.drop_first());
            lemma_suffix_drop(s0, 1);
        }
        let ghost q = stream.rest();
        let mut result: Vec<String> = Vec::new();
        proof {
            assert(string_views(result@) =~= Seq::<Seq<char>>::empty());
        }
        loop
            invariant
                stream.wf(),
                s0 == old(stream).rest(),
                s0.len() > 0 && s0[0] == '"',
                q == s0.drop_first(),
                is_suffix(stream.rest(), s0),
                result@.len() <= VAR_LIMIT,
                quoted_vars(q, Seq::empty()) == quoted_vars(stream.rest(), string_views(result@)),
            ensures
                lexed(TokenKind::EnvVar, stream.rest()) is Reject,
            decreases VAR_LIMIT + 1 - result@.len(),
        {
            let ghost s1 = stream.rest();
            let ghost acc = string_views(result@);
            let name = parse_env_var(stream);
            proof {
                lemma_suffix_trans(stream.rest(), s1, s0);
            }
            match name {
                Ok(EnvVar(name)) => {
                    let ghost s2 = stream.rest();
                    let eq = is_syntax('=', stream);
                    proof {
                        lemma_suffix_trans(stream.rest(), s2, s0);
                    }
                    match eq {
                        Ok(true) => {
                            let ghost s3 = stream.rest();
                            let value = parse_string_parameter(stream);
                            proof {
                                lemma_suffix_trans(stream.rest(), s3, s0);
                            }
                            match value {
                                Ok(StringParameter(v)) => {
                                    let mut item = name;
                                    item.append("=");
                                    item.append(v.as_str());
                                    result.push(item);
                                },
                                Err(Status::Reject) => {
                                    proof {
                                        assert(lexed(TokenKind::EnvVar, s1) == Outcome::Done(name@, s2));
                                        assert(syntax_outcome('=', s2) == Outcome::<bool>::Done(true, s3));
                                        assert(lexed(TokenKind::StringParameter, s3) is Reject);
                                        assert(quoted_vars(s1, acc) is Fail);
                                    }
                                    return Err(fatal(stream, concat("expected ", StringParameter::description())));
                                },
                                Err(e) => {
                                    proof {
                                        assert(lexed(TokenKind::EnvVar, s1) == Outcome::Done(name@, s2));
                                        assert(syntax_outcome('=', s2) == Outcome::<bool>::Done(true, s3));
                                        assert(lexed(TokenKind::StringParameter, s3) is Fail);
                                        assert(quoted_vars(s1, acc) is Fail);
                                    }
                                    return Err(e);
                                },
                            }
                        },
                        Ok(false) => {
                            result.push(name);
                        },
                        Err(e) => {
                            return Err(e);
                        },
                    }
                    proof {
                        assert(string_views(result@) =~= acc.push(result@.last()@));
                    }
                    if result.len() > VAR_LIMIT {
                        return Err(fatal(stream, owned("environment variable list too long")));
                    }
                },
                Err(Status::Reject) => {
                    break;
                },
                Err(e) => {
                    return Err(e);
                },
            }
        }
        let ghost s4 = stream.rest();
        let r = expect_syntax('"', stream);
        proof {
            lemma_suffix_trans(stream.rest(), s4, s0);
        }
        if let Err(e) = r {
            return Err(e);
        }
        if result.len() == 0 {
            return Err(fatal(stream, owned("empty string not allowed")));
        }
        Ok(result)
    } else {
        let name = match parse_env_var(stream) {
            Ok(EnvVar(n)) => n,
            Err(Status::Reject) => {
                return Err(fatal(stream, concat("expected ", EnvVar::description())));
            },
            Err(e) => {
                return Err(e);
            },
        };
        let ghost s1 = stream.rest();
        let eq = is_syntax('=', stream);
        proof {
            lemma_suffix_trans(stream.rest(), s1, s0);
        }
        match eq {
            Ok(true) => Err(fatal(stream, owned("double quotes are required for VAR=value pairs"))),
            Ok(false) => {
                let mut v: Vec<String> = Vec::new();
                v.push(name);
                proof {
                    assert(string_views(v@) =~= seq![name@]);
                }
                Ok(v)
            },
            Err(e) => Err(e),
        }
    }
}

/// The text of a setting: double quoted, or not.
pub open spec fn text_outcome(s: Seq<char>) -> Outcome<Seq<char>> {
    if s.len() > 0 && s[0] == '"' {
        match lexed(TokenKind::QuotedStringParameter, s.drop_first()) {
            Outcome::Done(t, r1) => match expect_outcome('"', r1) {
                Outcome::Done(_, r2) => Outcome::Done(t, r2),
                _ => Outcome::Fail,
            },
            _ => Outcome::Fail,
        }
    } else {
        match lexed(TokenKind::StringParameter, s) {
            Outcome::Done(t, r) => Outcome::Done(t, r),
            _ => Outcome::Fail,
        }
    }
}

/// The text of a setting: double quoted, or not.
fn parse_text_item(stream: &mut CharStream) -> (r: Parsed<String>)
    requires
        old(stream).wf(),
    ensures
        final(stream).wf(),
        is_suffix(final(stream).rest(), old(stream).rest()),
        !rejected(r),
        match text_outcome(old(stream).rest()) {
            Outcome::Done(t, rest) => r matches Ok(x) && x@ == t && final(stream).rest() == rest,
            _ => r is Err,
        },
{
    let ghost s0 = stream.rest();
    if stream.eat_char('"') {
        proof {
            assert(s0.skip(1) =~= s0.drop_first());
            lemma_suffix_drop(s0, 1);
        }
        let ghost s1 = stream.rest();
        let text = parse_quoted_string_parameter(stream);
        proof {
            lemma_suffix_trans(stream.rest(), s1, s0);
        }
        let text = match text {
            Ok(QuotedStringParameter(t)) => t,
            Err(Status::Reject) => {
                return Err(fatal(stream, concat("expected ", QuotedStringParameter::description())));
            },
            Err(e) => {
                return Err(e);
            },
        };
        let ghost s2 = stream.rest();
        let r = expect_syntax('"', stream);
        proof {
            lemma_suffix_trans(stream.rest(), s2, s0);
        }
        match r {
            Ok(()) => Ok(text),
            Err(e) => Err(e),
        }
    } else {
        match parse_string_parameter(stream) {
            Ok(StringParameter(t)) => Ok(t),
            Err(Status::Reject) => Err(fatal(stream, concat("expected ", StringParameter::description()))),
            Err(e) => Err(e),
        }
    }
}

/// The value that a text denotes for a setting: `verifypw` takes one of `all`, `always`,
/// `any` and `never`; the other texts are taken as they are.
pub open spec fn text_value(setting: TextSetting, t: Seq<char>) -> bool {
    match setting {
        TextSetting::Verifypw => t == "all"@ || t == "always"@ || t == "any"@ || t == "never"@,
        _ => true,
    }
}

fn text_checker(setting: TextSetting, t: &String) -> (b: bool)
    ensures
        b == text_value(setting, t@),
{
    match setting {
        TextSetting::Verifypw => {
            let v = chars_of(t.as_str());
            is_word(v.as_slice(), "all") || is_word(v.as_slice(), "always") || is_word(
                v.as_slice(),
                "any",
            ) || is_word(v.as_slice(), "never")
        },
        _ => true,
    }
}

fn quoted_name_message(before: &str, name: &String, after: &str) -> (s: String)
    ensures
        s@ == before@ + name@ + after@,
{
    let mut s = owned(before);
    s.append(name.as_str());
    s.append(after);
    s
}

/// `=` and the names, for a list setting; `+=` and `-=` take the names after `=`.
pub open spec fn list_items_outcome(mode: ListMode, kind: SettingKind, s: Seq<char>) -> Outcome<SettingsModifierModel> {
    match expect_outcome('=', s) {
        Outcome::Done(_, r1) => match kind {
            SettingKind::List(l) => match vars_outcome(r1) {
                Outcome::Done(v, r2) => Outcome::Done(SettingsModifierModel::List(l, mode, v), r2),
                _ => Outcome::Fail,
            },
            _ => Outcome::Fail,
        },
        _ => Outcome::Fail,
    }
}

/// The value after `=` for a setting of the kind.
pub open spec fn value_outcome(kind: SettingKind, s: Seq<char>) -> Outcome<SettingsModifierModel> {
    match kind {
        SettingKind::Flag(_) => Outcome::Fail,
        SettingKind::Integer(i) => match lexed(TokenKind::Numeric, s) {
            Outcome::Done(d, r) => if d.len() > 18 {
                Outcome::Fail
            } else {
                match integer_value(i, d) {
                    Some(n) => Outcome::Done(SettingsModifierModel::Integer(i, n), r),
                    None => Outcome::Fail,
                }
            },
            _ => Outcome::Fail,
        },
        SettingKind::List(l) => match vars_outcome(s) {
            Outcome::Done(v, r) => Outcome::Done(SettingsModifierModel::List(l, ListMode::Replace, v), r),
            _ => Outcome::Fail,
        },
        SettingKind::Text(t) => match text_outcome(s) {
            Outcome::Done(v, r) => if text_value(t, v) {
                Outcome::Done(SettingsModifierModel::Text(t, Some(v)), r)
            } else {
                Outcome::Fail
            },
            _ => Outcome::Fail,
        },
    }
}

/// A setting of a `Defaults` line: `!name` (the negation of a setting that has one), `name`
/// (a flag turned on), `name += names`, `name -= names` (a list setting), or `name = value`
/// (the value that the setting takes). An unknown name, a bad value or a setting of the wrong
/// kind is an error; a text that does not start with a name or `!` is rejected.
pub open spec fn setting_outcome(s: Seq<char>) -> Outcome<SettingsModifierModel> {
    match syntax_outcome('!', s) {
        Outcome::Done(true, s1) => match lexed(TokenKind::DefaultName, s1) {
            Outcome::Done(n, r) => match setting_named(n) {
                Some(k) => match negation(k) {
                    Some(m) => Outcome::Done(m, r),
                    None => Outcome::Fail,
                },
                None => Outcome::Fail,
            },
            _ => Outcome::Fail,
        },
        Outcome::Done(false, _) => match lexed(TokenKind::DefaultName, s) {
            Outcome::Done(n, r) => match setting_named(n) {
                None => Outcome::Fail,
                Some(k) => match syntax_outcome('+', r) {
                    Outcome::Done(true, r2) => list_items_outcome(ListMode::Add, k, r2),
                    Outcome::Done(false, _) => match syntax_outcome('-', r) {
                        Outcome::Done(true, r2) => list_items_outcome(ListMode::Del, k, r2),
                        Outcome::Done(false, _) => match syntax_outcome('=', r) {
                            Outcome::Done(false, _) => match k {
                                SettingKind::Flag(f) => Outcome::Done(SettingsModifierModel::Flag(f, true), r),
                                _ => Outcome::Fail,
                            },
                            Outcome::Done(true, r3) => value_outcome(k, r3),
                            _ => Outcome::Fail,
                        },
                        _ => Outcome::Fail,
                    },
                    _ => Outcome::Fail,
                },
            },
            Outcome::Reject => Outcome::Reject,
            Outcome::Fail => Outcome::Fail,
        },
        _ => Outcome::Fail,
    }
}

/// `=`, then the names for a set of names.
fn parse_list_items(
    mode: ListMode,
    name: &String,
    kind: SettingKind,
    id_pos: (usize, usize),
    stream: &mut CharStream,
) -> (r: Parsed<SettingsModifier>)
    requires
        old(stream).wf(),
    ensures
        final(stream).wf(),
        is_suffix(final(stream).rest(), old(stream).rest()),
        !rejected(r),
        match list_items_outcome(mode, kind, old(stream).rest()) {
            Outcome::Done(m, rest) => r matches Ok(x) && x.model() == m && final(stream).rest() == rest,
            _ => r is Err,
        },
{
    let ghost s0 = stream.rest();
    let r = expect_syntax('=', stream);
    if let Err(e) = r {
        return Err(e);
    }
    let list = match kind {
        SettingKind::List(l) => l,
        _ => {
            return Err(
                fatal_at(id_pos, stream, quoted_name_message("", name, " is not a list parameter")),
            );
        },
    };
    let ghost s1 = stream.rest();
    let items = parse_vars(stream);
    proof {
        lemma_suffix_trans(stream.rest(), s1, s0);
    }
    match items {
        Ok(v) => Ok(SettingsModifier::List(list, mode, v)),
        Err(e) => Err(e),
    }
}

impl Parse for SettingsModifier {
    open spec fn spec_description() -> Seq<char> {
        "setting"@
    }

    open spec fn rejects(s: Seq<char>) -> bool {
        setting_outcome(s) is Reject
    }

    fn description() -> (d: &'static str) {
        "setting"
    }

    /// `name`, `!name`, `name = value`, `name += names`, `name -= names`; a text value must be
    /// one that the setting takes (`verifypw`: `all`, `always`, `any` or `never`). `!name` is
    /// the negation of a setting that has one (a flag turned off, `secure_path` unset,
    /// `verifypw` set to `never`, a list emptied); without `!`, a flag is turned on and a text
    /// setting gets a value.
    fn parse(stream: &mut CharStream) -> (r: Parsed<Self>)
        ensures
            match setting_outcome(old(stream).rest()) {
                Outcome::Done(m, rest) => r matches Ok(x) && x.model() == m && final(stream).rest() == rest,
                Outcome::Reject => r == Err::<SettingsModifier, Status>(Status::Reject),
                Outcome::Fail => r is Err && !rejected(r),
            },
    {
        let ghost s0 = stream.rest();
        let id_pos = stream.get_pos();
        let negated = match is_syntax('!', stream) {
            Ok(b) => b,
            Err(e) => {
                return Err(e);
            },
        };
        let ghost s1 = stream.rest();
        if negated {
            let value_pos = stream.get_pos();
            let name = parse_default_name(stream);
            proof {
                lemma_suffix_trans(stream.rest(), s1, s0);
            }
            let name = match name {
                Ok(DefaultName(n)) => n,
                Err(Status::Reject) => {
                    return Err(fatal_at(value_pos, stream, concat("expected ", DefaultName::description())));
                },
                Err(e) => {
                    return Err(e);
                },
            };
            match lookup_setting(name.as_str()) {
                Some(kind) => match negate(kind) {
                    Some(m) => {
                        proof {
                            assert(negation(kind) == Some(m.model()));
                        }
                        Ok(m)
                    },
                    None => Err(
                        fatal_at(
                            value_pos,
                            stream,
                            quoted_name_message("'", &name, "' cannot be used in a boolean context"),
                        ),
                    ),
                },
                None => Err(
                    fatal_at(value_pos, stream, quoted_name_message("unknown setting: '", &name, "'")),
                ),
            }
        } else {
            let name = match parse_default_name(stream) {
                Ok(DefaultName(n)) => n,
                Err(e) => {
                    return Err(e);
                },
            };
            let kind = match lookup_setting(name.as_str()) {
                Some(k) => k,
                None => {
                    return Err(
                        fatal_at(
                            id_pos,
                            stream,
                            quoted_name_message("unknown setting: '", &name, "'"),
                        ),
                    );
                },
            };
            let ghost s2 = stream.rest();
            let plus = is_syntax('+', stream);
            proof {
                lemma_suffix_trans(stream.rest(), s2, s0);
            }
            match plus {
                Ok(true) => {
                    let ghost s3 = stream.rest();
                    let r = parse_list_items(ListMode::Add, &name, kind, id_pos, stream);
                    proof {
                        lemma_suffix_trans(stream.rest(), s3, s0);
                    }
                    return r;
                },
                Ok(false) => {},
                Err(e) => {
                    return Err(e);
                },
            }
            let minus = is_syntax('-', stream);
            proof {
                lemma_suffix_trans(stream.rest(), s2, s0);
            }
            match minus {
                Ok(true) => {
                    let ghost s3 = stream.rest();
                    let r = parse_list_items(ListMode::Del, &name, kind, id_pos, stream);
                    proof {
                        lemma_suffix_trans(stream.rest(), s3, s0);
                    }
                    return r;
                },
                Ok(false) => {},
                Err(e) => {
                    return Err(e);
                },
            }
            let eq = is_syntax('=', stream);
            proof {
                lemma_suffix_trans(stream.rest(), s2, s0);
            }
            match eq {
                Ok(true) => {},
                Ok(false) => {
                    return match kind {
                        SettingKind::Flag(f) => Ok(SettingsModifier::Flag(f, true)),
                        _ => Err(
                            fatal_at(
                                id_pos,
                                stream,
                                quoted_name_message("'", &name, "' is not a boolean setting"),
                            ),
                        ),
                    };
                },
                Err(e) => {
                    return Err(e);
                },
            }
            let value_pos = stream.get_pos();
            let ghost s4 = stream.rest();
            proof {
                lemma_suffix_trans(s4, s2, s0);
            }
            match kind {
                SettingKind::Flag(_) => Err(
                    fatal(stream, quoted_name_message("can't assign to boolean setting '", &name, "'")),
                ),
                SettingKind::Integer(setting) => {
                    let denotation = parse_numeric(stream);
                    proof {
                        lemma_suffix_trans(stream.rest(), s4, s0);
                    }
                    let denotation = match denotation {
                        Ok(Numeric(d)) => d,
                        Err(Status::Reject) => {
                            return Err(fatal_at(value_pos, stream, concat("expected ", Numeric::description())));
                        },
                        Err(e) => {
                            return Err(e);
                        },
                    };
                    let dc = chars_of(denotation.as_str());
                    if dc.len() > 18 {
                        return Err(fatal_at(value_pos, stream, owned("number too long")));
                    }
                    match integer_checker(setting, denotation.as_str()) {
                        Some(n) => Ok(SettingsModifier::Integer(setting, n)),
                        None => {
                            let mut msg = quoted_name_message("'", &denotation, "' is not a valid value for ");
                            msg.append(name.as_str());
                            Err(fatal_at(value_pos, stream, msg))
                        },
                    }
                },
                SettingKind::List(l) => {
                    let items = parse_vars(stream);
                    proof {
                        lemma_suffix_trans(stream.rest(), s4, s0);
                    }
                    match items {
                        Ok(v) => Ok(SettingsModifier::List(l, ListMode::Replace, v)),
                        Err(e) => Err(e),
                    }
                },
                SettingKind::Text(setting) => {
                    let text = parse_text_item(stream);
                    proof {
                        lemma_suffix_trans(stream.rest(), s4, s0);
                    }
                    let text = match text {
                        Ok(t) => t,
                        Err(e) => {
                            return Err(e);
                        },
                    };
                    if text_checker(setting, &text) {
                        Ok(SettingsModifier::Text(setting, Some(text)))
                    } else {
                        let mut msg = quoted_name_message("'", &text, "' is not a valid value for ");
                        msg.append(name.as_str());
                        Err(fatal_at(value_pos, stream, msg))
                    }
                },
            }
        }
    }
}


// ---------------------------------------------------------------------------------------------
// Lines
// ---------------------------------------------------------------------------------------------

/// The scope of a `Defaults` line, and its settings; `keyword` is the word that starts with
/// `Defaults`, read from `begin`.
fn parse_defaults(keyword: &[char], begin: (usize, usize), stream: &mut CharStream) -> (r: Parsed<
    Directive,
>)
    requires
        old(stream).wf(),
        keyword@.len() >= 8,
    ensures
        final(stream).wf(),
        is_suffix(final(stream).rest(), old(stream).rest()),
        !rejected(r),
{
    let ghost s0 = stream.rest();
    proof {
        lemma_suffix_refl(s0);
    }
    let pos = stream.get_pos();
    // no space may separate `Defaults` from the character that gives the scope
    let allow_scope = pos.0 == begin.0 && ((pos.1 >= begin.1 && pos.1 - begin.1 == 8)
        || keyword.len() > 8);
    let scope = if allow_scope {
        if keyword.len() > 8 && keyword[8] == '@' {
            let host_text = crate::text::string_from_range(keyword, 9, keyword.len());
            let hosts = chars_of(host_text.as_str());
            let len = hosts.len();
            if begin.1 > usize::MAX - 9 || begin.0 > usize::MAX - len || begin.1 + 9 > usize::MAX
                - len || begin.1 < 1 {
                return Err(fatal(stream, owned("line too long")));
            }
            let mut inner = CharStream::from_chars(hosts, advance(begin, 9));
            match expect_list::<Spec<Hostname>>(',', &mut inner) {
                Ok(h) => ConfigScope::Host(h),
                Err(e) => {
                    return Err(e);
                },
            }
        } else {
            let colon = is_syntax(':', stream);
            proof {
                lemma_suffix_trans(stream.rest(), s0, s0);
            }
            if let Err(e) = colon {
                return Err(e);
            }
            let ghost s1 = stream.rest();
            if let Ok(true) = colon {
                let r = expect_list::<Spec<UserSpecifier>>(',', stream);
                proof {
                    lemma_suffix_trans(stream.rest(), s1, s0);
                }
                match r {
                    Ok(u) => ConfigScope::User(u),
                    Err(e) => {
                        return Err(e);
                    },
                }
            } else {
                let ghost sb = stream.rest();
                let bang = is_syntax('!', stream);
                proof {
                    lemma_suffix_trans(stream.rest(), sb, s0);
                }
                if let Err(e) = bang {
                    return Err(e);
                }
                let ghost s2 = stream.rest();
                if let Ok(true) = bang {
                    let r = expect_list::<Spec<SimpleCommand>>(',', stream);
                    proof {
                        lemma_suffix_trans(stream.rest(), s2, s0);
                    }
                    match r {
                        Ok(c) => ConfigScope::Command(c),
                        Err(e) => {
                            return Err(e);
                        },
                    }
                } else {
                    let ghost sg = stream.rest();
                    let gt = is_syntax('>', stream);
                    proof {
                        lemma_suffix_trans(stream.rest(), sg, s0);
                    }
                    if let Err(e) = gt {
                        return Err(e);
                    }
                    let ghost s3 = stream.rest();
                    if let Ok(true) = gt {
                        let r = expect_list::<Spec<UserSpecifier>>(',', stream);
                        proof {
                            lemma_suffix_trans(stream.rest(), s3, s0);
                        }
                        match r {
                            Ok(u) => ConfigScope::RunAs(u),
                            Err(e) => {
                                return Err(e);
                            },
                        }
                    } else {
                        ConfigScope::Generic
                    }
                }
            }
        }
    } else {
        ConfigScope::Generic
    };
    let ghost s4 = stream.rest();
    let settings = expect_list::<SettingsModifier>(',', stream);
    proof {
        lemma_suffix_trans(stream.rest(), s4, s0);
    }
    match settings {
        Ok(v) => Ok(Directive::Defaults(v, scope)),
        Err(e) => Err(e),
    }
}

/// The directive that a line starting with the user `perhaps_keyword` holds, if that user is
/// one of the keywords `User_Alias`, `Host_Alias`, `Cmnd_Alias` (or `Cmd_Alias`),
/// `Runas_Alias` or a word starting with `Defaults`.
fn get_directive(
    perhaps_keyword: &Spec<UserSpecifier>,
    stream: &mut CharStream,
    begin: (usize, usize),
) -> (r: Parsed<Directive>)
    requires
        old(stream).wf(),
    ensures
        final(stream).wf(),
        is_suffix(final(stream).rest(), old(stream).rest()),
        rejected(r) ==> *final(stream) == *old(stream),
{
    proof {
        lemma_suffix_refl(stream.rest());
    }
    let keyword = match perhaps_keyword {
        Qualified::Allow(Meta::Only(UserSpecifier::User(Identifier::Name(k)))) => k,
        _ => {
            return Err(Status::Reject);
        },
    };
    let kc = chars_of(keyword.as_str());
    let k = kc.as_slice();
    if is_word(k, "User_Alias") {
        match expect_list::<Def<UserSpecifier>>(':', stream) {
            Ok(d) => Ok(Directive::UserAlias(d)),
            Err(e) => Err(e),
        }
    } else if is_word(k, "Host_Alias") {
        match expect_list::<Def<Hostname>>(':', stream) {
            Ok(d) => Ok(Directive::HostAlias(d)),
            Err(e) => Err(e),
        }
    } else if is_word(k, "Cmnd_Alias") || is_word(k, "Cmd_Alias") {
        match expect_list::<Def<Command>>(':', stream) {
            Ok(d) => Ok(Directive::CmndAlias(d)),
            Err(e) => Err(e),
        }
    } else if is_word(k, "Runas_Alias") {
        match expect_list::<Def<UserSpecifier>>(':', stream) {
            Ok(d) => Ok(Directive::RunasAlias(d)),
            Err(e) => Err(e),
        }
    } else if starts_with_str(k, "Defaults") {
        proof {
            reveal_strlit("Defaults");
        }
        parse_defaults(k, begin, stream)
    } else {
        Err(Status::Reject)
    }
}

/// The path of an include line, double quoted or not; unquoted, it must end the line.
fn get_path(stream: &mut CharStream, key_pos: (usize, usize)) -> (r: Parsed<(String, Span)>)
    requires
        old(stream).wf(),
    ensures
        final(stream).wf(),
        is_suffix(final(stream).rest(), old(stream).rest()),
        !rejected(r),
        unquoted_path(old(stream).rest()) matches Some(p) ==> (r matches Ok(x) && x.0@ == p),
{
    let ghost s0 = stream.rest();
    let path = if stream.eat_char('"') {
        proof {
            assert(s0.skip(1) =~= s0.drop_first());
            lemma_suffix_drop(s0, 1);
        }
        let ghost s1 = stream.rest();
        let p = expect_nonterminal::<QuotedIncludePath>(stream);
        proof {
            lemma_suffix_trans(stream.rest(), s1, s0);
        }
        let p = match p {
            Ok(QuotedIncludePath(p)) => p,
            Err(e) => {
                return Err(e);
            },
        };
        let ghost s2 = stream.rest();
        let r = expect_syntax('"', stream);
        proof {
            lemma_suffix_trans(stream.rest(), s2, s0);
        }
        if let Err(e) = r {
            return Err(e);
        }
        p
    } else {
        let value_pos = stream.get_pos();
        let p = match parse_include_path(stream) {
            Ok(IncludePath(p)) => p,
            Err(Status::Reject) => {
                return Err(fatal_at(value_pos, stream, concat("expected ", IncludePath::description())));
            },
            Err(e) => {
                return Err(e);
            },
        };
        if stream.peek() != Some('\n') {
            return Err(
                fatal_at(
                    value_pos,
                    stream,
                    owned("use quotes around filenames or escape whitespace"),
                ),
            );
        }
        p
    };
    Ok((path, Span { start: key_pos, end: stream.get_pos() }))
}

/// A path without quotes at the start of the text, and the end of the line after it.
pub open spec fn unquoted_path(s: Seq<char>) -> Option<Seq<char>> {
    if s.len() > 0 && s[0] == '"' {
        None
    } else {
        match scan_token(class_of(TokenKind::IncludePath), s) {
            Scan::Token(p, m) => match after_ws(s.skip(m as int)) {
                Some(r) => if r.len() > 0 && r[0] == '\n' {
                    Some(p)
                } else {
                    None
                },
                None => None,
            },
            _ => None,
        }
    }
}

/// `include` or `includedir` (`true`), then a path without quotes, at the start of the text.
pub open spec fn include_directive(s: Seq<char>) -> Option<(bool, Seq<char>)> {
    match scan_token(class_of(TokenKind::Username), s) {
        Scan::Token(k, n) => if username_check(k) is Ok && (k == "include"@ || k == "includedir"@) {
            match after_ws(s.skip(n as int)) {
                Some(r) => match unquoted_path(r) {
                    Some(p) => Some((k == "includedir"@, p)),
                    None => None,
                },
                None => None,
            }
        } else {
            None
        },
        _ => None,
    }
}

/// The line starts with `#` and no digit: a comment, or an include.
pub open spec fn hash_directive(s: Seq<char>) -> bool {
    s.len() > 0 && s[0] == '#' && scan_token(class_of(TokenKind::Digits), s.drop_first()) is Reject
}

/// The line for the directive: `@include` or `@includedir` with the path.
pub open spec fn is_include_line(x: Sudo, dir: bool, p: Seq<char>) -> bool {
    if dir {
        x matches Sudo::IncludeDir(q, _) && q@ == p
    } else {
        x matches Sudo::Include(q, _) && q@ == p
    }
}

/// What follows `@` (or `#`): `include` or `includedir` and a path.
fn parse_include(stream: &mut CharStream) -> (r: Parsed<Sudo>)
    requires
        old(stream).wf(),
    ensures
        final(stream).wf(),
        is_suffix(final(stream).rest(), old(stream).rest()),
        !rejected(r),
        r matches Ok(x) ==> x is Include || x is IncludeDir,
        !(scan_token(class_of(TokenKind::Username), old(stream).rest()) matches Scan::Token(k, _) && (k
            == "include"@ || k == "includedir"@)) ==> r is Err,
        include_directive(old(stream).rest()) matches Some((dir, p)) ==> (r matches Ok(x) && is_include_line(
            x,
            dir,
            p,
        )),
{
    let ghost s0 = stream.rest();
    let key_pos = stream.get_pos();
    let key = match parse_username(stream) {
        Ok(Username(k)) => k,
        Err(Status::Reject) => {
            return Err(fatal_at(key_pos, stream, owned("unknown directive")));
        },
        Err(e) => {
            return Err(e);
        },
    };
    let kc = chars_of(key.as_str());
    let ghost s1 = stream.rest();
    proof {
        reveal_strlit("include");
        reveal_strlit("includedir");
        assert("include"@.len() != "includedir"@.len());
    }
    if is_word(kc.as_slice(), "include") {
        let r = get_path(stream, key_pos);
        proof {
            lemma_suffix_trans(stream.rest(), s1, s0);
        }
        match r {
            Ok((p, span)) => Ok(Sudo::Include(p, span)),
            Err(e) => Err(e),
        }
    } else if is_word(kc.as_slice(), "includedir") {
        let r = get_path(stream, key_pos);
        proof {
            lemma_suffix_trans(stream.rest(), s1, s0);
        }
        match r {
            Ok((p, span)) => Ok(Sudo::IncludeDir(p, span)),
            Err(e) => Err(e),
        }
    } else {
        Err(fatal_at(key_pos, stream, owned("unknown directive")))
    }
}

impl Parse for Sudo {
    open spec fn spec_description() -> Seq<char> {
        "sudoers line"@
    }

    open spec fn rejects(s: Seq<char>) -> bool {
        false
    }

    fn description() -> (d: &'static str) {
        "sudoers line"
    }

    /// A line: an include, a permission, an alias definition or `Defaults`; what is not one of
    /// these is left unread as a comment. A line that starts with `@` is an include (or an
    /// error), one that starts with `#` is a permission, an include or a comment, and one that
    /// starts with `"` is a permission (or an error); the line never is rejected.
    fn parse(stream: &mut CharStream) -> (r: Parsed<Sudo>)
        ensures
            !rejected(r),
            old(stream).rest().len() > 0 && old(stream).rest()[0] == '@' ==> (r matches Ok(x) ==> (x is Include
                || x is IncludeDir)),
            old(stream).rest().len() > 0 && old(stream).rest()[0] == '@' ==> (include_directive(
                old(stream).rest().drop_first(),
            ) matches Some((dir, p)) ==> (r matches Ok(x) && is_include_line(x, dir, p))),
            hash_directive(old(stream).rest()) ==> (include_directive(old(stream).rest().drop_first()) matches Some(
                (dir, p),
            ) ==> (r matches Ok(x) && is_include_line(x, dir, p))),
            hash_directive(old(stream).rest()) && !(scan_token(
                class_of(TokenKind::Username),
                old(stream).rest().drop_first(),
            ) matches Scan::Token(k, _) && (k == "include"@ || k == "includedir"@)) ==> r matches Ok(
                Sudo::LineComment,
            ),
            old(stream).rest().len() > 0 && old(stream).rest()[0] == '#' ==> (r matches Ok(x) ==> !(x is Decl)),
            old(stream).rest().len() > 0 && old(stream).rest()[0] == '"' ==> (r matches Ok(x) ==> x is Spec),
            !(old(stream).rest().len() > 0 && (old(stream).rest()[0] == '@' || old(stream).rest()[0] == '#'
                || old(stream).rest()[0] == '"')) ==> (r matches Ok(Sudo::LineComment) <==> Spec::<
                UserSpecifier,
            >::rejects(old(stream).rest())),
            !(old(stream).rest().len() > 0 && (old(stream).rest()[0] == '@' || old(stream).rest()[0] == '#'
                || old(stream).rest()[0] == '"')) ==> (r matches Ok(x) ==> x is Spec || x is Decl
                || x is LineComment),
    {
        let ghost s0 = stream.rest();
        if stream.eat_char('@') {
            proof {
                assert(s0.skip(1) =~= s0.drop_first());
                lemma_suffix_drop(s0, 1);
            }
            let ghost s1 = stream.rest();
            proof {
                assert(s1 == s0.drop_first());
            }
            let r = parse_include(stream);
            proof {
                lemma_suffix_trans(stream.rest(), s1, s0);
            }
            return r;
        }
        if stream.peek() == Some('#') {
            // `#` starts a user id, an include or a comment
            let id = Identifier::parse(stream);
            let ghost s1 = stream.rest();
            match id {
                Ok(ident) => {
                    let first_user = Qualified::Allow(Meta::Only(UserSpecifier::User(ident)));
                    let comma = is_syntax(',', stream);
                    proof {
                        lemma_suffix_trans(stream.rest(), s1, s0);
                    }
                    let ghost s2 = stream.rest();
                    let users = match comma {
                        Ok(true) => {
                            let rest = expect_list::<Spec<UserSpecifier>>(',', stream);
                            proof {
                                lemma_suffix_trans(stream.rest(), s2, s0);
                            }
                            match rest {
                                Ok(mut rest) => {
                                    rest.insert(0, first_user);
                                    rest
                                },
                                Err(e) => {
                                    return Err(e);
                                },
                            }
                        },
                        Ok(false) => {
                            let mut v: Vec<Spec<UserSpecifier>> = Vec::new();
                            v.push(first_user);
                            v
                        },
                        Err(e) => {
                            return Err(e);
                        },
                    };
                    let ghost s3 = stream.rest();
                    let permissions = expect_list::<
                        (SpecList<Hostname>, Vec<(Option<RunAs>, CommandSpec)>),
                    >(':', stream);
                    proof {
                        lemma_suffix_trans(stream.rest(), s3, s0);
                    }
                    match permissions {
                        Ok(permissions) => Ok(Sudo::Spec(PermissionSpec { users, permissions })),
                        Err(e) => Err(e),
                    }
                },
                Err(_) => {
                    let inc = parse_include(stream);
                    proof {
                        lemma_suffix_trans(stream.rest(), s1, s0);
                    }
                    match inc {
                        Ok(x) => Ok(x),
                        Err(_) => {
                            let ghost s2 = stream.rest();
                            stream.skip_to_newline();
                            proof {
                                lemma_suffix_drop(s2, s2.len() - stream.rest().len());
                                lemma_suffix_trans(stream.rest(), s2, s0);
                            }
                            Ok(Sudo::LineComment)
                        },
                    }
                },
            }
        } else if stream.peek() == Some('"') {
            // a quoted user list forces a permission line
            let users = expect_list::<Spec<UserSpecifier>>(',', stream);
            let ghost s1 = stream.rest();
            let users = match users {
                Ok(u) => u,
                Err(e) => {
                    return Err(e);
                },
            };
            let permissions = expect_list::<
                (SpecList<Hostname>, Vec<(Option<RunAs>, CommandSpec)>),
            >(':', stream);
            proof {
                lemma_suffix_trans(stream.rest(), s1, s0);
            }
            match permissions {
                Ok(permissions) => Ok(Sudo::Spec(PermissionSpec { users, permissions })),
                Err(e) => Err(e),
            }
        } else {
            let start_pos = stream.get_pos();
            let users = parse_list::<Spec<UserSpecifier>>(',', LIST_LIMIT, stream);
            let ghost s1 = stream.rest();
            match users {
                Ok(users) => {
                    // the first "user" may be a keyword that starts a directive
                    let directive = get_directive(&users[0], stream, start_pos);
                    proof {
                        lemma_suffix_trans(stream.rest(), s1, s0);
                    }
                    match directive {
                        Ok(d) => {
                            if users.len() != 1 {
                                return Err(
                                    fatal_at(start_pos, stream, owned("invalid user name list")),
                                );
                            }
                            Ok(Sudo::Decl(d))
                        },
                        Err(Status::Reject) => {
                            let permissions = expect_list::<
                                (SpecList<Hostname>, Vec<(Option<RunAs>, CommandSpec)>),
                            >(':', stream);
                            proof {
                                lemma_suffix_trans(stream.rest(), s1, s0);
                            }
                            match permissions {
                                Ok(permissions) => Ok(
                                    Sudo::Spec(PermissionSpec { users, permissions }),
                                ),
                                Err(e) => Err(e),
                            }
                        },
                        Err(e) => Err(e),
                    }
                },
                Err(Status::Reject) => Ok(Sudo::LineComment),
                Err(e) => Err(e),
            }
        }
    }
}


// ---------------------------------------------------------------------------------------------
// Files and strings
// ---------------------------------------------------------------------------------------------

/// The number of newlines in the text.
pub open spec fn newlines(s: Seq<char>) -> nat
    decreases s.len(),
{
    if s.len() == 0 {
        0
    } else {
        (if s[0] == '\n' {
            1nat
        } else {
            0nat
        }) + newlines(s.drop_first())
    }
}

proof fn lemma_newlines_suffix(a: Seq<char>, b: Seq<char>)
    requires
        is_suffix(a, b),
    ensures
        newlines(a) <= newlines(b),
    decreases b.len(),
{
    if a.len() < b.len() {
        assert(b.skip(b.len() - a.len()) =~= b.drop_first().skip(b.drop_first().len() - a.len()));
        lemma_newlines_suffix(a, b.drop_first());
    } else {
        assert(a =~= b);
    }
}

/// Parse every line of the input: the item on it, or the error that ended its parse (the rest
/// of such a line is skipped). An item takes at least one line, and a text that is not empty
/// gives at least one item.
pub fn parse_lines<T: Parse>(stream: &mut CharStream) -> (r: Vec<Parsed<T>>)
    requires
        old(stream).wf(),
    ensures
        final(stream).wf(),
        final(stream).rest().len() == 0,
        old(stream).rest().len() > 0 ==> r@.len() >= 1,
        r@.len() <= newlines(old(stream).rest()) + 1,
        old(stream).rest().len() > 0 ==> (r@[0] == Err::<T, Status>(Status::Reject) <==> T::rejects(
            old(stream).rest().skip(super::basic_parser::spaces(old(stream).rest()) as int),
        )),
{
    let mut result: Vec<Parsed<T>> = Vec::new();
    let ghost start = stream.rest();
    proof {
        lemma_suffix_refl(start);
    }
    while stream.peek().is_some()
        invariant
            stream.wf(),
            start == old(stream).rest(),
            result@.len() >= 1 || stream.rest() == start,
            result@.len() >= 1 ==> (result@[0] == Err::<T, Status>(Status::Reject) <==> T::rejects(
                start.skip(super::basic_parser::spaces(start) as int),
            )),
            is_suffix(stream.rest(), start),
            result@.len() + newlines(stream.rest()) <= newlines(start) + (if stream.rest().len() == 0 {
                1int
            } else {
                0int
            }),
        decreases stream.rest().len(),
    {
        let ghost s0 = stream.rest();
        super::basic_parser::skip_spaces(stream);
        let ghost s1 = stream.rest();
        proof {
            super::basic_parser::lemma_spaces(s0);
            lemma_suffix_drop(s0, super::basic_parser::spaces(s0));
        }
        let item = T::parse(stream);
        let ghost s2 = stream.rest();
        proof {
            lemma_suffix_trans(s2, s1, s0);
        }
        if item.is_ok() && stream.peek() == Some('#') {
            let ghost s3 = stream.rest();
            super::basic_parser::skip_line(stream);
            proof {
                super::basic_parser::lemma_line_len(s3);
                lemma_suffix_drop(s3, super::basic_parser::line_len(s3));
                lemma_suffix_trans(stream.rest(), s3, s0);
            }
        }
        proof {
            lemma_newlines_suffix(stream.rest(), s0);
        }
        let item = match item {
            Ok(x) => match stream.peek() {
                None => Ok(x),
                Some(c) => {
                    if c == '\n' {
                        let ghost s4 = stream.rest();
                        stream.bump();
                        proof {
                            assert(newlines(s4) == 1 + newlines(s4.drop_first()));
                            lemma_suffix_drop(s4, 1);
                            assert(s4.skip(1) =~= s4.drop_first());
                            lemma_suffix_trans(stream.rest(), s4, s0);
                        }
                        Ok(x)
                    } else {
                        let mut msg = owned("expecting end of line but found '");
                        push_char(&mut msg, c);
                        msg.append("'");
                        Err(fatal(stream, msg))
                    }
                },
            },
            Err(e) => Err(e),
        };
        let failed = item.is_err();
        result.push(item);
        if failed {
            let ghost s3 = stream.rest();
            super::basic_parser::skip_line(stream);
            let ghost s4 = stream.rest();
            proof {
                super::basic_parser::lemma_line_len(s3);
                lemma_suffix_drop(s3, super::basic_parser::line_len(s3));
                lemma_suffix_trans(s4, s3, s0);
                lemma_newlines_suffix(s4, s0);
            }
            stream.eat_char('\n');
            proof {
                if s4.len() > 0 {
                    assert(s4[0] == '\n');
                    assert(newlines(s4) == 1 + newlines(s4.drop_first()));
                    lemma_suffix_drop(s4, 1);
                    assert(s4.skip(1) =~= s4.drop_first());
                    lemma_suffix_trans(stream.rest(), s4, s0);
                } else {
                    lemma_suffix_refl(s4);
                    lemma_suffix_trans(stream.rest(), s4, s0);
                }
            }
        }
        proof {
            lemma_suffix_trans(stream.rest(), s0, start);
        }
    }
    result
}

/// Parse one item that must take the whole text.
pub fn parse_string<T: Parse>(text: &str) -> (r: Parsed<T>)
    requires
        text@.len() < usize::MAX,
    ensures
        !rejected(r),
        T::rejects(text@) ==> r is Err,
{
    let mut stream = CharStream::new(text);
    let result = match expect_nonterminal::<T>(&mut stream) {
        Ok(x) => x,
        Err(e) => {
            return Err(e);
        },
    };
    if stream.peek().is_some() {
        return Err(fatal(&stream, owned("garbage at end of input")));
    }
    Ok(result)
}

} // verus!
