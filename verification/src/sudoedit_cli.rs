//! The command line of the `sudoedit` program.

use vstd::prelude::*;
use crate::system::{parse_u32, parse_u32_exec};
use crate::text::{
    chars_eq_str, chars_of, concat, copy_string, find_char, lemma_find_char, owned, position_of,
    string_from_chars, string_from_range, trim, trim_from,
};

verus! {

pub open spec fn usage_text() -> Seq<char> {
    "usage: sudoedit -h | -V
usage: sudoedit [-ABkNnS] [-C num] [-D directory]
                [-g group] [-h host] [-p prompt] [-R directory] [-T timeout]
                [-u user] file ..."@
}

/// The usage lines.
pub fn usage_msg() -> (s: &'static str)
    ensures
        s@ == usage_text(),
{
    "usage: sudoedit -h | -V
usage: sudoedit [-ABkNnS] [-C num] [-D directory]
                [-g group] [-h host] [-p prompt] [-R directory] [-T timeout]
                [-u user] file ..."
}

pub open spec fn help_text() -> Seq<char> {
    usage_text() + "\n\nsudoedit - edit files as another user\n\nOptions:
  -A, --askpass                 use a helper program for password prompting
  -B, --bell                    ring bell when prompting
  -C, --close-from=num          close all file descriptors >= num
  -D, --chdir=directory         change the working directory before running
                                command
  -g, --group=group             run command as the specified group name or ID
  -h, --help                    display help message and exit
  -h, --host=host               run command on host (if supported by plugin)
  -k, --reset-timestamp         invalidate timestamp file
  -n, --non-interactive         non-interactive mode, no prompts are used
  -p, --prompt=prompt           use the specified password prompt
  -R, --chroot=directory        change the root directory before running command
  -S, --stdin                   read password from standard input
  -T, --command-timeout=timeout terminate command after the specified time limit
  -u, --user=user               run command (or edit file) as specified user
                                name or ID
  -V, --version                 display version information and exit
  --                            stop processing command line arguments"@
}

/// The usage lines, what the program does, and its options.
pub fn long_help_message() -> (s: String)
    ensures
        s@ == help_text(),
{
    concat(
        usage_msg(),
        "\n\nsudoedit - edit files as another user\n\nOptions:
  -A, --askpass                 use a helper program for password prompting
  -B, --bell                    ring bell when prompting
  -C, --close-from=num          close all file descriptors >= num
  -D, --chdir=directory         change the working directory before running
                                command
  -g, --group=group             run command as the specified group name or ID
  -h, --help                    display help message and exit
  -h, --host=host               run command on host (if supported by plugin)
  -k, --reset-timestamp         invalidate timestamp file
  -n, --non-interactive         non-interactive mode, no prompts are used
  -p, --prompt=prompt           use the specified password prompt
  -R, --chroot=directory        change the root directory before running command
  -S, --stdin                   read password from standard input
  -T, --command-timeout=timeout terminate command after the specified time limit
  -u, --user=user               run command (or edit file) as specified user
                                name or ID
  -V, --version                 display version information and exit
  --                            stop processing command line arguments",
    )
}

/// What `sudoedit` was asked to do.
#[derive(Clone, Copy, Debug, PartialEq, Eq, Structural)]
pub enum SudoEditAction {
    Help,
    Version,
    Run,
}

/// The options of `sudoedit`.
#[derive(Debug, PartialEq)]
pub struct SudoEditOptions {
    pub file: Option<String>,
    pub askpass: bool,
    pub bell: bool,
    pub close_from: Option<u32>,
    pub chdir: Option<String>,
    pub group: Option<String>,
    pub host: Option<String>,
    pub reset_timestamp: bool,
    pub non_interactive: bool,
    pub prompt: Option<String>,
    pub chroot: Option<String>,
    pub stdin: bool,
    pub command_timeout: Option<String>,
    pub user: Option<String>,
    pub action: SudoEditAction,
}

/// The options as values.
pub struct EditModel {
    pub file: Option<Seq<char>>,
    pub askpass: bool,
    pub bell: bool,
    pub close_from: Option<u32>,
    pub chdir: Option<Seq<char>>,
    pub group: Option<Seq<char>>,
    pub host: Option<Seq<char>>,
    pub reset_timestamp: bool,
    pub non_interactive: bool,
    pub prompt: Option<Seq<char>>,
    pub chroot: Option<Seq<char>>,
    pub stdin: bool,
    pub command_timeout: Option<Seq<char>>,
    pub user: Option<Seq<char>>,
    pub action: SudoEditAction,
}

pub open spec fn opt_view(o: Option<String>) -> Option<Seq<char>> {
    match o {
        Some(s) => Some(s@),
        None => None,
    }
}

impl SudoEditOptions {
    pub open spec fn model(&self) -> EditModel {
        EditModel {
            file: opt_view(self.file),
            askpass: self.askpass,
            bell: self.bell,
            close_from: self.close_from,
            chdir: opt_view(self.chdir),
            group: opt_view(self.group),
            host: opt_view(self.host),
            reset_timestamp: self.reset_timestamp,
            non_interactive: self.non_interactive,
            prompt: opt_view(self.prompt),
            chroot: opt_view(self.chroot),
            stdin: self.stdin,
            command_timeout: opt_view(self.command_timeout),
            user: opt_view(self.user),
            action: self.action,
        }
    }
}

/// Nothing set: run, with no file.
pub open spec fn edit_default() -> EditModel {
    EditModel {
        file: None,
        askpass: false,
        bell: false,
        close_from: None,
        chdir: None,
        group: None,
        host: None,
        reset_timestamp: false,
        non_interactive: false,
        prompt: None,
        chroot: None,
        stdin: false,
        command_timeout: None,
        user: None,
        action: SudoEditAction::Run,
    }
}

impl Default for SudoEditOptions {
    fn default() -> (o: SudoEditOptions)
        ensures
            o.model() == edit_default(),
    {
        SudoEditOptions {
            file: None,
            askpass: false,
            bell: false,
            close_from: None,
            chdir: None,
            group: None,
            host: None,
            reset_timestamp: false,
            non_interactive: false,
            prompt: None,
            chroot: None,
            stdin: false,
            command_timeout: None,
            user: None,
            action: SudoEditAction::Run,
        }
    }
}

/// The options that `sudoedit` knows.
#[derive(Clone, Copy, Debug, PartialEq, Eq, Structural)]
pub enum EditFlag {
    Askpass,
    Bell,
    CloseFrom,
    Chdir,
    Group,
    Help,
    ResetTimestamp,
    NonInteractive,
    Prompt,
    Chroot,
    Stdin,
    CommandTimeout,
    User,
    Version,
}

/// The option's long name.
pub open spec fn flag_long(f: EditFlag) -> Seq<char> {
    match f {
        EditFlag::Askpass => "askpass"@,
        EditFlag::Bell => "bell"@,
        EditFlag::CloseFrom => "close-from"@,
        EditFlag::Chdir => "chdir"@,
        EditFlag::Group => "group"@,
        EditFlag::Help => "help"@,
        EditFlag::ResetTimestamp => "reset-timestamp"@,
        EditFlag::NonInteractive => "non-interactive"@,
        EditFlag::Prompt => "prompt"@,
        EditFlag::Chroot => "chroot"@,
        EditFlag::Stdin => "stdin"@,
        EditFlag::CommandTimeout => "command-timeout"@,
        EditFlag::User => "user"@,
        EditFlag::Version => "version"@,
    }
}

/// Whether the option takes an argument.
pub open spec fn takes_argument(f: EditFlag) -> bool {
    match f {
        EditFlag::CloseFrom | EditFlag::Chdir | EditFlag::Group | EditFlag::Prompt
        | EditFlag::Chroot | EditFlag::CommandTimeout | EditFlag::User => true,
        _ => false,
    }
}

/// The option with this one-letter name.
pub open spec fn flag_of_short(c: char) -> Option<EditFlag> {
    if c == 'A' {
        Some(EditFlag::Askpass)
    } else if c == 'B' {
        Some(EditFlag::Bell)
    } else if c == 'C' {
        Some(EditFlag::CloseFrom)
    } else if c == 'D' {
        Some(EditFlag::Chdir)
    } else if c == 'g' {
        Some(EditFlag::Group)
    } else if c == 'h' {
        Some(EditFlag::Help)
    } else if c == 'k' {
        Some(EditFlag::ResetTimestamp)
    } else if c == 'n' {
        Some(EditFlag::NonInteractive)
    } else if c == 'p' {
        Some(EditFlag::Prompt)
    } else if c == 'R' {
        Some(EditFlag::Chroot)
    } else if c == 'S' {
        Some(EditFlag::Stdin)
    } else if c == 'T' {
        Some(EditFlag::CommandTimeout)
    } else if c == 'u' {
        Some(EditFlag::User)
    } else if c == 'V' {
        Some(EditFlag::Version)
    } else {
        None
    }
}

/// The option with this long name.
pub open spec fn flag_of_long(name: Seq<char>) -> Option<EditFlag> {
    if name == "askpass"@ {
        Some(EditFlag::Askpass)
    } else if name == "bell"@ {
        Some(EditFlag::Bell)
    } else if name == "close-from"@ {
        Some(EditFlag::CloseFrom)
    } else if name == "chdir"@ {
        Some(EditFlag::Chdir)
    } else if name == "group"@ {
        Some(EditFlag::Group)
    } else if name == "help"@ {
        Some(EditFlag::Help)
    } else if name == "reset-timestamp"@ {
        Some(EditFlag::ResetTimestamp)
    } else if name == "non-interactive"@ {
        Some(EditFlag::NonInteractive)
    } else if name == "prompt"@ {
        Some(EditFlag::Prompt)
    } else if name == "chroot"@ {
        Some(EditFlag::Chroot)
    } else if name == "stdin"@ {
        Some(EditFlag::Stdin)
    } else if name == "command-timeout"@ {
        Some(EditFlag::CommandTimeout)
    } else if name == "user"@ {
        Some(EditFlag::User)
    } else if name == "version"@ {
        Some(EditFlag::Version)
    } else {
        None
    }
}

/// What an option does to the options, given its argument when it has one; `Err` with the
/// message when an option that needs an argument has none, or `--close-from` gets no
/// number.
pub open spec fn set_flag(m: EditModel, f: EditFlag, arg: Option<Seq<char>>) -> Result<
    EditModel,
    Seq<char>,
> {
    match f {
        EditFlag::Askpass => Ok(EditModel { askpass: true, ..m }),
        EditFlag::Bell => Ok(EditModel { bell: true, ..m }),
        EditFlag::CloseFrom => match arg {
            None => Err("option requires an argument -- 'C/close-from'"@),
            Some(a) => match parse_u32(a) {
                Some(n) => Ok(EditModel { close_from: Some(n), ..m }),
                None => Err("option  for close-from"@),
            },
        },
        EditFlag::Chdir => match arg {
            None => Err("option requires an argument -- 'D/chdir'"@),
            Some(a) => Ok(EditModel { chdir: Some(a), ..m }),
        },
        EditFlag::Group => match arg {
            None => Err("option requires an argument -- 'g/group'"@),
            Some(a) => Ok(EditModel { group: Some(a), ..m }),
        },
        EditFlag::Help => Ok(EditModel { action: SudoEditAction::Help, ..m }),
        EditFlag::ResetTimestamp => Ok(EditModel { reset_timestamp: true, ..m }),
        EditFlag::NonInteractive => Ok(EditModel { non_interactive: true, ..m }),
        EditFlag::Prompt => match arg {
            None => Err("option requires an argument -- 'p/prompt'"@),
            Some(a) => Ok(EditModel { prompt: Some(a), ..m }),
        },
        EditFlag::Chroot => match arg {
            None => Err("option requires an argument -- 'R/chroot'"@),
            Some(a) => Ok(EditModel { chroot: Some(a), ..m }),
        },
        EditFlag::Stdin => Ok(EditModel { stdin: true, ..m }),
        EditFlag::CommandTimeout => match arg {
            None => Err("option requires an argument -- 'T/command-timeout'"@),
            Some(a) => Ok(EditModel { command_timeout: Some(a), ..m }),
        },
        EditFlag::User => match arg {
            None => Err("option requires an argument -- 'u/user'"@),
            Some(a) => Ok(EditModel { user: Some(a), ..m }),
        },
        EditFlag::Version => Ok(EditModel { action: SudoEditAction::Version, ..m }),
    }
}

/// A group of one-letter options (`-kn`, `-uroot`): each option in turn; the first one that
/// takes an argument takes the rest of the group, trimmed, or when that is empty the next
/// command line argument, and ends the group. Also gives the arguments that are left.
pub open spec fn short_group(m: EditModel, chars: Seq<char>, rest: Seq<Seq<char>>) -> (
    Result<EditModel, Seq<char>>,
    Seq<Seq<char>>,
)
    decreases chars.len(),
{
    if chars.len() == 0 {
        (Ok(m), rest)
    } else {
        match flag_of_short(chars[0]) {
            None => (Err("unrecognized option '"@ + seq![chars[0]] + "'"@), rest),
            Some(f) => if takes_argument(f) {
                let r = trim(chars.drop_first());
                if r.len() > 0 {
                    (set_flag(m, f, Some(r)), rest)
                } else if rest.len() > 0 {
                    (set_flag(m, f, Some(rest[0])), rest.drop_first())
                } else {
                    (set_flag(m, f, None), rest)
                }
            } else {
                match set_flag(m, f, None) {
                    Ok(m2) => short_group(m2, chars.drop_first(), rest),
                    Err(e) => (Err(e), rest),
                }
            },
        }
    }
}

pub proof fn lemma_short_group_rest(m: EditModel, chars: Seq<char>, rest: Seq<Seq<char>>)
    ensures
        short_group(m, chars, rest).1.len() <= rest.len(),
    decreases chars.len(),
{
    if chars.len() > 0 {
        if let Some(f) = flag_of_short(chars[0]) {
            if !takes_argument(f) {
                if let Ok(m2) = set_flag(m, f, None) {
                    lemma_short_group_rest(m2, chars.drop_first(), rest);
                }
            }
        }
    }
}

/// The options that the arguments give, starting from `m`: `--name=value`, `--name` (with
/// the next argument as its value when it takes one), groups of one-letter options, and the
/// first argument that is not an option as the file; or the message of the first error.
#[verifier::opaque]
pub open spec fn parse_from(m: EditModel, args: Seq<Seq<char>>) -> Result<EditModel, Seq<char>>
    decreases args.len(),
{
    if args.len() == 0 {
        Ok(m)
    } else {
        let a = args[0];
        let rest = args.drop_first();
        if a.len() >= 2 && a[0] == '-' && a[1] == '-' {
            let body = a.skip(2);
            match find_char(body, '=') {
                Some(i) => match flag_of_long(body.take(i)) {
                    Some(f) => if takes_argument(f) {
                        match set_flag(m, f, Some(body.skip(i + 1))) {
                            Ok(m2) => parse_from(m2, rest),
                            Err(e) => Err(e),
                        }
                    } else {
                        Err("'--"@ + flag_long(f) + "' does not take any arguments"@)
                    },
                    None => Err("unrecognized option '"@ + body + "'"@),
                },
                None => match flag_of_long(body) {
                    Some(f) => if takes_argument(f) && rest.len() > 0 {
                        match set_flag(m, f, Some(rest[0])) {
                            Ok(m2) => parse_from(m2, rest.drop_first()),
                            Err(e) => Err(e),
                        }
                    } else {
                        match set_flag(m, f, None) {
                            Ok(m2) => parse_from(m2, rest),
                            Err(e) => Err(e),
                        }
                    },
                    None => Err("unrecognized option '"@ + body + "'"@),
                },
            }
        } else if a.len() >= 1 && a[0] == '-' {
            proof {
                lemma_short_group_rest(m, a.skip(1), rest);
            }
            let (r, rest2) = short_group(m, a.skip(1), rest);
            match r {
                Ok(m2) => parse_from(m2, rest2),
                Err(e) => Err(e),
            }
        } else if m.file is None {
            parse_from(EditModel { file: Some(a), ..m }, rest)
        } else {
            parse_from(m, rest)
        }
    }
}

fn flag_of_short_exec(c: char) -> (r: Option<EditFlag>)
    ensures
        r == flag_of_short(c),
{
    match c {
        'A' => Some(EditFlag::Askpass),
        'B' => Some(EditFlag::Bell),
        'C' => Some(EditFlag::CloseFrom),
        'D' => Some(EditFlag::Chdir),
        'g' => Some(EditFlag::Group),
        'h' => Some(EditFlag::Help),
        'k' => Some(EditFlag::ResetTimestamp),
        'n' => Some(EditFlag::NonInteractive),
        'p' => Some(EditFlag::Prompt),
        'R' => Some(EditFlag::Chroot),
        'S' => Some(EditFlag::Stdin),
        'T' => Some(EditFlag::CommandTimeout),
        'u' => Some(EditFlag::User),
        'V' => Some(EditFlag::Version),
        _ => None,
    }
}

fn flag_of_long_exec(name: &[char]) -> (r: Option<EditFlag>)
    ensures
        r == flag_of_long(name@),
{
    if chars_eq_str(name, "askpass") {
        Some(EditFlag::Askpass)
    } else if chars_eq_str(name, "bell") {
        Some(EditFlag::Bell)
    } else if chars_eq_str(name, "close-from") {
        Some(EditFlag::CloseFrom)
    } else if chars_eq_str(name, "chdir") {
        Some(EditFlag::Chdir)
    } else if chars_eq_str(name, "group") {
        Some(EditFlag::Group)
    } else if chars_eq_str(name, "help") {
        Some(EditFlag::Help)
    } else if chars_eq_str(name, "reset-timestamp") {
        Some(EditFlag::ResetTimestamp)
    } else if chars_eq_str(name, "non-interactive") {
        Some(EditFlag::NonInteractive)
    } else if chars_eq_str(name, "prompt") {
        Some(EditFlag::Prompt)
    } else if chars_eq_str(name, "chroot") {
        Some(EditFlag::Chroot)
    } else if chars_eq_str(name, "stdin") {
        Some(EditFlag::Stdin)
    } else if chars_eq_str(name, "command-timeout") {
        Some(EditFlag::CommandTimeout)
    } else if chars_eq_str(name, "user") {
        Some(EditFlag::User)
    } else if chars_eq_str(name, "version") {
        Some(EditFlag::Version)
    } else {
        None
    }
}

fn takes_argument_exec(f: EditFlag) -> (b: bool)
    ensures
        b == takes_argument(f),
{
    match f {
        EditFlag::CloseFrom | EditFlag::Chdir | EditFlag::Group | EditFlag::Prompt
        | EditFlag::Chroot | EditFlag::CommandTimeout | EditFlag::User => true,
        _ => false,
    }
}

fn flag_long_exec(f: EditFlag) -> (s: &'static str)
    ensures
        s@ == flag_long(f),
{
    match f {
        EditFlag::Askpass => "askpass",
        EditFlag::Bell => "bell",
        EditFlag::CloseFrom => "close-from",
        EditFlag::Chdir => "chdir",
        EditFlag::Group => "group",
        EditFlag::Help => "help",
        EditFlag::ResetTimestamp => "reset-timestamp",
        EditFlag::NonInteractive => "non-interactive",
        EditFlag::Prompt => "prompt",
        EditFlag::Chroot => "chroot",
        EditFlag::Stdin => "stdin",
        EditFlag::CommandTimeout => "command-timeout",
        EditFlag::User => "user",
        EditFlag::Version => "version",
    }
}

impl SudoEditOptions {
    /// Apply one option: see `set_flag`.
    fn set(&mut self, f: EditFlag, arg: Option<String>) -> (r: Result<(), String>)
        ensures
            match set_flag(old(self).model(), f, opt_view(arg)) {
                Ok(m) => r is Ok && final(self).model() == m,
                Err(e) => r matches Err(msg) && msg@ == e,
            },
    {
        match f {
            EditFlag::Askpass => {
                self.askpass = true;
                Ok(())
            },
            EditFlag::Bell => {
                self.bell = true;
                Ok(())
            },
            EditFlag::CloseFrom => match arg {
                None => Err(owned("option requires an argument -- 'C/close-from'")),
                Some(a) => match parse_u32_exec(&chars_of(a.as_str())) {
                    Some(n) => {
                        self.close_from = Some(n);
                        Ok(())
                    },
                    None => Err(owned("option  for close-from")),
                },
            },
            EditFlag::Chdir => match arg {
                None => Err(owned("option requires an argument -- 'D/chdir'")),
                Some(a) => {
                    self.chdir = Some(a);
                    Ok(())
                },
            },
            EditFlag::Group => match arg {
                None => Err(owned("option requires an argument -- 'g/group'")),
                Some(a) => {
                    self.group = Some(a);
                    Ok(())
                },
            },
            EditFlag::Help => {
                self.action = SudoEditAction::Help;
                Ok(())
            },
            EditFlag::ResetTimestamp => {
                self.reset_timestamp = true;
                Ok(())
            },
            EditFlag::NonInteractive => {
                self.non_interactive = true;
                Ok(())
            },
            EditFlag::Prompt => match arg {
                None => Err(owned("option requires an argument -- 'p/prompt'")),
                Some(a) => {
                    self.prompt = Some(a);
                    Ok(())
                },
            },
            EditFlag::Chroot => match arg {
                None => Err(owned("option requires an argument -- 'R/chroot'")),
                Some(a) => {
                    self.chroot = Some(a);
                    Ok(())
                },
            },
            EditFlag::Stdin => {
                self.stdin = true;
                Ok(())
            },
            EditFlag::CommandTimeout => match arg {
                None => Err(owned("option requires an argument -- 'T/command-timeout'")),
                Some(a) => {
                    self.command_timeout = Some(a);
                    Ok(())
                },
            },
            EditFlag::User => match arg {
                None => Err(owned("option requires an argument -- 'u/user'")),
                Some(a) => {
                    self.user = Some(a);
                    Ok(())
                },
            },
            EditFlag::Version => {
                self.action = SudoEditAction::Version;
                Ok(())
            },
        }
    }
}

pub open spec fn views(v: Seq<String>) -> Seq<Seq<char>> {
    v.map_values(|s: String| s@)
}

/// The command line without the program's name.
pub open spec fn after_program(args: Seq<Seq<char>>) -> Seq<Seq<char>> {
    if args.len() == 0 {
        args
    } else {
        args.drop_first()
    }
}

fn concat3(a: &str, b: &str, c: &str) -> (s: String)
    ensures
        s@ == a@ + b@ + c@,
{
    let mut s = concat(a, b);
    s.append(c);
    s
}

/// One argument that starts with `--`: see `parse_from`. Gives how many arguments were used.
fn long_option(
    options: &mut SudoEditOptions,
    body: &Vec<char>,
    next: Option<&String>,
    Ghost(more): Ghost<Seq<Seq<char>>>,
) -> (r: Result<usize, String>)
    requires
        next is None ==> more.len() == 0,
    ensures
        ({
            let rest: Seq<Seq<char>> = match next {
                Some(n) => seq![n@],
                None => Seq::empty(),
            };
            let args = seq![seq!['-', '-'] + body@] + rest + more;
            let m = old(options).model();
            match r {
                Ok(used) => (used == 1 || (used == 2 && next is Some)) && parse_from(m, args)
                    == parse_from(final(options).model(), args.skip(used as int)),
                Err(msg) => parse_from(m, args) == Err::<EditModel, Seq<char>>(msg@),
            }
        }),
{
    let ghost rest: Seq<Seq<char>> = match next {
        Some(n) => seq![n@],
        None => Seq::empty(),
    };
    let ghost a = seq!['-', '-'] + body@;
    let ghost args = seq![a] + rest + more;
    proof {
        reveal(parse_from);
        assert(args[0] == a);
        assert(args.drop_first() =~= rest + more);
        assert(a.skip(2) =~= body@);
        assert(args.skip(1) =~= rest + more);
        lemma_find_char(body@, '=');
    }
    match position_of(body.as_slice(), '=') {
        Some(k) => {
            proof {
                assert(find_char(body@, '=') == Some(k as int));
                assert(k < body@.len());
                assert(k < body.len());
            }
            let key = string_from_range(body.as_slice(), 0, k);
            let key_chars = chars_of(key.as_str());
            proof {
                assert(key_chars@ =~= body@.take(k as int));
            }
            match flag_of_long_exec(key_chars.as_slice()) {
                Some(f) => {
                    if takes_argument_exec(f) {
                        let value = string_from_range(body.as_slice(), k + 1, body.len());
                        proof {
                            assert(value@ =~= body@.skip(k + 1));
                        }
                        match options.set(f, Some(value)) {
                            Ok(()) => Ok(1),
                            Err(e) => Err(e),
                        }
                    } else {
                        Err(concat3("'--", flag_long_exec(f), "' does not take any arguments"))
                    }
                },
                None => {
                    let text = string_from_chars(body.as_slice());
                    Err(concat3("unrecognized option '", text.as_str(), "'"))
                },
            }
        },
        None => match flag_of_long_exec(body.as_slice()) {
            Some(f) => {
                if takes_argument_exec(f) && next.is_some() {
                    let value = match next {
                        Some(n) => copy_string(n),
                        None => String::new(),
                    };
                    proof {
                        assert((rest + more)[0] == rest[0]);
                        assert((rest + more).drop_first() =~= args.skip(2));
                    }
                    match options.set(f, Some(value)) {
                        Ok(()) => Ok(2),
                        Err(e) => Err(e),
                    }
                } else {
                    match options.set(f, None) {
                        Ok(()) => Ok(1),
                        Err(e) => Err(e),
                    }
                }
            },
            None => {
                let text = string_from_chars(body.as_slice());
                Err(concat3("unrecognized option '", text.as_str(), "'"))
            },
        },
    }
}

/// One argument that is a group of one-letter options: see `parse_from`. Gives how many
/// arguments were used.
fn short_options(
    options: &mut SudoEditOptions,
    chars: &Vec<char>,
    next: Option<&String>,
    Ghost(more): Ghost<Seq<Seq<char>>>,
) -> (r: Result<usize, String>)
    requires
        next is None ==> more.len() == 0,
        chars@.len() >= 1,
        chars@[0] == '-',
        !(chars@.len() >= 2 && chars@[1] == '-'),
    ensures
        ({
            let rest: Seq<Seq<char>> = match next {
                Some(n) => seq![n@],
                None => Seq::empty(),
            };
            let args = seq![chars@] + rest + more;
            let m = old(options).model();
            match r {
                Ok(used) => (used == 1 || (used == 2 && next is Some)) && parse_from(m, args)
                    == parse_from(final(options).model(), args.skip(used as int)),
                Err(msg) => parse_from(m, args) == Err::<EditModel, Seq<char>>(msg@),
            }
        }),
{
    let ghost rest: Seq<Seq<char>> = match next {
        Some(n) => seq![n@],
        None => Seq::empty(),
    };
    let ghost args = seq![chars@] + rest + more;
    let ghost m0 = options.model();
    let ghost goal = short_group(m0, chars@.skip(1), rest + more);
    proof {
        lemma_parse_short(m0, args);
        assert(args[0] == chars@);
        assert(args.drop_first() =~= rest + more);
        assert(args.skip(1) =~= rest + more);
        assert(rest.len() > 0 ==> (rest + more)[0] == rest[0]);
        assert(rest.len() > 0 ==> (rest + more).drop_first() =~= args.skip(2));
        assert(rest.len() == 0 ==> rest + more =~= Seq::<Seq<char>>::empty());
    }
    let mut n: usize = 1;
    while n < chars.len()
        invariant
            1 <= n <= chars@.len(),
            short_group(options.model(), chars@.skip(n as int), rest + more) == goal,
            goal == short_group(m0, chars@.skip(1), rest + more),
            m0 == old(options).model(),
            parse_from(m0, args) == (match goal.0 {
                Ok(m2) => parse_from(m2, goal.1),
                Err(e) => Err(e),
            }),
            args == seq![chars@] + rest + more,
            rest == (match next {
                Some(v) => seq![v@],
                None => Seq::<Seq<char>>::empty(),
            }),
            next is None ==> more.len() == 0,
            chars@[0] == '-',
            !(chars@.len() >= 2 && chars@[1] == '-'),
            args[0] == chars@,
            args.drop_first() == rest + more,
            rest.len() > 0 ==> (rest + more)[0] == rest[0],
            rest.len() > 0 ==> (rest + more).drop_first() == args.skip(2),
            rest.len() == 0 ==> rest + more == Seq::<Seq<char>>::empty(),
        decreases chars.len() - n,
    {
        let c = chars[n];
        proof {
            assert(chars@.skip(n as int)[0] == c);
            assert(chars@.skip(n as int).drop_first() =~= chars@.skip(n + 1));
        }
        match flag_of_short_exec(c) {
            None => {
                let mut msg = owned("unrecognized option '");
                crate::text::push_char(&mut msg, c);
                msg.append("'");
                proof {
                    assert(msg@ =~= "unrecognized option '"@ + seq![c] + "'"@);
                }
                return Err(msg);
            },
            Some(f) => {
                if takes_argument_exec(f) {
                    let trimmed = trim_from(chars.as_slice(), n + 1);
                    if !trimmed.as_str().is_empty() {
                        return match options.set(f, Some(trimmed)) {
                            Ok(()) => Ok(1),
                            Err(e) => Err(e),
                        };
                    }
                    proof {
                        assert(trimmed@.len() == 0);
                    }
                    match next {
                        Some(v) => {
                            let value = copy_string(v);
                            return match options.set(f, Some(value)) {
                                Ok(()) => Ok(2),
                                Err(e) => Err(e),
                            };
                        },
                        None => {
                            return match options.set(f, None) {
                                Ok(()) => Ok(1),
                                Err(e) => Err(e),
                            };
                        },
                    }
                } else {
                    match options.set(f, None) {
                        Ok(()) => {},
                        Err(e) => {
                            return Err(e);
                        },
                    }
                }
            },
        }
        n += 1;
    }
    Ok(1)
}

/// The argument at `i`, and the next one when that is its value: see `parse_from`. Gives
/// how many arguments were used.
fn one_argument(options: &mut SudoEditOptions, arguments: &Vec<String>, i: usize) -> (r: Result<
    usize,
    String,
>)
    requires
        1 <= i < arguments.len(),
    ensures
        match r {
            Ok(used) => 1 <= used && i + used <= arguments@.len() && parse_from(
                old(options).model(),
                views(arguments@).skip(i as int),
            ) == parse_from(final(options).model(), views(arguments@).skip(i + used)),
            Err(msg) => parse_from(old(options).model(), views(arguments@).skip(i as int)) == Err::<
                EditModel,
                Seq<char>,
            >(msg@),
        },
{
    let ghost args = views(arguments@);
    let arg = chars_of(arguments[i].as_str());
    let next: Option<&String> = if i + 1 < arguments.len() {
        Some(&arguments[i + 1])
    } else {
        None
    };
    let ghost rest: Seq<Seq<char>> = match next {
        Some(n) => seq![n@],
        None => Seq::empty(),
    };
    let ghost more: Seq<Seq<char>> = if i + 1 < arguments@.len() {
        args.skip(i + 2)
    } else {
        Seq::empty()
    };
    let ghost tail = args.skip(i as int);
    proof {
        assert(tail[0] == arg@);
        if i + 1 < arguments@.len() {
            assert(rest[0] == args[i + 1]);
        }
        assert(seq![arg@] + rest + more =~= tail);
    }
    if arg.len() >= 2 && arg[0] == '-' && arg[1] == '-' {
        let body = string_from_range(arg.as_slice(), 2, arg.len());
        let body_chars = chars_of(body.as_str());
        proof {
            assert(body_chars@ =~= arg@.skip(2));
            assert(seq!['-', '-'] + body_chars@ =~= arg@);
        }
        let used = long_option(options, &body_chars, next, Ghost(more))?;
        proof {
            assert(tail.skip(used as int) =~= args.skip(i + used));
        }
        Ok(used)
    } else if arg.len() >= 1 && arg[0] == '-' {
        let used = short_options(options, &arg, next, Ghost(more))?;
        proof {
            assert(tail.skip(used as int) =~= args.skip(i + used));
        }
        Ok(used)
    } else {
        proof {
            lemma_parse_operand(options.model(), tail);
            assert(tail.drop_first() =~= args.skip(i + 1));
        }
        if options.file.is_none() {
            options.file = Some(copy_string(&arguments[i]));
        }
        Ok(1)
    }
}

impl SudoEditOptions {
    /// Parse the arguments of `sudoedit` (the first is the program's name): see `parse_from`.
    pub fn parse_arguments(arguments: Vec<String>) -> (r: Result<SudoEditOptions, String>)
        ensures
            match parse_from(edit_default(), after_program(views(arguments@))) {
                Ok(m) => r matches Ok(o) && o.model() == m,
                Err(e) => r matches Err(msg) && msg@ == e,
            },
    {
        let mut options = SudoEditOptions::default();
        let ghost args = views(arguments@);
        let ghost goal = parse_from(edit_default(), after_program(args));
        if arguments.len() == 0 {
            proof {
                reveal(parse_from);
            }
            return Ok(options);
        }
        proof {
            assert(after_program(args) =~= args.skip(1));
        }
        let mut i: usize = 1;
        while i < arguments.len()
            invariant
                1 <= i <= arguments@.len(),
                args == views(arguments@),
                parse_from(options.model(), args.skip(i as int)) == goal,
                goal == parse_from(edit_default(), after_program(args)),
            decreases arguments.len() - i,
        {
            match one_argument(&mut options, &arguments, i) {
                Ok(used) => {
                    i += used;
                },
                Err(e) => {
                    return Err(e);
                },
            }
        }
        proof {
            assert(args.skip(arguments@.len() as int) =~= Seq::<Seq<char>>::empty());
            reveal(parse_from);
        }
        Ok(options)
    }
}

/// A group of one-letter options is read in one go.
proof fn lemma_parse_short(m: EditModel, args: Seq<Seq<char>>)
    requires
        args.len() > 0,
        args[0].len() >= 1,
        args[0][0] == '-',
        !(args[0].len() >= 2 && args[0][1] == '-'),
    ensures
        parse_from(m, args) == (match short_group(m, args[0].skip(1), args.drop_first()).0 {
            Ok(m2) => parse_from(m2, short_group(m, args[0].skip(1), args.drop_first()).1),
            Err(e) => Err(e),
        }),
{
    reveal(parse_from);
}

/// An argument that is not an option names the file, unless one was named before.
proof fn lemma_parse_operand(m: EditModel, args: Seq<Seq<char>>)
    requires
        args.len() > 0,
        !(args[0].len() >= 1 && args[0][0] == '-'),
    ensures
        parse_from(m, args) == parse_from(
            if m.file is None {
                EditModel { file: Some(args[0]), ..m }
            } else {
                m
            },
            args.drop_first(),
        ),
{
    reveal(parse_from);
}


/// A group of one-letter options that is read in full without the arguments after `rest`
/// reads the same with them, and leaves them in place.
proof fn lemma_short_group_more(m: EditModel, chars: Seq<char>, rest: Seq<Seq<char>>, post: Seq<Seq<char>>)
    requires
        short_group(m, chars, rest).0 is Ok,
    ensures
        short_group(m, chars, rest + post) == (short_group(m, chars, rest).0, short_group(m, chars, rest).1 + post),
    decreases chars.len(),
{
    if chars.len() > 0 {
        if let Some(f) = flag_of_short(chars[0]) {
            if takes_argument(f) {
                if trim(chars.drop_first()).len() == 0 && rest.len() > 0 {
                    assert((rest + post)[0] == rest[0]);
                    assert((rest + post).drop_first() =~= rest.drop_first() + post);
                }
            } else if let Ok(m2) = set_flag(m, f, None) {
                lemma_short_group_more(m2, chars.drop_first(), rest, post);
            }
        }
    }
}

/// Parsing in two runs: when the first part of a command line parses on its own, the whole
/// parses as the rest does from the options that the first part gave.
pub proof fn lemma_parse_from_append(m: EditModel, pre: Seq<Seq<char>>, post: Seq<Seq<char>>)
    requires
        parse_from(m, pre) is Ok,
    ensures
        parse_from(m, pre + post) == parse_from(parse_from(m, pre)->Ok_0, post),
    decreases pre.len(),
{
    reveal(parse_from);
    let all = pre + post;
    if pre.len() == 0 {
        assert(all =~= post);
    } else {
        assert(all[0] == pre[0]);
        assert(all.drop_first() =~= pre.drop_first() + post);
        let a = pre[0];
        let rest = pre.drop_first();
        if a.len() >= 2 && a[0] == '-' && a[1] == '-' {
            let body = a.skip(2);
            match find_char(body, '=') {
                Some(i) => {
                    if let Some(f) = flag_of_long(body.take(i)) {
                        if takes_argument(f) {
                            if let Ok(m2) = set_flag(m, f, Some(body.skip(i + 1))) {
                                lemma_parse_from_append(m2, rest, post);
                            }
                        }
                    }
                },
                None => {
                    if let Some(f) = flag_of_long(body) {
                        if takes_argument(f) && rest.len() > 0 {
                            assert(all.drop_first()[0] == rest[0]);
                            assert(all.drop_first().drop_first() =~= rest.drop_first() + post);
                            if let Ok(m2) = set_flag(m, f, Some(rest[0])) {
                                lemma_parse_from_append(m2, rest.drop_first(), post);
                            }
                        } else if let Ok(m2) = set_flag(m, f, None) {
                            lemma_parse_from_append(m2, rest, post);
                        }
                    }
                },
            }
        } else if a.len() >= 1 && a[0] == '-' {
            lemma_short_group_rest(m, a.skip(1), rest);
            let (r, rest2) = short_group(m, a.skip(1), rest);
            if let Ok(m2) = r {
                lemma_short_group_more(m, a.skip(1), rest, post);
                lemma_parse_from_append(m2, rest2, post);
            }
        } else if m.file is None {
            lemma_parse_from_append(EditModel { file: Some(a), ..m }, rest, post);
        } else {
            lemma_parse_from_append(m, rest, post);
        }
    }
}

/// Each switch that `a` has on, `b` has on too.
pub open spec fn switches_kept(a: EditModel, b: EditModel) -> bool {
    &&& a.askpass ==> b.askpass
    &&& a.bell ==> b.bell
    &&& a.reset_timestamp ==> b.reset_timestamp
    &&& a.non_interactive ==> b.non_interactive
    &&& a.stdin ==> b.stdin
}

/// The switch that the one-letter option `c` stands for is on in `m`: `-A` asks for a helper
/// program for the password, `-B` rings the bell, `-k` drops the cached credentials, `-n`
/// never prompts, `-S` reads the password from standard input.
pub open spec fn switch_is_on(m: EditModel, c: char) -> bool {
    &&& c == 'A' ==> m.askpass
    &&& c == 'B' ==> m.bell
    &&& c == 'k' ==> m.reset_timestamp
    &&& c == 'n' ==> m.non_interactive
    &&& c == 'S' ==> m.stdin
}

/// No option turns a switch off within a group of one-letter options.
proof fn lemma_switches_kept_group(m: EditModel, chars: Seq<char>, rest: Seq<Seq<char>>)
    ensures
        short_group(m, chars, rest).0 matches Ok(r) ==> switches_kept(m, r),
    decreases chars.len(),
{
    if chars.len() > 0 {
        if let Some(f) = flag_of_short(chars[0]) {
            lemma_set_flag_keeps(m, f, None);
            if takes_argument(f) {
                let r = trim(chars.drop_first());
                lemma_set_flag_keeps(m, f, Some(r));
                if rest.len() > 0 {
                    lemma_set_flag_keeps(m, f, Some(rest[0]));
                }
            } else {
                if let Ok(m2) = set_flag(m, f, None) {
                    lemma_switches_kept_group(m2, chars.drop_first(), rest);
                }
            }
        }
    }
}

/// No option turns a switch off.
proof fn lemma_set_flag_keeps(m: EditModel, f: EditFlag, arg: Option<Seq<char>>)
    ensures
        set_flag(m, f, arg) matches Ok(m2) ==> switches_kept(m, m2),
{
}

/// Once on, a switch stays on whatever follows on the command line.
#[verifier::rlimit(40)]
pub proof fn lemma_switches_kept(m: EditModel, args: Seq<Seq<char>>)
    ensures
        parse_from(m, args) matches Ok(r) ==> switches_kept(m, r),
    decreases args.len(),
{
    reveal(parse_from);
    if args.len() > 0 {
        let a = args[0];
        let rest = args.drop_first();
        if a.len() >= 2 && a[0] == '-' && a[1] == '-' {
            let body = a.skip(2);
            match find_char(body, '=') {
                Some(i) => {
                    if let Some(f) = flag_of_long(body.take(i)) {
                        lemma_set_flag_keeps(m, f, Some(body.skip(i + 1)));
                        if let Ok(m2) = set_flag(m, f, Some(body.skip(i + 1))) {
                            lemma_switches_kept(m2, rest);
                        }
                    }
                },
                None => {
                    if let Some(f) = flag_of_long(body) {
                        if takes_argument(f) && rest.len() > 0 {
                            lemma_set_flag_keeps(m, f, Some(rest[0]));
                            if let Ok(m2) = set_flag(m, f, Some(rest[0])) {
                                lemma_switches_kept(m2, rest.drop_first());
                            }
                        } else {
                            lemma_set_flag_keeps(m, f, None);
                            if let Ok(m2) = set_flag(m, f, None) {
                                lemma_switches_kept(m2, rest);
                            }
                        }
                    }
                },
            }
        } else if a.len() >= 1 && a[0] == '-' {
            lemma_short_group_rest(m, a.skip(1), rest);
            lemma_switches_kept_group(m, a.skip(1), rest);
            let (r, rest2) = short_group(m, a.skip(1), rest);
            if let Ok(m2) = r {
                lemma_switches_kept(m2, rest2);
            }
        } else if m.file is None {
            lemma_switches_kept(EditModel { file: Some(a), ..m }, rest);
        } else {
            lemma_switches_kept(m, rest);
        }
    }
}

/// `-A` and `--askpass` ask for a helper program to read the password: wherever either stands
/// on the command line as an option of its own (after arguments that parse on their own, so
/// that it is no option's value), the options that come out have `askpass` set.
pub proof fn law_askpass_flag(pre: Seq<Seq<char>>, post: Seq<Seq<char>>)
    requires
        parse_from(edit_default(), pre) is Ok,
    ensures
        parse_from(edit_default(), pre + seq!["-A"@] + post) matches Ok(r) ==> r.askpass,
        parse_from(edit_default(), pre + seq!["--askpass"@] + post) matches Ok(r) ==> r.askpass,
{
    let m1 = parse_from(edit_default(), pre)->Ok_0;
    reveal_strlit("-A");
    reveal_strlit("--askpass");
    reveal_strlit("askpass");
    // `-A`: a group of one option
    let short = seq!["-A"@] + post;
    assert(pre + seq!["-A"@] + post =~= pre + short);
    lemma_parse_from_append(edit_default(), pre, short);
    assert(short[0] == "-A"@);
    assert(short.drop_first() =~= post);
    let m2 = EditModel { askpass: true, ..m1 };
    assert(short_group(m2, "-A"@.skip(1).drop_first(), post) == (Ok::<EditModel, Seq<char>>(m2), post));
    assert(short_group(m1, "-A"@.skip(1), post) == (Ok::<EditModel, Seq<char>>(m2), post));
    assert(parse_from(m1, short) == parse_from(m2, post)) by {
        reveal(parse_from);
    }
    lemma_switches_kept(m2, post);
    // `--askpass`: a long option without a value
    let long = seq!["--askpass"@] + post;
    assert(pre + seq!["--askpass"@] + post =~= pre + long);
    lemma_parse_from_append(edit_default(), pre, long);
    assert(long[0] == "--askpass"@);
    assert(long.drop_first() =~= post);
    let body = "--askpass"@.skip(2);
    assert(body =~= "askpass"@);
    lemma_find_char(body, '=');
    assert(find_char(body, '=') is None);
    assert(parse_from(m1, long) == parse_from(m2, post)) by {
        reveal(parse_from);
    }
}


/// Each one-letter switch turns its switch on (see `switch_is_on`): wherever `-A`, `-B`,
/// `-k`, `-n` or `-S` stands on the command line as an option of its own (after arguments that
/// parse on their own, so that it is no option's value), the options that come out have that
/// switch on.
pub proof fn law_switch_flags(pre: Seq<Seq<char>>, c: char, post: Seq<Seq<char>>)
    requires
        parse_from(edit_default(), pre) is Ok,
    ensures
        parse_from(edit_default(), pre + seq![seq!['-', c]] + post) matches Ok(r) ==> switch_is_on(r, c),
{
    let m1 = parse_from(edit_default(), pre)->Ok_0;
    let a = seq!['-', c];
    let args = seq![a] + post;
    assert(pre + seq![a] + post =~= pre + args);
    lemma_parse_from_append(edit_default(), pre, args);
    assert(args[0] == a);
    assert(args.drop_first() =~= post);
    if c == 'A' || c == 'B' || c == 'k' || c == 'n' || c == 'S' {
        let f = flag_of_short(c)->Some_0;
        let m2 = set_flag(m1, f, None)->Ok_0;
        let chars = a.skip(1);
        assert(chars.len() == 1 && chars[0] == c);
        assert(chars.drop_first() =~= Seq::<char>::empty());
        assert(!takes_argument(f));
        assert(set_flag(m1, f, None) is Ok);
        assert(short_group(m2, chars.drop_first(), post) == (Ok::<EditModel, Seq<char>>(m2), post));
        assert(short_group(m1, a.skip(1), post) == (Ok::<EditModel, Seq<char>>(m2), post));
        assert(parse_from(m1, args) == parse_from(m2, post)) by {
            reveal(parse_from);
        }
        lemma_switches_kept(m2, post);
    }
}

} // verus!
