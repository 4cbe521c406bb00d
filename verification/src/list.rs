//! What `sudo --list` reports: the entries a user has on a host, or, for a command, how it
//! would be run.

use vstd::prelude::*;
use crate::sudoers::entry::{
    current_text, effective_groups, effective_users, entry_text, joined, opt_str, verbose_lines, Entry,
};
use crate::sudoers::matching::{UnixGroup, UnixUser};
use crate::sudoers::{permits, query_of, Request, Sudoers};
use crate::text::{chars_of, owned, push_char};

verus! {

broadcast use vstd::seq_lib::group_seq_properties;

/// `list`, and the command after a space when one was given.
pub open spec fn list_command_text(given: Option<Seq<char>>) -> Seq<char> {
    match given {
        Some(c) => "list "@ + c,
        None => "list"@,
    }
}

/// How a refused listing of another user's commands is named.
pub fn format_list_command(original_command: &Option<String>) -> (s: String)
    ensures
        s@ == list_command_text(
            match original_command {
                Some(c) => Some(c@),
                None => None,
            },
        ),
{
    match original_command {
        Some(c) => {
            let mut s = owned("list ");
            s.append(c.as_str());
            s
        },
        None => owned("list"),
    }
}

/// An entry, tersely or verbosely.
pub open spec fn shown_entry<'a>(e: Entry<'a>, verbose: bool, root: Seq<char>, current: Seq<char>) -> Seq<char> {
    let users = effective_users(e.spec_run_as(), root);
    let groups = effective_groups(e.spec_run_as());
    if verbose {
        verbose_lines(
            users,
            groups,
            e.spec_tags(),
            e.spec_cmds(),
            e.spec_cmds().len() as int,
            e.spec_defs(),
            e.spec_order(),
            current,
        )
    } else {
        entry_text(users, groups, e.spec_tags(), e.spec_cmds(), e.spec_defs(), e.spec_order(), current)
    }
}

/// The first `n` entries, each on its own line.
pub open spec fn entries_shown<'a>(
    es: Seq<Entry<'a>>,
    n: int,
    verbose: bool,
    root: Seq<char>,
    current: Seq<char>,
) -> Seq<char>
    decreases n,
{
    if n <= 0 {
        Seq::empty()
    } else {
        entries_shown(es, n - 1, verbose, root, current) + shown_entry(es[n - 1], verbose, root, current)
            + "\n"@
    }
}

/// The report on a user's entries: a heading and the entries, or that there are none.
pub open spec fn list_report_text<'a>(
    es: Seq<Entry<'a>>,
    user: Seq<char>,
    host: Seq<char>,
    verbose: bool,
    root: Seq<char>,
    current: Seq<char>,
) -> Seq<char> {
    if es.len() == 0 {
        "User "@ + user + " is not allowed to run sudo on "@ + host + ".\n"@
    } else {
        "User "@ + user + " may run the following commands on "@ + host + ":\n"@ + entries_shown(
            es,
            es.len() as int,
            verbose,
            root,
            current,
        )
    }
}

/// What `sudo --list` prints about `user` on `hostname`, given the entries that apply
/// (`Sudoers::matching_entries`); see `Entry::to_text` for `root_name` and `current`.
pub fn list_report(
    entries: &Vec<Entry>,
    user: &str,
    hostname: &str,
    verbose: bool,
    root_name: &str,
    current: Option<&str>,
) -> (s: String)
    ensures
        s@ == list_report_text(entries@, user@, hostname@, verbose, root_name@, current_text(opt_str(current))),
{
    let ghost cur = current_text(opt_str(current));
    let mut s = owned("User ");
    s.append(user);
    if entries.len() == 0 {
        s.append(" is not allowed to run sudo on ");
        s.append(hostname);
        s.append(".\n");
        return s;
    }
    s.append(" may run the following commands on ");
    s.append(hostname);
    s.append(":\n");
    let ghost head = s@;
    let mut k: usize = 0;
    while k < entries.len()
        invariant
            k <= entries@.len(),
            cur == current_text(opt_str(current)),
            s@ == head + entries_shown(entries@, k as int, verbose, root_name@, cur),
        decreases entries@.len() - k,
    {
        let text = if verbose {
            entries[k].verbose(root_name, current)
        } else {
            entries[k].to_text(root_name, current)
        };
        s.append(text.as_str());
        s.append("\n");
        proof {
            assert(s@ =~= head + entries_shown(entries@, k + 1, verbose, root_name@, cur));
        }
        k += 1;
    }
    s
}

/// A path that has a `/` but does not start with one.
pub open spec fn is_relative_path(c: Seq<char>) -> bool {
    c.contains('/') && !(c.len() > 0 && c[0] == '/')
}

/// How a permitted command is shown: as it was given when that was a relative path, else as
/// it was found; then its arguments, each after a space.
pub open spec fn listed_command_text(given: Seq<char>, command: Seq<char>, args: Seq<Seq<char>>) -> Seq<char> {
    (if is_relative_path(given) {
        given
    } else {
        command
    }) + (if args.len() == 0 {
        Seq::empty()
    } else {
        " "@ + joined(args, " "@)
    })
}

fn relative_path(given: &str) -> (r: bool)
    ensures
        r == is_relative_path(given@),
{
    let v = chars_of(given);
    let mut has_slash = false;
    let mut k: usize = 0;
    while k < v.len()
        invariant
            k <= v@.len(),
            v@ == given@,
            has_slash == exists|j: int| 0 <= j < k && v@[j] == '/',
        decreases v@.len() - k,
    {
        if v[k] == '/' {
            has_slash = true;
        }
        k += 1;
    }
    proof {
        if has_slash {
            let j = choose|j: int| 0 <= j < k && v@[j] == '/';
            assert(given@[j] == '/');
        }
        if given@.contains('/') {
            let j = choose|j: int| 0 <= j < given@.len() && given@[j] == '/';
            assert(v@[j] == '/');
        }
    }
    has_slash && !(v.len() > 0 && v[0] == '/')
}

/// The line that `sudo --list` prints for a command that the policy permits.
pub fn listed_command(original_command: &str, command: &str, arguments: &Vec<String>) -> (s: String)
    ensures
        s@ == listed_command_text(original_command@, command@, arguments@.map_values(|a: String| a@)),
{
    let mut s = if relative_path(original_command) {
        owned(original_command)
    } else {
        owned(command)
    };
    let ghost first = s@;
    let ghost args = arguments@.map_values(|a: String| a@);
    if arguments.len() > 0 {
        push_char(&mut s, ' ');
        let ghost mid = s@;
        let mut k: usize = 0;
        while k < arguments.len()
            invariant
                k <= arguments@.len(),
                args == arguments@.map_values(|a: String| a@),
                s@ == mid + joined(args.take(k as int), " "@),
            decreases arguments@.len() - k,
        {
            if k > 0 {
                push_char(&mut s, ' ');
            }
            s.append(arguments[k].as_str());
            proof {
                assert(args.take(k + 1).drop_last() =~= args.take(k as int));
                assert(" "@ =~= seq![' ']) by {
                    reveal_strlit(" ");
                }
                assert(s@ =~= mid + joined(args.take(k + 1), " "@));
            }
            k += 1;
        }
        proof {
            assert(args.take(k as int) =~= args);
            assert(" "@ =~= seq![' ']) by {
                reveal_strlit(" ");
            }
        }
    }
    s
}

/// Why a command is not listed: it is not permitted (nothing is printed), or it is but
/// was not found.
#[derive(Debug, PartialEq, Eq)]
pub enum ListCommandError {
    Silent,
    CommandNotFound(String),
}

/// `sudo --list` for a command: the policy decides whether `user` may run the request on
/// the host; when it may and the command was found (`resolved`), the line to print.
pub fn check_sudo_command_perms<U: UnixUser, G: UnixGroup>(
    original_command: &str,
    resolved: bool,
    user: &U,
    hostname: &str,
    request: Request<U, G>,
    sudoers: &mut Sudoers,
) -> (r: Result<String, ListCommandError>)
    ensures
        !permits(*old(sudoers), query_of(*user, hostname@, request)) ==> r == Err::<
            String,
            ListCommandError,
        >(ListCommandError::Silent),
        permits(*old(sudoers), query_of(*user, hostname@, request)) && !resolved ==> (r matches Err(
            ListCommandError::CommandNotFound(c),
        ) && c@ == request.command@),
        permits(*old(sudoers), query_of(*user, hostname@, request)) && resolved ==> (r matches Ok(s)
            && s@ == listed_command_text(
            original_command@,
            request.command@,
            request.arguments@.map_values(|a: String| a@),
        )),
{
    let command = request.command;
    let arguments = request.arguments;
    let judgement = sudoers.check(user, hostname, request);
    if judgement.flags.is_none() {
        return Err(ListCommandError::Silent);
    }
    if !resolved {
        return Err(ListCommandError::CommandNotFound(owned(command)));
    }
    Ok(listed_command(original_command, command, arguments))
}

} // verus!
