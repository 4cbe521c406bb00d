//! The help texts of `sudo`.

use vstd::prelude::*;
use crate::text::concat;

verus! {

pub open spec fn usage_text() -> Seq<char> {
    "usage: sudo -h | -K | -k | -V
usage: sudo [-BbknS] [-p prompt] [-D directory] [-g group] [-u user] [-i | -s] [command [arg ...]]
usage: sudo -v [-BknS] [-p prompt] [-g group] [-u user]
usage: sudo -l [-BknS] [-p prompt] [-U user] [-g group] [-u user] [command [arg ...]]
usage: sudo -e [-BknS] [-p prompt] [-D directory] [-g group] [-u user] file ..."@
}

pub open spec fn descriptor_text() -> Seq<char> {
    "sudo - run commands as another user"@
}

pub open spec fn options_text() -> Seq<char> {
    "Options:
  -b, --background              run command in the background
  -B, --bell                    ring bell when prompting
  -D, --chdir=directory         change the working directory before running command
  -g, --group=group             run command as the specified group name or ID
  -h, --help                    display help message and exit
  -i, --login                   run login shell as the target user; a command may also be specified
  -K, --remove-timestamp        remove timestamp file completely
  -k, --reset-timestamp         invalidate timestamp file
  -l, --list                    list user's privileges or check a specific command; use twice for longer format
  -n, --non-interactive         non-interactive mode, no prompts are used
  -p, --prompt=prompt           use the specified password prompt
  -S, --stdin                   read password from standard input
  -s, --shell                   run shell as the target user; a command may also be specified
  -U, --other-user=user         in list mode, display privileges for user
  -u, --user=user               run command (or edit file) as specified user name or ID
  -V, --version                 display version information and exit
  -v, --validate                update user's timestamp without running a command
  --                            stop processing command line arguments"@
}

/// The usage lines.
pub fn usage_msg() -> (s: &'static str)
    ensures
        s@ == usage_text(),
{
    "usage: sudo -h | -K | -k | -V
usage: sudo [-BbknS] [-p prompt] [-D directory] [-g group] [-u user] [-i | -s] [command [arg ...]]
usage: sudo -v [-BknS] [-p prompt] [-g group] [-u user]
usage: sudo -l [-BknS] [-p prompt] [-U user] [-g group] [-u user] [command [arg ...]]
usage: sudo -e [-BknS] [-p prompt] [-D directory] [-g group] [-u user] file ..."
}

fn descriptor() -> (s: &'static str)
    ensures
        s@ == descriptor_text(),
{
    "sudo - run commands as another user"
}

fn help_msg() -> (s: &'static str)
    ensures
        s@ == options_text(),
{
    "Options:
  -b, --background              run command in the background
  -B, --bell                    ring bell when prompting
  -D, --chdir=directory         change the working directory before running command
  -g, --group=group             run command as the specified group name or ID
  -h, --help                    display help message and exit
  -i, --login                   run login shell as the target user; a command may also be specified
  -K, --remove-timestamp        remove timestamp file completely
  -k, --reset-timestamp         invalidate timestamp file
  -l, --list                    list user's privileges or check a specific command; use twice for longer format
  -n, --non-interactive         non-interactive mode, no prompts are used
  -p, --prompt=prompt           use the specified password prompt
  -S, --stdin                   read password from standard input
  -s, --shell                   run shell as the target user; a command may also be specified
  -U, --other-user=user         in list mode, display privileges for user
  -u, --user=user               run command (or edit file) as specified user name or ID
  -V, --version                 display version information and exit
  -v, --validate                update user's timestamp without running a command
  --                            stop processing command line arguments"
}

/// The descriptor, the usage lines and the options, one after another on lines of their own.
pub fn long_help_message() -> (s: String)
    ensures
        s@ == descriptor_text() + "\n"@ + usage_text() + "\n"@ + options_text(),
{
    let mut s = concat(descriptor(), "\n");
    s.append(usage_msg());
    s.append("\n");
    s.append(help_msg());
    s
}

} // verus!
