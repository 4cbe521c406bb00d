//! The help texts of `sudoedit`.

use vstd::prelude::*;
use crate::text::concat;

verus! {

pub open spec fn usage_text() -> Seq<char> {
    "usage: sudoedit -h | -V
usage: sudoedit [-BknS] [-p prompt] [-g group] [-u user] file ..."@
}

pub open spec fn descriptor_text() -> Seq<char> {
    "sudo - edit files as another user"@
}

pub open spec fn options_text() -> Seq<char> {
    "Options:
Options:
  -B, --bell                    ring bell when prompting
  -g, --group=group             run command as the specified group name or ID
  -h, --help                    display help message and exit
  -k, --reset-timestamp         invalidate timestamp file
  -n, --non-interactive         non-interactive mode, no prompts are used
  -p, --prompt=prompt           use the specified password prompt
  -S, --stdin                   read password from standard input
  -u, --user=user               run command (or edit file) as specified user
                                name or ID
  -V, --version                 display version information and exit
  --                            stop processing command line arguments"@
}

/// The usage lines.
pub fn usage_msg() -> (s: &'static str)
    ensures
        s@ == usage_text(),
{
    "usage: sudoedit -h | -V
usage: sudoedit [-BknS] [-p prompt] [-g group] [-u user] file ..."
}

fn descriptor() -> (s: &'static str)
    ensures
        s@ == descriptor_text(),
{
    "sudo - edit files as another user"
}

fn help_msg() -> (s: &'static str)
    ensures
        s@ == options_text(),
{
    "Options:
Options:
  -B, --bell                    ring bell when prompting
  -g, --group=group             run command as the specified group name or ID
  -h, --help                    display help message and exit
  -k, --reset-timestamp         invalidate timestamp file
  -n, --non-interactive         non-interactive mode, no prompts are used
  -p, --prompt=prompt           use the specified password prompt
  -S, --stdin                   read password from standard input
  -u, --user=user               run command (or edit file) as specified user
                                name or ID
  -V, --version                 display version information and exit
  --                            stop processing command line arguments"
}

/// The descriptor, the usage lines and the options, one after another on lines of their own.
pub fn long_help_message() -> (s: String)
    ensures
        s@ == descriptor_text() + "\n"@ + usage_text() + "\n"@ + options_text(),
{
    let mut s = concat(descriptor(), "\n");
    s.append(usage_msg());
    s.append("\n");
    s.append(help_msg());
    s
}

} // verus!
