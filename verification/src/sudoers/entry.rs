//! How `sudo --list` shows what a user may run: a line for each group of commands that share
//! a runas specification, or, in the verbose form, a block for each group of commands that
//! share their attributes as well.

use vstd::prelude::*;
use crate::diagnostic::{decimal_chars, push_decimal};
use crate::sudoers::ast::{
    Authenticate, Def, EnvironmentControl, ExecControl, Identifier, Qualified, RunAs, Spec, Tag,
    UserSpecifier,
};
use crate::sudoers::basic_parser::Span;
use crate::sudoers::tokens::{ChDir, ChDirModel, Command, Meta};
use crate::sudoers::VecOrd;
use crate::text::{chars_eq, chars_of, push_char};

verus! {

broadcast use vstd::seq_lib::group_seq_properties;

// ---------------------------------------------------------------------------------------------
// Texts
// ---------------------------------------------------------------------------------------------

/// The texts one after the other, with `sep` between each two.
pub open spec fn joined(items: Seq<Seq<char>>, sep: Seq<char>) -> Seq<char>
    decreases items.len(),
{
    if items.len() == 0 {
        Seq::empty()
    } else if items.len() == 1 {
        items[0]
    } else {
        joined(items.drop_last(), sep) + sep + items.last()
    }
}

/// A name, or `#` and the number.
pub open spec fn ident_text(i: Identifier) -> Seq<char> {
    match i {
        Identifier::Name(n) => n@,
        Identifier::ID(id) => seq!['#'] + decimal_chars(id as nat),
    }
}

/// A user; a group after `%`; a non-Unix group after `%:`.
pub open spec fn user_text(u: UserSpecifier) -> Seq<char> {
    match u {
        UserSpecifier::User(i) => ident_text(i),
        UserSpecifier::Group(i) => seq!['%'] + ident_text(i),
        UserSpecifier::NonunixGroup(i) => seq!['%', ':'] + ident_text(i),
    }
}

pub open spec fn bang(negated: bool) -> Seq<char> {
    if negated {
        seq!['!']
    } else {
        Seq::empty()
    }
}

/// An entry of the user list of a runas specification.
pub open spec fn runas_user_text(q: Spec<UserSpecifier>) -> Seq<char> {
    let (m, negated) = match q {
        Qualified::Allow(m) => (m, false),
        Qualified::Forbid(m) => (m, true),
    };
    bang(negated) + match m {
        Meta::All => "ALL"@,
        Meta::Only(u) => user_text(u),
        Meta::Alias(a) => a@,
    }
}

/// An entry of the group list of a runas specification.
pub open spec fn runas_group_text(q: Spec<Identifier>) -> Seq<char> {
    let (m, negated) = match q {
        Qualified::Allow(m) => (m, false),
        Qualified::Forbid(m) => (m, true),
    };
    bang(negated) + match m {
        Meta::All => "ALL"@,
        Meta::Only(i) => ident_text(i),
        Meta::Alias(a) => a@,
    }
}

pub open spec fn user_items(ra: RunAs) -> Seq<Seq<char>> {
    ra.users@.map_values(|u: Spec<UserSpecifier>| runas_user_text(u))
}

pub open spec fn group_items(ra: RunAs) -> Seq<Seq<char>> {
    ra.groups@.map_values(|g: Spec<Identifier>| runas_group_text(g))
}

/// The users of a runas specification; when it names none, the invoking user (`current`).
pub open spec fn users_text(users: Seq<Seq<char>>, current: Seq<char>) -> Seq<char> {
    (if users.len() == 0 {
        current
    } else {
        Seq::empty()
    }) + joined(users, ", "@)
}

/// The name of the invoking user, or `?` when it is not known.
pub open spec fn current_text(current: Option<Seq<char>>) -> Seq<char> {
    match current {
        Some(n) => n,
        None => seq!['?'],
    }
}

/// The users that an entry may run commands as: those of its runas specification, or root
/// alone when it has none.
pub open spec fn effective_users(run_as: Option<RunAs>, root: Seq<char>) -> Seq<Seq<char>> {
    match run_as {
        Some(ra) => user_items(ra),
        None => seq![root],
    }
}

pub open spec fn effective_groups(run_as: Option<RunAs>) -> Seq<Seq<char>> {
    match run_as {
        Some(ra) => group_items(ra),
        None => Seq::empty(),
    }
}

pub open spec fn chdir_text(c: ChDir) -> Seq<char> {
    match c {
        ChDir::Path(p) => p@,
        ChDir::Any => "*"@,
    }
}

pub open spec fn cwd_model(c: Option<ChDir>) -> Option<ChDirModel> {
    match c {
        Some(d) => Some(d.model()),
        None => None,
    }
}

/// The attributes of a command on the terse line: `CWD=` and the directory, then `PASSWD:`
/// or `NOPASSWD:`, each only where it differs from the command before.
pub open spec fn tag_text(tag: Tag, last: Option<Tag>) -> Seq<char> {
    let cwd = match last {
        Some(l) => if cwd_model(l.cwd) == cwd_model(tag.cwd) {
            None
        } else {
            tag.cwd
        },
        None => tag.cwd,
    };
    let auth = match last {
        Some(l) => if l.authenticate == tag.authenticate {
            None
        } else {
            Some(tag.authenticate)
        },
        None => Some(tag.authenticate),
    };
    (match cwd {
        Some(c) => "CWD="@ + chdir_text(c) + " "@,
        None => Seq::empty(),
    }) + match auth {
        Some(Authenticate::Passwd) => "PASSWD: "@,
        Some(Authenticate::Nopasswd) => "NOPASSWD: "@,
        _ => Seq::empty(),
    }
}

/// Each argument after a space.
pub open spec fn args_text(args: Seq<String>) -> Seq<char>
    decreases args.len(),
{
    if args.len() == 0 {
        Seq::empty()
    } else {
        args_text(args.drop_last()) + seq![' '] + args.last()@
    }
}

/// The command's pattern, then its arguments.
pub open spec fn command_text(c: Command) -> Seq<char> {
    c.0.source() + match c.1 {
        Some(a) => args_text(a@),
        None => Seq::empty(),
    }
}

/// A command specification; an alias is replaced by its definition. Aliases are looked up
/// from position `from` of the definitions taken in reverse order (`order` lists them so that
/// an alias comes after those it uses); `negated` is whether an odd number of `!` apply.
pub open spec fn spec_text(
    s: Spec<Command>,
    defs: Seq<Def<Command>>,
    order: Seq<usize>,
    from: int,
    negated: bool,
    sep: Seq<char>,
) -> Seq<char>
    decreases order.len() - from, 1int, 0int,
{
    let (m, neg) = match s {
        Qualified::Allow(m) => (m, negated),
        Qualified::Forbid(m) => (m, !negated),
    };
    match m {
        Meta::All => bang(neg) + "ALL"@,
        Meta::Only(c) => bang(neg) + command_text(c),
        Meta::Alias(name) => alias_text(name@, defs, order, from, neg, sep),
    }
}

/// The definition of the alias `name`: the first one from position `from` on, in reverse
/// order; `???` when there is none.
pub open spec fn alias_text(
    name: Seq<char>,
    defs: Seq<Def<Command>>,
    order: Seq<usize>,
    from: int,
    negated: bool,
    sep: Seq<char>,
) -> Seq<char>
    decreases order.len() - from, 0int, 0int,
{
    if from >= order.len() {
        "???"@
    } else {
        let i = order[order.len() - 1 - from] as int;
        if i < defs.len() && defs[i].0@ == name {
            list_text(defs[i].1@, defs[i].1@.len() as int, defs, order, from + 1, negated, sep)
        } else {
            alias_text(name, defs, order, from + 1, negated, sep)
        }
    }
}

/// The first `n` specifications of a list, with `sep` between each two.
pub open spec fn list_text(
    specs: Seq<Spec<Command>>,
    n: int,
    defs: Seq<Def<Command>>,
    order: Seq<usize>,
    from: int,
    negated: bool,
    sep: Seq<char>,
) -> Seq<char>
    decreases order.len() - from, 2int, n,
{
    if n <= 0 {
        Seq::empty()
    } else if n == 1 {
        spec_text(specs[0], defs, order, from, negated, sep)
    } else {
        list_text(specs, n - 1, defs, order, from, negated, sep) + sep + spec_text(
            specs[n - 1],
            defs,
            order,
            from,
            negated,
            sep,
        )
    }
}

// ---------------------------------------------------------------------------------------------
// Writing the texts
// ---------------------------------------------------------------------------------------------

proof fn lemma_joined_push(items: Seq<Seq<char>>, x: Seq<char>, sep: Seq<char>)
    ensures
        joined(items.push(x), sep) == if items.len() == 0 {
            x
        } else {
            joined(items, sep) + sep + x
        },
{
    assert(items.push(x).drop_last() =~= items);
}

fn write_ident(out: &mut String, i: &Identifier)
    ensures
        final(out)@ == old(out)@ + ident_text(*i),
{
    match i {
        Identifier::Name(n) => {
            out.append(n.as_str());
        },
        Identifier::ID(id) => {
            push_char(out, '#');
            push_decimal(out, *id as usize);
        },
    }
}

fn write_bang(out: &mut String, negated: bool)
    ensures
        final(out)@ == old(out)@ + bang(negated),
{
    if negated {
        push_char(out, '!');
    }
}

fn write_runas_user(out: &mut String, q: &Spec<UserSpecifier>)
    ensures
        final(out)@ == old(out)@ + runas_user_text(*q),
{
    let (m, negated) = match q {
        Qualified::Allow(m) => (m, false),
        Qualified::Forbid(m) => (m, true),
    };
    write_bang(out, negated);
    match m {
        Meta::All => {
            out.append("ALL");
        },
        Meta::Only(u) => {
            let ident = match u {
                UserSpecifier::User(ident) => ident,
                UserSpecifier::Group(ident) => {
                    push_char(out, '%');
                    ident
                },
                UserSpecifier::NonunixGroup(ident) => {
                    push_char(out, '%');
                    push_char(out, ':');
                    ident
                },
            };
            write_ident(out, ident);
        },
        Meta::Alias(a) => {
            out.append(a.as_str());
        },
    }
}

fn write_runas_group(out: &mut String, q: &Spec<Identifier>)
    ensures
        final(out)@ == old(out)@ + runas_group_text(*q),
{
    let (m, negated) = match q {
        Qualified::Allow(m) => (m, false),
        Qualified::Forbid(m) => (m, true),
    };
    write_bang(out, negated);
    match m {
        Meta::All => {
            out.append("ALL");
        },
        Meta::Only(ident) => {
            write_ident(out, ident);
        },
        Meta::Alias(a) => {
            out.append(a.as_str());
        },
    }
}

/// Append the users of the runas specification, or the invoking user when it names none.
pub fn write_users(out: &mut String, run_as: &RunAs, current: Option<&str>)
    ensures
        final(out)@ == old(out)@ + users_text(
            user_items(*run_as),
            current_text(
                match current {
                    Some(c) => Some(c@),
                    None => None,
                },
            ),
        ),
{
    let ghost start = out@;
    let ghost cur = current_text(
        match current {
            Some(c) => Some(c@),
            None => None,
        },
    );
    if run_as.users.len() == 0 {
        match current {
            Some(c) => {
                out.append(c);
            },
            None => {
                push_char(out, '?');
            },
        }
    }
    let ghost first = out@;
    let ghost items = user_items(*run_as);
    let mut k: usize = 0;
    while k < run_as.users.len()
        invariant
            k <= run_as.users@.len(),
            items == user_items(*run_as),
            first == start + (if run_as.users@.len() == 0 {
                cur
            } else {
                Seq::empty()
            }),
            out@ == first + joined(items.take(k as int), ", "@),
        decreases run_as.users@.len() - k,
    {
        if k > 0 {
            out.append(", ");
        }
        write_runas_user(out, &run_as.users[k]);
        proof {
            lemma_joined_push(items.take(k as int), items[k as int], ", "@);
            assert(items.take(k + 1) =~= items.take(k as int).push(items[k as int]));
            assert(out@ =~= first + joined(items.take(k + 1), ", "@));
        }
        k += 1;
    }
    proof {
        assert(items.take(k as int) =~= items);
    }
}

/// Append the groups of the runas specification.
pub fn write_groups(out: &mut String, run_as: &RunAs)
    ensures
        final(out)@ == old(out)@ + joined(group_items(*run_as), ", "@),
{
    let ghost start = out@;
    let ghost items = group_items(*run_as);
    let mut k: usize = 0;
    while k < run_as.groups.len()
        invariant
            k <= run_as.groups@.len(),
            items == group_items(*run_as),
            out@ == start + joined(items.take(k as int), ", "@),
        decreases run_as.groups@.len() - k,
    {
        if k > 0 {
            out.append(", ");
        }
        write_runas_group(out, &run_as.groups[k]);
        proof {
            lemma_joined_push(items.take(k as int), items[k as int], ", "@);
            assert(items.take(k + 1) =~= items.take(k as int).push(items[k as int]));
            assert(out@ =~= start + joined(items.take(k + 1), ", "@));
        }
        k += 1;
    }
    proof {
        assert(items.take(k as int) =~= items);
    }
}

fn same_text(a: &str, b: &str) -> (r: bool)
    ensures
        r == (a@ == b@),
{
    let x = chars_of(a);
    let y = chars_of(b);
    chars_eq(x.as_slice(), y.as_slice())
}

fn same_cwd(a: &Option<ChDir>, b: &Option<ChDir>) -> (r: bool)
    ensures
        r == (cwd_model(*a) == cwd_model(*b)),
{
    match (a, b) {
        (None, None) => true,
        (Some(ChDir::Any), Some(ChDir::Any)) => true,
        (Some(ChDir::Path(p)), Some(ChDir::Path(q))) => same_text(p.as_str(), q.as_str()),
        _ => false,
    }
}

fn write_chdir(out: &mut String, c: &ChDir)
    ensures
        final(out)@ == old(out)@ + chdir_text(*c),
{
    match c {
        ChDir::Path(p) => {
            out.append(p.as_str());
        },
        ChDir::Any => {
            out.append("*");
        },
    }
}

/// Append the attributes of a command as the terse line shows them.
pub fn write_tag(out: &mut String, tag: &Tag, last_tag: Option<&Tag>)
    ensures
        final(out)@ == old(out)@ + tag_text(
            *tag,
            match last_tag {
                Some(t) => Some(*t),
                None => None,
            },
        ),
{
    let ghost start = out@;
    let cwd = match last_tag {
        Some(last) => if same_cwd(&last.cwd, &tag.cwd) {
            None
        } else {
            tag.cwd.as_ref()
        },
        None => tag.cwd.as_ref(),
    };
    let auth = match last_tag {
        Some(last) => if last.authenticate == tag.authenticate {
            None
        } else {
            Some(tag.authenticate)
        },
        None => Some(tag.authenticate),
    };
    if let Some(c) = cwd {
        out.append("CWD=");
        write_chdir(out, c);
        out.append(" ");
    }
    let ghost mid = out@;
    if let Some(a) = auth {
        if a != Authenticate::Unspecified {
            if a == Authenticate::Passwd {
                out.append("PASSWD: ");
            } else {
                out.append("NOPASSWD: ");
            }
        }
    }
}

fn write_args(out: &mut String, args: &Vec<String>)
    ensures
        final(out)@ == old(out)@ + args_text(args@),
{
    let ghost start = out@;
    let mut k: usize = 0;
    while k < args.len()
        invariant
            k <= args@.len(),
            out@ == start + args_text(args@.take(k as int)),
        decreases args@.len() - k,
    {
        push_char(out, ' ');
        out.append(args[k].as_str());
        proof {
            assert(args@.take(k + 1).drop_last() =~= args@.take(k as int));
            assert(out@ =~= start + args_text(args@.take(k + 1)));
        }
        k += 1;
    }
    proof {
        assert(args@.take(k as int) =~= args@);
    }
}

fn write_command(out: &mut String, c: &Command)
    ensures
        final(out)@ == old(out)@ + command_text(*c),
{
    out.append(c.0.as_str());
    if let Some(args) = &c.1 {
        write_args(out, args);
    }
}

/// Append a command specification, an alias replaced by its definition (see `spec_text`).
pub fn write_spec(
    out: &mut String,
    spec: &Spec<Command>,
    defs: &Vec<Def<Command>>,
    order: &Vec<usize>,
    from: usize,
    negated: bool,
    sep: &str,
)
    requires
        from <= order@.len(),
    ensures
        final(out)@ == old(out)@ + spec_text(*spec, defs@, order@, from as int, negated, sep@),
    decreases order@.len() - from, 1int, 0int,
{
    let (m, neg) = match spec {
        Qualified::Allow(m) => (m, negated),
        Qualified::Forbid(m) => (m, !negated),
    };
    match m {
        Meta::All => {
            write_bang(out, neg);
            out.append("ALL");
        },
        Meta::Only(c) => {
            write_bang(out, neg);
            write_command(out, c);
        },
        Meta::Alias(name) => {
            write_alias(out, name, defs, order, from, neg, sep);
        },
    }
}

fn write_alias(
    out: &mut String,
    name: &String,
    defs: &Vec<Def<Command>>,
    order: &Vec<usize>,
    from: usize,
    negated: bool,
    sep: &str,
)
    requires
        from <= order@.len(),
    ensures
        final(out)@ == old(out)@ + alias_text(name@, defs@, order@, from as int, negated, sep@),
    decreases order@.len() - from, 0int, 0int,
{
    let mut p: usize = from;
    while p < order.len()
        invariant
            from <= p <= order@.len(),
            *out == *old(out),
            alias_text(name@, defs@, order@, p as int, negated, sep@) == alias_text(
                name@,
                defs@,
                order@,
                from as int,
                negated,
                sep@,
            ),
        decreases order@.len() - p,
    {
        let i = order[order.len() - 1 - p];
        if i < defs.len() && same_text(defs[i].0.as_str(), name.as_str()) {
            write_list(out, &defs[i].1, defs, order, p + 1, negated, sep);
            return;
        }
        p += 1;
    }
    out.append("???");
}

fn write_list(
    out: &mut String,
    specs: &Vec<Spec<Command>>,
    defs: &Vec<Def<Command>>,
    order: &Vec<usize>,
    from: usize,
    negated: bool,
    sep: &str,
)
    requires
        from <= order@.len(),
    ensures
        final(out)@ == old(out)@ + list_text(specs@, specs@.len() as int, defs@, order@, from as int, negated, sep@),
    decreases order@.len() - from, 2int, 0int,
{
    let ghost start = out@;
    let mut k: usize = 0;
    while k < specs.len()
        invariant
            k <= specs@.len(),
            from <= order@.len(),
            out@ == start + list_text(specs@, k as int, defs@, order@, from as int, negated, sep@),
        decreases specs@.len() - k,
    {
        if k > 0 {
            out.append(sep);
        }
        write_spec(out, &specs[k], defs, order, from, negated, sep);
        k += 1;
    }
}

// ---------------------------------------------------------------------------------------------
// Entries
// ---------------------------------------------------------------------------------------------

/// The commands of one permission line that share a runas specification (none: root), each
/// with its attributes; command aliases are expanded from `cmd_alias`.
pub struct Entry<'a> {
    run_as: Option<&'a RunAs>,
    cmd_specs: Vec<(Tag, &'a Spec<Command>)>,
    cmd_alias: &'a VecOrd<Def<Command>>,
}

/// The terse line's commands, the first `n` of them, after `, ` each but the first; the
/// attributes are shown where they change.
pub open spec fn line_text(
    tags: Seq<Tag>,
    cmds: Seq<Spec<Command>>,
    n: int,
    defs: Seq<Def<Command>>,
    order: Seq<usize>,
) -> Seq<char>
    decreases n,
{
    if n <= 0 {
        Seq::empty()
    } else {
        line_text(tags, cmds, n - 1, defs, order) + (if n > 1 {
            ", "@
        } else {
            Seq::empty()
        }) + tag_text(
            tags[n - 1],
            if n > 1 {
                Some(tags[n - 2])
            } else {
                None
            },
        ) + spec_text(cmds[n - 1], defs, order, 0, false, ", "@)
    }
}

/// The terse line of an entry: `    (users : groups) ` and the commands.
pub open spec fn entry_text(
    users: Seq<Seq<char>>,
    groups: Seq<Seq<char>>,
    tags: Seq<Tag>,
    cmds: Seq<Spec<Command>>,
    defs: Seq<Def<Command>>,
    order: Seq<usize>,
    current: Seq<char>,
) -> Seq<char> {
    "    ("@ + users_text(users, current) + (if groups.len() > 0 {
        " : "@
    } else {
        Seq::empty()
    }) + joined(groups, ", "@) + ") "@ + line_text(tags, cmds, cmds.len() as int, defs, order)
}

pub open spec fn opt_text(o: Option<String>) -> Option<Seq<char>> {
    match o {
        Some(s) => Some(s@),
        None => None,
    }
}

/// Two sets of attributes are the same when every attribute is.
pub open spec fn tag_key(t: Tag) -> (
    Authenticate,
    Option<ChDirModel>,
    EnvironmentControl,
    Option<Seq<char>>,
    ExecControl,
    Seq<Span>,
) {
    (t.authenticate, cwd_model(t.cwd), t.env, opt_text(t.apparmor_profile), t.noexec, t.ignored@)
}

/// The attributes as the verbose form shows them: whether a password is asked, and the
/// working directory.
pub open spec fn verbose_tag_text(t: Tag) -> Seq<char> {
    (if t.authenticate != Authenticate::Unspecified {
        "\n    Options: "@ + (if t.authenticate != Authenticate::Passwd {
            "!"@
        } else {
            Seq::empty()
        }) + "authenticate"@
    } else {
        Seq::empty()
    }) + match t.cwd {
        Some(c) => "\n    Cwd: "@ + chdir_text(c),
        None => Seq::empty(),
    }
}

/// The head of a block of the verbose form.
pub open spec fn entry_header_text(users: Seq<Seq<char>>, groups: Seq<Seq<char>>, current: Seq<char>) -> Seq<char> {
    "\nSudoers entry:"@ + "\n    RunAsUsers: "@ + users_text(users, current) + (if groups.len() == 0 {
        Seq::empty()
    } else {
        "\n    RunAsGroups: "@ + joined(groups, ", "@)
    })
}

/// The verbose form of the first `n` commands: a new block starts wherever the attributes
/// change; each command on a line of its own after a tab.
pub open spec fn verbose_lines(
    users: Seq<Seq<char>>,
    groups: Seq<Seq<char>>,
    tags: Seq<Tag>,
    cmds: Seq<Spec<Command>>,
    n: int,
    defs: Seq<Def<Command>>,
    order: Seq<usize>,
    current: Seq<char>,
) -> Seq<char>
    decreases n,
{
    if n <= 0 {
        Seq::empty()
    } else {
        let k = n - 1;
        let new_block = k == 0 || tag_key(tags[k]) != tag_key(tags[k - 1]);
        verbose_lines(users, groups, tags, cmds, n - 1, defs, order, current) + (if new_block {
            (if k > 0 {
                "\n"@
            } else {
                Seq::empty()
            }) + entry_header_text(users, groups, current) + verbose_tag_text(tags[k])
                + "\n    Commands:"@
        } else {
            Seq::empty()
        }) + "\n\t"@ + spec_text(cmds[k], defs, order, 0, false, "\n\t"@)
    }
}

fn same_profile(a: &Option<String>, b: &Option<String>) -> (r: bool)
    ensures
        r == (opt_text(*a) == opt_text(*b)),
{
    match (a, b) {
        (None, None) => true,
        (Some(x), Some(y)) => same_text(x.as_str(), y.as_str()),
        _ => false,
    }
}

fn same_spans(a: &Vec<Span>, b: &Vec<Span>) -> (r: bool)
    ensures
        r == (a@ == b@),
{
    if a.len() != b.len() {
        return false;
    }
    let mut k: usize = 0;
    while k < a.len()
        invariant
            k <= a@.len(),
            a@.len() == b@.len(),
            forall|j: int| 0 <= j < k ==> a@[j] == b@[j],
        decreases a@.len() - k,
    {
        let x = a[k];
        let y = b[k];
        if x.start.0 != y.start.0 || x.start.1 != y.start.1 || x.end.0 != y.end.0 || x.end.1 != y.end.1 {
            return false;
        }
        k += 1;
    }
    proof {
        assert(a@ =~= b@);
    }
    true
}

fn same_tag(a: &Tag, b: &Tag) -> (r: bool)
    ensures
        r == (tag_key(*a) == tag_key(*b)),
{
    a.authenticate == b.authenticate && same_cwd(&a.cwd, &b.cwd) && a.env == b.env && same_profile(
        &a.apparmor_profile,
        &b.apparmor_profile,
    ) && a.noexec == b.noexec && same_spans(&a.ignored, &b.ignored)
}

fn write_verbose_tag(out: &mut String, t: &Tag)
    ensures
        final(out)@ == old(out)@ + verbose_tag_text(*t),
{
    let ghost start = out@;
    if t.authenticate != Authenticate::Unspecified {
        out.append("\n    Options: ");
        if t.authenticate != Authenticate::Passwd {
            out.append("!");
        }
        out.append("authenticate");
    }
    if let Some(c) = &t.cwd {
        out.append("\n    Cwd: ");
        write_chdir(out, c);
    }
}

pub open spec fn runas_view(r: Option<&RunAs>) -> Option<RunAs> {
    match r {
        Some(x) => Some(*x),
        None => None,
    }
}

pub open spec fn opt_str(o: Option<&str>) -> Option<Seq<char>> {
    match o {
        Some(c) => Some(c@),
        None => None,
    }
}

fn write_effective_users(out: &mut String, run_as: Option<&RunAs>, root_name: &str, current: Option<&str>)
    ensures
        final(out)@ == old(out)@ + users_text(
            effective_users(runas_view(run_as), root_name@),
            current_text(opt_str(current)),
        ),
{
    match run_as {
        Some(ra) => {
            write_users(out, ra, current);
        },
        None => {
            out.append(root_name);
            proof {
                assert(users_text(seq![root_name@], current_text(opt_str(current))) =~= root_name@);
            }
        },
    }
}

fn write_effective_groups(out: &mut String, run_as: Option<&RunAs>) -> (has_groups: bool)
    ensures
        final(out)@ == old(out)@ + joined(effective_groups(runas_view(run_as)), ", "@),
        has_groups == (effective_groups(runas_view(run_as)).len() > 0),
{
    match run_as {
        Some(ra) => {
            write_groups(out, ra);
            ra.groups.len() > 0
        },
        None => {
            proof {
                assert(joined(Seq::<Seq<char>>::empty(), ", "@) =~= Seq::<char>::empty());
            }
            false
        },
    }
}

impl<'a> Entry<'a> {
    pub closed spec fn spec_run_as(&self) -> Option<RunAs> {
        runas_view(self.run_as)
    }

    pub closed spec fn spec_tags(&self) -> Seq<Tag> {
        self.cmd_specs@.map_values(|p: (Tag, &Spec<Command>)| p.0)
    }

    pub closed spec fn spec_cmds(&self) -> Seq<Spec<Command>> {
        self.cmd_specs@.map_values(|p: (Tag, &Spec<Command>)| *p.1)
    }

    pub closed spec fn spec_defs(&self) -> Seq<Def<Command>> {
        self.cmd_alias.1@
    }

    pub closed spec fn spec_order(&self) -> Seq<usize> {
        self.cmd_alias.0@
    }

    /// An entry of at least one command.
    pub fn new(
        run_as: Option<&'a RunAs>,
        cmd_specs: Vec<(Tag, &'a Spec<Command>)>,
        cmd_alias: &'a VecOrd<Def<Command>>,
    ) -> (e: Entry<'a>)
        requires
            cmd_specs@.len() > 0,
        ensures
            e.spec_run_as() == runas_view(run_as),
            e.spec_tags() == cmd_specs@.map_values(|p: (Tag, &Spec<Command>)| p.0),
            e.spec_cmds() == cmd_specs@.map_values(|p: (Tag, &Spec<Command>)| *p.1),
            e.spec_defs() == cmd_alias.1@,
            e.spec_order() == cmd_alias.0@,
    {
        Entry { run_as, cmd_specs, cmd_alias }
    }

    /// The entry's line of `sudo --list`. Without a runas specification the commands run as
    /// root, named `root_name`; a runas specification without users names the invoking user,
    /// `current` (`?` when it is not known).
    pub fn to_text(&self, root_name: &str, current: Option<&str>) -> (s: String)
        ensures
            s@ == entry_text(
                effective_users(self.spec_run_as(), root_name@),
                effective_groups(self.spec_run_as()),
                self.spec_tags(),
                self.spec_cmds(),
                self.spec_defs(),
                self.spec_order(),
                current_text(opt_str(current)),
            ),
    {
        let ghost users = effective_users(self.spec_run_as(), root_name@);
        let ghost groups = effective_groups(self.spec_run_as());
        let ghost cur = current_text(opt_str(current));
        let ghost tags = self.spec_tags();
        let ghost cmds = self.spec_cmds();
        let mut out = String::new();
        out.append("    (");
        write_effective_users(&mut out, self.run_as, root_name, current);
        let ghost after_users = out@;
        let mut groups_out = String::new();
        let has_groups = write_effective_groups(&mut groups_out, self.run_as);
        if has_groups {
            out.append(" : ");
        }
        out.append(groups_out.as_str());
        out.append(") ");
        let ghost head = out@;
        proof {
            assert(head =~= "    ("@ + users_text(users, cur) + (if groups.len() > 0 {
                " : "@
            } else {
                Seq::empty()
            }) + joined(groups, ", "@) + ") "@);
        }
        let mut k: usize = 0;
        while k < self.cmd_specs.len()
            invariant
                k <= self.cmd_specs@.len(),
                tags == self.spec_tags(),
                cmds == self.spec_cmds(),
                tags.len() == self.cmd_specs@.len(),
                cmds.len() == self.cmd_specs@.len(),
                out@ == head + line_text(tags, cmds, k as int, self.spec_defs(), self.spec_order()),
            decreases self.cmd_specs@.len() - k,
        {
            let ghost before = out@;
            if k > 0 {
                out.append(", ");
            }
            let last = if k == 0 {
                None
            } else {
                Some(&self.cmd_specs[k - 1].0)
            };
            write_tag(&mut out, &self.cmd_specs[k].0, last);
            write_spec(&mut out, self.cmd_specs[k].1, &self.cmd_alias.1, &self.cmd_alias.0, 0, false, ", ");
            proof {
                assert(tags[k as int] == self.cmd_specs@[k as int].0);
                assert(cmds[k as int] == *self.cmd_specs@[k as int].1);
                if k > 0 {
                    assert(tags[k - 1] == self.cmd_specs@[k - 1].0);
                }
                assert(out@ =~= head + line_text(tags, cmds, k + 1, self.spec_defs(), self.spec_order()));
            }
            k += 1;
        }
        out
    }

    /// The entry in the verbose form of `sudo --list`: see `to_text` for the names.
    pub fn verbose(&self, root_name: &str, current: Option<&str>) -> (s: String)
        ensures
            s@ == verbose_lines(
                effective_users(self.spec_run_as(), root_name@),
                effective_groups(self.spec_run_as()),
                self.spec_tags(),
                self.spec_cmds(),
                self.spec_cmds().len() as int,
                self.spec_defs(),
                self.spec_order(),
                current_text(opt_str(current)),
            ),
    {
        let ghost users = effective_users(self.spec_run_as(), root_name@);
        let ghost groups = effective_groups(self.spec_run_as());
        let ghost cur = current_text(opt_str(current));
        let ghost tags = self.spec_tags();
        let ghost cmds = self.spec_cmds();
        let mut header = String::new();
        header.append("\nSudoers entry:");
        header.append("\n    RunAsUsers: ");
        write_effective_users(&mut header, self.run_as, root_name, current);
        let mut groups_out = String::new();
        let has_groups = write_effective_groups(&mut groups_out, self.run_as);
        if has_groups {
            header.append("\n    RunAsGroups: ");
            header.append(groups_out.as_str());
        }
        proof {
            assert(header@ =~= entry_header_text(users, groups, cur));
        }
        let mut out = String::new();
        let mut k: usize = 0;
        while k < self.cmd_specs.len()
            invariant
                k <= self.cmd_specs@.len(),
                tags == self.spec_tags(),
                cmds == self.spec_cmds(),
                tags.len() == self.cmd_specs@.len(),
                cmds.len() == self.cmd_specs@.len(),
                header@ == entry_header_text(users, groups, cur),
                out@ == verbose_lines(users, groups, tags, cmds, k as int, self.spec_defs(), self.spec_order(), cur),
            decreases self.cmd_specs@.len() - k,
        {
            let ghost before = out@;
            let tag = &self.cmd_specs[k].0;
            let new_block = k == 0 || !same_tag(tag, &self.cmd_specs[k - 1].0);
            if new_block {
                if k > 0 {
                    out.append("\n");
                }
                out.append(header.as_str());
                write_verbose_tag(&mut out, tag);
                out.append("\n    Commands:");
            }
            out.append("\n\t");
            write_spec(&mut out, self.cmd_specs[k].1, &self.cmd_alias.1, &self.cmd_alias.0, 0, false, "\n\t");
            proof {
                assert(tags[k as int] == self.cmd_specs@[k as int].0);
                assert(cmds[k as int] == *self.cmd_specs@[k as int].1);
                if k > 0 {
                    assert(tags[k - 1] == self.cmd_specs@[k - 1].0);
                }
                assert(out@ =~= verbose_lines(users, groups, tags, cmds, k + 1, self.spec_defs(), self.spec_order(), cur));
            }
            k += 1;
        }
        out
    }
}

} // verus!
