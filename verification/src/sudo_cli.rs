//! Command line parsing for `sudo`: splitting the arguments into flags, option arguments,
//! environment assignments and the command, collecting them into options, and deciding which
//! action is asked for.

use vstd::prelude::*;
use crate::path_name::{file_name, file_name_range};
use crate::su_cli::{opt_view, strings_view};
use crate::text::{
    char_is_alphanumeric, chars_eq_str, chars_of, concat, copy_string, find_char, is_alphanumeric,
    lemma_find_char, owned, position_of, split_chars, split_on, starts_with_str,
    string_from_chars, string_from_range,
};

verus! {

broadcast use vstd::string::group_string_axioms;

/// The program was started under a name beginning with `sudoedit`.
pub open spec fn invoked_as_sudoedit(command_path: Option<Seq<char>>) -> bool {
    let p = match command_path {
        Some(p) => p,
        None => Seq::empty(),
    };
    match file_name(p) {
        Some(n) => n.len() >= 8 && n.take(8) == "sudoedit"@,
        None => false,
    }
}

/// Whether the program's own path names `sudoedit`.
pub fn is_sudoedit(command_path: Option<String>) -> (b: bool)
    ensures
        b == invoked_as_sudoedit(opt_view(command_path)),
{
    proof {
        reveal_strlit("sudoedit");
    }
    let v = match command_path {
        Some(p) => chars_of(p.as_str()),
        None => Vec::new(),
    };
    proof {
        if command_path is None {
            assert(v@ =~= Seq::<char>::empty());
        }
    }
    match file_name_range(v.as_slice()) {
        Some((a, b)) => {
            if b - a >= 8 {
                let name = vstd::slice::slice_subrange(v.as_slice(), a, a + 8);
                let r = chars_eq_str(name, "sudoedit");
                proof {
                    assert(name@ =~= v@.subrange(a as int, b as int).take(8));
                }
                r
            } else {
                false
            }
        },
        None => false,
    }
}

// ---------------------------------------------------------------------------------------------
// Environment assignments
// ---------------------------------------------------------------------------------------------

/// A character allowed in the name of an environment assignment `NAME=value`.
pub open spec fn env_name_char(c: char) -> bool {
    char_is_alphanumeric(c) || c == '_'
}

/// `NAME=value`, split at the first `=`, where the name holds alphanumeric characters and `_`
/// only.
pub open spec fn env_assignment(arg: Seq<char>) -> Option<(Seq<char>, Seq<char>)> {
    match find_char(arg, '=') {
        Some(e) => if forall|j: int| 0 <= j < e ==> env_name_char(#[trigger] arg[j]) {
            Some((arg.take(e), arg.skip(e + 1)))
        } else {
            None
        },
        None => None,
    }
}

/// Split an environment assignment `NAME=value`.
pub fn try_to_env_var(arg: &str) -> (r: Option<(String, String)>)
    ensures
        match env_assignment(arg@) {
            Some((n, v)) => r matches Some((a, b)) && a@ == n && b@ == v,
            None => r is None,
        },
{
    let v = chars_of(arg);
    match position_of(v.as_slice(), '=') {
        Some(e) => {
            proof {
                lemma_find_char(v@, '=');
            }
            let mut j: usize = 0;
            while j < e
                invariant
                    e < v@.len(),
                    v@ == arg@,
                    find_char(arg@, '=') == Some(e as int),
                    j <= e,
                    forall|k: int| 0 <= k < j ==> env_name_char(#[trigger] v@[k]),
                decreases e - j,
            {
                let c = v[j];
                if !(is_alphanumeric(c) || c == '_') {
                    assert(!env_name_char(arg@[j as int]));
                    assert(!(forall|k: int| 0 <= k < e ==> env_name_char(#[trigger] arg@[k])));
                    assert(find_char(arg@, '=') == Some(e as int));
                    assert(env_assignment(arg@) is None);
                    return None;
                }
                j += 1;
            }
            let name = string_from_range(v.as_slice(), 0, e);
            let value = string_from_range(v.as_slice(), e + 1, v.len());
            proof {
                assert(name@ =~= v@.take(e as int));
                assert(value@ =~= v@.skip(e + 1));
            }
            Some((name, value))
        },
        None => None,
    }
}

// ---------------------------------------------------------------------------------------------
// Splitting the arguments
// ---------------------------------------------------------------------------------------------

/// One command line argument after splitting clusters of short flags and `--key=value` forms.
pub enum SudoArg {
    Flag(String),
    Argument(String, String),
    Environment(String, String),
    Rest(Vec<String>),
}

/// A [`SudoArg`] with its strings as character sequences.
pub enum ArgModel {
    Flag(Seq<char>),
    Argument(Seq<char>, Seq<char>),
    Environment(Seq<char>, Seq<char>),
    Rest(Seq<Seq<char>>),
}

impl SudoArg {
    pub open spec fn model(&self) -> ArgModel {
        match self {
            SudoArg::Flag(f) => ArgModel::Flag(f@),
            SudoArg::Argument(o, v) => ArgModel::Argument(o@, v@),
            SudoArg::Environment(k, v) => ArgModel::Environment(k@, v@),
            SudoArg::Rest(r) => ArgModel::Rest(strings_view(r@)),
        }
    }
}

pub open spec fn args_view(v: Seq<SudoArg>) -> Seq<ArgModel> {
    v.map_values(|a: SudoArg| a.model())
}

/// The short options that take an argument.
pub open spec fn short_takes_argument(c: char) -> bool {
    c == 'D' || c == 'g' || c == 'h' || c == 'p' || c == 'R' || c == 'U' || c == 'u'
}

/// The long options that take an argument.
pub open spec fn long_takes_argument(key: Seq<char>) -> bool {
    key == "chdir"@ || key == "group"@ || key == "host"@ || key == "chroot"@ || key
        == "other-user"@ || key == "user"@ || key == "prompt"@
}

/// `a` in front of the arguments that `r` holds, or the error of `r`.
pub open spec fn prepend(a: ArgModel, r: Result<Seq<ArgModel>, Seq<char>>) -> Result<
    Seq<ArgModel>,
    Seq<char>,
> {
    match r {
        Ok(s) => Ok(seq![a] + s),
        Err(e) => Err(e),
    }
}

pub open spec fn does_not_take_arguments(key: Seq<char>) -> Seq<char> {
    "'"@ + key + "' does not take any arguments"@
}

pub open spec fn expects_an_argument(option: Seq<char>) -> Seq<char> {
    "'"@ + option + "' expects an argument"@
}

/// Splitting the arguments (without the program name): `--` ends the options; `--key=value`
/// and `--key value` give an option with its argument; clusters of short flags are split, where
/// a short option that takes an argument takes the rest of the cluster or the next argument;
/// `NAME=value` is an environment assignment; the first other argument starts the command.
pub open spec fn normalize(args: Seq<Seq<char>>) -> Result<Seq<ArgModel>, Seq<char>>
    decreases args.len(), 0int,
{
    if args.len() == 0 {
        Ok(Seq::empty())
    } else {
        let arg = args[0];
        let rest = args.drop_first();
        if arg == "--"@ {
            Ok(seq![ArgModel::Rest(rest)])
        } else if arg.len() >= 2 && arg.take(2) == "--"@ {
            let unprefixed = arg.skip(2);
            match find_char(unprefixed, '=') {
                Some(e) => {
                    let key = unprefixed.take(e);
                    if !long_takes_argument(key) && key != "preserve-env"@ {
                        Err(does_not_take_arguments(key))
                    } else {
                        prepend(
                            ArgModel::Argument("--"@ + key, unprefixed.skip(e + 1)),
                            normalize(rest),
                        )
                    }
                },
                None => if long_takes_argument(unprefixed) {
                    if rest.len() > 0 {
                        prepend(ArgModel::Argument(arg, rest[0]), normalize(rest.drop_first()))
                    } else {
                        Err(expects_an_argument(arg))
                    }
                } else {
                    prepend(ArgModel::Flag(arg), normalize(rest))
                },
            }
        } else if arg.len() >= 1 && arg[0] == '-' {
            normalize_short(arg, 1, rest)
        } else {
            match env_assignment(arg) {
                Some((k, v)) => prepend(ArgModel::Environment(k, v), normalize(rest)),
                None => Ok(seq![ArgModel::Rest(args)]),
            }
        }
    }
}

/// Splitting the cluster of short flags `arg[k..]`, followed by the arguments `rest`.
pub open spec fn normalize_short(arg: Seq<char>, k: int, rest: Seq<Seq<char>>) -> Result<
    Seq<ArgModel>,
    Seq<char>,
>
    decreases rest.len(), if 0 <= k <= arg.len() {
        arg.len() - k + 1
    } else {
        1
    },
{
    if k < 0 || k >= arg.len() {
        normalize(rest)
    } else {
        let curr = arg[k];
        let flag = seq!['-', curr];
        if short_takes_argument(curr) {
            if k + 1 < arg.len() {
                if arg[k + 1] == '=' {
                    Err("invalid option '='"@)
                } else {
                    prepend(ArgModel::Argument(flag, arg.skip(k + 1)), normalize(rest))
                }
            } else if rest.len() > 0 {
                prepend(ArgModel::Argument(flag, rest[0]), normalize(rest.drop_first()))
            } else if curr == 'h' {
                prepend(ArgModel::Flag(flag), normalize(rest))
            } else {
                Err(expects_an_argument(flag))
            }
        } else {
            prepend(ArgModel::Flag(flag), normalize_short(arg, k + 1, rest))
        }
    }
}

fn short_option_takes_argument(c: char) -> (b: bool)
    ensures
        b == short_takes_argument(c),
{
    c == 'D' || c == 'g' || c == 'h' || c == 'p' || c == 'R' || c == 'U' || c == 'u'
}

fn long_option_takes_argument(key: &[char]) -> (b: bool)
    ensures
        b == long_takes_argument(key@),
{
    chars_eq_str(key, "chdir") || chars_eq_str(key, "group") || chars_eq_str(key, "host")
        || chars_eq_str(key, "chroot") || chars_eq_str(key, "other-user") || chars_eq_str(
        key,
        "user",
    ) || chars_eq_str(key, "prompt")
}

/// `a` followed by the arguments of `r`.
fn prepend_arg(a: SudoArg, r: Result<Vec<SudoArg>, String>) -> (res: Result<Vec<SudoArg>, String>)
    ensures
        match prepend(a.model(), r_view(r)) {
            Ok(s) => res matches Ok(v) && args_view(v@) == s,
            Err(e) => res matches Err(x) && x@ == e,
        },
{
    match r {
        Ok(rest) => {
            let mut v: Vec<SudoArg> = Vec::new();
            v.push(a);
            let ghost first = v@;
            let mut rest = rest;
            v.append(&mut rest);
            proof {
                assert(args_view(v@) =~= seq![a.model()] + args_view(r->Ok_0@));
            }
            Ok(v)
        },
        Err(e) => Err(e),
    }
}

pub open spec fn r_view(r: Result<Vec<SudoArg>, String>) -> Result<Seq<ArgModel>, Seq<char>> {
    match r {
        Ok(v) => Ok(args_view(v@)),
        Err(e) => Err(e@),
    }
}

fn copy_rest(args: &Vec<String>, from: usize) -> (v: Vec<String>)
    requires
        from <= args@.len(),
    ensures
        strings_view(v@) == strings_view(args@).skip(from as int),
{
    let mut v: Vec<String> = Vec::new();
    let mut i = from;
    while i < args.len()
        invariant
            from <= i <= args@.len(),
            strings_view(v@) == strings_view(args@).subrange(from as int, i as int),
        decreases args.len() - i,
    {
        let ghost old_v = v@;
        v.push(copy_string(&args[i]));
        i += 1;
        proof {
            assert(strings_view(v@) =~= strings_view(old_v).push(args@[i - 1]@));
            assert(strings_view(args@).subrange(from as int, i as int) =~= strings_view(
                args@,
            ).subrange(from as int, i - 1).push(args@[i - 1]@));
        }
    }
    proof {
        assert(strings_view(args@).subrange(from as int, args@.len() as int) =~= strings_view(
            args@,
        ).skip(from as int));
    }
    v
}

proof fn lemma_skip_first(args: Seq<Seq<char>>, i: int)
    requires
        0 <= i < args.len(),
    ensures
        args.skip(i)[0] == args[i],
        args.skip(i).drop_first() == args.skip(i + 1),
        args.skip(i).len() == args.len() - i,
{
    assert(args.skip(i).drop_first() =~= args.skip(i + 1));
}

/// Split the arguments `args[i..]`.
fn normalize_from(args: &Vec<String>, i: usize) -> (r: Result<Vec<SudoArg>, String>)
    requires
        i <= args@.len(),
    ensures
        r_view(r) == normalize(strings_view(args@).skip(i as int)),
    decreases args@.len() - i, 0int,
{
    let ghost all = strings_view(args@);
    if i >= args.len() {
        let v: Vec<SudoArg> = Vec::new();
        proof {
            assert(all.skip(i as int).len() == 0);
            assert(args_view(v@) =~= Seq::<ArgModel>::empty());
        }
        return Ok(v);
    }
    proof {
        lemma_skip_first(all, i as int);
        reveal_strlit("--");
        reveal_strlit("preserve-env");
    }
    let arg = copy_string(&args[i]);
    let a = chars_of(arg.as_str());
    assert(a@ == all.skip(i as int)[0]);
    if chars_eq_str(a.as_slice(), "--") {
        let rest = copy_rest(args, i + 1);
        let mut v: Vec<SudoArg> = Vec::new();
        v.push(SudoArg::Rest(rest));
        proof {
            assert(args_view(v@) =~= seq![ArgModel::Rest(all.skip(i + 1))]);
        }
        Ok(v)
    } else if starts_with_str(a.as_slice(), "--") {
        let unprefixed = vstd::slice::slice_subrange(a.as_slice(), 2, a.len());
        assert(unprefixed@ =~= a@.skip(2));
        match position_of(unprefixed, '=') {
            Some(e) => {
                proof {
                    lemma_find_char(unprefixed@, '=');
                }
                let key = vstd::slice::slice_subrange(unprefixed, 0, e);
                assert(key@ =~= unprefixed@.take(e as int));
                if !long_option_takes_argument(key) && !chars_eq_str(key, "preserve-env") {
                    let mut msg = concat("'", string_from_chars(key).as_str());
                    msg.append("' does not take any arguments");
                    return Err(msg);
                }
                let option = concat("--", string_from_chars(key).as_str());
                let value = string_from_range(unprefixed, e + 1, unprefixed.len());
                assert(value@ =~= unprefixed@.skip(e + 1));
                prepend_arg(SudoArg::Argument(option, value), normalize_from(args, i + 1))
            },
            None => {
                if long_option_takes_argument(unprefixed) {
                    if i + 1 < args.len() {
                        proof {
                            lemma_skip_first(all, i + 1);
                        }
                        let next = copy_string(&args[i + 1]);
                        prepend_arg(SudoArg::Argument(arg, next), normalize_from(args, i + 2))
                    } else {
                        let mut msg = concat("'", arg.as_str());
                        msg.append("' expects an argument");
                        Err(msg)
                    }
                } else {
                    prepend_arg(SudoArg::Flag(arg), normalize_from(args, i + 1))
                }
            },
        }
    } else if starts_with_str(a.as_slice(), "-") {
        proof {
            reveal_strlit("-");
            assert(a@.take(1)[0] == a@[0]);
            if a@.len() >= 2 && a@.take(2) == "--"@ {
                assert(a@.take(2)[0] == '-' && a@.take(2)[1] == '-');
                assert(a@.subrange(0, 2) == a@.take(2));
            }
        }
        normalize_short_from(args, i + 1, a.as_slice(), 1)
    } else {
        proof {
            reveal_strlit("-");
            if a@.len() >= 1 && a@[0] == '-' {
                assert(a@.subrange(0, 1) =~= "-"@);
            }
            if a@.len() >= 2 && a@.take(2) == "--"@ {
                assert(a@.take(2)[0] == '-');
                assert(a@.subrange(0, 1) =~= "-"@);
            }
        }
        match try_to_env_var(arg.as_str()) {
            Some((k, v)) => prepend_arg(SudoArg::Environment(k, v), normalize_from(args, i + 1)),
            None => {
                let rest = copy_rest(args, i);
                let mut v: Vec<SudoArg> = Vec::new();
                v.push(SudoArg::Rest(rest));
                proof {
                    assert(args_view(v@) =~= seq![ArgModel::Rest(all.skip(i as int))]);
                }
                Ok(v)
            },
        }
    }
}

/// Split the cluster of short flags `arg[k..]`, followed by the arguments `args[i..]`.
fn normalize_short_from(args: &Vec<String>, i: usize, arg: &[char], k: usize) -> (r: Result<
    Vec<SudoArg>,
    String,
>)
    requires
        i <= args@.len(),
        1 <= k <= arg@.len(),
    ensures
        r_view(r) == normalize_short(arg@, k as int, strings_view(args@).skip(i as int)),
    decreases args@.len() - i, arg@.len() - k + 1,
{
    let ghost all = strings_view(args@);
    if k >= arg.len() {
        return normalize_from(args, i);
    }
    let curr = arg[k];
    let one = [curr];
    let flag = concat("-", string_from_chars(&one).as_str());
    proof {
        reveal_strlit("-");
        assert(flag@ =~= seq!['-', curr]);
    }
    if short_option_takes_argument(curr) {
        if k + 1 < arg.len() {
            if arg[k + 1] == '=' {
                Err(owned("invalid option '='"))
            } else {
                let value = string_from_range(arg, k + 1, arg.len());
                assert(value@ =~= arg@.skip(k + 1));
                prepend_arg(SudoArg::Argument(flag, value), normalize_from(args, i))
            }
        } else if i < args.len() {
            proof {
                lemma_skip_first(all, i as int);
            }
            let next = copy_string(&args[i]);
            prepend_arg(SudoArg::Argument(flag, next), normalize_from(args, i + 1))
        } else if curr == 'h' {
            prepend_arg(SudoArg::Flag(flag), normalize_from(args, i))
        } else {
            let mut msg = concat("'", flag.as_str());
            msg.append("' expects an argument");
            Err(msg)
        }
    } else {
        prepend_arg(SudoArg::Flag(flag), normalize_short_from(args, i, arg, k + 1))
    }
}

impl SudoArg {
    /// Split the arguments (the program name left out) into flags, options with their
    /// arguments, environment assignments and the command with its arguments.
    pub fn normalize_arguments(args: &Vec<String>) -> (r: Result<Vec<SudoArg>, String>)
        ensures
            r_view(r) == normalize(strings_view(args@)),
    {
        proof {
            assert(strings_view(args@).skip(0) =~= strings_view(args@));
        }
        normalize_from(args, 0)
    }
}


// ---------------------------------------------------------------------------------------------
// Collecting the options
// ---------------------------------------------------------------------------------------------

/// `-l` once or twice.
#[derive(Debug, Clone, Copy, PartialEq, Eq, Structural)]
pub enum List {
    Once,
    Verbose,
}

impl List {
    pub fn is_verbose(&self) -> (b: bool)
        ensures
            b == (*self == List::Verbose),
    {
        match self {
            List::Verbose => true,
            List::Once => false,
        }
    }
}

/// All the options of the command line, before the action is decided.
pub struct SudoOptions {
    pub askpass: bool,
    pub bell: bool,
    pub chdir: Option<String>,
    pub group: Option<String>,
    pub login: bool,
    pub non_interactive: bool,
    pub other_user: Option<String>,
    pub shell: bool,
    pub stdin: bool,
    pub prompt: Option<String>,
    pub user: Option<String>,
    pub env_var_list: Vec<(String, String)>,
    pub edit: bool,
    pub help: bool,
    pub list: Option<List>,
    pub remove_timestamp: bool,
    pub reset_timestamp: bool,
    pub validate: bool,
    pub version: bool,
    pub positional_args: Vec<String>,
}

/// [`SudoOptions`] with its strings as character sequences.
pub struct OptModel {
    pub askpass: bool,
    pub bell: bool,
    pub chdir: Option<Seq<char>>,
    pub group: Option<Seq<char>>,
    pub login: bool,
    pub non_interactive: bool,
    pub other_user: Option<Seq<char>>,
    pub shell: bool,
    pub stdin: bool,
    pub prompt: Option<Seq<char>>,
    pub user: Option<Seq<char>>,
    pub env_var_list: Seq<(Seq<char>, Seq<char>)>,
    pub edit: bool,
    pub help: bool,
    pub list: Option<List>,
    pub remove_timestamp: bool,
    pub reset_timestamp: bool,
    pub validate: bool,
    pub version: bool,
    pub positional_args: Seq<Seq<char>>,
}

pub open spec fn pairs_view(v: Seq<(String, String)>) -> Seq<(Seq<char>, Seq<char>)> {
    v.map_values(|p: (String, String)| (p.0@, p.1@))
}

impl SudoOptions {
    pub open spec fn model(&self) -> OptModel {
        OptModel {
            askpass: self.askpass,
            bell: self.bell,
            chdir: opt_view(self.chdir),
            group: opt_view(self.group),
            login: self.login,
            non_interactive: self.non_interactive,
            other_user: opt_view(self.other_user),
            shell: self.shell,
            stdin: self.stdin,
            prompt: opt_view(self.prompt),
            user: opt_view(self.user),
            env_var_list: pairs_view(self.env_var_list@),
            edit: self.edit,
            help: self.help,
            list: self.list,
            remove_timestamp: self.remove_timestamp,
            reset_timestamp: self.reset_timestamp,
            validate: self.validate,
            version: self.version,
            positional_args: strings_view(self.positional_args@),
        }
    }
}

/// Nothing set.
pub open spec fn opt_default() -> OptModel {
    OptModel {
        askpass: false,
        bell: false,
        chdir: None,
        group: None,
        login: false,
        non_interactive: false,
        other_user: None,
        shell: false,
        stdin: false,
        prompt: None,
        user: None,
        env_var_list: Seq::empty(),
        edit: false,
        help: false,
        list: None,
        remove_timestamp: false,
        reset_timestamp: false,
        validate: false,
        version: false,
        positional_args: Seq::empty(),
    }
}

impl Default for SudoOptions {
    fn default() -> (o: Self)
        ensures
            o.model() == opt_default(),
    {
        let o = SudoOptions {
            askpass: false,
            bell: false,
            chdir: None,
            group: None,
            login: false,
            non_interactive: false,
            other_user: None,
            shell: false,
            stdin: false,
            prompt: None,
            user: None,
            env_var_list: Vec::new(),
            edit: false,
            help: false,
            list: None,
            remove_timestamp: false,
            reset_timestamp: false,
            validate: false,
            version: false,
            positional_args: Vec::new(),
        };
        assert(o.model().env_var_list =~= Seq::<(Seq<char>, Seq<char>)>::empty());
        assert(o.model().positional_args =~= Seq::<Seq<char>>::empty());
        o
    }
}

pub open spec fn is_flag(f: Seq<char>, short: Seq<char>, long: Seq<char>) -> bool {
    f == short || f == long
}

/// The flags without an argument, numbered: -A, -B, -E, -e (not when started as `sudoedit`),
/// -H, -h, -i, -K, -k, -l, -n, -S, -s, -V, -v; 15 for anything else.
#[verifier::opaque]
pub open spec fn flag_code(f: Seq<char>, invoked_as_sudoedit: bool) -> int {
    if is_flag(f, "-A"@, "--askpass"@) {
        0
    } else if is_flag(f, "-B"@, "--bell"@) {
        1
    } else if is_flag(f, "-E"@, "--preserve-env"@) {
        2
    } else if is_flag(f, "-e"@, "--edit"@) && !invoked_as_sudoedit {
        3
    } else if is_flag(f, "-H"@, "--set-home"@) {
        4
    } else if is_flag(f, "-h"@, "--help"@) {
        5
    } else if is_flag(f, "-i"@, "--login"@) {
        6
    } else if is_flag(f, "-K"@, "--remove-timestamp"@) {
        7
    } else if is_flag(f, "-k"@, "--reset-timestamp"@) {
        8
    } else if is_flag(f, "-l"@, "--list"@) {
        9
    } else if is_flag(f, "-n"@, "--non-interactive"@) {
        10
    } else if is_flag(f, "-S"@, "--stdin"@) {
        11
    } else if is_flag(f, "-s"@, "--shell"@) {
        12
    } else if is_flag(f, "-V"@, "--version"@) {
        13
    } else if is_flag(f, "-v"@, "--validate"@) {
        14
    } else {
        15
    }
}

/// The effect of a flag without an argument.
pub open spec fn flag_effect(m: OptModel, f: Seq<char>, invoked_as_sudoedit: bool) -> Result<
    OptModel,
    Seq<char>,
> {
    let c = flag_code(f, invoked_as_sudoedit);
    if c == 0 {
        Ok(OptModel { askpass: true, ..m })
    } else if c == 1 {
        Ok(OptModel { bell: true, ..m })
    } else if c == 2 || c == 4 {
        Ok(m)
    } else if c == 3 {
        Ok(OptModel { edit: true, ..m })
    } else if c == 5 {
        Ok(OptModel { help: true, ..m })
    } else if c == 6 {
        Ok(OptModel { login: true, ..m })
    } else if c == 7 {
        Ok(OptModel { remove_timestamp: true, ..m })
    } else if c == 8 {
        Ok(OptModel { reset_timestamp: true, ..m })
    } else if c == 9 {
        Ok(
            OptModel {
                list: match m.list {
                    None => Some(List::Once),
                    Some(_) => Some(List::Verbose),
                },
                ..m
            },
        )
    } else if c == 10 {
        Ok(OptModel { non_interactive: true, ..m })
    } else if c == 11 {
        Ok(OptModel { stdin: true, ..m })
    } else if c == 12 {
        Ok(OptModel { shell: true, ..m })
    } else if c == 13 {
        Ok(OptModel { version: true, ..m })
    } else if c == 14 {
        Ok(OptModel { validate: true, ..m })
    } else {
        Err("invalid option provided"@)
    }
}

/// The value of the first variable called `name` in `env`.
pub open spec fn env_lookup(env: Seq<(Seq<char>, Seq<char>)>, name: Seq<char>) -> Option<
    Seq<char>,
>
    decreases env.len(),
{
    if env.len() == 0 {
        None
    } else if env[0].0 == name {
        Some(env[0].1)
    } else {
        env_lookup(env.drop_first(), name)
    }
}

/// The variables among `names` that `env` holds, with their values, in the order of `names`.
pub open spec fn preserved(names: Seq<Seq<char>>, env: Seq<(Seq<char>, Seq<char>)>) -> Seq<
    (Seq<char>, Seq<char>),
>
    decreases names.len(),
{
    if names.len() == 0 {
        Seq::empty()
    } else {
        match env_lookup(env, names[0]) {
            Some(v) => seq![(names[0], v)] + preserved(names.drop_first(), env),
            None => preserved(names.drop_first(), env),
        }
    }
}

/// The effect of an option with an argument.
pub open spec fn argument_effect(
    m: OptModel,
    o: Seq<char>,
    v: Seq<char>,
    env: Seq<(Seq<char>, Seq<char>)>,
) -> Result<OptModel, Seq<char>> {
    if is_flag(o, "-D"@, "--chdir"@) {
        Ok(OptModel { chdir: Some(v), ..m })
    } else if is_flag(o, "-E"@, "--preserve-env"@) {
        Ok(OptModel { env_var_list: m.env_var_list + preserved(split_on(v, ','), env), ..m })
    } else if is_flag(o, "-g"@, "--group"@) {
        Ok(OptModel { group: Some(v), ..m })
    } else if is_flag(o, "-p"@, "--prompt"@) {
        Ok(OptModel { prompt: Some(v), ..m })
    } else if is_flag(o, "-U"@, "--other-user"@) {
        Ok(OptModel { other_user: Some(v), ..m })
    } else if is_flag(o, "-u"@, "--user"@) {
        Ok(OptModel { user: Some(v), ..m })
    } else {
        Err("invalid option provided"@)
    }
}

/// The path names `sudoedit` itself (not a directory of that name).
pub open spec fn names_sudoedit(cmd: Seq<char>) -> bool {
    !(cmd.len() > 0 && cmd.last() == '/') && (file_name(cmd) == Some("sudoedit"@) || file_name(
        cmd,
    ) == Some("sudoedit-rs"@))
}

/// The effect of the command and its arguments: a command `sudoedit` turns into editing.
pub open spec fn rest_effect(m: OptModel, rest: Seq<Seq<char>>) -> OptModel {
    if rest.len() > 0 && !m.edit && names_sudoedit(rest[0]) {
        OptModel { edit: true, positional_args: rest.drop_first(), ..m }
    } else {
        OptModel { positional_args: rest, ..m }
    }
}

pub open spec fn arg_effect(
    m: OptModel,
    a: ArgModel,
    invoked_as_sudoedit: bool,
    env: Seq<(Seq<char>, Seq<char>)>,
) -> Result<OptModel, Seq<char>> {
    match a {
        ArgModel::Flag(f) => flag_effect(m, f, invoked_as_sudoedit),
        ArgModel::Argument(o, v) => argument_effect(m, o, v, env),
        ArgModel::Environment(k, v) => Ok(OptModel { env_var_list: m.env_var_list.push((k, v)), ..m }),
        ArgModel::Rest(r) => Ok(rest_effect(m, r)),
    }
}

pub open spec fn apply_all(
    m: OptModel,
    args: Seq<ArgModel>,
    invoked_as_sudoedit: bool,
    env: Seq<(Seq<char>, Seq<char>)>,
) -> Result<OptModel, Seq<char>>
    decreases args.len(),
{
    if args.len() == 0 {
        Ok(m)
    } else {
        match arg_effect(m, args[0], invoked_as_sudoedit, env) {
            Ok(m2) => apply_all(m2, args.drop_first(), invoked_as_sudoedit, env),
            Err(e) => Err(e),
        }
    }
}

/// The options that the command line `args` (the program's path first) gives, with `env` the
/// environment that `--preserve-env=NAMES` reads.
pub open spec fn parse_options(args: Seq<Seq<char>>, env: Seq<(Seq<char>, Seq<char>)>) -> Result<
    OptModel,
    Seq<char>,
> {
    let sudoedit = invoked_as_sudoedit(
        if args.len() > 0 {
            Some(args[0])
        } else {
            None
        },
    );
    let rest = if args.len() > 0 {
        args.drop_first()
    } else {
        args
    };
    match normalize(rest) {
        Ok(n) => apply_all(OptModel { edit: sudoedit, ..opt_default() }, n, sudoedit, env),
        Err(e) => Err(e),
    }
}

fn is_one_of(f: &[char], short: &str, long: &str) -> (b: bool)
    ensures
        b == is_flag(f@, short@, long@),
{
    chars_eq_str(f, short) || chars_eq_str(f, long)
}

fn flag_number(f: &[char], invoked_as_sudoedit: bool) -> (c: u8)
    ensures
        c == flag_code(f@, invoked_as_sudoedit),
{
    reveal(flag_code);
    if is_one_of(f, "-A", "--askpass") {
        0
    } else if is_one_of(f, "-B", "--bell") {
        1
    } else if is_one_of(f, "-E", "--preserve-env") {
        2
    } else if is_one_of(f, "-e", "--edit") && !invoked_as_sudoedit {
        3
    } else if is_one_of(f, "-H", "--set-home") {
        4
    } else if is_one_of(f, "-h", "--help") {
        5
    } else if is_one_of(f, "-i", "--login") {
        6
    } else if is_one_of(f, "-K", "--remove-timestamp") {
        7
    } else if is_one_of(f, "-k", "--reset-timestamp") {
        8
    } else if is_one_of(f, "-l", "--list") {
        9
    } else if is_one_of(f, "-n", "--non-interactive") {
        10
    } else if is_one_of(f, "-S", "--stdin") {
        11
    } else if is_one_of(f, "-s", "--shell") {
        12
    } else if is_one_of(f, "-V", "--version") {
        13
    } else if is_one_of(f, "-v", "--validate") {
        14
    } else {
        15
    }
}

/// Append the variables among the comma-separated `names` that `env` holds.
fn extend_preserved(list: &mut Vec<(String, String)>, names: &String, env: &Vec<(String, String)>)
    ensures
        pairs_view(final(list)@) == pairs_view(old(list)@) + preserved(
            split_on(names@, ','),
            pairs_view(env@),
        ),
{
    let vc = chars_of(names.as_str());
    let names = split_chars(vc.as_slice(), ',');
    let ghost nv = names@.map_values(|x: String| x@);
    let ghost start = pairs_view(list@);
    let ghost penv = pairs_view(env@);
    let mut i: usize = 0;
    proof {
        assert(nv.skip(0) =~= nv);
    }
    while i < names.len()
        invariant
            i <= names@.len(),
            nv == names@.map_values(|x: String| x@),
            penv == pairs_view(env@),
            pairs_view(list@) + preserved(nv.skip(i as int), penv) == start + preserved(nv, penv),
        decreases names.len() - i,
    {
        let name = chars_of(names[i].as_str());
        let ghost before = pairs_view(list@);
        proof {
            assert(nv.skip(i as int)[0] == nv[i as int]);
            assert(nv.skip(i as int).drop_first() =~= nv.skip(i + 1));
        }
        match lookup_env(env, name.as_slice()) {
            Some(val) => {
                list.push((copy_string(&names[i]), val));
                proof {
                    let p = (nv[i as int], env_lookup(penv, nv[i as int])->0);
                    assert(pairs_view(list@) =~= before.push(p));
                    assert(before.push(p) + preserved(nv.skip(i + 1), penv) =~= before + (seq![p]
                        + preserved(nv.skip(i + 1), penv)));
                }
            },
            None => {},
        }
        i += 1;
    }
    proof {
        assert(nv.skip(nv.len() as int) =~= Seq::<Seq<char>>::empty());
        assert(pairs_view(list@) + Seq::<(Seq<char>, Seq<char>)>::empty() =~= pairs_view(list@));
    }
}

fn lookup_env(env: &Vec<(String, String)>, name: &[char]) -> (r: Option<String>)
    ensures
        opt_view(r) == env_lookup(pairs_view(env@), name@),
{
    let ghost all = pairs_view(env@);
    let mut i: usize = 0;
    proof {
        assert(all.skip(0) =~= all);
    }
    while i < env.len()
        invariant
            i <= env@.len(),
            all == pairs_view(env@),
            env_lookup(all.skip(i as int), name@) == env_lookup(all, name@),
        decreases env.len() - i,
    {
        let key = chars_of(env[i].0.as_str());
        proof {
            assert(all.skip(i as int)[0] == all[i as int]);
            assert(all.skip(i as int).drop_first() =~= all.skip(i + 1));
        }
        if chars_eq(key.as_slice(), name) {
            return Some(copy_string(&env[i].1));
        }
        i += 1;
    }
    None
}

use crate::text::chars_eq;

impl SudoOptions {
    #[verifier::spinoff_prover]
    #[verifier::rlimit(50)]
    fn apply_flag(&mut self, f: &[char], invoked_as_sudoedit: bool) -> (r: Result<(), String>)
        ensures
            match flag_effect(old(self).model(), f@, invoked_as_sudoedit) {
                Ok(m) => r is Ok && final(self).model() == m,
                Err(e) => r matches Err(x) && x@ == e,
            },
    {
        let c = flag_number(f, invoked_as_sudoedit);
        if c == 0 {
            self.askpass = true;
        } else if c == 1 {
            self.bell = true;
        } else if c == 2 || c == 4 {
        } else if c == 3 {
            self.edit = true;
        } else if c == 5 {
            self.help = true;
        } else if c == 6 {
            self.login = true;
        } else if c == 7 {
            self.remove_timestamp = true;
        } else if c == 8 {
            self.reset_timestamp = true;
        } else if c == 9 {
            self.list = match self.list {
                None => Some(List::Once),
                Some(_) => Some(List::Verbose),
            };
        } else if c == 10 {
            self.non_interactive = true;
        } else if c == 11 {
            self.stdin = true;
        } else if c == 12 {
            self.shell = true;
        } else if c == 13 {
            self.version = true;
        } else if c == 14 {
            self.validate = true;
        } else {
            return Err(owned("invalid option provided"));
        }
        Ok(())
    }

    #[verifier::spinoff_prover]
    #[verifier::rlimit(50)]
    fn apply_argument(&mut self, o: &[char], v: String, env: &Vec<(String, String)>) -> (r: Result<
        (),
        String,
    >)
        ensures
            match argument_effect(old(self).model(), o@, v@, pairs_view(env@)) {
                Ok(m) => r is Ok && final(self).model() == m,
                Err(e) => r matches Err(x) && x@ == e,
            },
    {
        if is_one_of(o, "-D", "--chdir") {
            self.chdir = Some(v);
        } else if is_one_of(o, "-E", "--preserve-env") {
            extend_preserved(&mut self.env_var_list, &v, env);
        } else if is_one_of(o, "-g", "--group") {
            self.group = Some(v);
        } else if is_one_of(o, "-p", "--prompt") {
            self.prompt = Some(v);
        } else if is_one_of(o, "-U", "--other-user") {
            self.other_user = Some(v);
        } else if is_one_of(o, "-u", "--user") {
            self.user = Some(v);
        } else {
            return Err(owned("invalid option provided"));
        }
        Ok(())
    }
}


impl SudoOptions {
    /// Apply the command and its arguments.
    #[verifier::spinoff_prover]
    #[verifier::rlimit(50)]
    fn apply_rest(&mut self, rest: Vec<String>)
        ensures
            final(self).model() == rest_effect(old(self).model(), strings_view(rest@)),
    {
        let ghost rv = strings_view(rest@);
        let mut rest = rest;
        if rest.len() > 0 && !self.edit {
            let cmd = chars_of(rest[0].as_str());
            assert(cmd@ == rv[0]);
            let is_dir = cmd.len() > 0 && cmd[cmd.len() - 1] == '/';
            if !is_dir && names_sudoedit_exec(cmd.as_slice()) {
                self.edit = true;
                rest.remove(0);
                proof {
                    assert(strings_view(rest@) =~= rv.drop_first());
                }
            }
        }
        self.positional_args = rest;
    }

    /// Apply one split argument.
    fn apply_arg(&mut self, a: &SudoArg, invoked_as_sudoedit: bool, env: &Vec<(String, String)>) -> (r:
        Result<(), String>)
        ensures
            match arg_effect(old(self).model(), a.model(), invoked_as_sudoedit, pairs_view(env@)) {
                Ok(m) => r is Ok && final(self).model() == m,
                Err(e) => r matches Err(x) && x@ == e,
            },
    {
        match a {
            SudoArg::Flag(f) => {
                let fc = chars_of(f.as_str());
                self.apply_flag(fc.as_slice(), invoked_as_sudoedit)
            },
            SudoArg::Argument(o, v) => {
                let oc = chars_of(o.as_str());
                self.apply_argument(oc.as_slice(), copy_string(v), env)
            },
            SudoArg::Environment(k, v) => {
                let ghost before = pairs_view(self.env_var_list@);
                self.env_var_list.push((copy_string(k), copy_string(v)));
                proof {
                    assert(pairs_view(self.env_var_list@) =~= before.push((k@, v@)));
                }
                Ok(())
            },
            SudoArg::Rest(r) => {
                let mut copy: Vec<String> = Vec::new();
                let mut i: usize = 0;
                while i < r.len()
                    invariant
                        i <= r@.len(),
                        strings_view(copy@) == strings_view(r@).take(i as int),
                    decreases r.len() - i,
                {
                    let ghost before = copy@;
                    copy.push(copy_string(&r[i]));
                    i += 1;
                    proof {
                        assert(strings_view(copy@) =~= strings_view(before).push(r@[i - 1]@));
                        assert(strings_view(r@).take(i as int) =~= strings_view(r@).take(i - 1).push(
                            r@[i - 1]@,
                        ));
                    }
                }
                proof {
                    assert(strings_view(r@).take(r@.len() as int) =~= strings_view(r@));
                }
                self.apply_rest(copy);
                Ok(())
            },
        }
    }

    /// Collect the options of the command line `args`, whose first element is the program's
    /// path; `env` is the environment that `--preserve-env=NAMES` reads.
    #[verifier::spinoff_prover]
    pub fn try_parse_from(args: Vec<String>, env: &Vec<(String, String)>) -> (r: Result<
        SudoOptions,
        String,
    >)
        ensures
            match parse_options(strings_view(args@), pairs_view(env@)) {
                Ok(m) => r matches Ok(o) && o.model() == m,
                Err(e) => r matches Err(x) && x@ == e,
            },
    {
        let ghost av = strings_view(args@);
        let first = if args.len() > 0 {
            Some(copy_string(&args[0]))
        } else {
            None
        };
        let invoked = is_sudoedit(first);
        let mut options = SudoOptions::default();
        options.edit = invoked;
        let normalized = if args.len() > 0 {
            normalize_from(&args, 1)
        } else {
            normalize_from(&args, 0)
        };
        proof {
            if av.len() > 0 {
                assert(av.skip(1) =~= av.drop_first());
            } else {
                assert(av.skip(0) =~= av);
            }
        }
        let normalized = match normalized {
            Ok(n) => n,
            Err(e) => {
                assert(normalize(if av.len() > 0 { av.drop_first() } else { av }) == Err::<
                    Seq<ArgModel>,
                    Seq<char>,
                >(e@));
                return Err(e);
            },
        };
        let ghost nv = args_view(normalized@);
        let ghost m0 = options.model();
        let mut i: usize = 0;
        proof {
            assert(nv.skip(0) =~= nv);
            assert(m0 == OptModel { edit: invoked, ..opt_default() });
            assert(parse_options(av, pairs_view(env@)) == apply_all(m0, nv, invoked, pairs_view(env@)));
        }
        while i < normalized.len()
            invariant
                i <= normalized@.len(),
                nv == args_view(normalized@),
                av == strings_view(args@),
                parse_options(av, pairs_view(env@)) == apply_all(m0, nv, invoked, pairs_view(env@)),
                apply_all(options.model(), nv.skip(i as int), invoked, pairs_view(env@)) == apply_all(
                    m0,
                    nv,
                    invoked,
                    pairs_view(env@),
                ),
            decreases normalized.len() - i,
        {
            proof {
                assert(nv.skip(i as int)[0] == normalized@[i as int].model());
                assert(nv.skip(i as int).drop_first() =~= nv.skip(i + 1));
            }
            let r = options.apply_arg(&normalized[i], invoked, env);
            if let Err(e) = r {
                return Err(e);
            }
            i += 1;
        }
        Ok(options)
    }
}

fn names_sudoedit_exec(cmd: &[char]) -> (b: bool)
    requires
        !(cmd@.len() > 0 && cmd@.last() == '/'),
    ensures
        b == names_sudoedit(cmd@),
{
    match file_name_range(cmd) {
        Some((a, b)) => {
            let name = vstd::slice::slice_subrange(cmd, a, b);
            assert(name@ =~= cmd@.subrange(a as int, b as int));
            chars_eq_str(name, "sudoedit") || chars_eq_str(name, "sudoedit-rs")
        },
        None => false,
    }
}


// ---------------------------------------------------------------------------------------------
// Deciding the action
// ---------------------------------------------------------------------------------------------

pub open spec fn cannot_together(context: Seq<char>, option: Seq<char>) -> Seq<char> {
    context + " cannot be used together with "@ + option
}

/// The name of the first option (in a fixed order) that is set in `m`.
pub open spec fn first_conflict(m: OptModel) -> Option<Seq<char>> {
    if m.askpass {
        Some("--askpass"@)
    } else if m.bell {
        Some("--bell"@)
    } else if m.chdir is Some {
        Some("--chdir"@)
    } else if m.edit {
        Some("--edit"@)
    } else if m.group is Some {
        Some("--group"@)
    } else if m.help {
        Some("--help"@)
    } else if m.list is Some {
        Some("--list"@)
    } else if m.login {
        Some("--login"@)
    } else if m.non_interactive {
        Some("--non-interactive"@)
    } else if m.other_user is Some {
        Some("--other-user"@)
    } else if m.remove_timestamp {
        Some("--remove-timestamp"@)
    } else if m.reset_timestamp {
        Some("--reset-timestamp"@)
    } else if m.shell {
        Some("--shell"@)
    } else if m.stdin {
        Some("--stdin"@)
    } else if m.prompt is Some {
        Some("--prompt"@)
    } else if m.user is Some {
        Some("--user"@)
    } else if m.validate {
        Some("--validate"@)
    } else if m.version {
        Some("--version"@)
    } else if m.positional_args.len() > 0 {
        Some("command"@)
    } else if m.env_var_list.len() > 0 {
        Some("environment variable"@)
    } else {
        None
    }
}

/// No option is left over in `m`; otherwise the error names the first one.
pub open spec fn rejected(context: Seq<char>, m: OptModel) -> Result<(), Seq<char>> {
    match first_conflict(m) {
        Some(n) => Err(cannot_together(context, n)),
        None => Ok(()),
    }
}

pub open spec fn bell_and_stdin() -> Seq<char> {
    cannot_together("--bell"@, "--stdin"@)
}

pub open spec fn remove_timestamp_check(m: OptModel) -> Result<(), Seq<char>> {
    rejected("--remove-timestamp"@, OptModel { remove_timestamp: false, ..m })
}

pub open spec fn reset_timestamp_check(m: OptModel) -> Result<(), Seq<char>> {
    rejected("--reset-timestamp"@, OptModel { reset_timestamp: false, ..m })
}

pub open spec fn validate_check(m: OptModel) -> Result<(), Seq<char>> {
    if m.bell && m.stdin {
        Err(bell_and_stdin())
    } else {
        rejected(
            "--validate"@,
            OptModel {
                validate: false,
                askpass: false,
                bell: false,
                reset_timestamp: false,
                non_interactive: false,
                stdin: false,
                prompt: None,
                group: None,
                user: None,
                ..m
            },
        )
    }
}

pub open spec fn edit_check(m: OptModel) -> Result<(), Seq<char>> {
    if m.bell && m.stdin {
        Err(bell_and_stdin())
    } else {
        match rejected(
            "--edit"@,
            OptModel {
                edit: false,
                askpass: false,
                bell: false,
                reset_timestamp: false,
                non_interactive: false,
                stdin: false,
                prompt: None,
                chdir: None,
                group: None,
                user: None,
                positional_args: Seq::empty(),
                ..m
            },
        ) {
            Err(e) => Err(e),
            Ok(_) => if m.positional_args.len() == 0 {
                Err("must specify at least one file path"@)
            } else {
                Ok(())
            },
        }
    }
}

pub open spec fn list_check(m: OptModel) -> Result<(), Seq<char>> {
    if m.bell && m.stdin {
        Err(bell_and_stdin())
    } else if m.user is Some && m.positional_args.len() == 0 {
        Err("'--user' flag must be accompanied by a command"@)
    } else {
        rejected(
            "--list"@,
            OptModel {
                askpass: false,
                bell: false,
                list: None,
                reset_timestamp: false,
                non_interactive: false,
                stdin: false,
                prompt: None,
                group: None,
                other_user: None,
                user: None,
                positional_args: Seq::empty(),
                ..m
            },
        )
    }
}

pub open spec fn run_check(m: OptModel) -> Result<(), Seq<char>> {
    if m.bell && m.stdin {
        Err(bell_and_stdin())
    } else if m.login && m.shell {
        Err(cannot_together("--login"@, "--shell"@))
    } else if !m.login && !m.shell && m.positional_args.len() == 0 {
        Err("expected one of: --login, --shell, a command as a positional argument"@)
    } else {
        rejected(
            if m.login {
                "--login"@
            } else if m.shell {
                "--shell"@
            } else {
                "command (positional argument)"@
            },
            OptModel {
                askpass: false,
                bell: false,
                reset_timestamp: false,
                non_interactive: false,
                stdin: false,
                prompt: None,
                chdir: None,
                group: None,
                user: None,
                env_var_list: Seq::empty(),
                login: false,
                shell: false,
                positional_args: Seq::empty(),
                ..m
            },
        )
    }
}

/// The kinds of action.
#[derive(PartialEq, Eq, Structural)]
pub enum ActionKind {
    Edit,
    Help,
    List,
    RemoveTimestamp,
    ResetTimestamp,
    Run,
    Validate,
    Version,
}

pub open spec fn checked(r: Result<(), Seq<char>>, k: ActionKind) -> Result<ActionKind, Seq<char>> {
    match r {
        Ok(_) => Ok(k),
        Err(e) => Err(e),
    }
}

/// The action that the options ask for, in order of precedence: help, version, removing the
/// timestamp, validating, listing, editing, running, resetting the timestamp.
pub open spec fn decide(m: OptModel) -> Result<ActionKind, Seq<char>> {
    if m.help {
        Ok(ActionKind::Help)
    } else if m.version {
        Ok(ActionKind::Version)
    } else if m.remove_timestamp {
        checked(remove_timestamp_check(m), ActionKind::RemoveTimestamp)
    } else if m.validate {
        checked(validate_check(m), ActionKind::Validate)
    } else if m.list is Some {
        checked(list_check(m), ActionKind::List)
    } else if m.edit {
        checked(edit_check(m), ActionKind::Edit)
    } else if m.login || m.shell || m.positional_args.len() > 0 {
        checked(run_check(m), ActionKind::Run)
    } else if m.reset_timestamp {
        checked(reset_timestamp_check(m), ActionKind::ResetTimestamp)
    } else {
        Err(no_action())
    }
}

pub open spec fn no_action() -> Seq<char> {
    "expected one of these actions: --help, --version, --remove-timestamp, --validate, --list, --edit, --login, --shell, a command as a positional argument, --reset-timestamp"@
}

fn cannot_together_msg(context: &str, option: &str) -> (s: String)
    ensures
        s@ == cannot_together(context@, option@),
{
    let mut s = concat(context, " cannot be used together with ");
    s.append(option);
    s
}

/// Fail when any option is still set in `opts`, naming the first one.
fn reject_all(context: &str, opts: &SudoOptions) -> (r: Result<(), String>)
    ensures
        match rejected(context@, opts.model()) {
            Ok(_) => r is Ok,
            Err(e) => r matches Err(x) && x@ == e,
        },
{
    let name = if opts.askpass {
        "--askpass"
    } else if opts.bell {
        "--bell"
    } else if opts.chdir.is_some() {
        "--chdir"
    } else if opts.edit {
        "--edit"
    } else if opts.group.is_some() {
        "--group"
    } else if opts.help {
        "--help"
    } else if opts.list.is_some() {
        "--list"
    } else if opts.login {
        "--login"
    } else if opts.non_interactive {
        "--non-interactive"
    } else if opts.other_user.is_some() {
        "--other-user"
    } else if opts.remove_timestamp {
        "--remove-timestamp"
    } else if opts.reset_timestamp {
        "--reset-timestamp"
    } else if opts.shell {
        "--shell"
    } else if opts.stdin {
        "--stdin"
    } else if opts.prompt.is_some() {
        "--prompt"
    } else if opts.user.is_some() {
        "--user"
    } else if opts.validate {
        "--validate"
    } else if opts.version {
        "--version"
    } else if opts.positional_args.len() > 0 {
        "command"
    } else if opts.env_var_list.len() > 0 {
        "environment variable"
    } else {
        return Ok(());
    };
    Err(cannot_together_msg(context, name))
}

/// `sudo -h`
pub struct SudoHelpOptions {}

/// `sudo -V`
pub struct SudoVersionOptions {}

/// `sudo -K`
pub struct SudoRemoveTimestampOptions {}

/// `sudo -k`
pub struct SudoResetTimestampOptions {}

/// `sudo -v [-ABkNnS] [-g group] [-h host] [-p prompt] [-u user]`
pub struct SudoValidateOptions {
    pub askpass: bool,
    pub bell: bool,
    pub reset_timestamp: bool,
    pub non_interactive: bool,
    pub stdin: bool,
    pub prompt: Option<String>,
    pub group: Option<String>,
    pub user: Option<String>,
}

/// `sudo -e [-ABkNnS] [-C num] [-D directory] [-g group] [-p prompt] [-u user] file ...`
pub struct SudoEditOptions {
    pub askpass: bool,
    pub bell: bool,
    pub reset_timestamp: bool,
    pub non_interactive: bool,
    pub stdin: bool,
    pub prompt: Option<String>,
    pub chdir: Option<String>,
    pub group: Option<String>,
    pub user: Option<String>,
    pub positional_args: Vec<String>,
}

/// `sudo -l [-ABkNnS] [-g group] [-p prompt] [-U user] [-u user] [command [arg ...]]`
pub struct SudoListOptions {
    pub askpass: bool,
    pub bell: bool,
    pub list: List,
    pub reset_timestamp: bool,
    pub non_interactive: bool,
    pub stdin: bool,
    pub prompt: Option<String>,
    pub group: Option<String>,
    pub other_user: Option<String>,
    pub user: Option<String>,
    pub positional_args: Vec<String>,
}

/// `sudo [-ABbEHnPS] [-D directory] [-g group] [-p prompt] [-u user] [VAR=value] [-i | -s]
/// [command [arg ...]]`
pub struct SudoRunOptions {
    pub askpass: bool,
    pub bell: bool,
    pub reset_timestamp: bool,
    pub non_interactive: bool,
    pub stdin: bool,
    pub prompt: Option<String>,
    pub chdir: Option<String>,
    pub group: Option<String>,
    pub user: Option<String>,
    pub env_var_list: Vec<(String, String)>,
    pub login: bool,
    pub shell: bool,
    pub positional_args: Vec<String>,
}

pub open spec fn validate_fields(o: SudoValidateOptions, m: OptModel) -> bool {
    &&& o.askpass == m.askpass
    &&& o.bell == m.bell
    &&& o.reset_timestamp == m.reset_timestamp
    &&& o.non_interactive == m.non_interactive
    &&& o.stdin == m.stdin
    &&& opt_view(o.prompt) == m.prompt
    &&& opt_view(o.group) == m.group
    &&& opt_view(o.user) == m.user
}

pub open spec fn edit_fields(o: SudoEditOptions, m: OptModel) -> bool {
    &&& o.askpass == m.askpass
    &&& o.bell == m.bell
    &&& o.reset_timestamp == m.reset_timestamp
    &&& o.non_interactive == m.non_interactive
    &&& o.stdin == m.stdin
    &&& opt_view(o.prompt) == m.prompt
    &&& opt_view(o.chdir) == m.chdir
    &&& opt_view(o.group) == m.group
    &&& opt_view(o.user) == m.user
    &&& strings_view(o.positional_args@) == m.positional_args
}

pub open spec fn list_fields(o: SudoListOptions, m: OptModel) -> bool {
    &&& o.askpass == m.askpass
    &&& o.bell == m.bell
    &&& Some(o.list) == m.list
    &&& o.reset_timestamp == m.reset_timestamp
    &&& o.non_interactive == m.non_interactive
    &&& o.stdin == m.stdin
    &&& opt_view(o.prompt) == m.prompt
    &&& opt_view(o.group) == m.group
    &&& opt_view(o.other_user) == m.other_user
    &&& opt_view(o.user) == m.user
    &&& strings_view(o.positional_args@) == m.positional_args
}

pub open spec fn run_fields(o: SudoRunOptions, m: OptModel) -> bool {
    &&& o.askpass == m.askpass
    &&& o.bell == m.bell
    &&& o.reset_timestamp == m.reset_timestamp
    &&& o.non_interactive == m.non_interactive
    &&& o.stdin == m.stdin
    &&& opt_view(o.prompt) == m.prompt
    &&& opt_view(o.chdir) == m.chdir
    &&& opt_view(o.group) == m.group
    &&& opt_view(o.user) == m.user
    &&& pairs_view(o.env_var_list@) == m.env_var_list
    &&& o.login == m.login
    &&& o.shell == m.shell
    &&& strings_view(o.positional_args@) == m.positional_args
}

impl SudoHelpOptions {
    pub fn try_from(opts: SudoOptions) -> (r: Result<Self, String>)
        requires
            opts.help,
        ensures
            r is Ok,
    {
        Ok(SudoHelpOptions {  })
    }
}

impl SudoVersionOptions {
    pub fn try_from(opts: SudoOptions) -> (r: Result<Self, String>)
        requires
            opts.version,
        ensures
            r is Ok,
    {
        Ok(SudoVersionOptions {  })
    }
}

impl SudoRemoveTimestampOptions {
    /// Nothing but `-K` may be given.
    pub fn try_from(opts: SudoOptions) -> (r: Result<Self, String>)
        requires
            opts.remove_timestamp,
        ensures
            match remove_timestamp_check(opts.model()) {
                Ok(_) => r is Ok,
                Err(e) => r matches Err(x) && x@ == e,
            },
    {
        let mut opts = opts;
        opts.remove_timestamp = false;
        match reject_all("--remove-timestamp", &opts) {
            Ok(()) => Ok(SudoRemoveTimestampOptions {  }),
            Err(e) => Err(e),
        }
    }
}

impl SudoResetTimestampOptions {
    /// Nothing but `-k` may be given.
    pub fn try_from(opts: SudoOptions) -> (r: Result<Self, String>)
        requires
            opts.reset_timestamp,
        ensures
            match reset_timestamp_check(opts.model()) {
                Ok(_) => r is Ok,
                Err(e) => r matches Err(x) && x@ == e,
            },
    {
        let mut opts = opts;
        opts.reset_timestamp = false;
        match reject_all("--reset-timestamp", &opts) {
            Ok(()) => Ok(SudoResetTimestampOptions {  }),
            Err(e) => Err(e),
        }
    }
}

impl SudoValidateOptions {
    #[verifier::spinoff_prover]
    pub fn try_from(opts: SudoOptions) -> (r: Result<Self, String>)
        requires
            opts.validate,
        ensures
            match validate_check(opts.model()) {
                Ok(_) => r matches Ok(o) && validate_fields(o, opts.model()),
                Err(e) => r matches Err(x) && x@ == e,
            },
    {
        let SudoOptions {
            askpass,
            bell,
            chdir,
            group,
            login,
            non_interactive,
            other_user,
            shell,
            stdin,
            prompt,
            user,
            env_var_list,
            edit,
            help,
            list,
            remove_timestamp,
            reset_timestamp,
            validate,
            version,
            positional_args,
        } = opts;
        if bell && stdin {
            return Err(cannot_together_msg("--bell", "--stdin"));
        }
        let rest = SudoOptions {
            askpass: false,
            bell: false,
            chdir,
            group: None,
            login,
            non_interactive: false,
            other_user,
            shell,
            stdin: false,
            prompt: None,
            user: None,
            env_var_list,
            edit,
            help,
            list,
            remove_timestamp,
            reset_timestamp: false,
            validate: false,
            version,
            positional_args,
        };
        match reject_all("--validate", &rest) {
            Err(e) => Err(e),
            Ok(()) => Ok(
                SudoValidateOptions {
                    askpass,
                    bell,
                    reset_timestamp,
                    non_interactive,
                    stdin,
                    prompt,
                    group,
                    user,
                },
            ),
        }
    }
}

impl SudoEditOptions {
    #[verifier::spinoff_prover]
    pub fn try_from(opts: SudoOptions) -> (r: Result<Self, String>)
        requires
            opts.edit,
        ensures
            match edit_check(opts.model()) {
                Ok(_) => r matches Ok(o) && edit_fields(o, opts.model()),
                Err(e) => r matches Err(x) && x@ == e,
            },
    {
        let SudoOptions {
            askpass,
            bell,
            chdir,
            group,
            login,
            non_interactive,
            other_user,
            shell,
            stdin,
            prompt,
            user,
            env_var_list,
            edit,
            help,
            list,
            remove_timestamp,
            reset_timestamp,
            validate,
            version,
            positional_args,
        } = opts;
        if bell && stdin {
            return Err(cannot_together_msg("--bell", "--stdin"));
        }
        let rest = SudoOptions {
            askpass: false,
            bell: false,
            chdir: None,
            group: None,
            login,
            non_interactive: false,
            other_user,
            shell,
            stdin: false,
            prompt: None,
            user: None,
            env_var_list,
            edit: false,
            help,
            list,
            remove_timestamp,
            reset_timestamp: false,
            validate,
            version,
            positional_args: Vec::new(),
        };
        proof {
            assert(strings_view(rest.positional_args@) =~= Seq::<Seq<char>>::empty());
        }
        match reject_all("--edit", &rest) {
            Err(e) => Err(e),
            Ok(()) => {
                if positional_args.len() == 0 {
                    return Err(owned("must specify at least one file path"));
                }
                Ok(
                    SudoEditOptions {
                        askpass,
                        bell,
                        reset_timestamp,
                        non_interactive,
                        stdin,
                        prompt,
                        chdir,
                        group,
                        user,
                        positional_args,
                    },
                )
            },
        }
    }
}

impl SudoListOptions {
    #[verifier::spinoff_prover]
    #[verifier::rlimit(80)]
    pub fn try_from(opts: SudoOptions) -> (r: Result<Self, String>)
        requires
            opts.list is Some,
        ensures
            match list_check(opts.model()) {
                Ok(_) => r matches Ok(o) && list_fields(o, opts.model()),
                Err(e) => r matches Err(x) && x@ == e,
            },
    {
        let SudoOptions {
            askpass,
            bell,
            chdir,
            group,
            login,
            non_interactive,
            other_user,
            shell,
            stdin,
            prompt,
            user,
            env_var_list,
            edit,
            help,
            list,
            remove_timestamp,
            reset_timestamp,
            validate,
            version,
            positional_args,
        } = opts;
        let list = match list {
            Some(l) => l,
            None => List::Once,
        };
        if bell && stdin {
            return Err(cannot_together_msg("--bell", "--stdin"));
        }
        if user.is_some() && positional_args.len() == 0 {
            return Err(owned("'--user' flag must be accompanied by a command"));
        }
        let rest = SudoOptions {
            askpass: false,
            bell: false,
            chdir,
            group: None,
            login,
            non_interactive: false,
            other_user: None,
            shell,
            stdin: false,
            prompt: None,
            user: None,
            env_var_list,
            edit,
            help,
            list: None,
            remove_timestamp,
            reset_timestamp: false,
            validate,
            version,
            positional_args: Vec::new(),
        };
        proof {
            assert(strings_view(rest.positional_args@) =~= Seq::<Seq<char>>::empty());
        }
        match reject_all("--list", &rest) {
            Err(e) => Err(e),
            Ok(()) => Ok(
                SudoListOptions {
                    askpass,
                    bell,
                    list,
                    reset_timestamp,
                    non_interactive,
                    stdin,
                    prompt,
                    group,
                    other_user,
                    user,
                    positional_args,
                },
            ),
        }
    }
}

impl SudoRunOptions {
    #[verifier::spinoff_prover]
    pub fn try_from(opts: SudoOptions) -> (r: Result<Self, String>)
        ensures
            match run_check(opts.model()) {
                Ok(_) => r matches Ok(o) && run_fields(o, opts.model()),
                Err(e) => r matches Err(x) && x@ == e,
            },
    {
        let SudoOptions {
            askpass,
            bell,
            chdir,
            group,
            login,
            non_interactive,
            other_user,
            shell,
            stdin,
            prompt,
            user,
            env_var_list,
            edit,
            help,
            list,
            remove_timestamp,
            reset_timestamp,
            validate,
            version,
            positional_args,
        } = opts;
        if bell && stdin {
            return Err(cannot_together_msg("--bell", "--stdin"));
        }
        let context = if login && shell {
            return Err(cannot_together_msg("--login", "--shell"));
        } else if login {
            "--login"
        } else if shell {
            "--shell"
        } else if positional_args.len() > 0 {
            "command (positional argument)"
        } else {
            return Err(
                owned("expected one of: --login, --shell, a command as a positional argument"),
            );
        };
        let rest = SudoOptions {
            askpass: false,
            bell: false,
            chdir: None,
            group: None,
            login: false,
            non_interactive: false,
            other_user,
            shell: false,
            stdin: false,
            prompt: None,
            user: None,
            env_var_list: Vec::new(),
            edit,
            help,
            list,
            remove_timestamp,
            reset_timestamp: false,
            validate,
            version,
            positional_args: Vec::new(),
        };
        proof {
            assert(strings_view(rest.positional_args@) =~= Seq::<Seq<char>>::empty());
            assert(pairs_view(rest.env_var_list@) =~= Seq::<(Seq<char>, Seq<char>)>::empty());
        }
        match reject_all(context, &rest) {
            Err(e) => Err(e),
            Ok(()) => Ok(
                SudoRunOptions {
                    askpass,
                    bell,
                    reset_timestamp,
                    non_interactive,
                    stdin,
                    prompt,
                    chdir,
                    group,
                    user,
                    env_var_list,
                    login,
                    shell,
                    positional_args,
                },
            ),
        }
    }
}

/// What `sudo` was asked to do, with the options that go with it.
pub enum SudoAction {
    Edit(SudoEditOptions),
    Help(SudoHelpOptions),
    List(SudoListOptions),
    RemoveTimestamp(SudoRemoveTimestampOptions),
    ResetTimestamp(SudoResetTimestampOptions),
    Run(SudoRunOptions),
    Validate(SudoValidateOptions),
    Version(SudoVersionOptions),
}

/// `a` is the action of kind `k`, with the options of `m`.
pub open spec fn action_fits(a: SudoAction, k: ActionKind, m: OptModel) -> bool {
    match a {
        SudoAction::Edit(o) => k == ActionKind::Edit && edit_fields(o, m),
        SudoAction::Help(_) => k == ActionKind::Help,
        SudoAction::List(o) => k == ActionKind::List && list_fields(o, m),
        SudoAction::RemoveTimestamp(_) => k == ActionKind::RemoveTimestamp,
        SudoAction::ResetTimestamp(_) => k == ActionKind::ResetTimestamp,
        SudoAction::Run(o) => k == ActionKind::Run && run_fields(o, m),
        SudoAction::Validate(o) => k == ActionKind::Validate && validate_fields(o, m),
        SudoAction::Version(_) => k == ActionKind::Version,
    }
}

impl SudoOptions {
    /// Decide the action.
    #[verifier::spinoff_prover]
    pub fn validate(self) -> (r: Result<SudoAction, String>)
        ensures
            match decide(self.model()) {
                Ok(k) => r matches Ok(a) && action_fits(a, k, self.model()),
                Err(e) => r matches Err(x) && x@ == e,
            },
    {
        if self.help {
            match SudoHelpOptions::try_from(self) {
                Ok(o) => Ok(SudoAction::Help(o)),
                Err(e) => Err(e),
            }
        } else if self.version {
            match SudoVersionOptions::try_from(self) {
                Ok(o) => Ok(SudoAction::Version(o)),
                Err(e) => Err(e),
            }
        } else if self.remove_timestamp {
            match SudoRemoveTimestampOptions::try_from(self) {
                Ok(o) => Ok(SudoAction::RemoveTimestamp(o)),
                Err(e) => Err(e),
            }
        } else if self.validate {
            match SudoValidateOptions::try_from(self) {
                Ok(o) => Ok(SudoAction::Validate(o)),
                Err(e) => Err(e),
            }
        } else if self.list.is_some() {
            match SudoListOptions::try_from(self) {
                Ok(o) => Ok(SudoAction::List(o)),
                Err(e) => Err(e),
            }
        } else if self.edit {
            match SudoEditOptions::try_from(self) {
                Ok(o) => Ok(SudoAction::Edit(o)),
                Err(e) => Err(e),
            }
        } else if self.login || self.shell || self.positional_args.len() > 0 {
            match SudoRunOptions::try_from(self) {
                Ok(o) => Ok(SudoAction::Run(o)),
                Err(e) => Err(e),
            }
        } else if self.reset_timestamp {
            match SudoResetTimestampOptions::try_from(self) {
                Ok(o) => Ok(SudoAction::ResetTimestamp(o)),
                Err(e) => Err(e),
            }
        } else {
            Err(
                owned(
                    "expected one of these actions: --help, --version, --remove-timestamp, --validate, --list, --edit, --login, --shell, a command as a positional argument, --reset-timestamp",
                ),
            )
        }
    }
}

impl SudoAction {
    /// Parse the command line `args` (the program's path first) and decide the action; `env`
    /// is the environment that `--preserve-env=NAMES` reads.
    pub fn try_parse_from(args: Vec<String>, env: &Vec<(String, String)>) -> (r: Result<
        SudoAction,
        String,
    >)
        ensures
            match parse_options(strings_view(args@), pairs_view(env@)) {
                Ok(m) => match decide(m) {
                    Ok(k) => r matches Ok(a) && action_fits(a, k, m),
                    Err(e) => r matches Err(x) && x@ == e,
                },
                Err(e) => r matches Err(x) && x@ == e,
            },
    {
        match SudoOptions::try_parse_from(args, env) {
            Ok(opts) => opts.validate(),
            Err(e) => Err(e),
        }
    }

    pub fn is_edit(&self) -> (b: bool)
        ensures
            b == (*self is Edit),
    {
        matches!(self, SudoAction::Edit(..))
    }

    pub fn is_help(&self) -> (b: bool)
        ensures
            b == (*self is Help),
    {
        matches!(self, SudoAction::Help(..))
    }

    pub fn is_remove_timestamp(&self) -> (b: bool)
        ensures
            b == (*self is RemoveTimestamp),
    {
        matches!(self, SudoAction::RemoveTimestamp(..))
    }

    pub fn is_reset_timestamp(&self) -> (b: bool)
        ensures
            b == (*self is ResetTimestamp),
    {
        matches!(self, SudoAction::ResetTimestamp(..))
    }

    pub fn is_list(&self) -> (b: bool)
        ensures
            b == (*self is List),
    {
        matches!(self, SudoAction::List(..))
    }

    pub fn is_version(&self) -> (b: bool)
        ensures
            b == (*self is Version),
    {
        matches!(self, SudoAction::Version(..))
    }

    pub fn is_validate(&self) -> (b: bool)
        ensures
            b == (*self is Validate),
    {
        matches!(self, SudoAction::Validate(..))
    }

    pub fn is_run(&self) -> (b: bool)
        ensures
            b == (*self is Run),
    {
        matches!(self, SudoAction::Run(..))
    }

    /// The run options, or the action itself when it is not running a command.
    pub fn try_into_run(self) -> (r: Result<SudoRunOptions, SudoAction>)
        ensures
            match self {
                SudoAction::Run(o) => r == Ok::<SudoRunOptions, SudoAction>(o),
                _ => r == Err::<SudoRunOptions, SudoAction>(self),
            },
    {
        match self {
            SudoAction::Run(o) => Ok(o),
            _ => Err(self),
        }
    }
}


/// Each switch that `a` has on, `b` has on too.
pub open spec fn switches_kept(a: OptModel, b: OptModel) -> bool {
    &&& a.askpass ==> b.askpass
    &&& a.bell ==> b.bell
    &&& a.edit ==> b.edit
    &&& a.help ==> b.help
    &&& a.login ==> b.login
    &&& a.remove_timestamp ==> b.remove_timestamp
    &&& a.reset_timestamp ==> b.reset_timestamp
    &&& a.list is Some ==> b.list is Some
    &&& a.non_interactive ==> b.non_interactive
    &&& a.stdin ==> b.stdin
    &&& a.shell ==> b.shell
    &&& a.version ==> b.version
    &&& a.validate ==> b.validate
}

/// The switch that the flag `f` stands for is on in `m`: `-A`/`--askpass` asks for a helper
/// program for the password, `-B`/`--bell` rings the bell, `-e`/`--edit` edits, `-h`/`--help`
/// shows the help, `-i`/`--login` runs a login shell, `-K`/`--remove-timestamp` and
/// `-k`/`--reset-timestamp` drop the cached credentials, `-l`/`--list` lists, `-n`/
/// `--non-interactive` never prompts, `-S`/`--stdin` reads the password from standard input,
/// `-s`/`--shell` runs a shell, `-V`/`--version` shows the version, `-v`/`--validate`
/// validates.
pub open spec fn flag_is_on(m: OptModel, f: Seq<char>) -> bool {
    &&& is_flag(f, "-A"@, "--askpass"@) ==> m.askpass
    &&& is_flag(f, "-B"@, "--bell"@) ==> m.bell
    &&& is_flag(f, "-e"@, "--edit"@) ==> m.edit
    &&& is_flag(f, "-h"@, "--help"@) ==> m.help
    &&& is_flag(f, "-i"@, "--login"@) ==> m.login
    &&& is_flag(f, "-K"@, "--remove-timestamp"@) ==> m.remove_timestamp
    &&& is_flag(f, "-k"@, "--reset-timestamp"@) ==> m.reset_timestamp
    &&& is_flag(f, "-l"@, "--list"@) ==> m.list is Some
    &&& is_flag(f, "-n"@, "--non-interactive"@) ==> m.non_interactive
    &&& is_flag(f, "-S"@, "--stdin"@) ==> m.stdin
    &&& is_flag(f, "-s"@, "--shell"@) ==> m.shell
    &&& is_flag(f, "-V"@, "--version"@) ==> m.version
    &&& is_flag(f, "-v"@, "--validate"@) ==> m.validate
}

/// A flag without an argument turns its switch on and turns none off.
proof fn lemma_flag_turns_on(m: OptModel, f: Seq<char>, invoked_as_sudoedit: bool)
    ensures
        flag_effect(m, f, invoked_as_sudoedit) matches Ok(m2) ==> flag_is_on(m2, f) && switches_kept(m, m2),
{
    lemma_flag_codes(invoked_as_sudoedit);
}

/// No argument turns a switch off.
proof fn lemma_arg_keeps_switches(m: OptModel, a: ArgModel, invoked_as_sudoedit: bool, env: Seq<(Seq<char>, Seq<char>)>)
    ensures
        arg_effect(m, a, invoked_as_sudoedit, env) matches Ok(m2) ==> switches_kept(m, m2),
{
    if let ArgModel::Flag(f) = a {
        lemma_flag_turns_on(m, f, invoked_as_sudoedit);
    }
}

/// Once on, a switch stays on whatever arguments follow.
pub proof fn lemma_apply_keeps_switches(
    m: OptModel,
    args: Seq<ArgModel>,
    invoked_as_sudoedit: bool,
    env: Seq<(Seq<char>, Seq<char>)>,
)
    ensures
        apply_all(m, args, invoked_as_sudoedit, env) matches Ok(r) ==> switches_kept(m, r),
    decreases args.len(),
{
    if args.len() > 0 {
        lemma_arg_keeps_switches(m, args[0], invoked_as_sudoedit, env);
        if let Ok(m2) = arg_effect(m, args[0], invoked_as_sudoedit, env) {
            lemma_apply_keeps_switches(m2, args.drop_first(), invoked_as_sudoedit, env);
        }
    }
}

/// A flag without an argument anywhere among the split arguments turns its switch on.
pub proof fn lemma_flag_among(
    m: OptModel,
    args: Seq<ArgModel>,
    invoked_as_sudoedit: bool,
    env: Seq<(Seq<char>, Seq<char>)>,
    i: int,
)
    requires
        0 <= i < args.len(),
        args[i] is Flag,
    ensures
        apply_all(m, args, invoked_as_sudoedit, env) matches Ok(r) ==> flag_is_on(r, args[i]->Flag_0),
    decreases i,
{
    if i == 0 {
        let f = args[0]->Flag_0;
        lemma_flag_turns_on(m, f, invoked_as_sudoedit);
        if let Ok(m2) = arg_effect(m, args[0], invoked_as_sudoedit, env) {
            lemma_apply_keeps_switches(m2, args.drop_first(), invoked_as_sudoedit, env);
        }
    } else if let Ok(m2) = arg_effect(m, args[0], invoked_as_sudoedit, env) {
        lemma_flag_among(m2, args.drop_first(), invoked_as_sudoedit, env, i - 1);
    }
}

/// A flag without an argument turns its switch on (see `flag_is_on`): when the command line
/// (the program's path first), split into its arguments, holds the flag, the options that
/// come out have that switch on, whatever came before or after it.
pub proof fn law_flags_turn_on(args: Seq<Seq<char>>, env: Seq<(Seq<char>, Seq<char>)>, i: int)
    requires
        args.len() > 0,
    ensures
        (normalize(args.drop_first()) matches Ok(n) && 0 <= i < n.len() && n[i] is Flag) ==> (parse_options(
            args,
            env,
        ) matches Ok(r) ==> flag_is_on(r, normalize(args.drop_first())->Ok_0[i]->Flag_0)),
{
    let sudoedit = invoked_as_sudoedit(Some(args[0]));
    let start = OptModel { edit: sudoedit, ..opt_default() };
    if let Ok(n) = normalize(args.drop_first()) {
        if 0 <= i < n.len() && n[i] is Flag {
            lemma_flag_among(start, n, sudoedit, env, i);
        }
    }
}

/// `-A` and `--askpass` ask for a helper program to read the password: when the command line
/// (the program's path first), split into its arguments, holds either flag, the options that
/// come out have `askpass` set; in particular when the first argument is `-A` or `--askpass`.
pub proof fn law_askpass_option(args: Seq<Seq<char>>, env: Seq<(Seq<char>, Seq<char>)>, i: int)
    requires
        args.len() > 0,
    ensures
        (normalize(args.drop_first()) matches Ok(n) && 0 <= i < n.len() && (n[i] == ArgModel::Flag("-A"@) || n[i]
            == ArgModel::Flag("--askpass"@))) ==> (parse_options(args, env) matches Ok(r) ==> r.askpass),
        (args.len() > 1 && (args[1] == "-A"@ || args[1] == "--askpass"@)) ==> (parse_options(args, env) matches Ok(r)
            ==> r.askpass),
{
    let sudoedit = invoked_as_sudoedit(Some(args[0]));
    let start = OptModel { edit: sudoedit, ..opt_default() };
    if let Ok(n) = normalize(args.drop_first()) {
        if 0 <= i < n.len() && (n[i] == ArgModel::Flag("-A"@) || n[i] == ArgModel::Flag("--askpass"@)) {
            lemma_flag_among(start, n, sudoedit, env, i);
        }
    }
    if args.len() > 1 && (args[1] == "-A"@ || args[1] == "--askpass"@) {
        let rest = args.drop_first();
        assert(rest[0] == args[1]);
        reveal_strlit("-A");
        reveal_strlit("--askpass");
        reveal_strlit("--");
        reveal_strlit("askpass");
        if args[1] == "-A"@ {
            assert(rest[0] != "--"@);
            assert(rest[0].take(2) != "--"@) by {
                assert(rest[0].take(2)[1] == 'A');
            }
            assert(seq!['-', 'A'] == "-A"@);
            assert(normalize_short(rest[0], 2, rest.drop_first()) == normalize(rest.drop_first()));
            assert(rest[0][1] == 'A');
            assert(!short_takes_argument('A'));
            assert(normalize_short(rest[0], 1, rest.drop_first()) == prepend(
                ArgModel::Flag("-A"@),
                normalize(rest.drop_first()),
            ));
            assert(normalize(rest) == prepend(ArgModel::Flag("-A"@), normalize(rest.drop_first())));
        } else {
            assert(rest[0] != "--"@);
            assert(rest[0].take(2) =~= "--"@);
            assert(rest[0].skip(2) =~= "askpass"@);
            lemma_find_char("askpass"@, '=');
            assert(find_char(rest[0].skip(2), '=') is None);
            reveal_strlit("chdir");
            reveal_strlit("group");
            reveal_strlit("host");
            reveal_strlit("chroot");
            reveal_strlit("other-user");
            reveal_strlit("user");
            reveal_strlit("prompt");
            assert(!long_takes_argument("askpass"@));
            assert(normalize(rest) == prepend(ArgModel::Flag("--askpass"@), normalize(rest.drop_first())));
        }
        if let Ok(n) = normalize(rest) {
            lemma_flag_among(start, n, sudoedit, env, 0);
        }
    }
}

/// The numbers that the flags without an argument get.
proof fn lemma_flag_codes(s: bool)
    ensures
        flag_code("-A"@, s) == 0,
        flag_code("--askpass"@, s) == 0,
        flag_code("-B"@, s) == 1,
        flag_code("--bell"@, s) == 1,
        flag_code("-E"@, s) == 2,
        flag_code("--preserve-env"@, s) == 2,
        !s ==> flag_code("-e"@, s) == 3,
        !s ==> flag_code("--edit"@, s) == 3,
        s ==> flag_code("-e"@, s) == 15,
        s ==> flag_code("--edit"@, s) == 15,
        flag_code("-H"@, s) == 4,
        flag_code("--set-home"@, s) == 4,
        flag_code("-h"@, s) == 5,
        flag_code("--help"@, s) == 5,
        flag_code("-i"@, s) == 6,
        flag_code("--login"@, s) == 6,
        flag_code("-K"@, s) == 7,
        flag_code("--remove-timestamp"@, s) == 7,
        flag_code("-k"@, s) == 8,
        flag_code("--reset-timestamp"@, s) == 8,
        flag_code("-l"@, s) == 9,
        flag_code("--list"@, s) == 9,
        flag_code("-n"@, s) == 10,
        flag_code("--non-interactive"@, s) == 10,
        flag_code("-S"@, s) == 11,
        flag_code("--stdin"@, s) == 11,
        flag_code("-s"@, s) == 12,
        flag_code("--shell"@, s) == 12,
        flag_code("-V"@, s) == 13,
        flag_code("--version"@, s) == 13,
        flag_code("-v"@, s) == 14,
        flag_code("--validate"@, s) == 14,
{
    reveal(flag_code);
    reveal_strlit("-A");
    reveal_strlit("--askpass");
    reveal_strlit("-B");
    reveal_strlit("--bell");
    reveal_strlit("-E");
    reveal_strlit("--preserve-env");
    reveal_strlit("-e");
    reveal_strlit("--edit");
    reveal_strlit("-H");
    reveal_strlit("--set-home");
    reveal_strlit("-h");
    reveal_strlit("--help");
    reveal_strlit("-i");
    reveal_strlit("--login");
    reveal_strlit("-K");
    reveal_strlit("--remove-timestamp");
    reveal_strlit("-k");
    reveal_strlit("--reset-timestamp");
    reveal_strlit("-l");
    reveal_strlit("--list");
    reveal_strlit("-n");
    reveal_strlit("--non-interactive");
    reveal_strlit("-S");
    reveal_strlit("--stdin");
    reveal_strlit("-s");
    reveal_strlit("--shell");
    reveal_strlit("-V");
    reveal_strlit("--version");
    reveal_strlit("-v");
    reveal_strlit("--validate");
    assert("-A"@.len() == 2 && "-A"@[1] == 'A');
    assert("--askpass"@.len() == 9 && "--askpass"@[2] == 'a' && "--askpass"@[3] == 's');
    assert("-B"@.len() == 2 && "-B"@[1] == 'B');
    assert("--bell"@.len() == 6 && "--bell"@[2] == 'b' && "--bell"@[3] == 'e');
    assert("-E"@.len() == 2 && "-E"@[1] == 'E');
    assert("--preserve-env"@.len() == 14 && "--preserve-env"@[2] == 'p' && "--preserve-env"@[3] == 'r');
    assert("-e"@.len() == 2 && "-e"@[1] == 'e');
    assert("--edit"@.len() == 6 && "--edit"@[2] == 'e' && "--edit"@[3] == 'd');
    assert("-H"@.len() == 2 && "-H"@[1] == 'H');
    assert("--set-home"@.len() == 10 && "--set-home"@[2] == 's' && "--set-home"@[3] == 'e');
    assert("-h"@.len() == 2 && "-h"@[1] == 'h');
    assert("--help"@.len() == 6 && "--help"@[2] == 'h' && "--help"@[3] == 'e');
    assert("-i"@.len() == 2 && "-i"@[1] == 'i');
    assert("--login"@.len() == 7 && "--login"@[2] == 'l' && "--login"@[3] == 'o');
    assert("-K"@.len() == 2 && "-K"@[1] == 'K');
    assert("--remove-timestamp"@.len() == 18 && "--remove-timestamp"@[2] == 'r' && "--remove-timestamp"@[3] == 'e');
    assert("-k"@.len() == 2 && "-k"@[1] == 'k');
    assert("--reset-timestamp"@.len() == 17 && "--reset-timestamp"@[2] == 'r' && "--reset-timestamp"@[3] == 'e');
    assert("-l"@.len() == 2 && "-l"@[1] == 'l');
    assert("--list"@.len() == 6 && "--list"@[2] == 'l' && "--list"@[3] == 'i');
    assert("-n"@.len() == 2 && "-n"@[1] == 'n');
    assert("--non-interactive"@.len() == 17 && "--non-interactive"@[2] == 'n' && "--non-interactive"@[3] == 'o');
    assert("-S"@.len() == 2 && "-S"@[1] == 'S');
    assert("--stdin"@.len() == 7 && "--stdin"@[2] == 's' && "--stdin"@[3] == 't');
    assert("-s"@.len() == 2 && "-s"@[1] == 's');
    assert("--shell"@.len() == 7 && "--shell"@[2] == 's' && "--shell"@[3] == 'h');
    assert("-V"@.len() == 2 && "-V"@[1] == 'V');
    assert("--version"@.len() == 9 && "--version"@[2] == 'v' && "--version"@[3] == 'e');
    assert("-v"@.len() == 2 && "-v"@[1] == 'v');
    assert("--validate"@.len() == 10 && "--validate"@[2] == 'v' && "--validate"@[3] == 'a');
}

} // verus!
