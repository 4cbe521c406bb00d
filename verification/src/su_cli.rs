//! Command line parsing for `su`.

use vstd::prelude::*;
use crate::text::{
    chars_eq_str, chars_of, concat, copy_string, find_char, lemma_find_char, position_of,
    split_chars, split_on, starts_with_str, string_from_chars, string_from_range, trim, trim_from,
};

verus! {

#[derive(Debug, PartialEq)]
pub struct SuOptions {
    pub user: Option<String>,
    pub command: Option<String>,
    pub group: Option<String>,
    pub supp_group: Option<String>,
    pub pty: bool,
    pub login: bool,
    pub shell: Option<String>,
    pub whitelist_environment: Vec<String>,
    pub help: bool,
    pub version: bool,
    pub arguments: Vec<String>,
}

/// The options of `su`, with strings as character sequences.
pub struct SuModel {
    pub user: Option<Seq<char>>,
    pub command: Option<Seq<char>>,
    pub group: Option<Seq<char>>,
    pub supp_group: Option<Seq<char>>,
    pub pty: bool,
    pub login: bool,
    pub shell: Option<Seq<char>>,
    pub whitelist_environment: Seq<Seq<char>>,
    pub help: bool,
    pub version: bool,
    pub arguments: Seq<Seq<char>>,
}

pub open spec fn opt_view(o: Option<String>) -> Option<Seq<char>> {
    match o {
        Some(s) => Some(s@),
        None => None,
    }
}

pub open spec fn strings_view(v: Seq<String>) -> Seq<Seq<char>> {
    v.map_values(|s: String| s@)
}

impl SuOptions {
    pub open spec fn model(&self) -> SuModel {
        SuModel {
            user: opt_view(self.user),
            command: opt_view(self.command),
            group: opt_view(self.group),
            supp_group: opt_view(self.supp_group),
            pty: self.pty,
            login: self.login,
            shell: opt_view(self.shell),
            whitelist_environment: strings_view(self.whitelist_environment@),
            help: self.help,
            version: self.version,
            arguments: strings_view(self.arguments@),
        }
    }
}

/// No option set, no user, no arguments.
pub open spec fn su_default() -> SuModel {
    SuModel {
        user: None,
        command: None,
        group: None,
        supp_group: None,
        pty: false,
        login: false,
        shell: None,
        whitelist_environment: Seq::empty(),
        help: false,
        version: false,
        arguments: Seq::empty(),
    }
}

impl Default for SuOptions {
    fn default() -> (o: Self)
        ensures
            o.model() == su_default(),
    {
        let o = SuOptions {
            user: None,
            command: None,
            group: None,
            supp_group: None,
            pty: false,
            login: false,
            shell: None,
            whitelist_environment: Vec::new(),
            help: false,
            version: false,
            arguments: Vec::new(),
        };
        assert(o.model().whitelist_environment =~= Seq::<Seq<char>>::empty());
        assert(o.model().arguments =~= Seq::<Seq<char>>::empty());
        o
    }
}

/// The options, by number: -c/--command, -g/--group, -G/--supp-group, -l/--login,
/// -P/--pty, -s/--shell, -w/--whitelist-environment, -v/--version, -h/--help.
pub open spec fn short_name(i: int) -> char {
    if i == 0 {
        'c'
    } else if i == 1 {
        'g'
    } else if i == 2 {
        'G'
    } else if i == 3 {
        'l'
    } else if i == 4 {
        'P'
    } else if i == 5 {
        's'
    } else if i == 6 {
        'w'
    } else if i == 7 {
        'v'
    } else {
        'h'
    }
}

pub open spec fn long_name(i: int) -> Seq<char> {
    if i == 0 {
        "command"@
    } else if i == 1 {
        "group"@
    } else if i == 2 {
        "supp-group"@
    } else if i == 3 {
        "login"@
    } else if i == 4 {
        "pty"@
    } else if i == 5 {
        "shell"@
    } else if i == 6 {
        "whitelist-environment"@
    } else if i == 7 {
        "version"@
    } else {
        "help"@
    }
}

pub open spec fn takes_argument(i: int) -> bool {
    i == 0 || i == 1 || i == 2 || i == 5 || i == 6
}

pub const NUM_OPTIONS: usize = 9;

/// The first option with the given short name.
pub open spec fn short_index(c: char) -> Option<int> {
    if exists|i: int| 0 <= i < NUM_OPTIONS && short_name(i) == c {
        Some(choose|i: int| 0 <= i < NUM_OPTIONS && short_name(i) == c)
    } else {
        None
    }
}

/// The first option with the given long name.
pub open spec fn long_index(name: Seq<char>) -> Option<int> {
    first_long(name, 0)
}

pub open spec fn first_long(name: Seq<char>, from: int) -> Option<int>
    decreases NUM_OPTIONS - from,
{
    if from >= NUM_OPTIONS {
        None
    } else if long_name(from) == name {
        Some(from)
    } else {
        first_long(name, from + 1)
    }
}

/// Setting option `i` with the (possibly missing) argument.
pub open spec fn apply_option(m: SuModel, i: int, arg: Option<Seq<char>>) -> Result<
    SuModel,
    Seq<char>,
> {
    if i == 0 {
        match arg {
            Some(a) => Ok(SuModel { command: Some(a), ..m }),
            None => Err("no command provided"@),
        }
    } else if i == 1 {
        match arg {
            Some(a) => Ok(SuModel { group: Some(a), ..m }),
            None => Err("no group provided"@),
        }
    } else if i == 2 {
        match arg {
            Some(a) => Ok(SuModel { supp_group: Some(a), ..m }),
            None => Err("no supplementary group provided"@),
        }
    } else if i == 3 {
        Ok(SuModel { login: true, ..m })
    } else if i == 4 {
        Ok(SuModel { pty: true, ..m })
    } else if i == 5 {
        match arg {
            Some(a) => Ok(SuModel { shell: Some(a), ..m }),
            None => Err("no shell provided"@),
        }
    } else if i == 6 {
        match arg {
            Some(a) => Ok(SuModel { whitelist_environment: split_on(a, ','), ..m }),
            None => Err("no enivronment whitelist provided"@),
        }
    } else if i == 7 {
        Ok(SuModel { version: true, ..m })
    } else {
        Ok(SuModel { help: true, ..m })
    }
}

pub open spec fn unrecognized(what: Seq<char>) -> Seq<char> {
    "unrecognized option '"@ + what + "'"@
}

/// Parsing the arguments `args`, starting from the options `m`.
pub open spec fn su_parse_rest(m: SuModel, args: Seq<Seq<char>>) -> Result<SuModel, Seq<char>>
    decreases args.len(), 0int,
{
    if args.len() == 0 {
        Ok(m)
    } else {
        let arg = args[0];
        let rest = args.drop_first();
        let m1 = if arg == "-"@ {
            SuModel { login: true, ..m }
        } else {
            m
        };
        if 2 <= arg.len() && arg.subrange(0, 2) == "--"@ {
            match find_char(arg, '=') {
                Some(e) => match long_index(arg.subrange(2, e)) {
                    Some(i) => if takes_argument(i) {
                        match apply_option(m1, i, Some(arg.skip(e + 1))) {
                            Ok(m2) => su_parse_rest(m2, rest),
                            Err(x) => Err(x),
                        }
                    } else {
                        Err("'--"@ + long_name(i) + "' does not take any arguments"@)
                    },
                    None => Err(unrecognized(arg)),
                },
                None => match long_index(arg.skip(2)) {
                    Some(i) => if takes_argument(i) {
                        let next = if rest.len() > 0 {
                            Some(rest[0])
                        } else {
                            None
                        };
                        let rest2 = if rest.len() > 0 {
                            rest.drop_first()
                        } else {
                            rest
                        };
                        match apply_option(m1, i, next) {
                            Ok(m2) => su_parse_rest(m2, rest2),
                            Err(x) => Err(x),
                        }
                    } else {
                        match apply_option(m1, i, None) {
                            Ok(m2) => su_parse_rest(m2, rest),
                            Err(x) => Err(x),
                        }
                    },
                    None => Err(unrecognized(arg)),
                },
            }
        } else if 1 <= arg.len() && arg[0] == '-' {
            su_parse_short(m1, arg, 1, rest)
        } else {
            Ok(SuModel { user: Some(arg), arguments: rest, ..m1 })
        }
    }
}

/// Parsing the cluster of short options `arg[k..]`, followed by the arguments `rest`.
pub open spec fn su_parse_short(m: SuModel, arg: Seq<char>, k: int, rest: Seq<Seq<char>>) -> Result<
    SuModel,
    Seq<char>,
>
    decreases rest.len(), if 0 <= k <= arg.len() {
        arg.len() - k + 1
    } else {
        1
    },
{
    if k < 0 || k >= arg.len() {
        su_parse_rest(m, rest)
    } else {
        match short_index(arg[k]) {
            Some(i) => if takes_argument(i) {
                let r = trim(arg.skip(k + 1));
                if r.len() == 0 {
                    let next = if rest.len() > 0 {
                        Some(rest[0])
                    } else {
                        None
                    };
                    let rest2 = if rest.len() > 0 {
                        rest.drop_first()
                    } else {
                        rest
                    };
                    match apply_option(m, i, next) {
                        Ok(m2) => su_parse_rest(m2, rest2),
                        Err(x) => Err(x),
                    }
                } else {
                    match apply_option(m, i, Some(r)) {
                        Ok(m2) => su_parse_rest(m2, rest),
                        Err(x) => Err(x),
                    }
                }
            } else {
                match apply_option(m, i, None) {
                    Ok(m2) => su_parse_short(m2, arg, k + 1, rest),
                    Err(x) => Err(x),
                }
            },
            None => Err(unrecognized(seq![arg[k]])),
        }
    }
}

/// Parsing a whole argument list (without the program name).
pub open spec fn su_parse(args: Seq<Seq<char>>) -> Result<SuModel, Seq<char>> {
    su_parse_rest(su_default(), args)
}

fn short_lookup(c: char) -> (r: Option<usize>)
    ensures
        r matches Some(i) ==> short_index(c) == Some(i as int) && i < NUM_OPTIONS,
        r is None ==> short_index(c) is None,
{
    let names = ['c', 'g', 'G', 'l', 'P', 's', 'w', 'v', 'h'];
    let mut i: usize = 0;
    while i < NUM_OPTIONS
        invariant
            i <= NUM_OPTIONS,
            forall|j: int| 0 <= j < NUM_OPTIONS ==> names@[j] == short_name(j),
            forall|j: int| 0 <= j < i ==> short_name(j) != c,
        decreases NUM_OPTIONS - i,
    {
        if names[i] == c {
            assert(short_name(i as int) == c);
            // the short names are distinct, so the first one found is the only one
            assert forall|j: int| 0 <= j < NUM_OPTIONS && short_name(j) == c implies j
                == i by {}
            return Some(i);
        }
        i += 1;
    }
    None
}

fn long_lookup(name: &[char]) -> (r: Option<usize>)
    ensures
        r matches Some(i) ==> long_index(name@) == Some(i as int) && i < NUM_OPTIONS,
        r is None ==> long_index(name@) is None,
{
    let names = [
        "command",
        "group",
        "supp-group",
        "login",
        "pty",
        "shell",
        "whitelist-environment",
        "version",
        "help",
    ];
    let mut i: usize = 0;
    while i < NUM_OPTIONS
        invariant
            i <= NUM_OPTIONS,
            forall|j: int| 0 <= j < NUM_OPTIONS ==> names@[j]@ == long_name(j),
            long_index(name@) == first_long(name@, i as int),
        decreases NUM_OPTIONS - i,
    {
        if chars_eq_str(name, names[i]) {
            return Some(i);
        }
        i += 1;
    }
    None
}

fn option_long_name(i: usize) -> (s: &'static str)
    requires
        i < NUM_OPTIONS,
    ensures
        s@ == long_name(i as int),
{
    if i == 0 {
        "command"
    } else if i == 1 {
        "group"
    } else if i == 2 {
        "supp-group"
    } else if i == 3 {
        "login"
    } else if i == 4 {
        "pty"
    } else if i == 5 {
        "shell"
    } else if i == 6 {
        "whitelist-environment"
    } else if i == 7 {
        "version"
    } else {
        "help"
    }
}

fn option_takes_argument(i: usize) -> (b: bool)
    ensures
        b == takes_argument(i as int),
{
    i == 0 || i == 1 || i == 2 || i == 5 || i == 6
}

fn error_message(msg: &str) -> (s: String)
    ensures
        s@ == msg@,
{
    msg.to_owned()
}

fn unrecognized_message(what: &[char]) -> (s: String)
    ensures
        s@ == unrecognized(what@),
{
    let mut s = concat("unrecognized option '", string_from_chars(what).as_str());
    s.append("'");
    s
}

impl SuOptions {
    /// Set option `i` with the (possibly missing) argument.
    fn apply(&mut self, i: usize, arg: Option<String>) -> (res: Result<(), String>)
        requires
            i < NUM_OPTIONS,
        ensures
            match apply_option(old(self).model(), i as int, opt_view(arg)) {
                Ok(m) => res is Ok && final(self).model() == m,
                Err(e) => res matches Err(s) && s@ == e,
            },
    {
        if i == 0 {
            match arg {
                Some(a) => {
                    self.command = Some(a);
                    Ok(())
                },
                None => Err(error_message("no command provided")),
            }
        } else if i == 1 {
            match arg {
                Some(a) => {
                    self.group = Some(a);
                    Ok(())
                },
                None => Err(error_message("no group provided")),
            }
        } else if i == 2 {
            match arg {
                Some(a) => {
                    self.supp_group = Some(a);
                    Ok(())
                },
                None => Err(error_message("no supplementary group provided")),
            }
        } else if i == 3 {
            self.login = true;
            Ok(())
        } else if i == 4 {
            self.pty = true;
            Ok(())
        } else if i == 5 {
            match arg {
                Some(a) => {
                    self.shell = Some(a);
                    Ok(())
                },
                None => Err(error_message("no shell provided")),
            }
        } else if i == 6 {
            match arg {
                Some(a) => {
                    let v = chars_of(a.as_str());
                    self.whitelist_environment = split_chars(v.as_slice(), ',');
                    Ok(())
                },
                None => Err(error_message("no enivronment whitelist provided")),
            }
        } else if i == 7 {
            self.version = true;
            Ok(())
        } else {
            self.help = true;
            Ok(())
        }
    }

    /// parse su arguments into a SuOptions struct
    pub fn parse_arguments(arguments: Vec<String>) -> (res: Result<SuOptions, String>)
        ensures
            match su_parse(strings_view(arguments@)) {
                Ok(m) => res matches Ok(o) && o.model() == m,
                Err(e) => res matches Err(s) && s@ == e,
            },
    {
        let ghost args = strings_view(arguments@);
        proof {
            reveal_strlit("--");
            reveal_strlit("-");
        }
        let mut options = SuOptions::default();
        let mut i: usize = 0;
        proof {
            assert(args.skip(0) =~= args);
        }
        while i < arguments.len()
            invariant
                i <= arguments.len(),
                args == strings_view(arguments@),
                su_parse_rest(options.model(), args.skip(i as int)) == su_parse(args),
            decreases arguments.len() - i,
        {
            let ghost m0 = options.model();
            let arg = copy_string(&arguments[i]);
            let a = chars_of(arg.as_str());
            proof {
                reveal_strlit("--");
                reveal_strlit("-");
                assert(args.skip(i as int)[0] == a@);
                assert(args.skip(i as int).drop_first() =~= args.skip(i + 1));
            }
            i += 1;
            if chars_eq_str(a.as_slice(), "-") {
                options.login = true;
            }
            if starts_with_str(a.as_slice(), "--") {
                match position_of(a.as_slice(), '=') {
                    Some(e) => {
                        proof {
                            lemma_find_char(a@, '=');
                            assert(a@.subrange(0, 2)[0] == '-');
                            assert(a@.subrange(0, 2)[1] == '-');
                        }
                        let key = vstd::slice::slice_subrange(a.as_slice(), 2, e);
                        match long_lookup(key) {
                            Some(opt) => {
                                if option_takes_argument(opt) {
                                    assert(e < a.len());
                                    let value = string_from_range(a.as_slice(), e + 1, a.len());
                                    proof {
                                        assert(value@ =~= a@.skip(e + 1));
                                    }
                                    let r = options.apply(opt, Some(value));
                                    if let Err(x) = r {
                                        return Err(x);
                                    }
                                } else {
                                    let mut msg = concat("'--", option_long_name(opt));
                                    msg.append("' does not take any arguments");
                                    return Err(msg);
                                }
                            },
                            None => {
                                return Err(unrecognized_message(a.as_slice()));
                            },
                        }
                    },
                    None => {
                        let key = vstd::slice::slice_subrange(a.as_slice(), 2, a.len());
                        proof {
                            assert(key@ =~= a@.skip(2));
                        }
                        match long_lookup(key) {
                            Some(opt) => {
                                if option_takes_argument(opt) {
                                    let next_arg = if i < arguments.len() {
                                        let n = copy_string(&arguments[i]);
                                        proof {
                                            assert(args.skip(i as int)[0] == n@);
                                            assert(args.skip(i as int).drop_first() =~= args.skip(
                                                i + 1,
                                            ));
                                        }
                                        i += 1;
                                        Some(n)
                                    } else {
                                        None
                                    };
                                    let r = options.apply(opt, next_arg);
                                    if let Err(x) = r {
                                        return Err(x);
                                    }
                                } else {
                                    let r = options.apply(opt, None);
                                    if let Err(x) = r {
                                        return Err(x);
                                    }
                                }
                            },
                            None => {
                                return Err(unrecognized_message(a.as_slice()));
                            },
                        }
                    },
                }
            } else if starts_with_str(a.as_slice(), "-") {
                proof {
                    assert(a@.subrange(0, 1)[0] == a@[0]);
                    assert(!(2 <= a@.len() && a@.subrange(0, 2) == "--"@));
                    assert(su_parse_rest(m0, args.skip(i - 1)) == su_parse_short(
                        options.model(),
                        a@,
                        1,
                        args.skip(i as int),
                    ));
                }
                let ghost i_before = i;
                let mut k: usize = 1;
                let mut done = false;
                while k < a.len() && !done
                    invariant
                        1 <= k <= a@.len(),
                        i_before <= i <= arguments.len(),
                        args == strings_view(arguments@),
                        !done ==> su_parse_short(options.model(), a@, k as int, args.skip(i as int))
                            == su_parse(args),
                        done ==> su_parse_rest(options.model(), args.skip(i as int)) == su_parse(
                            args,
                        ),
                    decreases a.len() - k, if done {
                        0int
                    } else {
                        1int
                    },
                {
                    let c = a[k];
                    match short_lookup(c) {
                        Some(opt) => {
                            if option_takes_argument(opt) {
                                let rest = trim_from(a.as_slice(), k + 1);
                                let next_arg = if rest.as_str().is_empty() {
                                    if i < arguments.len() {
                                        let n = copy_string(&arguments[i]);
                                        proof {
                                            assert(args.skip(i as int)[0] == n@);
                                            assert(args.skip(i as int).drop_first() =~= args.skip(
                                                i + 1,
                                            ));
                                        }
                                        i += 1;
                                        Some(n)
                                    } else {
                                        None
                                    }
                                } else {
                                    Some(rest)
                                };
                                let r = options.apply(opt, next_arg);
                                if let Err(x) = r {
                                    return Err(x);
                                }
                                done = true;
                            } else {
                                let r = options.apply(opt, None);
                                if let Err(x) = r {
                                    return Err(x);
                                }
                                k += 1;
                            }
                        },
                        None => {
                            let one = [c];
                            return Err(unrecognized_message(&one));
                        },
                    }
                }
            } else {
                proof {
                    if a@ == "-"@ {
                        assert(a@.subrange(0, 1) =~= a@);
                    }
                    assert(a@ != "-"@);
                    assert(options.model() == m0);
                }
                options.user = Some(arg);
                let mut rest: Vec<String> = Vec::new();
                let ghost start = i;
                while i < arguments.len()
                    invariant
                        start <= i <= arguments.len(),
                        args == strings_view(arguments@),
                        strings_view(rest@) == args.subrange(start as int, i as int),
                    decreases arguments.len() - i,
                {
                    let s = copy_string(&arguments[i]);
                    let ghost old_rest = rest@;
                    rest.push(s);
                    i += 1;
                    proof {
                        assert(rest@ =~= old_rest.push(s));
                        assert(strings_view(rest@) =~= strings_view(old_rest).push(s@));
                        assert(args[i - 1] == s@);
                        assert(args.subrange(start as int, i as int) =~= args.subrange(
                            start as int,
                            i - 1,
                        ).push(args[i - 1]));
                    }
                }
                options.arguments = rest;
                proof {
                    assert(args.subrange(start as int, arguments.len() as int) =~= args.skip(
                        start as int,
                    ));
                    assert(options.model() == SuModel {
                        user: Some(a@),
                        arguments: args.skip(start as int),
                        ..m0
                    });
                    if 1 <= a@.len() && a@[0] == '-' {
                        assert(a@.subrange(0, 1) =~= "-"@);
                    }
                    assert(!(2 <= a@.len() && a@.subrange(0, 2) == "--"@));
                    assert(su_parse_rest(m0, args.skip(start - 1)) == Ok::<SuModel, Seq<char>>(
                        options.model(),
                    ));
                }
                return Ok(options);
            }
        }
        Ok(options)
    }
}


/// Parsing in two runs: when the first part of a command line parses on its own and names no
/// user yet, the whole parses as the rest does from the options that the first part gave.
pub proof fn lemma_su_rest_append(m: SuModel, pre: Seq<Seq<char>>, post: Seq<Seq<char>>)
    ensures
        su_parse_rest(m, pre) matches Ok(m1) ==> (m1.user is None ==> su_parse_rest(m, pre + post)
            == su_parse_rest(m1, post)),
    decreases pre.len(), 0int,
{
    let all = pre + post;
    if pre.len() == 0 {
        assert(all =~= post);
    } else {
        assert(all[0] == pre[0]);
        assert(all.drop_first() =~= pre.drop_first() + post);
        let arg = pre[0];
        let rest = pre.drop_first();
        let m1 = if arg == "-"@ {
            SuModel { login: true, ..m }
        } else {
            m
        };
        if 2 <= arg.len() && arg.subrange(0, 2) == "--"@ {
            match find_char(arg, '=') {
                Some(e) => {
                    if let Some(i) = long_index(arg.subrange(2, e)) {
                        if takes_argument(i) {
                            if let Ok(m2) = apply_option(m1, i, Some(arg.skip(e + 1))) {
                                lemma_su_rest_append(m2, rest, post);
                            }
                        }
                    }
                },
                None => {
                    if let Some(i) = long_index(arg.skip(2)) {
                        if takes_argument(i) {
                            if rest.len() > 0 {
                                assert(all.drop_first()[0] == rest[0]);
                                assert(all.drop_first().drop_first() =~= rest.drop_first() + post);
                                if let Ok(m2) = apply_option(m1, i, Some(rest[0])) {
                                    lemma_su_rest_append(m2, rest.drop_first(), post);
                                }
                            }
                        } else if let Ok(m2) = apply_option(m1, i, None) {
                            lemma_su_rest_append(m2, rest, post);
                        }
                    }
                },
            }
        } else if 1 <= arg.len() && arg[0] == '-' {
            lemma_su_short_append(m1, arg, 1, rest, post);
        }
    }
}

/// `lemma_su_rest_append` for a cluster of one-letter options and the arguments after it.
pub proof fn lemma_su_short_append(m: SuModel, arg: Seq<char>, k: int, rest: Seq<Seq<char>>, post: Seq<Seq<char>>)
    ensures
        su_parse_short(m, arg, k, rest) matches Ok(m1) ==> (m1.user is None ==> su_parse_short(m, arg, k, rest + post)
            == su_parse_rest(m1, post)),
    decreases rest.len(), if 0 <= k <= arg.len() {
        arg.len() - k + 1
    } else {
        1
    },
{
    let all = rest + post;
    if k < 0 || k >= arg.len() {
        lemma_su_rest_append(m, rest, post);
    } else {
        if let Some(i) = short_index(arg[k]) {
            if takes_argument(i) {
                let r = trim(arg.skip(k + 1));
                if r.len() == 0 {
                    if rest.len() > 0 {
                        assert(all[0] == rest[0]);
                        assert(all.drop_first() =~= rest.drop_first() + post);
                        if let Ok(m2) = apply_option(m, i, Some(rest[0])) {
                            lemma_su_rest_append(m2, rest.drop_first(), post);
                        }
                    }
                } else if let Ok(m2) = apply_option(m, i, Some(r)) {
                    lemma_su_rest_append(m2, rest, post);
                }
            } else if let Ok(m2) = apply_option(m, i, None) {
                lemma_su_short_append(m2, arg, k + 1, rest, post);
            }
        }
    }
}

/// What follows names the user, or nothing follows: no more options are read.
pub open spec fn no_more_options(post: Seq<Seq<char>>) -> bool {
    post.len() == 0 || !(post[0].len() >= 1 && post[0][0] == '-')
}

/// `-c COMMAND` and `--command COMMAND` give the command that the shell runs: wherever either
/// stands as an option of its own (after arguments that parse on their own and name no user
/// yet), parsing goes on from the options so far with `COMMAND` as the command; and when only
/// the user and its arguments follow, the command that comes out is `COMMAND`.
pub proof fn law_command_option(pre: Seq<Seq<char>>, a: Seq<char>, post: Seq<Seq<char>>)
    requires
        su_parse(pre) matches Ok(m1) && m1.user is None,
    ensures
        su_parse(pre + seq!["-c"@, a] + post) == su_parse_rest(SuModel { command: Some(a), ..su_parse(pre)->Ok_0 }, post),
        su_parse(pre + seq!["--command"@, a] + post) == su_parse_rest(
            SuModel { command: Some(a), ..su_parse(pre)->Ok_0 },
            post,
        ),
        no_more_options(post) ==> (su_parse(pre + seq!["-c"@, a] + post) matches Ok(r) && r.command == Some(a)),
        no_more_options(post) ==> (su_parse(pre + seq!["--command"@, a] + post) matches Ok(r) && r.command == Some(a)),
{
    let m1 = su_parse(pre)->Ok_0;
    let m2 = SuModel { command: Some(a), ..m1 };
    reveal_strlit("-c");
    reveal_strlit("--command");
    reveal_strlit("command");
    reveal_strlit("--");
    reveal_strlit("-");
    // `-c COMMAND`
    let short = seq!["-c"@, a] + post;
    assert(pre + seq!["-c"@, a] + post =~= pre + short);
    lemma_su_rest_append(su_default(), pre, short);
    assert(short[0] == "-c"@);
    assert(short.drop_first() =~= seq![a] + post);
    assert((seq![a] + post)[0] == a);
    assert((seq![a] + post).drop_first() =~= post);
    assert("-c"@ != "-"@);
    assert("-c"@.subrange(0, 2) != "--"@) by {
        assert("-c"@.subrange(0, 2)[1] == 'c');
    }
    assert(short_name(0) == 'c');
    assert(short_index('c') == Some(0int));
    assert("-c"@.skip(2) =~= Seq::<char>::empty());
    assert(trim(Seq::<char>::empty()) =~= Seq::<char>::empty());
    assert(su_parse_short(m1, "-c"@, 1, seq![a] + post) == su_parse_rest(m2, post));
    assert(su_parse_rest(m1, short) == su_parse_rest(m2, post));
    // `--command COMMAND`
    let long = seq!["--command"@, a] + post;
    assert(pre + seq!["--command"@, a] + post =~= pre + long);
    lemma_su_rest_append(su_default(), pre, long);
    assert(long[0] == "--command"@);
    assert(long.drop_first() =~= seq![a] + post);
    assert("--command"@ != "-"@);
    assert("--command"@.subrange(0, 2) =~= "--"@);
    lemma_find_char("--command"@, '=');
    assert(find_char("--command"@, '=') is None);
    assert("--command"@.skip(2) =~= "command"@);
    assert(long_index("command"@) == Some(0int));
    assert(su_parse_rest(m1, long) == su_parse_rest(m2, post));
    // only the user and its arguments follow
    if post.len() > 0 && no_more_options(post) {
        if post[0].len() >= 1 {
            assert(post[0] != "-"@);
        }
        if post[0].len() >= 2 {
            assert(post[0].subrange(0, 2)[0] == post[0][0]);
            assert(post[0].subrange(0, 2) != "--"@);
        }
        assert(su_parse_rest(m2, post) == Ok::<SuModel, Seq<char>>(
            SuModel { user: Some(post[0]), arguments: post.drop_first(), ..m2 },
        ));
    }
}


/// When only the user and its arguments follow, or nothing, parsing ends with the options so
/// far.
proof fn lemma_su_operands(m: SuModel, post: Seq<Seq<char>>)
    requires
        no_more_options(post),
    ensures
        su_parse_rest(m, post) == (if post.len() == 0 {
            Ok::<SuModel, Seq<char>>(m)
        } else {
            Ok(SuModel { user: Some(post[0]), arguments: post.drop_first(), ..m })
        }),
{
    reveal_strlit("--");
    reveal_strlit("-");
    if post.len() > 0 {
        if post[0].len() >= 1 {
            assert(post[0] != "-"@);
        }
        if post[0].len() >= 2 {
            assert(post[0].subrange(0, 2)[0] == post[0][0]);
            assert(post[0].subrange(0, 2) != "--"@);
        }
    }
}

/// What the one-letter option `c` (with the argument `a` where it takes one) leaves in `m`:
/// `-c` the command, `-g` the group, `-G` the supplementary group, `-s` the shell, `-l` a
/// login shell, `-P` a pseudo-terminal.
pub open spec fn option_given(m: SuModel, c: char, a: Seq<char>) -> bool {
    &&& c == 'c' ==> m.command == Some(a)
    &&& c == 'g' ==> m.group == Some(a)
    &&& c == 'G' ==> m.supp_group == Some(a)
    &&& c == 's' ==> m.shell == Some(a)
    &&& c == 'l' ==> m.login
    &&& c == 'P' ==> m.pty
}

/// Each of `-c`, `-g`, `-G` and `-s` with its argument, and each of `-l` and `-P`, given as an
/// option of its own (after arguments that parse on their own and name no user yet) and
/// followed only by the user and its arguments, leaves its value in the options that come out
/// (see `option_given`).
pub proof fn law_short_options(pre: Seq<Seq<char>>, c: char, a: Seq<char>, post: Seq<Seq<char>>)
    requires
        su_parse(pre) matches Ok(m1) && m1.user is None,
        no_more_options(post),
    ensures
        (c == 'c' || c == 'g' || c == 'G' || c == 's') ==> (su_parse(pre + seq![seq!['-', c], a] + post) matches Ok(r)
            && option_given(r, c, a)),
        (c == 'l' || c == 'P') ==> (su_parse(pre + seq![seq!['-', c]] + post) matches Ok(r) && option_given(r, c, a)),
{
    let m1 = su_parse(pre)->Ok_0;
    let opt = seq!['-', c];
    reveal_strlit("--");
    reveal_strlit("-");
    assert(opt != "-"@);
    if c != '-' {
        assert(opt.subrange(0, 2)[1] == c);
        assert(opt.subrange(0, 2) != "--"@);
    }
    assert(short_name(0) == 'c');
    assert(short_name(1) == 'g');
    assert(short_name(2) == 'G');
    assert(short_name(3) == 'l');
    assert(short_name(4) == 'P');
    assert(short_name(5) == 's');
    if c == 'c' || c == 'g' || c == 'G' || c == 's' {
        let i: int = if c == 'c' { 0 } else if c == 'g' { 1 } else if c == 'G' { 2 } else { 5 };
        assert(short_index(c) == Some(i));
        let args = seq![opt, a] + post;
        assert(pre + seq![opt, a] + post =~= pre + args);
        lemma_su_rest_append(su_default(), pre, args);
        assert(args[0] == opt);
        assert(args.drop_first() =~= seq![a] + post);
        assert((seq![a] + post)[0] == a);
        assert((seq![a] + post).drop_first() =~= post);
        assert(opt.skip(2) =~= Seq::<char>::empty());
        assert(trim(Seq::<char>::empty()) =~= Seq::<char>::empty());
        let m2 = apply_option(m1, i, Some(a))->Ok_0;
        assert(su_parse_short(m1, opt, 1, seq![a] + post) == su_parse_rest(m2, post));
        assert(su_parse_rest(m1, args) == su_parse_rest(m2, post));
        lemma_su_operands(m2, post);
    }
    if c == 'l' || c == 'P' {
        let i: int = if c == 'l' { 3 } else { 4 };
        assert(short_index(c) == Some(i));
        let args = seq![opt] + post;
        assert(pre + seq![opt] + post =~= pre + args);
        lemma_su_rest_append(su_default(), pre, args);
        assert(args[0] == opt);
        assert(args.drop_first() =~= post);
        let m2 = apply_option(m1, i, None)->Ok_0;
        assert(su_parse_short(m2, opt, 2, post) == su_parse_rest(m2, post));
        assert(su_parse_short(m1, opt, 1, post) == su_parse_rest(m2, post));
        assert(su_parse_rest(m1, args) == su_parse_rest(m2, post));
        lemma_su_operands(m2, post);
    }
}

} // verus!
