use vstd::seq::Seq;
use sudo_rs::interface::{GroupId, UserId};
use sudo_rs::sudoers::aliases::sanitize_alias_table;
use sudo_rs::sudoers::ast::{
    parse_lines, parse_string, Authenticate, CommandSpec, Def, Directive, Identifier, Qualified,
    Spec, Sudo, UserSpecifier,
};
use sudo_rs::sudoers::basic_parser::{Span, Status};
use sudo_rs::sudoers::char_stream::CharStream;
use sudo_rs::sudoers::matching::{UnixGroup, UnixUser};
use sudo_rs::sudoers::tokens::{ChDir, Meta};
use sudo_rs::sudoers::defaults::{ListMode, ListSetting, SettingsModifier, TextSetting};
use sudo_rs::sudoers::{included_files, analyze, Error, ListRequest, OpenError, Request, SudoersSource, Sudoers};
use sudo_rs::sudoers::policy::Authorization;
use std::collections::HashSet;

struct NoFiles;

impl SudoersSource for NoFiles {
    fn open_subsudoers(&mut self, _path: &str) -> Result<Vec<Result<Sudo, Status>>, OpenError> {
        Err(OpenError::NotFound)
    }

    fn read_dir(&mut self, _path: &str) -> Option<Vec<String>> {
        None
    }
}

fn lines(text: &[&str]) -> Vec<Result<Sudo, Status>> {
    let mut all: Vec<&str> = text.to_vec();
    all.push("");
    let joined = all.join("\n");
    let mut stream = CharStream::new(&joined);
    parse_lines::<Sudo>(&mut stream)
}

fn sudoer(text: &[&str]) -> (Sudoers, Vec<Error>) {
    analyze("/etc/fakesudoers", lines(text), &mut NoFiles)
}

fn message(s: Status) -> String {
    match s {
        Status::Fatal(_, m) => m,
        Status::Reject => "rejected".to_string(),
    }
}

fn parse_line(s: &str) -> Sudo {
    match lines(&[s]).into_iter().next().unwrap() {
        Ok(x) => x,
        Err(e) => panic!("{}", message(e)),
    }
}

fn try_parse_line(s: &str) -> Option<Sudo> {
    let mut stream = CharStream::new(s);
    parse_lines::<Sudo>(&mut stream).into_iter().next()?.ok()
}

fn parse_eval<T: sudo_rs::sudoers::ast::Parse>(s: &str) -> T {
    match parse_string::<T>(s) {
        Ok(x) => x,
        Err(e) => panic!("{}", message(e)),
    }
}

#[derive(PartialEq)]
struct Named(&'static str);

fn dummy_cksum(name: &str) -> u32 {
    if name == "root" {
        0
    } else {
        1000 + name.chars().fold(0, |x, y| (x * 97 + y as u32) % 1361)
    }
}

// The spec functions of the traits describe a user for the verifier; they are never
// called when the program runs.
impl UnixUser for Named {
    fn named(&self, _name: Seq<char>) -> bool {
        unreachable!()
    }

    fn with_uid(&self, _uid: u32) -> bool {
        unreachable!()
    }

    fn root(&self) -> bool {
        unreachable!()
    }

    fn member_named(&self, _name: Seq<char>) -> bool {
        unreachable!()
    }

    fn member_gid(&self, _gid: u32) -> bool {
        unreachable!()
    }

    fn same(&self, _other: &Self) -> bool {
        unreachable!()
    }

    fn has_name(&self, name: &str) -> bool {
        self.0 == name
    }

    fn has_uid(&self, uid: UserId) -> bool {
        UserId::new(dummy_cksum(self.0)) == uid
    }

    fn is_root(&self) -> bool {
        self.0 == "root"
    }

    fn in_group_by_name(&self, name: &str) -> bool {
        self.has_name(name)
    }

    fn in_group_by_gid(&self, gid: GroupId) -> bool {
        GroupId::new(dummy_cksum(self.0)) == gid
    }

    fn is_same(&self, other: &Self) -> bool {
        self.0 == other.0
    }
}

impl UnixGroup for Named {
    fn gid(&self) -> u32 {
        unreachable!()
    }

    fn name(&self) -> Option<Seq<char>> {
        unreachable!()
    }

    fn as_gid(&self) -> GroupId {
        GroupId::new(dummy_cksum(self.0))
    }

    fn try_as_name(&self) -> Option<String> {
        Some(self.0.to_string())
    }
}

#[test]
fn ambiguous_spec() {
    assert!(parse_eval::<Sudo>("marc, User_Alias ALL = ALL").is_spec());
}

fn check(
    text: &[&str],
    user: &'static str,
    req: (&'static str, &'static str),
    server: &str,
    command: &str,
) -> Option<sudo_rs::sudoers::ast::Tag> {
    let (mut sudoers, _) = sudoer(text);
    let cmdvec = command.split_whitespace().map(String::from).collect::<Vec<_>>();
    let args = cmdvec[1..].to_vec();
    let request = Request {
        user: &Named(req.0),
        group: &Named(req.1),
        command: &cmdvec[0],
        arguments: &args,
    };
    sudoers.check(&Named(user), server, request).flags
}

fn root() -> (&'static str, &'static str) {
    ("root", "root")
}

fn fail(text: &[&str], user: &'static str, req: (&'static str, &'static str), server: &str, command: &str) {
    assert!(check(text, user, req, server, command).is_none());
}

fn pass(text: &[&str], user: &'static str, req: (&'static str, &'static str), server: &str, command: &str) -> sudo_rs::sudoers::ast::Tag {
    let result = check(text, user, req, server, command);
    assert!(result.is_some(), "{:?} {} {}", text, user, command);
    result.unwrap()
}

fn syntax(text: &str) {
    assert!(parse_string::<Sudo>(text).is_err())
}

#[test]
fn permission_test() {
    syntax("ALL ALL = (;) ALL");
    fail(&["user ALL=(ALL:ALL) ALL"], "nobody", root(), "server", "/bin/hello");
    pass(&["user ALL=(ALL:ALL) ALL"], "user", root(), "server", "/bin/hello");
    { let t = pass(&["user ALL=(ALL:ALL) /bin/foo"], "user", root(), "server", "/bin/foo"); assert_eq!(t.authenticate, Authenticate::Unspecified); }
    fail(&["user ALL=(ALL:ALL) /bin/foo"], "user", root(), "server", "/bin/hello");
    { let t = pass(&["user ALL=(ALL:ALL) PASSWD: /bin/foo"], "user", root(), "server", "/bin/foo"); assert_eq!(t.authenticate, Authenticate::Passwd); }
    { let t = pass(&["user ALL=(ALL:ALL) NOPASSWD: PASSWD: /bin/foo"], "user", root(), "server", "/bin/foo"); assert_eq!(t.authenticate, Authenticate::Passwd); }
    { let t = pass(&["user ALL=(ALL:ALL) PASSWD: NOPASSWD: /bin/foo"], "user", root(), "server", "/bin/foo"); assert_eq!(t.authenticate, Authenticate::Nopasswd); }
    { let t = pass(&["user ALL=(ALL:ALL) /bin/foo, NOPASSWD: /bin/bar"], "user", root(), "server", "/bin/foo"); assert_eq!(t.authenticate, Authenticate::Unspecified); }
    { let t = pass(&["user ALL=(ALL:ALL) /bin/foo, NOPASSWD: /bin/bar"], "user", root(), "server", "/bin/bar"); assert_eq!(t.authenticate, Authenticate::Nopasswd); }
    { let t = pass(&["user ALL=(ALL:ALL) NOPASSWD: /bin/foo, /bin/bar"], "user", root(), "server", "/bin/bar"); assert_eq!(t.authenticate, Authenticate::Nopasswd); }
    { let t = pass(&["user ALL=(ALL:ALL) CWD=/ /bin/foo, /bin/bar"], "user", root(), "server", "/bin/bar"); assert_eq!(t.cwd, Some(ChDir::Path("/".into()))); }
    { let t = pass(&["user ALL=(ALL:ALL) CWD=/ /bin/foo, CWD=* /bin/bar"], "user", root(), "server", "/bin/bar"); assert_eq!(t.cwd, Some(ChDir::Any)); }
    { let t = pass(&["user ALL=(ALL:ALL) CWD=/bin CWD=* /bin/foo"], "user", root(), "server", "/bin/foo"); assert_eq!(t.cwd, Some(ChDir::Any)); }
    { let t = pass(&["user ALL=(ALL:ALL) CWD=/usr/bin NOPASSWD: /bin/foo"], "user", root(), "server", "/bin/foo"); assert_eq!(t.authenticate, Authenticate::Nopasswd); assert_eq!(t.cwd, Some(ChDir::Path("/usr/bin".into()))); }
    { let t = pass(&["user ALL=(ALL:ALL) NOPASSWD: CWD=/usr/bin /bin/foo"], "user", root(), "server", "/bin/foo"); assert_eq!(t.authenticate, Authenticate::Nopasswd); assert_eq!(t.cwd, Some(ChDir::Path("/usr/bin".into()))); }

    pass(&["user ALL=/bin/e##o"], "user", root(), "vm", "/bin/e");
    syntax("ALL ALL=(ALL) /bin/\n/echo");

    pass(&["user server=(ALL:ALL) ALL"], "user", root(), "server", "/bin/hello");
    fail(&["user laptop=(ALL:ALL) ALL"], "user", root(), "server", "/bin/hello");

    pass(&["user ALL=!/bin/hello", "user ALL=/bin/hello"], "user", root(), "server", "/bin/hello");
    fail(&["user ALL=/bin/hello", "user ALL=!/bin/hello"], "user", root(), "server", "/bin/hello");

    for alias in ["User_Alias GROUP=user1, user2", "User_Alias GROUP=ALL,!user3"] {
        pass(&[alias, "GROUP ALL=/bin/hello"], "user1", root(), "server", "/bin/hello");
        pass(&[alias, "GROUP ALL=/bin/hello"], "user2", root(), "server", "/bin/hello");
        fail(&[alias, "GROUP ALL=/bin/hello"], "user3", root(), "server", "/bin/hello");
    }
    pass(&["user ALL=/bin/hello arg"], "user", root(), "server", "/bin/hello arg");
    pass(&["user ALL=/bin/hello  arg"], "user", root(), "server", "/bin/hello arg");
    pass(&["user ALL=/bin/hello arg"], "user", root(), "server", "/bin/hello  arg");
    fail(&["user ALL=/bin/hello arg"], "user", root(), "server", "/bin/hello boo");
    pass(&["user ALL=/bin/hello"], "user", root(), "server", "/bin/hello boo");
    fail(&["user ALL=/bin/hello \"\""], "user", root(), "server", "/bin/hello boo");
    pass(&["user ALL=/bin/hello \"\""], "user", root(), "server", "/bin/hello");
    pass(&["user ALL=/bin/hel*"], "user", root(), "server", "/bin/hello");
    pass(&["user ALL=/bin/hel*"], "user", root(), "server", "/bin/help");
    pass(&["user ALL=/bin/hel*"], "user", root(), "server", "/bin/help me");
    fail(&["user ALL=/bin/hel* me"], "user", root(), "server", "/bin/help");
    pass(&["user ALL=/bin/hel* me"], "user", root(), "server", "/bin/help me");
    fail(&["user ALL=/bin/hel* me"], "user", root(), "server", "/bin/help me please");

    { let t = pass(&["user ALL=(ALL:ALL) /bin/foo"], "user", root(), "server", "/bin/foo"); assert_eq!(t.authenticate, Authenticate::Unspecified); }
    { let t = pass(&["root ALL=(ALL:ALL) /bin/foo"], "root", root(), "server", "/bin/foo"); assert_eq!(t.authenticate, Authenticate::Nopasswd); }
    { let t = pass(&["user ALL=(ALL:ALL) /bin/foo"], "user", ("user", "user"), "server", "/bin/foo"); assert_eq!(t.authenticate, Authenticate::Nopasswd); }
    { let t = pass(&["user ALL=(ALL:ALL) /bin/foo"], "user", ("user", "root"), "server", "/bin/foo"); assert_eq!(t.authenticate, Authenticate::Unspecified); }

    assert_eq!(Named("user").as_gid(), GroupId::new(1466));
    pass(&["#1466 server=(ALL:ALL) ALL"], "user", root(), "server", "/bin/hello");
    pass(&["%#1466 server=(ALL:ALL) ALL"], "user", root(), "server", "/bin/hello");
    fail(&["#1466 server=(ALL:ALL) ALL"], "root", root(), "server", "/bin/hello");
    fail(&["%#1466 server=(ALL:ALL) ALL"], "root", root(), "server", "/bin/hello");
    pass(&["#1466,#1234,foo server=(ALL:ALL) ALL"], "user", root(), "server", "/bin/hello");
    pass(&["#1234,foo,#1466 server=(ALL:ALL) ALL"], "user", root(), "server", "/bin/hello");
    pass(&["foo,#1234,#1466 server=(ALL:ALL) ALL"], "user", root(), "server", "/bin/hello");
    fail(&["foo,#1234,#1366 server=(ALL:ALL) ALL"], "user", root(), "server", "/bin/hello");
    fail(&["#1366,#1234,foo server=(ALL:ALL) ALL"], "user", root(), "server", "/bin/hello");
    pass(&["user ALL=(ALL:#1466) /bin/foo"], "user", ("root", "root"), "server", "/bin/foo");
    fail(&["user ALL=(ALL:#1466) /bin/foo"], "user", ("root", "other"), "server", "/bin/foo");
    pass(&["user ALL=(ALL:#1466) /bin/foo"], "user", ("root", "user"), "server", "/bin/foo");
    pass(&["user ALL=(root,user:ALL) /bin/foo"], "user", ("root", "wheel"), "server", "/bin/foo");
    pass(&["user ALL=(root,user:ALL) /bin/foo"], "user", ("user", "wheel"), "server", "/bin/foo");
    fail(&["user ALL=(root,user:ALL) /bin/foo"], "user", ("sudo", "wheel"), "server", "/bin/foo");
    fail(&["user ALL=(#0:wheel) /bin/foo"], "user", ("sudo", "wheel"), "server", "/bin/foo");
    pass(&["user ALL=(#0:wheel) /bin/foo"], "user", ("root", "root"), "server", "/bin/foo");
    fail(&["user ALL=(%#1466:wheel) /bin/foo"], "user", ("root", "root"), "server", "/bin/foo");
    pass(&["user ALL=(%#1466:wheel) /bin/foo"], "user", ("user", "user"), "server", "/bin/foo");

    fail(&["user ALL=(ALL) /bin/foo"], "user", ("sudo", "wheel"), "server", "/bin/foo");
    pass(&["user ALL=(ALL) /bin/foo"], "user", ("sudo", "sudo"), "server", "/bin/foo");

    fail(&["user ALL=/bin/foo"], "user", ("sudo", "sudo"), "server", "/bin/foo");
    fail(&["user ALL=/bin/foo"], "user", ("sudo", "root"), "server", "/bin/foo");
    fail(&["user ALL=/bin/foo"], "user", ("root", "sudo"), "server", "/bin/foo");
    pass(&["user ALL=/bin/foo"], "user", ("root", "root"), "server", "/bin/foo");

    pass(&["user ALL=(sudo:sudo) /bin/foo"], "user", ("user", "sudo"), "server", "/bin/foo");

    pass(&["user ALL=(root) /bin/ls, (sudo) /bin/true"], "user", ("root", "root"), "server", "/bin/ls");
    { let t = pass(&["user ALL=(root) NOPASSWD: /bin/ls, (sudo) /bin/true"], "user", ("sudo", "sudo"), "server", "/bin/true"); assert_eq!(t.authenticate, Authenticate::Nopasswd); }
    fail(&["user ALL=(root) /bin/ls, (sudo) /bin/true"], "user", ("sudo", "sudo"), "server", "/bin/ls");
    fail(&["user ALL=(root) /bin/ls, (sudo) /bin/true"], "user", ("root", "root"), "server", "/bin/true");
    pass(&["user ALL=(root) NOPASSWD: /bin/ls, (sudo) /bin/ls, /bin/true"], "user", ("sudo", "sudo"), "server", "/bin/true");

    syntax("User_Alias, marc ALL = ALL");

    pass(&["User_Alias FULLTIME=ALL,!marc", "FULLTIME ALL=ALL"], "user", root(), "server", "/bin/bash");
    fail(&["User_Alias FULLTIME=ALL,!marc", "FULLTIME ALL=ALL"], "marc", root(), "server", "/bin/bash");
    fail(&["User_Alias FULLTIME=ALL,!marc", "ALL,!FULLTIME ALL=ALL"], "user", root(), "server", "/bin/bash");
    pass(&["User_Alias FULLTIME=ALL,!!!marc", "ALL,!FULLTIME ALL=ALL"], "marc", root(), "server", "/bin/bash");
    pass(&["Host_Alias MACHINE=laptop,server", "user MACHINE=ALL"], "user", root(), "server", "/bin/bash");
    pass(&["Host_Alias MACHINE=laptop,server", "user MACHINE=ALL"], "user", root(), "laptop", "/bin/bash");
    fail(&["Host_Alias MACHINE=laptop,server", "user MACHINE=ALL"], "user", root(), "desktop", "/bin/bash");
    pass(&["Cmnd_Alias WHAT=/bin/dd, /bin/rm", "user ALL=WHAT"], "user", root(), "server", "/bin/rm");
    pass(&["Cmd_Alias WHAT=/bin/dd,/bin/rm", "user ALL=WHAT"], "user", root(), "laptop", "/bin/dd");
    fail(&["Cmnd_Alias WHAT=/bin/dd,/bin/rm", "user ALL=WHAT"], "user", root(), "desktop", "/bin/bash");

    pass(&["User_Alias A=B", "User_Alias B=user", "A ALL=ALL"], "user", root(), "vm", "/bin/ls");
    pass(&["Host_Alias A=B", "Host_Alias B=vm", "ALL A=ALL"], "user", root(), "vm", "/bin/ls");
    pass(&["Cmnd_Alias A=B", "Cmnd_Alias B=/bin/ls", "ALL ALL=A"], "user", root(), "vm", "/bin/ls");

    fail(&["Runas_Alias TIME=%wheel,!!sudo", "user ALL=() ALL"], "user", ("sudo", "sudo"), "vm", "/bin/ls");
    pass(&["Runas_Alias TIME=%wheel,!!sudo", "user ALL=(TIME) ALL"], "user", ("sudo", "sudo"), "vm", "/bin/ls");
    fail(&["Runas_Alias TIME=%wheel,!!sudo", "user ALL=(:TIME) ALL"], "user", ("sudo", "sudo"), "vm", "/bin/ls");
    pass(&["Runas_Alias TIME=%wheel,!!sudo", "user ALL=(:TIME) ALL"], "user", ("user", "sudo"), "vm", "/bin/ls");
    pass(&["Runas_Alias TIME=%wheel,!!sudo", "user ALL=(TIME) ALL"], "user", ("wheel", "wheel"), "vm", "/bin/ls");

    pass(&["Runas_Alias \\", " TIME=%wheel \\", ",sudo # hallo", "user ALL \\", "=(TIME) ALL"], "user", ("wheel", "wheel"), "vm", "/bin/ls");

    fail(&["User_Alias FOO=!user", "ALL, FOO ALL=ALL"], "user", root(), "vm", "/bin/ls");
    pass(&["User_Alias FOO=!user", "!FOO ALL=ALL"], "user", root(), "vm", "/bin/ls");

    pass(&["a\\,b ALL=ALL"], "a,b", ("root", "root"), "server", "/bin/foo");
    pass(&["\"a,b\" ALL=ALL"], "a,b", ("root", "root"), "server", "/bin/foo");
    pass(&["\"a\\b\" ALL=ALL"], "a\\b", ("root", "root"), "server", "/bin/foo");

    pass(&["foo@machine.name ALL=ALL"], "foo@machine.name", ("root", "root"), "server", "/bin/foo");
    pass(&["fnord$ ALL=ALL"], "fnord$", ("root", "root"), "server", "/bin/foo");
    pass(&["ALL ALL=/foo/command --bar=1"], "user", ("root", "root"), "server", "/foo/command --bar=1");

    pass(&["ALL ALL=(ALL:ALL) /bin/ls, list"], "user", root(), "server", "list");
    fail(&["ALL ALL=(ALL:ALL) ALL, !list"], "user", root(), "server", "list");
}

fn env_keep(s: &Sudoers) -> HashSet<String> {
    s.settings.env_keep().iter().cloned().collect()
}

fn env_check(s: &Sudoers) -> HashSet<String> {
    s.settings.env_check().iter().cloned().collect()
}

fn set_of(v: &[&str]) -> HashSet<String> {
    v.iter().map(|x| x.to_string()).collect()
}

#[test]
fn default_bool_test() {
    let (mut sudoers, _) = sudoer(&[
        "Defaults env_editor",
        "Defaults !use_pty",
        "Defaults use_pty",
        "Defaults !env_keep",
        "Defaults !secure_path",
        "Defaults !env_editor",
    ]);
    sudoers.specify_host_user_runas("host", &Named("user"), Some(&Named("root")));

    assert!(!sudoers.settings.env_editor());
    assert!(sudoers.settings.use_pty());
    assert!(sudoers.settings.env_keep().is_empty());
    assert_eq!(sudoers.settings.secure_path(), None);
    assert!(!sudoers.settings.env_editor());
}

#[test]
fn default_set_test() {
    let (mut sudoers, _) = sudoer(&[
        "Defaults env_keep = \"FOO HUK BAR\"",
        "Defaults env_keep -= HUK",
        "Defaults !env_check",
        "Defaults env_check += \"FOO\"",
        "Defaults env_check += \"XYZZY\"",
        "Defaults passwd_tries = 5",
        "Defaults secure_path = /etc",
    ]);
    sudoers.specify_host_user_runas("host", &Named("user"), Some(&Named("root")));

    assert_eq!(env_keep(&sudoers), set_of(&["FOO", "BAR"]));
    assert_eq!(env_check(&sudoers), set_of(&["FOO", "XYZZY"]));
    assert_eq!(sudoers.settings.secure_path(), Some("/etc"));
    assert_eq!(sudoers.settings.passwd_tries(), 5);

    assert!(parse_string::<Sudo>("Defaults verifypw = \"sometimes\"").is_err());
    assert!(parse_string::<Sudo>("Defaults verifypw = sometimes").is_err());
    assert!(parse_string::<Sudo>("Defaults verifypw = never").is_ok());
}

#[test]
fn default_multi_test() {
    let (mut sudoers, _) = sudoer(&[
        "Defaults !env_editor, use_pty, env_keep = \"FOO BAR\", env_keep -= BAR, secure_path=/etc",
    ]);
    sudoers.specify_host_user_runas("host", &Named("user"), Some(&Named("root")));

    assert!(!sudoers.settings.env_editor());
    assert!(sudoers.settings.use_pty());
    assert_eq!(sudoers.settings.secure_path(), Some("/etc"));
    assert_eq!(env_keep(&sudoers), set_of(&["FOO"]));
}

#[test]
fn default_timeouts() {
    let (mut sudoers, errs) = sudoer(&[
        "Defaults timestamp_timeout = 2.5",
        "Defaults passwd_timeout = 1",
        "Defaults passwd_tries = 1001",
    ]);
    assert_eq!(errs.len(), 1);
    assert_eq!(errs[0].message, "'1001' is not a valid value for passwd_tries");
    sudoers.specify_host_user_runas("host", &Named("user"), None);
    assert_eq!(sudoers.settings.timestamp_timeout(), 150);
    assert_eq!(sudoers.settings.passwd_timeout(), 60);
    assert_eq!(sudoers.settings.passwd_tries(), 3);
}

#[test]
#[should_panic]
fn invalid_directive() {
    parse_eval::<Sudo>("User_Alias, user Alias = user1, user2");
}

#[test]
#[should_panic = "embedded $ in username"]
fn invalid_username() {
    parse_eval::<Sudo>("User_Alias FOO = $dollar");
}

#[test]
fn inclusive_username() {
    let UserSpecifier::User(Identifier::Name(sirin)) = parse_eval::<UserSpecifier>("şirin") else {
        panic!();
    };

    assert_eq!(sirin, "şirin");
}

#[test]
fn sudoedit_recognized() {
    let CommandSpec(_, Qualified::Allow(Meta::Only((cmd, args)))) =
        parse_eval::<CommandSpec>("sudoedit /etc/tmux.conf")
    else {
        panic!();
    };
    assert_eq!(cmd.as_str(), "sudoedit");
    assert_eq!(args.unwrap().as_slice(), &["/etc/tmux.conf"][..]);
}

#[test]
#[should_panic = "list does not take arguments"]
fn list_does_not_take_args() {
    parse_eval::<CommandSpec>("list /etc/tmux.conf");
}

#[test]
fn directive_test() {
    let y = parse_eval::<Spec<UserSpecifier>>;
    match parse_eval::<Sudo>("User_Alias HENK = user1, user2") {
        Sudo::Decl(Directive::UserAlias(defs)) => {
            let [Def(name, list)] = &defs[..] else {
                panic!("incorrectly parsed")
            };
            assert_eq!(name, "HENK");
            assert_eq!(*list, vec![y("user1"), y("user2")]);
        }
        _ => panic!("incorrectly parsed"),
    }

    match parse_eval::<Sudo>("Runas_Alias FOO = foo : BAR = bar") {
        Sudo::Decl(Directive::RunasAlias(defs)) => {
            let [Def(name1, list1), Def(name2, list2)] = &defs[..] else {
                panic!("incorrectly parsed")
            };
            assert_eq!(name1, "FOO");
            assert_eq!(*list1, vec![y("foo")]);
            assert_eq!(name2, "BAR");
            assert_eq!(*list2, vec![y("bar")]);
        }
        _ => panic!("incorrectly parsed"),
    }
}

#[test]
fn hashsign_test() {
    assert!(parse_line("#42 ALL=ALL").is_spec());
    assert!(parse_line("ALL ALL=(#42) ALL").is_spec());
    assert!(parse_line("ALL ALL=(%#42) ALL").is_spec());
    assert!(parse_line("ALL ALL=(:#42) ALL").is_spec());
    assert!(parse_line("User_Alias FOO=#42, %#0, #3").is_decl());
    assert!(parse_line("").is_line_comment());
    assert!(parse_line("#this is a comment").is_line_comment());
    assert!(parse_line("#include foo").is_include());
    assert!(parse_line("#includedir foo").is_include_dir());
    assert_eq!(Some("foo bar"), parse_line("#include \"foo bar\"").as_include());
    // this is fine
    assert!(parse_line("#inlcudedir foo").is_line_comment());
    assert!(parse_line("@include foo").is_include());
    assert!(parse_line("@includedir foo").is_include_dir());
    assert_eq!(Some("foo bar"), parse_line("@include \"foo bar\"").as_include());
}

#[test]
fn gh674_at_include_quoted_backslash() {
    assert!(parse_line(r#"@include "/etc/sudo\ers" "#).is_include());
    assert!(parse_line(r#"@includedir "/etc/sudo\ers.d" "#).is_include_dir());
}

#[test]
fn gh676_percent_h_escape_unsupported() {
    let (_, errs) = sudoer(&[r#"@includedir "/etc/%h" "#]);
    assert_eq!(errs.len(), 1);
    assert_eq!(
        errs[0].message,
        "cannot open sudoers file /etc/%h: percent escape %h in includedir is unsupported"
    );
    assert_eq!(
        errs[0].location,
        Some(Span {
            start: (1, 2),
            end: (1, 23)
        })
    );
}

#[test]
fn gh1295_escaped_equal_argument_ok() {
    assert!(try_parse_line("Cmd_Alias FOO_CMD = /bin/foo --bar=1").is_some());
    assert!(try_parse_line(r"Cmd_Alias FOO_CMD = /bin/foo --bar\=1").is_some());
}

#[test]
fn hashsign_error() {
    assert!(parse_line("#include foo bar").is_line_comment());
}

#[test]
fn include_regression() {
    assert!(try_parse_line("#4,#include foo").is_none());
}

#[test]
fn nullbyte_regression() {
    assert!(try_parse_line("ferris ALL=(ALL:ferris\0) ALL").is_none());
}

#[test]
fn alias_all_regression() {
    assert!(try_parse_line("User_Alias ALL = sudouser").is_none())
}

#[test]
fn defaults_regression() {
    assert!(try_parse_line("Defaults .mymachine=ALL").is_none())
}

#[test]
fn specific_defaults() {
    assert!(parse_line("Defaults !use_pty").is_decl());
    assert!(try_parse_line("Defaults!use_pty").is_none());
    assert!(parse_line("Defaults!/bin/bash !use_pty").is_decl());
    assert!(try_parse_line("Defaults!/bin/bash!use_pty").is_none());
    assert!(try_parse_line("Defaults !/bin/bash !use_pty").is_none());
    assert!(try_parse_line("Defaults !/bin/bash").is_none());
    assert!(parse_line("Defaults@host !use_pty").is_decl());
    assert!(parse_line("Defaults@host!use_pty").is_decl());
    assert!(try_parse_line("Defaults @host!use_pty").is_none());
    assert!(try_parse_line("Defaults @host !use_pty").is_none());
    assert!(parse_line("Defaults:user !use_pty").is_decl());
    assert!(parse_line("Defaults:user!use_pty").is_decl());
    assert!(try_parse_line("Defaults :user!use_pty").is_none());
    assert!(try_parse_line("Defaults :user !use_pty").is_none());
    assert!(parse_line("Defaults>user !use_pty").is_decl());
    assert!(parse_line("Defaults>user!use_pty").is_decl());
    assert!(try_parse_line("Defaults >user!use_pty").is_none());
    assert!(try_parse_line("Defaults >user !use_pty").is_none());
}

#[test]
fn at_sign_ambiguity() {
    assert!(parse_line("Defaults@host env_keep=ALL").is_decl());
    assert!(parse_line("defaults@host env_keep=ALL").is_spec());
}

#[test]
fn default_specific_test() {
    let sudoers = || {
        sudoer(&[
            "Defaults!RR use_pty",
            "Defaults env_editor",
            "Defaults@host !env_editor",
            "Defaults !use_pty",
            "Defaults:user use_pty",
            "Defaults !secure_path",
            "Defaults>runas secure_path=\"/bin\"",
            "Defaults!/bin/foo !env_keep",
            "Cmnd_Alias RR=/usr/bin/rr twice",
        ])
    };

    let (mut base_sudoers, _) = sudoers();
    base_sudoers.specify_host_user_runas("generic", &Named("generic"), Some(&Named("generic")));

    assert!(base_sudoers.settings.env_editor());
    assert!(!base_sudoers.settings.use_pty());
    assert!(env_keep(&base_sudoers).contains("COLORS"));
    assert_eq!(base_sudoers.settings.secure_path(), None);

    let (mut mod_sudoers, _) = sudoers();
    mod_sudoers.specify_host_user_runas("host", &Named("user"), Some(&Named("root")));
    assert!(!mod_sudoers.settings.env_editor());
    assert!(mod_sudoers.settings.use_pty());
    assert!(env_keep(&mod_sudoers).contains("COLORS"));
    assert_eq!(mod_sudoers.settings.secure_path(), None);

    let (mut mod_sudoers, _) = sudoers();
    mod_sudoers.specify_host_user_runas("machine", &Named("admin"), Some(&Named("runas")));
    assert!(mod_sudoers.settings.env_editor());
    assert!(!mod_sudoers.settings.use_pty());
    assert!(env_keep(&mod_sudoers).contains("COLORS"));
    assert_eq!(mod_sudoers.settings.secure_path(), Some("/bin"));
    mod_sudoers.specify_command("/bin/foo", &vec!["".to_string(), "a".to_string()]);
    assert!(mod_sudoers.settings.env_keep().is_empty());

    let (mut mod_sudoers, _) = sudoers();
    mod_sudoers.specify_host_user_runas("machine", &Named("admin"), Some(&Named("self")));
    mod_sudoers.specify_command("/usr/bin/rr", &vec!["thrice".to_string()]);
    assert!(mod_sudoers.settings.env_editor());
    assert!(!mod_sudoers.settings.use_pty());
    assert!(env_keep(&mod_sudoers).contains("COLORS"));
    assert_eq!(mod_sudoers.settings.secure_path(), None);

    let (mut mod_sudoers, _) = sudoers();
    mod_sudoers.specify_command("/usr/bin/rr", &vec!["twice".to_string()]);
    assert!(mod_sudoers.settings.use_pty());
}

#[test]
fn useralias_underscore_regression() {
    let sudo = parse_line("FOO_BAR ALL=ALL");
    let spec = sudo.as_spec().expect("`Sudo::Spec`");
    assert!(spec.users[0]
        .as_allow()
        .expect("`Qualified::Allow`")
        .is_alias());
}

#[test]
fn regression_check_recursion() {
    let (_, error) = sudoer(&["User_Alias A=user, B", "User_Alias B=A"]);
    assert!(!error.is_empty());
}

struct Files;

impl SudoersSource for Files {
    fn open_subsudoers(&mut self, path: &str) -> Result<Vec<Result<Sudo, Status>>, OpenError> {
        match path {
            "/etc/sudoers.d/admins" => Ok(lines(&["admin ALL=ALL"])),
            "/etc/extra" => Ok(lines(&["extra ALL=ALL"])),
            "/etc/loop" => Ok(lines(&["@include loop"])),
            _ => Err(OpenError::NotFound),
        }
    }

    fn read_dir(&mut self, path: &str) -> Option<Vec<String>> {
        if path == "/etc/sudoers.d" {
            Some(vec![
                "admins".to_string(),
                "backup~".to_string(),
                "notes.txt".to_string(),
            ])
        } else {
            None
        }
    }
}

#[test]
fn includes_are_read_from_the_source() {
    let text = lines(&["@includedir sudoers.d", "@include /etc/extra", "@include missing"]);
    let (mut sudoers, errs) = analyze("/etc/sudoers", text, &mut Files);
    assert_eq!(errs.len(), 1);
    assert_eq!(errs[0].message, "cannot open sudoers file '/etc/missing'");
    assert_eq!(sudoers.rules.len(), 2);
    let root_user = Named("root");
    let root_group = Named("root");
    let no_args: Vec<String> = vec![];
    let request = || Request {
        user: &root_user,
        group: &root_group,
        command: "/bin/ls",
        arguments: &no_args,
    };
    assert!(sudoers.check(&Named("admin"), "host", request()).flags.is_some());
    let (mut sudoers, _) = analyze("/etc/sudoers", lines(&["@include extra"]), &mut Files);
    assert!(sudoers.check(&Named("extra"), "host", request()).flags.is_some());
    let (_, errs) = analyze("/etc/sudoers", lines(&["@include loop"]), &mut Files);
    assert_eq!(errs.len(), 1);
    assert!(errs[0].message.starts_with("include file limit reached"));
}

fn check_order(table: &Vec<Def<UserSpecifier>>, order: &[usize]) -> HashSet<String> {
    let mut seen = HashSet::new();
    for Def(id, defns) in order.iter().map(|&i| &table[i]) {
        if defns.iter().any(|spec| {
            let Qualified::Allow(Meta::Alias(id2)) = spec else {
                return false;
            };
            !seen.contains(id2)
        }) {
            panic!("forward reference encountered after sorting");
        }
        seen.insert(id.clone());
    }
    seen
}

fn test_topo_sort(n: usize) {
    let alias = |s: &str| Qualified::Allow(Meta::<UserSpecifier>::Alias(s.to_string()));
    let stop = || Qualified::Allow(Meta::<UserSpecifier>::All);
    type Elem = Spec<UserSpecifier>;
    let test_case = |x1: Elem, x2: Elem, x3: Elem| {
        let table = vec![
            Def("AAP".to_string(), vec![x1]),
            Def("NOOT".to_string(), vec![x2]),
            Def("MIES".to_string(), vec![x3]),
        ];
        let mut err = vec![];
        let order = sanitize_alias_table(&table, &mut err);
        assert!(err.is_empty());
        check_order(&table, &order);
    };
    match n {
        0 => test_case(alias("AAP"), alias("NOOT"), stop()),
        1 => test_case(alias("AAP"), stop(), alias("NOOT")),
        2 => test_case(alias("NOOT"), alias("AAP"), stop()),
        3 => test_case(alias("NOOT"), stop(), alias("AAP")),
        4 => test_case(stop(), alias("AAP"), alias("NOOT")),
        5 => test_case(stop(), alias("NOOT"), alias("AAP")),
        _ => panic!("error in test case"),
    }
}

#[test]
fn test_topo_positive() {
    test_topo_sort(3);
    test_topo_sort(4);
}

#[test]
#[should_panic]
fn test_topo_fail0() {
    test_topo_sort(0);
}

#[test]
#[should_panic]
fn test_topo_fail1() {
    test_topo_sort(1);
}

#[test]
#[should_panic]
fn test_topo_fail2() {
    test_topo_sort(2);
}

#[test]
#[should_panic]
fn test_topo_fail5() {
    test_topo_sort(5);
}

fn fuzz_topo_sort(siz: usize) {
    for mut n in 0..(1..siz).reduce(|x, y| x * y).unwrap() {
        let name = |s: u8| std::str::from_utf8(&[65 + s]).unwrap().to_string();
        let alias = |s: String| Qualified::Allow(Meta::<UserSpecifier>::Alias(s));
        let stop = || Qualified::Allow(Meta::<UserSpecifier>::All);

        let mut data = (0..siz - 1)
            .map(|i| alias(name(i as u8)))
            .collect::<Vec<_>>();
        data.push(stop());

        for i in (1..=siz).rev() {
            data.swap(i - 1, n % i);
            n /= i;
        }

        let table = data
            .into_iter()
            .enumerate()
            .map(|(i, x)| Def(name(i as u8), vec![x]))
            .collect();

        let mut err = vec![];
        let order = sanitize_alias_table(&table, &mut err);
        if !err.is_empty() {
            return;
        }

        let seen = check_order(&table, &order);
        assert!(seen.len() == siz);
    }
}

#[test]
fn fuzz_topo_sort7() {
    fuzz_topo_sort(7)
}

#[test]
fn alias_problems_are_reported() {
    let table = vec![
        Def("A".to_string(), vec![Qualified::Allow(Meta::<UserSpecifier>::Alias("B".to_string()))]),
        Def("A".to_string(), vec![Qualified::Forbid(Meta::<UserSpecifier>::All)]),
    ];
    let mut err = vec![];
    let _ = sanitize_alias_table(&table, &mut err);
    let messages: Vec<String> = err.into_iter().map(|e| e.message).collect();
    assert_eq!(messages, vec!["undefined alias: 'B'", "multiple occurrences of 'A'"]);
}

#[test]
fn validate_permission_needs_some_command() {
    let (mut s, _) = sudoer(&["user ALL=(ALL:ALL) /bin/ls, NOPASSWD: /bin/cat"]);
    let j = s.check_validate_permission(&Named("user"), &Named("user"), "server");
    let tag = j.flags.clone().unwrap();
    assert_eq!(tag.authenticate, Authenticate::Unspecified);
    let Authorization::Allowed(auth, ()) = j.authentication() else {
        panic!()
    };
    assert!(auth.must_authenticate);
    let (mut s, _) = sudoer(&["user ALL=(ALL:ALL) NOPASSWD: /bin/ls"]);
    let j = s.check_validate_permission(&Named("user"), &Named("user"), "server");
    assert_eq!(j.flags.unwrap().authenticate, Authenticate::Nopasswd);
    let (mut s, _) = sudoer(&["user laptop=(ALL:ALL) /bin/ls"]);
    let j = s.check_validate_permission(&Named("user"), &Named("user"), "server");
    assert!(j.flags.is_none());
    assert!(matches!(j.authentication(), Authorization::Forbidden));
    let (mut s, _) = sudoer(&["root laptop=(ALL:ALL) /bin/ls", "root ALL=(ALL:ALL) /bin/ls"]);
    let j = s.check_validate_permission(&Named("root"), &Named("root"), "server");
    assert_eq!(j.flags.unwrap().authenticate, Authenticate::Nopasswd);
}

#[test]
fn list_permission_for_self_and_others() {
    let rules = ["user ALL=(ALL:ALL) /bin/ls, NOPASSWD: /bin/cat", "admin ALL=(ALL:ALL) list"];
    let (mut s, _) = sudoer(&rules);
    let req = ListRequest {
        inspected_user: &Named("user"),
        inspected_group: &Named("user"),
        target_user: &Named("root"),
        target_group: &Named("root"),
    };
    let j = s.check_list_permission(&Named("user"), "server", req);
    assert_eq!(j.flags.unwrap().authenticate, Authenticate::Nopasswd);

    let (mut s, _) = sudoer(&rules);
    let req = ListRequest {
        inspected_user: &Named("user"),
        inspected_group: &Named("user"),
        target_user: &Named("root"),
        target_group: &Named("root"),
    };
    assert!(s.check_list_permission(&Named("admin"), "server", req).flags.is_some());

    let (mut s, _) = sudoer(&rules);
    let req = ListRequest {
        inspected_user: &Named("admin"),
        inspected_group: &Named("admin"),
        target_user: &Named("root"),
        target_group: &Named("root"),
    };
    assert!(s.check_list_permission(&Named("user"), "server", req).flags.is_none());

    let (mut s, _) = sudoer(&rules);
    let req = ListRequest {
        inspected_user: &Named("user"),
        inspected_group: &Named("user"),
        target_user: &Named("root"),
        target_group: &Named("root"),
    };
    let j = s.check_list_permission(&Named("root"), "server", req);
    assert_eq!(j.flags.unwrap().authenticate, Authenticate::Nopasswd);
}

#[test]
fn sorted_alias_table_reports_nothing() {
    let table = vec![
        Def("AAP".to_string(), vec![Qualified::Allow(Meta::<UserSpecifier>::Alias("NOOT".to_string()))]),
        Def("NOOT".to_string(), vec![Qualified::Allow(Meta::<UserSpecifier>::All)]),
        Def("MIES".to_string(), vec![Qualified::Allow(Meta::<UserSpecifier>::Alias("AAP".to_string()))]),
    ];
    let mut diagnostics = vec![];
    let order = sanitize_alias_table(&table, &mut diagnostics);
    assert_eq!(order, vec![1, 0, 2]);
    assert!(diagnostics.is_empty());
}

#[test]
fn alias_faults_are_reported_after_earlier_diagnostics() {
    let alias = |s: &str| Qualified::Allow(Meta::<UserSpecifier>::Alias(s.to_string()));
    let earlier = Error { source: Some("/etc/sudoers".to_string()), location: None, message: "earlier".to_string() };
    let table = vec![
        Def("A".to_string(), vec![alias("B")]),
        Def("B".to_string(), vec![alias("A")]),
        Def("C".to_string(), vec![alias("MISSING")]),
        Def("C".to_string(), vec![]),
    ];
    let mut diagnostics = vec![earlier];
    sanitize_alias_table(&table, &mut diagnostics);
    assert_eq!(diagnostics[0].message, "earlier");
    let messages: Vec<&str> = diagnostics[1..].iter().map(|e| e.message.as_str()).collect();
    assert_eq!(messages, vec!["recursive alias: 'A'", "undefined alias: 'MISSING'", "multiple occurrences of 'C'"]);
    assert!(diagnostics[1..].iter().all(|e| e.source.is_none() && e.location.is_none()));
}

#[test]
fn analyze_takes_the_lines_in_order() {
    let (sudoers, errors) = sudoer(&[
        "User_Alias ADMINS = alice, bob",
        "alice ALL=(ALL:ALL) /bin/ls",
        "Defaults:alice !use_pty",
        "Defaults!/bin/ls env_keep += FOO",
        "bob ALL=ALL",
        "Host_Alias SERVERS = one, two",
    ]);
    assert!(errors.is_empty());
    assert_eq!(sudoers.rules.len(), 2);
    assert_eq!(sudoers.aliases.user.1.len(), 1);
    assert_eq!(sudoers.aliases.host.1.len(), 1);
    assert_eq!(sudoers.aliases.user.1[0].0, "ADMINS");
    assert_eq!(sudoers.customisers.non_cmnd.len(), 1);
    assert_eq!(sudoers.customisers.cmnd.len(), 1);
}

#[test]
fn analyze_reports_parse_errors_and_alias_faults_in_order() {
    let (_, errors) = sudoer(&["User_Alias A = B", "user ALL=(ALL"]);
    assert_eq!(errors.len(), 2);
    assert_eq!(errors[0].source.as_deref(), Some("/etc/fakesudoers"));
    assert_eq!(errors[1].message, "undefined alias: 'B'");
    assert!(errors[1].location.is_none());
}

#[test]
fn check_applies_only_matching_defaults() {
    let (mut sudoers, _) = sudoer(&[
        "Defaults:user !use_pty",
        "Defaults:other env_keep += FOO",
        "Defaults!/bin/hello env_keep += BAR",
        "user ALL=/bin/hello",
    ]);
    let args: Vec<String> = vec![];
    let request = Request { user: &Named("root"), group: &Named("root"), command: "/bin/hello", arguments: &args };
    let judgement = sudoers.check(&Named("user"), "server", request);
    assert!(judgement.flags.is_some());
    assert!(!judgement.settings.use_pty());
    assert!(judgement.settings.env_keep().iter().any(|x| x == "BAR"));
    assert!(!judgement.settings.env_keep().iter().any(|x| x == "FOO"));
}

#[test]
fn line_kinds_by_first_character() {
    assert!(matches!(parse_line("@include foo"), Sudo::Include(p, _) if p == "foo"));
    assert!(matches!(parse_line("#includedir foo"), Sudo::IncludeDir(p, _) if p == "foo"));
    assert!(matches!(parse_line("#just a comment"), Sudo::LineComment));
    assert!(parse_line("\"user\" ALL=ALL").is_spec());
    assert_eq!(lines(&["a", "b", "c"]).len(), 3);
}

#[test]
fn unsupported_tags_are_reported() {
    for tag in ["INTERCEPT", "CHROOT", "TIMEOUT", "NOTBEFORE", "NOTAFTER"] {
        let line = format!("user ALL={tag}: /bin/ls");
        match lines(&[line.as_str()]).into_iter().next().unwrap() {
            Err(Status::Fatal(_, m)) => assert_eq!(m, format!("{tag} is not supported by sudo-rs")),
            _ => panic!("{tag} accepted"),
        }
    }
    for tag in ["ROLE", "TYPE"] {
        let line = format!("user ALL={tag}=x /bin/ls");
        match lines(&[line.as_str()]).into_iter().next().unwrap() {
            Err(Status::Fatal(_, m)) => {
                assert_eq!(m, "SELinux role based access control is not yet supported by sudo-rs")
            }
            _ => panic!("{tag} accepted"),
        }
    }
}

#[test]
fn includedir_reads_safe_names_in_order() {
    let names: Vec<String> = ["b", "a", "x.conf", "c~", "a2"].iter().map(|s| s.to_string()).collect();
    let files = included_files(&"/etc/sudoers.d".to_string(), &names);
    assert_eq!(files, vec!["/etc/sudoers.d/a", "/etc/sudoers.d/a2", "/etc/sudoers.d/b"]);
    let files = included_files(&"/etc/sudoers.d/".to_string(), &vec!["z".to_string()]);
    assert_eq!(files, vec!["/etc/sudoers.d/z"]);
}

#[test]
fn settings_parse_to_their_values() {
    assert!(parse_string::<SettingsModifier>("verifypw = sometimes").is_err());
    assert!(parse_string::<SettingsModifier>("verifypw = \"sometimes\"").is_err());
    assert!(matches!(
        parse_string::<SettingsModifier>("verifypw = never"),
        Ok(SettingsModifier::Text(TextSetting::Verifypw, Some(v))) if v == "never"
    ));
    assert!(matches!(
        parse_string::<SettingsModifier>("!secure_path"),
        Ok(SettingsModifier::Text(TextSetting::SecurePath, None))
    ));
    match parse_string::<SettingsModifier>("env_keep += \"A B=c\"") {
        Ok(SettingsModifier::List(ListSetting::EnvKeep, ListMode::Add, v)) => assert_eq!(v, vec!["A", "B=c"]),
        _ => panic!("env_keep += not parsed"),
    }
    assert!(parse_string::<SettingsModifier>("no_such_setting").is_err());
    assert!(parse_string::<SettingsModifier>("passwd_tries = 1001").is_err());
    assert!(parse_string::<SettingsModifier>("use_pty = yes").is_err());
}

#[test]
fn validate_applies_host_and_user_defaults() {
    let (mut s, _) = sudoer(&["Defaults:user !use_pty", "Defaults:other passwd_tries = 5", "user ALL=ALL"]);
    let j = s.check_validate_permission(&Named("user"), &Named("user"), "server");
    assert!(j.flags.is_some());
    assert!(!j.settings.use_pty());
    assert_eq!(j.settings.passwd_tries(), 3);
}
