use sudo_rs::sudoedit_cli::{long_help_message, usage_msg, SudoEditAction, SudoEditOptions};

fn parse(args: &[&str]) -> Result<SudoEditOptions, String> {
    let mut all = vec!["sudoedit".to_string()];
    all.extend(args.iter().map(|s| s.to_string()));
    SudoEditOptions::parse_arguments(all)
}

#[test]
fn plain_file() {
    let opts = parse(&["/etc/hosts"]).unwrap();
    assert_eq!(opts.file.as_deref(), Some("/etc/hosts"));
    assert_eq!(opts.action, SudoEditAction::Run);
    let opts = parse(&["/etc/hosts", "/etc/motd"]).unwrap();
    assert_eq!(opts.file.as_deref(), Some("/etc/hosts"));
    assert_eq!(SudoEditOptions::parse_arguments(vec![]).unwrap(), SudoEditOptions::default());
}

#[test]
fn grouped_flags_and_values() {
    let opts = parse(&["-kn", "-uroot", "-g", "wheel", "file"]).unwrap();
    assert!(opts.reset_timestamp && opts.non_interactive);
    assert_eq!(opts.user.as_deref(), Some("root"));
    assert_eq!(opts.group.as_deref(), Some("wheel"));
    assert_eq!(opts.file.as_deref(), Some("file"));
    let opts = parse(&["-Sp", " prompt: "]).unwrap();
    assert!(opts.stdin);
    assert_eq!(opts.prompt.as_deref(), Some(" prompt: "));
    let opts = parse(&["-p  x  "]).unwrap();
    assert_eq!(opts.prompt.as_deref(), Some("x"));
}

#[test]
fn long_options() {
    let opts = parse(&["--user=alice", "--chdir", "/tmp", "--close-from=5", "--bell"]).unwrap();
    assert_eq!(opts.user.as_deref(), Some("alice"));
    assert_eq!(opts.chdir.as_deref(), Some("/tmp"));
    assert_eq!(opts.close_from, Some(5));
    assert!(opts.bell);
    assert_eq!(parse(&["--help"]).unwrap().action, SudoEditAction::Help);
    assert_eq!(parse(&["-V"]).unwrap().action, SudoEditAction::Version);
}

#[test]
fn errors() {
    assert_eq!(parse(&["--bell=yes"]).unwrap_err(), "'--bell' does not take any arguments");
    assert_eq!(parse(&["--frobnicate"]).unwrap_err(), "unrecognized option 'frobnicate'");
    assert_eq!(parse(&["--frob=1"]).unwrap_err(), "unrecognized option 'frob=1'");
    assert_eq!(parse(&["-x"]).unwrap_err(), "unrecognized option 'x'");
    assert_eq!(parse(&["-u"]).unwrap_err(), "option requires an argument -- 'u/user'");
    assert_eq!(parse(&["--group"]).unwrap_err(), "option requires an argument -- 'g/group'");
    assert_eq!(parse(&["-C", "many"]).unwrap_err(), "option  for close-from");
    assert_eq!(parse(&["--"]).unwrap_err(), "unrecognized option ''");
}

#[test]
fn sudoedit_help_texts() {
    assert!(usage_msg().starts_with("usage: sudoedit -h | -V\n"));
    let help = long_help_message();
    assert!(help.starts_with(usage_msg()));
    assert!(help.contains("\n\nsudoedit - edit files as another user\n\nOptions:\n"));
    assert!(help.ends_with("stop processing command line arguments"));
}
