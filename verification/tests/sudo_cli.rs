use sudo_rs::sudo_cli::is_sudoedit;
use sudo_rs::sudo_cli::{SudoAction, SudoOptions};

fn fake_env() -> Vec<(String, String)> {
    vec![
        ("HOME".to_string(), "/home/ferris".to_string()),
        ("PATH".to_string(), "/usr/bin:/bin".to_string()),
    ]
}

fn args(v: &[&str]) -> Vec<String> {
    v.iter().map(|s| s.to_string()).collect()
}

fn options(v: &[&str]) -> Result<SudoOptions, String> {
    SudoOptions::try_parse_from(args(v), &fake_env())
}

fn action(v: &[&str]) -> Result<SudoAction, String> {
    SudoAction::try_parse_from(args(v), &fake_env())
}

fn pairs(v: &[(&str, &str)]) -> Vec<(String, String)> {
    v.iter().map(|(a, b)| (a.to_string(), b.to_string())).collect()
}

/// Passing '-E' with a variable fails
#[test]
fn short_preserve_env_with_var_fails() {
    let argss = [["sudo", "-E=variable"], ["sudo", "-Evariable"]];

    for a in argss {
        let res = options(&a);
        assert!(res.is_err())
    }
}

#[test]
fn preserve_env_with_var() {
    let cmd = options(&["sudo", "--preserve-env=HOME"]).unwrap();
    assert_eq!(pairs(&[("HOME", "/home/ferris")]), cmd.env_var_list);
}

#[test]
fn preserve_env_with_several_vars() {
    let cmd = options(&["sudo", "--preserve-env=PATH,HOME"]).unwrap();
    assert_eq!(
        pairs(&[("PATH", "/usr/bin:/bin"), ("HOME", "/home/ferris")]),
        cmd.env_var_list
    );
}

#[test]
fn preserve_env_boolean_and_list() {
    let argss = [
        ["sudo", "--preserve-env", "--preserve-env=HOME"],
        ["sudo", "--preserve-env=HOME", "--preserve-env"],
    ];

    for a in argss {
        let cmd = options(&a).unwrap();
        assert_eq!(pairs(&[("HOME", "/home/ferris")]), cmd.env_var_list);
    }
}

#[test]
fn preserve_env_repeated() {
    let cmd = options(&["sudo", "--preserve-env=PATH", "--preserve-env=HOME"]).unwrap();
    assert_eq!(
        ["PATH", "HOME"],
        cmd.env_var_list
            .into_iter()
            .map(|x| x.0)
            .collect::<Vec<_>>()
            .as_slice()
    );
}

#[test]
fn preserve_env_skips_unknown_variables() {
    let cmd = options(&["sudo", "--preserve-env=NOPE,HOME,"]).unwrap();
    assert_eq!(pairs(&[("HOME", "/home/ferris")]), cmd.env_var_list);
}

#[test]
fn env_variable() {
    let cmd = options(&["sudo", "ENV=with_a_value"]).unwrap();
    assert_eq!(cmd.env_var_list, pairs(&[("ENV", "with_a_value")]));
    assert!(cmd.positional_args.is_empty());
}

#[test]
fn several_env_variables() {
    let cmd = options(&[
        "sudo",
        "ENV=with_a_value",
        "another_var=otherval",
        "more=this_is_a_val",
    ])
    .unwrap();
    assert_eq!(
        cmd.env_var_list,
        pairs(&[
            ("ENV", "with_a_value"),
            ("another_var", "otherval"),
            ("more", "this_is_a_val")
        ])
    );
    assert!(cmd.positional_args.is_empty());
}

#[test]
fn mix_env_variables_with_trailing_args_divided_by_hyphens() {
    let cmd = options(&["sudo", "env=var", "--", "external=args", "something"]).unwrap();
    assert_eq!(cmd.env_var_list, pairs(&[("env", "var")]));
    assert_eq!(cmd.positional_args, vec!["external=args", "something"]);
}

#[test]
fn mix_env_variables_with_trailing_args_divided_by_known_flag() {
    let cmd = options(&["sudo", "-i", "external=args", "something"]).unwrap();
    assert_eq!(cmd.env_var_list, pairs(&[("external", "args")]));
    assert!(cmd.login);
    assert_eq!(cmd.positional_args, vec!["something"]);
}

#[test]
fn trailing_args_followed_by_known_flag() {
    let cmd = options(&["sudo", "args", "followed_by", "known_flag", "-i"]).unwrap();
    assert!(!cmd.login);
    assert_eq!(
        cmd.positional_args,
        vec!["args", "followed_by", "known_flag", "-i"]
    );
}

#[test]
fn trailing_args_hyphens_known_flag() {
    let cmd = options(&[
        "sudo",
        "--",
        "trailing",
        "args",
        "followed_by",
        "known_flag",
        "-i",
    ])
    .unwrap();
    assert!(!cmd.login);
    assert_eq!(
        cmd.positional_args,
        vec!["trailing", "args", "followed_by", "known_flag", "-i"]
    );
}

#[test]
fn first_trailing_env_var_is_not_an_external_arg() {
    let cmd = action(&["sudo", "FOO=1", "command", "BAR=2"]).unwrap();
    let opts = if let SudoAction::Run(opts) = cmd {
        opts
    } else {
        panic!()
    };
    assert_eq!(opts.env_var_list, pairs(&[("FOO", "1")]));
    assert_eq!(opts.positional_args, ["command", "BAR=2"],);
}

#[test]
fn trailing_env_vars_are_external_args() {
    let cmd = options(&[
        "sudo", "FOO=1", "-i", "BAR=2", "command", "BAZ=3", "arg", "FOOBAR=4", "command", "arg",
        "BARBAZ=5",
    ])
    .unwrap();
    assert!(cmd.login);
    assert_eq!(cmd.env_var_list, pairs(&[("FOO", "1"), ("BAR", "2")]));
    assert_eq!(
        cmd.positional_args,
        ["command", "BAZ=3", "arg", "FOOBAR=4", "command", "arg", "BARBAZ=5"]
    );
}

#[test]
fn single_env_var_declaration() {
    let cmd = options(&["sudo", "FOO=1", "command"]).unwrap();
    assert_eq!(cmd.env_var_list, pairs(&[("FOO", "1")]));
    assert_eq!(cmd.positional_args, ["command"]);
}

#[test]
fn shorthand_with_argument() {
    let cmd = options(&["sudo", "-u", "ferris"]).unwrap();
    assert_eq!(cmd.user.as_deref(), Some("ferris"));
}

#[test]
fn shorthand_with_direct_argument() {
    let cmd = options(&["sudo", "-uferris"]).unwrap();
    assert_eq!(cmd.user.as_deref(), Some("ferris"));
}

#[test]
fn shorthand_without_argument() {
    let cmd = options(&["sudo", "-u"]);
    assert!(cmd.is_err())
}

#[test]
fn non_interactive() {
    let cmd = options(&["sudo", "-n"]).unwrap();
    assert!(cmd.non_interactive);

    let cmd = options(&["sudo", "--non-interactive"]).unwrap();
    assert!(cmd.non_interactive);
}

#[test]
fn stdin() {
    let cmd = options(&["sudo", "-S"]).unwrap();
    assert!(cmd.stdin);

    let cmd = options(&["sudo", "--stdin"]).unwrap();
    assert!(cmd.stdin);
}

#[test]
fn shell() {
    let cmd = options(&["sudo", "-s"]).unwrap();
    assert!(cmd.shell);

    let cmd = options(&["sudo", "--shell"]).unwrap();
    assert!(cmd.shell);
}

#[test]
fn directory() {
    let cmd = options(&["sudo", "-D/some/path"]).unwrap();
    assert_eq!(cmd.chdir.as_deref(), Some("/some/path"));

    let cmd = options(&["sudo", "--chdir", "/some/path"]).unwrap();
    assert_eq!(cmd.chdir.as_deref(), Some("/some/path"));

    let cmd = options(&["sudo", "--chdir=/some/path"]).unwrap();
    assert_eq!(cmd.chdir.as_deref(), Some("/some/path"));
}

#[test]
fn group() {
    let cmd = options(&["sudo", "-grustaceans"]).unwrap();
    assert_eq!(cmd.group.as_deref(), Some("rustaceans"));

    let cmd = options(&["sudo", "--group", "rustaceans"]).unwrap();
    assert_eq!(cmd.group.as_deref(), Some("rustaceans"));

    let cmd = options(&["sudo", "--group=rustaceans"]).unwrap();
    assert_eq!(cmd.group.as_deref(), Some("rustaceans"));
}

#[test]
fn other_user() {
    let cmd = options(&["sudo", "-Uferris"]).unwrap();
    assert_eq!(cmd.other_user.as_deref(), Some("ferris"));

    let cmd = options(&["sudo", "--other-user", "ferris"]).unwrap();
    assert_eq!(cmd.other_user.as_deref(), Some("ferris"));

    let cmd = options(&["sudo", "--other-user=ferris"]).unwrap();
    assert_eq!(cmd.other_user.as_deref(), Some("ferris"));
}

#[test]
fn invalid_option() {
    let cmd = options(&["sudo", "--wololo"]);
    assert!(cmd.is_err())
}

#[test]
fn invalid_option_with_argument() {
    let cmd = options(&["sudo", "--background=yes"]);
    assert!(cmd.is_err())
}

#[test]
fn no_argument_provided() {
    let cmd = options(&["sudo", "--user"]);
    assert!(cmd.is_err())
}

#[test]
fn login() {
    let cmd = options(&["sudo", "-i"]).unwrap();
    assert!(cmd.login);

    let cmd = options(&["sudo", "--login"]).unwrap();
    assert!(cmd.login);
}

#[test]
fn edit() {
    let cmd = action(&["sudo", "-e", "filepath"]).unwrap();
    assert!(cmd.is_edit());

    let cmd = action(&["sudo", "--edit", "filepath"]).unwrap();
    assert!(cmd.is_edit());

    let cmd = action(&["sudoedit", "filepath"]).unwrap();
    assert!(cmd.is_edit());

    let res = action(&["sudo", "--edit"]);
    assert!(res.is_err());

    let res = action(&["sudoedit", "--edit", "filepath"]);
    assert!(res.is_err());
}

#[test]
fn sudoedit_as_command_turns_into_edit() {
    let cmd = options(&["sudo", "/usr/bin/sudoedit", "file"]).unwrap();
    assert!(cmd.edit);
    assert_eq!(cmd.positional_args, vec!["file"]);

    let cmd = options(&["sudo", "/usr/bin/sudoedit/", "file"]).unwrap();
    assert!(!cmd.edit);
    assert_eq!(cmd.positional_args, vec!["/usr/bin/sudoedit/", "file"]);

    let cmd = options(&["/usr/local/bin/sudoedit-rs", "file"]).unwrap();
    assert!(cmd.edit);
    assert_eq!(cmd.positional_args, vec!["file"]);
}

#[test]
fn help() {
    let cmd = action(&["sudo", "-h"]).unwrap();
    assert!(cmd.is_help());

    let cmd = action(&["sudo", "-bh"]);
    assert!(cmd.is_err());

    let cmd = action(&["sudo", "--help"]).unwrap();
    assert!(cmd.is_help());
}

#[test]
fn conflicting_arguments() {
    let cmd = action(&["sudo", "-K", "-k"]);
    assert!(cmd.is_err());

    let cmd = action(&["sudo", "--remove-timestamp", "--reset-timestamp"]);
    assert!(cmd.is_err());

    let cmd = action(&["sudo", "-K"]).unwrap();
    assert!(cmd.is_remove_timestamp());

    let cmd = action(&["sudo", "-k"]).unwrap();
    assert!(cmd.is_reset_timestamp());
}

#[test]
fn conflict_messages() {
    let err = action(&["sudo", "-K", "-k"]).err().unwrap();
    assert_eq!(err, "--remove-timestamp cannot be used together with --reset-timestamp");
    let err = action(&["sudo", "-v", "-B", "-S"]).err().unwrap();
    assert_eq!(err, "--bell cannot be used together with --stdin");
    let err = action(&["sudo", "-i", "-s"]).err().unwrap();
    assert_eq!(err, "--login cannot be used together with --shell");
    let err = action(&["sudo", "-e"]).err().unwrap();
    assert_eq!(err, "must specify at least one file path");
    let err = action(&["sudo", "-l", "-u", "ferris"]).err().unwrap();
    assert_eq!(err, "'--user' flag must be accompanied by a command");
    let err = action(&["sudo", "-v", "FOO=1"]).err().unwrap();
    assert_eq!(err, "--validate cannot be used together with environment variable");
    let err = action(&["sudo", "-i", "-U", "ferris"]).err().unwrap();
    assert_eq!(err, "--login cannot be used together with --other-user");
    let err = action(&["sudo"]).err().unwrap();
    assert!(err.starts_with("expected one of these actions"));
    let err = options(&["sudo", "--login=yes"]).err().unwrap();
    assert_eq!(err, "'login' does not take any arguments");
    let err = options(&["sudo", "-u"]).err().unwrap();
    assert_eq!(err, "'-u' expects an argument");
    let err = options(&["sudo", "-u=root"]).err().unwrap();
    assert_eq!(err, "invalid option '='");
}

#[test]
fn list() {
    let valid: &[&[&str]] = &[
        &["sudo", "--list"],
        &["sudo", "-l"],
        &["sudo", "-l", "true"],
        &["sudo", "-l", "-U", "ferris"],
        &["sudo", "-l", "-U", "ferris", "true"],
        &["sudo", "-l", "-u", "ferris", "true"],
        &["sudo", "-l", "-u", "ferris", "-U", "root", "true"],
    ];

    for a in valid {
        let cmd = action(a).unwrap();
        assert!(cmd.is_list());
    }

    let invalid: &[&[&str]] = &[
        &["sudo", "-l", "-u", "ferris"],
        &["sudo", "-l", "-u", "ferris", "-U", "root"],
    ];

    for a in invalid {
        let res = action(a);
        assert!(res.is_err())
    }
}

#[test]
fn list_twice_is_verbose() {
    let cmd = options(&["sudo", "-ll"]).unwrap();
    assert!(cmd.list.unwrap().is_verbose());
    let cmd = options(&["sudo", "-l"]).unwrap();
    assert!(!cmd.list.unwrap().is_verbose());
}

#[test]
fn validate() {
    let cmd = action(&["sudo", "-v"]).unwrap();
    assert!(cmd.is_validate());

    let cmd = action(&["sudo", "--validate"]).unwrap();
    assert!(cmd.is_validate());
}

#[test]
fn version() {
    let cmd = action(&["sudo", "-V"]).unwrap();
    assert!(cmd.is_version());

    let cmd = action(&["sudo", "--version"]).unwrap();
    assert!(cmd.is_version());
}

#[test]
fn run_reset_timestamp_command() {
    let action = action(&["sudo", "-k", "true"])
        .unwrap()
        .try_into_run()
        .ok()
        .unwrap();
    assert_eq!(["true"], action.positional_args.as_slice());
    assert!(action.reset_timestamp);
}

#[test]
fn run_reset_timestamp_login() {
    let action = action(&["sudo", "-k", "-i"])
        .unwrap()
        .try_into_run()
        .ok()
        .unwrap();
    assert!(action.positional_args.is_empty());
    assert!(action.reset_timestamp);
    assert!(action.login);
}

#[test]
fn run_reset_timestamp_shell() {
    let action = action(&["sudo", "-k", "-s"])
        .unwrap()
        .try_into_run()
        .ok()
        .unwrap();
    assert!(action.positional_args.is_empty());
    assert!(action.reset_timestamp);
    assert!(action.shell);
}

#[test]
fn run_no_command() {
    assert!(action(&["sudo", "-u", "root"]).is_err());
}

#[test]
fn run_login() {
    assert!(action(&["sudo", "-i"]).unwrap().is_run());
}

#[test]
fn run_shell() {
    assert!(action(&["sudo", "-s"]).unwrap().is_run());
}

#[test]
fn help_texts() {
    let long = sudo_rs::help::long_help_message();
    assert!(long.starts_with("sudo - run commands as another user\nusage: sudo -h | -K | -k | -V\n"));
    assert!(long.ends_with("stop processing command line arguments"));
    assert!(sudo_rs::help::usage_msg().starts_with("usage: sudo -h"));
    let edit = sudo_rs::help_edit::long_help_message();
    assert!(edit.starts_with("sudo - edit files as another user\nusage: sudoedit -h | -V\n"));
    assert!(sudo_rs::help_edit::usage_msg().starts_with("usage: sudoedit -h | -V"));
}

#[test]
fn is_sudoedit_names() {
    assert!(is_sudoedit(Some("sudoedit".to_string())));
    assert!(is_sudoedit(Some("/usr/bin/sudoedit-rs".to_string())));
    assert!(is_sudoedit(Some("/usr/bin/sudoedit/.".to_string())));
    assert!(!is_sudoedit(Some("/usr/bin/sudo".to_string())));
    assert!(!is_sudoedit(Some("/".to_string())));
    assert!(!is_sudoedit(None));
}
