use sudo_rs::su_cli::SuOptions;

fn parse(args: &[&str]) -> SuOptions {
    SuOptions::parse_arguments(
        args.iter()
            .map(|s| s.to_string())
            .collect::<Vec<String>>(),
    )
    .unwrap()
}

#[test]
fn it_parses_group() {
    let expected = SuOptions {
        group: Some("ferris".to_string()),
        ..Default::default()
    };
    assert_eq!(expected, parse(&["-g", "ferris"]));
    assert_eq!(expected, parse(&["-gferris"]));
    assert_eq!(expected, parse(&["--group", "ferris"]));
    assert_eq!(expected, parse(&["--group=ferris"]));
}

#[test]
fn it_parses_login() {
    let result = parse(&["--login"]);
    assert_eq!(
        result,
        SuOptions {
            login: true,
            ..Default::default()
        }
    );
}

#[test]
fn it_parses_shell_default() {
    let result = parse(&["--shell", "/bin/bash"]);
    assert_eq!(
        result,
        SuOptions {
            shell: Some("/bin/bash".to_string()),
            ..Default::default()
        }
    );
}

#[test]
fn it_parses_whitelist() {
    let result = parse(&["-w", "FOO,BAR"]);
    assert_eq!(
        result,
        SuOptions {
            whitelist_environment: vec!["FOO".to_string(), "BAR".to_string()],
            ..Default::default()
        }
    );
}

#[test]
fn it_parses_combined_options() {
    let expected = SuOptions {
        login: true,
        pty: true,
        ..Default::default()
    };

    assert_eq!(expected, parse(&["-Pl"]));
    assert_eq!(expected, parse(&["-lP"]));
}

#[test]
fn it_parses_combined_options_and_arguments() {
    let expected = SuOptions {
        login: true,
        pty: true,
        shell: Some("/bin/bash".to_string()),
        ..Default::default()
    };

    assert_eq!(expected, parse(&["-Pls/bin/bash"]));
    assert_eq!(expected, parse(&["-Pls", "/bin/bash"]));
    assert_eq!(expected, parse(&["-Pl", "-s/bin/bash"]));
    assert_eq!(expected, parse(&["-lP", "-s", "/bin/bash"]));
    assert_eq!(expected, parse(&["-lP", "--shell=/bin/bash"]));
    assert_eq!(expected, parse(&["-lP", "--shell", "/bin/bash"]));
}

#[test]
fn it_parses_an_user() {
    assert_eq!(
        SuOptions {
            user: Some("ferris".to_string()),
            pty: true,
            ..Default::default()
        },
        parse(&["-P", "ferris"])
    );

    assert_eq!(
        SuOptions {
            user: Some("ferris".to_string()),
            arguments: vec!["-P".to_string()],
            ..Default::default()
        },
        parse(&["ferris", "-P"])
    );
}

#[test]
fn it_parses_arguments() {
    let expected = SuOptions {
        user: Some("ferris".to_string()),
        pty: true,
        arguments: vec!["script.sh".to_string()],
        ..Default::default()
    };

    assert_eq!(expected, parse(&["-P", "ferris", "script.sh"]));
}

#[test]
fn su_single_dash_means_login() {
    let result = parse(&["-", "ferris"]);
    assert_eq!(
        result,
        SuOptions {
            login: true,
            user: Some("ferris".to_string()),
            ..Default::default()
        }
    );
}

#[test]
fn su_errors() {
    let err = |args: &[&str]| {
        SuOptions::parse_arguments(args.iter().map(|s| s.to_string()).collect()).unwrap_err()
    };
    assert_eq!(err(&["--wololo"]), "unrecognized option '--wololo'");
    assert_eq!(err(&["-x"]), "unrecognized option 'x'");
    assert_eq!(err(&["--login=yes"]), "'--login' does not take any arguments");
    assert_eq!(err(&["--bogus=yes"]), "unrecognized option '--bogus=yes'");
    assert_eq!(err(&["-c"]), "no command provided");
    assert_eq!(err(&["--group"]), "no group provided");
    assert_eq!(err(&["-G"]), "no supplementary group provided");
    assert_eq!(err(&["-s"]), "no shell provided");
    assert_eq!(err(&["-w"]), "no enivronment whitelist provided");
}
