use sudo_rs::environment::{
    dangerous_extend, get_target_environment, is_safe_tz, should_keep, Context, Environment,
    PATH_ZONEINFO,
};
use std::collections::HashSet;
use sudo_rs::interface::{GroupId, UserId};
use sudo_rs::sudo_cli::{SudoAction, SudoRunOptions};
use sudo_rs::sudoers::defaults::Settings;
use sudo_rs::sudoers::policy::{DirChange, Restrictions};

/// The longest path name on the systems these cases were written for.
const PATH_MAX: usize = 4096;

struct TestConfiguration {
    keep: Vec<String>,
    check: Vec<String>,
    path: Option<String>,
}

impl TestConfiguration {
    fn restrictions(&self) -> Restrictions<'_> {
        Restrictions {
            env_keep: &self.keep,
            env_check: &self.check,
            path: self.path.as_deref(),
            chdir: DirChange::Strict(None),
            trust_environment: false,
            use_pty: true,
            noexec: false,
        }
    }

    fn check_should_keep(&self, key: &str, value: &str, expected: bool) {
        assert_eq!(
            should_keep(key.as_bytes(), value.as_bytes(), &self.restrictions(), PATH_MAX),
            expected,
            "{} should {}",
            key,
            if expected { "be kept" } else { "not be kept" }
        );
    }
}

#[test]
fn test_filtering() {
    let mut config = TestConfiguration {
        keep: vec!["AAP".to_string(), "NOOT".to_string()],
        check: vec!["MIES".to_string(), "TZ".to_string()],
        path: Some("/bin".to_string()),
    };

    config.check_should_keep("AAP", "FOO", true);
    config.check_should_keep("MIES", "BAR", true);
    config.check_should_keep("AAP", "()=foo", false);
    config.check_should_keep("TZ", "Europe/Amsterdam", true);
    config.check_should_keep("TZ", "../Europe/Berlin", false);
    config.check_should_keep("MIES", "FOO/BAR", false);
    config.check_should_keep("MIES", "FOO/BAR", false);

    config.keep.push("PATH".to_string());
    config.check_should_keep("PATH", "FOO", false);
    config.path = None;
    config.check_should_keep("PATH", "FOO", true);
}

#[test]
fn test_tzinfo() {
    assert!(is_safe_tz("Europe/Amsterdam".as_bytes(), PATH_MAX));
    assert!(is_safe_tz(format!("{PATH_ZONEINFO}/Europe/London").as_bytes(), PATH_MAX));
    assert!(is_safe_tz(format!(":{PATH_ZONEINFO}/Europe/Amsterdam").as_bytes(), PATH_MAX));
    assert!(!is_safe_tz("/schaap/Europe/Amsterdam".as_bytes(), PATH_MAX));
    assert!(!is_safe_tz(format!("{PATH_ZONEINFO}/../Europe/London").as_bytes(), PATH_MAX));
    assert!(!is_safe_tz(format!("{PATH_ZONEINFO}/../Europe/London").as_bytes(), PATH_MAX));
}

#[test]
fn tz_edge_cases() {
    assert!(!is_safe_tz("Europe/Amster dam".as_bytes(), PATH_MAX));
    assert!(!is_safe_tz(PATH_ZONEINFO.as_bytes(), PATH_MAX));
    assert!(!is_safe_tz(format!("{PATH_ZONEINFO}x/UTC").as_bytes(), PATH_MAX));
    assert!(is_safe_tz(":UTC".as_bytes(), PATH_MAX));
    assert!(is_safe_tz("".as_bytes(), PATH_MAX));
    assert!(!is_safe_tz("a".repeat(4096).as_bytes(), PATH_MAX));
    assert!(is_safe_tz("a".repeat(4095).as_bytes(), PATH_MAX));
    assert!(is_safe_tz(format!(":{}", "a".repeat(4095)).as_bytes(), PATH_MAX));
}

#[test]
fn tz_dotdot_only_as_path_element() {
    assert!(is_safe_tz("Europe/a..b".as_bytes(), PATH_MAX));
    assert!(is_safe_tz("..a/b".as_bytes(), PATH_MAX));
    assert!(!is_safe_tz("..".as_bytes(), PATH_MAX));
    assert!(!is_safe_tz("Europe/..".as_bytes(), PATH_MAX));
    assert!(!is_safe_tz(":../UTC".as_bytes(), PATH_MAX));
    assert!(!is_safe_tz("a/../b".as_bytes(), PATH_MAX));
}

#[test]
fn tz_length_follows_the_given_limit() {
    assert!(is_safe_tz("a".repeat(1023).as_bytes(), 1024));
    assert!(!is_safe_tz("a".repeat(1024).as_bytes(), 1024));
}

#[test]
fn shell_function_prompt_is_removed() {
    let config = TestConfiguration {
        keep: vec!["FN".to_string()],
        check: vec![],
        path: None,
    };
    let current = env_of(&[("SUDO_PS1", "() { :; }"), ("FN", "() { echo; }")]);
    let env = get_target_environment(
        &current,
        env_of(&[("PAM_FN", "() { x; }")]),
        vec![],
        &context(),
        &config.restrictions(),
        PATH_MAX,
    )
    .unwrap();
    assert_eq!(get(&env, "PS1"), None);
    assert_eq!(get(&env, "FN"), None);
    assert_eq!(get(&env, "PAM_FN"), None);
    assert_eq!(get(&env, "USER").as_deref(), Some("root"));
}

#[test]
fn patterns_with_values_and_wildcards() {
    let config = TestConfiguration {
        keep: vec!["LC_*".to_string(), "COLOR=yes".to_string(), "X*Y=a*".to_string()],
        check: vec![],
        path: None,
    };
    config.check_should_keep("LC_ALL", "C", true);
    config.check_should_keep("LANG", "C", false);
    config.check_should_keep("COLOR", "yes", true);
    config.check_should_keep("COLOR", "no", false);
    config.check_should_keep("XABY", "abc", true);
    config.check_should_keep("XABY", "bc", false);
    config.check_should_keep("TZ", "UTC", false);
}

fn env_of(pairs: &[(&str, &str)]) -> Environment {
    let mut env = Environment::new();
    for (k, v) in pairs {
        env.insert(k.as_bytes().to_vec(), v.as_bytes().to_vec());
    }
    env
}

fn get(env: &Environment, key: &str) -> Option<String> {
    env.get(key.as_bytes()).map(|v| String::from_utf8(v.clone()).unwrap())
}

fn context() -> Context {
    Context {
        command: "/usr/bin/env".to_string(),
        arguments: vec!["-i".to_string(), "FOO=1".to_string()],
        current_uid: UserId::new(1000),
        current_gid: GroupId::new(1001),
        current_name: "test".to_string(),
        current_home: "/home/test".to_string(),
        target_name: "root".to_string(),
        target_shell: "/bin/bash".to_string(),
        target_home: "/root".to_string(),
    }
}

#[test]
fn target_environment_sets_sudo_variables() {
    let config = TestConfiguration {
        keep: vec!["LANG".to_string(), "TERM".to_string(), "USER".to_string()],
        check: vec![],
        path: Some("/sbin:/bin".to_string()),
    };
    let current = env_of(&[
        ("LANG", "C"),
        ("HOME", "/home/test"),
        ("TERM", "xterm"),
        ("USER", "test"),
        ("SUDO_PS1", "# "),
        ("PATH", "/home/test/bin"),
    ]);
    let env = get_target_environment(
        &current,
        Environment::new(),
        vec![],
        &context(),
        &config.restrictions(),
        PATH_MAX,
    )
    .unwrap();
    assert_eq!(get(&env, "LANG").as_deref(), Some("C"));
    assert_eq!(get(&env, "HOME").as_deref(), Some("/root"));
    assert_eq!(get(&env, "TERM").as_deref(), Some("xterm"));
    assert_eq!(get(&env, "USER").as_deref(), Some("test"));
    assert_eq!(get(&env, "LOGNAME").as_deref(), Some("test"));
    assert_eq!(get(&env, "PATH").as_deref(), Some("/sbin:/bin"));
    assert_eq!(get(&env, "PS1").as_deref(), Some("# "));
    assert_eq!(get(&env, "SUDO_PS1"), None);
    assert_eq!(get(&env, "SUDO_COMMAND").as_deref(), Some("/usr/bin/env -i FOO=1"));
    assert_eq!(get(&env, "SUDO_UID").as_deref(), Some("1000"));
    assert_eq!(get(&env, "SUDO_GID").as_deref(), Some("1001"));
    assert_eq!(get(&env, "SUDO_USER").as_deref(), Some("test"));
    assert_eq!(get(&env, "SUDO_HOME").as_deref(), Some("/home/test"));
    assert_eq!(get(&env, "MAIL"), None);
    assert_eq!(get(&env, "SHELL").as_deref(), Some("/bin/bash"));
    assert_eq!(env.len(), 13);
}

#[test]
fn target_environment_defaults_and_refusals() {
    let config = TestConfiguration {
        keep: vec!["FOO".to_string()],
        check: vec![],
        path: None,
    };
    let env = get_target_environment(
        &Environment::new(),
        env_of(&[("PAM_VAR", "1")]),
        vec![("FOO".to_string(), "bar".to_string())],
        &context(),
        &config.restrictions(),
        PATH_MAX,
    )
    .unwrap();
    assert_eq!(get(&env, "PATH").as_deref(), Some("/usr/bin:/bin:/usr/sbin:/sbin"));
    assert_eq!(get(&env, "TERM").as_deref(), Some("unknown"));
    assert_eq!(get(&env, "USER").as_deref(), Some("root"));
    assert_eq!(get(&env, "LOGNAME").as_deref(), Some("root"));
    assert_eq!(get(&env, "FOO").as_deref(), Some("bar"));
    assert_eq!(get(&env, "PAM_VAR").as_deref(), Some("1"));

    let refused = get_target_environment(
        &Environment::new(),
        Environment::new(),
        vec![
            ("BAR".to_string(), "1".to_string()),
            ("FOO".to_string(), "()x".to_string()),
            ("FOO".to_string(), "fine".to_string()),
        ],
        &context(),
        &config.restrictions(),
        PATH_MAX,
    );
    assert_eq!(refused.unwrap_err(), vec!["BAR".to_string(), "FOO".to_string()]);
}

#[test]
fn long_commands_drop_arguments() {
    let mut ctx = context();
    ctx.arguments = vec!["a".repeat(5000), "b".to_string()];
    let config = TestConfiguration { keep: vec![], check: vec![], path: None };
    let env = get_target_environment(
        &Environment::new(),
        Environment::new(),
        vec![],
        &ctx,
        &config.restrictions(),
        PATH_MAX,
    )
    .unwrap();
    assert_eq!(get(&env, "SUDO_COMMAND").as_deref(), Some("/usr/bin/env b"));
}

#[test]
fn extend_overrides_unchecked() {
    let mut env = env_of(&[("A", "1")]);
    dangerous_extend(&mut env, vec![("A".to_string(), "2".to_string()), ("B".to_string(), "()".to_string())]);
    assert_eq!(get(&env, "A").as_deref(), Some("2"));
    assert_eq!(get(&env, "B").as_deref(), Some("()"));
    assert_eq!(env.len(), 2);
}

const TESTS: &str = "
> env
    FOO=BAR
    HOME=/home/test
    HOSTNAME=test-ubuntu
    LANG=en_US.UTF-8
    LANGUAGE=en_US.UTF-8
    LC_ALL=en_US.UTF-8
    LS_COLORS=cd=40;33;01:*.jpg=01;35:*.mp3=00;36:
    PATH=/usr/local/sbin:/usr/local/bin:/usr/sbin:/usr/bin:/sbin:/bin
    PWD=/home/test
    SHLVL=0
    TERM=xterm
    _=/usr/bin/sudo
> sudo env
    HOSTNAME=test-ubuntu
    LANG=en_US.UTF-8
    LANGUAGE=en_US.UTF-8
    LC_ALL=en_US.UTF-8
    LS_COLORS=cd=40;33;01:*.jpg=01;35:*.mp3=00;36:
    PATH=/usr/local/sbin:/usr/local/bin:/usr/sbin:/usr/bin:/sbin:/bin
    SHELL=/bin/bash
    SUDO_COMMAND=/usr/bin/env
    SUDO_GID=1000
    SUDO_UID=1000
    SUDO_USER=test
    SUDO_HOME=/home/test
    HOME=/root
    LOGNAME=root
    USER=root
    TERM=xterm
> sudo -u test env
    HOSTNAME=test-ubuntu
    LANG=en_US.UTF-8
    LANGUAGE=en_US.UTF-8
    LC_ALL=en_US.UTF-8
    LS_COLORS=cd=40;33;01:*.jpg=01;35:*.mp3=00;36:
    PATH=/usr/local/sbin:/usr/local/bin:/usr/sbin:/usr/bin:/sbin:/bin
    SHELL=/bin/sh
    SUDO_COMMAND=/usr/bin/env
    SUDO_GID=1000
    SUDO_UID=1000
    SUDO_USER=test
    SUDO_HOME=/home/test
    HOME=/home/test
    LOGNAME=test
    USER=test
    TERM=xterm
";

fn parse_env_commands(input: &str) -> Vec<(&str, Environment)> {
    input
        .trim()
        .split("> ")
        .filter(|l| !l.is_empty())
        .map(|e| {
            let (cmd, vars) = e.split_once('\n').unwrap();
            let mut env = Environment::new();
            for line in vars.lines() {
                let (k, v) = line.trim().split_once('=').unwrap();
                env.insert(k.as_bytes().to_vec(), v.as_bytes().to_vec());
            }
            (cmd, env)
        })
        .collect()
}

/// The command is looked up in the search path, as the command line front end does.
fn resolve(command: &str, path: &str) -> String {
    path.split(':')
        .map(|dir| format!("{dir}/{command}"))
        .find(|p| std::path::Path::new(p).exists())
        .unwrap_or_else(|| command.to_string())
}

fn create_test_context(sudo_options: SudoRunOptions) -> Context {
    let path = "/usr/local/sbin:/usr/local/bin:/usr/sbin:/usr/bin:/sbin:/bin";
    let mut args = sudo_options.positional_args.into_iter();
    let command = resolve(&args.next().unwrap(), path);
    let as_test = sudo_options.user.as_deref() == Some("test");
    Context {
        command,
        arguments: args.collect(),
        current_uid: UserId::new(1000),
        current_gid: GroupId::new(1000),
        current_name: "test".to_string(),
        current_home: "/home/test".to_string(),
        target_name: if as_test { "test" } else { "root" }.to_string(),
        target_shell: if as_test { "/bin/sh" } else { "/bin/bash" }.to_string(),
        target_home: if as_test { "/home/test" } else { "/root" }.to_string(),
    }
}

fn environment_to_set(environment: &Environment) -> HashSet<String> {
    environment
        .entries_vec()
        .iter()
        .map(|(k, v)| format!("{}={}", String::from_utf8_lossy(k), String::from_utf8_lossy(v)))
        .collect()
}

#[test]
fn test_environment_variable_filtering() {
    let mut parts = parse_env_commands(TESTS);
    let initial_env = parts.remove(0).1;

    for (cmd, expected_env) in parts {
        let args = cmd.split_whitespace().map(String::from).collect();
        let options = SudoAction::try_parse_from(args, &vec![])
            .unwrap()
            .try_into_run()
            .ok()
            .unwrap();
        let settings = Settings::default();
        let context = create_test_context(options);
        let restrictions = Restrictions {
            env_keep: settings.env_keep(),
            env_check: settings.env_check(),
            path: settings.secure_path(),
            use_pty: true,
            chdir: DirChange::Strict(None),
            trust_environment: false,
            noexec: false,
        };
        let resulting_env =
            get_target_environment(&initial_env, Environment::new(), Vec::new(), &context, &restrictions, PATH_MAX)
                .unwrap();

        let resulting_env = environment_to_set(&resulting_env);
        let expected_env = environment_to_set(&expected_env);
        let mut diff = resulting_env.symmetric_difference(&expected_env).collect::<Vec<_>>();

        diff.sort();

        assert!(diff.is_empty(), "\"{cmd}\" results in an environment mismatch:\n{diff:#?}",);
    }
}
