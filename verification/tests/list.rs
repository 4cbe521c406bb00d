use sudo_rs::list::{check_sudo_command_perms, format_list_command, list_report, listed_command, ListCommandError};
use sudo_rs::sudoers::ast::{parse_lines, Qualified, Sudo, Tag};
use sudo_rs::sudoers::entry::Entry;
use sudo_rs::sudoers::tokens::Meta;
use sudo_rs::sudoers::VecOrd;
use sudo_rs::sudoers::basic_parser::Status;
use sudo_rs::sudoers::char_stream::CharStream;
use sudo_rs::sudoers::{analyze, OpenError, Request, Sudoers, SudoersSource};
use sudo_rs::users::{GroupRecord, UserRecord};

struct NoFiles;

impl SudoersSource for NoFiles {
    fn open_subsudoers(&mut self, _path: &str) -> Result<Vec<Result<Sudo, Status>>, OpenError> {
        Err(OpenError::NotFound)
    }

    fn read_dir(&mut self, _path: &str) -> Option<Vec<String>> {
        None
    }
}

fn policy(text: &[&str]) -> Sudoers {
    let mut all: Vec<&str> = text.to_vec();
    all.push("");
    let joined = all.join("\n");
    let mut stream = CharStream::new(&joined);
    let (sudoers, errors) = analyze("/etc/fakesudoers", parse_lines::<Sudo>(&mut stream), &mut NoFiles);
    assert!(errors.is_empty());
    sudoers
}

fn user(name: &str, uid: u32) -> UserRecord {
    UserRecord {
        uid,
        gid: uid,
        name: name.to_string(),
        home: format!("/home/{name}"),
        shell: "/bin/sh".to_string(),
        groups: vec![],
    }
}

fn lines_of(sudoers: &Sudoers, who: &UserRecord, verbose: bool) -> String {
    let entries = sudoers.matching_entries(who, "server");
    list_report(&entries, &who.name, "server", verbose, "root", Some("alice"))
}

#[test]
fn list_groups_commands_by_runas() {
    let sudoers = policy(&[
        "root ALL=(ALL:ALL) ALL",
        "alice ALL=(root) NOPASSWD: /bin/ls, /bin/cat, (bob : staff) PASSWD: /usr/bin/whoami",
    ]);
    let report = lines_of(&sudoers, &user("alice", 1000), false);
    assert_eq!(
        report,
        "User alice may run the following commands on server:\n    (root) NOPASSWD: /bin/ls, /bin/cat\n    (bob : staff) PASSWD: /usr/bin/whoami\n"
    );
}

#[test]
fn list_without_runas_is_root() {
    let sudoers = policy(&["alice ALL = CWD=/tmp /bin/true, /bin/false arg1 arg2"]);
    let report = lines_of(&sudoers, &user("alice", 1000), false);
    assert_eq!(
        report,
        "User alice may run the following commands on server:\n    (root) CWD=/tmp /bin/true, /bin/false arg1 arg2\n"
    );
}

#[test]
fn list_expands_aliases_and_negations() {
    let sudoers = policy(&[
        "Cmnd_Alias BASIC = /bin/ls, !/bin/rm",
        "Cmnd_Alias MORE = BASIC, /bin/cp",
        "Runas_Alias OPS = bob, %wheel, #0",
        "alice ALL=(OPS, !carol) MORE, !BASIC",
    ]);
    let report = lines_of(&sudoers, &user("alice", 1000), false);
    assert_eq!(
        report,
        "User alice may run the following commands on server:\n    (OPS, !carol) /bin/ls, !/bin/rm, /bin/cp, !/bin/ls, /bin/rm\n"
    );
}

#[test]
fn list_for_user_without_rules() {
    let sudoers = policy(&["alice ALL=(ALL) ALL"]);
    let report = lines_of(&sudoers, &user("bob", 1001), false);
    assert_eq!(report, "User bob is not allowed to run sudo on server.\n");
}

#[test]
fn list_runas_group_only_names_the_invoking_user() {
    let sudoers = policy(&["alice ALL=(:staff) ALL"]);
    let report = lines_of(&sudoers, &user("alice", 1000), false);
    assert_eq!(
        report,
        "User alice may run the following commands on server:\n    (alice : staff) ALL\n"
    );
}

#[test]
fn verbose_list_starts_a_block_where_attributes_change() {
    let sudoers = policy(&["alice ALL=(root) NOPASSWD: /bin/ls, /bin/cat, PASSWD: /bin/sh"]);
    let report = lines_of(&sudoers, &user("alice", 1000), true);
    assert_eq!(
        report,
        "User alice may run the following commands on server:\n\
         \nSudoers entry:\n    RunAsUsers: root\n    Options: !authenticate\n    Commands:\n\t/bin/ls\n\t/bin/cat\n\
         \nSudoers entry:\n    RunAsUsers: root\n    Options: authenticate\n    Commands:\n\t/bin/sh\n"
    );
}

#[test]
fn verbose_list_shows_groups_and_cwd() {
    let sudoers = policy(&["alice ALL=(bob : staff) CWD=* /bin/ls"]);
    let report = lines_of(&sudoers, &user("alice", 1000), true);
    assert_eq!(
        report,
        "User alice may run the following commands on server:\n\
         \nSudoers entry:\n    RunAsUsers: bob\n    RunAsGroups: staff\n    Cwd: *\n    Commands:\n\t/bin/ls\n"
    );
}

#[test]
fn format_list_command_names_the_command() {
    assert_eq!(format_list_command(&None), "list");
    assert_eq!(format_list_command(&Some("/bin/ls".to_string())), "list /bin/ls");
}

#[test]
fn listed_command_keeps_relative_paths() {
    let args = vec!["-l".to_string(), "/tmp".to_string()];
    assert_eq!(listed_command("ls", "/usr/bin/ls", &args), "/usr/bin/ls -l /tmp");
    assert_eq!(listed_command("./run", "/home/a/run", &vec![]), "./run");
    assert_eq!(listed_command("/bin/ls", "/bin/ls", &vec![]), "/bin/ls");
}

#[test]
fn list_command_checks_the_policy() {
    let mut sudoers = policy(&["alice ALL=(root) /bin/ls"]);
    let alice = user("alice", 1000);
    let root = user("root", 0);
    let root_group = GroupRecord { gid: 0, name: Some("root".to_string()) };
    let args = vec!["-l".to_string()];
    let request = Request { user: &root, group: &root_group, command: "/bin/ls", arguments: &args };
    assert_eq!(
        check_sudo_command_perms("ls", true, &alice, "server", request, &mut sudoers),
        Ok("/bin/ls -l".to_string())
    );
    let request = Request { user: &root, group: &root_group, command: "/bin/ls", arguments: &args };
    assert_eq!(
        check_sudo_command_perms("ls", false, &alice, "server", request, &mut sudoers),
        Err(ListCommandError::CommandNotFound("/bin/ls".to_string()))
    );
    let request = Request { user: &root, group: &root_group, command: "/bin/cat", arguments: &args };
    assert_eq!(
        check_sudo_command_perms("cat", true, &alice, "server", request, &mut sudoers),
        Err(ListCommandError::Silent)
    );
}

#[test]
fn entry_with_unknown_alias_shows_question_marks() {
    let aliases = VecOrd(vec![], vec![]);
    let spec = Qualified::Allow(Meta::Alias("NOPE".to_string()));
    let negated = Qualified::Forbid(Meta::All);
    let entry = Entry::new(None, vec![(Tag::default(), &spec), (Tag::default(), &negated)], &aliases);
    assert_eq!(entry.to_text("toor", None), "    (toor) ???, !ALL");
    assert_eq!(
        entry.verbose("toor", None),
        "\nSudoers entry:\n    RunAsUsers: toor\n    Commands:\n\t???\n\t!ALL"
    );
}
