use sudo_rs::audit::{checks, mode, zoneinfo_candidates, zoneinfo_path, Category, Metadata, Op};
use sudo_rs::interface::GroupId;
use sudo_rs::system::{inject_group, kernel_check, parse_u32_exec, Hostname, KernelCheck};
use sudo_rs::tokens::{parse_i32_exec, All, Command, Decimal, Token, Username};

fn chars(s: &str) -> Vec<char> {
    s.chars().collect()
}

#[test]
fn kernel_versions() {
    assert_eq!(kernel_check("5.15.0-91-generic"), Ok(()));
    assert_eq!(kernel_check("6.1.0"), Ok(()));
    assert_eq!(kernel_check("5.9"), Ok(()));
    assert_eq!(kernel_check("5.8.0"), Err(KernelCheck));
    assert_eq!(kernel_check("4.19.0-25-amd64"), Err(KernelCheck));
    assert_eq!(kernel_check("3"), Ok(()));
    assert_eq!(kernel_check("5.8-rc1"), Ok(()));
    assert_eq!(kernel_check("+4.+2"), Err(KernelCheck));
    assert_eq!(kernel_check(""), Ok(()));
    assert_eq!(kernel_check("x.1"), Ok(()));
}

#[test]
fn parsing_numbers_like_std() {
    for s in ["0", "42", "+7", "4294967295", "4294967296", "", "+", "-1", "1a", " 1", "007"] {
        assert_eq!(parse_u32_exec(&chars(s)), s.parse::<u32>().ok(), "{s}");
    }
    for s in ["0", "-0", "+12", "-2147483648", "2147483647", "2147483648", "-2147483649", "-", "+-1", "--1", "12x"] {
        assert_eq!(parse_i32_exec(&chars(s)), s.parse::<i32>().ok(), "{s}");
    }
}

#[test]
fn hostnames() {
    let h = Hostname::fake("server");
    assert_eq!(h.as_str(), "server");
    assert_eq!(Hostname::new("laptop".to_string()).as_str(), "laptop");
}

#[test]
fn mode_bits() {
    assert_eq!(mode(Category::Owner, Op::Read), 0o400);
    assert_eq!(mode(Category::Owner, Op::Write), 0o200);
    assert_eq!(mode(Category::Group, Op::Write), 0o020);
    assert_eq!(mode(Category::World, Op::Write), 0o002);
    assert_eq!(mode(Category::World, Op::Exec), 0o001);
}

#[test]
fn secure_files() {
    let ok = Metadata { uid: 0, gid: 0, mode: 0o100775 };
    assert_eq!(checks("/etc/sudoers", &ok), Ok(()));
    assert_eq!(
        checks("/etc/sudoers", &Metadata { uid: 1000, gid: 0, mode: 0o440 }),
        Err("/etc/sudoers must be owned by root".to_string())
    );
    assert_eq!(
        checks("/x", &Metadata { uid: 0, gid: 5, mode: 0o460 }),
        Err("/x cannot be group-writable".to_string())
    );
    assert_eq!(
        checks("/x", &Metadata { uid: 0, gid: 0, mode: 0o442 }),
        Err("/x cannot be world-writable".to_string())
    );
}

#[test]
fn zoneinfo_choice() {
    let good = Metadata { uid: 0, gid: 0, mode: 0o40755 };
    let bad = Metadata { uid: 1, gid: 0, mode: 0o40755 };
    assert_eq!(zoneinfo_candidates()[0], "/usr/share/zoneinfo");
    assert_eq!(zoneinfo_path(&vec![Some(good), None, None]), Some("/usr/share/zoneinfo"));
    assert_eq!(zoneinfo_path(&vec![None, Some(bad), Some(good)]), Some("/usr/lib/zoneinfo"));
    assert_eq!(zoneinfo_path(&vec![Some(bad), Some(good), Some(good)]), Some("/usr/share/lib/zoneinfo"));
    assert_eq!(zoneinfo_path(&vec![None, None, None]), None);
    assert_eq!(zoneinfo_path(&vec![]), None);
}

#[test]
fn root_tokens() {
    assert!(Username::accept_1st('a'));
    assert!(!Username::accept_1st('_'));
    assert!(Username::accept('_'));
    assert!(!Username::accept('#'));
    assert_eq!(Decimal::ident("-15".to_string()).0, -15);
    assert!(Decimal::accept_1st('+') && !Decimal::accept('+'));
    assert!(matches!(<All<Username> as Token>::ident("ALL".to_string()), All::All));
    assert!(matches!(<All<Username> as Token>::ident("bob".to_string()), All::Only(Username(ref s)) if s == "bob"));
    assert!(<All<Username> as Token>::accept_1st('A'));
    assert_eq!(Command::ident("  /bin/ls -l ".to_string()).0, "/bin/ls -l");
    assert!(!Command::accept(','));
    assert!(Command::escaped('='));
}

#[test]
fn target_group_comes_first() {
    let g = |ids: &[u32]| ids.iter().map(|&i| GroupId::new(i)).collect::<Vec<_>>();
    let mut groups = g(&[10, 20, 30]);
    inject_group(GroupId::new(30), &mut groups);
    assert_eq!(groups, g(&[30, 20, 10]));
    let mut groups = g(&[10, 20, 30]);
    inject_group(GroupId::new(10), &mut groups);
    assert_eq!(groups, g(&[10, 20, 30]));
    let mut groups = g(&[10, 20]);
    inject_group(GroupId::new(5), &mut groups);
    assert_eq!(groups, g(&[5, 10, 20]));
    let mut groups = vec![];
    inject_group(GroupId::new(5), &mut groups);
    assert_eq!(groups, g(&[5]));
}
