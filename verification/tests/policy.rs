use sudo_rs::sudoers::ast::{Authenticate, Tag};
use sudo_rs::sudoers::policy::{
    apply_policy_chdir, apply_policy_to_context, AuthenticatingUser, RunContext, Authentication, Authorization, ChDirNotAllowed, DirChange,
    Judgement,
};
use sudo_rs::sudoers::tokens::ChDir;
use sudo_rs::time::Duration;

fn mod_flag(judge: &mut Judgement, modify: impl FnOnce(&mut Tag)) {
    let mut tag: Tag = judge.flags.clone().unwrap_or_default();
    modify(&mut tag);
    judge.flags = Some(tag);
}

#[test]
fn authority_xlat_test() {
    let mut judge: Judgement = Default::default();
    assert_eq!(judge.authorization(), Authorization::Forbidden);
    mod_flag(&mut judge, |tag| tag.authenticate = Authenticate::Passwd);
    let Authorization::Allowed(auth, restrictions) = judge.authorization() else {
        panic!();
    };
    assert_eq!(
        auth,
        Authentication {
            must_authenticate: true,
            allowed_attempts: 3,
            prior_validity: Duration::minutes(15),
            credential: AuthenticatingUser::InvokingUser,
            pwfeedback: false,
        },
    );

    let mut judge2 = judge.clone();
    mod_flag(&mut judge2, |tag| tag.authenticate = Authenticate::Nopasswd);
    let Authorization::Allowed(auth, restrictions2) = judge2.authorization() else {
        panic!();
    };
    assert_eq!(
        auth,
        Authentication {
            must_authenticate: false,
            allowed_attempts: 3,
            prior_validity: Duration::minutes(15),
            credential: AuthenticatingUser::InvokingUser,
            pwfeedback: false,
        },
    );
    assert_eq!(restrictions, restrictions2);
}

fn chdir_of(judge: &Judgement) -> Option<Option<String>> {
    let Authorization::Allowed(_, ctl) = judge.authorization() else {
        panic!()
    };
    match ctl.chdir {
        DirChange::Strict(p) => Some(p.cloned()),
        DirChange::Any => None,
    }
}

#[test]
fn chdir_test() {
    let mut judge = Judgement {
        flags: Some(Tag::default()),
        ..Default::default()
    };
    assert_eq!(chdir_of(&judge), Some(None));
    mod_flag(&mut judge, |tag| tag.cwd = Some(ChDir::Any));
    assert_eq!(chdir_of(&judge), None);
    mod_flag(&mut judge, |tag| tag.cwd = Some(ChDir::Path("/usr".into())));
    assert_eq!(chdir_of(&judge), Some(Some("/usr".to_string())));
    mod_flag(&mut judge, |tag| tag.cwd = Some(ChDir::Path("/bin".into())));
    assert_eq!(chdir_of(&judge), Some(Some("/bin".to_string())));
}

#[test]
fn authorization_settings_choose_credential() {
    let mut judge = Judgement {
        flags: Some(Tag::default()),
        ..Default::default()
    };
    judge.settings.targetpw = true;
    let Authorization::Allowed(auth, _) = judge.authorization() else {
        panic!()
    };
    assert_eq!(auth.credential, AuthenticatingUser::TargetUser);
    judge.settings.rootpw = true;
    let Authorization::Allowed(auth, _) = judge.authorization() else {
        panic!()
    };
    assert_eq!(auth.credential, AuthenticatingUser::Root);
}

#[test]
fn chdir_follows_the_policy() {
    let asked = Some("/srv".to_string());
    let policy_dir = "/var".to_string();
    assert_eq!(apply_policy_chdir(&asked, &DirChange::Any, "/bin/ls"), Ok(Some("/srv".to_string())));
    assert_eq!(apply_policy_chdir(&None, &DirChange::Any, "/bin/ls"), Ok(None));
    assert_eq!(
        apply_policy_chdir(&asked, &DirChange::Strict(Some(&policy_dir)), "/bin/ls"),
        Err(ChDirNotAllowed { chdir: "/srv".to_string(), command: "/bin/ls".to_string() })
    );
    assert_eq!(
        apply_policy_chdir(&None, &DirChange::Strict(Some(&policy_dir)), "/bin/ls"),
        Ok(Some("/var".to_string()))
    );
    assert_eq!(apply_policy_chdir(&None, &DirChange::Strict(None), "/bin/ls"), Ok(None));
}

#[test]
fn default_judgement_has_default_settings() {
    let j = Judgement::default();
    assert!(j.flags.is_none());
    assert!(j.settings.use_pty());
    assert_eq!(j.settings.passwd_tries(), 3);
    assert_eq!(j.settings.secure_path(), None);
}

#[test]
fn run_context_takes_the_policy() {
    let mut judge = Judgement { flags: Some(Tag::default()), ..Default::default() };
    judge.settings.pwfeedback = true;
    judge.settings.use_pty = false;
    mod_flag(&mut judge, |tag| tag.cwd = Some(ChDir::Path("/srv".into())));
    let Authorization::Allowed(auth, controls) = judge.authorization() else {
        panic!();
    };
    let mut context = RunContext {
        command: "/bin/ls".to_string(),
        chdir: None,
        use_pty: true,
        noexec: true,
        password_feedback: false,
    };
    assert!(apply_policy_to_context(&mut context, &auth, &controls).is_ok());
    assert_eq!(context.chdir.as_deref(), Some("/srv"));
    assert!(!context.use_pty);
    assert!(!context.noexec);
    assert!(context.password_feedback);

    let mut refused = RunContext {
        command: "/bin/ls".to_string(),
        chdir: Some("/tmp".to_string()),
        use_pty: true,
        noexec: true,
        password_feedback: false,
    };
    let e = apply_policy_to_context(&mut refused, &auth, &controls).unwrap_err();
    assert_eq!(e.chdir, "/tmp");
    assert_eq!(refused.chdir.as_deref(), Some("/tmp"));
    assert!(refused.use_pty);
}
