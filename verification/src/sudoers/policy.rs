//! What a permission check decides: whether the command is allowed, how the user must
//! authenticate, and the conditions the command runs under.

use vstd::prelude::*;
use super::ast::{ExecControl, Tag};
use super::defaults::{is_default, Settings};
use super::tokens::ChDir;
use crate::time::Duration;

verus! {

/// The outcome of a permission check.
#[derive(Clone, Debug)]
pub struct Judgement {
    pub flags: Option<Tag>,
    pub settings: Settings,
}

impl Default for Judgement {
    /// Nothing is allowed, under the default settings.
    fn default() -> (j: Judgement)
        ensures
            j.flags is None,
            is_default(j.settings),
    {
        Judgement { flags: None, settings: Settings::default() }
    }
}

/// Allowed, with how to authenticate and under which conditions; or forbidden.
#[derive(Debug, PartialEq)]
pub enum Authorization<T> {
    Allowed(Authentication, T),
    Forbidden,
}

/// Whose password is asked for.
#[derive(Clone, Copy, Debug, PartialEq, Eq, Structural)]
pub enum AuthenticatingUser {
    InvokingUser,
    Root,
    TargetUser,
}

/// How the user must authenticate.
#[derive(Debug, PartialEq)]
pub struct Authentication {
    pub must_authenticate: bool,
    pub credential: AuthenticatingUser,
    pub allowed_attempts: u16,
    pub prior_validity: Duration,
    pub pwfeedback: bool,
}

/// Where the command starts: in the directory it is given (or the current one), or any.
#[derive(Debug, PartialEq)]
pub enum DirChange<'a> {
    Strict(Option<&'a String>),
    Any,
}

/// The conditions that a command runs under.
#[derive(Debug, PartialEq)]
pub struct Restrictions<'a> {
    pub use_pty: bool,
    pub trust_environment: bool,
    pub noexec: bool,
    pub env_keep: &'a Vec<String>,
    pub env_check: &'a Vec<String>,
    pub chdir: DirChange<'a>,
    pub path: Option<&'a str>,
}

/// Whose password is asked for: root's with `rootpw`, else the target user's with `targetpw`,
/// else the invoking user's.
pub open spec fn credential_of(settings: Settings) -> AuthenticatingUser {
    if settings.rootpw {
        AuthenticatingUser::Root
    } else if settings.targetpw {
        AuthenticatingUser::TargetUser
    } else {
        AuthenticatingUser::InvokingUser
    }
}

/// The authentication that the settings and the command's attributes ask for.
pub fn to_auth(settings: &Settings, tag: &Tag) -> (a: Authentication)
    requires
        settings.passwd_tries <= u16::MAX,
    ensures
        a.must_authenticate == tag.needs_passwd_spec(),
        a.allowed_attempts == settings.passwd_tries,
        a.prior_validity.spec_nanos() == settings.timestamp_timeout * 1_000_000_000,
        a.pwfeedback == settings.pwfeedback,
        a.credential == credential_of(*settings),
{
    Authentication {
        must_authenticate: tag.needs_passwd(),
        allowed_attempts: settings.passwd_tries as u16,
        prior_validity: Duration::seconds(settings.timestamp_timeout),
        pwfeedback: settings.pwfeedback,
        credential: if settings.rootpw {
            AuthenticatingUser::Root
        } else if settings.targetpw {
            AuthenticatingUser::TargetUser
        } else {
            AuthenticatingUser::InvokingUser
        },
    }
}

/// `NOEXEC:` or `EXEC:` decide; otherwise the `noexec` setting.
pub open spec fn noexec_of(tag: Tag, settings: Settings) -> bool {
    match tag.noexec {
        ExecControl::Implicit => settings.noexec,
        ExecControl::Exec => false,
        ExecControl::Noexec => true,
    }
}

impl Judgement {
    /// How the user must authenticate, or that the user is not allowed: for a check that is
    /// not about a particular command (listing, validating).
    pub fn authentication(&self) -> (r: Authorization<()>)
        requires
            self.settings.passwd_tries <= u16::MAX,
        ensures
            match self.flags {
                None => r is Forbidden,
                Some(tag) => r matches Authorization::Allowed(auth, _) && {
                    &&& auth.must_authenticate == tag.needs_passwd_spec()
                    &&& auth.allowed_attempts == self.settings.passwd_tries
                    &&& auth.prior_validity.spec_nanos() == self.settings.timestamp_timeout
                        * 1_000_000_000
                    &&& auth.pwfeedback == self.settings.pwfeedback
                    &&& auth.credential == credential_of(self.settings)
                },
            },
    {
        match &self.flags {
            Some(tag) => Authorization::Allowed(to_auth(&self.settings, tag), ()),
            None => Authorization::Forbidden,
        }
    }

    /// What the judgement allows: forbidden without a matching rule; otherwise how to
    /// authenticate and the conditions of the command, from the attributes of the rule and
    /// the settings.
    pub fn authorization(&self) -> (r: Authorization<Restrictions>)
        requires
            self.settings.passwd_tries <= u16::MAX,
        ensures
            match self.flags {
                None => r is Forbidden,
                Some(tag) => r matches Authorization::Allowed(auth, res) && {
                    &&& auth.must_authenticate == tag.needs_passwd_spec()
                    &&& auth.allowed_attempts == self.settings.passwd_tries
                    &&& auth.prior_validity.spec_nanos() == self.settings.timestamp_timeout
                        * 1_000_000_000
                    &&& auth.pwfeedback == self.settings.pwfeedback
                    &&& auth.credential == credential_of(self.settings)
                    &&& res.use_pty == self.settings.use_pty
                    &&& res.trust_environment == (tag.env
                        == super::ast::EnvironmentControl::Setenv)
                    &&& res.noexec == noexec_of(tag, self.settings)
                    &&& res.env_keep == &self.settings.env_keep
                    &&& res.env_check == &self.settings.env_check
                    &&& match tag.cwd {
                        None => res.chdir == DirChange::Strict(None),
                        Some(ChDir::Any) => res.chdir == DirChange::Any,
                        Some(ChDir::Path(p)) => res.chdir matches DirChange::Strict(Some(q)) && q@
                            == p@,
                    }
                    &&& match self.settings.secure_path {
                        Some(p) => res.path matches Some(x) && x@ == p@,
                        None => res.path is None,
                    }
                },
            },
    {
        match &self.flags {
            Some(tag) => {
                let noexec = match tag.noexec {
                    ExecControl::Implicit => self.settings.noexec,
                    ExecControl::Exec => false,
                    ExecControl::Noexec => true,
                };
                let chdir = match &tag.cwd {
                    None => DirChange::Strict(None),
                    Some(ChDir::Any) => DirChange::Any,
                    Some(ChDir::Path(p)) => DirChange::Strict(Some(p)),
                };
                Authorization::Allowed(
                    to_auth(&self.settings, tag),
                    Restrictions {
                        use_pty: self.settings.use_pty(),
                        trust_environment: tag.allows_setenv(),
                        noexec,
                        env_keep: self.settings.env_keep(),
                        env_check: self.settings.env_check(),
                        chdir,
                        path: self.settings.secure_path(),
                    },
                )
            },
            None => Authorization::Forbidden,
        }
    }
}

/// A working directory was asked for (`--chdir`) that the policy does not allow.
#[derive(Debug, PartialEq, Eq)]
pub struct ChDirNotAllowed {
    pub chdir: String,
    pub command: String,
}

/// The directory that the command starts in, under the policy: when the policy allows any
/// (`CWD=*`), the one asked for, if any; otherwise asking for one is refused, and the
/// policy's own directory (if it names one) is taken.
pub fn apply_policy_chdir(requested: &Option<String>, allowed: &DirChange, command: &str) -> (r: Result<
    Option<String>,
    ChDirNotAllowed,
>)
    ensures
        match *allowed {
            DirChange::Any => r matches Ok(d) && match (d, *requested) {
                (Some(x), Some(y)) => x@ == y@,
                (None, None) => true,
                _ => false,
            },
            DirChange::Strict(optdir) => match *requested {
                Some(c) => r matches Err(e) && e.chdir@ == c@ && e.command@ == command@,
                None => r matches Ok(d) && match (d, optdir) {
                    (Some(x), Some(y)) => x@ == y@,
                    (None, None) => true,
                    _ => false,
                },
            },
        },
{
    match allowed {
        DirChange::Any => match requested {
            Some(c) => Ok(Some(crate::text::copy_string(c))),
            None => Ok(None),
        },
        DirChange::Strict(optdir) => match requested {
            Some(c) => Err(ChDirNotAllowed {
                chdir: crate::text::copy_string(c),
                command: crate::text::owned(command),
            }),
            None => match optdir {
                Some(d) => Ok(Some(crate::text::copy_string(d))),
                None => Ok(None),
            },
        },
    }
}

/// How the command is run: where it starts, and the conditions that the policy sets.
pub struct RunContext {
    pub command: String,
    pub chdir: Option<String>,
    pub use_pty: bool,
    pub noexec: bool,
    pub password_feedback: bool,
}

/// Take the policy's decisions into the run context: the directory (see
/// `apply_policy_chdir`), `use_pty` and `noexec` from the restrictions, and password feedback
/// from the authentication. When the directory asked for is refused, nothing changes.
pub fn apply_policy_to_context(context: &mut RunContext, auth: &Authentication, controls: &Restrictions) -> (r:
    Result<(), ChDirNotAllowed>)
    ensures
        match controls.chdir {
            DirChange::Strict(_) => (old(context).chdir is Some <==> r is Err),
            DirChange::Any => r is Ok,
        },
        r matches Err(e) ==> *final(context) == *old(context) && e.chdir@ == old(context).chdir->Some_0@
            && e.command@ == old(context).command@,
        r is Ok ==> {
            &&& final(context).command == old(context).command
            &&& final(context).use_pty == controls.use_pty
            &&& final(context).noexec == controls.noexec
            &&& final(context).password_feedback == auth.pwfeedback
            &&& match controls.chdir {
                DirChange::Any => match (final(context).chdir, old(context).chdir) {
                    (Some(x), Some(y)) => x@ == y@,
                    (None, None) => true,
                    _ => false,
                },
                DirChange::Strict(optdir) => match (final(context).chdir, optdir) {
                    (Some(x), Some(y)) => x@ == y@,
                    (None, None) => true,
                    _ => false,
                },
            }
        },
{
    let dir = apply_policy_chdir(&context.chdir, &controls.chdir, context.command.as_str());
    match dir {
        Ok(d) => {
            context.chdir = d;
            context.use_pty = controls.use_pty;
            context.password_feedback = auth.pwfeedback;
            context.noexec = controls.noexec;
            Ok(())
        },
        Err(e) => Err(e),
    }
}

} // verus!
