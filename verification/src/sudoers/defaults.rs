//! The settings that `Defaults` lines change, their default values, and the checks on the
//! values they may take.

use vstd::prelude::*;
use crate::text::{ascii_digit, chars_eq, chars_eq_str, chars_of, copy_string, owned};

verus! {

broadcast use vstd::string::group_string_axioms;

/// The settings that are on or off.
#[derive(Clone, Copy, Debug, PartialEq, Eq, Structural)]
pub enum FlagSetting {
    AlwaysQueryGroupPlugin,
    AlwaysSetHome,
    EnvEditor,
    EnvReset,
    MailBadpass,
    MatchGroupByGid,
    Noexec,
    Pwfeedback,
    Rootpw,
    Setenv,
    Targetpw,
    UsePty,
    Visiblepw,
}

/// The settings that hold a number.
#[derive(Clone, Copy, Debug, PartialEq, Eq, Structural)]
pub enum IntSetting {
    PasswdTries,
    PasswdTimeout,
    TimestampTimeout,
}

/// The settings that hold a text.
#[derive(Clone, Copy, Debug, PartialEq, Eq, Structural)]
pub enum TextSetting {
    SecurePath,
    Verifypw,
    Editor,
}

/// The settings that hold a set of names.
#[derive(Clone, Copy, Debug, PartialEq, Eq, Structural)]
pub enum ListSetting {
    EnvKeep,
    EnvCheck,
    EnvDelete,
}

/// A setting, by the kind of value it holds.
#[derive(Clone, Copy, Debug, PartialEq, Eq, Structural)]
pub enum SettingKind {
    Flag(FlagSetting),
    Integer(IntSetting),
    Text(TextSetting),
    List(ListSetting),
}

/// How `=`, `+=` and `-=` change a set of names.
#[derive(Clone, Copy, Debug, PartialEq, Eq, Structural)]
pub enum ListMode {
    Replace,
    Add,
    Del,
}

/// One change of a setting.
#[derive(Clone, Debug)]
pub enum SettingsModifier {
    Flag(FlagSetting, bool),
    Integer(IntSetting, u64),
    Text(TextSetting, Option<String>),
    List(ListSetting, ListMode, Vec<String>),
}

/// The setting with the given name.
pub open spec fn setting_named(name: Seq<char>) -> Option<SettingKind> {
    if name == "always_query_group_plugin"@ {
        Some(SettingKind::Flag(FlagSetting::AlwaysQueryGroupPlugin))
    } else if name == "always_set_home"@ {
        Some(SettingKind::Flag(FlagSetting::AlwaysSetHome))
    } else if name == "env_editor"@ {
        Some(SettingKind::Flag(FlagSetting::EnvEditor))
    } else if name == "env_reset"@ {
        Some(SettingKind::Flag(FlagSetting::EnvReset))
    } else if name == "mail_badpass"@ {
        Some(SettingKind::Flag(FlagSetting::MailBadpass))
    } else if name == "match_group_by_gid"@ {
        Some(SettingKind::Flag(FlagSetting::MatchGroupByGid))
    } else if name == "noexec"@ {
        Some(SettingKind::Flag(FlagSetting::Noexec))
    } else if name == "pwfeedback"@ {
        Some(SettingKind::Flag(FlagSetting::Pwfeedback))
    } else if name == "rootpw"@ {
        Some(SettingKind::Flag(FlagSetting::Rootpw))
    } else if name == "setenv"@ {
        Some(SettingKind::Flag(FlagSetting::Setenv))
    } else if name == "targetpw"@ {
        Some(SettingKind::Flag(FlagSetting::Targetpw))
    } else if name == "use_pty"@ {
        Some(SettingKind::Flag(FlagSetting::UsePty))
    } else if name == "visiblepw"@ {
        Some(SettingKind::Flag(FlagSetting::Visiblepw))
    } else if name == "passwd_tries"@ {
        Some(SettingKind::Integer(IntSetting::PasswdTries))
    } else if name == "passwd_timeout"@ {
        Some(SettingKind::Integer(IntSetting::PasswdTimeout))
    } else if name == "timestamp_timeout"@ {
        Some(SettingKind::Integer(IntSetting::TimestampTimeout))
    } else if name == "secure_path"@ {
        Some(SettingKind::Text(TextSetting::SecurePath))
    } else if name == "verifypw"@ {
        Some(SettingKind::Text(TextSetting::Verifypw))
    } else if name == "editor"@ {
        Some(SettingKind::Text(TextSetting::Editor))
    } else if name == "env_keep"@ {
        Some(SettingKind::List(ListSetting::EnvKeep))
    } else if name == "env_check"@ {
        Some(SettingKind::List(ListSetting::EnvCheck))
    } else if name == "env_delete"@ {
        Some(SettingKind::List(ListSetting::EnvDelete))
    } else {
        None
    }
}

/// Look a setting up by its name.
pub fn lookup_setting(name: &str) -> (r: Option<SettingKind>)
    ensures
        r == setting_named(name@),
{
    let v = chars_of(name);
    let n = v.as_slice();
    if chars_eq_str(n, "always_query_group_plugin") {
        Some(SettingKind::Flag(FlagSetting::AlwaysQueryGroupPlugin))
    } else if chars_eq_str(n, "always_set_home") {
        Some(SettingKind::Flag(FlagSetting::AlwaysSetHome))
    } else if chars_eq_str(n, "env_editor") {
        Some(SettingKind::Flag(FlagSetting::EnvEditor))
    } else if chars_eq_str(n, "env_reset") {
        Some(SettingKind::Flag(FlagSetting::EnvReset))
    } else if chars_eq_str(n, "mail_badpass") {
        Some(SettingKind::Flag(FlagSetting::MailBadpass))
    } else if chars_eq_str(n, "match_group_by_gid") {
        Some(SettingKind::Flag(FlagSetting::MatchGroupByGid))
    } else if chars_eq_str(n, "noexec") {
        Some(SettingKind::Flag(FlagSetting::Noexec))
    } else if chars_eq_str(n, "pwfeedback") {
        Some(SettingKind::Flag(FlagSetting::Pwfeedback))
    } else if chars_eq_str(n, "rootpw") {
        Some(SettingKind::Flag(FlagSetting::Rootpw))
    } else if chars_eq_str(n, "setenv") {
        Some(SettingKind::Flag(FlagSetting::Setenv))
    } else if chars_eq_str(n, "targetpw") {
        Some(SettingKind::Flag(FlagSetting::Targetpw))
    } else if chars_eq_str(n, "use_pty") {
        Some(SettingKind::Flag(FlagSetting::UsePty))
    } else if chars_eq_str(n, "visiblepw") {
        Some(SettingKind::Flag(FlagSetting::Visiblepw))
    } else if chars_eq_str(n, "passwd_tries") {
        Some(SettingKind::Integer(IntSetting::PasswdTries))
    } else if chars_eq_str(n, "passwd_timeout") {
        Some(SettingKind::Integer(IntSetting::PasswdTimeout))
    } else if chars_eq_str(n, "timestamp_timeout") {
        Some(SettingKind::Integer(IntSetting::TimestampTimeout))
    } else if chars_eq_str(n, "secure_path") {
        Some(SettingKind::Text(TextSetting::SecurePath))
    } else if chars_eq_str(n, "verifypw") {
        Some(SettingKind::Text(TextSetting::Verifypw))
    } else if chars_eq_str(n, "editor") {
        Some(SettingKind::Text(TextSetting::Editor))
    } else if chars_eq_str(n, "env_keep") {
        Some(SettingKind::List(ListSetting::EnvKeep))
    } else if chars_eq_str(n, "env_check") {
        Some(SettingKind::List(ListSetting::EnvCheck))
    } else if chars_eq_str(n, "env_delete") {
        Some(SettingKind::List(ListSetting::EnvDelete))
    } else {
        None
    }
}

/// What `!name` does: a flag is switched off, `secure_path` is unset, `verifypw` becomes
/// `never` and a set of names is emptied; the other settings cannot be negated.
pub open spec fn negation(kind: SettingKind) -> Option<SettingsModifierModel> {
    match kind {
        SettingKind::Flag(f) => Some(SettingsModifierModel::Flag(f, false)),
        SettingKind::Text(TextSetting::SecurePath) => Some(
            SettingsModifierModel::Text(TextSetting::SecurePath, None),
        ),
        SettingKind::Text(TextSetting::Verifypw) => Some(
            SettingsModifierModel::Text(TextSetting::Verifypw, Some("never"@)),
        ),
        SettingKind::List(l) => Some(SettingsModifierModel::List(l, ListMode::Replace, Seq::empty())),
        _ => None,
    }
}

/// A [`SettingsModifier`] with its strings as character sequences.
pub enum SettingsModifierModel {
    Flag(FlagSetting, bool),
    Integer(IntSetting, u64),
    Text(TextSetting, Option<Seq<char>>),
    List(ListSetting, ListMode, Seq<Seq<char>>),
}

impl SettingsModifier {
    pub open spec fn model(&self) -> SettingsModifierModel {
        match self {
            SettingsModifier::Flag(f, b) => SettingsModifierModel::Flag(*f, *b),
            SettingsModifier::Integer(i, n) => SettingsModifierModel::Integer(*i, *n),
            SettingsModifier::Text(t, v) => SettingsModifierModel::Text(
                *t,
                match v {
                    Some(s) => Some(s@),
                    None => None,
                },
            ),
            SettingsModifier::List(l, m, v) => SettingsModifierModel::List(
                *l,
                *m,
                v@.map_values(|x: String| x@),
            ),
        }
    }
}

/// The modifier for `!name`, if the setting can be negated.
pub fn negate(kind: SettingKind) -> (r: Option<SettingsModifier>)
    ensures
        match negation(kind) {
            Some(m) => r matches Some(x) && x.model() == m,
            None => r is None,
        },
{
    match kind {
        SettingKind::Flag(f) => Some(SettingsModifier::Flag(f, false)),
        SettingKind::Text(TextSetting::SecurePath) => Some(
            SettingsModifier::Text(TextSetting::SecurePath, None),
        ),
        SettingKind::Text(TextSetting::Verifypw) => {
            let m = SettingsModifier::Text(TextSetting::Verifypw, Some(owned("never")));
            Some(m)
        },
        SettingKind::List(l) => {
            let v: Vec<String> = Vec::new();
            proof {
                assert(v@.map_values(|x: String| x@) =~= Seq::<Seq<char>>::empty());
            }
            Some(SettingsModifier::List(l, ListMode::Replace, v))
        },
        _ => None,
    }
}

/// The number that decimal digits denote.
pub open spec fn digits_value(s: Seq<char>) -> nat
    decreases s.len(),
{
    if s.len() == 0 {
        0
    } else {
        digits_value(s.drop_last()) * 10 + (s.last() as nat - '0' as nat) as nat
    }
}

pub open spec fn all_digits(s: Seq<char>) -> bool {
    forall|i: int| 0 <= i < s.len() ==> ascii_digit(#[trigger] s[i])
}

pub open spec fn pow10(n: nat) -> nat
    decreases n,
{
    if n == 0 {
        1
    } else {
        10 * pow10((n - 1) as nat)
    }
}

/// The number of seconds that a number of minutes, possibly with a fractional part, denotes
/// (rounded down).
pub open spec fn minutes_value(s: Seq<char>) -> Option<nat> {
    match crate::text::find_char(s, '.') {
        Some(i) => {
            let int_part = s.take(i);
            let frac = s.skip(i + 1);
            if int_part.len() > 0 && all_digits(int_part) && all_digits(frac) {
                Some(digits_value(int_part) * 60 + digits_value(frac) * 60 / pow10(frac.len()))
            } else {
                None
            }
        },
        None => if s.len() > 0 && all_digits(s) {
            Some(digits_value(s) * 60)
        } else {
            None
        },
    }
}

/// The value that a number denotes for a setting: at most 1000 tries; a timeout in minutes.
pub open spec fn integer_value(setting: IntSetting, s: Seq<char>) -> Option<u64> {
    match setting {
        IntSetting::PasswdTries => if s.len() > 0 && all_digits(s) && digits_value(s) <= 1000 {
            Some(digits_value(s) as u64)
        } else {
            None
        },
        _ => match minutes_value(s) {
            Some(v) => if v <= u64::MAX {
                Some(v as u64)
            } else {
                None
            },
            None => None,
        },
    }
}

/// The value of decimal digits, or `None` when they do not fit in a `u64`.
fn parse_digits(v: &[char]) -> (r: Option<u64>)
    requires
        all_digits(v@),
    ensures
        match r {
            Some(n) => n == digits_value(v@),
            None => digits_value(v@) > u64::MAX,
        },
{
    let mut n: u64 = 0;
    let mut i: usize = 0;
    while i < v.len()
        invariant
            i <= v@.len(),
            all_digits(v@),
            n == digits_value(v@.take(i as int)),
        decreases v.len() - i,
    {
        let d = v[i];
        assert(ascii_digit(v@[i as int]));
        proof {
            assert(v@.take(i + 1).drop_last() =~= v@.take(i as int));
            assert(v@.take(i + 1).last() == d);
        }
        let dv = (d as u64) - ('0' as u64);
        match n.checked_mul(10) {
            Some(m) => match m.checked_add(dv) {
                Some(k) => {
                    n = k;
                },
                None => {
                    proof {
                        lemma_digits_monotone(v@, i + 1);
                    }
                    return None;
                },
            },
            None => {
                proof {
                    lemma_digits_monotone(v@, i + 1);
                }
                return None;
            },
        }
        i += 1;
    }
    proof {
        assert(v@.take(v@.len() as int) =~= v@);
    }
    Some(n)
}

/// A longer run of digits denotes at least as much as its prefix.
proof fn lemma_digits_monotone(s: Seq<char>, k: int)
    requires
        0 <= k <= s.len(),
        all_digits(s),
    ensures
        digits_value(s.take(k)) <= digits_value(s),
    decreases s.len() - k,
{
    if k < s.len() {
        lemma_digits_monotone(s, k + 1);
        assert(s.take(k + 1).drop_last() =~= s.take(k));
        assert(ascii_digit(s[k]));
    } else {
        assert(s.take(k) =~= s);
    }
}

proof fn lemma_pow10_positive(n: nat)
    ensures
        pow10(n) >= 1,
    decreases n,
{
    if n > 0 {
        lemma_pow10_positive((n - 1) as nat);
    }
}

fn all_digit_chars(v: &[char]) -> (b: bool)
    ensures
        b == all_digits(v@),
{
    let mut i: usize = 0;
    while i < v.len()
        invariant
            i <= v@.len(),
            forall|j: int| 0 <= j < i ==> ascii_digit(#[trigger] v@[j]),
        decreases v.len() - i,
    {
        if !crate::text::is_ascii_digit(v[i]) {
            return false;
        }
        i += 1;
    }
    true
}

proof fn lemma_digits_bound(s: Seq<char>)
    requires
        all_digits(s),
    ensures
        digits_value(s) < pow10(s.len()),
    decreases s.len(),
{
    if s.len() > 0 {
        let p = s.drop_last();
        assert(all_digits(p)) by {
            assert forall|i: int| 0 <= i < p.len() implies ascii_digit(#[trigger] p[i]) by {
                assert(p[i] == s[i]);
            }
        }
        lemma_digits_bound(p);
        assert(ascii_digit(s[s.len() - 1]));
        let d = (s.last() as nat - '0' as nat) as nat;
        assert(d <= 9);
        assert(pow10(s.len()) == 10 * pow10(p.len()));
        assert(digits_value(p) * 10 + d < 10 * pow10(p.len())) by (nonlinear_arith)
            requires
                digits_value(p) < pow10(p.len()),
                d <= 9,
        ;
    }
}

proof fn lemma_pow10_18(n: nat)
    requires
        n <= 18,
    ensures
        pow10(n) <= 1_000_000_000_000_000_000,
{
    lemma_pow10_mono(n, 18);
    assert(pow10(18) == 1_000_000_000_000_000_000) by {
        reveal_with_fuel(pow10, 19);
    }
}

proof fn lemma_pow10_mono(n: nat, m: nat)
    requires
        n <= m,
    ensures
        pow10(n) <= pow10(m),
    decreases m,
{
    if n < m {
        lemma_pow10_mono(n, (m - 1) as nat);
    }
}

/// The value that a number (as a `Numeric` token gives it, at most 18 characters) denotes for
/// a setting.
pub fn integer_checker(setting: IntSetting, text: &str) -> (r: Option<u64>)
    requires
        text@.len() <= 18,
    ensures
        r == integer_value(setting, text@),
{
    let v = chars_of(text);
    match setting {
        IntSetting::PasswdTries => {
            if v.len() == 0 || !all_digit_chars(v.as_slice()) {
                return None;
            }
            proof {
                lemma_digits_bound(v@);
                lemma_pow10_18(v@.len());
            }
            match parse_digits(v.as_slice()) {
                Some(n) => if n <= 1000 {
                    Some(n)
                } else {
                    None
                },
                None => None,
            }
        },
        _ => {
            match crate::text::position_of(v.as_slice(), '.') {
                Some(i) => {
                    proof {
                        crate::text::lemma_find_char(v@, '.');
                    }
                    let int_part = vstd::slice::slice_subrange(v.as_slice(), 0, i);
                    let frac = vstd::slice::slice_subrange(v.as_slice(), i + 1, v.len());
                    proof {
                        assert(int_part@ =~= v@.take(i as int));
                        assert(frac@ =~= v@.skip(i + 1));
                    }
                    if int_part.len() == 0 || !all_digit_chars(int_part) || !all_digit_chars(
                        frac,
                    ) {
                        return None;
                    }
                    proof {
                        lemma_digits_bound(int_part@);
                        lemma_pow10_18(int_part@.len());
                        lemma_digits_bound(frac@);
                        lemma_pow10_18(frac@.len());
                    }
                    let a = match parse_digits(int_part) {
                        Some(a) => a,
                        None => {
                            return None;
                        },
                    };
                    let b = match parse_digits(frac) {
                        Some(b) => b,
                        None => {
                            return None;
                        },
                    };
                    let mut shift: u64 = 1;
                    let mut k: usize = 0;
                    while k < frac.len()
                        invariant
                            k <= frac@.len(),
                            frac@.len() <= 18,
                            shift == pow10(k as nat),
                        decreases frac.len() - k,
                    {
                        proof {
                            lemma_pow10_18(k as nat);
                        }
                        shift = shift * 10;
                        k += 1;
                    }
                    proof {
                        lemma_pow10_mono(0, frac@.len());
                    }
                    let total: u128 = (a as u128) * 60 + ((b as u128) * 60) / (shift as u128);
                    if total <= (u64::MAX as u128) {
                        Some(total as u64)
                    } else {
                        None
                    }
                },
                None => {
                    if v.len() == 0 || !all_digit_chars(v.as_slice()) {
                        return None;
                    }
                    proof {
                        lemma_digits_bound(v@);
                        lemma_pow10_18(v@.len());
                    }
                    match parse_digits(v.as_slice()) {
                        Some(n) => n.checked_mul(60),
                        None => None,
                    }
                },
            }
        },
    }
}


// ---------------------------------------------------------------------------------------------
// The settings
// ---------------------------------------------------------------------------------------------

/// The values of all settings.
#[derive(Clone, Debug)]
pub struct Settings {
    pub always_query_group_plugin: bool,
    pub always_set_home: bool,
    pub env_editor: bool,
    pub env_reset: bool,
    pub mail_badpass: bool,
    pub match_group_by_gid: bool,
    pub noexec: bool,
    pub pwfeedback: bool,
    pub rootpw: bool,
    pub setenv: bool,
    pub targetpw: bool,
    pub use_pty: bool,
    pub visiblepw: bool,
    pub passwd_tries: u64,
    pub passwd_timeout: u64,
    pub timestamp_timeout: u64,
    pub secure_path: Option<String>,
    pub verifypw: String,
    pub editor: String,
    pub env_keep: Vec<String>,
    pub env_check: Vec<String>,
    pub env_delete: Vec<String>,
}

/// The names that a set of names holds.
pub open spec fn names(v: Seq<String>) -> Seq<Seq<char>> {
    v.map_values(|x: String| x@)
}

pub open spec fn has_name(v: Seq<Seq<char>>, x: Seq<char>) -> bool {
    exists|i: int| 0 <= i < v.len() && v[i] == x
}

fn string_vec(items: &[&str]) -> (v: Vec<String>)
    ensures
        v@.len() == items@.len(),
        forall|i: int| 0 <= i < items@.len() ==> #[trigger] v@[i]@ == items@[i]@,
{
    let mut v: Vec<String> = Vec::new();
    let mut i: usize = 0;
    while i < items.len()
        invariant
            i <= items@.len(),
            v@.len() == i,
            forall|j: int| 0 <= j < i ==> #[trigger] v@[j]@ == items@[j]@,
        decreases items.len() - i,
    {
        v.push(owned(items[i]));
        i += 1;
    }
    v
}

/// The values that apply when no `Defaults` line changes them: the flags `env_editor`,
/// `env_reset`, `mail_badpass` and `use_pty` on and the others off, 3 password tries, a
/// password timeout of 5 minutes, records valid for 15 minutes, no `secure_path`,
/// `verifypw` `all`, the editor `/usr/bin/editor`, and the usual `env_keep`, `env_check`
/// and `env_delete` lists.
pub open spec fn is_default(s: Settings) -> bool {
    &&& !s.always_query_group_plugin && !s.always_set_home && s.env_editor && s.env_reset
    &&& s.mail_badpass && !s.match_group_by_gid && !s.noexec && !s.pwfeedback && !s.rootpw
    &&& !s.setenv && !s.targetpw && s.use_pty && !s.visiblepw
    &&& s.passwd_tries == 3 && s.passwd_timeout == 5 * 60 && s.timestamp_timeout == 15 * 60
    &&& s.secure_path is None && s.verifypw@ == "all"@ && s.editor@ == "/usr/bin/editor"@
    &&& s.env_keep@.len() == 11 && s.env_check@.len() == 7 && s.env_delete@.len() == 36
}

impl Default for Settings {
    /// The values that apply when no `Defaults` line changes them.
    fn default() -> (s: Settings)
        ensures
            is_default(s),
            s.always_query_group_plugin == false,
            s.always_set_home == false,
            s.env_editor == true,
            s.env_reset == true,
            s.mail_badpass == true,
            s.match_group_by_gid == false,
            s.noexec == false,
            s.pwfeedback == false,
            s.rootpw == false,
            s.setenv == false,
            s.targetpw == false,
            s.use_pty == true,
            s.visiblepw == false,
            s.passwd_tries == 3,
            s.passwd_timeout == 5 * 60,
            s.timestamp_timeout == 15 * 60,
            s.secure_path is None,
            s.verifypw@ == "all"@,
            s.editor@ == "/usr/bin/editor"@,
            s.env_keep@.len() == 11,
            s.env_check@.len() == 7,
            s.env_delete@.len() == 36,
    {
        Settings {
            always_query_group_plugin: false,
            always_set_home: false,
            env_editor: true,
            env_reset: true,
            mail_badpass: true,
            match_group_by_gid: false,
            noexec: false,
            pwfeedback: false,
            rootpw: false,
            setenv: false,
            targetpw: false,
            use_pty: true,
            visiblepw: false,
            passwd_tries: 3,
            passwd_timeout: 5 * 60,
            timestamp_timeout: 15 * 60,
            secure_path: None,
            verifypw: owned("all"),
            editor: owned("/usr/bin/editor"),
            env_keep: string_vec(&["COLORS", "DISPLAY", "HOSTNAME", "KRB5CCNAME", "LS_COLORS", "PATH", "PS1", "PS2", "XAUTHORITY", "XAUTHORIZATION", "XDG_CURRENT_DESKTOP"]),
            env_check: string_vec(&["COLORTERM", "LANG", "LANGUAGE", "LC_*", "LINGUAS", "TERM", "TZ"]),
            env_delete: string_vec(&["IFS", "CDPATH", "LOCALDOMAIN", "RES_OPTIONS", "HOSTALIASES", "NLSPATH", "PATH_LOCALE", "LD_*", "_RLD*", "TERMINFO", "TERMINFO_DIRS", "TERMPATH", "TERMCAP", "ENV", "BASH_ENV", "PS4", "GLOBIGNORE", "BASHOPTS", "SHELLOPTS", "JAVA_TOOL_OPTIONS", "PERLIO_DEBUG", "PERLLIB", "PERL5LIB", "PERL5OPT", "PERL5DB", "FPATH", "NULLCMD", "READNULLCMD", "ZDOTDIR", "TMPPREFIX", "PYTHONHOME", "PYTHONPATH", "PYTHONINSPECT", "PYTHONUSERBASE", "RUBYLIB", "RUBYOPT"]),
        }
    }
}

/// Add the names that are not there yet.
fn add_names(list: &mut Vec<String>, items: &Vec<String>)
    ensures
        forall|x: Seq<char>|
            #![trigger has_name(names(final(list)@), x)]
            has_name(names(final(list)@), x) <==> has_name(names(old(list)@), x) || has_name(
                names(items@),
                x,
            ),
{
    let mut i: usize = 0;
    while i < items.len()
        invariant
            i <= items@.len(),
            forall|x: Seq<char>|
                has_name(names(list@), x) <==> has_name(names(old(list)@), x) || has_name(
                    names(items@.take(i as int)),
                    x,
                ),
        decreases items.len() - i,
    {
        let item = chars_of(items[i].as_str());
        let ghost before = list@;
        if !contains_name(list, item.as_slice()) {
            list.push(copy_string(&items[i]));
        }
        proof {
            assert(names(items@.take(i + 1)) =~= names(items@.take(i as int)).push(items@[i as int]@));
            assert forall|x: Seq<char>| has_name(names(list@), x) <==> has_name(names(old(list)@), x)
                || has_name(names(items@.take(i + 1)), x) by {
                let nb = names(before);
                let nl = names(list@);
                let ni = names(items@.take(i as int));
                let ni2 = names(items@.take(i + 1));
                if has_name(nl, x) {
                    let k = choose|k: int| 0 <= k < nl.len() && nl[k] == x;
                    if k < nb.len() {
                        assert(nb[k] == nl[k]);
                    } else {
                        assert(ni2[i as int] == x);
                    }
                }
                if has_name(ni2, x) && !has_name(nb, x) {
                    let k = choose|k: int| 0 <= k < ni2.len() && ni2[k] == x;
                    if k < i {
                        assert(ni[k] == x);
                    } else {
                        assert(nl[nl.len() - 1] == x);
                    }
                }
                if has_name(nb, x) {
                    let k = choose|k: int| 0 <= k < nb.len() && nb[k] == x;
                    assert(nl[k] == x);
                }
                if has_name(ni, x) {
                    let k = choose|k: int| 0 <= k < ni.len() && ni[k] == x;
                    assert(ni2[k] == x);
                }
            }
        }
        i += 1;
    }
    proof {
        assert(items@.take(items@.len() as int) =~= items@);
    }
}

fn contains_name(list: &Vec<String>, name: &[char]) -> (b: bool)
    ensures
        b == has_name(names(list@), name@),
{
    let mut i: usize = 0;
    while i < list.len()
        invariant
            i <= list@.len(),
            forall|j: int| 0 <= j < i ==> names(list@)[j] != name@,
        decreases list.len() - i,
    {
        let c = chars_of(list[i].as_str());
        if chars_eq(c.as_slice(), name) {
            assert(names(list@)[i as int] == name@);
            return true;
        }
        i += 1;
    }
    false
}

/// Keep the names that are not among `items`.
fn remove_names(list: &mut Vec<String>, items: &Vec<String>)
    ensures
        forall|x: Seq<char>|
            #![trigger has_name(names(final(list)@), x)]
            has_name(names(final(list)@), x) <==> has_name(names(old(list)@), x) && !has_name(
                names(items@),
                x,
            ),
{
    let mut kept: Vec<String> = Vec::new();
    let mut i: usize = 0;
    while i < list.len()
        invariant
            i <= list@.len(),
            list@ == old(list)@,
            forall|x: Seq<char>|
                has_name(names(kept@), x) <==> has_name(names(list@.take(i as int)), x) && !has_name(
                    names(items@),
                    x,
                ),
        decreases list.len() - i,
    {
        let c = chars_of(list[i].as_str());
        let ghost before = kept@;
        if !contains_name(items, c.as_slice()) {
            kept.push(copy_string(&list[i]));
        }
        proof {
            let nt = names(list@.take(i as int));
            let nt2 = names(list@.take(i + 1));
            assert(nt2 =~= nt.push(list@[i as int]@));
            assert forall|x: Seq<char>| has_name(names(kept@), x) <==> has_name(nt2, x) && !has_name(
                names(items@),
                x,
            ) by {
                let nb = names(before);
                let nk = names(kept@);
                if has_name(nk, x) {
                    let k = choose|k: int| 0 <= k < nk.len() && nk[k] == x;
                    if k < nb.len() {
                        assert(nb[k] == x);
                        assert(has_name(nb, x));
                        assert(has_name(nt, x));
                        let j = choose|j: int| 0 <= j < nt.len() && nt[j] == x;
                        assert(nt2[j] == x);
                    } else {
                        assert(nt2[i as int] == x);
                    }
                }
                if has_name(nt2, x) && !has_name(names(items@), x) {
                    let k = choose|k: int| 0 <= k < nt2.len() && nt2[k] == x;
                    if k < i {
                        assert(nt[k] == x);
                        assert(has_name(nt, x));
                        assert(has_name(nb, x));
                        let j = choose|j: int| 0 <= j < nb.len() && nb[j] == x;
                        assert(nk[j] == x);
                    } else {
                        assert(nk[nk.len() - 1] == x);
                    }
                }
            }
        }
        i += 1;
    }
    proof {
        assert(list@.take(list@.len() as int) =~= list@);
    }
    *list = kept;
}

/// The value of a flag.
pub open spec fn flag_of(s: Settings, f: FlagSetting) -> bool {
    match f {
        FlagSetting::AlwaysQueryGroupPlugin => s.always_query_group_plugin,
        FlagSetting::AlwaysSetHome => s.always_set_home,
        FlagSetting::EnvEditor => s.env_editor,
        FlagSetting::EnvReset => s.env_reset,
        FlagSetting::MailBadpass => s.mail_badpass,
        FlagSetting::MatchGroupByGid => s.match_group_by_gid,
        FlagSetting::Noexec => s.noexec,
        FlagSetting::Pwfeedback => s.pwfeedback,
        FlagSetting::Rootpw => s.rootpw,
        FlagSetting::Setenv => s.setenv,
        FlagSetting::Targetpw => s.targetpw,
        FlagSetting::UsePty => s.use_pty,
        FlagSetting::Visiblepw => s.visiblepw,
    }
}

/// The value of an integer setting.
pub open spec fn int_of(s: Settings, i: IntSetting) -> u64 {
    match i {
        IntSetting::PasswdTries => s.passwd_tries,
        IntSetting::PasswdTimeout => s.passwd_timeout,
        IntSetting::TimestampTimeout => s.timestamp_timeout,
    }
}

/// The value of a text setting (`secure_path` may be unset).
pub open spec fn text_of(s: Settings, t: TextSetting) -> Option<Seq<char>> {
    match t {
        TextSetting::SecurePath => match s.secure_path {
            Some(p) => Some(p@),
            None => None,
        },
        TextSetting::Verifypw => Some(s.verifypw@),
        TextSetting::Editor => Some(s.editor@),
    }
}

/// The names of a list setting.
pub open spec fn list_of(s: Settings, l: ListSetting) -> Seq<String> {
    match l {
        ListSetting::EnvKeep => s.env_keep@,
        ListSetting::EnvCheck => s.env_check@,
        ListSetting::EnvDelete => s.env_delete@,
    }
}

/// A flag after the change `m`.
pub open spec fn flag_after(m: SettingsModifier, f: FlagSetting, before: bool) -> bool {
    match m {
        SettingsModifier::Flag(g, b) => if g == f {
            b
        } else {
            before
        },
        _ => before,
    }
}

/// An integer setting after the change `m`.
pub open spec fn int_after(m: SettingsModifier, i: IntSetting, before: u64) -> u64 {
    match m {
        SettingsModifier::Integer(j, n) => if j == i {
            n
        } else {
            before
        },
        _ => before,
    }
}

/// A text setting after the change `m`: `secure_path` takes the value or is unset; the
/// others take a value and keep theirs when none is given.
pub open spec fn text_after(m: SettingsModifier, t: TextSetting, before: Option<Seq<char>>) -> Option<Seq<char>> {
    match m {
        SettingsModifier::Text(u, v) => if u == t {
            match v {
                Some(x) => Some(x@),
                None => if t == TextSetting::SecurePath {
                    None
                } else {
                    before
                },
            }
        } else {
            before
        },
        _ => before,
    }
}

/// Whether a list setting holds the name `x` after the change `m`: replaced by the items,
/// with the items added, or with them removed.
pub open spec fn listed_after(m: SettingsModifier, l: ListSetting, before: Seq<String>, x: Seq<char>) -> bool {
    match m {
        SettingsModifier::List(k, mode, items) => if k == l {
            match mode {
                ListMode::Replace => has_name(names(items@), x),
                ListMode::Add => has_name(names(before), x) || has_name(names(items@), x),
                ListMode::Del => has_name(names(before), x) && !has_name(names(items@), x),
            }
        } else {
            has_name(names(before), x)
        },
        _ => has_name(names(before), x),
    }
}

/// The change `m` touches the list setting `l`.
pub open spec fn touches_list(m: SettingsModifier, l: ListSetting) -> bool {
    m matches SettingsModifier::List(k, _, _) && k == l
}

/// Replace the names by the items, add them, or remove them.
fn change_names(list: &mut Vec<String>, mode: ListMode, items: &Vec<String>)
    ensures
        forall|x: Seq<char>|
            #![trigger has_name(names(final(list)@), x)]
            has_name(names(final(list)@), x) == match mode {
                ListMode::Replace => has_name(names(items@), x),
                ListMode::Add => has_name(names(old(list)@), x) || has_name(names(items@), x),
                ListMode::Del => has_name(names(old(list)@), x) && !has_name(names(items@), x),
            },
{
    let mut cur: Vec<String> = Vec::new();
    std::mem::swap(&mut cur, list);
    let ghost before = cur@;
    match mode {
        ListMode::Replace => {
            let mut fresh: Vec<String> = Vec::new();
            let ghost empty = fresh@;
            proof {
                assert forall|x: Seq<char>| !has_name(names(empty), x) by {}
            }
            add_names(&mut fresh, items);
            cur = fresh;
            proof {
                assert forall|x: Seq<char>| has_name(names(cur@), x) == has_name(names(items@), x) by {
                    assert(!has_name(names(empty), x));
                }
            }
        },
        ListMode::Add => {
            add_names(&mut cur, items);
            proof {
                assert forall|x: Seq<char>| has_name(names(cur@), x) == (has_name(names(before), x) || has_name(names(items@), x)) by {}
            }
        },
        ListMode::Del => {
            remove_names(&mut cur, items);
        },
    }
    *list = cur;
}

impl Settings {
    /// Apply one change.
    pub fn apply(&mut self, m: &SettingsModifier)
        ensures
            forall|f: FlagSetting| flag_of(*final(self), f) == flag_after(*m, f, flag_of(*old(self), f)),
            forall|i: IntSetting| int_of(*final(self), i) == int_after(*m, i, int_of(*old(self), i)),
            forall|t: TextSetting| text_of(*final(self), t) == text_after(*m, t, text_of(*old(self), t)),
            forall|l: ListSetting, x: Seq<char>|
                has_name(names(list_of(*final(self), l)), x) == listed_after(*m, l, list_of(*old(self), l), x),
            forall|l: ListSetting| !touches_list(*m, l) ==> list_of(*final(self), l) == list_of(*old(self), l),
    {
        match m {
            SettingsModifier::Flag(f, b) => self.apply_flag(*f, *b),
            SettingsModifier::Integer(setting, n) => self.apply_int(*setting, *n),
            SettingsModifier::Text(setting, value) => self.apply_text(*setting, value),
            SettingsModifier::List(setting, mode, items) => self.apply_list(*setting, *mode, items),
        }
    }

    #[verifier::rlimit(40)]
    fn apply_flag(&mut self, f: FlagSetting, b: bool)
        ensures
            forall|g: FlagSetting| flag_of(*final(self), g) == if g == f { b } else { flag_of(*old(self), g) },
            forall|i: IntSetting| int_of(*final(self), i) == int_of(*old(self), i),
            forall|t: TextSetting| text_of(*final(self), t) == text_of(*old(self), t),
            forall|l: ListSetting| list_of(*final(self), l) == list_of(*old(self), l),
    {
        match f {
            FlagSetting::AlwaysQueryGroupPlugin => self.always_query_group_plugin = b,
            FlagSetting::AlwaysSetHome => self.always_set_home = b,
            FlagSetting::EnvEditor => self.env_editor = b,
            FlagSetting::EnvReset => self.env_reset = b,
            FlagSetting::MailBadpass => self.mail_badpass = b,
            FlagSetting::MatchGroupByGid => self.match_group_by_gid = b,
            FlagSetting::Noexec => self.noexec = b,
            FlagSetting::Pwfeedback => self.pwfeedback = b,
            FlagSetting::Rootpw => self.rootpw = b,
            FlagSetting::Setenv => self.setenv = b,
            FlagSetting::Targetpw => self.targetpw = b,
            FlagSetting::UsePty => self.use_pty = b,
            FlagSetting::Visiblepw => self.visiblepw = b,
        }
    }

    fn apply_int(&mut self, setting: IntSetting, n: u64)
        ensures
            forall|g: FlagSetting| flag_of(*final(self), g) == flag_of(*old(self), g),
            forall|i: IntSetting| int_of(*final(self), i) == if i == setting { n } else { int_of(*old(self), i) },
            forall|t: TextSetting| text_of(*final(self), t) == text_of(*old(self), t),
            forall|l: ListSetting| list_of(*final(self), l) == list_of(*old(self), l),
    {
        match setting {
            IntSetting::PasswdTries => self.passwd_tries = n,
            IntSetting::PasswdTimeout => self.passwd_timeout = n,
            IntSetting::TimestampTimeout => self.timestamp_timeout = n,
        }
    }

    fn apply_text(&mut self, setting: TextSetting, value: &Option<String>)
        ensures
            forall|g: FlagSetting| flag_of(*final(self), g) == flag_of(*old(self), g),
            forall|i: IntSetting| int_of(*final(self), i) == int_of(*old(self), i),
            forall|t: TextSetting| text_of(*final(self), t) == text_after(
                SettingsModifier::Text(setting, *value),
                t,
                text_of(*old(self), t),
            ),
            forall|l: ListSetting| list_of(*final(self), l) == list_of(*old(self), l),
    {
        match setting {
            TextSetting::SecurePath => {
                self.secure_path = match value {
                    Some(v) => Some(copy_string(v)),
                    None => None,
                };
            },
            TextSetting::Verifypw => {
                if let Some(v) = value {
                    self.verifypw = copy_string(v);
                }
            },
            TextSetting::Editor => {
                if let Some(v) = value {
                    self.editor = copy_string(v);
                }
            },
        }
    }

    #[verifier::rlimit(60)]
    fn apply_list(&mut self, setting: ListSetting, mode: ListMode, items: &Vec<String>)
        ensures
            forall|g: FlagSetting| flag_of(*final(self), g) == flag_of(*old(self), g),
            forall|i: IntSetting| int_of(*final(self), i) == int_of(*old(self), i),
            forall|t: TextSetting| text_of(*final(self), t) == text_of(*old(self), t),
            forall|l: ListSetting, x: Seq<char>|
                has_name(names(list_of(*final(self), l)), x) == listed_after(
                    SettingsModifier::List(setting, mode, *items),
                    l,
                    list_of(*old(self), l),
                    x,
                ),
            forall|l: ListSetting| l != setting ==> list_of(*final(self), l) == list_of(*old(self), l),
    {
        let ghost before = *self;
        match setting {
            ListSetting::EnvKeep => {
                change_names(&mut self.env_keep, mode, items);
            },
            ListSetting::EnvCheck => {
                change_names(&mut self.env_check, mode, items);
            },
            ListSetting::EnvDelete => {
                change_names(&mut self.env_delete, mode, items);
            },
        }
        proof {
            assert forall|x: Seq<char>|
                has_name(names(list_of(*self, setting)), x) == match mode {
                    ListMode::Replace => has_name(names(items@), x),
                    ListMode::Add => has_name(names(list_of(before, setting)), x) || has_name(names(items@), x),
                    ListMode::Del => has_name(names(list_of(before, setting)), x) && !has_name(names(items@), x),
                } by {
                match setting {
                    ListSetting::EnvKeep => {
                        assert(has_name(names(self.env_keep@), x) == has_name(names(list_of(*self, setting)), x));
                    },
                    ListSetting::EnvCheck => {
                        assert(has_name(names(self.env_check@), x) == has_name(names(list_of(*self, setting)), x));
                    },
                    ListSetting::EnvDelete => {
                        assert(has_name(names(self.env_delete@), x) == has_name(names(list_of(*self, setting)), x));
                    },
                }
            }
            assert forall|l: ListSetting, x: Seq<char>|
                has_name(names(list_of(*self, l)), x) == listed_after(
                    SettingsModifier::List(setting, mode, *items),
                    l,
                    list_of(*old(self), l),
                    x,
                ) by {
                if l != setting {
                    assert(list_of(*self, l) == list_of(*old(self), l));
                }
            }
        }
    }

    pub fn always_query_group_plugin(&self) -> (b: bool)
        ensures
            b == self.always_query_group_plugin,
    {
        self.always_query_group_plugin
    }

    pub fn always_set_home(&self) -> (b: bool)
        ensures
            b == self.always_set_home,
    {
        self.always_set_home
    }

    pub fn env_editor(&self) -> (b: bool)
        ensures
            b == self.env_editor,
    {
        self.env_editor
    }

    pub fn env_reset(&self) -> (b: bool)
        ensures
            b == self.env_reset,
    {
        self.env_reset
    }

    pub fn mail_badpass(&self) -> (b: bool)
        ensures
            b == self.mail_badpass,
    {
        self.mail_badpass
    }

    pub fn match_group_by_gid(&self) -> (b: bool)
        ensures
            b == self.match_group_by_gid,
    {
        self.match_group_by_gid
    }

    pub fn noexec(&self) -> (b: bool)
        ensures
            b == self.noexec,
    {
        self.noexec
    }

    pub fn pwfeedback(&self) -> (b: bool)
        ensures
            b == self.pwfeedback,
    {
        self.pwfeedback
    }

    pub fn rootpw(&self) -> (b: bool)
        ensures
            b == self.rootpw,
    {
        self.rootpw
    }

    pub fn setenv(&self) -> (b: bool)
        ensures
            b == self.setenv,
    {
        self.setenv
    }

    pub fn targetpw(&self) -> (b: bool)
        ensures
            b == self.targetpw,
    {
        self.targetpw
    }

    pub fn use_pty(&self) -> (b: bool)
        ensures
            b == self.use_pty,
    {
        self.use_pty
    }

    pub fn visiblepw(&self) -> (b: bool)
        ensures
            b == self.visiblepw,
    {
        self.visiblepw
    }

    pub fn passwd_tries(&self) -> (n: u64)
        ensures
            n == self.passwd_tries,
    {
        self.passwd_tries
    }

    pub fn passwd_timeout(&self) -> (n: u64)
        ensures
            n == self.passwd_timeout,
    {
        self.passwd_timeout
    }

    pub fn timestamp_timeout(&self) -> (n: u64)
        ensures
            n == self.timestamp_timeout,
    {
        self.timestamp_timeout
    }

    pub fn env_keep(&self) -> (v: &Vec<String>)
        ensures
            v == &self.env_keep,
    {
        &self.env_keep
    }

    pub fn env_check(&self) -> (v: &Vec<String>)
        ensures
            v == &self.env_check,
    {
        &self.env_check
    }

    pub fn env_delete(&self) -> (v: &Vec<String>)
        ensures
            v == &self.env_delete,
    {
        &self.env_delete
    }

    pub fn secure_path(&self) -> (p: Option<&str>)
        ensures
            match self.secure_path {
                Some(s) => p matches Some(x) && x@ == s@,
                None => p is None,
            },
    {
        match &self.secure_path {
            Some(s) => Some(s.as_str()),
            None => None,
        }
    }

    pub fn verifypw(&self) -> (s: &str)
        ensures
            s@ == self.verifypw@,
    {
        self.verifypw.as_str()
    }

    pub fn editor(&self) -> (s: &str)
        ensures
            s@ == self.editor@,
    {
        self.editor.as_str()
    }
}

/// Whether a list holds the name `x` after the change `m`, when before it did or not.
pub open spec fn listed_step(m: SettingsModifier, l: ListSetting, was: bool, x: Seq<char>) -> bool {
    match m {
        SettingsModifier::List(k, mode, items) => if k == l {
            match mode {
                ListMode::Replace => has_name(names(items@), x),
                ListMode::Add => was || has_name(names(items@), x),
                ListMode::Del => was && !has_name(names(items@), x),
            }
        } else {
            was
        },
        _ => was,
    }
}

/// A flag after the changes, in order.
pub open spec fn flag_after_all(mods: Seq<SettingsModifier>, f: FlagSetting, b: bool) -> bool
    decreases mods.len(),
{
    if mods.len() == 0 {
        b
    } else {
        flag_after(mods.last(), f, flag_after_all(mods.drop_last(), f, b))
    }
}

/// An integer setting after the changes, in order.
pub open spec fn int_after_all(mods: Seq<SettingsModifier>, i: IntSetting, n: u64) -> u64
    decreases mods.len(),
{
    if mods.len() == 0 {
        n
    } else {
        int_after(mods.last(), i, int_after_all(mods.drop_last(), i, n))
    }
}

/// A text setting after the changes, in order.
pub open spec fn text_after_all(mods: Seq<SettingsModifier>, t: TextSetting, v: Option<Seq<char>>) -> Option<
    Seq<char>,
>
    decreases mods.len(),
{
    if mods.len() == 0 {
        v
    } else {
        text_after(mods.last(), t, text_after_all(mods.drop_last(), t, v))
    }
}

/// Whether a list holds the name `x` after the changes, in order.
pub open spec fn listed_after_all(mods: Seq<SettingsModifier>, l: ListSetting, was: bool, x: Seq<char>) -> bool
    decreases mods.len(),
{
    if mods.len() == 0 {
        was
    } else {
        listed_step(mods.last(), l, listed_after_all(mods.drop_last(), l, was, x), x)
    }
}

/// The settings `after` are the settings `before` with the changes `mods` made in order.
pub open spec fn applied_in_order(before: Settings, after: Settings, mods: Seq<SettingsModifier>) -> bool {
    &&& forall|f: FlagSetting| #[trigger] flag_of(after, f) == flag_after_all(mods, f, flag_of(before, f))
    &&& forall|i: IntSetting| #[trigger] int_of(after, i) == int_after_all(mods, i, int_of(before, i))
    &&& forall|t: TextSetting| #[trigger] text_of(after, t) == text_after_all(mods, t, text_of(before, t))
    &&& forall|l: ListSetting, x: Seq<char>|
        #[trigger] has_name(names(list_of(after, l)), x) == listed_after_all(
            mods,
            l,
            has_name(names(list_of(before, l)), x),
            x,
        )
}

/// Making no change leaves the settings as they are.
pub proof fn lemma_applied_none(s: Settings)
    ensures
        applied_in_order(s, s, Seq::empty()),
{
}

/// One more change, made by `apply`.
pub proof fn lemma_applied_push(a: Settings, b: Settings, c: Settings, mods: Seq<SettingsModifier>, m: SettingsModifier)
    requires
        applied_in_order(a, b, mods),
        forall|f: FlagSetting| flag_of(c, f) == flag_after(m, f, flag_of(b, f)),
        forall|i: IntSetting| int_of(c, i) == int_after(m, i, int_of(b, i)),
        forall|t: TextSetting| text_of(c, t) == text_after(m, t, text_of(b, t)),
        forall|l: ListSetting, x: Seq<char>|
            has_name(names(list_of(c, l)), x) == listed_after(m, l, list_of(b, l), x),
    ensures
        applied_in_order(a, c, mods.push(m)),
{
    assert(mods.push(m).drop_last() =~= mods);
    assert forall|l: ListSetting, x: Seq<char>|
        #[trigger] has_name(names(list_of(c, l)), x) == listed_after_all(
            mods.push(m),
            l,
            has_name(names(list_of(a, l)), x),
            x,
        ) by {
        assert(has_name(names(list_of(c, l)), x) == listed_after(m, l, list_of(b, l), x));
        assert(has_name(names(list_of(b, l)), x) == listed_after_all(mods, l, has_name(names(list_of(a, l)), x), x));
    }
}

proof fn lemma_after_all_append(m1: Seq<SettingsModifier>, m2: Seq<SettingsModifier>)
    ensures
        forall|f: FlagSetting, b: bool| #[trigger] flag_after_all(m1 + m2, f, b) == flag_after_all(m2, f, flag_after_all(m1, f, b)),
        forall|i: IntSetting, n: u64| #[trigger] int_after_all(m1 + m2, i, n) == int_after_all(m2, i, int_after_all(m1, i, n)),
        forall|t: TextSetting, v: Option<Seq<char>>| #[trigger] text_after_all(m1 + m2, t, v) == text_after_all(m2, t, text_after_all(m1, t, v)),
        forall|l: ListSetting, w: bool, x: Seq<char>| #[trigger] listed_after_all(m1 + m2, l, w, x) == listed_after_all(m2, l, listed_after_all(m1, l, w, x), x),
    decreases m2.len(),
{
    if m2.len() == 0 {
        assert(m1 + m2 =~= m1);
        assert forall|t: TextSetting, v: Option<Seq<char>>| #[trigger] text_after_all(m1 + m2, t, v) == text_after_all(m2, t, text_after_all(m1, t, v)) by {}
        assert forall|l: ListSetting, w: bool, x: Seq<char>| #[trigger] listed_after_all(m1 + m2, l, w, x) == listed_after_all(m2, l, listed_after_all(m1, l, w, x), x) by {}
    } else {
        let m = m1 + m2;
        lemma_after_all_append(m1, m2.drop_last());
        assert(m.drop_last() =~= m1 + m2.drop_last());
        assert(m.last() == m2.last());
        assert forall|f: FlagSetting, b: bool| #[trigger] flag_after_all(m, f, b) == flag_after_all(m2, f, flag_after_all(m1, f, b)) by {
            assert(flag_after_all(m, f, b) == flag_after(m.last(), f, flag_after_all(m.drop_last(), f, b)));
        }
        assert forall|i: IntSetting, n: u64| #[trigger] int_after_all(m, i, n) == int_after_all(m2, i, int_after_all(m1, i, n)) by {
            assert(int_after_all(m, i, n) == int_after(m.last(), i, int_after_all(m.drop_last(), i, n)));
        }
        assert forall|t: TextSetting, v: Option<Seq<char>>| #[trigger] text_after_all(m, t, v) == text_after_all(m2, t, text_after_all(m1, t, v)) by {
            assert(text_after_all(m, t, v) == text_after(m.last(), t, text_after_all(m.drop_last(), t, v)));
        }
        assert forall|l: ListSetting, w: bool, x: Seq<char>| #[trigger] listed_after_all(m, l, w, x) == listed_after_all(m2, l, listed_after_all(m1, l, w, x), x) by {
            assert(listed_after_all(m, l, w, x) == listed_step(m.last(), l, listed_after_all(m.drop_last(), l, w, x), x));
        }
    }
}

/// Changes made one run after the other are the changes of both runs, in order.
pub proof fn lemma_applied_append(a: Settings, b: Settings, c: Settings, m1: Seq<SettingsModifier>, m2: Seq<SettingsModifier>)
    requires
        applied_in_order(a, b, m1),
        applied_in_order(b, c, m2),
    ensures
        applied_in_order(a, c, m1 + m2),
{
    lemma_after_all_append(m1, m2);
}

/// A copy of the names.
fn copy_names(v: &Vec<String>) -> (r: Vec<String>)
    ensures
        names(r@) == names(v@),
{
    let mut r: Vec<String> = Vec::new();
    let mut i: usize = 0;
    while i < v.len()
        invariant
            i <= v@.len(),
            names(r@) == names(v@.take(i as int)),
        decreases v.len() - i,
    {
        let ghost before = r@;
        let t = copy_string(&v[i]);
        r.push(t);
        proof {
            assert(v@.take(i + 1) =~= v@.take(i as int).push(v@[i as int]));
            assert(names(r@) =~= names(before).push(t@));
            assert(names(v@.take(i + 1)) =~= names(v@.take(i as int)).push(v@[i as int]@));
        }
        i += 1;
    }
    proof {
        assert(v@.take(v@.len() as int) =~= v@);
    }
    r
}

impl Settings {
    /// A copy of the settings, with the same values.
    pub fn copy(&self) -> (s: Settings)
        ensures
            applied_in_order(*self, s, Seq::empty()),
    {
        Settings {
            always_query_group_plugin: self.always_query_group_plugin,
            always_set_home: self.always_set_home,
            env_editor: self.env_editor,
            env_reset: self.env_reset,
            mail_badpass: self.mail_badpass,
            match_group_by_gid: self.match_group_by_gid,
            noexec: self.noexec,
            pwfeedback: self.pwfeedback,
            rootpw: self.rootpw,
            setenv: self.setenv,
            targetpw: self.targetpw,
            use_pty: self.use_pty,
            visiblepw: self.visiblepw,
            passwd_tries: self.passwd_tries,
            passwd_timeout: self.passwd_timeout,
            timestamp_timeout: self.timestamp_timeout,
            secure_path: match &self.secure_path {
                Some(p) => Some(copy_string(p)),
                None => None,
            },
            verifypw: copy_string(&self.verifypw),
            editor: copy_string(&self.editor),
            env_keep: copy_names(&self.env_keep),
            env_check: copy_names(&self.env_check),
            env_delete: copy_names(&self.env_delete),
        }
    }
}

} // verus!
