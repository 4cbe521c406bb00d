//! The sudoers file: its grammar and the policy it describes.

pub mod char_stream;
pub mod basic_parser;
pub mod tokens;
pub mod defaults;
pub mod ast;
pub mod aliases;
pub mod policy;
pub mod matching;
pub mod entry;

use vstd::prelude::*;
use basic_parser::{Parsed, Span, Status};
use ast::{
    Authenticate, EnvironmentControl, CommandSpec, ConfigScope, Def, Directive, PermissionSpec, Qualified, RunAs, Spec,
    SpecList, Sudo, Tag, UserSpecifier,
};
use defaults::{applied_in_order, lemma_applied_append, lemma_applied_none, lemma_applied_push, Settings, SettingsModifier};
use tokens::{Command, Hostname, Meta, SimpleCommand};
use aliases::{alias_diagnostic, alias_fault, lemma_grows_trans, no_forward_refs, sanitize_alias_table};
use matching::{
    glob_matches,
    command_flags, command_matches, decide, find_item, flag_views, found_int, found_view,
    get_aliases, aliases_found, group_alias_flag_seq, group_alias_flags, group_flag_seq, group_flags,
    host_flags, host_matches, in_group, item_flag, simple_command_flags, user_flag_seq, user_flags,
    Found, FoundAliases, UnixGroup, UnixUser,
};
use policy::Judgement;
use entry::{runas_view, tag_key, Entry};
use crate::text::{chars_of, concat, copy_string, owned, push_char};

verus! {

/// A problem found in a sudoers file: in which file, where, and what.
pub struct Error {
    pub source: Option<String>,
    pub location: Option<Span>,
    pub message: String,
}


/// How many nested include files are allowed.
pub const INCLUDE_LIMIT: u8 = 128;

/// Why a file could not be read.
pub enum OpenError {
    NotFound,
    Other(String),
}

/// Where the files that a sudoers file includes come from.
pub trait SudoersSource {
    /// The parsed lines of the sudoers file at `path`.
    fn open_subsudoers(&mut self, path: &str) -> Result<Vec<Parsed<Sudo>>, OpenError>;

    /// The names of the files in the directory at `path`, or `None` when it cannot be read.
    fn read_dir(&mut self, path: &str) -> Option<Vec<String>>;
}

/// Definitions with the order in which they must be taken.
pub struct VecOrd<T>(pub Vec<usize>, pub Vec<T>);

/// The aliases of each kind.
pub struct AliasTable {
    pub user: VecOrd<Def<UserSpecifier>>,
    pub host: VecOrd<Def<Hostname>>,
    pub cmnd: VecOrd<Def<Command>>,
    pub runas: VecOrd<Def<UserSpecifier>>,
}

/// `Defaults` lines with a scope, which apply once it is known what they apply to.
pub struct CustomiserTable {
    pub non_cmnd: Vec<(ConfigScope, Vec<SettingsModifier>)>,
    pub cmnd: Vec<(SpecList<SimpleCommand>, Vec<SettingsModifier>)>,
}

/// A sudoers file, analysed.
pub struct Sudoers {
    pub rules: Vec<PermissionSpec>,
    pub aliases: AliasTable,
    pub settings: Settings,
    pub customisers: CustomiserTable,
}

impl Sudoers {
    /// Nothing defined, default settings.
    pub fn empty() -> (s: Sudoers)
        ensures
            s.rules@.len() == 0,
            s.aliases.user.1@.len() == 0,
            s.aliases.host.1@.len() == 0,
            s.aliases.cmnd.1@.len() == 0,
            s.aliases.runas.1@.len() == 0,
            s.customisers.non_cmnd@.len() == 0,
            s.customisers.cmnd@.len() == 0,
    {
        Sudoers {
            rules: Vec::new(),
            aliases: AliasTable {
                user: VecOrd(Vec::new(), Vec::new()),
                host: VecOrd(Vec::new(), Vec::new()),
                cmnd: VecOrd(Vec::new(), Vec::new()),
                runas: VecOrd(Vec::new(), Vec::new()),
            },
            settings: Settings::default(),
            customisers: CustomiserTable { non_cmnd: Vec::new(), cmnd: Vec::new() },
        }
    }
}

/// `path` taken relative to the directory of `base`, unless it is absolute.
pub open spec fn resolved(base: Seq<char>, path: Seq<char>) -> Seq<char> {
    if path.len() > 0 && path[0] == '/' {
        path
    } else {
        let dir = parent_dir(base);
        if dir.len() > 0 && dir.last() == '/' {
            dir + path
        } else if dir.len() == 0 {
            path
        } else {
            dir + seq!['/'] + path
        }
    }
}

/// Everything before the last `/` (`/` itself for a file in the root directory).
pub open spec fn parent_dir(base: Seq<char>) -> Seq<char> {
    match last_slash(base, base.len() as int) {
        Some(i) => if i == 0 {
            seq!['/']
        } else {
            base.take(i)
        },
        None => Seq::empty(),
    }
}

/// The position of the last `/` before `end`.
pub open spec fn last_slash(s: Seq<char>, end: int) -> Option<int>
    decreases end,
{
    if end <= 0 {
        None
    } else if s[end - 1] == '/' {
        Some(end - 1)
    } else {
        last_slash(s, end - 1)
    }
}

proof fn lemma_last_slash(s: Seq<char>, end: int)
    requires
        0 <= end <= s.len(),
    ensures
        last_slash(s, end) matches Some(i) ==> 0 <= i < end,
    decreases end,
{
    if end > 0 && s[end - 1] != '/' {
        lemma_last_slash(s, end - 1);
    }
}

/// Resolve `path` relative to the directory of `base`.
pub fn resolve_relative(base: &str, path: &str) -> (r: String)
    ensures
        r@ == resolved(base@, path@),
{
    let p = chars_of(path);
    if p.len() > 0 && p[0] == '/' {
        return owned(path);
    }
    let b = chars_of(base);
    let mut end = b.len();
    while end > 0 && b[end - 1] != '/'
        invariant
            end <= b@.len(),
            last_slash(b@, b@.len() as int) == last_slash(b@, end as int),
        decreases end,
    {
        end -= 1;
    }
    let dir = if end == 0 {
        String::new()
    } else if end == 1 {
        owned("/")
    } else {
        crate::text::string_from_range(b.as_slice(), 0, end - 1)
    };
    proof {
        reveal_strlit("/");
        if end == 1 {
            assert(dir@ =~= seq!['/']);
        }
        if end > 1 {
            assert(dir@ =~= b@.take(end - 1));
        }
        if end == 0 {
            assert(dir@ =~= Seq::<char>::empty());
        }
    }
    let dc = chars_of(dir.as_str());
    if dc.len() > 0 && dc[dc.len() - 1] == '/' {
        concat(dir.as_str(), path)
    } else if dc.len() == 0 {
        owned(path)
    } else {
        let mut r = concat(dir.as_str(), "/");
        r.append(path);
        proof {
            assert(r@ =~= dir@ + seq!['/'] + path@);
        }
        r
    }
}

fn error_at(source: &str, span: Span, message: String) -> (e: Error)
    ensures
        e.source matches Some(s) && s@ == source@,
        e.location == Some(span),
        e.message@ == message@,
{
    Error { source: Some(owned(source)), location: Some(span), message }
}

/// A file name in an included directory is taken unless it ends in `~` or holds a `.`.
pub open spec fn safe_file_name(name: Seq<char>) -> bool {
    !(name.len() > 0 && name.last() == '~') && !crate::sudoers::tokens::contains_char(name, '.')
}

fn is_safe_file_name(name: &String) -> (b: bool)
    ensures
        b == safe_file_name(name@),
{
    let v = chars_of(name.as_str());
    if v.len() > 0 && v[v.len() - 1] == '~' {
        return false;
    }
    let mut i: usize = 0;
    while i < v.len()
        invariant
            i <= v@.len(),
            v@ == name@,
            forall|j: int| 0 <= j < i ==> v@[j] != '.',
        decreases v.len() - i,
    {
        if v[i] == '.' {
            assert(name@[i as int] == '.');
            return false;
        }
        i += 1;
    }
    true
}

/// `a` comes before `b` (comparing characters).
pub open spec fn lex_le(a: Seq<char>, b: Seq<char>) -> bool
    decreases a.len(),
{
    if a.len() == 0 {
        true
    } else if b.len() == 0 {
        false
    } else if a[0] != b[0] {
        (a[0] as int) < (b[0] as int)
    } else {
        lex_le(a.drop_first(), b.drop_first())
    }
}

fn lex_le_exec(a: &[char], b: &[char]) -> (r: bool)
    ensures
        r == lex_le(a@, b@),
{
    let mut i: usize = 0;
    proof {
        assert(a@.skip(0) =~= a@);
        assert(b@.skip(0) =~= b@);
    }
    while i < a.len() && i < b.len() && a[i] == b[i]
        invariant
            i <= a@.len(),
            i <= b@.len(),
            lex_le(a@, b@) == lex_le(a@.skip(i as int), b@.skip(i as int)),
        decreases a.len() - i,
    {
        proof {
            assert(a@.skip(i as int).drop_first() =~= a@.skip(i + 1));
            assert(b@.skip(i as int).drop_first() =~= b@.skip(i + 1));
        }
        i += 1;
    }
    if i == a.len() {
        true
    } else if i == b.len() {
        false
    } else {
        a[i] < b[i]
    }
}

pub open spec fn sorted_names(v: Seq<String>) -> bool {
    forall|i: int, j: int| 0 <= i < j < v.len() ==> lex_le(v[i]@, v[j]@)
}

pub open spec fn name_views(v: Seq<String>) -> Seq<Seq<char>> {
    v.map_values(|s: String| s@)
}

proof fn lemma_lex_le_total(a: Seq<char>, b: Seq<char>)
    ensures
        lex_le(a, b) || lex_le(b, a),
    decreases a.len(),
{
    if a.len() > 0 && b.len() > 0 {
        if a[0] == b[0] {
            lemma_lex_le_total(a.drop_first(), b.drop_first());
        } else {
            assert((a[0] as int) != (b[0] as int));
        }
    }
}

proof fn lemma_lex_le_trans(a: Seq<char>, b: Seq<char>, c: Seq<char>)
    requires
        lex_le(a, b),
        lex_le(b, c),
    ensures
        lex_le(a, c),
    decreases a.len(),
{
    if a.len() > 0 && b.len() > 0 && c.len() > 0 && a[0] == b[0] && b[0] == c[0] {
        lemma_lex_le_trans(a.drop_first(), b.drop_first(), c.drop_first());
    }
}

proof fn lemma_insert_multiset<A>(s: Seq<A>, k: int, x: A)
    requires
        0 <= k <= s.len(),
    ensures
        s.insert(k, x).to_multiset() =~= s.to_multiset().insert(x),
{
    broadcast use vstd::seq_lib::group_to_multiset_ensures;
    let s0 = s.take(k);
    let s1 = s.skip(k);
    assert(s.insert(k, x) =~= s0.push(x) + s1);
    assert(s =~= s0 + s1);
    vstd::seq_lib::lemma_multiset_commutative(s0.push(x), s1);
    vstd::seq_lib::lemma_multiset_commutative(s0, s1);
}

/// The name at `k` comes before `name`.
fn name_le_at(out: &Vec<String>, k: usize, name: &Vec<char>) -> (r: bool)
    requires
        k < out@.len(),
    ensures
        r == lex_le(out@[k as int]@, name@),
{
    let other = chars_of(out[k].as_str());
    lex_le_exec(other.as_slice(), name.as_slice())
}

/// Sort the names (inserting each in its place).
fn sort_names(names: Vec<String>) -> (r: Vec<String>)
    ensures
        r@.len() == names@.len(),
        sorted_names(r@),
        name_views(r@).to_multiset() == name_views(names@).to_multiset(),
{
    broadcast use vstd::seq_lib::group_to_multiset_ensures;
    let mut out: Vec<String> = Vec::new();
    let mut i: usize = 0;
    proof {
        assert(name_views(names@).take(0) =~= Seq::<Seq<char>>::empty());
    }
    while i < names.len()
        invariant
            i <= names@.len(),
            out@.len() == i,
            sorted_names(out@),
            name_views(out@).to_multiset() == name_views(names@).take(i as int).to_multiset(),
        decreases names.len() - i,
    {
        let name = chars_of(names[i].as_str());
        let mut k: usize = 0;
        while k < out.len() && name_le_at(&out, k, &name)
            invariant
                k <= out@.len(),
                name@ == names@[i as int]@,
                forall|j: int| 0 <= j < k ==> lex_le(#[trigger] out@[j]@, name@),
            decreases out.len() - k,
        {
            k += 1;
        }
        let ghost old_out = out@;
        let item = copy_string(&names[i]);
        proof {
            if k < old_out.len() {
                lemma_lex_le_total(old_out[k as int]@, name@);
            }
        }
        out.insert(k, item);
        proof {
            assert(out@ == old_out.insert(k as int, item));
            assert forall|a: int, b: int| 0 <= a < b < out@.len() implies lex_le(out@[a]@, out@[b]@) by {
                if b == k {
                    assert(out@[a] == old_out[a]);
                } else if a == k {
                    assert(out@[b] == old_out[b - 1]);
                    if b - 1 > k {
                        lemma_lex_le_trans(name@, old_out[k as int]@, old_out[b - 1]@);
                    }
                } else if a < k && b < k {
                    assert(out@[a] == old_out[a]);
                    assert(out@[b] == old_out[b]);
                } else if a < k {
                    assert(out@[a] == old_out[a]);
                    assert(out@[b] == old_out[b - 1]);
                } else {
                    assert(out@[a] == old_out[a - 1]);
                    assert(out@[b] == old_out[b - 1]);
                }
            }
            assert(item@ == names@[i as int]@);
            assert(name_views(names@)[i as int] == item@);
            assert(name_views(out@) =~= name_views(old_out).insert(k as int, item@));
            lemma_insert_multiset(name_views(old_out), k as int, item@);
            assert(name_views(names@).take(i + 1) =~= name_views(names@).take(i as int).push(item@));
            let t = name_views(names@).take(i as int);
            vstd::seq_lib::to_multiset_build(t, item@);
            assert(name_views(out@).to_multiset() =~= name_views(old_out).to_multiset().insert(item@));
        }
        i += 1;
    }
    proof {
        assert(name_views(names@).take(i as int) =~= name_views(names@));
    }
    out
}


/// The text holds `%h` somewhere.
pub open spec fn has_percent_h(t: Seq<char>) -> bool {
    exists|i: int| 0 <= i && i + 1 < t.len() && #[trigger] t[i] == '%' && t[i + 1] == 'h'
}

fn contains_percent_h(path: &String) -> (b: bool)
    ensures
        b == has_percent_h(path@),
{
    let v = chars_of(path.as_str());
    let mut i: usize = 0;
    while v.len() > 0 && i < v.len() - 1
        invariant
            i <= v@.len(),
            v@ == path@,
            forall|j: int| 0 <= j < i && j + 1 < v@.len() ==> !(#[trigger] v@[j] == '%' && v@[j + 1] == 'h'),
        decreases v.len() - i,
    {
        if v[i] == '%' && v[i + 1] == 'h' {
            return true;
        }
        i += 1;
    }
    false
}

/// `dir/name`.
fn join_path(dir: &String, name: &String) -> (r: String)
    ensures
        r@ == (if dir@.len() > 0 && dir@.last() == '/' {
            dir@ + name@
        } else {
            dir@ + seq!['/'] + name@
        }),
{
    let d = chars_of(dir.as_str());
    if d.len() > 0 && d[d.len() - 1] == '/' {
        concat(dir.as_str(), name.as_str())
    } else {
        let mut r = concat(dir.as_str(), "/");
        r.append(name.as_str());
        proof {
            reveal_strlit("/");
            assert(r@ =~= dir@ + seq!['/'] + name@);
        }
        r
    }
}

/// What an error says: in which file, where, and the message.
pub open spec fn error_view(e: Error) -> (Option<Seq<char>>, Option<Span>, Seq<char>) {
    (
        match e.source {
            Some(s) => Some(s@),
            None => None,
        },
        e.location,
        e.message@,
    )
}

pub open spec fn errors_view(v: Seq<Error>) -> Seq<(Option<Seq<char>>, Option<Span>, Seq<char>)> {
    v.map_values(|e: Error| error_view(e))
}

/// The spans of the tags without effect among the first `n` tags.
pub open spec fn ignored_in_mods(mods: Seq<ast::Modifier>, n: int) -> Seq<Span>
    decreases n,
{
    if n <= 0 {
        Seq::empty()
    } else {
        ignored_in_mods(mods, n - 1) + match mods[n - 1] {
            ast::Modifier::Ignored(span) => seq![span],
            _ => Seq::empty(),
        }
    }
}

/// The spans of the tags without effect of the first `n` commands of a line.
pub open spec fn ignored_in_line(rc: Seq<(Option<RunAs>, CommandSpec)>, n: int) -> Seq<Span>
    decreases n,
{
    if n <= 0 {
        Seq::empty()
    } else {
        ignored_in_line(rc, n - 1) + ignored_in_mods(rc[n - 1].1.0@, rc[n - 1].1.0@.len() as int)
    }
}

/// The spans of the tags without effect of the first `n` host entries of a rule.
pub open spec fn ignored_in_perms(perms: Seq<(SpecList<Hostname>, Vec<(Option<RunAs>, CommandSpec)>)>, n: int) -> Seq<Span>
    decreases n,
{
    if n <= 0 {
        Seq::empty()
    } else {
        ignored_in_perms(perms, n - 1) + ignored_in_line(perms[n - 1].1@, perms[n - 1].1@.len() as int)
    }
}

/// The warnings for tags without effect at `spans` in the file at `path`.
pub open spec fn ignored_warnings(path: Seq<char>, spans: Seq<Span>) -> Seq<(Option<Seq<char>>, Option<Span>, Seq<char>)> {
    spans.map_values(|s: Span| (Some(path), Some(s), "this tag is ignored by sudo-rs"@))
}

proof fn lemma_warnings_add(path: Seq<char>, a: Seq<Span>, b: Seq<Span>)
    ensures
        ignored_warnings(path, a + b) == ignored_warnings(path, a) + ignored_warnings(path, b),
{
    assert(ignored_warnings(path, a + b) =~= ignored_warnings(path, a) + ignored_warnings(path, b));
}

/// Record the spans of the tags that have no effect, as warnings, in order.
fn warn_ignored_tags(permission: &PermissionSpec, cur_path: &str, diagnostics: &mut Vec<Error>)
    ensures
        final(diagnostics)@.len() >= old(diagnostics)@.len(),
        errors_view(final(diagnostics)@) == errors_view(old(diagnostics)@) + ignored_warnings(
            cur_path@,
            ignored_in_perms(permission.permissions@, permission.permissions@.len() as int),
        ),
{
    let ghost path = cur_path@;
    let ghost start = errors_view(diagnostics@);
    let mut i: usize = 0;
    proof {
        assert(start + ignored_warnings(path, Seq::empty()) =~= start);
    }
    while i < permission.permissions.len()
        invariant
            i <= permission.permissions@.len(),
            path == cur_path@,
            start == errors_view(old(diagnostics)@),
            errors_view(diagnostics@) == start + ignored_warnings(path, ignored_in_perms(permission.permissions@, i as int)),
        decreases permission.permissions@.len() - i,
    {
        let runas_cmds = &permission.permissions[i].1;
        let ghost before_i = errors_view(diagnostics@);
        let mut j: usize = 0;
        proof {
            assert(before_i + ignored_warnings(path, Seq::empty()) =~= before_i);
        }
        while j < runas_cmds.len()
            invariant
                j <= runas_cmds@.len(),
                path == cur_path@,
                errors_view(diagnostics@) == before_i + ignored_warnings(path, ignored_in_line(runas_cmds@, j as int)),
            decreases runas_cmds@.len() - j,
        {
            let tags = &runas_cmds[j].1.0;
            let ghost before_j = errors_view(diagnostics@);
            let mut k: usize = 0;
            proof {
                assert(before_j + ignored_warnings(path, Seq::empty()) =~= before_j);
            }
            while k < tags.len()
                invariant
                    k <= tags@.len(),
                    path == cur_path@,
                    errors_view(diagnostics@) == before_j + ignored_warnings(path, ignored_in_mods(tags@, k as int)),
                decreases tags@.len() - k,
            {
                let ghost before_k = diagnostics@;
                if let ast::Modifier::Ignored(span) = &tags[k] {
                    let e = error_at(cur_path, *span, owned("this tag is ignored by sudo-rs"));
                    diagnostics.push(e);
                    proof {
                        assert(errors_view(diagnostics@) =~= errors_view(before_k).push(error_view(e)));
                    }
                }
                proof {
                    assert(ignored_in_mods(tags@, k + 1) =~= ignored_in_mods(tags@, k as int) + match tags@[k as int] {
                        ast::Modifier::Ignored(span) => seq![span],
                        _ => Seq::empty(),
                    });
                    lemma_warnings_add(path, ignored_in_mods(tags@, k as int), match tags@[k as int] {
                        ast::Modifier::Ignored(span) => seq![span],
                        _ => Seq::empty(),
                    });
                    assert(errors_view(diagnostics@) =~= before_j + ignored_warnings(path, ignored_in_mods(tags@, k + 1)));
                }
                k += 1;
            }
            proof {
                lemma_warnings_add(path, ignored_in_line(runas_cmds@, j as int), ignored_in_mods(tags@, tags@.len() as int));
                assert(errors_view(diagnostics@) =~= before_i + ignored_warnings(path, ignored_in_line(runas_cmds@, j + 1)));
            }
            j += 1;
        }
        proof {
            lemma_warnings_add(path, ignored_in_perms(permission.permissions@, i as int), ignored_in_line(runas_cmds@, runas_cmds@.len() as int));
            assert(errors_view(diagnostics@) =~= start + ignored_warnings(path, ignored_in_perms(permission.permissions@, i + 1)));
        }
        i += 1;
    }
    proof {
        assert(errors_view(diagnostics@).len() == diagnostics@.len());
        assert(errors_view(old(diagnostics)@).len() == old(diagnostics)@.len());
    }
}

/// A path in a directory.
pub open spec fn joined(dir: Seq<char>, name: Seq<char>) -> Seq<char> {
    if dir.len() > 0 && dir.last() == '/' {
        dir + name
    } else {
        dir + seq!['/'] + name
    }
}

/// The files of a directory that `@includedir` reads, given the names in it: the names
/// without a `.` and not ending in `~`, in order, joined to the directory.
pub fn included_files(dir: &String, names: &Vec<String>) -> (r: Vec<String>)
    ensures
        exists|s: Seq<Seq<char>>|
            #![trigger s.to_multiset()]
            (forall|i: int, j: int| 0 <= i < j < s.len() ==> lex_le(s[i], s[j])) && s.to_multiset()
                == name_views(names@).filter(|n: Seq<char>| safe_file_name(n)).to_multiset()
                && name_views(r@) == s.map_values(|n: Seq<char>| joined(dir@, n)),
{
    let mut safe: Vec<String> = Vec::new();
    let mut i: usize = 0;
    proof {
        reveal(Seq::filter);
        assert(name_views(names@).take(0).filter(|n: Seq<char>| safe_file_name(n)) =~= Seq::<Seq<char>>::empty());
        assert(name_views(safe@) =~= Seq::<Seq<char>>::empty());
    }
    while i < names.len()
        invariant
            i <= names@.len(),
            name_views(safe@) == name_views(names@).take(i as int).filter(|n: Seq<char>| safe_file_name(n)),
        decreases names@.len() - i,
    {
        let ghost before = safe@;
        proof {
            assert(name_views(names@).take(i + 1) =~= name_views(names@).take(i as int).push(names@[i as int]@));
            reveal(Seq::filter);
            assert(name_views(names@).take(i + 1).drop_last() =~= name_views(names@).take(i as int));
        }
        if is_safe_file_name(&names[i]) {
            safe.push(copy_string(&names[i]));
            proof {
                assert(name_views(safe@) =~= name_views(before).push(names@[i as int]@));
            }
        }
        i += 1;
    }
    proof {
        assert(name_views(names@).take(names@.len() as int) =~= name_views(names@));
    }
    let safe = sort_names(safe);
    let mut out: Vec<String> = Vec::new();
    let mut k: usize = 0;
    while k < safe.len()
        invariant
            k <= safe@.len(),
            name_views(out@) == name_views(safe@).take(k as int).map_values(|n: Seq<char>| joined(dir@, n)),
        decreases safe@.len() - k,
    {
        let ghost before = out@;
        let file = join_path(dir, &safe[k]);
        proof {
            assert(file@ == joined(dir@, safe@[k as int]@));
        }
        out.push(file);
        proof {
            let sv = name_views(safe@);
            assert(sv.take(k + 1) =~= sv.take(k as int).push(sv[k as int]));
            assert(sv.take(k + 1).map_values(|n: Seq<char>| joined(dir@, n)) =~= sv.take(k as int).map_values(|n: Seq<char>| joined(dir@, n)).push(joined(dir@, sv[k as int])));
            assert(name_views(out@) =~= name_views(before).push(file@));
        }
        k += 1;
    }
    proof {
        let sv = name_views(safe@);
        assert(sv.take(sv.len() as int) =~= sv);
        assert forall|i: int, j: int| 0 <= i < j < sv.len() implies lex_le(sv[i], sv[j]) by {
            assert(sorted_names(safe@));
        }
    }
    out
}

/// A request made of the source of included files: to read a file, or to list a directory.
pub enum Asked {
    File(Seq<char>),
    Dir(Seq<char>),
}

/// Ask the source for the lines of the file at `path`, noting the request.
fn ask_file<S: SudoersSource>(source: &mut S, path: &String, asked: &mut Ghost<Seq<Asked>>) -> (r: Result<Vec<Parsed<Sudo>>, OpenError>)
    ensures
        final(asked)@ == old(asked)@.push(Asked::File(path@)),
{
    proof {
        asked@ = asked@.push(Asked::File(path@));
    }
    source.open_subsudoers(path.as_str())
}

/// Ask the source for the names in the directory at `path`, noting the request.
fn ask_dir<S: SudoersSource>(source: &mut S, path: &String, asked: &mut Ghost<Seq<Asked>>) -> (r: Option<Vec<String>>)
    ensures
        final(asked)@ == old(asked)@.push(Asked::Dir(path@)),
{
    proof {
        asked@ = asked@.push(Asked::Dir(path@));
    }
    source.read_dir(path.as_str())
}

/// Read the included file at `path` and process its lines, unless too many files are
/// included already or it cannot be read.
pub fn include_file<S: SudoersSource>(
    cfg: &mut Sudoers,
    parent: &str,
    span: Span,
    path: &String,
    diagnostics: &mut Vec<Error>,
    count: &mut u8,
    source: &mut S,
    asked: &mut Ghost<Seq<Asked>>,
)
    requires
        *old(count) <= INCLUDE_LIMIT,
    ensures
        final(asked)@.len() >= old(asked)@.len(),
        final(asked)@.take(old(asked)@.len() as int) == old(asked)@,
        *old(count) >= INCLUDE_LIMIT ==> final(asked)@ == old(asked)@,
        *old(count) < INCLUDE_LIMIT ==> final(asked)@.len() > old(asked)@.len() && final(asked)@[old(
            asked,
        )@.len() as int] == Asked::File(path@),
        *old(count) <= *final(count) <= INCLUDE_LIMIT,
        final(diagnostics)@.len() >= old(diagnostics)@.len(),
        *old(count) >= INCLUDE_LIMIT ==> *final(count) == *old(count) && *final(cfg) == *old(cfg)
            && errors_view(final(diagnostics)@) == errors_view(old(diagnostics)@).push(
            (Some(parent@), Some(span), "include file limit reached opening '"@ + path@ + "'"@),
        ),
        *old(count) < INCLUDE_LIMIT ==> *final(count) > *old(count) || ({
            &&& *final(count) == *old(count)
            &&& *final(cfg) == *old(cfg)
            &&& final(diagnostics)@.len() == old(diagnostics)@.len() + 1
            &&& final(diagnostics)@.take(old(diagnostics)@.len() as int) == old(diagnostics)@
            &&& error_view(final(diagnostics)@.last()).0 == Some(parent@)
            &&& error_view(final(diagnostics)@.last()).1 == Some(span)
        }),
    decreases INCLUDE_LIMIT - *old(count), 0int,
{
    if *count >= INCLUDE_LIMIT {
        let mut msg = owned("include file limit reached opening '");
        msg.append(path.as_str());
        msg.append("'");
        let ghost before = diagnostics@;
        let e = error_at(parent, span, msg);
        diagnostics.push(e);
        proof {
            assert(errors_view(diagnostics@) =~= errors_view(before).push(error_view(e)));
            assert(asked@.take(asked@.len() as int) =~= asked@);
        }
    } else {
        let ghost a0 = asked@;
        let opened = ask_file(source, path, asked);
        let ghost a1 = asked@;
        proof {
            assert(a1.take(a0.len() as int) =~= a0);
        }
        match opened {
            Ok(lines) => {
                *count = *count + 1;
                process(cfg, path.as_str(), lines, diagnostics, count, source, asked);
                proof {
                    assert(asked@.take(a1.len() as int) == a1);
                    assert(asked@[a0.len() as int] == asked@.take(a1.len() as int)[a0.len() as int]);
                    assert(asked@.take(a0.len() as int) =~= a1.take(a0.len() as int));
                }
            },
            Err(OpenError::NotFound) => {
                let mut msg = owned("cannot open sudoers file '");
                msg.append(path.as_str());
                msg.append("'");
                let ghost before = diagnostics@;
                diagnostics.push(error_at(parent, span, msg));
                proof {
                    assert(diagnostics@.take(before.len() as int) =~= before);
                }
            },
            Err(OpenError::Other(msg)) => {
                let ghost before = diagnostics@;
                diagnostics.push(error_at(parent, span, msg));
                proof {
                    assert(diagnostics@.take(before.len() as int) =~= before);
                }
            },
        }
    }
}

/// The request that an include line of the file at `cur` makes first: the file or the
/// directory it names, taken relative to the directory of `cur`.
pub open spec fn ask_of(cur: Seq<char>, line: Parsed<Sudo>) -> Asked {
    match line {
        Ok(Sudo::IncludeDir(p, _)) => Asked::Dir(resolved(cur, p@)),
        Ok(Sudo::Include(p, _)) => Asked::File(resolved(cur, p@)),
        _ => Asked::File(Seq::empty()),
    }
}

/// The request that the first include line of the lines makes, if there is one.
pub open spec fn first_ask(cur: Seq<char>, lines: Seq<Parsed<Sudo>>) -> Option<Asked>
    decreases lines.len(),
{
    if lines.len() == 0 {
        None
    } else if is_include(lines[0]) {
        Some(ask_of(cur, lines[0]))
    } else {
        first_ask(cur, lines.drop_first())
    }
}

/// Take in the lines of the sudoers file at `cur_path`.
pub fn process<S: SudoersSource>(
    cfg: &mut Sudoers,
    cur_path: &str,
    lines: Vec<Parsed<Sudo>>,
    diagnostics: &mut Vec<Error>,
    count: &mut u8,
    source: &mut S,
    asked: &mut Ghost<Seq<Asked>>,
)
    requires
        *old(count) <= INCLUDE_LIMIT,
    ensures
        *old(count) <= *final(count) <= INCLUDE_LIMIT,
        final(asked)@.len() >= old(asked)@.len(),
        final(asked)@.take(old(asked)@.len() as int) == old(asked)@,
        no_includes(lines@) ==> final(asked)@ == old(asked)@,
        *old(count) < INCLUDE_LIMIT ==> (first_ask(cur_path@, lines@) matches Some(a) ==> final(asked)@.len()
            > old(asked)@.len() && final(asked)@[old(asked)@.len() as int] == a),
        final(diagnostics)@.len() >= old(diagnostics)@.len() + fatal_count(lines@),
        no_includes(lines@) ==> *final(count) == *old(count) && takes_lines(
            *old(cfg),
            *final(cfg),
            errors_view(old(diagnostics)@),
            errors_view(final(diagnostics)@),
            cur_path@,
            lines@,
        ),
    decreases INCLUDE_LIMIT - *old(count), 1int,
{
    let mut lines = lines;
    let ghost all = lines@;
    let ghost d0 = diagnostics@.len();
    let ghost c0 = *count;
    proof {
        assert(all.take(0) =~= Seq::<Parsed<Sudo>>::empty());
        assert(all.skip(0) =~= all);
        assert(old(cfg).rules@ + Seq::<PermissionSpec>::empty() =~= old(cfg).rules@);
        assert(old(cfg).aliases.user.1@ + Seq::<Def<UserSpecifier>>::empty() =~= old(cfg).aliases.user.1@);
        assert(old(cfg).aliases.host.1@ + Seq::<Def<Hostname>>::empty() =~= old(cfg).aliases.host.1@);
        assert(old(cfg).aliases.cmnd.1@ + Seq::<Def<Command>>::empty() =~= old(cfg).aliases.cmnd.1@);
        assert(old(cfg).aliases.runas.1@ + Seq::<Def<UserSpecifier>>::empty() =~= old(cfg).aliases.runas.1@);
        assert(old(cfg).customisers.cmnd@ + Seq::<(SpecList<SimpleCommand>, Vec<SettingsModifier>)>::empty()
            =~= old(cfg).customisers.cmnd@);
        assert(old(cfg).customisers.non_cmnd@ + Seq::<(ConfigScope, Vec<SettingsModifier>)>::empty()
            =~= old(cfg).customisers.non_cmnd@);
        assert(errors_view(old(diagnostics)@) + Seq::<(Option<Seq<char>>, Option<Span>, Seq<char>)>::empty()
            =~= errors_view(old(diagnostics)@));
    }
    proof {
        assert(old(asked)@.take(old(asked)@.len() as int) =~= old(asked)@);
    }
    let mut taken: usize = 0;
    let total = lines.len();
    assert(all.len() == total);
    while lines.len() > 0
        invariant
            c0 <= *count <= INCLUDE_LIMIT,
            c0 == *old(count),
            d0 == old(diagnostics)@.len(),
            all.len() <= usize::MAX,
            taken <= all.len(),
            lines@ == all.skip(taken as int),
            diagnostics@.len() >= d0 + fatal_count(all.take(taken as int)),
            asked@.len() >= old(asked)@.len(),
            asked@.take(old(asked)@.len() as int) == old(asked)@,
            (forall|i: int| 0 <= i < taken ==> !is_include(#[trigger] all[i])) ==> asked@ == old(asked)@
                && *count == c0 && first_ask(cur_path@, all) == first_ask(cur_path@, all.skip(taken as int)),
            c0 < INCLUDE_LIMIT && (exists|i: int| 0 <= i < taken && is_include(#[trigger] all[i])) ==> (
            first_ask(cur_path@, all) matches Some(a) ==> asked@.len() > old(asked)@.len() && asked@[old(
                asked,
            )@.len() as int] == a),
            no_includes(all) ==> *count == c0 && takes_lines(
                *old(cfg),
                *cfg,
                errors_view(old(diagnostics)@),
                errors_view(diagnostics@),
                cur_path@,
                all.take(taken as int),
            ),
        decreases lines@.len(),
    {
        let ghost cfg_before = *cfg;
        let ghost diags_before = diagnostics@;
        let ghost asked_before = asked@;
        let ghost count_before = *count;
        let ghost prev = all.take(taken as int);
        let item = lines.remove(0);
        let ghost item_g = item;
        proof {
            assert(all.skip(taken as int)[0] == item);
            assert(all.skip(taken as int).drop_first() =~= all.skip(taken + 1));
            assert(all.take(taken + 1) =~= all.take(taken as int).push(item));
            lemma_fatal_count_push(all.take(taken as int), item);
        }
        taken = taken + 1;
        let ghost before = diagnostics@.len();
        match item {
            Ok(Sudo::LineComment) => {},
            Ok(Sudo::Spec(permission)) => {
                warn_ignored_tags(&permission, cur_path, diagnostics);
                cfg.rules.push(permission);
            },
            Ok(Sudo::Decl(Directive::HostAlias(def))) => {
                let mut def = def;
                cfg.aliases.host.1.append(&mut def);
            },
            Ok(Sudo::Decl(Directive::UserAlias(def))) => {
                let mut def = def;
                cfg.aliases.user.1.append(&mut def);
            },
            Ok(Sudo::Decl(Directive::RunasAlias(def))) => {
                let mut def = def;
                cfg.aliases.runas.1.append(&mut def);
            },
            Ok(Sudo::Decl(Directive::CmndAlias(def))) => {
                let mut def = def;
                cfg.aliases.cmnd.1.append(&mut def);
            },
            Ok(Sudo::Decl(Directive::Defaults(params, scope))) => {
                match scope {
                    ConfigScope::Command(specs) => cfg.customisers.cmnd.push((specs, params)),
                    scope => cfg.customisers.non_cmnd.push((scope, params)),
                }
            },
            Ok(Sudo::Include(path, span)) => {
                let target = resolve_relative(cur_path, path.as_str());
                include_file(cfg, cur_path, span, &target, diagnostics, count, source, asked);
            },
            Ok(Sudo::IncludeDir(path, span)) => {
                if contains_percent_h(&path) {
                    let mut msg = owned("cannot open sudoers file ");
                    msg.append(path.as_str());
                    msg.append(": percent escape %h in includedir is unsupported");
                    diagnostics.push(error_at(cur_path, span, msg));
                    proof {
                        assert(errors_view(diagnostics@) =~= errors_view(diags_before) + line_errors(cur_path@, item_g));
                    }
                } else {
                    let dir = resolve_relative(cur_path, path.as_str());
                    let listed = ask_dir(source, &dir, asked);
                    let ghost a_dir = asked@;
                    proof {
                        assert(a_dir.take(asked_before.len() as int) =~= asked_before);
                    }
                    match listed {
                        None => {
                            let mut msg = owned("cannot open sudoers file ");
                            msg.append(dir.as_str());
                            diagnostics.push(error_at(cur_path, span, msg));
                        },
                        Some(names) => {
                            let files = included_files(&dir, &names);
                            let ghost a1 = asked@;
                            let mut k: usize = 0;
                            while k < files.len()
                                invariant
                                    c0 <= *count <= INCLUDE_LIMIT,
                                    c0 == *old(count),
                                    diagnostics@.len() >= before,
                                    asked@.len() >= a1.len(),
                                    asked@.take(a1.len() as int) == a1,
                                decreases files@.len() - k,
                            {
                                let ghost a2 = asked@;
                                include_file(cfg, cur_path, span, &files[k], diagnostics, count, source, asked);
                                proof {
                                    assert(asked@.take(a1.len() as int) =~= asked@.take(a2.len() as int).take(a1.len() as int));
                                }
                                k += 1;
                            }
                            proof {
                                assert(asked@.take(asked_before.len() as int) =~= asked@.take(a1.len() as int).take(asked_before.len() as int));
                                assert(asked@[asked_before.len() as int] == asked@.take(a1.len() as int)[asked_before.len() as int]);
                            }
                        },
                    }
                }
            },
            Err(Status::Fatal(pos, message)) => {
                diagnostics.push(error_at(cur_path, pos, message));
                proof {
                    assert(errors_view(diagnostics@) =~= errors_view(diags_before) + line_errors(cur_path@, item_g));
                }
            },
            Err(Status::Reject) => {
                diagnostics.push(
                    Error {
                        source: Some(owned(cur_path)),
                        location: None,
                        message: owned("internal parser error"),
                    },
                );
                proof {
                    assert(errors_view(diagnostics@) =~= errors_view(diags_before) + line_errors(cur_path@, item_g));
                }
            },
        }
        proof {
            if no_includes(all) {
                assert(item_g == all[taken - 1]);
                assert(!is_include(item_g));
                assert(all.take(taken as int) =~= prev.push(item_g));
                lemma_gather_push(prev, item_g, rules_fn());
                lemma_gather_push(prev, item_g, user_aliases_fn());
                lemma_gather_push(prev, item_g, host_aliases_fn());
                lemma_gather_push(prev, item_g, cmnd_aliases_fn());
                lemma_gather_push(prev, item_g, runas_aliases_fn());
                lemma_gather_push(prev, item_g, cmnd_defaults_fn());
                lemma_gather_push(prev, item_g, other_defaults_fn());
                lemma_gather_push(prev, item_g, errors_fn(cur_path@));
                if !(item_g is Ok && (item_g->Ok_0 is Spec || item_g->Ok_0 is IncludeDir)) && !(item_g is Err) {
                    assert(errors_view(diagnostics@) =~= errors_view(diags_before) + line_errors(cur_path@, item_g));
                }
                assert(errors_view(diagnostics@) =~= errors_view(diags_before) + line_errors(cur_path@, item_g));
                assert(cfg.rules@ =~= cfg_before.rules@ + line_rules(item_g));
                assert(cfg.aliases.user.1@ =~= cfg_before.aliases.user.1@ + line_user_aliases(item_g));
                assert(cfg.aliases.host.1@ =~= cfg_before.aliases.host.1@ + line_host_aliases(item_g));
                assert(cfg.aliases.cmnd.1@ =~= cfg_before.aliases.cmnd.1@ + line_cmnd_aliases(item_g));
                assert(cfg.aliases.runas.1@ =~= cfg_before.aliases.runas.1@ + line_runas_aliases(item_g));
                assert(cfg.customisers.cmnd@ =~= cfg_before.customisers.cmnd@ + line_cmnd_defaults(item_g));
                assert(cfg.customisers.non_cmnd@ =~= cfg_before.customisers.non_cmnd@ + line_other_defaults(item_g));
                assert(cfg.rules@ =~= old(cfg).rules@ + gather(all.take(taken as int), rules_fn()));
                assert(cfg.aliases.user.1@ =~= old(cfg).aliases.user.1@ + gather(all.take(taken as int), user_aliases_fn()));
                assert(cfg.aliases.host.1@ =~= old(cfg).aliases.host.1@ + gather(all.take(taken as int), host_aliases_fn()));
                assert(cfg.aliases.cmnd.1@ =~= old(cfg).aliases.cmnd.1@ + gather(all.take(taken as int), cmnd_aliases_fn()));
                assert(cfg.aliases.runas.1@ =~= old(cfg).aliases.runas.1@ + gather(all.take(taken as int), runas_aliases_fn()));
                assert(cfg.customisers.cmnd@ =~= old(cfg).customisers.cmnd@ + gather(all.take(taken as int), cmnd_defaults_fn()));
                assert(cfg.customisers.non_cmnd@ =~= old(cfg).customisers.non_cmnd@ + gather(all.take(taken as int), other_defaults_fn()));
                assert(errors_view(diagnostics@) =~= errors_view(old(diagnostics)@) + gather(all.take(taken as int), errors_fn(cur_path@)));
            }
        }
        proof {
            if asked@ == asked_before {
                assert(asked@.take(asked_before.len() as int) =~= asked_before);
            }
            assert(item_g == all[taken - 1]);
            let t0 = (taken - 1) as int;
            assert(asked@.take(old(asked)@.len() as int) =~= asked@.take(asked_before.len() as int).take(old(asked)@.len() as int));
            if asked_before.len() > old(asked)@.len() {
                assert(asked@[old(asked)@.len() as int] == asked@.take(asked_before.len() as int)[old(asked)@.len() as int]);
            }
            if forall|i: int| 0 <= i < t0 ==> !is_include(#[trigger] all[i]) {
                assert(all.skip(t0)[0] == item_g);
                assert(all.skip(t0).drop_first() =~= all.skip(taken as int));
                if !is_include(item_g) {
                    assert forall|i: int| 0 <= i < taken implies !is_include(#[trigger] all[i]) by {
                        if i == t0 {
                            assert(all[i] == item_g);
                        }
                    }
                } else {
                    assert(first_ask(cur_path@, all) == Some(ask_of(cur_path@, item_g)));
                }
            }
        }
    }
    proof {
        assert(all.take(all.len() as int) =~= all);
    }
}

/// What each line gives, put together in the order of the lines.
pub open spec fn gather<A>(lines: Seq<Parsed<Sudo>>, f: spec_fn(Parsed<Sudo>) -> Seq<A>) -> Seq<A>
    decreases lines.len(),
{
    if lines.len() == 0 {
        Seq::empty()
    } else {
        gather(lines.drop_last(), f) + f(lines.last())
    }
}

proof fn lemma_gather_push<A>(lines: Seq<Parsed<Sudo>>, item: Parsed<Sudo>, f: spec_fn(Parsed<Sudo>) -> Seq<A>)
    ensures
        gather(lines.push(item), f) == gather(lines, f) + f(item),
{
    assert(lines.push(item).drop_last() =~= lines);
}

/// The permission rule of a line.
pub open spec fn line_rules(item: Parsed<Sudo>) -> Seq<PermissionSpec> {
    match item {
        Ok(Sudo::Spec(p)) => seq![p],
        _ => Seq::empty(),
    }
}

/// The user aliases that a line defines.
pub open spec fn line_user_aliases(item: Parsed<Sudo>) -> Seq<Def<UserSpecifier>> {
    match item {
        Ok(Sudo::Decl(Directive::UserAlias(d))) => d@,
        _ => Seq::empty(),
    }
}

/// The host aliases that a line defines.
pub open spec fn line_host_aliases(item: Parsed<Sudo>) -> Seq<Def<Hostname>> {
    match item {
        Ok(Sudo::Decl(Directive::HostAlias(d))) => d@,
        _ => Seq::empty(),
    }
}

/// The command aliases that a line defines.
pub open spec fn line_cmnd_aliases(item: Parsed<Sudo>) -> Seq<Def<Command>> {
    match item {
        Ok(Sudo::Decl(Directive::CmndAlias(d))) => d@,
        _ => Seq::empty(),
    }
}

/// The runas aliases that a line defines.
pub open spec fn line_runas_aliases(item: Parsed<Sudo>) -> Seq<Def<UserSpecifier>> {
    match item {
        Ok(Sudo::Decl(Directive::RunasAlias(d))) => d@,
        _ => Seq::empty(),
    }
}

/// The `Defaults!` line for commands that a line is.
pub open spec fn line_cmnd_defaults(item: Parsed<Sudo>) -> Seq<(SpecList<SimpleCommand>, Vec<SettingsModifier>)> {
    match item {
        Ok(Sudo::Decl(Directive::Defaults(params, ConfigScope::Command(specs)))) => seq![(specs, params)],
        _ => Seq::empty(),
    }
}

/// The other `Defaults` line that a line is.
pub open spec fn line_other_defaults(item: Parsed<Sudo>) -> Seq<(ConfigScope, Vec<SettingsModifier>)> {
    match item {
        Ok(Sudo::Decl(Directive::Defaults(params, scope))) => if scope is Command {
            Seq::empty()
        } else {
            seq![(scope, params)]
        },
        _ => Seq::empty(),
    }
}

/// The message for an `@includedir` path with a `%h` escape.
pub open spec fn percent_h_message(path: Seq<char>) -> Seq<char> {
    "cannot open sudoers file "@ + path + ": percent escape %h in includedir is unsupported"@
}

/// What a line of the file at `path` reports, includes aside: the tags without effect of a
/// rule, an `@includedir` path with a `%h` escape, a parse error.
pub open spec fn line_errors(path: Seq<char>, item: Parsed<Sudo>) -> Seq<(Option<Seq<char>>, Option<Span>, Seq<char>)> {
    match item {
        Ok(Sudo::Spec(p)) => ignored_warnings(path, ignored_in_perms(p.permissions@, p.permissions@.len() as int)),
        Ok(Sudo::IncludeDir(dir, span)) => if has_percent_h(dir@) {
            seq![(Some(path), Some(span), percent_h_message(dir@))]
        } else {
            Seq::empty()
        },
        Err(Status::Fatal(pos, message)) => seq![(Some(path), Some(pos), message@)],
        Err(Status::Reject) => seq![(Some(path), None, "internal parser error"@)],
        _ => Seq::empty(),
    }
}

/// The line reads another file: an `@include`, or an `@includedir` without `%h`.
pub open spec fn is_include(item: Parsed<Sudo>) -> bool {
    ||| item matches Ok(Sudo::Include(_, _))
    ||| item matches Ok(Sudo::IncludeDir(dir, _)) && !has_percent_h(dir@)
}

/// No line reads another file.
pub open spec fn no_includes(lines: Seq<Parsed<Sudo>>) -> bool {
    forall|i: int| 0 <= i < lines.len() ==> !is_include(#[trigger] lines[i])
}

pub open spec fn rules_fn() -> spec_fn(Parsed<Sudo>) -> Seq<PermissionSpec> {
    |l: Parsed<Sudo>| line_rules(l)
}

pub open spec fn user_aliases_fn() -> spec_fn(Parsed<Sudo>) -> Seq<Def<UserSpecifier>> {
    |l: Parsed<Sudo>| line_user_aliases(l)
}

pub open spec fn host_aliases_fn() -> spec_fn(Parsed<Sudo>) -> Seq<Def<Hostname>> {
    |l: Parsed<Sudo>| line_host_aliases(l)
}

pub open spec fn cmnd_aliases_fn() -> spec_fn(Parsed<Sudo>) -> Seq<Def<Command>> {
    |l: Parsed<Sudo>| line_cmnd_aliases(l)
}

pub open spec fn runas_aliases_fn() -> spec_fn(Parsed<Sudo>) -> Seq<Def<UserSpecifier>> {
    |l: Parsed<Sudo>| line_runas_aliases(l)
}

pub open spec fn cmnd_defaults_fn() -> spec_fn(Parsed<Sudo>) -> Seq<(SpecList<SimpleCommand>, Vec<SettingsModifier>)> {
    |l: Parsed<Sudo>| line_cmnd_defaults(l)
}

pub open spec fn other_defaults_fn() -> spec_fn(Parsed<Sudo>) -> Seq<(ConfigScope, Vec<SettingsModifier>)> {
    |l: Parsed<Sudo>| line_other_defaults(l)
}

pub open spec fn errors_fn(path: Seq<char>) -> spec_fn(Parsed<Sudo>) -> Seq<(Option<Seq<char>>, Option<Span>, Seq<char>)> {
    |l: Parsed<Sudo>| line_errors(path, l)
}

/// What the lines of a file that reads no other file contribute: the lines' rules, aliases
/// and `Defaults`, in order, appended to those of `before`, and their reports appended to
/// `errors_before`; the settings stay.
pub open spec fn takes_lines(
    before: Sudoers,
    after: Sudoers,
    errors_before: Seq<(Option<Seq<char>>, Option<Span>, Seq<char>)>,
    errors_after: Seq<(Option<Seq<char>>, Option<Span>, Seq<char>)>,
    path: Seq<char>,
    lines: Seq<Parsed<Sudo>>,
) -> bool {
    &&& after.rules@ == before.rules@ + gather(lines, rules_fn())
    &&& after.aliases.user.1@ == before.aliases.user.1@ + gather(lines, user_aliases_fn())
    &&& after.aliases.host.1@ == before.aliases.host.1@ + gather(lines, host_aliases_fn())
    &&& after.aliases.cmnd.1@ == before.aliases.cmnd.1@ + gather(lines, cmnd_aliases_fn())
    &&& after.aliases.runas.1@ == before.aliases.runas.1@ + gather(lines, runas_aliases_fn())
    &&& after.customisers.cmnd@ == before.customisers.cmnd@ + gather(lines, cmnd_defaults_fn())
    &&& after.customisers.non_cmnd@ == before.customisers.non_cmnd@ + gather(lines, other_defaults_fn())
    &&& after.settings == before.settings
    &&& errors_after == errors_before + gather(lines, errors_fn(path))
}

/// The number of lines that hold a parse error.
pub open spec fn fatal_count(lines: Seq<Parsed<Sudo>>) -> nat
    decreases lines.len(),
{
    if lines.len() == 0 {
        0
    } else {
        fatal_count(lines.drop_last()) + if lines.last() is Err {
            1nat
        } else {
            0nat
        }
    }
}

proof fn lemma_fatal_count_push(lines: Seq<Parsed<Sudo>>, item: Parsed<Sudo>)
    ensures
        fatal_count(lines.push(item)) == fatal_count(lines) + if item is Err {
            1nat
        } else {
            0nat
        },
{
    assert(lines.push(item).drop_last() =~= lines);
}

/// The aliases of each kind are in an order where every alias is defined before it is used.
pub open spec fn aliases_ordered(a: AliasTable) -> bool {
    &&& no_forward_refs(a.user.1@, a.user.0@)
    &&& no_forward_refs(a.host.1@, a.host.0@)
    &&& no_forward_refs(a.cmnd.1@, a.cmnd.0@)
    &&& no_forward_refs(a.runas.1@, a.runas.0@)
}

/// The aliases of some kind have a fault: a name defined twice, an undefined alias or a cycle.
pub open spec fn aliases_faulty(a: AliasTable) -> bool {
    ||| alias_fault(a.user.1@)
    ||| alias_fault(a.host.1@)
    ||| alias_fault(a.cmnd.1@)
    ||| alias_fault(a.runas.1@)
}

/// Analyse the parsed lines of the sudoers file at `path`: collect its rules, aliases and
/// `Defaults` lines, read the files it includes from `source`, and put the aliases in order.
/// Every line with a parse error is reported, and when nothing at all is reported, every
/// alias is defined before it is used. For a file that includes no other, the rules,
/// aliases and `Defaults` are those of its lines in order, the reports are those of its lines
/// followed by the complaints about the aliases, and there are such complaints exactly when
/// the aliases of some kind have a fault.
/// The requests made of the source come third: the first is the one that the first include
/// line makes (its file or directory, taken relative to the directory of `path`), and a file
/// that includes nothing makes none.
pub fn analyze_traced<S: SudoersSource>(path: &str, sudoers: Vec<Parsed<Sudo>>, source: &mut S) -> (r: (
    Sudoers,
    Vec<Error>,
    Ghost<Seq<Asked>>,
))
    ensures
        r.1@.len() >= fatal_count(sudoers@),
        r.1@.len() == 0 ==> aliases_ordered(r.0.aliases),
        no_includes(sudoers@) ==> {
            let lines = sudoers@;
            let reported = gather(lines, errors_fn(path@));
            &&& r.0.rules@ == gather(lines, rules_fn())
            &&& r.0.aliases.user.1@ == gather(lines, user_aliases_fn())
            &&& r.0.aliases.host.1@ == gather(lines, host_aliases_fn())
            &&& r.0.aliases.cmnd.1@ == gather(lines, cmnd_aliases_fn())
            &&& r.0.aliases.runas.1@ == gather(lines, runas_aliases_fn())
            &&& r.0.customisers.cmnd@ == gather(lines, cmnd_defaults_fn())
            &&& r.0.customisers.non_cmnd@ == gather(lines, other_defaults_fn())
            &&& r.1@.len() >= reported.len()
            &&& errors_view(r.1@).take(reported.len() as int) == reported
            &&& forall|j: int| reported.len() <= j < r.1@.len() ==> alias_diagnostic(#[trigger] r.1@[j])
            &&& (r.1@.len() > reported.len() <==> aliases_faulty(r.0.aliases))
        },
        no_includes(sudoers@) ==> r.2@ == Seq::<Asked>::empty(),
        first_ask(path@, sudoers@) matches Some(a) ==> r.2@.len() > 0 && r.2@[0] == a,
{
    let mut result = Sudoers::empty();
    let mut diagnostics: Vec<Error> = Vec::new();
    let mut count: u8 = 0;
    let ghost empty = result;
    let mut asked: Ghost<Seq<Asked>> = Ghost(Seq::empty());
    process(&mut result, path, sudoers, &mut diagnostics, &mut count, source, &mut asked);
    let ghost d1 = diagnostics@;
    let user = sanitize_alias_table(&result.aliases.user.1, &mut diagnostics);
    let ghost d2 = diagnostics@;
    let host = sanitize_alias_table(&result.aliases.host.1, &mut diagnostics);
    let ghost d3 = diagnostics@;
    let cmnd = sanitize_alias_table(&result.aliases.cmnd.1, &mut diagnostics);
    let ghost d4 = diagnostics@;
    let runas = sanitize_alias_table(&result.aliases.runas.1, &mut diagnostics);
    let ghost d5 = diagnostics@;
    result.aliases.user.0 = user;
    result.aliases.host.0 = host;
    result.aliases.cmnd.0 = cmnd;
    result.aliases.runas.0 = runas;
    proof {
        lemma_grows_trans(d1, d2, d3);
        lemma_grows_trans(d1, d3, d4);
        lemma_grows_trans(d1, d4, d5);
        if no_includes(sudoers@) {
            let reported = gather(sudoers@, errors_fn(path@));
            assert(Seq::<Error>::empty().map_values(|e: Error| error_view(e)) =~= Seq::<(Option<Seq<char>>, Option<Span>, Seq<char>)>::empty());
            assert(errors_view(d1) =~= reported);
            assert(empty.rules@ + gather(sudoers@, rules_fn()) =~= gather(sudoers@, rules_fn()));
            assert(empty.aliases.user.1@ + gather(sudoers@, user_aliases_fn()) =~= gather(sudoers@, user_aliases_fn()));
            assert(empty.aliases.host.1@ + gather(sudoers@, host_aliases_fn()) =~= gather(sudoers@, host_aliases_fn()));
            assert(empty.aliases.cmnd.1@ + gather(sudoers@, cmnd_aliases_fn()) =~= gather(sudoers@, cmnd_aliases_fn()));
            assert(empty.aliases.runas.1@ + gather(sudoers@, runas_aliases_fn()) =~= gather(sudoers@, runas_aliases_fn()));
            assert(empty.customisers.cmnd@ + gather(sudoers@, cmnd_defaults_fn()) =~= gather(sudoers@, cmnd_defaults_fn()));
            assert(empty.customisers.non_cmnd@ + gather(sudoers@, other_defaults_fn()) =~= gather(sudoers@, other_defaults_fn()));
            assert(d5.len() >= d1.len());
            assert(errors_view(d5).take(d1.len() as int) =~= errors_view(d1)) by {
                assert(d5.subrange(0, d1.len() as int) == d1);
                assert forall|j: int| 0 <= j < d1.len() implies errors_view(d5).take(d1.len() as int)[j]
                    == errors_view(d1)[j] by {
                    assert(d5.subrange(0, d1.len() as int)[j] == d5[j]);
                }
            }
        }
    }
    (result, diagnostics, asked)
}



/// Analyse the parsed lines of the sudoers file at `path`: collect its rules, aliases and
/// `Defaults` lines, read the files it includes from `source`, and put the aliases in order.
/// Every line with a parse error is reported, and when nothing at all is reported, every
/// alias is defined before it is used. For a file that includes no other, the rules,
/// aliases and `Defaults` are those of its lines in order, the reports are those of its lines
/// followed by the complaints about the aliases, and there are such complaints exactly when
/// the aliases of some kind have a fault.
pub fn analyze<S: SudoersSource>(path: &str, sudoers: Vec<Parsed<Sudo>>, source: &mut S) -> (r: (
    Sudoers,
    Vec<Error>,
))
    ensures
        r.1@.len() >= fatal_count(sudoers@),
        r.1@.len() == 0 ==> aliases_ordered(r.0.aliases),
        no_includes(sudoers@) ==> {
            let lines = sudoers@;
            let reported = gather(lines, errors_fn(path@));
            &&& r.0.rules@ == gather(lines, rules_fn())
            &&& r.0.aliases.user.1@ == gather(lines, user_aliases_fn())
            &&& r.0.aliases.host.1@ == gather(lines, host_aliases_fn())
            &&& r.0.aliases.cmnd.1@ == gather(lines, cmnd_aliases_fn())
            &&& r.0.aliases.runas.1@ == gather(lines, runas_aliases_fn())
            &&& r.0.customisers.cmnd@ == gather(lines, cmnd_defaults_fn())
            &&& r.0.customisers.non_cmnd@ == gather(lines, other_defaults_fn())
            &&& r.1@.len() >= reported.len()
            &&& errors_view(r.1@).take(reported.len() as int) == reported
            &&& forall|j: int| reported.len() <= j < r.1@.len() ==> alias_diagnostic(#[trigger] r.1@[j])
            &&& (r.1@.len() > reported.len() <==> aliases_faulty(r.0.aliases))
        },
{
    let (cfg, diagnostics, _) = analyze_traced(path, sudoers, source);
    (cfg, diagnostics)
}

// ---------------------------------------------------------------------------------------------
// Checking permissions
// ---------------------------------------------------------------------------------------------

/// What the user asks to do: run `command` with `arguments` as `user` and `group`.
pub struct Request<'a, U, G> {
    pub user: &'a U,
    pub group: &'a G,
    pub command: &'a str,
    pub arguments: &'a Vec<String>,
}

/// Which items of each definition match the user.
pub open spec fn user_def_flag_seqs<U: UnixUser>(defs: Seq<Def<UserSpecifier>>, user: U) -> Seq<
    Seq<bool>,
> {
    Seq::new(defs.len(), |i: int| user_flag_seq(defs[i].1@, user))
}

/// Which items of each runas definition name the group.
pub open spec fn group_def_flag_seqs<G: UnixGroup>(defs: Seq<Def<UserSpecifier>>, group: G) -> Seq<
    Seq<bool>,
> {
    Seq::new(defs.len(), |i: int| group_alias_flag_seq(defs[i].1@, group))
}

/// Which items of a host list are the host.
pub open spec fn host_flag_seq(items: Seq<Spec<Hostname>>, host: Seq<char>) -> Seq<bool> {
    Seq::new(items.len(), |j: int| host_matches(items[j], host))
}

/// Which items of each host definition are the host.
pub open spec fn host_def_flag_seqs(defs: Seq<Def<Hostname>>, host: Seq<char>) -> Seq<Seq<bool>> {
    Seq::new(defs.len(), |i: int| host_flag_seq(defs[i].1@, host))
}

/// Which items of a command list match the command line.
pub open spec fn cmd_flag_seq(items: Seq<Spec<Command>>, path: Seq<char>, args: Seq<Seq<char>>) -> Seq<
    bool,
> {
    Seq::new(items.len(), |j: int| item_flag(items[j], |c: Command| command_matches(c, path, args)))
}

/// Which items of each command definition match the command line.
pub open spec fn cmd_def_flag_seqs(defs: Seq<Def<Command>>, path: Seq<char>, args: Seq<Seq<char>>) -> Seq<
    Seq<bool>,
> {
    Seq::new(defs.len(), |i: int| cmd_flag_seq(defs[i].1@, path, args))
}

fn user_def_flags<U: UnixUser>(defs: &Vec<Def<UserSpecifier>>, user: &U) -> (r: Vec<Vec<bool>>)
    ensures
        r@.len() == defs@.len(),
        forall|i: int| 0 <= i < defs@.len() ==> #[trigger] r@[i]@.len() == defs@[i].1@.len(),
        flag_views(r@) == user_def_flag_seqs(defs@, *user),
{
    let mut r: Vec<Vec<bool>> = Vec::new();
    let mut i: usize = 0;
    while i < defs.len()
        invariant
            i <= defs@.len(),
            r@.len() == i,
            forall|j: int| 0 <= j < i ==> #[trigger] r@[j]@.len() == defs@[j].1@.len(),
            flag_views(r@) == user_def_flag_seqs(defs@, *user).take(i as int),
        decreases defs.len() - i,
    {
        r.push(user_flags(&defs[i].1, user));
        proof {
            assert(flag_views(r@) =~= user_def_flag_seqs(defs@, *user).take(i + 1));
        }
        i += 1;
    }
    proof {
        assert(user_def_flag_seqs(defs@, *user).take(defs@.len() as int) =~= user_def_flag_seqs(defs@, *user));
    }
    r
}

fn group_def_flags<G: UnixGroup>(defs: &Vec<Def<UserSpecifier>>, group: &G) -> (r: Vec<Vec<bool>>)
    ensures
        r@.len() == defs@.len(),
        forall|i: int| 0 <= i < defs@.len() ==> #[trigger] r@[i]@.len() == defs@[i].1@.len(),
        flag_views(r@) == group_def_flag_seqs(defs@, *group),
{
    let mut r: Vec<Vec<bool>> = Vec::new();
    let mut i: usize = 0;
    while i < defs.len()
        invariant
            i <= defs@.len(),
            r@.len() == i,
            forall|j: int| 0 <= j < i ==> #[trigger] r@[j]@.len() == defs@[j].1@.len(),
            flag_views(r@) == group_def_flag_seqs(defs@, *group).take(i as int),
        decreases defs.len() - i,
    {
        r.push(group_alias_flags(&defs[i].1, group));
        proof {
            assert(flag_views(r@) =~= group_def_flag_seqs(defs@, *group).take(i + 1));
        }
        i += 1;
    }
    proof {
        assert(group_def_flag_seqs(defs@, *group).take(defs@.len() as int) =~= group_def_flag_seqs(defs@, *group));
    }
    r
}

fn host_def_flags(defs: &Vec<Def<Hostname>>, host: &str) -> (r: Vec<Vec<bool>>)
    ensures
        r@.len() == defs@.len(),
        forall|i: int| 0 <= i < defs@.len() ==> #[trigger] r@[i]@.len() == defs@[i].1@.len(),
        flag_views(r@) == host_def_flag_seqs(defs@, host@),
{
    let mut r: Vec<Vec<bool>> = Vec::new();
    let mut i: usize = 0;
    while i < defs.len()
        invariant
            i <= defs@.len(),
            r@.len() == i,
            forall|j: int| 0 <= j < i ==> #[trigger] r@[j]@.len() == defs@[j].1@.len(),
            flag_views(r@) == host_def_flag_seqs(defs@, host@).take(i as int),
        decreases defs.len() - i,
    {
        let f = host_flags(&defs[i].1, host);
        proof {
            assert(f@ =~= host_flag_seq(defs@[i as int].1@, host@));
        }
        r.push(f);
        proof {
            assert(flag_views(r@) =~= host_def_flag_seqs(defs@, host@).take(i + 1));
        }
        i += 1;
    }
    proof {
        assert(host_def_flag_seqs(defs@, host@).take(defs@.len() as int) =~= host_def_flag_seqs(defs@, host@));
    }
    r
}

fn command_def_flags(defs: &Vec<Def<Command>>, path: &str, args: &Vec<String>) -> (r: Vec<
    Vec<bool>,
>)
    ensures
        r@.len() == defs@.len(),
        forall|i: int| 0 <= i < defs@.len() ==> #[trigger] r@[i]@.len() == defs@[i].1@.len(),
        flag_views(r@) == cmd_def_flag_seqs(defs@, path@, args@.map_values(|x: String| x@)),
{
    let ghost av = args@.map_values(|x: String| x@);
    let mut r: Vec<Vec<bool>> = Vec::new();
    let mut i: usize = 0;
    while i < defs.len()
        invariant
            i <= defs@.len(),
            r@.len() == i,
            av == args@.map_values(|x: String| x@),
            forall|j: int| 0 <= j < i ==> #[trigger] r@[j]@.len() == defs@[j].1@.len(),
            flag_views(r@) == cmd_def_flag_seqs(defs@, path@, av).take(i as int),
        decreases defs.len() - i,
    {
        let f = command_flags(&defs[i].1, path, args);
        proof {
            assert(f@ =~= cmd_flag_seq(defs@[i as int].1@, path@, av));
        }
        r.push(f);
        proof {
            assert(flag_views(r@) =~= cmd_def_flag_seqs(defs@, path@, av).take(i + 1));
        }
        i += 1;
    }
    proof {
        assert(cmd_def_flag_seqs(defs@, path@, av).take(defs@.len() as int) =~= cmd_def_flag_seqs(defs@, path@, av));
    }
    r
}

fn clone_tag(t: &Tag) -> (r: Tag)
    ensures
        r.authenticate == t.authenticate,
        r.env == t.env,
        r.noexec == t.noexec,
        r.ignored@ == t.ignored@,
        match t.cwd {
            Some(c) => r.cwd matches Some(x) && x.model() == c.model(),
            None => r.cwd is None,
        },
        match t.apparmor_profile {
            Some(p) => r.apparmor_profile matches Some(x) && x@ == p@,
            None => r.apparmor_profile is None,
        },
{
    let mut ignored: Vec<Span> = Vec::new();
    let mut i: usize = 0;
    while i < t.ignored.len()
        invariant
            i <= t.ignored@.len(),
            ignored@ == t.ignored@.take(i as int),
        decreases t.ignored@.len() - i,
    {
        ignored.push(t.ignored[i]);
        i += 1;
        proof {
            assert(ignored@ =~= t.ignored@.take(i as int));
        }
    }
    proof {
        assert(t.ignored@.take(t.ignored@.len() as int) =~= t.ignored@);
    }
    Tag {
        authenticate: t.authenticate,
        cwd: match &t.cwd {
            Some(dir) => Some(match dir {
                tokens::ChDir::Path(p) => tokens::ChDir::Path(copy_string(p)),
                tokens::ChDir::Any => tokens::ChDir::Any,
            }),
            None => None,
        },
        env: t.env,
        apparmor_profile: match &t.apparmor_profile {
            Some(p) => Some(copy_string(p)),
            None => None,
        },
        noexec: t.noexec,
        ignored,
    }
}

/// The attributes before any tag is given.
pub open spec fn key_default() -> (
    Authenticate,
    Option<tokens::ChDirModel>,
    EnvironmentControl,
    Option<Seq<char>>,
    ast::ExecControl,
    Seq<Span>,
) {
    (Authenticate::Unspecified, None, EnvironmentControl::Implicit, None, ast::ExecControl::Implicit, Seq::empty())
}

/// The attributes `k` with the tag `m` applied.
pub open spec fn apply_key(
    m: ast::Modifier,
    k: (Authenticate, Option<tokens::ChDirModel>, EnvironmentControl, Option<Seq<char>>, ast::ExecControl, Seq<Span>),
) -> (Authenticate, Option<tokens::ChDirModel>, EnvironmentControl, Option<Seq<char>>, ast::ExecControl, Seq<Span>) {
    match m {
        ast::Modifier::Exec => (k.0, k.1, k.2, k.3, ast::ExecControl::Exec, k.5),
        ast::Modifier::Noexec => (k.0, k.1, k.2, k.3, ast::ExecControl::Noexec, k.5),
        ast::Modifier::Setenv => (k.0, k.1, EnvironmentControl::Setenv, k.3, k.4, k.5),
        ast::Modifier::Nosetenv => (k.0, k.1, EnvironmentControl::Nosetenv, k.3, k.4, k.5),
        ast::Modifier::Passwd => (Authenticate::Passwd, k.1, k.2, k.3, k.4, k.5),
        ast::Modifier::Nopasswd => (Authenticate::Nopasswd, k.1, k.2, k.3, k.4, k.5),
        ast::Modifier::Cwd(c) => (k.0, Some(c.model()), k.2, k.3, k.4, k.5),
        ast::Modifier::ApparmorProfile(p) => (k.0, k.1, k.2, Some(p@), k.4, k.5),
        ast::Modifier::Ignored(span) => (k.0, k.1, k.2, k.3, k.4, k.5.push(span)),
        ast::Modifier::Nothing => k,
    }
}

/// The first `n` tags applied in order.
pub open spec fn apply_mods(
    mods: Seq<ast::Modifier>,
    n: int,
    k: (Authenticate, Option<tokens::ChDirModel>, EnvironmentControl, Option<Seq<char>>, ast::ExecControl, Seq<Span>),
) -> (Authenticate, Option<tokens::ChDirModel>, EnvironmentControl, Option<Seq<char>>, ast::ExecControl, Seq<Span>)
    decreases n,
{
    if n <= 0 {
        k
    } else {
        apply_key(mods[n - 1], apply_mods(mods, n - 1, k))
    }
}

/// The attributes after the tags of the first `k` commands of a line: tags carry over to
/// the commands that follow.
pub open spec fn key_before(rc: Seq<(Option<RunAs>, CommandSpec)>, k: int) -> (
    Authenticate,
    Option<tokens::ChDirModel>,
    EnvironmentControl,
    Option<Seq<char>>,
    ast::ExecControl,
    Seq<Span>,
)
    decreases k,
{
    if k <= 0 {
        key_default()
    } else {
        let mods = rc[k - 1].1.0@;
        apply_mods(mods, mods.len() as int, key_before(rc, k - 1))
    }
}

/// The attributes of command `k` of a line: those after its own tags; `ALL` implies
/// `SETENV:` unless `NOSETENV:` was given.
pub open spec fn command_key(rc: Seq<(Option<RunAs>, CommandSpec)>, k: int) -> (
    Authenticate,
    Option<tokens::ChDirModel>,
    EnvironmentControl,
    Option<Seq<char>>,
    ast::ExecControl,
    Seq<Span>,
) {
    let t = key_before(rc, k + 1);
    match rc[k].1.1 {
        Qualified::Allow(Meta::All) => if t.2 != EnvironmentControl::Nosetenv {
            (t.0, t.1, EnvironmentControl::Setenv, t.3, t.4, t.5)
        } else {
            t
        },
        _ => t,
    }
}

proof fn lemma_applied_key(m: ast::Modifier, before: Tag, after: Tag)
    requires
        ast::applied(m, before, after),
    ensures
        tag_key(after) == apply_key(m, tag_key(before)),
{
}

/// The index of the runas specification that applies to the command at position `k`: the
/// last one given at or before it.
pub open spec fn last_runas(runas_cmds: Seq<(Option<RunAs>, CommandSpec)>, k: int) -> Option<int>
    decreases k + 1,
{
    if k < 0 {
        None
    } else if runas_cmds[k].0 is Some {
        Some(k)
    } else {
        last_runas(runas_cmds, k - 1)
    }
}

proof fn lemma_last_runas(runas_cmds: Seq<(Option<RunAs>, CommandSpec)>, k: int)
    ensures
        last_runas(runas_cmds, k) matches Some(i) ==> 0 <= i <= k,
    decreases k + 1,
{
    if k >= 0 && runas_cmds[k].0 is None {
        lemma_last_runas(runas_cmds, k - 1);
    }
}

/// Whether a password is asked after the first `n` tags of a list, `prev` before them: that of
/// the last `PASSWD:` or `NOPASSWD:` among them, else `prev`.
pub open spec fn mods_auth(mods: Seq<ast::Modifier>, n: int, prev: Authenticate) -> Authenticate
    decreases n,
{
    if n <= 0 {
        prev
    } else {
        match mods[n - 1] {
            ast::Modifier::Passwd => Authenticate::Passwd,
            ast::Modifier::Nopasswd => Authenticate::Nopasswd,
            _ => mods_auth(mods, n - 1, prev),
        }
    }
}

/// The environment control after the first `n` tags of a list, `prev` before them: that of
/// the last `SETENV:` or `NOSETENV:` among them, else `prev`.
pub open spec fn mods_env(mods: Seq<ast::Modifier>, n: int, prev: EnvironmentControl) -> EnvironmentControl
    decreases n,
{
    if n <= 0 {
        prev
    } else {
        match mods[n - 1] {
            ast::Modifier::Setenv => EnvironmentControl::Setenv,
            ast::Modifier::Nosetenv => EnvironmentControl::Nosetenv,
            _ => mods_env(mods, n - 1, prev),
        }
    }
}

/// Whether a password is asked for the commands after the first `k` of a line: tags carry
/// over, so that of the last `PASSWD:` or `NOPASSWD:` given on the line so far; not said when
/// there is none.
pub open spec fn line_auth(rc: Seq<(Option<RunAs>, CommandSpec)>, k: int) -> Authenticate
    decreases k,
{
    if k <= 0 {
        Authenticate::Unspecified
    } else {
        mods_auth(rc[k - 1].1.0@, rc[k - 1].1.0@.len() as int, line_auth(rc, k - 1))
    }
}

/// The environment control after the first `k` commands of a line: that of the last
/// `SETENV:` or `NOSETENV:` given on the line so far; not said when there is none.
pub open spec fn line_env(rc: Seq<(Option<RunAs>, CommandSpec)>, k: int) -> EnvironmentControl
    decreases k,
{
    if k <= 0 {
        EnvironmentControl::Implicit
    } else {
        mods_env(rc[k - 1].1.0@, rc[k - 1].1.0@.len() as int, line_env(rc, k - 1))
    }
}

proof fn lemma_mods_scan(
    mods: Seq<ast::Modifier>,
    n: int,
    k: (Authenticate, Option<tokens::ChDirModel>, EnvironmentControl, Option<Seq<char>>, ast::ExecControl, Seq<Span>),
)
    ensures
        apply_mods(mods, n, k).0 == mods_auth(mods, n, k.0),
        apply_mods(mods, n, k).2 == mods_env(mods, n, k.2),
    decreases n,
{
    if n > 0 {
        lemma_mods_scan(mods, n - 1, k);
    }
}

proof fn lemma_line_scan(rc: Seq<(Option<RunAs>, CommandSpec)>, k: int)
    ensures
        key_before(rc, k).0 == line_auth(rc, k),
        key_before(rc, k).2 == line_env(rc, k),
    decreases k,
{
    if k > 0 {
        lemma_line_scan(rc, k - 1);
        let mods = rc[k - 1].1.0@;
        lemma_mods_scan(mods, mods.len() as int, key_before(rc, k - 1));
    }
}

/// Tags carry over to the commands that follow on a line: a command asks for a password as the
/// last `PASSWD:` or `NOPASSWD:` given on its line up to it says, and its environment control
/// is that of the last `SETENV:` or `NOSETENV:` given so far, except that `ALL` without a
/// `NOSETENV:` in force implies `SETENV:`.
pub proof fn law_tags_carry_over(rc: Seq<(Option<RunAs>, CommandSpec)>, k: int)
    requires
        0 <= k < rc.len(),
    ensures
        command_key(rc, k).0 == line_auth(rc, k + 1),
        command_key(rc, k).2 == (if rc[k].1.1 matches Qualified::Allow(Meta::All) {
            all_env(line_env(rc, k + 1))
        } else {
            line_env(rc, k + 1)
        }),
{
    lemma_line_scan(rc, k + 1);
}

/// For each command of a permission line: the runas specification that applies to it (the
/// last one given so far) and its attributes (the tags given so far, in order; `ALL` implies
/// `SETENV:` unless `NOSETENV:` was given).
pub fn distribute_tags(runas_cmds: &Vec<(Option<RunAs>, CommandSpec)>) -> (r: Vec<(Option<usize>, Tag)>)
    ensures
        r@.len() == runas_cmds@.len(),
        forall|k: int|
            0 <= k < r@.len() ==> (#[trigger] r@[k].0 matches Some(i) ==> i <= k),
        forall|k: int|
            0 <= k < r@.len() ==> match last_runas(runas_cmds@, k) {
                Some(i) => #[trigger] r@[k].0 == Some(i as usize),
                None => r@[k].0 is None,
            },
        forall|k: int| 0 <= k < r@.len() ==> tag_key(#[trigger] r@[k].1) == command_key(runas_cmds@, k),
        forall|k: int|
            0 <= k < r@.len() && (runas_cmds@[k].1.1 matches Qualified::Allow(Meta::All)) ==> #[trigger] r@[k].1.env
                == all_env(key_before(runas_cmds@, k + 1).2),
        forall|k: int| 0 <= k < r@.len() ==> (#[trigger] r@[k].1).authenticate == line_auth(runas_cmds@, k + 1),
        forall|k: int|
            0 <= k < r@.len() ==> (#[trigger] r@[k].1).env == (if runas_cmds@[k].1.1 matches Qualified::Allow(Meta::All) {
                all_env(line_env(runas_cmds@, k + 1))
            } else {
                line_env(runas_cmds@, k + 1)
            }),
{
    let mut result: Vec<(Option<usize>, Tag)> = Vec::new();
    let mut last: Option<usize> = None;
    let mut tag = Tag::default();
    let mut k: usize = 0;
    while k < runas_cmds.len()
        invariant
            k <= runas_cmds@.len(),
            result@.len() == k,
            last == (match last_runas(runas_cmds@, k - 1) {
                Some(i) => Some(i as usize),
                None => None::<usize>,
            }),
            forall|j: int|
                0 <= j < k ==> match last_runas(runas_cmds@, j) {
                    Some(i) => #[trigger] result@[j].0 == Some(i as usize),
                    None => result@[j].0 is None,
                },
            forall|j: int| 0 <= j < k ==> (#[trigger] result@[j].0 matches Some(i) ==> i <= j),
            tag_key(tag) == key_before(runas_cmds@, k as int),
            forall|j: int| 0 <= j < k ==> tag_key(#[trigger] result@[j].1) == command_key(runas_cmds@, j),
        decreases runas_cmds.len() - k,
    {
        proof {
            lemma_last_runas(runas_cmds@, k as int);
        }
        if runas_cmds[k].0.is_some() {
            last = Some(k);
        }
        let mods = &runas_cmds[k].1.0;
        let ghost kb = key_before(runas_cmds@, k as int);
        let mut m: usize = 0;
        while m < mods.len()
            invariant
                m <= mods@.len(),
                tag_key(tag) == apply_mods(mods@, m as int, kb),
            decreases mods@.len() - m,
        {
            let ghost before = tag;
            mods[m].apply(&mut tag);
            proof {
                lemma_applied_key(mods@[m as int], before, tag);
            }
            m += 1;
        }
        let mut this_tag = clone_tag(&tag);
        match &runas_cmds[k].1.1 {
            Qualified::Allow(Meta::All) => {
                if tag.env != EnvironmentControl::Nosetenv {
                    this_tag.env = EnvironmentControl::Setenv;
                }
            },
            _ => {},
        }
        proof {
            assert(tag_key(tag) == key_before(runas_cmds@, k + 1));
            assert(tag_key(this_tag) == command_key(runas_cmds@, k as int));
        }
        result.push((last, this_tag));
        k += 1;
    }
    proof {
        assert forall|j: int| 0 <= j < result@.len() implies (#[trigger] result@[j].1).authenticate == line_auth(
            runas_cmds@,
            j + 1,
        ) && result@[j].1.env == (if runas_cmds@[j].1.1 matches Qualified::Allow(Meta::All) {
            all_env(line_env(runas_cmds@, j + 1))
        } else {
            line_env(runas_cmds@, j + 1)
        }) by {
            law_tags_carry_over(runas_cmds@, j);
        }
    }
    result
}


// ---------------------------------------------------------------------------------------------
// The decision
// ---------------------------------------------------------------------------------------------

/// What a permission check asks: may `am_user`, on `host`, run `command` with `args` as
/// `user` and `group`.
pub struct PolicyQuery<U, G> {
    pub am_user: U,
    pub user: U,
    pub group: G,
    pub host: Seq<char>,
    pub command: Seq<char>,
    pub args: Seq<Seq<char>>,
}

pub open spec fn query_of<U, G>(am_user: U, host: Seq<char>, request: Request<U, G>) -> PolicyQuery<
    U,
    G,
> {
    PolicyQuery {
        am_user,
        user: *request.user,
        group: *request.group,
        host,
        command: request.command@,
        args: request.arguments@.map_values(|x: String| x@),
    }
}

/// The list decides yes for the item that `flags` describe.
pub open spec fn list_allows<T>(items: Seq<Spec<T>>, flags: Seq<bool>, found: Seq<(Seq<char>, bool)>) -> bool {
    decide(items, flags, found, None, items.len() as int) is Some
}

/// What the user aliases do for the user.
pub open spec fn user_aliases_of<U: UnixUser>(a: AliasTable, user: U) -> Seq<(Seq<char>, bool)> {
    aliases_found(a.user.1@, a.user.0@, user_def_flag_seqs(a.user.1@, user), a.user.0@.len() as int)
}

/// What the host aliases do for the host.
pub open spec fn host_aliases_of(a: AliasTable, host: Seq<char>) -> Seq<(Seq<char>, bool)> {
    aliases_found(a.host.1@, a.host.0@, host_def_flag_seqs(a.host.1@, host), a.host.0@.len() as int)
}

/// What the runas aliases do for the target user.
pub open spec fn runas_user_aliases_of<U: UnixUser>(a: AliasTable, user: U) -> Seq<(Seq<char>, bool)> {
    aliases_found(a.runas.1@, a.runas.0@, user_def_flag_seqs(a.runas.1@, user), a.runas.0@.len() as int)
}

/// What the runas aliases do for the target group.
pub open spec fn runas_group_aliases_of<G: UnixGroup>(a: AliasTable, group: G) -> Seq<(Seq<char>, bool)> {
    aliases_found(a.runas.1@, a.runas.0@, group_def_flag_seqs(a.runas.1@, group), a.runas.0@.len() as int)
}

/// What the command aliases do for the command line.
pub open spec fn cmnd_aliases_of(a: AliasTable, path: Seq<char>, args: Seq<Seq<char>>) -> Seq<(Seq<char>, bool)> {
    aliases_found(a.cmnd.1@, a.cmnd.0@, cmd_def_flag_seqs(a.cmnd.1@, path, args), a.cmnd.0@.len() as int)
}

/// The runas specification lets the user act as the requested user and group: the user list
/// must allow the target user unless the user stays who they are (and, when they stay in the
/// group, the list is empty); the group list must allow the target group unless the target
/// user is in it. Without a runas specification, only root in its own group.
pub open spec fn runas_allows<U: UnixUser, G: UnixGroup>(
    runas: Option<RunAs>,
    a: AliasTable,
    q: PolicyQuery<U, G>,
) -> bool {
    let stays = q.user.member_gid(q.group.gid());
    match runas {
        Some(ra) => {
            let users_ok = if !q.user.same(&q.am_user) || (stays && ra.users@.len() > 0) {
                list_allows(ra.users@, user_flag_seq(ra.users@, q.user), runas_user_aliases_of(a, q.user))
            } else {
                true
            };
            users_ok && (stays || list_allows(
                ra.groups@,
                group_flag_seq(ra.groups@, q.group),
                runas_group_aliases_of(a, q.group),
            ))
        },
        None => q.user.root() && stays,
    }
}

/// The runas specification that applies to command `k` of a line.
pub open spec fn runas_for(rc: Seq<(Option<RunAs>, CommandSpec)>, k: int) -> Option<RunAs> {
    match last_runas(rc, k) {
        Some(i) => rc[i].0,
        None => None,
    }
}

/// The commands among the first `n` of a line whose runas specification lets the user act
/// as requested.
pub open spec fn line_cmds<U: UnixUser, G: UnixGroup>(
    rc: Seq<(Option<RunAs>, CommandSpec)>,
    n: int,
    a: AliasTable,
    q: PolicyQuery<U, G>,
) -> Seq<Spec<Command>>
    decreases n,
{
    if n <= 0 {
        Seq::empty()
    } else {
        let prev = line_cmds(rc, n - 1, a, q);
        if runas_allows(runas_for(rc, n - 1), a, q) {
            prev.push(rc[n - 1].1.1)
        } else {
            prev
        }
    }
}

/// The commands of the first `n` host entries of a rule that apply on the host.
pub open spec fn perms_cmds<U: UnixUser, G: UnixGroup>(
    perms: Seq<(SpecList<Hostname>, Vec<(Option<RunAs>, CommandSpec)>)>,
    n: int,
    a: AliasTable,
    q: PolicyQuery<U, G>,
) -> Seq<Spec<Command>>
    decreases n,
{
    if n <= 0 {
        Seq::empty()
    } else {
        let prev = perms_cmds(perms, n - 1, a, q);
        let hosts = perms[n - 1].0@;
        if list_allows(hosts, host_flag_seq(hosts, q.host), host_aliases_of(a, q.host)) {
            prev + line_cmds(perms[n - 1].1@, perms[n - 1].1@.len() as int, a, q)
        } else {
            prev
        }
    }
}

/// The commands of the first `n` rules that apply to the user.
pub open spec fn rules_cmds<U: UnixUser, G: UnixGroup>(
    rules: Seq<PermissionSpec>,
    n: int,
    a: AliasTable,
    q: PolicyQuery<U, G>,
) -> Seq<Spec<Command>>
    decreases n,
{
    if n <= 0 {
        Seq::empty()
    } else {
        let prev = rules_cmds(rules, n - 1, a, q);
        let users = rules[n - 1].users@;
        if list_allows(users, user_flag_seq(users, q.am_user), user_aliases_of(a, q.am_user)) {
            prev + perms_cmds(rules[n - 1].permissions@, rules[n - 1].permissions@.len() as int, a, q)
        } else {
            prev
        }
    }
}

/// The command specifications that the policy gives the user for the request, in order.
pub open spec fn permitted_cmds<U: UnixUser, G: UnixGroup>(s: Sudoers, q: PolicyQuery<U, G>) -> Seq<Spec<Command>> {
    rules_cmds(s.rules@, s.rules@.len() as int, s.aliases, q)
}

/// The policy allows the request: among the command specifications that it gives the user on
/// the host as the requested user and group, the last one that matches the command line (or
/// is `ALL`, or an alias that decides) allows it.
pub open spec fn permits<U: UnixUser, G: UnixGroup>(s: Sudoers, q: PolicyQuery<U, G>) -> bool {
    let cmds = permitted_cmds(s, q);
    list_allows(cmds, cmd_flag_seq(cmds, q.command, q.args), cmnd_aliases_of(s.aliases, q.command, q.args))
}

/// The attributes of the commands among the first `n` of a line whose runas specification
/// lets the user act as requested (alongside `line_cmds`).
pub open spec fn line_keys<U: UnixUser, G: UnixGroup>(
    rc: Seq<(Option<RunAs>, CommandSpec)>,
    n: int,
    a: AliasTable,
    q: PolicyQuery<U, G>,
) -> Seq<TagKey>
    decreases n,
{
    if n <= 0 {
        Seq::empty()
    } else {
        let prev = line_keys(rc, n - 1, a, q);
        if runas_allows(runas_for(rc, n - 1), a, q) {
            prev.push(command_key(rc, n - 1))
        } else {
            prev
        }
    }
}

/// The attributes of the commands of the first `n` host entries of a rule that apply on
/// the host (alongside `perms_cmds`).
pub open spec fn perms_keys<U: UnixUser, G: UnixGroup>(
    perms: Seq<(SpecList<Hostname>, Vec<(Option<RunAs>, CommandSpec)>)>,
    n: int,
    a: AliasTable,
    q: PolicyQuery<U, G>,
) -> Seq<TagKey>
    decreases n,
{
    if n <= 0 {
        Seq::empty()
    } else {
        let prev = perms_keys(perms, n - 1, a, q);
        let hosts = perms[n - 1].0@;
        if list_allows(hosts, host_flag_seq(hosts, q.host), host_aliases_of(a, q.host)) {
            prev + line_keys(perms[n - 1].1@, perms[n - 1].1@.len() as int, a, q)
        } else {
            prev
        }
    }
}

/// The attributes of the commands of the first `n` rules that apply to the user (alongside
/// `rules_cmds`).
pub open spec fn rules_keys<U: UnixUser, G: UnixGroup>(
    rules: Seq<PermissionSpec>,
    n: int,
    a: AliasTable,
    q: PolicyQuery<U, G>,
) -> Seq<TagKey>
    decreases n,
{
    if n <= 0 {
        Seq::empty()
    } else {
        let prev = rules_keys(rules, n - 1, a, q);
        let users = rules[n - 1].users@;
        if list_allows(users, user_flag_seq(users, q.am_user), user_aliases_of(a, q.am_user)) {
            prev + perms_keys(rules[n - 1].permissions@, rules[n - 1].permissions@.len() as int, a, q)
        } else {
            prev
        }
    }
}

/// The attributes of the command specification that decides a permitted request.
pub open spec fn deciding_key<U: UnixUser, G: UnixGroup>(s: Sudoers, q: PolicyQuery<U, G>) -> TagKey {
    let cmds = permitted_cmds(s, q);
    let i = decide(cmds, cmd_flag_seq(cmds, q.command, q.args), cmnd_aliases_of(s.aliases, q.command, q.args), None, cmds.len() as int)->Some_0;
    rules_keys(s.rules@, s.rules@.len() as int, s.aliases, q)[i]
}

/// The attributes of the commands of the first `n` host entries of a rule that apply on the
/// host, whomever they may be run as (alongside `perms_count`).
pub open spec fn perms_all_keys<U: UnixUser, G: UnixGroup>(
    perms: Seq<(SpecList<Hostname>, Vec<(Option<RunAs>, CommandSpec)>)>,
    n: int,
    a: AliasTable,
    q: PolicyQuery<U, G>,
) -> Seq<TagKey>
    decreases n,
{
    if n <= 0 {
        Seq::empty()
    } else {
        let prev = perms_all_keys(perms, n - 1, a, q);
        let hosts = perms[n - 1].0@;
        let rc = perms[n - 1].1@;
        if list_allows(hosts, host_flag_seq(hosts, q.host), host_aliases_of(a, q.host)) {
            prev + Seq::new(rc.len(), |k: int| command_key(rc, k))
        } else {
            prev
        }
    }
}

/// The attributes of the commands of the first `n` rules that apply to the user on the
/// host, whomever they may be run as (alongside `rules_count`).
pub open spec fn rules_all_keys<U: UnixUser, G: UnixGroup>(
    rules: Seq<PermissionSpec>,
    n: int,
    a: AliasTable,
    q: PolicyQuery<U, G>,
) -> Seq<TagKey>
    decreases n,
{
    if n <= 0 {
        Seq::empty()
    } else {
        let prev = rules_all_keys(rules, n - 1, a, q);
        let users = rules[n - 1].users@;
        if list_allows(users, user_flag_seq(users, q.am_user), user_aliases_of(a, q.am_user)) {
            prev + perms_all_keys(rules[n - 1].permissions@, rules[n - 1].permissions@.len() as int, a, q)
        } else {
            prev
        }
    }
}

/// Whether attributes ask for a password: unless `NOPASSWD:` was given.
pub open spec fn needs_of(k: TagKey) -> bool {
    k.0 != Authenticate::Nopasswd
}

/// The last of the first `n` attributes whose need of a password is `want`.
pub open spec fn last_with(keys: Seq<TagKey>, want: bool, n: int) -> Option<int>
    decreases n,
{
    if n <= 0 {
        None
    } else if needs_of(keys[n - 1]) == want {
        Some(n - 1)
    } else {
        last_with(keys, want, n - 1)
    }
}

/// The last attributes whose need of a password is `want`; when there are none, the last.
pub open spec fn chosen_key(keys: Seq<TagKey>, want: bool) -> TagKey {
    match last_with(keys, want, keys.len() as int) {
        Some(i) => keys[i],
        None => keys.last(),
    }
}

proof fn lemma_last_with(keys: Seq<TagKey>, want: bool, n: int)
    ensures
        last_with(keys, want, n) matches Some(i) ==> 0 <= i < n && needs_of(keys[i]) == want,
        last_with(keys, want, n) is None ==> forall|j: int| 0 <= j < n ==> needs_of(keys[j]) != want,
    decreases n,
{
    if n > 0 {
        lemma_last_with(keys, want, n - 1);
    }
}

/// The attributes `k` with `auth` in place of whether a password is needed.
pub open spec fn key_with_auth(k: TagKey, auth: Authenticate) -> TagKey {
    (auth, k.1, k.2, k.3, k.4, k.5)
}

pub open spec fn keys_of(v: Seq<Tag>) -> Seq<TagKey> {
    v.map_values(|t: Tag| tag_key(t))
}

proof fn lemma_keys_len<U: UnixUser, G: UnixGroup>(rules: Seq<PermissionSpec>, n: int, a: AliasTable, q: PolicyQuery<U, G>)
    ensures
        rules_keys(rules, n, a, q).len() == rules_cmds(rules, n, a, q).len(),
    decreases n,
{
    if n > 0 {
        lemma_keys_len(rules, n - 1, a, q);
        let perms = rules[n - 1].permissions@;
        lemma_perms_keys_len(perms, perms.len() as int, a, q);
    }
}

proof fn lemma_perms_keys_len<U: UnixUser, G: UnixGroup>(
    perms: Seq<(SpecList<Hostname>, Vec<(Option<RunAs>, CommandSpec)>)>,
    n: int,
    a: AliasTable,
    q: PolicyQuery<U, G>,
)
    ensures
        perms_keys(perms, n, a, q).len() == perms_cmds(perms, n, a, q).len(),
    decreases n,
{
    if n > 0 {
        lemma_perms_keys_len(perms, n - 1, a, q);
        let rc = perms[n - 1].1@;
        lemma_line_keys_len(rc, rc.len() as int, a, q);
    }
}

proof fn lemma_line_keys_len<U: UnixUser, G: UnixGroup>(
    rc: Seq<(Option<RunAs>, CommandSpec)>,
    n: int,
    a: AliasTable,
    q: PolicyQuery<U, G>,
)
    ensures
        line_keys(rc, n, a, q).len() == line_cmds(rc, n, a, q).len(),
    decreases n,
{
    if n > 0 {
        lemma_line_keys_len(rc, n - 1, a, q);
    }
}

pub open spec fn cmds_view(v: Seq<&Spec<Command>>) -> Seq<Spec<Command>> {
    v.map_values(|c: &Spec<Command>| *c)
}

proof fn lemma_last_runas_some(runas_cmds: Seq<(Option<RunAs>, CommandSpec)>, k: int)
    ensures
        last_runas(runas_cmds, k) matches Some(i) ==> runas_cmds[i].0 is Some,
    decreases k + 1,
{
    if k >= 0 && runas_cmds[k].0 is None {
        lemma_last_runas_some(runas_cmds, k - 1);
    }
}

/// The number of commands of the first `n` host entries of a rule that apply on the host.
pub open spec fn perms_count<U: UnixUser, G: UnixGroup>(
    perms: Seq<(SpecList<Hostname>, Vec<(Option<RunAs>, CommandSpec)>)>,
    n: int,
    a: AliasTable,
    q: PolicyQuery<U, G>,
) -> nat
    decreases n,
{
    if n <= 0 {
        0
    } else {
        let prev = perms_count(perms, n - 1, a, q);
        let hosts = perms[n - 1].0@;
        if list_allows(hosts, host_flag_seq(hosts, q.host), host_aliases_of(a, q.host)) {
            prev + perms[n - 1].1@.len()
        } else {
            prev
        }
    }
}

/// The number of commands of the first `n` rules that apply to the user on the host,
/// whatever user they may be run as.
pub open spec fn rules_count<U: UnixUser, G: UnixGroup>(
    rules: Seq<PermissionSpec>,
    n: int,
    a: AliasTable,
    q: PolicyQuery<U, G>,
) -> nat
    decreases n,
{
    if n <= 0 {
        0
    } else {
        let prev = rules_count(rules, n - 1, a, q);
        let users = rules[n - 1].users@;
        if list_allows(users, user_flag_seq(users, q.am_user), user_aliases_of(a, q.am_user)) {
            prev + perms_count(rules[n - 1].permissions@, rules[n - 1].permissions@.len() as int, a, q)
        } else {
            prev
        }
    }
}

/// The user has some command on the host, whatever it is and whomever it may be run as.
pub open spec fn has_any_command<U: UnixUser, G: UnixGroup>(s: Sudoers, q: PolicyQuery<U, G>) -> bool {
    rules_count(s.rules@, s.rules@.len() as int, s.aliases, q) > 0
}

/// The query about a user on a host that does not depend on a request.
pub open spec fn user_on_host<U: UnixUser, G: UnixGroup>(user: U, group: G, host: Seq<char>) -> PolicyQuery<U, G> {
    PolicyQuery { am_user: user, user, group, host, command: Seq::empty(), args: Seq::empty() }
}

/// What the user who lists the permissions of another user asks: to run `list` as them.
pub open spec fn list_query<U, G>(am_user: U, user: U, group: G, host: Seq<char>) -> PolicyQuery<U, G> {
    PolicyQuery { am_user, user, group, host, command: "list"@, args: Seq::empty() }
}

/// Who is listed, and as whom the invoking user would run commands.
pub struct ListRequest<'a, U, G> {
    pub inspected_user: &'a U,
    pub inspected_group: &'a G,
    pub target_user: &'a U,
    pub target_group: &'a G,
}

/// Nothing is allowed that no rule gives: when no command specification applies to the user
/// on the host as the requested user and group, the request is refused.
pub proof fn law_default_deny<U: UnixUser, G: UnixGroup>(s: Sudoers, q: PolicyQuery<U, G>)
    requires
        permitted_cmds(s, q).len() == 0,
    ensures
        !permits(s, q),
{
}

/// Later entries override earlier ones: when the last command specification that applies is
/// `ALL`, or names the command line, it alone decides; the request is allowed exactly when
/// that entry is not negated.
pub proof fn law_last_entry_decides<U: UnixUser, G: UnixGroup>(s: Sudoers, q: PolicyQuery<U, G>)
    requires
        permitted_cmds(s, q).len() > 0,
        ({
            let last = permitted_cmds(s, q).last();
            match last {
                Qualified::Allow(Meta::All) | Qualified::Forbid(Meta::All) => true,
                Qualified::Allow(Meta::Only(c)) | Qualified::Forbid(Meta::Only(c)) => command_matches(
                    c,
                    q.command,
                    q.args,
                ),
                _ => false,
            }
        }),
    ensures
        permits(s, q) == (permitted_cmds(s, q).last() is Allow),
{
    let cmds = permitted_cmds(s, q);
    let flags = cmd_flag_seq(cmds, q.command, q.args);
    assert(flags[cmds.len() - 1] == item_flag(cmds.last(), |c: Command| command_matches(c, q.command, q.args)));
}

/// The environment control that its own tags, and those given before it on its line, give
/// (`line_env`) each command among the first `n` of a line whose runas specification lets the user act as
/// requested (alongside `line_cmds`), before `ALL` is taken into account.
pub open spec fn line_envs<U: UnixUser, G: UnixGroup>(
    rc: Seq<(Option<RunAs>, CommandSpec)>,
    n: int,
    a: AliasTable,
    q: PolicyQuery<U, G>,
) -> Seq<EnvironmentControl>
    decreases n,
{
    if n <= 0 {
        Seq::empty()
    } else {
        let prev = line_envs(rc, n - 1, a, q);
        if runas_allows(runas_for(rc, n - 1), a, q) {
            prev.push(line_env(rc, n))
        } else {
            prev
        }
    }
}

/// `line_envs` over the first `n` host entries of a rule that apply on the host.
pub open spec fn perms_envs<U: UnixUser, G: UnixGroup>(
    perms: Seq<(SpecList<Hostname>, Vec<(Option<RunAs>, CommandSpec)>)>,
    n: int,
    a: AliasTable,
    q: PolicyQuery<U, G>,
) -> Seq<EnvironmentControl>
    decreases n,
{
    if n <= 0 {
        Seq::empty()
    } else {
        let prev = perms_envs(perms, n - 1, a, q);
        let hosts = perms[n - 1].0@;
        if list_allows(hosts, host_flag_seq(hosts, q.host), host_aliases_of(a, q.host)) {
            prev + line_envs(perms[n - 1].1@, perms[n - 1].1@.len() as int, a, q)
        } else {
            prev
        }
    }
}

/// `line_envs` over the first `n` rules that apply to the user (alongside `rules_cmds`).
pub open spec fn rules_envs<U: UnixUser, G: UnixGroup>(
    rules: Seq<PermissionSpec>,
    n: int,
    a: AliasTable,
    q: PolicyQuery<U, G>,
) -> Seq<EnvironmentControl>
    decreases n,
{
    if n <= 0 {
        Seq::empty()
    } else {
        let prev = rules_envs(rules, n - 1, a, q);
        let users = rules[n - 1].users@;
        if list_allows(users, user_flag_seq(users, q.am_user), user_aliases_of(a, q.am_user)) {
            prev + perms_envs(rules[n - 1].permissions@, rules[n - 1].permissions@.len() as int, a, q)
        } else {
            prev
        }
    }
}

/// The position, among the command specifications that apply, of the one that decides a
/// permitted request.
pub open spec fn deciding_index<U: UnixUser, G: UnixGroup>(s: Sudoers, q: PolicyQuery<U, G>) -> int {
    let cmds = permitted_cmds(s, q);
    decide(cmds, cmd_flag_seq(cmds, q.command, q.args), cmnd_aliases_of(s.aliases, q.command, q.args), None, cmds.len() as int)->Some_0
}

/// The environment control that `ALL` ends with: `SETENV` unless its tags end with `NOSETENV`.
pub open spec fn all_env(given: EnvironmentControl) -> EnvironmentControl {
    if given == EnvironmentControl::Nosetenv {
        EnvironmentControl::Nosetenv
    } else {
        EnvironmentControl::Setenv
    }
}

/// Commands, their attributes and the environment control their tags give, side by side; every
/// `ALL` among them has `all_env` of what its tags give.
pub open spec fn all_envs_hold(cmds: Seq<Spec<Command>>, keys: Seq<TagKey>, envs: Seq<EnvironmentControl>) -> bool {
    &&& keys.len() == cmds.len()
    &&& envs.len() == cmds.len()
    &&& forall|i: int|
        #![trigger cmds[i]]
        0 <= i < cmds.len() && (cmds[i] matches Qualified::Allow(Meta::All)) ==> keys[i].2 == all_env(envs[i])
}

proof fn lemma_all_envs_add(
    c1: Seq<Spec<Command>>,
    k1: Seq<TagKey>,
    e1: Seq<EnvironmentControl>,
    c2: Seq<Spec<Command>>,
    k2: Seq<TagKey>,
    e2: Seq<EnvironmentControl>,
)
    requires
        all_envs_hold(c1, k1, e1),
        all_envs_hold(c2, k2, e2),
    ensures
        all_envs_hold(c1 + c2, k1 + k2, e1 + e2),
{
    assert forall|i: int|
        #![trigger (c1 + c2)[i]]
        0 <= i < (c1 + c2).len() && ((c1 + c2)[i] matches Qualified::Allow(Meta::All)) implies (k1 + k2)[i].2
            == all_env((e1 + e2)[i]) by {
        if i >= c1.len() {
            assert((c1 + c2)[i] == c2[i - c1.len()]);
        } else {
            assert((c1 + c2)[i] == c1[i]);
        }
    }
}

proof fn lemma_line_all_envs<U: UnixUser, G: UnixGroup>(
    rc: Seq<(Option<RunAs>, CommandSpec)>,
    n: int,
    a: AliasTable,
    q: PolicyQuery<U, G>,
)
    requires
        n <= rc.len(),
    ensures
        all_envs_hold(line_cmds(rc, n, a, q), line_keys(rc, n, a, q), line_envs(rc, n, a, q)),
    decreases n,
{
    if n > 0 {
        lemma_line_all_envs(rc, n - 1, a, q);
        if runas_allows(runas_for(rc, n - 1), a, q) {
            let c = line_cmds(rc, n - 1, a, q);
            let k = line_keys(rc, n - 1, a, q);
            let e = line_envs(rc, n - 1, a, q);
            lemma_line_scan(rc, n);
            lemma_all_envs_add(c, k, e, seq![rc[n - 1].1.1], seq![command_key(rc, n - 1)], seq![line_env(rc, n)]);
            assert(c + seq![rc[n - 1].1.1] =~= c.push(rc[n - 1].1.1));
            assert(k + seq![command_key(rc, n - 1)] =~= k.push(command_key(rc, n - 1)));
            assert(e + seq![line_env(rc, n)] =~= e.push(line_env(rc, n)));
        }
    }
}

proof fn lemma_perms_all_envs<U: UnixUser, G: UnixGroup>(
    perms: Seq<(SpecList<Hostname>, Vec<(Option<RunAs>, CommandSpec)>)>,
    n: int,
    a: AliasTable,
    q: PolicyQuery<U, G>,
)
    ensures
        all_envs_hold(perms_cmds(perms, n, a, q), perms_keys(perms, n, a, q), perms_envs(perms, n, a, q)),
    decreases n,
{
    if n > 0 {
        lemma_perms_all_envs(perms, n - 1, a, q);
        let rc = perms[n - 1].1@;
        lemma_line_all_envs(rc, rc.len() as int, a, q);
        lemma_all_envs_add(
            perms_cmds(perms, n - 1, a, q),
            perms_keys(perms, n - 1, a, q),
            perms_envs(perms, n - 1, a, q),
            line_cmds(rc, rc.len() as int, a, q),
            line_keys(rc, rc.len() as int, a, q),
            line_envs(rc, rc.len() as int, a, q),
        );
    }
}

proof fn lemma_rules_all_envs<U: UnixUser, G: UnixGroup>(
    rules: Seq<PermissionSpec>,
    n: int,
    a: AliasTable,
    q: PolicyQuery<U, G>,
)
    ensures
        all_envs_hold(rules_cmds(rules, n, a, q), rules_keys(rules, n, a, q), rules_envs(rules, n, a, q)),
    decreases n,
{
    if n > 0 {
        lemma_rules_all_envs(rules, n - 1, a, q);
        let perms = rules[n - 1].permissions@;
        lemma_perms_all_envs(perms, perms.len() as int, a, q);
        lemma_all_envs_add(
            rules_cmds(rules, n - 1, a, q),
            rules_keys(rules, n - 1, a, q),
            rules_envs(rules, n - 1, a, q),
            perms_cmds(perms, perms.len() as int, a, q),
            perms_keys(perms, perms.len() as int, a, q),
            perms_envs(perms, perms.len() as int, a, q),
        );
    }
}

proof fn lemma_decide_range<T>(
    items: Seq<Spec<T>>,
    matched: Seq<bool>,
    found: Seq<(Seq<char>, bool)>,
    n: int,
)
    ensures
        decide(items, matched, found, None, n) matches Some(i) ==> 0 <= i < n,
    decreases n,
{
    if n > 0 {
        lemma_decide_range(items, matched, found, n - 1);
    }
}

/// `ALL` implies `SETENV:`: when the command specification that decides a permitted request
/// is `ALL`, the attributes that the check gives carry `SETENV`, unless the tags given on its
/// line up to it end with `NOSETENV:`.
pub proof fn law_all_implies_setenv<U: UnixUser, G: UnixGroup>(s: Sudoers, q: PolicyQuery<U, G>)
    requires
        permits(s, q),
        permitted_cmds(s, q)[deciding_index(s, q)] matches Qualified::Allow(Meta::All),
    ensures
        0 <= deciding_index(s, q) < permitted_cmds(s, q).len(),
        deciding_key(s, q).2 == all_env(rules_envs(s.rules@, s.rules@.len() as int, s.aliases, q)[deciding_index(s, q)]),
        rules_envs(s.rules@, s.rules@.len() as int, s.aliases, q)[deciding_index(s, q)] != EnvironmentControl::Nosetenv
            ==> deciding_key(s, q).2 == EnvironmentControl::Setenv,
{
    let cmds = permitted_cmds(s, q);
    lemma_decide_range(cmds, cmd_flag_seq(cmds, q.command, q.args), cmnd_aliases_of(s.aliases, q.command, q.args), cmds.len() as int);
    lemma_rules_all_envs(s.rules@, s.rules@.len() as int, s.aliases, q);
    assert(cmds[deciding_index(s, q)] matches Qualified::Allow(Meta::All));
}

// ---------------------------------------------------------------------------------------------
// What `sudo --list` shows
// ---------------------------------------------------------------------------------------------

/// Attributes as plain values: see `tag_key`.
pub type TagKey = (Authenticate, Option<tokens::ChDirModel>, EnvironmentControl, Option<Seq<char>>, ast::ExecControl, Seq<Span>);

/// What an entry of `sudo --list` holds: the runas specification, the commands, and their
/// attributes.
pub type EntryView = (Option<RunAs>, Seq<Spec<Command>>, Seq<TagKey>);

/// Where the run of commands that starts at `start` ends, looking from `j`: at the first
/// command whose runas specification is another one.
pub open spec fn run_end(rc: Seq<(Option<RunAs>, CommandSpec)>, start: int, j: int) -> int
    decreases rc.len() - j,
{
    if j >= rc.len() || last_runas(rc, j) != last_runas(rc, start) {
        j
    } else {
        run_end(rc, start, j + 1)
    }
}

pub proof fn lemma_run_end(rc: Seq<(Option<RunAs>, CommandSpec)>, start: int, j: int)
    ensures
        run_end(rc, start, j) >= j,
        j <= rc.len() ==> run_end(rc, start, j) <= rc.len(),
    decreases rc.len() - j,
{
    if !(j >= rc.len() || last_runas(rc, j) != last_runas(rc, start)) {
        lemma_run_end(rc, start, j + 1);
    }
}

/// The runs of commands of a line from position `k`, as (first, end) positions: each run
/// takes the commands that follow one another under the same runas specification.
pub open spec fn line_runs(rc: Seq<(Option<RunAs>, CommandSpec)>, k: int) -> Seq<(int, int)>
    decreases rc.len() - k,
{
    if k < 0 || k >= rc.len() {
        Seq::empty()
    } else {
        let e = run_end(rc, k, k + 1);
        proof {
            lemma_run_end(rc, k, k + 1);
        }
        seq![(k, e)] + line_runs(rc, e)
    }
}

/// What an entry holds: the runas specification and the commands.
pub open spec fn run_entry(rc: Seq<(Option<RunAs>, CommandSpec)>, g: (int, int)) -> EntryView {
    (
        runas_for(rc, g.0),
        Seq::new((g.1 - g.0) as nat, |j: int| rc[g.0 + j].1.1),
        Seq::new((g.1 - g.0) as nat, |j: int| command_key(rc, g.0 + j)),
    )
}

pub open spec fn line_entries_from(rc: Seq<(Option<RunAs>, CommandSpec)>, k: int) -> Seq<EntryView> {
    line_runs(rc, k).map_values(|g: (int, int)| run_entry(rc, g))
}

/// The entries of the first `n` host entries of a rule that apply on the host.
pub open spec fn perms_entries(
    perms: Seq<(SpecList<Hostname>, Vec<(Option<RunAs>, CommandSpec)>)>,
    n: int,
    a: AliasTable,
    host: Seq<char>,
) -> Seq<EntryView>
    decreases n,
{
    if n <= 0 {
        Seq::empty()
    } else {
        let prev = perms_entries(perms, n - 1, a, host);
        let hosts = perms[n - 1].0@;
        if list_allows(hosts, host_flag_seq(hosts, host), host_aliases_of(a, host)) {
            prev + line_entries_from(perms[n - 1].1@, 0)
        } else {
            prev
        }
    }
}

/// The entries of the first `n` rules that apply to the user on the host, in order.
pub open spec fn rules_entries<U: UnixUser>(
    rules: Seq<PermissionSpec>,
    n: int,
    a: AliasTable,
    user: U,
    host: Seq<char>,
) -> Seq<EntryView>
    decreases n,
{
    if n <= 0 {
        Seq::empty()
    } else {
        let prev = rules_entries(rules, n - 1, a, user, host);
        let users = rules[n - 1].users@;
        if list_allows(users, user_flag_seq(users, user), user_aliases_of(a, user)) {
            prev + perms_entries(rules[n - 1].permissions@, rules[n - 1].permissions@.len() as int, a, host)
        } else {
            prev
        }
    }
}

pub open spec fn entries_view<'a>(v: Seq<Entry<'a>>) -> Seq<EntryView> {
    v.map_values(|e: Entry<'a>| (e.spec_run_as(), e.spec_cmds(), e.spec_tags().map_values(|t: Tag| tag_key(t))))
}

fn same_key(a: Option<usize>, b: Option<usize>) -> (r: bool)
    ensures
        r == (a == b),
{
    match (a, b) {
        (None, None) => true,
        (Some(x), Some(y)) => x == y,
        _ => false,
    }
}

/// Append the entries of one permission line.
fn push_line_entries<'a>(
    entries: &mut Vec<Entry<'a>>,
    rc: &'a Vec<(Option<RunAs>, CommandSpec)>,
    cmd_alias: &'a VecOrd<Def<Command>>,
)
    ensures
        entries_view(final(entries)@) == entries_view(old(entries)@) + line_entries_from(rc@, 0),
        forall|i: int|
            0 <= i < old(entries)@.len() ==> #[trigger] final(entries)@[i] == old(entries)@[i],
        forall|i: int|
            old(entries)@.len() <= i < final(entries)@.len() ==> (#[trigger] final(entries)@[i]).spec_defs()
                == cmd_alias.1@ && final(entries)@[i].spec_order() == cmd_alias.0@,
{
    let distributed = distribute_tags(rc);
    let ghost start_view = entries_view(entries@);
    let ghost n0 = entries@.len();
    let mut k: usize = 0;
    while k < rc.len()
        invariant
            k <= rc@.len(),
            distributed@.len() == rc@.len(),
            forall|j: int|
                0 <= j < distributed@.len() ==> match last_runas(rc@, j) {
                    Some(i) => #[trigger] distributed@[j].0 == Some(i as usize),
                    None => distributed@[j].0 is None,
                },
            forall|j: int| 0 <= j < distributed@.len() ==> tag_key(#[trigger] distributed@[j].1) == command_key(rc@, j),
            n0 <= entries@.len(),
            forall|i: int| 0 <= i < n0 ==> #[trigger] entries@[i] == old(entries)@[i],
            forall|i: int|
                n0 <= i < entries@.len() ==> (#[trigger] entries@[i]).spec_defs() == cmd_alias.1@
                    && entries@[i].spec_order() == cmd_alias.0@,
            n0 == old(entries)@.len(),
            start_view == entries_view(old(entries)@),
            entries_view(entries@) + line_entries_from(rc@, k as int) == start_view + line_entries_from(rc@, 0),
        decreases rc@.len() - k,
    {
        let start = k;
        let key = distributed[k].0;
        let mut specs: Vec<(Tag, &'a Spec<Command>)> = Vec::new();
        specs.push((clone_tag(&distributed[k].1), &rc[k].1.1));
        k += 1;
        while k < rc.len() && same_key(distributed[k].0, key)
            invariant
                start < k <= rc@.len(),
                distributed@.len() == rc@.len(),
                forall|j: int|
                    0 <= j < distributed@.len() ==> match last_runas(rc@, j) {
                        Some(i) => #[trigger] distributed@[j].0 == Some(i as usize),
                        None => distributed@[j].0 is None,
                    },
                key == distributed@[start as int].0,
                run_end(rc@, start as int, k as int) == run_end(rc@, start as int, start + 1),
                specs@.len() == k - start,
                forall|j: int| 0 <= j < specs@.len() ==> *(#[trigger] specs@[j]).1 == rc@[start + j].1.1,
                forall|j: int| 0 <= j < specs@.len() ==> tag_key((#[trigger] specs@[j]).0) == command_key(rc@, start + j),
                forall|j: int| 0 <= j < distributed@.len() ==> tag_key(#[trigger] distributed@[j].1) == command_key(rc@, j),
            decreases rc@.len() - k,
        {
            proof {
                let a = last_runas(rc@, k as int);
                let b = last_runas(rc@, start as int);
                assert(a == b) by {
                    match (a, b) {
                        (Some(x), Some(y)) => {
                            assert(distributed@[k as int].0 == Some(x as usize));
                            assert(distributed@[start as int].0 == Some(y as usize));
                            lemma_last_runas(rc@, k as int);
                            lemma_last_runas(rc@, start as int);
                        },
                        (None, None) => {},
                        (Some(x), None) => {
                            assert(distributed@[k as int].0 == Some(x as usize));
                        },
                        (None, Some(y)) => {
                            assert(distributed@[start as int].0 == Some(y as usize));
                        },
                    }
                }
            }
            specs.push((clone_tag(&distributed[k].1), &rc[k].1.1));
            k += 1;
        }
        proof {
            assert(specs@.map_values(|p: (Tag, &Spec<Command>)| *p.1) =~= Seq::new(
                (k - start) as nat,
                |j: int| rc@[start + j].1.1,
            ));
            assert(specs@.map_values(|p: (Tag, &Spec<Command>)| p.0).map_values(|t: Tag| tag_key(t)) =~= Seq::new(
                (k - start) as nat,
                |j: int| command_key(rc@, start + j),
            ));
        }
        proof {
            if k < rc@.len() {
                let a = last_runas(rc@, k as int);
                let b = last_runas(rc@, start as int);
                assert(a != b) by {
                    if a == b {
                        match a {
                            Some(x) => {
                                assert(distributed@[k as int].0 == Some(x as usize));
                                assert(distributed@[start as int].0 == Some(x as usize));
                            },
                            None => {},
                        }
                    }
                }
            }
            assert(run_end(rc@, start as int, k as int) == k);
        }
        let run_as: Option<&'a RunAs> = match key {
            Some(i) => {
                proof {
                    lemma_last_runas(rc@, start as int);
                }
                match &rc[i].0 {
                    Some(r) => Some(r),
                    None => None,
                }
            },
            None => None,
        };
        let ghost before = entries@;
        let e = Entry::new(run_as, specs, cmd_alias);
        entries.push(e);
        proof {
            assert(runas_view(run_as) == runas_for(rc@, start as int));
            assert(line_entries_from(rc@, start as int) =~= seq![run_entry(rc@, (start as int, k as int))]
                + line_entries_from(rc@, k as int));
            assert(entries_view(entries@) =~= entries_view(before).push((e.spec_run_as(), e.spec_cmds(), e.spec_tags().map_values(|t: Tag| tag_key(t)))));
            assert(entries_view(entries@) + line_entries_from(rc@, k as int) =~= entries_view(before)
                + line_entries_from(rc@, start as int));
        }
    }
    proof {
        assert(line_entries_from(rc@, k as int) =~= Seq::<EntryView>::empty());
        assert(entries_view(entries@) =~= start_view + line_entries_from(rc@, 0));
    }
}

/// A `Defaults` line with this scope applies to the user on the host, running as `target`:
/// one without scope always does, one for hosts, users or target users when the list takes
/// the host, the user or the target user; one for commands never does here.
pub open spec fn scope_applies<U: UnixUser>(a: AliasTable, scope: ConfigScope, host: Seq<char>, user: U, target: Option<U>) -> bool {
    match scope {
        ConfigScope::Generic => true,
        ConfigScope::Host(list) => decide(list@, host_flag_seq(list@, host), host_aliases_of(a, host), None, list@.len() as int) is Some,
        ConfigScope::User(list) => decide(list@, user_flag_seq(list@, user), user_aliases_of(a, user), None, list@.len() as int) is Some,
        ConfigScope::RunAs(list) => match target {
            Some(t) => decide(list@, user_flag_seq(list@, t), runas_user_aliases_of(a, t), None, list@.len() as int) is Some,
            None => false,
        },
        ConfigScope::Command(_) => false,
    }
}

/// The changes of the `Defaults` lines that apply to the user on the host, in order.
pub open spec fn host_user_changes<U: UnixUser>(
    a: AliasTable,
    lines: Seq<(ConfigScope, Vec<SettingsModifier>)>,
    host: Seq<char>,
    user: U,
    target: Option<U>,
) -> Seq<SettingsModifier>
    decreases lines.len(),
{
    if lines.len() == 0 {
        Seq::empty()
    } else {
        host_user_changes(a, lines.drop_last(), host, user, target) + if scope_applies(a, lines.last().0, host, user, target) {
            lines.last().1@
        } else {
            Seq::empty()
        }
    }
}

/// Which items of a list of command patterns match the path.
pub open spec fn simple_flag_seq(items: Seq<Spec<SimpleCommand>>, path: Seq<char>) -> Seq<bool> {
    Seq::new(items.len(), |i: int| match items[i] {
        Qualified::Allow(Meta::Only(c)) => glob_matches(c.source(), path),
        Qualified::Forbid(Meta::Only(c)) => glob_matches(c.source(), path),
        _ => false,
    })
}

/// A `Defaults!` line with this list applies to the command line.
pub open spec fn command_scope_applies(a: AliasTable, list: SpecList<SimpleCommand>, path: Seq<char>, args: Seq<Seq<char>>) -> bool {
    decide(
        list@,
        simple_flag_seq(list@, path),
        aliases_found(a.cmnd.1@, a.cmnd.0@, cmd_def_flag_seqs(a.cmnd.1@, path, args), a.cmnd.0@.len() as int),
        None,
        list@.len() as int,
    ) is Some
}

/// The changes of the `Defaults!` lines that apply to the command line, in order.
pub open spec fn command_changes(
    a: AliasTable,
    lines: Seq<(SpecList<SimpleCommand>, Vec<SettingsModifier>)>,
    path: Seq<char>,
    args: Seq<Seq<char>>,
) -> Seq<SettingsModifier>
    decreases lines.len(),
{
    if lines.len() == 0 {
        Seq::empty()
    } else {
        command_changes(a, lines.drop_last(), path, args) + if command_scope_applies(a, lines.last().0, path, args) {
            lines.last().1@
        } else {
            Seq::empty()
        }
    }
}

/// Make the changes in order.
fn apply_all(settings: &mut Settings, modifiers: &Vec<SettingsModifier>)
    ensures
        applied_in_order(*old(settings), *final(settings), modifiers@),
{
    let mut m: usize = 0;
    proof {
        lemma_applied_none(*settings);
        assert(modifiers@.take(0) =~= Seq::<SettingsModifier>::empty());
    }
    while m < modifiers.len()
        invariant
            m <= modifiers@.len(),
            applied_in_order(*old(settings), *settings, modifiers@.take(m as int)),
        decreases modifiers@.len() - m,
    {
        let ghost before = *settings;
        settings.apply(&modifiers[m]);
        proof {
            lemma_applied_push(*old(settings), before, *settings, modifiers@.take(m as int), modifiers@[m as int]);
            assert(modifiers@.take(m + 1) =~= modifiers@.take(m as int).push(modifiers@[m as int]));
        }
        m += 1;
    }
    proof {
        assert(modifiers@.take(modifiers@.len() as int) =~= modifiers@);
    }
}

impl Sudoers {
    /// Apply the `Defaults` lines for the host, the user and the target user; they apply once.
    pub fn specify_host_user_runas<U: UnixUser>(
        &mut self,
        hostname: &str,
        requesting_user: &U,
        target_user: Option<&U>,
    )
        ensures
            final(self).customisers.non_cmnd@.len() == 0,
            final(self).customisers.cmnd == old(self).customisers.cmnd,
            final(self).rules == old(self).rules,
            final(self).aliases == old(self).aliases,
            applied_in_order(
                old(self).settings,
                final(self).settings,
                host_user_changes(
                    old(self).aliases,
                    old(self).customisers.non_cmnd@,
                    hostname@,
                    *requesting_user,
                    match target_user {
                        Some(t) => Some(*t),
                        None => None,
                    },
                ),
            ),
    {
        let ghost target = match target_user {
            Some(t) => Some(*t),
            None => None,
        };
        let mut customisers: Vec<(ConfigScope, Vec<SettingsModifier>)> = Vec::new();
        std::mem::swap(&mut customisers, &mut self.customisers.non_cmnd);
        let ghost cs = customisers@;
        let host_aliases = get_aliases(
            &self.aliases.host.1,
            &self.aliases.host.0,
            &host_def_flags(&self.aliases.host.1, hostname),
        );
        let user_aliases = get_aliases(
            &self.aliases.user.1,
            &self.aliases.user.0,
            &user_def_flags(&self.aliases.user.1, requesting_user),
        );
        let runas_aliases = match target_user {
            Some(t) => get_aliases(
                &self.aliases.runas.1,
                &self.aliases.runas.0,
                &user_def_flags(&self.aliases.runas.1, t),
            ),
            None => Vec::new(),
        };
        let mut i: usize = 0;
        proof {
            lemma_applied_none(self.settings);
            assert(cs.take(0) =~= Seq::<(ConfigScope, Vec<SettingsModifier>)>::empty());
        }
        while i < customisers.len()
            invariant
                self.customisers.non_cmnd@.len() == 0,
                self.customisers.cmnd == old(self).customisers.cmnd,
                self.rules == old(self).rules,
                self.aliases == old(self).aliases,
                cs == old(self).customisers.non_cmnd@,
                customisers@ == cs,
                i <= cs.len(),
                target == (match target_user {
                    Some(t) => Some(*t),
                    None => None::<U>,
                }),
                found_view(host_aliases@) == host_aliases_of(old(self).aliases, hostname@),
                found_view(user_aliases@) == user_aliases_of(old(self).aliases, *requesting_user),
                target_user matches Some(t) ==> found_view(runas_aliases@) == runas_user_aliases_of(old(self).aliases, *t),
                applied_in_order(
                    old(self).settings,
                    self.settings,
                    host_user_changes(old(self).aliases, cs.take(i as int), hostname@, *requesting_user, target),
                ),
            decreases customisers@.len() - i,
        {
            let (scope, modifiers) = &customisers[i];
            let ghost scope_g = *scope;
            let applies = match scope {
                ConfigScope::Generic => true,
                ConfigScope::Host(list) => {
                    let flags = host_flags(list, hostname);
                    proof {
                        assert(flags@ =~= host_flag_seq(list@, hostname@));
                    }
                    find_item(list, &flags, &host_aliases, false) != Found::Nothing
                },
                ConfigScope::User(list) => find_item(
                    list,
                    &user_flags(list, requesting_user),
                    &user_aliases,
                    false,
                ) != Found::Nothing,
                ConfigScope::RunAs(list) => match target_user {
                    Some(t) => find_item(list, &user_flags(list, t), &runas_aliases, false)
                        != Found::Nothing,
                    None => false,
                },
                ConfigScope::Command(_) => false,
            };
            proof {
                assert(applies == scope_applies(old(self).aliases, cs[i as int].0, hostname@, *requesting_user, target));
            }
            let ghost before = self.settings;
            if applies {
                apply_all(&mut self.settings, modifiers);
            }
            proof {
                assert(cs.take(i + 1).drop_last() =~= cs.take(i as int));
                assert(cs.take(i + 1).last() == cs[i as int]);
                if applies {
                    lemma_applied_append(old(self).settings, before, self.settings, host_user_changes(old(self).aliases, cs.take(i as int), hostname@, *requesting_user, target), modifiers@);
                } else {
                    assert(host_user_changes(old(self).aliases, cs.take(i as int), hostname@, *requesting_user, target) + Seq::<SettingsModifier>::empty()
                        =~= host_user_changes(old(self).aliases, cs.take(i as int), hostname@, *requesting_user, target));
                }
            }
            i += 1;
        }
        proof {
            assert(cs.take(cs.len() as int) =~= cs);
        }
    }

    /// Apply the `Defaults!command` lines that match the command; they apply once.
    pub fn specify_command(&mut self, command: &str, arguments: &Vec<String>)
        ensures
            final(self).customisers.cmnd@.len() == 0,
            final(self).rules == old(self).rules,
            final(self).aliases == old(self).aliases,
            applied_in_order(
                old(self).settings,
                final(self).settings,
                command_changes(
                    old(self).aliases,
                    old(self).customisers.cmnd@,
                    command@,
                    arguments@.map_values(|x: String| x@),
                ),
            ),
    {
        let ghost args = arguments@.map_values(|x: String| x@);
        let mut customisers: Vec<(SpecList<SimpleCommand>, Vec<SettingsModifier>)> = Vec::new();
        std::mem::swap(&mut customisers, &mut self.customisers.cmnd);
        let ghost cs = customisers@;
        let cmnd_aliases = get_aliases(
            &self.aliases.cmnd.1,
            &self.aliases.cmnd.0,
            &command_def_flags(&self.aliases.cmnd.1, command, arguments),
        );
        let mut i: usize = 0;
        proof {
            lemma_applied_none(self.settings);
            assert(cs.take(0) =~= Seq::<(SpecList<SimpleCommand>, Vec<SettingsModifier>)>::empty());
        }
        while i < customisers.len()
            invariant
                self.customisers.cmnd@.len() == 0,
                self.rules == old(self).rules,
                self.aliases == old(self).aliases,
                cs == old(self).customisers.cmnd@,
                customisers@ == cs,
                i <= cs.len(),
                args == arguments@.map_values(|x: String| x@),
                found_view(cmnd_aliases@) == aliases_found(
                    old(self).aliases.cmnd.1@,
                    old(self).aliases.cmnd.0@,
                    cmd_def_flag_seqs(old(self).aliases.cmnd.1@, command@, args),
                    old(self).aliases.cmnd.0@.len() as int,
                ),
                applied_in_order(
                    old(self).settings,
                    self.settings,
                    command_changes(old(self).aliases, cs.take(i as int), command@, args),
                ),
            decreases customisers@.len() - i,
        {
            let (scope, modifiers) = &customisers[i];
            let flags = simple_command_flags(scope, command);
            proof {
                assert(flags@ =~= simple_flag_seq(scope@, command@));
            }
            let applies = find_item(scope, &flags, &cmnd_aliases, false) != Found::Nothing;
            let ghost before = self.settings;
            if applies {
                apply_all(&mut self.settings, modifiers);
            }
            proof {
                assert(cs.take(i + 1).drop_last() =~= cs.take(i as int));
                assert(cs.take(i + 1).last() == cs[i as int]);
                assert(applies == command_scope_applies(old(self).aliases, cs[i as int].0, command@, args));
                if applies {
                    lemma_applied_append(old(self).settings, before, self.settings, command_changes(old(self).aliases, cs.take(i as int), command@, args), modifiers@);
                } else {
                    assert(command_changes(old(self).aliases, cs.take(i as int), command@, args) + Seq::<SettingsModifier>::empty()
                        =~= command_changes(old(self).aliases, cs.take(i as int), command@, args));
                }
            }
            i += 1;
        }
        proof {
            assert(cs.take(cs.len() as int) =~= cs);
        }
    }

    /// Check whether `am_user` may do what `request` asks on the host: the settings that then
    /// apply, and the attributes of the rule that allows it, if any. Root, and a user who does
    /// not change user or group, need no password.
    /// The attributes of the commands that the user has on the host (of every rule that
    /// applies to them there), in order.
    fn matching_tags<U: UnixUser, G: UnixGroup>(&self, user: &U, hostname: &str, Ghost(g): Ghost<G>) -> (r: Vec<Tag>)
        ensures
            r@.len() == rules_count(self.rules@, self.rules@.len() as int, self.aliases, user_on_host(*user, g, hostname@)),
            keys_of(r@) == rules_all_keys(self.rules@, self.rules@.len() as int, self.aliases, user_on_host(*user, g, hostname@)),
    {
        let ghost q = user_on_host(*user, g, hostname@);
        let ghost a = self.aliases;
        let user_aliases = get_aliases(
            &self.aliases.user.1,
            &self.aliases.user.0,
            &user_def_flags(&self.aliases.user.1, user),
        );
        let host_aliases = get_aliases(
            &self.aliases.host.1,
            &self.aliases.host.0,
            &host_def_flags(&self.aliases.host.1, hostname),
        );
        let mut tags: Vec<Tag> = Vec::new();
        let mut r: usize = 0;
        while r < self.rules.len()
            invariant
                r <= self.rules@.len(),
                a == self.aliases,
                q == user_on_host(*user, g, hostname@),
                found_view(user_aliases@) == user_aliases_of(a, *user),
                found_view(host_aliases@) == host_aliases_of(a, hostname@),
                tags@.len() == rules_count(self.rules@, r as int, a, q),
                keys_of(tags@) == rules_all_keys(self.rules@, r as int, a, q),
            decreases self.rules@.len() - r,
        {
            let rule = &self.rules[r];
            let ghost before = tags@.len();
            let ghost before_keys = keys_of(tags@);
            if find_item(&rule.users, &user_flags(&rule.users, user), &user_aliases, false)
                != Found::Nothing {
                let mut p: usize = 0;
                while p < rule.permissions.len()
                    invariant
                        p <= rule.permissions@.len(),
                        a == self.aliases,
                        q == user_on_host(*user, g, hostname@),
                        found_view(host_aliases@) == host_aliases_of(a, hostname@),
                        tags@.len() == before + perms_count(rule.permissions@, p as int, a, q),
                        keys_of(tags@) == before_keys + perms_all_keys(rule.permissions@, p as int, a, q),
                    decreases rule.permissions@.len() - p,
                {
                    let (hosts, runas_cmds) = &rule.permissions[p];
                    let hf = host_flags(hosts, hostname);
                    proof {
                        assert(hf@ =~= host_flag_seq(hosts@, hostname@));
                        assert(hosts@ == rule.permissions@[p as int].0@);
                    }
                    let ghost before_p = keys_of(tags@);
                    if find_item(hosts, &hf, &host_aliases, false) != Found::Nothing {
                        let distributed = distribute_tags(runas_cmds);
                        let ghost start = tags@.len();
                        let mut k: usize = 0;
                        while k < distributed.len()
                            invariant
                                k <= distributed@.len(),
                                tags@.len() == start + k,
                                distributed@.len() == runas_cmds@.len(),
                                forall|x: int|
                                    0 <= x < distributed@.len() ==> tag_key(#[trigger] distributed@[x].1)
                                        == command_key(runas_cmds@, x),
                                keys_of(tags@) == before_p + Seq::new(k as nat, |j: int| command_key(runas_cmds@, j)),
                            decreases distributed@.len() - k,
                        {
                            let t = clone_tag(&distributed[k].1);
                            proof {
                                assert(tag_key(distributed@[k as int].1) == command_key(runas_cmds@, k as int));
                                assert(tag_key(t) == command_key(runas_cmds@, k as int));
                            }
                            let ghost prev = tags@;
                            tags.push(t);
                            proof {
                                assert(keys_of(tags@) =~= keys_of(prev).push(tag_key(t)));
                            }
                            k += 1;
                            proof {
                                assert(keys_of(tags@) =~= before_p + Seq::new(k as nat, |j: int| command_key(runas_cmds@, j)));
                            }
                        }
                        proof {
                            assert(runas_cmds@ == rule.permissions@[p as int].1@);
                            assert(keys_of(tags@) =~= before_keys + perms_all_keys(rule.permissions@, p + 1, a, q));
                        }
                    } else {
                        proof {
                            assert(keys_of(tags@) =~= before_keys + perms_all_keys(rule.permissions@, p + 1, a, q));
                        }
                    }
                    p += 1;
                }
            }
            r += 1;
        }
        tags
    }

    /// The entries that `sudo --list` shows for the user on the host: for every rule that
    /// applies to the user and every host entry of it that applies on the host, in order, the
    /// commands grouped into runs that share a runas specification.
    pub fn matching_entries<'a, U: UnixUser>(&'a self, invoking_user: &U, hostname: &str) -> (r: Vec<Entry<'a>>)
        ensures
            entries_view(r@) == rules_entries(self.rules@, self.rules@.len() as int, self.aliases, *invoking_user, hostname@),
            forall|i: int|
                0 <= i < r@.len() ==> (#[trigger] r@[i]).spec_defs() == self.aliases.cmnd.1@
                    && r@[i].spec_order() == self.aliases.cmnd.0@,
    {
        let ghost a = self.aliases;
        let ghost user = *invoking_user;
        let user_aliases = get_aliases(
            &self.aliases.user.1,
            &self.aliases.user.0,
            &user_def_flags(&self.aliases.user.1, invoking_user),
        );
        let host_aliases = get_aliases(
            &self.aliases.host.1,
            &self.aliases.host.0,
            &host_def_flags(&self.aliases.host.1, hostname),
        );
        let mut entries: Vec<Entry<'a>> = Vec::new();
        let mut r: usize = 0;
        while r < self.rules.len()
            invariant
                r <= self.rules@.len(),
                a == self.aliases,
                user == *invoking_user,
                found_view(user_aliases@) == user_aliases_of(a, user),
                found_view(host_aliases@) == host_aliases_of(a, hostname@),
                entries_view(entries@) == rules_entries(self.rules@, r as int, a, user, hostname@),
                forall|i: int|
                    0 <= i < entries@.len() ==> (#[trigger] entries@[i]).spec_defs() == self.aliases.cmnd.1@
                        && entries@[i].spec_order() == self.aliases.cmnd.0@,
            decreases self.rules@.len() - r,
        {
            let rule = &self.rules[r];
            let ghost before = entries_view(entries@);
            if find_item(&rule.users, &user_flags(&rule.users, invoking_user), &user_aliases, false)
                != Found::Nothing {
                let mut p: usize = 0;
                while p < rule.permissions.len()
                    invariant
                        p <= rule.permissions@.len(),
                        a == self.aliases,
                        *rule == self.rules@[r as int],
                        found_view(host_aliases@) == host_aliases_of(a, hostname@),
                        entries_view(entries@) == before + perms_entries(rule.permissions@, p as int, a, hostname@),
                        forall|i: int|
                            0 <= i < entries@.len() ==> (#[trigger] entries@[i]).spec_defs() == self.aliases.cmnd.1@
                                && entries@[i].spec_order() == self.aliases.cmnd.0@,
                    decreases rule.permissions@.len() - p,
                {
                    let (hosts, runas_cmds) = &rule.permissions[p];
                    let hf = host_flags(hosts, hostname);
                    proof {
                        assert(hf@ =~= host_flag_seq(hosts@, hostname@));
                        assert(hosts@ == rule.permissions@[p as int].0@);
                    }
                    let ghost mid = entries_view(entries@);
                    if find_item(hosts, &hf, &host_aliases, false) != Found::Nothing {
                        push_line_entries(&mut entries, runas_cmds, &self.aliases.cmnd);
                        proof {
                            assert(entries_view(entries@) =~= before + perms_entries(rule.permissions@, p + 1, a, hostname@));
                        }
                    }
                    p += 1;
                }
                proof {
                    assert(entries_view(entries@) =~= rules_entries(self.rules@, r + 1, a, user, hostname@));
                }
            }
            r += 1;
        }
        entries
    }

    /// Whether the user may validate their credentials on the host: when some rule gives them
    /// some command there. A password is needed when some of those commands need one, unless
    /// the user is root.
    pub fn check_validate_permission<U: UnixUser, G: UnixGroup>(
        &mut self,
        invoking_user: &U,
        invoking_group: &G,
        hostname: &str,
    ) -> (j: Judgement)
        ensures
            final(self).rules == old(self).rules,
            final(self).aliases == old(self).aliases,
            applied_in_order(
                old(self).settings,
                j.settings,
                host_user_changes(old(self).aliases, old(self).customisers.non_cmnd@, hostname@, *invoking_user, None),
            ),
            j.flags is Some <==> has_any_command(*old(self), user_on_host(*invoking_user, *invoking_group, hostname@)),
            invoking_user.root() ==> (j.flags matches Some(t) ==> t.authenticate == Authenticate::Nopasswd),
            j.flags matches Some(t) ==> ({
                let k = chosen_key(
                    rules_all_keys(old(self).rules@, old(self).rules@.len() as int, old(self).aliases, user_on_host(*invoking_user, *invoking_group, hostname@)),
                    true,
                );
                tag_key(t) == key_with_auth(k, if invoking_user.root() { Authenticate::Nopasswd } else { k.0 })
            }),
    {
        self.specify_host_user_runas(hostname, invoking_user, None);
        let skip_passwd = invoking_user.is_root();
        let tags = self.matching_tags::<U, G>(invoking_user, hostname, Ghost(*invoking_group));
        let flags = match last_max(tags, true) {
            Some(mut tag) => {
                if skip_passwd {
                    tag.authenticate = Authenticate::Nopasswd;
                }
                Some(tag)
            },
            None => None,
        };
        let ghost s1 = self.settings;
        let settings = self.settings.copy();
        proof {
            let m = host_user_changes(old(self).aliases, old(self).customisers.non_cmnd@, hostname@, *invoking_user, None);
            lemma_applied_append(old(self).settings, s1, settings, m, Seq::empty());
            assert(m + Seq::<SettingsModifier>::empty() =~= m);
        }
        Judgement { flags, settings }
    }

    /// Whether the invoking user may list permissions: their own when some rule gives them
    /// some command on the host (a password is needed only when all of those commands need
    /// one, unless they are root or stay who they are); another user's when they may run
    /// `list` as that user, or they are root.
    pub fn check_list_permission<U: UnixUser, G: UnixGroup>(
        &mut self,
        invoking_user: &U,
        hostname: &str,
        request: ListRequest<U, G>,
    ) -> (j: Judgement)
        ensures
            final(self).rules == old(self).rules,
            final(self).aliases == old(self).aliases,
            !request.inspected_user.same(invoking_user) ==> applied_in_order(
                old(self).settings,
                j.settings,
                host_user_changes(
                    old(self).aliases,
                    old(self).customisers.non_cmnd@,
                    hostname@,
                    *invoking_user,
                    Some(*request.inspected_user),
                ) + command_changes(old(self).aliases, old(self).customisers.cmnd@, "list"@, Seq::empty()),
            ),
            request.inspected_user.same(invoking_user) ==> applied_in_order(
                old(self).settings,
                j.settings,
                host_user_changes(old(self).aliases, old(self).customisers.non_cmnd@, hostname@, *invoking_user, None),
            ),
            !request.inspected_user.same(invoking_user) ==> (j.flags is Some <==> (permits(
                *old(self),
                list_query(*invoking_user, *request.inspected_user, *request.inspected_group, hostname@),
            ) || invoking_user.root())),
            request.inspected_user.same(invoking_user) ==> (j.flags is Some <==> has_any_command(
                *old(self),
                user_on_host(*invoking_user, *request.target_group, hostname@),
            )),
            invoking_user.root() ==> (j.flags matches Some(t) ==> t.authenticate == Authenticate::Nopasswd),
            request.inspected_user.same(invoking_user) ==> (j.flags matches Some(t) ==> ({
                let k = chosen_key(
                    rules_all_keys(old(self).rules@, old(self).rules@.len() as int, old(self).aliases, user_on_host(*invoking_user, *request.target_group, hostname@)),
                    false,
                );
                let skip = invoking_user.root() || (request.target_user.same(invoking_user)
                    && invoking_user.member_gid(request.target_group.gid()));
                tag_key(t) == key_with_auth(k, if skip { Authenticate::Nopasswd } else { k.0 })
            })),
            !request.inspected_user.same(invoking_user) ==> (j.flags matches Some(t) ==> ({
                let q = list_query(*invoking_user, *request.inspected_user, *request.inspected_group, hostname@);
                tag_key(t) == if permits(*old(self), q) {
                    key_with_auth(
                        deciding_key(*old(self), q),
                        if invoking_user.root() { Authenticate::Nopasswd } else { deciding_key(*old(self), q).0 },
                    )
                } else {
                    key_with_auth(key_default(), Authenticate::Nopasswd)
                }
            })),
    {
        let is_root = invoking_user.is_root();
        if !request.inspected_user.is_same(invoking_user) {
            let no_args: Vec<String> = Vec::new();
            let j = self.check(
                invoking_user,
                hostname,
                Request {
                    user: request.inspected_user,
                    group: request.inspected_group,
                    command: "list",
                    arguments: &no_args,
                },
            );
            proof {
                assert(no_args@.map_values(|x: String| x@) =~= Seq::<Seq<char>>::empty());
            }
            let flags = match j.flags {
                Some(mut tag) => {
                    if is_root {
                        tag.authenticate = Authenticate::Nopasswd;
                    }
                    Some(tag)
                },
                None => {
                    if is_root {
                        let mut tag = Tag::default();
                        tag.authenticate = Authenticate::Nopasswd;
                        Some(tag)
                    } else {
                        None
                    }
                },
            };
            Judgement { flags, settings: j.settings }
        } else {
            let same = request.target_user.is_same(invoking_user);
            let stays = in_group(invoking_user, request.target_group);
            let skip_passwd = is_root || (same && stays);
            self.specify_host_user_runas(hostname, invoking_user, None);
            let tags = self.matching_tags::<U, G>(invoking_user, hostname, Ghost(*request.target_group));
            let flags = match last_max(tags, false) {
                Some(mut tag) => {
                    if skip_passwd {
                        tag.authenticate = Authenticate::Nopasswd;
                    }
                    Some(tag)
                },
                None => None,
            };
            let ghost s1 = self.settings;
            let settings = self.settings.copy();
            proof {
                let m = host_user_changes(old(self).aliases, old(self).customisers.non_cmnd@, hostname@, *invoking_user, None);
                lemma_applied_append(old(self).settings, s1, settings, m, Seq::empty());
                assert(m + Seq::<SettingsModifier>::empty() =~= m);
            }
            Judgement { flags, settings }
        }
    }

    pub fn check<U: UnixUser, G: UnixGroup>(
        &mut self,
        am_user: &U,
        on_host: &str,
        request: Request<U, G>,
    ) -> (j: Judgement)
        ensures
            final(self).rules == old(self).rules,
            final(self).aliases == old(self).aliases,
            applied_in_order(
                old(self).settings,
                j.settings,
                host_user_changes(
                    old(self).aliases,
                    old(self).customisers.non_cmnd@,
                    on_host@,
                    *am_user,
                    Some(*request.user),
                ) + command_changes(
                    old(self).aliases,
                    old(self).customisers.cmnd@,
                    request.command@,
                    request.arguments@.map_values(|x: String| x@),
                ),
            ),
            j.flags is Some <==> permits(*old(self), query_of(*am_user, on_host@, request)),
            (am_user.root() || (request.user.same(am_user) && request.user.member_gid(
                request.group.gid(),
            ))) ==> (j.flags matches Some(t) ==> t.authenticate == Authenticate::Nopasswd),
            j.flags matches Some(t) ==> tag_key(t) == key_with_auth(
                deciding_key(*old(self), query_of(*am_user, on_host@, request)),
                if am_user.root() || (request.user.same(am_user) && request.user.member_gid(
                    request.group.gid(),
                )) {
                    Authenticate::Nopasswd
                } else {
                    deciding_key(*old(self), query_of(*am_user, on_host@, request)).0
                },
            ),
            ({
                let q = query_of(*am_user, on_host@, request);
                (permitted_cmds(*old(self), q)[deciding_index(*old(self), q)] matches Qualified::Allow(Meta::All)) ==> (
                j.flags matches Some(t) ==> t.env == all_env(
                    rules_envs(old(self).rules@, old(self).rules@.len() as int, old(self).aliases, q)[deciding_index(*old(self), q)],
                ))
            }),
    {
        let ghost s0 = self.settings;
        self.specify_host_user_runas(on_host, am_user, Some(request.user));
        let ghost s1 = self.settings;
        self.specify_command(request.command, request.arguments);
        let ghost s2 = self.settings;
        let is_root = am_user.is_root();
        let same = request.user.is_same(am_user);
        let stays = in_group(request.user, request.group);
        proof {
            assert(is_root == am_user.root());
            assert(same == request.user.same(am_user));
            assert(stays == request.user.member_gid(request.group.gid()));
        }
        let skip_passwd = is_root || (same && stays);
        let flags = match check_permission(self, am_user, on_host, &request) {
            Some(mut tag) => {
                if skip_passwd {
                    tag.authenticate = Authenticate::Nopasswd;
                }
                Some(tag)
            },
            None => None,
        };
        let settings = self.settings.copy();
        proof {
            let q = query_of(*am_user, on_host@, request);
            if flags is Some && (permitted_cmds(*old(self), q)[deciding_index(*old(self), q)] matches Qualified::Allow(Meta::All)) {
                law_all_implies_setenv(*old(self), q);
            }
            let m1 = host_user_changes(
                old(self).aliases,
                old(self).customisers.non_cmnd@,
                on_host@,
                *am_user,
                Some(*request.user),
            );
            let m2 = command_changes(
                old(self).aliases,
                old(self).customisers.cmnd@,
                request.command@,
                request.arguments@.map_values(|x: String| x@),
            );
            lemma_applied_append(s0, s1, s2, m1, m2);
            lemma_applied_append(s0, s2, settings, m1 + m2, Seq::empty());
            assert(m1 + m2 + Seq::<SettingsModifier>::empty() =~= m1 + m2);
        }
        Judgement { flags, settings }
    }
}

/// The last tag whose need of a password is `needs_passwd`, or when there is none, the last
/// tag (the last greatest by that key).
fn last_max(tags: Vec<Tag>, needs_passwd: bool) -> (r: Option<Tag>)
    ensures
        r is Some <==> tags@.len() > 0,
        r matches Some(t) ==> tag_key(t) == chosen_key(keys_of(tags@), needs_passwd),
{
    let ghost keys = keys_of(tags@);
    let mut best: Option<Tag> = None;
    let mut i: usize = 0;
    while i < tags.len()
        invariant
            i <= tags@.len(),
            keys == keys_of(tags@),
            best is Some <==> i > 0,
            best matches Some(b) ==> tag_key(b) == match last_with(keys, needs_passwd, i as int) {
                Some(j) => keys[j],
                None => keys[i - 1],
            },
        decreases tags@.len() - i,
    {
        proof {
            lemma_last_with(keys, needs_passwd, i as int);
            if i > 0 {
                assert(keys[i - 1] == tag_key(tags@[i - 1]));
            }
            assert(keys[i as int] == tag_key(tags@[i as int]));
        }
        let key = tags[i].needs_passwd() == needs_passwd;
        let replace = match &best {
            None => true,
            Some(b) => key || b.needs_passwd() != needs_passwd,
        };
        if replace {
            best = Some(clone_tag(&tags[i]));
        }
        i += 1;
    }
    best
}

/// Whether the runas specification of a command lets the user act as requested: see
/// `runas_allows`.
fn runas_check<U: UnixUser, G: UnixGroup>(
    runas: Option<&RunAs>,
    am_user: &U,
    request: &Request<U, G>,
    runas_user_aliases: &FoundAliases,
    runas_group_aliases: &FoundAliases,
    Ghost(a): Ghost<AliasTable>,
) -> (b: bool)
    requires
        found_view(runas_user_aliases@) == runas_user_aliases_of(a, *request.user),
        found_view(runas_group_aliases@) == runas_group_aliases_of(a, *request.group),
    ensures
        b == runas_allows(
            match runas {
                Some(r) => Some(*r),
                None => None,
            },
            a,
            query_of(*am_user, Seq::empty(), *request),
        ),
{
    let stays_in_group = in_group(request.user, request.group);
    match runas {
        Some(runas) => {
            let mut ok = true;
            if !request.user.is_same(am_user) || (stays_in_group && runas.users.len() > 0) {
                ok = find_item(
                    &runas.users,
                    &user_flags(&runas.users, request.user),
                    runas_user_aliases,
                    false,
                ) != Found::Nothing;
            }
            if ok && !stays_in_group {
                ok = find_item(
                    &runas.groups,
                    &group_flags(&runas.groups, request.group),
                    runas_group_aliases,
                    false,
                ) != Found::Nothing;
            }
            ok
        },
        None => request.user.is_root() && stays_in_group,
    }
}

/// The attributes of the last command specification that decides the request, when it
/// allows it; `None` when nothing allows it. Allowed exactly when the policy `permits` it.
fn check_permission<U: UnixUser, G: UnixGroup>(
    sudoers: &Sudoers,
    am_user: &U,
    on_host: &str,
    request: &Request<U, G>,
) -> (r: Option<Tag>)
    ensures
        r is Some <==> permits(*sudoers, query_of(*am_user, on_host@, *request)),
        r matches Some(t) ==> tag_key(t) == deciding_key(*sudoers, query_of(*am_user, on_host@, *request)),
{
    let ghost q = query_of(*am_user, on_host@, *request);
    let ghost a = sudoers.aliases;
    let aliases = &sudoers.aliases;
    let cmnd_aliases = get_aliases(
        &aliases.cmnd.1,
        &aliases.cmnd.0,
        &command_def_flags(&aliases.cmnd.1, request.command, request.arguments),
    );
    let runas_user_aliases = get_aliases(
        &aliases.runas.1,
        &aliases.runas.0,
        &user_def_flags(&aliases.runas.1, request.user),
    );
    let runas_group_aliases = get_aliases(
        &aliases.runas.1,
        &aliases.runas.0,
        &group_def_flags(&aliases.runas.1, request.group),
    );
    let user_aliases = get_aliases(
        &aliases.user.1,
        &aliases.user.0,
        &user_def_flags(&aliases.user.1, am_user),
    );
    let host_aliases = get_aliases(
        &aliases.host.1,
        &aliases.host.0,
        &host_def_flags(&aliases.host.1, on_host),
    );
    // the commands that the user may run on this host as the requested user and group
    let mut allowed_tags: Vec<Tag> = Vec::new();
    let mut allowed_cmds: Vec<&Spec<Command>> = Vec::new();
    let mut r: usize = 0;
    while r < sudoers.rules.len()
        invariant
            r <= sudoers.rules@.len(),
            a == sudoers.aliases,
            q == query_of(*am_user, on_host@, *request),
            found_view(user_aliases@) == user_aliases_of(a, *am_user),
            found_view(host_aliases@) == host_aliases_of(a, on_host@),
            found_view(runas_user_aliases@) == runas_user_aliases_of(a, *request.user),
            found_view(runas_group_aliases@) == runas_group_aliases_of(a, *request.group),
            allowed_tags@.len() == allowed_cmds@.len(),
            cmds_view(allowed_cmds@) == rules_cmds(sudoers.rules@, r as int, a, q),
            keys_of(allowed_tags@) == rules_keys(sudoers.rules@, r as int, a, q),
        decreases sudoers.rules@.len() - r,
    {
        let rule = &sudoers.rules[r];
        let ghost before = cmds_view(allowed_cmds@);
        let ghost before_keys = keys_of(allowed_tags@);
        if find_item(&rule.users, &user_flags(&rule.users, am_user), &user_aliases, false)
            != Found::Nothing {
            let mut p: usize = 0;
            proof {
                assert(before + perms_cmds(rule.permissions@, 0, a, q) =~= before);
                assert(before_keys + perms_keys(rule.permissions@, 0, a, q) =~= before_keys);
            }
            while p < rule.permissions.len()
                invariant
                    p <= rule.permissions@.len(),
                    a == sudoers.aliases,
                    q == query_of(*am_user, on_host@, *request),
                    found_view(host_aliases@) == host_aliases_of(a, on_host@),
                    found_view(runas_user_aliases@) == runas_user_aliases_of(a, *request.user),
                    found_view(runas_group_aliases@) == runas_group_aliases_of(a, *request.group),
                    allowed_tags@.len() == allowed_cmds@.len(),
                    cmds_view(allowed_cmds@) == before + perms_cmds(rule.permissions@, p as int, a, q),
                    keys_of(allowed_tags@) == before_keys + perms_keys(rule.permissions@, p as int, a, q),
                decreases rule.permissions@.len() - p,
            {
                let (hosts, runas_cmds) = &rule.permissions[p];
                let ghost before_p = cmds_view(allowed_cmds@);
                let ghost before_pk = keys_of(allowed_tags@);
                let hf = host_flags(hosts, on_host);
                proof {
                    assert(hf@ =~= host_flag_seq(hosts@, on_host@));
                    assert(hosts@ == rule.permissions@[p as int].0@);
                }
                let host_found = find_item(hosts, &hf, &host_aliases, false);
                if host_found != Found::Nothing {
                    let distributed = distribute_tags(runas_cmds);
                    let mut k: usize = 0;
                    proof {
                        assert(before_p + line_cmds(runas_cmds@, 0, a, q) =~= before_p);
                        assert(before_pk + line_keys(runas_cmds@, 0, a, q) =~= before_pk);
                    }
                    while k < distributed.len()
                        invariant
                            k <= distributed@.len(),
                            a == sudoers.aliases,
                            q == query_of(*am_user, on_host@, *request),
                            found_view(runas_user_aliases@) == runas_user_aliases_of(a, *request.user),
                            found_view(runas_group_aliases@) == runas_group_aliases_of(a, *request.group),
                            allowed_tags@.len() == allowed_cmds@.len(),
                            distributed@.len() == runas_cmds@.len(),
                            forall|x: int|
                                0 <= x < distributed@.len() ==> (#[trigger] distributed@[x].0
                                    matches Some(i) ==> i < runas_cmds@.len()),
                            forall|x: int|
                                0 <= x < distributed@.len() ==> match last_runas(runas_cmds@, x) {
                                    Some(i) => #[trigger] distributed@[x].0 == Some(i as usize),
                                    None => distributed@[x].0 is None,
                                },
                            cmds_view(allowed_cmds@) == before_p + line_cmds(runas_cmds@, k as int, a, q),
                            keys_of(allowed_tags@) == before_pk + line_keys(runas_cmds@, k as int, a, q),
                            forall|x: int|
                                0 <= x < distributed@.len() ==> tag_key(#[trigger] distributed@[x].1)
                                    == command_key(runas_cmds@, x),
                        decreases distributed@.len() - k,
                    {
                        let ghost before_k = cmds_view(allowed_cmds@);
                        let ghost before_kk = keys_of(allowed_tags@);
                        proof {
                            lemma_last_runas_some(runas_cmds@, k as int);
                        }
                        let runas: Option<&RunAs> = match distributed[k].0 {
                            Some(i) => {
                                let x = runas_cmds[i].0.as_ref();
                                proof {
                                    assert(x is Some <==> runas_cmds@[i as int].0 is Some);
                                    assert(x is Some ==> *x->0 == runas_cmds@[i as int].0->0);
                                }
                                x
                            },
                            None => None,
                        };
                        let ghost rr = match runas {
                            Some(x) => Some(*x),
                            None => None,
                        };
                        proof {
                            assert(match last_runas(runas_cmds@, k as int) {
                                Some(i) => distributed@[k as int].0 == Some(i as usize),
                                None => distributed@[k as int].0 is None,
                            });
                            lemma_last_runas(runas_cmds@, k as int);
                            match last_runas(runas_cmds@, k as int) {
                                Some(i) => {
                                    assert(runas_cmds@[i].0 is Some);
                                    assert(rr == runas_cmds@[i].0);
                                },
                                None => {
                                    assert(rr is None);
                                },
                            }
                            assert(rr == runas_for(runas_cmds@, k as int));
                        }
                        let allowed = runas_check(
                            runas,
                            am_user,
                            request,
                            &runas_user_aliases,
                            &runas_group_aliases,
                            Ghost(a),
                        );
                        proof {
                            assert(runas_allows(runas_for(runas_cmds@, k as int), a, q) == allowed) by {
                                lemma_runas_host_free(runas_for(runas_cmds@, k as int), a, *am_user, on_host@, *request);
                            }
                        }
                        if allowed {
                            allowed_tags.push(clone_tag(&distributed[k].1));
                            allowed_cmds.push(&runas_cmds[k].1.1);
                            proof {
                                assert(cmds_view(allowed_cmds@) =~= before_k.push(runas_cmds@[k as int].1.1));
                                assert(keys_of(allowed_tags@) =~= before_kk.push(command_key(runas_cmds@, k as int)));
                            }
                        }
                        proof {
                            assert(before_p + line_cmds(runas_cmds@, k + 1, a, q) =~= (if allowed {
                                (before_p + line_cmds(runas_cmds@, k as int, a, q)).push(runas_cmds@[k as int].1.1)
                            } else {
                                before_p + line_cmds(runas_cmds@, k as int, a, q)
                            }));
                            assert(before_pk + line_keys(runas_cmds@, k + 1, a, q) =~= (if allowed {
                                (before_pk + line_keys(runas_cmds@, k as int, a, q)).push(command_key(runas_cmds@, k as int))
                            } else {
                                before_pk + line_keys(runas_cmds@, k as int, a, q)
                            }));
                        }
                        k += 1;
                    }
                    proof {
                        assert(before + perms_cmds(rule.permissions@, p + 1, a, q) =~= before_p + line_cmds(runas_cmds@, runas_cmds@.len() as int, a, q));
                        assert(before_keys + perms_keys(rule.permissions@, p + 1, a, q) =~= before_pk + line_keys(runas_cmds@, runas_cmds@.len() as int, a, q));
                    }
                } else {
                    proof {
                        assert(before + perms_cmds(rule.permissions@, p + 1, a, q) =~= before_p);
                        assert(before_keys + perms_keys(rule.permissions@, p + 1, a, q) =~= before_pk);
                    }
                }
                p += 1;
            }
        }
        proof {
            assert(user_flag_seq(rule.users@, *am_user) == user_flag_seq(rule.users@, q.am_user));
        }
        r += 1;
    }
    let ghost cmds = cmds_view(allowed_cmds@);
    let ghost keys = keys_of(allowed_tags@);
    proof {
        lemma_keys_len(sudoers.rules@, sudoers.rules@.len() as int, a, q);
    }
    // the last of those commands that matches the request decides
    let mut result: Option<Tag> = None;
    let mut c: usize = 0;
    while c < allowed_cmds.len()
        invariant
            c <= allowed_cmds@.len(),
            allowed_tags@.len() == allowed_cmds@.len(),
            cmds == cmds_view(allowed_cmds@),
            found_view(cmnd_aliases@) == cmnd_aliases_of(sudoers.aliases, request.command@, request.arguments@.map_values(|x: String| x@)),
            (result is Some) == (decide(
                cmds,
                cmd_flag_seq(cmds, request.command@, request.arguments@.map_values(|x: String| x@)),
                cmnd_aliases_of(sudoers.aliases, request.command@, request.arguments@.map_values(|x: String| x@)),
                None,
                c as int,
            ) is Some),
            keys == keys_of(allowed_tags@),
            result matches Some(t) ==> (decide(
                cmds,
                cmd_flag_seq(cmds, request.command@, request.arguments@.map_values(|x: String| x@)),
                cmnd_aliases_of(sudoers.aliases, request.command@, request.arguments@.map_values(|x: String| x@)),
                None,
                c as int,
            ) matches Some(i) && tag_key(t) == keys[i]),
        decreases allowed_cmds@.len() - c,
    {
        let spec = allowed_cmds[c];
        proof {
            assert(cmds[c as int] == *spec);
        }
        let (allow, who) = match spec {
            Qualified::Allow(m) => (true, m),
            Qualified::Forbid(m) => (false, m),
        };
        let decided = match who {
            Meta::All => Some(allow),
            Meta::Only(cmd) => {
                if matching::match_command(cmd, request.command, request.arguments) {
                    Some(allow)
                } else {
                    None
                }
            },
            Meta::Alias(id) => match matching::lookup(&cmnd_aliases, id) {
                Some(b) => Some(b == allow),
                None => None,
            },
        };
        match decided {
            Some(true) => {
                result = Some(clone_tag(&allowed_tags[c]));
            },
            Some(false) => {
                result = None;
            },
            None => {},
        }
        c += 1;
    }
    result
}

/// Whether a runas specification allows the request does not depend on the host.
proof fn lemma_runas_host_free<U: UnixUser, G: UnixGroup>(
    runas: Option<RunAs>,
    a: AliasTable,
    am_user: U,
    host: Seq<char>,
    request: Request<U, G>,
)
    ensures
        runas_allows(runas, a, query_of(am_user, host, request)) == runas_allows(
            runas,
            a,
            query_of(am_user, Seq::empty(), request),
        ),
{
}

} // verus!
