//! The remotes of a repository: which one counts as the default, and the checks a remote's name
//! and URL pass before anything is written to the repository's configuration.
use vstd::prelude::*;
use git2::Remote;
use vstd::string::StrSliceExecFns;
use crate::text::{same_text, trim, trimmed};

verus! {

/// The key under which the app keeps its own choice of default remote.
pub const GUITAR_DEFAULT_REMOTE_CONFIG: &'static str = "guitar.defaultRemote";

/// The key git pushes to by default.
pub const PUSH_DEFAULT_CONFIG: &'static str = "remote.pushDefault";

/// A remote as the repository's configuration lists it.
#[derive(Debug, Clone, PartialEq, Eq)]
pub struct RemoteEntry {
    pub name: String,
    pub url: String,
    pub push_url: Option<String>,
}

/// Why a remote's name or URL was refused.
#[derive(Clone, Copy, Debug, PartialEq, Eq, Structural)]
pub enum RemoteError {
    EmptyName,
    InvalidName,
    EmptyUrl,
    UnchangedName,
}

impl RemoteError {
    pub fn message(&self) -> (m: &'static str)
        ensures
            m@ == match *self {
                RemoteError::EmptyName => "remote name cannot be empty"@,
                RemoteError::InvalidName => "remote name is invalid"@,
                RemoteError::EmptyUrl => "remote URL cannot be empty"@,
                RemoteError::UnchangedName => "new remote name must differ from current remote name"@,
            },
    {
        match self {
            RemoteError::EmptyName => "remote name cannot be empty",
            RemoteError::InvalidName => "remote name is invalid",
            RemoteError::EmptyUrl => "remote URL cannot be empty",
            RemoteError::UnchangedName => "new remote name must differ from current remote name",
        }
    }
}

/// Whether one of `remotes` is called `name`.
pub open spec fn has_remote(remotes: Seq<RemoteEntry>, name: Seq<char>) -> bool {
    exists|i: int| 0 <= i < remotes.len() && (#[trigger] remotes[i]).name@ == name
}

pub fn remote_exists(remotes: &[RemoteEntry], name: &str) -> (b: bool)
    ensures
        b == has_remote(remotes@, name@),
{
    let mut i: usize = 0;
    while i < remotes.len()
        invariant
            i <= remotes@.len(),
            forall|j: int| 0 <= j < i ==> (#[trigger] remotes@[j]).name@ != name@,
        decreases remotes@.len() - i,
    {
        if same_text(remotes[i].name.as_str(), name) {
            return true;
        }
        i = i + 1;
    }
    false
}

/// A configured remote name, trimmed, if it names one of `remotes`.
pub open spec fn configured_remote(remotes: Seq<RemoteEntry>, value: Option<Seq<char>>) -> Option<Seq<char>> {
    match value {
        Some(v) => if has_remote(remotes, trimmed(v)) {
            Some(trimmed(v))
        } else {
            None
        },
        None => None,
    }
}

/// The default remote: the app's own choice, then git's push default, then the upstream of the
/// current branch, then `origin`, then the first remote listed; none when there are no remotes.
/// The two configured choices count once trimmed, and any choice only when it names a remote.
pub open spec fn default_remote(
    remotes: Seq<RemoteEntry>,
    guitar_default: Option<Seq<char>>,
    push_default: Option<Seq<char>>,
    upstream: Option<Seq<char>>,
) -> Option<Seq<char>> {
    if remotes.len() == 0 {
        None
    } else if configured_remote(remotes, guitar_default) is Some {
        configured_remote(remotes, guitar_default)
    } else if configured_remote(remotes, push_default) is Some {
        configured_remote(remotes, push_default)
    } else if upstream matches Some(u) && has_remote(remotes, u) {
        upstream
    } else if has_remote(remotes, "origin"@) {
        Some("origin"@)
    } else {
        Some(remotes[0].name@)
    }
}

pub open spec fn str_view(s: Option<&str>) -> Option<Seq<char>> {
    match s {
        Some(v) => Some(v@),
        None => None,
    }
}

fn configured<'a>(remotes: &[RemoteEntry], value: Option<&'a str>) -> (r: Option<&'a str>)
    ensures
        str_view(r) == configured_remote(remotes@, str_view(value)),
{
    match value {
        Some(v) => {
            let name = trim(v);
            if remote_exists(remotes, name) {
                Some(name)
            } else {
                None
            }
        },
        None => None,
    }
}

/// Picks the default remote from what the repository's configuration says.
pub fn choose_default_remote(remotes: &[RemoteEntry], guitar_default: Option<&str>, push_default: Option<&str>, upstream: Option<&str>) -> (r: Option<String>)
    ensures
        match r {
            Some(name) => default_remote(remotes@, str_view(guitar_default), str_view(push_default), str_view(upstream)) == Some(name@),
            None => default_remote(remotes@, str_view(guitar_default), str_view(push_default), str_view(upstream)) is None,
        },
{
    if remotes.len() == 0 {
        return None;
    }
    if let Some(name) = configured(remotes, guitar_default) {
        return Some(String::from_str(name));
    }
    if let Some(name) = configured(remotes, push_default) {
        return Some(String::from_str(name));
    }
    if let Some(name) = upstream {
        if remote_exists(remotes, name) {
            return Some(String::from_str(name));
        }
    }
    if remote_exists(remotes, "origin") {
        return Some(String::from_str("origin"));
    }
    Some(remotes[0].name.clone())
}

/// Whether git accepts `name` as the name of a remote.
pub uninterp spec fn valid_remote_name(name: Seq<char>) -> bool;

/// `git2::Remote::is_valid_name`: libgit2's check of a remote's name. The contract names its
/// answer and says nothing of what libgit2 accepts; a name holding a NUL character, which the
/// call cannot pass to libgit2 and panics on, is left out.
#[verifier::external_body]
fn remote_name_is_valid(name: &str) -> (b: bool)
    requires
        !name@.contains('\0'),
    ensures
        b == valid_remote_name(name@),
{
    Remote::is_valid_name(name)
}

/// The outcome of checking a remote's name: the name trimmed, or why it was refused.
pub open spec fn checked_remote_name(name: Seq<char>) -> Result<Seq<char>, RemoteError> {
    if trimmed(name).len() == 0 {
        Err(RemoteError::EmptyName)
    } else if !valid_remote_name(trimmed(name)) {
        Err(RemoteError::InvalidName)
    } else {
        Ok(trimmed(name))
    }
}

pub open spec fn checked_view(r: Result<&str, RemoteError>) -> Result<Seq<char>, RemoteError> {
    match r {
        Ok(s) => Ok(s@),
        Err(e) => Err(e),
    }
}

proof fn lemma_trimmed_start_keeps_nul(s: Seq<char>)
    requires
        !s.contains('\0'),
    ensures
        !crate::text::trimmed_start(s).contains('\0'),
    decreases s.len(),
{
    if s.len() > 0 && crate::text::is_space(s[0]) {
        assert forall|i: int| 0 <= i < s.drop_first().len() implies s.drop_first()[i] != '\0' by {
            assert(s.drop_first()[i] == s[i + 1]);
        }
        lemma_trimmed_start_keeps_nul(s.drop_first());
    }
}

proof fn lemma_trimmed_end_keeps_nul(s: Seq<char>)
    requires
        !s.contains('\0'),
    ensures
        !crate::text::trimmed_end(s).contains('\0'),
    decreases s.len(),
{
    if s.len() > 0 && crate::text::is_space(s.last()) {
        assert forall|i: int| 0 <= i < s.drop_last().len() implies s.drop_last()[i] != '\0' by {
            assert(s.drop_last()[i] == s[i]);
        }
        lemma_trimmed_end_keeps_nul(s.drop_last());
    }
}

/// Checks a remote's name: it must not be blank, and git must accept it once trimmed.
pub fn validate_remote_name(name: &str) -> (r: Result<&str, RemoteError>)
    requires
        !name@.contains('\0'),
    ensures
        checked_view(r) == checked_remote_name(name@),
{
    proof {
        lemma_trimmed_start_keeps_nul(name@);
        lemma_trimmed_end_keeps_nul(crate::text::trimmed_start(name@));
    }
    let value = trim(name);
    if value.unicode_len() == 0 {
        return Err(RemoteError::EmptyName);
    }
    if !remote_name_is_valid(value) {
        return Err(RemoteError::InvalidName);
    }
    Ok(value)
}

/// Checks a remote's URL: it must not be blank; it is taken trimmed.
pub fn validate_remote_url(url: &str) -> (r: Result<&str, RemoteError>)
    ensures
        checked_view(r) == (if trimmed(url@).len() == 0 {
            Err(RemoteError::EmptyUrl)
        } else {
            Ok(trimmed(url@))
        }),
{
    let url = trim(url);
    if url.unicode_len() == 0 {
        return Err(RemoteError::EmptyUrl);
    }
    Ok(url)
}

/// Checks a rename: both names must pass, and the new one must differ from the old.
pub fn validate_remote_rename<'a>(old_name: &'a str, new_name: &'a str) -> (r: Result<(&'a str, &'a str), RemoteError>)
    requires
        !old_name@.contains('\0'),
        !new_name@.contains('\0'),
    ensures
        match (checked_remote_name(old_name@), checked_remote_name(new_name@)) {
            (Err(e), _) => r == Err::<(&str, &str), RemoteError>(e),
            (Ok(_), Err(e)) => r == Err::<(&str, &str), RemoteError>(e),
            (Ok(o), Ok(n)) => if o == n {
                r == Err::<(&str, &str), RemoteError>(RemoteError::UnchangedName)
            } else {
                r matches Ok((a, b)) && a@ == o && b@ == n
            },
        },
{
    let old_name = match validate_remote_name(old_name) {
        Ok(name) => name,
        Err(e) => return Err(e),
    };
    let new_name = match validate_remote_name(new_name) {
        Ok(name) => name,
        Err(e) => return Err(e),
    };
    if same_text(old_name, new_name) {
        return Err(RemoteError::UnchangedName);
    }
    Ok((old_name, new_name))
}

/// A push URL as it is stored: trimmed, and none at all when blank.
pub fn push_url_value(push_url: Option<&str>) -> (r: Option<&str>)
    ensures
        str_view(r) == match push_url {
            Some(u) => if trimmed(u@).len() == 0 {
                None
            } else {
                Some(trimmed(u@))
            },
            None => None,
        },
{
    match push_url {
        Some(u) => {
            let value = trim(u);
            if value.unicode_len() == 0 {
                None
            } else {
                Some(value)
            }
        },
        None => None,
    }
}

/// Whether a configured value names `expected` once trimmed.
pub fn config_value_matches(value: Option<&str>, expected: &str) -> (b: bool)
    ensures
        b == (value matches Some(v) && trimmed(v@) == expected@),
{
    match value {
        Some(v) => same_text(trim(v), expected),
        None => false,
    }
}

/// Which default keys a rename of `old_name` rewrites: both when the app's own default named it,
/// the push default alone when only that did.
pub fn renamed_defaults(guitar_default: Option<&str>, push_default: Option<&str>, old_name: &str) -> (r: (bool, bool))
    ensures
        r == (if guitar_default matches Some(v) && trimmed(v@) == old_name@ {
            (true, true)
        } else if push_default matches Some(v) && trimmed(v@) == old_name@ {
            (false, true)
        } else {
            (false, false)
        }),
{
    if config_value_matches(guitar_default, old_name) {
        (true, true)
    } else if config_value_matches(push_default, old_name) {
        (false, true)
    } else {
        (false, false)
    }
}

/// Which default keys a deletion of `name` clears: each that named it.
pub fn cleared_defaults(guitar_default: Option<&str>, push_default: Option<&str>, name: &str) -> (r: (bool, bool))
    ensures
        r == (
            guitar_default matches Some(v) && trimmed(v@) == name@,
            push_default matches Some(v) && trimmed(v@) == name@,
        ),
{
    (config_value_matches(guitar_default, name), config_value_matches(push_default, name))
}

/// Whether name `a` comes no later than name `b`: in the order of their characters' code points,
/// which is the order of their UTF-8 bytes.
pub open spec fn name_le(a: Seq<char>, b: Seq<char>) -> bool
    decreases a.len(),
{
    if a.len() == 0 {
        true
    } else if b.len() == 0 {
        false
    } else if (a[0] as u32) < (b[0] as u32) {
        true
    } else if (a[0] as u32) > (b[0] as u32) {
        false
    } else {
        name_le(a.drop_first(), b.drop_first())
    }
}

proof fn lemma_name_le_total(a: Seq<char>, b: Seq<char>)
    ensures
        name_le(a, b) || name_le(b, a),
    decreases a.len(),
{
    if a.len() > 0 && b.len() > 0 && (a[0] as u32) == (b[0] as u32) {
        lemma_name_le_total(a.drop_first(), b.drop_first());
    }
}

proof fn lemma_name_le_transitive(a: Seq<char>, b: Seq<char>, c: Seq<char>)
    requires
        name_le(a, b),
        name_le(b, c),
    ensures
        name_le(a, c),
    decreases a.len(),
{
    if a.len() > 0 && b.len() > 0 && c.len() > 0 && (a[0] as u32) == (b[0] as u32) && (b[0] as u32) == (c[0] as u32) {
        lemma_name_le_transitive(a.drop_first(), b.drop_first(), c.drop_first());
    }
}

fn names_in_order(a: &str, b: &str) -> (r: bool)
    ensures
        r == name_le(a@, b@),
{
    let n = a.unicode_len();
    let m = b.unicode_len();
    let mut i: usize = 0;
    proof {
        assert(a@.skip(0) =~= a@);
        assert(b@.skip(0) =~= b@);
    }
    while i < n && i < m && a.get_char(i) == b.get_char(i)
        invariant
            n == a@.len(),
            m == b@.len(),
            i <= n,
            i <= m,
            name_le(a@, b@) == name_le(a@.skip(i as int), b@.skip(i as int)),
        decreases n - i,
    {
        proof {
            assert(a@.skip(i as int).drop_first() =~= a@.skip(i + 1));
            assert(b@.skip(i as int).drop_first() =~= b@.skip(i + 1));
            assert(a@.skip(i as int)[0] == a@[i as int]);
            assert(b@.skip(i as int)[0] == b@[i as int]);
        }
        i = i + 1;
    }
    if i == n {
        return true;
    }
    if i == m {
        return false;
    }
    proof {
        assert(a@.skip(i as int)[0] == a@[i as int]);
        assert(b@.skip(i as int)[0] == b@[i as int]);
    }
    (a.get_char(i) as u32) < (b.get_char(i) as u32)
}

/// Whether the remotes are in the order of their names.
pub open spec fn sorted_by_name(s: Seq<RemoteEntry>) -> bool {
    forall|i: int, j: int| 0 <= i < j < s.len() ==> name_le((#[trigger] s[i]).name@, (#[trigger] s[j]).name@)
}

/// The remotes in the order of their names; remotes of the same name keep their order.
pub fn sort_remotes(entries: Vec<RemoteEntry>) -> (sorted: Vec<RemoteEntry>)
    ensures
        sorted_by_name(sorted@),
        sorted@.to_multiset() == entries@.to_multiset(),
{
    broadcast use vstd::seq_lib::group_to_multiset_ensures;
    let ghost given = entries@;
    let mut rest = entries;
    let mut sorted: Vec<RemoteEntry> = Vec::new();
    let ghost mut taken: nat = 0;
    proof {
        assert(given.skip(0) =~= given);
        assert(given.take(0) =~= Seq::<RemoteEntry>::empty());
    }
    while rest.len() > 0
        invariant
            taken <= given.len(),
            rest@ == given.skip(taken as int),
            sorted_by_name(sorted@),
            sorted@.to_multiset() == given.take(taken as int).to_multiset(),
        decreases rest@.len(),
    {
        let entry = rest.remove(0);
        let mut p: usize = 0;
        while p < sorted.len() && names_in_order(sorted[p].name.as_str(), entry.name.as_str())
            invariant
                p <= sorted@.len(),
                forall|i: int| 0 <= i < p ==> name_le((#[trigger] sorted@[i]).name@, entry.name@),
            decreases sorted@.len() - p,
        {
            p = p + 1;
        }
        let ghost before = sorted@;
        proof {
            if p < before.len() {
                lemma_name_le_total(before[p as int].name@, entry.name@);
            }
        }
        sorted.insert(p, entry);
        proof {
            let after = sorted@;
            assert(after =~= before.insert(p as int, entry));
            assert forall|i: int, j: int| 0 <= i < j < after.len() implies name_le((#[trigger] after[i]).name@, (#[trigger] after[j]).name@) by {
                if j < p {
                    assert(after[i] == before[i] && after[j] == before[j]);
                } else if j == p {
                    assert(after[i] == before[i]);
                } else if i < p {
                    assert(after[i] == before[i] && after[j] == before[j - 1]);
                    if p < before.len() {
                        lemma_name_le_transitive(before[i].name@, entry.name@, before[p as int].name@);
                        if j - 1 > p {
                            lemma_name_le_transitive(before[i].name@, before[p as int].name@, before[j - 1].name@);
                        }
                    }
                } else if i == p {
                    assert(after[j] == before[j - 1]);
                    if j - 1 > p {
                        lemma_name_le_transitive(entry.name@, before[p as int].name@, before[j - 1].name@);
                    }
                } else {
                    assert(after[i] == before[i - 1] && after[j] == before[j - 1]);
                }
            }
            vstd::seq_lib::to_multiset_insert(before, p as int, entry);
            assert(given.take(taken + 1 as int) =~= given.take(taken as int).push(entry));
            vstd::seq_lib::to_multiset_build(given.take(taken as int), entry);
            assert(after.to_multiset() == given.take(taken + 1 as int).to_multiset());
            taken = taken + 1;
            assert(rest@ =~= given.skip(taken as int));
        }
    }
    proof {
        assert(given.take(taken as int) =~= given);
    }
    sorted
}

/// The default remote is always one of the remotes, and there is one whenever there are remotes.
pub proof fn lemma_default_is_a_remote(
    remotes: Seq<RemoteEntry>,
    guitar_default: Option<Seq<char>>,
    push_default: Option<Seq<char>>,
    upstream: Option<Seq<char>>,
)
    ensures
        default_remote(remotes, guitar_default, push_default, upstream) is None <==> remotes.len() == 0,
        default_remote(remotes, guitar_default, push_default, upstream) matches Some(name) ==> has_remote(remotes, name),
{
    if remotes.len() > 0 {
        assert(remotes[0].name@ == remotes[0].name@);
        assert(has_remote(remotes, remotes[0].name@));
    }
}

} // verus!
