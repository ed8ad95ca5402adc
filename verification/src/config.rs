//! Config entries (`Group:Title` keys) and the config itself: the keys to
//! back up and where the backups go.
use vstd::prelude::*;

use crate::error::{text_result, Error};
use crate::pathname::{is_absolute, is_absolute_path, join, parent_dir, parent_or_empty, path_join};
use crate::text::{
    all_white_space, chars_of, eq_ignore_ascii_case, eq_ignoring_ascii_case, find_char,
    fold_ascii_case, is_ascii_case_pair, is_blank, is_white_space, lemma_eq_ignoring_case_is_per_character, lemma_trim_contains, lemma_trim_idempotent,
    lemma_trim_removes_surrounding_space, lemma_trim_shape, trim, trim_str,
};
use crate::utils::{expand_home, expanded, starts_at_home};

verus! {

/// A reference to an entry of the registry, written as `"Group:Title"`.
#[derive(Debug, Clone, PartialEq, Eq)]
pub struct PathKey {
    pub group: String,
    pub title: String,
}

impl View for PathKey {
    type V = (Seq<char>, Seq<char>);

    open spec fn view(&self) -> (Seq<char>, Seq<char>) {
        (self.group@, self.title@)
    }
}

/// The key that `s` spells: the text before its first `:` and the text
/// after it, each trimmed of whitespace, where both are left non-empty.
pub open spec fn parse_key(s: Seq<char>) -> Option<(Seq<char>, Seq<char>)> {
    match s.index_of_first(':') {
        Some(i) => {
            let group = trim(s.take(i));
            let title = trim(s.skip(i + 1));
            if group.len() == 0 || title.len() == 0 {
                None
            } else {
                Some((group, title))
            }
        },
        None => None,
    }
}

/// The text of a key: `Group:Title`.
pub open spec fn key_text(k: (Seq<char>, Seq<char>)) -> Seq<char> {
    k.0 + seq![':'] + k.1
}

/// Whether two keys name the same entry, ignoring ASCII case as lookups do.
pub open spec fn keys_match(a: (Seq<char>, Seq<char>), b: (Seq<char>, Seq<char>)) -> bool {
    eq_ignoring_ascii_case(a.0, b.0) && eq_ignoring_ascii_case(a.1, b.1)
}

/// A key as parsing leaves it: both halves non-empty and trimmed, and no `:`
/// in the group.
pub open spec fn is_well_formed_key(k: (Seq<char>, Seq<char>)) -> bool {
    &&& k.0.len() > 0
    &&& k.1.len() > 0
    &&& trim(k.0) == k.0
    &&& trim(k.1) == k.1
    &&& !k.0.contains(':')
}

/// Whatever parsing gives is well formed: both halves non-empty and
/// trimmed, and no `:` in the group.
pub proof fn lemma_parsed_key_is_well_formed(s: Seq<char>)
    ensures
        parse_key(s) matches Some(k) ==> is_well_formed_key(k),
{
    s.index_of_first_ensures(':');
    if let Some(i) = s.index_of_first(':') {
        let before = s.take(i);
        lemma_trim_idempotent(before);
        lemma_trim_idempotent(s.skip(i + 1));
        lemma_trim_contains(before, ':');
        if before.contains(':') {
            let j = choose|j: int| 0 <= j < before.len() && before[j] == ':';
            assert(s[j] == ':');
        }
    }
}

/// Parsing splits at the first `:`: where the halves before and after it
/// are non-empty once trimmed, the key is the two trimmed halves; where
/// either is empty, there is no key.
pub proof fn lemma_parse_splits_at_first_colon(s: Seq<char>, i: int)
    requires
        0 <= i < s.len(),
        s[i] == ':',
        forall|j: int| 0 <= j < i ==> s[j] != ':',
    ensures
        trim(s.subrange(0, i)).len() > 0 && trim(s.subrange(i + 1, s.len() as int)).len() > 0
            ==> parse_key(s) == Some(
            (trim(s.subrange(0, i)), trim(s.subrange(i + 1, s.len() as int))),
        ),
        trim(s.subrange(0, i)).len() == 0 || trim(s.subrange(i + 1, s.len() as int)).len() == 0
            ==> parse_key(s) is None,
{
    s.index_of_first_ensures(':');
    assert(s.contains(':'));
    let k = s.index_of_first(':').unwrap();
    assert(k == i) by {
        if k < i {
            assert(s[k] != ':');
        }
        if k > i {
            assert(s[i] != ':');
        }
    }
}

/// Text without a `:` is no key.
pub proof fn lemma_parse_needs_a_colon(s: Seq<char>)
    requires
        !s.contains(':'),
    ensures
        parse_key(s) is None,
{
    s.index_of_first_ensures(':');
}

/// Whitespace around either half of a key changes nothing: a well-formed
/// key written with any whitespace before or after its group or title
/// parses back to that key.
pub proof fn lemma_parse_ignores_surrounding_space(
    k: (Seq<char>, Seq<char>),
    w1: Seq<char>,
    w2: Seq<char>,
    w3: Seq<char>,
    w4: Seq<char>,
)
    requires
        is_well_formed_key(k),
        all_white_space(w1),
        all_white_space(w2),
        all_white_space(w3),
        all_white_space(w4),
    ensures
        parse_key(w1 + k.0 + w2 + seq![':'] + w3 + k.1 + w4) == Some(k),
{
    let before = w1 + k.0 + w2;
    let after = w3 + k.1 + w4;
    let s = before + seq![':'] + after;
    assert(w1 + k.0 + w2 + seq![':'] + w3 + k.1 + w4 =~= s);
    let i = before.len() as int;
    lemma_trim_shape(k.0);
    lemma_trim_shape(k.1);
    assert forall|j: int| 0 <= j < i implies s[j] != ':' by {
        assert(s[j] == before[j]);
        if j < w1.len() {
            assert(before[j] == w1[j]);
            assert(is_white_space(w1[j]));
        } else if j < w1.len() + k.0.len() {
            assert(before[j] == k.0[j - w1.len()]);
            if k.0[j - w1.len()] == ':' {
                assert(k.0.contains(':'));
            }
        } else {
            assert(before[j] == w2[j - w1.len() - k.0.len()]);
            assert(is_white_space(w2[j - w1.len() - k.0.len()]));
        }
    }
    assert(s[i] == ':');
    assert(s.subrange(0, i) =~= before);
    assert(s.subrange(i + 1, s.len() as int) =~= after);
    lemma_trim_removes_surrounding_space(w1, k.0, w2);
    lemma_trim_removes_surrounding_space(w3, k.1, w4);
    lemma_parse_splits_at_first_colon(s, i);
}

/// Writing a well-formed key as `Group:Title` and parsing the text gives
/// the key back.
pub proof fn lemma_key_text_round_trip(k: (Seq<char>, Seq<char>))
    requires
        is_well_formed_key(k),
    ensures
        parse_key(key_text(k)) == Some(k),
{
    let s = key_text(k);
    let n: nat = k.0.len();
    assert(s[n as int] == ':');
    assert forall|j: int| 0 <= j < n implies s[j] != ':' by {
        assert(s[j] == k.0[j]);
        if s[j] == ':' {
            assert(k.0.contains(':'));
        }
    }
    s.index_of_first_ensures(':');
    assert(s.contains(':'));
    let i: int = s.index_of_first(':').unwrap();
    assert(i == n) by {
        if i < n {
            assert(s[i] != ':');
        }
        if i > n {
            assert(s[n as int] != ':');
        }
    }
    assert(s.take(n as int) =~= k.0);
    assert(s.skip((n + 1) as int) =~= k.1);
}

/// Two keys match exactly when their groups have the same length and agree
/// character by character up to ASCII case, and so do their titles.
pub proof fn lemma_keys_match_per_character(a: (Seq<char>, Seq<char>), b: (Seq<char>, Seq<char>))
    ensures
        keys_match(a, b) <==> {
            &&& a.0.len() == b.0.len()
            &&& a.1.len() == b.1.len()
            &&& forall|i: int|
                0 <= i < a.0.len() ==> (#[trigger] a.0[i] == b.0[i] || is_ascii_case_pair(a.0[i], b.0[i])
                    || is_ascii_case_pair(b.0[i], a.0[i]))
            &&& forall|i: int|
                0 <= i < a.1.len() ==> (#[trigger] a.1[i] == b.1[i] || is_ascii_case_pair(a.1[i], b.1[i])
                    || is_ascii_case_pair(b.1[i], a.1[i]))
        },
{
    lemma_eq_ignoring_case_is_per_character(a.0, b.0);
    lemma_eq_ignoring_case_is_per_character(a.1, b.1);
}

/// Keys match themselves.
pub proof fn lemma_keys_match_reflexive(a: (Seq<char>, Seq<char>))
    ensures
        keys_match(a, a),
{
}

/// Matching does not depend on the order of the keys.
pub proof fn lemma_keys_match_symmetric(a: (Seq<char>, Seq<char>), b: (Seq<char>, Seq<char>))
    ensures
        keys_match(a, b) == keys_match(b, a),
{
    if keys_match(a, b) {
        assert forall|i: int| 0 <= i < b.0.len() implies fold_ascii_case(#[trigger] b.0[i])
            == fold_ascii_case(a.0[i]) by {
            assert(fold_ascii_case(a.0[i]) == fold_ascii_case(b.0[i]));
        }
        assert forall|i: int| 0 <= i < b.1.len() implies fold_ascii_case(#[trigger] b.1[i])
            == fold_ascii_case(a.1[i]) by {
            assert(fold_ascii_case(a.1[i]) == fold_ascii_case(b.1[i]));
        }
    }
    if keys_match(b, a) {
        assert forall|i: int| 0 <= i < a.0.len() implies fold_ascii_case(#[trigger] a.0[i])
            == fold_ascii_case(b.0[i]) by {
            assert(fold_ascii_case(b.0[i]) == fold_ascii_case(a.0[i]));
        }
        assert forall|i: int| 0 <= i < a.1.len() implies fold_ascii_case(#[trigger] a.1[i])
            == fold_ascii_case(b.1[i]) by {
            assert(fold_ascii_case(b.1[i]) == fold_ascii_case(a.1[i]));
        }
    }
}

/// Two keys that match a third match each other.
pub proof fn lemma_keys_match_transitive(
    a: (Seq<char>, Seq<char>),
    b: (Seq<char>, Seq<char>),
    c: (Seq<char>, Seq<char>),
)
    requires
        keys_match(a, b),
        keys_match(b, c),
    ensures
        keys_match(a, c),
{
    assert forall|i: int| 0 <= i < a.0.len() implies fold_ascii_case(#[trigger] a.0[i])
        == fold_ascii_case(c.0[i]) by {
        assert(fold_ascii_case(a.0[i]) == fold_ascii_case(b.0[i]));
        assert(fold_ascii_case(b.0[i]) == fold_ascii_case(c.0[i]));
    }
    assert forall|i: int| 0 <= i < a.1.len() implies fold_ascii_case(#[trigger] a.1[i])
        == fold_ascii_case(c.1[i]) by {
        assert(fold_ascii_case(a.1[i]) == fold_ascii_case(b.1[i]));
        assert(fold_ascii_case(b.1[i]) == fold_ascii_case(c.1[i]));
    }
}

impl PathKey {
    /// Parse `"Group:Title"`, splitting at the first `:` and trimming each half.
    ///
    /// Fails with `Error::InvalidKey`, holding `s`, where `s` has no `:` or
    /// either half is empty once trimmed.
    pub fn from_str(s: &str) -> (r: Result<PathKey, Error>)
        ensures
            match parse_key(s@) {
                Some(k) => r matches Ok(key) && key@ == k,
                None => r matches Err(Error::InvalidKey(t)) && t@ == s@,
            },
    {
        let v = chars_of(s);
        proof {
            s@.index_of_first_ensures(':');
        }
        match find_char(&v, ':') {
            None => Err(Error::InvalidKey(s.to_owned())),
            Some(i) => {
                assert(i < v.len());
                let group = trim_str(s.substring_char(0, i));
                let title = trim_str(s.substring_char(i + 1, v.len()));
                if group.is_empty() || title.is_empty() {
                    Err(Error::InvalidKey(s.to_owned()))
                } else {
                    Ok(PathKey { group: group.to_owned(), title: title.to_owned() })
                }
            },
        }
    }

    /// The key as text: `Group:Title`.
    pub fn to_string(&self) -> (r: String)
        ensures
            r@ == key_text(self@),
    {
        proof {
            reveal_strlit(":");
        }
        self.group.clone().concat(":").concat(self.title.as_str())
    }

    /// Whether both keys name the same entry, ignoring case as lookups do.
    pub fn matches(&self, other: &Self) -> (r: bool)
        ensures
            r == keys_match(self@, other@),
    {
        eq_ignore_ascii_case(&self.group, &other.group) && eq_ignore_ascii_case(
            &self.title,
            &other.title,
        )
    }
}

/// Whether some key of `keys` matches `key`.
pub open spec fn has_match(keys: Seq<PathKey>, key: (Seq<char>, Seq<char>)) -> bool {
    exists|i: int| 0 <= i < keys.len() && keys_match(#[trigger] keys[i]@, key)
}

/// Whether no two keys of `keys` match each other.
pub open spec fn no_two_match(keys: Seq<PathKey>) -> bool {
    forall|i: int, j: int|
        0 <= i < j < keys.len() ==> !keys_match(#[trigger] keys[i]@, #[trigger] keys[j]@)
}

/// Whether `k` does not match `key`: the keys that `Config::remove(key)` keeps.
pub open spec fn other_than(key: (Seq<char>, Seq<char>)) -> spec_fn(PathKey) -> bool {
    |k: PathKey| !keys_match(k@, key)
}

/// `keys` after adding `key`: unchanged where some key matches it, else
/// with `key` appended.
pub open spec fn added(keys: Seq<PathKey>, key: PathKey) -> Seq<PathKey> {
    if has_match(keys, key@) {
        keys
    } else {
        keys.push(key)
    }
}

/// `keys` after removing `key`: the keys that do not match it, in order.
pub open spec fn removed(keys: Seq<PathKey>, key: (Seq<char>, Seq<char>)) -> Seq<PathKey> {
    keys.filter(other_than(key))
}

/// Filtering keeps every key of `keys` where none matches `key`.
proof fn lemma_removed_nothing(keys: Seq<PathKey>, key: (Seq<char>, Seq<char>))
    requires
        !has_match(keys, key),
    ensures
        removed(keys, key) == keys,
    decreases keys.len(),
{
    reveal(Seq::filter);
    if keys.len() > 0 {
        let rest = keys.drop_last();
        assert(!has_match(rest, key)) by {
            if has_match(rest, key) {
                let j = choose|j: int| 0 <= j < rest.len() && keys_match(#[trigger] rest[j]@, key);
                assert(keys[j] == rest[j]);
            }
        }
        lemma_removed_nothing(rest, key);
        assert(keys[keys.len() - 1] == keys.last());
        assert(rest.push(keys.last()) =~= keys);
    }
}

/// Whatever `removed` leaves, no key of it matches the removed key.
proof fn lemma_removed_has_no_match(keys: Seq<PathKey>, key: (Seq<char>, Seq<char>))
    ensures
        !has_match(removed(keys, key), key),
{
    let out = removed(keys, key);
    if has_match(out, key) {
        let j = choose|j: int| 0 <= j < out.len() && keys_match(#[trigger] out[j]@, key);
        keys.lemma_filter_pred(other_than(key), j);
    }
}

/// Adding a key that is already there changes nothing: adding twice is
/// adding once.
pub proof fn lemma_add_idempotent(keys: Seq<PathKey>, key: PathKey)
    ensures
        added(added(keys, key), key) == added(keys, key),
{
    if !has_match(keys, key@) {
        lemma_keys_match_reflexive(key@);
        assert(keys.push(key)[keys.len() as int] == key);
    }
}

/// Removing twice is removing once.
pub proof fn lemma_remove_idempotent(keys: Seq<PathKey>, key: (Seq<char>, Seq<char>))
    ensures
        removed(removed(keys, key), key) == removed(keys, key),
{
    lemma_removed_has_no_match(keys, key);
    lemma_removed_nothing(removed(keys, key), key);
}

/// Removing a key that was just added finds it, and where it was new,
/// takes away exactly what adding put there.
pub proof fn lemma_remove_undoes_add(keys: Seq<PathKey>, key: PathKey)
    ensures
        has_match(added(keys, key), key@),
        !has_match(keys, key@) ==> removed(added(keys, key), key@) == keys,
{
    lemma_keys_match_reflexive(key@);
    if !has_match(keys, key@) {
        assert(keys.push(key)[keys.len() as int] == key);
        keys.lemma_filter_push(key, other_than(key@));
        lemma_removed_nothing(keys, key@);
    }
}

/// Where backups go, for a config whose `save_path` is `save_path`, read
/// from `config_path`, with the home directory `home`: `backups` beside the
/// config file by default; else `save_path` with `~/` expanded, resolved
/// against the config file's directory where it is relative. A `save_path`
/// of nothing but whitespace is an error.
pub open spec fn backups_location(
    save_path: Option<Seq<char>>,
    config_path: Seq<char>,
    home: Option<Seq<char>>,
) -> Result<Seq<char>, Error> {
    let base = parent_or_empty(config_path);
    match save_path {
        None => Ok(path_join(base, "backups"@)),
        Some(p) => if is_blank(p) {
            Err(Error::EmptySavePath)
        } else {
            match expanded(p, home) {
                Err(e) => Err(e),
                Ok(full) => Ok(
                    if is_absolute_path(full) {
                        full
                    } else {
                        path_join(base, full)
                    },
                ),
            }
        },
    }
}

/// Where backups go, case by case: `backups` in the config file's directory
/// without a `save_path`; an error for a blank one; an absolute one as it
/// is; any other relative one resolved against the config file's directory,
/// never the working directory; one under `~/` joined onto the home
/// directory, and resolved against the config file's directory only where
/// that does not make it absolute.
pub proof fn lemma_backups_location_cases(
    save_path: Option<Seq<char>>,
    config_path: Seq<char>,
    home: Option<Seq<char>>,
)
    ensures
        save_path is None ==> backups_location(save_path, config_path, home) == Ok::<
            Seq<char>,
            Error,
        >(path_join(parent_or_empty(config_path), "backups"@)),
        save_path is Some && is_blank(save_path.unwrap()) ==> backups_location(
            save_path,
            config_path,
            home,
        ) == Err::<Seq<char>, Error>(Error::EmptySavePath),
        save_path is Some && !is_blank(save_path.unwrap()) && is_absolute_path(save_path.unwrap())
            ==> backups_location(save_path, config_path, home) == Ok::<Seq<char>, Error>(
            save_path.unwrap(),
        ),
        save_path is Some && !is_blank(save_path.unwrap()) && !is_absolute_path(save_path.unwrap())
            && !starts_at_home(save_path.unwrap()) ==> backups_location(
            save_path,
            config_path,
            home,
        ) == Ok::<Seq<char>, Error>(path_join(parent_or_empty(config_path), save_path.unwrap())),
        save_path is Some && !is_blank(save_path.unwrap()) && starts_at_home(save_path.unwrap())
            && home is None ==> backups_location(save_path, config_path, home) == Err::<
            Seq<char>,
            Error,
        >(Error::NoHomeDir),
        save_path is Some && !is_blank(save_path.unwrap()) && starts_at_home(save_path.unwrap())
            && home is Some ==> {
            let full = path_join(home.unwrap(), save_path.unwrap().skip(2));
            backups_location(save_path, config_path, home) == Ok::<Seq<char>, Error>(
                if is_absolute_path(full) {
                    full
                } else {
                    path_join(parent_or_empty(config_path), full)
                },
            )
        },
{
    if save_path is Some && !is_blank(save_path.unwrap()) && starts_at_home(save_path.unwrap()) {
        let p = save_path.unwrap();
        assert(!is_absolute_path(p));
    }
}

/// The view of an optional text.
pub open spec fn opt_view(o: Option<&str>) -> Option<Seq<char>> {
    match o {
        Some(s) => Some(s@),
        None => None,
    }
}

/// The contents of the config file.
pub struct Config {
    /// The paths to back up, each referencing an entry of the registry.
    pub paths: Vec<PathKey>,
    /// Where to keep the backups, defaulting to `backups` next to the config file.
    pub save_path: Option<String>,
}

impl Config {
    /// Where backups are kept for this config, read from `config_path`;
    /// `home` is the user's home directory, where one was found.
    ///
    /// A relative `save_path` is resolved against the config file's
    /// directory, not the working directory. Fails with
    /// `Error::EmptySavePath` where `save_path` is blank, and with
    /// `Error::NoHomeDir` where it starts with `~/` and `home` is `None`.
    pub fn backups_dir(&self, config_path: &str, home: Option<&str>) -> (r: Result<String, Error>)
        ensures
            text_result(r) == backups_location(
                match self.save_path {
                    Some(p) => Some(p@),
                    None => None,
                },
                config_path@,
                opt_view(home),
            ),
    {
        let base = parent_dir(config_path);
        match &self.save_path {
            None => Ok(join(base.as_str(), "backups")),
            Some(save_path) => {
                if trim_str(save_path.as_str()).is_empty() {
                    return Err(Error::EmptySavePath);
                }
                let full = expand_home(save_path.as_str(), home)?;
                if is_absolute(full.as_str()) {
                    Ok(full)
                } else {
                    Ok(join(base.as_str(), full.as_str()))
                }
            },
        }
    }

    /// Add `key`, reporting whether it was not already there.
    ///
    /// A key that matches one already in `paths` (ignoring case) leaves the
    /// config as it is and gives `false`; any other is appended and gives
    /// `true`. Either way some key of `paths` then matches `key`, and
    /// `paths` that held no two matching keys still holds none.
    pub fn add(&mut self, key: PathKey) -> (r: bool)
        ensures
            r == !has_match(old(self).paths@, key@),
            final(self).paths@ == added(old(self).paths@, key),
            final(self).save_path == old(self).save_path,
            has_match(final(self).paths@, key@),
            no_two_match(old(self).paths@) ==> no_two_match(final(self).paths@),
    {
        let n: usize = self.paths.len();
        let mut i: usize = 0;
        while i < n
            invariant
                n == self.paths@.len(),
                i <= n,
                self == old(self),
                forall|j: int| 0 <= j < i ==> !keys_match(#[trigger] self.paths@[j]@, key@),
            decreases n - i,
        {
            if self.paths[i].matches(&key) {
                assert(keys_match(self.paths@[i as int]@, key@));
                return false;
            }
            i = i + 1;
        }
        let ghost before = self.paths@;
        self.paths.push(key);
        proof {
            assert(self.paths@[before.len() as int] == key);
            lemma_keys_match_reflexive(key@);
            assert forall|a: int, b: int|
                no_two_match(before) && 0 <= a < b < self.paths@.len() implies !keys_match(
                #[trigger] self.paths@[a]@,
                #[trigger] self.paths@[b]@,
            ) by {
                if b == before.len() {
                    assert(self.paths@[a] == before[a]);
                } else {
                    assert(self.paths@[a] == before[a]);
                    assert(self.paths@[b] == before[b]);
                }
            }
        }
        true
    }

    /// Remove every key that matches `key` (ignoring case), reporting
    /// whether there was one to remove. The keys that stay keep their order.
    pub fn remove(&mut self, key: &PathKey) -> (r: bool)
        ensures
            final(self).paths@ == removed(old(self).paths@, key@),
            r == has_match(old(self).paths@, key@),
            !has_match(final(self).paths@, key@),
            final(self).save_path == old(self).save_path,
    {
        let mut old_paths: Vec<PathKey> = Vec::new();
        std::mem::swap(&mut old_paths, &mut self.paths);
        let before: usize = old_paths.len();
        let ghost all = old_paths@;
        let ghost keep = other_than(key@);
        assert(all.take(0).filter(keep) =~= Seq::<PathKey>::empty()) by {
            reveal(Seq::filter);
        }
        for k in it: old_paths.into_iter()
            invariant
                it.seq() == all,
                keep == other_than(key@),
                before == all.len(),
                self.save_path == old(self).save_path,
                self.paths@ == all.take(it.index() as int).filter(keep),
                self.paths@.len() <= it.index(),
                (self.paths@.len() == it.index()) == !has_match(all.take(it.index() as int), key@),
        {
            let ghost i = it.index() as int;
            proof {
                assert(all.take(i + 1) =~= all.take(i).push(all[i]));
                all.take(i).lemma_filter_push(all[i], keep);
                assert(k == all[i]);
                assert(keep(all[i]) == !keys_match(all[i]@, key@));
            }
            if !k.matches(key) {
                self.paths.push(k);
                proof {
                    assert forall|j: int| 0 <= j < i + 1 && keys_match(
                        #[trigger] all.take(i + 1)[j]@,
                        key@,
                    ) implies has_match(all.take(i), key@) by {
                        assert(all.take(i)[j] == all.take(i + 1)[j]);
                    }
                }
            } else {
                proof {
                    assert(all.take(i + 1)[i] == all[i]);
                    assert(has_match(all.take(i + 1), key@));
                }
            }
            proof {
                if has_match(all.take(i), key@) {
                    let j = choose|j: int| 0 <= j < i && keys_match(#[trigger] all.take(i)[j]@, key@);
                    assert(all.take(i + 1)[j] == all.take(i)[j]);
                }
            }
        }
        proof {
            assert(all.take(all.len() as int) =~= all);
            if has_match(self.paths@, key@) {
                let j = choose|j: int| 0 <= j < self.paths@.len() && keys_match(#[trigger] self.paths@[j]@, key@);
                all.lemma_filter_pred(keep, j);
            }
        }
        self.paths.len() != before
    }
}

impl core::str::FromStr for PathKey {
    type Err = Error;

    fn from_str(s: &str) -> (r: Result<PathKey, Error>)
        ensures
            match parse_key(s@) {
                Some(k) => r matches Ok(key) && key@ == k,
                None => r matches Err(Error::InvalidKey(t)) && t@ == s@,
            },
    {
        PathKey::from_str(s)
    }
}

} // verus!
