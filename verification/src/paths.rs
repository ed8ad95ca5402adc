//! The registry of paths the tool knows how to back up, and looking keys up
//! in it.
use vstd::prelude::*;

use crate::config::{
    is_well_formed_key, key_text, keys_match, lemma_key_text_round_trip, lemma_keys_match_symmetric,
    lemma_keys_match_transitive, lemma_keys_match_reflexive, parse_key, PathKey,
};
use crate::text::eq_ignore_ascii_case;

verus! {

/// A single known path of the registry.
pub struct KnownPath {
    pub group: String,
    pub title: String,
    pub path: String,
}

/// The key that names entry `e`.
pub open spec fn entry_key(e: KnownPath) -> (Seq<char>, Seq<char>) {
    (e.group@, e.title@)
}

/// The index of the first entry of `entries` that `key` refers to, if any.
pub open spec fn lookup(entries: Seq<KnownPath>, key: (Seq<char>, Seq<char>)) -> Option<int>
    decreases entries.len(),
{
    if entries.len() == 0 {
        None
    } else {
        match lookup(entries.drop_last(), key) {
            Some(i) => Some(i),
            None => if keys_match(entry_key(entries.last()), key) {
                Some(entries.len() - 1)
            } else {
                None
            },
        }
    }
}

/// Whether the entries are all well formed and no two of them are named by
/// matching keys, so that each one can be named in a config file.
pub open spec fn is_addressable(entries: Seq<KnownPath>) -> bool {
    &&& forall|i: int| 0 <= i < entries.len() ==> is_well_formed_key(entry_key(#[trigger] entries[i]))
    &&& forall|i: int, j: int|
        0 <= i < j < entries.len() ==> !keys_match(
            entry_key(#[trigger] entries[i]),
            entry_key(#[trigger] entries[j]),
        )
}

/// `lookup` gives the first entry that `key` refers to, and `None` exactly
/// where no entry is referred to by it.
pub proof fn lemma_lookup_first_match(entries: Seq<KnownPath>, key: (Seq<char>, Seq<char>))
    ensures
        match lookup(entries, key) {
            Some(i) => {
                &&& 0 <= i < entries.len()
                &&& keys_match(entry_key(entries[i]), key)
                &&& forall|j: int| 0 <= j < i ==> !keys_match(entry_key(#[trigger] entries[j]), key)
            },
            None => forall|j: int|
                0 <= j < entries.len() ==> !keys_match(entry_key(#[trigger] entries[j]), key),
        },
    decreases entries.len(),
{
    if entries.len() > 0 {
        let rest = entries.drop_last();
        lemma_lookup_first_match(rest, key);
        assert forall|j: int| 0 <= j < rest.len() implies entries[j] == #[trigger] rest[j] by {}
        assert(entries.last() == entries[entries.len() - 1]);
        if let Some(i) = lookup(rest, key) {
            assert(entries[i] == rest[i]);
            assert forall|j: int| 0 <= j < i implies !keys_match(
                entry_key(#[trigger] entries[j]),
                key,
            ) by {
                assert(entries[j] == rest[j]);
            }
        } else {
            assert forall|j: int| 0 <= j < entries.len() - 1 implies !keys_match(
                entry_key(#[trigger] entries[j]),
                key,
            ) by {
                assert(entries[j] == rest[j]);
            }
        }
    }
}

/// Keys that match each other find the same entry: lookups ignore case.
pub proof fn lemma_lookup_ignores_case(
    entries: Seq<KnownPath>,
    a: (Seq<char>, Seq<char>),
    b: (Seq<char>, Seq<char>),
)
    requires
        keys_match(a, b),
    ensures
        lookup(entries, a) == lookup(entries, b),
    decreases entries.len(),
{
    if entries.len() > 0 {
        lemma_lookup_ignores_case(entries.drop_last(), a, b);
        let e = entry_key(entries.last());
        if keys_match(e, a) {
            lemma_keys_match_transitive(e, a, b);
        }
        if keys_match(e, b) {
            lemma_keys_match_symmetric(a, b);
            lemma_keys_match_transitive(e, b, a);
        }
    }
}

/// In an addressable registry, every entry is found by parsing the text of
/// its own key.
pub proof fn lemma_entries_resolve_to_themselves(entries: Seq<KnownPath>, i: int)
    requires
        is_addressable(entries),
        0 <= i < entries.len(),
    ensures
        parse_key(key_text(entry_key(entries[i]))) == Some(entry_key(entries[i])),
        lookup(entries, entry_key(entries[i])) == Some(i),
{
    let k = entry_key(entries[i]);
    lemma_key_text_round_trip(k);
    lemma_keys_match_reflexive(k);
    lemma_lookup_first_match(entries, k);
    match lookup(entries, k) {
        Some(j) => {
            if j < i {
                lemma_keys_match_symmetric(entry_key(entries[j]), k);
            }
            if j > i {
                assert(!keys_match(entry_key(entries[i]), entry_key(entries[j])));
                lemma_keys_match_symmetric(entry_key(entries[j]), k);
            }
        },
        None => {
            assert(!keys_match(entry_key(entries[i]), k));
        },
    }
}

impl KnownPath {
    /// Whether this entry is the one `key` refers to.
    pub fn matches(&self, key: &PathKey) -> (r: bool)
        ensures
            r == keys_match(entry_key(*self), key@),
    {
        eq_ignore_ascii_case(&self.group, &key.group) && eq_ignore_ascii_case(
            &self.title,
            &key.title,
        )
    }

    /// The key that names this entry, spelled as the registry spells it.
    pub fn key(&self) -> (r: PathKey)
        ensures
            r@ == entry_key(*self),
    {
        PathKey { group: self.group.clone(), title: self.title.clone() }
    }
}

/// Every path the tool knows how to back up.
pub struct Registry {
    pub paths: Vec<KnownPath>,
}

impl Registry {
    /// Look up the entry `key` refers to, if there is one: the first entry
    /// whose group and title equal the key's, ignoring ASCII case.
    pub fn get(&self, key: &PathKey) -> (r: Option<&KnownPath>)
        ensures
            match lookup(self.paths@, key@) {
                Some(i) => r == Some(&self.paths@[i]),
                None => r is None,
            },
    {
        let n: usize = self.paths.len();
        let mut i: usize = 0;
        assert(self.paths@.take(0) =~= Seq::<KnownPath>::empty());
        while i < n
            invariant
                n == self.paths@.len(),
                i <= n,
                lookup(self.paths@.take(i as int), key@) is None,
            decreases n - i,
        {
            proof {
                assert(self.paths@.take(i + 1).drop_last() =~= self.paths@.take(i as int));
                assert(self.paths@.take(i + 1).last() == self.paths@[i as int]);
            }
            if self.paths[i].matches(key) {
                proof {
                    lemma_lookup_prefix(self.paths@, key@, i + 1);
                }
                return Some(&self.paths[i]);
            }
            i = i + 1;
        }
        assert(self.paths@.take(n as int) =~= self.paths@);
        None
    }

    /// Look up each of `keys`, in order: the entry it refers to, or `None`
    /// for a key that refers to none.
    pub fn resolve<'a>(&'a self, keys: &Vec<PathKey>) -> (r: Vec<Option<&'a KnownPath>>)
        ensures
            r@.len() == keys@.len(),
            forall|j: int|
                0 <= j < keys@.len() ==> match lookup(self.paths@, #[trigger] keys@[j]@) {
                    Some(i) => r@[j] == Some(&self.paths@[i]),
                    None => r@[j] is None,
                },
    {
        let mut r: Vec<Option<&'a KnownPath>> = Vec::new();
        let mut j: usize = 0;
        while j < keys.len()
            invariant
                j <= keys@.len(),
                r@.len() == j,
                forall|m: int|
                    0 <= m < j ==> match lookup(self.paths@, #[trigger] keys@[m]@) {
                        Some(i) => r@[m] == Some(&self.paths@[i]),
                        None => r@[m] is None,
                    },
            decreases keys.len() - j,
        {
            r.push(self.get(&keys[j]));
            j = j + 1;
        }
        r
    }
}

/// Once some entry of a prefix matches, looking up in the whole gives the
/// same answer as looking up in that prefix.
proof fn lemma_lookup_prefix(entries: Seq<KnownPath>, key: (Seq<char>, Seq<char>), n: int)
    requires
        0 <= n <= entries.len(),
        lookup(entries.take(n), key) is Some,
    ensures
        lookup(entries, key) == lookup(entries.take(n), key),
    decreases entries.len() - n,
{
    if n < entries.len() {
        assert(entries.take(n + 1).drop_last() =~= entries.take(n));
        lemma_lookup_prefix(entries, key, n + 1);
    } else {
        assert(entries.take(n) =~= entries);
    }
}

} // verus!
