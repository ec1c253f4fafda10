//! The configuration store: string keys mapped to structured values, read from
//! and written back to one YAML document.

use crate::convert::{FromValue, ToValue};
use crate::value::{tags_ok, ConfigValue, Doc};
use crate::yaml::{parse_entries, render_entries, yaml_document, yaml_text};
use vstd::prelude::*;

verus! {

/// No key occurs twice in `s`.
pub(crate) open spec fn keys_distinct(s: Seq<(String, ConfigValue)>) -> bool {
    forall|i: int, j: int| 0 <= i < j < s.len() ==> (#[trigger] s[i]).0@ != (#[trigger] s[j]).0@
}

/// `k` is a key of `s`.
pub(crate) open spec fn has_key(s: Seq<(String, ConfigValue)>, k: Seq<char>) -> bool {
    exists|i: int| 0 <= i < s.len() && (#[trigger] s[i]).0@ == k
}

/// The map that the key/value pairs of `s` spell out.
pub(crate) open spec fn entries_map(s: Seq<(String, ConfigValue)>) -> Map<Seq<char>, Doc> {
    Map::new(
        |k: Seq<char>| has_key(s, k),
        |k: Seq<char>| s[choose|i: int| 0 <= i < s.len() && (#[trigger] s[i]).0@ == k].1@,
    )
}

/// Every value of `m` can be written out: none holds an empty tag.
pub open spec fn writable(m: Map<Seq<char>, Doc>) -> bool {
    forall|k: Seq<char>| m.contains_key(k) ==> tags_ok(#[trigger] m[k])
}

/// The store that a backing file gives: `contents` is its text, `None` where
/// there is no file. A text that does not parse gives the empty store, as no
/// file does.
pub open spec fn loaded(contents: Option<Seq<char>>) -> Map<Seq<char>, Doc> {
    match contents {
        Some(text) => match yaml_document(text) {
            Some(m) => m,
            None => Map::empty(),
        },
        None => Map::empty(),
    }
}

/// What reading `key` as a `T` gives in the store `m`: nothing where the key
/// is absent, or where its value does not convert.
pub open spec fn looked_up<T: FromValue>(m: Map<Seq<char>, Doc>, key: Seq<char>) -> Option<T::V> {
    if m.contains_key(key) {
        T::decode(m[key])
    } else {
        None
    }
}

/// The store `m` after `x` was put under `key`.
pub open spec fn stored<T: ToValue>(m: Map<Seq<char>, Doc>, key: Seq<char>, x: T::V) -> Map<
    Seq<char>,
    Doc,
> {
    m.insert(key, T::encode(x))
}

/// What a write of the store `m` may report in `r`: the YAML text for all of
/// `m`, or why there is none.
pub open spec fn save_outcome(m: Map<Seq<char>, Doc>, r: Result<String, ConfigError>) -> bool {
    match r {
        Ok(text) => writable(m) && yaml_text(m) == Some(text@),
        Err(ConfigError::EmptyTag) => !writable(m),
        Err(ConfigError::Yaml) => writable(m) && yaml_text(m) is None,
        Err(ConfigError::LockPoisoned) => false,
    }
}

/// Why a store could not be written out.
#[derive(Debug, Clone, Copy, PartialEq, Eq, Structural)]
pub enum ConfigError {
    /// A stored value holds an empty tag, for which YAML has no syntax.
    EmptyTag,
    /// The YAML writer reported an error.
    Yaml,
    /// The shared store could not be reached: a writer panicked while it held
    /// the lock.
    LockPoisoned,
}

/// A configuration store.
pub struct Config {
    path: String,
    entries: Vec<(String, ConfigValue)>,
}

impl View for Config {
    type V = Map<Seq<char>, Doc>;

    closed spec fn view(&self) -> Map<Seq<char>, Doc> {
        entries_map(self.entries@)
    }
}

impl Config {
    /// No key is held twice.
    #[verifier::type_invariant]
    spec fn keys_once(&self) -> bool {
        keys_distinct(self.entries@)
    }

    /// Where the backing document lives.
    pub closed spec fn location(&self) -> Seq<char> {
        self.path@
    }

    /// Where the backing document lives.
    pub fn path(&self) -> (p: &str)
        ensures
            p@ == self.location(),
    {
        self.path.as_str()
    }

    /// Tells whether the store holds no entry at all.
    pub fn is_empty(&self) -> (r: bool)
        ensures
            r == (self@ == Map::<Seq<char>, Doc>::empty()),
    {
        let r = self.entries.len() == 0;
        proof {
            if r {
                assert(self@ =~= Map::<Seq<char>, Doc>::empty());
            } else {
                assert(has_key(self.entries@, self.entries[0].0@));
                assert(self@.contains_key(self.entries[0].0@));
            }
        }
        r
    }

    /// Builds the store for the document at `path` from what was read there:
    /// `contents` is the file's text, `None` where there is no file or it could
    /// not be read. A text that is no YAML map with string keys gives an empty
    /// store, as a missing file does.
    pub fn load(path: String, contents: Option<String>) -> (cfg: Config)
        ensures
            cfg.location() == path@,
            cfg@ == loaded(contents.deep_view()),
    {
        let entries = match contents {
            Some(text) => match parse_entries(text.as_str()) {
                Ok(entries) => entries,
                Err(_) => Vec::new(),
            },
            None => Vec::new(),
        };
        let cfg = Config { path, entries };
        assert(cfg@ =~= loaded(contents.deep_view()));
        cfg
    }

    /// The place of `key` among the entries.
    fn find(&self, key: &String) -> (r: Option<usize>)
        ensures
            match r {
                Some(i) => i < self.entries.len() && self.entries[i as int].0@ == key@,
                None => !has_key(self.entries@, key@),
            },
    {
        let mut i: usize = 0;
        while i < self.entries.len()
            invariant
                i <= self.entries.len(),
                forall|j: int| 0 <= j < i ==> (#[trigger] self.entries[j]).0@ != key@,
            decreases self.entries.len() - i,
        {
            if self.entries[i].0 == *key {
                return Some(i);
            }
            i += 1;
        }
        None
    }

    /// Reads the value under `key` as a `T`: `None` where the key is absent or
    /// its value does not convert to `T`.
    pub fn get<T: FromValue>(&self, key: &str) -> (r: Option<T>)
        ensures
            r.deep_view() == looked_up::<T>(self@, key@),
    {
        let owned = key.to_owned();
        match self.find(&owned) {
            Some(i) => {
                proof {
                    use_type_invariant(self);
                    lemma_entry(self.entries@, i as int);
                }
                T::from_value(&self.entries[i].1)
            },
            None => None,
        }
    }

    /// Writes the whole store out as YAML text, for the caller to put at
    /// [`Config::path`].
    pub fn save(&self) -> (r: Result<String, ConfigError>)
        ensures
            save_outcome(self@, r),
    {
        proof {
            use_type_invariant(self);
        }
        let mut i: usize = 0;
        while i < self.entries.len()
            invariant
                keys_distinct(self.entries@),
                i <= self.entries.len(),
                forall|j: int| 0 <= j < i ==> tags_ok((#[trigger] self.entries[j]).1@),
            decreases self.entries.len() - i,
        {
            if !self.entries[i].1.has_valid_tags() {
                proof {
                    lemma_entry(self.entries@, i as int);
                }
                return Err(ConfigError::EmptyTag);
            }
            i += 1;
        }
        assert(writable(self@)) by {
            assert forall|k: Seq<char>| self@.contains_key(k) implies tags_ok(#[trigger] self@[k]) by {
                let j = choose|j: int|
                    0 <= j < self.entries.len() && (#[trigger] self.entries[j]).0@ == k;
                assert(tags_ok(self.entries[j].1@));
            }
        }
        match render_entries(&self.entries) {
            Ok(text) => Ok(text),
            Err(_) => Err(ConfigError::Yaml),
        }
    }

    /// Puts `value` under `key`, replacing what was there, and writes the whole
    /// store out as [`Config::save`] does. The entry is in the store whatever
    /// the write reports.
    pub fn set<T: ToValue>(&mut self, key: &str, value: T) -> (r: Result<String, ConfigError>)
        ensures
            final(self)@ == stored::<T>(old(self)@, key@, value.deep_view()),
            final(self).location() == old(self).location(),
            save_outcome(final(self)@, r),
    {
        proof {
            use_type_invariant(&*self);
        }
        let ghost before = self.entries@;
        let owned = key.to_owned();
        let doc = value.into_value();
        let found = self.find(&owned);
        // The entries are taken out, changed and put back, so that the store
        // itself never holds a list that is half changed.
        let mut taken = Config { path: String::new(), entries: Vec::new() };
        core::mem::swap(self, &mut taken);
        let Config { path, mut entries } = taken;
        match found {
            Some(i) => {
                entries.set(i, (owned, doc));
                proof {
                    lemma_put(before, entries@, i as int, key@, T::encode(value.deep_view()));
                }
            },
            None => {
                entries.push((owned, doc));
                proof {
                    lemma_put(
                        before,
                        entries@,
                        before.len() as int,
                        key@,
                        T::encode(value.deep_view()),
                    );
                }
            },
        }
        *self = Config { path, entries };
        self.save()
    }
}

/// Reads the value under `key` from the shared store as a `T`. `store` is the
/// store as the caller reached it, `None` where its lock is poisoned: then
/// nothing is read.
pub fn get_value<T: FromValue>(store: Option<&Config>, key: &str) -> (r: Option<T>)
    ensures
        r.deep_view() == match store {
            Some(cfg) => looked_up::<T>(cfg@, key@),
            None => None,
        },
{
    match store {
        Some(cfg) => cfg.get(key),
        None => None,
    }
}

/// Puts `value` under `key` in the shared store and writes the store out, as
/// [`Config::set`] does. `store` is the store as the caller reached it, `None`
/// where its lock is poisoned: then nothing is changed and the failure is
/// reported.
pub fn set_value<T: ToValue>(store: Option<&mut Config>, key: &str, value: T) -> (r: Result<
    String,
    ConfigError,
>)
    ensures
        match store {
            Some(cfg) => {
                &&& final(cfg)@ == stored::<T>(cfg@, key@, value.deep_view())
                &&& final(cfg).location() == cfg.location()
                &&& save_outcome(final(cfg)@, r)
            },
            None => r == Err::<String, ConfigError>(ConfigError::LockPoisoned),
        },
{
    match store {
        Some(cfg) => cfg.set(key, value),
        None => Err(ConfigError::LockPoisoned),
    }
}

/// Reads the list under `key` from the shared store, every item as a `T`.
pub fn get_list<T: FromValue>(store: Option<&Config>, key: &str) -> (r: Option<Vec<T>>)
    ensures
        r.deep_view() == match store {
            Some(cfg) => looked_up::<Vec<T>>(cfg@, key@),
            None => None,
        },
{
    get_value(store, key)
}

/// Puts `list` under `key` in the shared store and writes the store out.
pub fn set_list<T: ToValue>(store: Option<&mut Config>, key: &str, list: Vec<T>) -> (r: Result<
    String,
    ConfigError,
>)
    ensures
        match store {
            Some(cfg) => {
                &&& final(cfg)@ == stored::<Vec<T>>(cfg@, key@, list.deep_view())
                &&& final(cfg).location() == cfg.location()
                &&& save_outcome(final(cfg)@, r)
            },
            None => r == Err::<String, ConfigError>(ConfigError::LockPoisoned),
        },
{
    set_value(store, key, list)
}

/// A value put under a key is read back from that key as the same value,
/// whatever the store held before.
pub proof fn lemma_get_after_set<T: FromValue>(m: Map<Seq<char>, Doc>, key: Seq<char>, x: T::V)
    ensures
        looked_up::<T>(stored::<T>(m, key, x), key) == Some(x),
{
    T::lemma_decode_encode(x);
}

/// A list put under a key is read back from that key with the same items in
/// the same order.
pub proof fn lemma_get_list_after_set_list<T: FromValue>(
    m: Map<Seq<char>, Doc>,
    key: Seq<char>,
    items: Seq<T::V>,
)
    ensures
        looked_up::<Vec<T>>(stored::<Vec<T>>(m, key, items), key) == Some(items),
{
    <Vec<T> as FromValue>::lemma_decode_encode(items);
}

/// Putting a value under one key changes what no other key reads as.
pub proof fn lemma_set_keeps_other_keys<T: ToValue, U: FromValue>(
    m: Map<Seq<char>, Doc>,
    key: Seq<char>,
    x: T::V,
    other: Seq<char>,
)
    requires
        other != key,
    ensures
        looked_up::<U>(stored::<T>(m, key, x), other) == looked_up::<U>(m, other),
{
}

/// A key that was given a string reads as absent when asked for a number.
pub proof fn lemma_string_reads_as_no_number(
    m: Map<Seq<char>, Doc>,
    key: Seq<char>,
    text: Seq<char>,
)
    ensures
        looked_up::<i64>(stored::<String>(m, key, text), key) is None,
        looked_up::<u64>(stored::<String>(m, key, text), key) is None,
        looked_up::<i32>(stored::<String>(m, key, text), key) is None,
        looked_up::<u32>(stored::<String>(m, key, text), key) is None,
{
}

/// A key that was given an integer reads as absent when asked for a string.
pub proof fn lemma_number_reads_as_no_string(m: Map<Seq<char>, Doc>, key: Seq<char>, n: i64)
    ensures
        looked_up::<String>(stored::<i64>(m, key, n), key) is None,
{
}

/// Where there is no backing file the store is empty: every key reads as
/// absent.
pub proof fn lemma_missing_file_gives_empty_store<T: FromValue>(key: Seq<char>)
    ensures
        loaded(None) == Map::<Seq<char>, Doc>::empty(),
        looked_up::<T>(loaded(None), key) is None,
{
}

/// Where the backing file does not parse the store is empty as well: every
/// key reads as absent.
pub proof fn lemma_corrupt_file_gives_empty_store<T: FromValue>(text: Seq<char>, key: Seq<char>)
    ensures
        yaml_document(text) is None ==> loaded(Some(text)) == Map::<Seq<char>, Doc>::empty(),
        yaml_document(text) is None ==> looked_up::<T>(loaded(Some(text)), key) is None,
{
}

/// With distinct keys, the map holds each pair of the list.
proof fn lemma_entry(s: Seq<(String, ConfigValue)>, j: int)
    requires
        keys_distinct(s),
        0 <= j < s.len(),
    ensures
        entries_map(s).contains_key(s[j].0@),
        entries_map(s)[s[j].0@] == s[j].1@,
{
    let k = s[j].0@;
    assert(has_key(s, k));
    let c = choose|i: int| 0 <= i < s.len() && (#[trigger] s[i]).0@ == k;
    assert(c == j);
}

/// Replacing the value of a key where it stands, or adding the pair at the end
/// where the key is new, keeps the keys distinct and inserts into the map.
proof fn lemma_put(
    before: Seq<(String, ConfigValue)>,
    after: Seq<(String, ConfigValue)>,
    at: int,
    k: Seq<char>,
    d: Doc,
)
    requires
        keys_distinct(before),
        0 <= at <= before.len(),
        at < before.len() ==> before[at].0@ == k && after.len() == before.len(),
        at == before.len() ==> !has_key(before, k) && after.len() == before.len() + 1,
        after[at].0@ == k,
        after[at].1@ == d,
        forall|j: int| 0 <= j < before.len() && j != at ==> after[j] == before[j],
    ensures
        keys_distinct(after),
        entries_map(after) == entries_map(before).insert(k, d),
{
    assert forall|i: int, j: int| 0 <= i < j < after.len() implies (#[trigger] after[i]).0@ != (
    #[trigger] after[j]).0@ by {
        if i != at && j != at {
            assert(before[i].0@ != before[j].0@);
        } else if at < before.len() {
            assert(before[i].0@ != before[j].0@);
        } else {
            assert(!has_key(before, k));
            assert(before[i].0@ != k);
        }
    }
    let m0 = entries_map(before);
    let m1 = entries_map(after);
    assert forall|q: Seq<char>| m1.contains_key(q) <==> m0.insert(k, d).contains_key(q) by {
        if m1.contains_key(q) {
            let i = choose|i: int| 0 <= i < after.len() && (#[trigger] after[i]).0@ == q;
            if i != at {
                assert(before[i].0@ == q);
                assert(has_key(before, q));
            }
        }
        if m0.insert(k, d).contains_key(q) {
            if q == k {
                assert(after[at].0@ == q);
                assert(has_key(after, q));
            } else {
                let i = choose|i: int| 0 <= i < before.len() && (#[trigger] before[i]).0@ == q;
                assert(after[i].0@ == q);
                assert(has_key(after, q));
            }
        }
    }
    assert forall|q: Seq<char>| m1.contains_key(q) implies m1[q] == m0.insert(k, d)[q] by {
        let i = choose|i: int| 0 <= i < after.len() && (#[trigger] after[i]).0@ == q;
        lemma_entry(after, i);
        if i != at {
            lemma_entry(before, i);
        }
    }
    assert(m1 =~= m0.insert(k, d));
}

} // verus!
