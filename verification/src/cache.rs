//! The resolution cache: what structured providers have fetched, kept for
//! the time of one interpolation.
//!
//! A secret store answers with a whole entry, and one text may name the same
//! path several times with different fields. The cache keeps each entry
//! under its command and path, so that it is fetched once and its fields are
//! read from the copy. Fetching is the caller's part: the cache says whether
//! an entry is there, takes what was fetched, and reads values from entries.

use crate::commands::{fallback, output_text};
use crate::slots::{distinct, keyed, lemma_keyed_push, lemma_keyed_update, lemma_slot_at, slot};
use crate::text::same_text;
use vstd::prelude::*;

verus! {

/// The kinds of entries that can be fetched.
#[derive(Debug, Clone, Copy, PartialEq, Eq)]
pub enum EntryType {
    Kv1,
    Kv2,
    Db,
    Env,
    Sh,
}

/// A command identifier that names no kind of entry.
#[derive(Debug, Clone, PartialEq, Eq)]
pub struct UnknownEntryType {
    pub name: String,
}

impl UnknownEntryType {
    /// The error in words.
    pub fn message(&self) -> (text: String)
        ensures
            text@ == "Could not match EntryType from: "@ + self.name@,
    {
        "Could not match EntryType from: ".to_owned().concat(self.name.as_str())
    }
}

/// The kind of entry that a command identifier names.
pub open spec fn entry_type_named(name: Seq<char>) -> Option<EntryType> {
    if name == "kv1"@ {
        Some(EntryType::Kv1)
    } else if name == "kv2"@ {
        Some(EntryType::Kv2)
    } else if name == "db"@ {
        Some(EntryType::Db)
    } else if name == "env"@ {
        Some(EntryType::Env)
    } else if name == "sh"@ {
        Some(EntryType::Sh)
    } else {
        None
    }
}

impl EntryType {
    /// Reads the kind of entry from a command identifier: `kv1`, `kv2`,
    /// `db`, `env` or `sh`. Any other identifier is an error that holds it.
    pub fn from_str(name: &str) -> (r: Result<EntryType, UnknownEntryType>)
        ensures
            match r {
                Ok(entry_type) => entry_type_named(name@) == Some(entry_type),
                Err(e) => entry_type_named(name@) is None && e.name@ == name@,
            },
    {
        if same_text(name, "kv1") {
            Ok(EntryType::Kv1)
        } else if same_text(name, "kv2") {
            Ok(EntryType::Kv2)
        } else if same_text(name, "db") {
            Ok(EntryType::Db)
        } else if same_text(name, "env") {
            Ok(EntryType::Env)
        } else if same_text(name, "sh") {
            Ok(EntryType::Sh)
        } else {
            Err(UnknownEntryType { name: name.to_owned() })
        }
    }
}

/// What a provider has fetched for one path. `None` inside stands for a
/// fetch that failed; a placeholder that reads such an entry falls back to
/// its default.
#[derive(Debug, Clone, PartialEq, Eq)]
pub enum Entry {
    /// The fields of a secret of a key-value store, version 1.
    Kv1(Option<Vec<(String, String)>>),
    /// The fields of a secret of a key-value store, version 2.
    Kv2(Option<Vec<(String, String)>>),
    /// Database credentials: user name and password.
    Db(Option<(String, String)>),
    /// The value of an environment variable.
    Env(Option<String>),
    /// The output of a shell command.
    Sh(Option<String>),
}

/// An [`Entry`] as plain sequences of characters.
pub ghost enum EntryView {
    Kv1(Option<Seq<(Seq<char>, Seq<char>)>>),
    Kv2(Option<Seq<(Seq<char>, Seq<char>)>>),
    Db(Option<(Seq<char>, Seq<char>)>),
    Env(Option<Seq<char>>),
    Sh(Option<Seq<char>>),
}

impl View for Entry {
    type V = EntryView;

    open spec fn view(&self) -> EntryView {
        match self {
            Entry::Kv1(fields) => EntryView::Kv1(fields.deep_view()),
            Entry::Kv2(fields) => EntryView::Kv2(fields.deep_view()),
            Entry::Db(credentials) => EntryView::Db(credentials.deep_view()),
            Entry::Env(value) => EntryView::Env(value.deep_view()),
            Entry::Sh(output) => EntryView::Sh(output.deep_view()),
        }
    }
}

impl EntryView {
    /// The fetch that this entry stands for has failed.
    pub open spec fn failed(self) -> bool {
        match self {
            EntryView::Kv1(fields) => fields is None,
            EntryView::Kv2(fields) => fields is None,
            EntryView::Db(credentials) => credentials is None,
            EntryView::Env(value) => value is None,
            EntryView::Sh(output) => output is None,
        }
    }

    /// What the entry holds for `field`, if it holds anything.
    ///
    /// A secret holds the field of that name. Credentials hold the user name
    /// for `username` and the password for `password`. A variable and an
    /// output hold themselves, whatever the field. An entry whose fetch
    /// failed holds nothing.
    pub open spec fn held(self, field: Seq<char>) -> Option<Seq<char>> {
        match self {
            EntryView::Kv1(Some(fields)) => field_of(fields, field),
            EntryView::Kv2(Some(fields)) => field_of(fields, field),
            EntryView::Db(Some(credentials)) => if field == "username"@ {
                Some(credentials.0)
            } else if field == "password"@ {
                Some(credentials.1)
            } else {
                None
            },
            EntryView::Env(Some(v)) => Some(v),
            EntryView::Sh(Some(v)) => Some(v),
            _ => None,
        }
    }

    /// The value of a placeholder that reads `field` from the entry: what
    /// the entry holds for the field, and the placeholder's own default, or
    /// the empty text where it has none, where the entry holds nothing.
    pub open spec fn value(self, field: Seq<char>, default_value: Option<Seq<char>>) -> Seq<char> {
        match self.held(field) {
            Some(v) => v,
            None => fallback(default_value),
        }
    }
}

/// The value of the first field of that name.
pub open spec fn field_of(fields: Seq<(Seq<char>, Seq<char>)>, field: Seq<char>) -> Option<
    Seq<char>,
>
    decreases fields.len(),
{
    if fields.len() == 0 {
        None
    } else if fields[0].0 == field {
        Some(fields[0].1)
    } else {
        field_of(fields.drop_first(), field)
    }
}

/// A copy of the default, or the empty string where there is none.
fn default_text(default_value: Option<&str>) -> (text: String)
    ensures
        text@ == fallback(default_value.deep_view()),
{
    match default_value {
        Some(d) => d.to_owned(),
        None => String::new(),
    }
}

/// Reads the first field of that name.
fn read_field(fields: &Vec<(String, String)>, field: &str) -> (value: Option<String>)
    ensures
        value.deep_view() == field_of(fields.deep_view(), field@),
{
    let ghost all = fields.deep_view();
    let mut i: usize = 0;
    proof {
        assert(all.skip(0) =~= all);
    }
    while i < fields.len()
        invariant
            i <= fields.len(),
            all == fields.deep_view(),
            field_of(all, field@) == field_of(all.skip(i as int), field@),
        decreases fields.len() - i,
    {
        proof {
            assert(all.skip(i as int)[0] == all[i as int]);
            assert(all[i as int] == fields[i as int].deep_view());
            assert(all.skip(i as int).drop_first() =~= all.skip(i + 1));
        }
        if same_text(fields[i].0.as_str(), field) {
            return Some(fields[i].1.clone());
        }
        i += 1;
    }
    None
}

impl Entry {
    /// Whether the fetch that this entry stands for has failed.
    pub fn is_failed(&self) -> (b: bool)
        ensures
            b == self@.failed(),
    {
        match self {
            Entry::Kv1(fields) => fields.is_none(),
            Entry::Kv2(fields) => fields.is_none(),
            Entry::Db(credentials) => credentials.is_none(),
            Entry::Env(value) => value.is_none(),
            Entry::Sh(output) => output.is_none(),
        }
    }

    /// The value that the entry holds for `field`.
    pub fn value(&self, field: &str, default_value: Option<&str>) -> (r: String)
        ensures
            r@ == self@.value(field@, default_value.deep_view()),
    {
        match self {
            Entry::Kv1(Some(fields)) => match read_field(fields, field) {
                Some(v) => v,
                None => default_text(default_value),
            },
            Entry::Kv2(Some(fields)) => match read_field(fields, field) {
                Some(v) => v,
                None => default_text(default_value),
            },
            Entry::Db(Some(credentials)) => {
                if same_text(field, "username") {
                    credentials.0.clone()
                } else if same_text(field, "password") {
                    credentials.1.clone()
                } else {
                    default_text(default_value)
                }
            },
            Entry::Env(Some(v)) => v.clone(),
            Entry::Sh(Some(v)) => v.clone(),
            _ => default_text(default_value),
        }
    }

    /// The entry for an environment variable: its value where the variable
    /// is set, and a failed fetch where it is not. A default is no part of
    /// the entry: each placeholder that reads the entry falls back to its
    /// own.
    pub fn from_env(value: Option<String>) -> (entry: Entry)
        ensures
            entry@ == EntryView::Env(value.deep_view()),
    {
        Entry::Env(value)
    }

    /// The entry for a shell command that printed `output`, or could not be
    /// run where `output` is `None`: the output as text where there is one
    /// and it is UTF-8, and a failed fetch else. A default is no part of the
    /// entry: each placeholder that reads the entry falls back to its own.
    pub fn from_sh(output: Option<Vec<u8>>) -> (entry: Entry)
        ensures
            entry@ == EntryView::Sh(output_text(output.deep_view())),
    {
        match output {
            Some(bytes) => {
                proof {
                    assert(bytes.deep_view() =~= bytes@);
                }
                match String::from_utf8(bytes) {
                    Ok(text) => Entry::Sh(Some(text)),
                    Err(_) => Entry::Sh(None),
                }
            },
            None => Entry::Sh(None),
        }
    }
}

/// What a step of a cached resolution needs from its caller.
#[derive(Debug, Clone, PartialEq, Eq)]
pub enum Lookup {
    /// The entry is in the cache, and this is the value it holds.
    Hit(String),
    /// The entry is not in the cache: one of this kind is to be fetched.
    Miss(EntryType),
    /// The entry is not in the cache and the command names no kind of
    /// entry: the placeholder resolves to the empty string.
    Unknown,
}

/// Entries by command and path.
pub struct ResolutionCache {
    cache_failures: bool,
    keys: Vec<(String, String)>,
    entries: Vec<Entry>,
}

impl View for ResolutionCache {
    type V = Map<(Seq<char>, Seq<char>), EntryView>;

    closed spec fn view(&self) -> Map<(Seq<char>, Seq<char>), EntryView> {
        keyed(self.keys.deep_view(), self.entry_views())
    }
}

impl ResolutionCache {
    /// The entries as plain values, in the order of their keys.
    closed spec fn entry_views(&self) -> Seq<EntryView> {
        self.entries@.map_values(|e: Entry| e@)
    }

    /// Every key has its entry, and no key stands twice.
    pub closed spec fn wf(&self) -> bool {
        &&& self.keys.len() == self.entries.len()
        &&& distinct(self.keys.deep_view())
    }

    /// Whether the cache keeps entries whose fetch has failed. Where it does
    /// not, such an entry is fetched again each time it is needed.
    pub closed spec fn caches_failures(&self) -> bool {
        self.cache_failures
    }

    /// An empty cache, as an interpolation starts with.
    pub fn new(cache_failures: bool) -> (cache: Self)
        ensures
            cache.wf(),
            cache.caches_failures() == cache_failures,
            cache@ == Map::<(Seq<char>, Seq<char>), EntryView>::empty(),
    {
        let cache = ResolutionCache { cache_failures, keys: Vec::new(), entries: Vec::new() };
        proof {
            assert(cache@ =~= Map::<(Seq<char>, Seq<char>), EntryView>::empty());
        }
        cache
    }

    /// Where the entry under `command` and `path` stands.
    fn find(&self, command: &str, path: &str) -> (found: Option<usize>)
        requires
            self.wf(),
        ensures
            match found {
                Some(i) => i < self.keys.len() && slot(self.keys.deep_view(), (command@, path@))
                    == i,
                None => slot(self.keys.deep_view(), (command@, path@)) == self.keys.len(),
            },
    {
        let ghost keys = self.keys.deep_view();
        let ghost key = (command@, path@);
        let mut i: usize = 0;
        while i < self.keys.len()
            invariant
                self.wf(),
                keys == self.keys.deep_view(),
                key == (command@, path@),
                i <= self.keys.len(),
                forall|k: int| 0 <= k < i ==> keys[k] != key,
            decreases self.keys.len() - i,
        {
            proof {
                assert(keys[i as int] == self.keys[i as int].deep_view());
            }
            if same_text(self.keys[i].0.as_str(), command) && same_text(
                self.keys[i].1.as_str(),
                path,
            ) {
                proof {
                    lemma_slot_at(keys, i as int);
                }
                return Some(i);
            }
            i += 1;
        }
        None
    }

    /// The entry that was fetched for `command` and `path`, if one is kept.
    pub fn get(&self, command: &str, path: &str) -> (entry: Option<&Entry>)
        requires
            self.wf(),
        ensures
            match entry {
                Some(e) => self@.contains_key((command@, path@)) && e@ == self@[(command@, path@)],
                None => !self@.contains_key((command@, path@)),
            },
    {
        match self.find(command, path) {
            Some(i) => Some(&self.entries[i]),
            None => None,
        }
    }

    /// Takes an entry that was fetched for `command` and `path`. An entry
    /// whose fetch has failed is kept only where the cache keeps failures.
    /// An entry that is kept replaces the one that was there.
    pub fn store(&mut self, command: String, path: String, entry: Entry)
        requires
            old(self).wf(),
        ensures
            final(self).wf(),
            final(self).caches_failures() == old(self).caches_failures(),
            final(self)@ == if entry@.failed() && !old(self).caches_failures() {
                old(self)@
            } else {
                old(self)@.insert((command@, path@), entry@)
            },
    {
        if entry.is_failed() && !self.cache_failures {
            return ;
        }
        let ghost keys = self.keys.deep_view();
        let ghost views = self.entry_views();
        let ghost key = (command@, path@);
        let ghost stored = entry@;
        match self.find(command.as_str(), path.as_str()) {
            Some(i) => {
                let mut entry = entry;
                std::mem::swap(&mut self.entries[i], &mut entry);
                proof {
                    lemma_slot_at(keys, i as int);
                    assert(self.entry_views() =~= views.update(i as int, stored));
                    lemma_keyed_update(keys, views, i as int, stored);
                }
            },
            None => {
                self.keys.push((command, path));
                self.entries.push(entry);
                proof {
                    assert(self.keys.deep_view() =~= keys.push(key));
                    assert(self.entry_views() =~= views.push(stored));
                    lemma_keyed_push(keys, views, key, stored);
                }
            },
        }
    }

    /// Forgets every entry, as at the end of an interpolation.
    pub fn clear(&mut self)
        requires
            old(self).wf(),
        ensures
            final(self).wf(),
            final(self).caches_failures() == old(self).caches_failures(),
            final(self)@ == Map::<(Seq<char>, Seq<char>), EntryView>::empty(),
    {
        self.keys.clear();
        self.entries.clear();
        proof {
            assert(self@ =~= Map::<(Seq<char>, Seq<char>), EntryView>::empty());
        }
    }

    /// One step of a cached resolution. Where the entry for `command` and
    /// `path` is kept, its value for `field` is the placeholder's value.
    /// Where it is not, the caller has to fetch an entry of the kind that
    /// `command` names, [`store`](Self::store) it, and read the value from
    /// it; a command that names no kind resolves to the empty string.
    pub fn lookup(&self, command: &str, path: &str, field: &str, default_value: Option<&str>) -> (r:
        Lookup)
        requires
            self.wf(),
        ensures
            match r {
                Lookup::Hit(value) => self@.contains_key((command@, path@)) && value@ == self@[(
                    command@,
                    path@,
                )].value(field@, default_value.deep_view()),
                Lookup::Miss(entry_type) => !self@.contains_key((command@, path@))
                    && entry_type_named(command@) == Some(entry_type),
                Lookup::Unknown => !self@.contains_key((command@, path@)) && entry_type_named(
                    command@,
                ) is None,
            },
    {
        match self.get(command, path) {
            Some(entry) => Lookup::Hit(entry.value(field, default_value)),
            None => match EntryType::from_str(command) {
                Ok(entry_type) => Lookup::Miss(entry_type),
                Err(_) => Lookup::Unknown,
            },
        }
    }
}

} // verus!
