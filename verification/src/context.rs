//! Resource stores: where inclusion keys are looked up.

use std::path::PathBuf;
use vstd::prelude::*;
use crate::text::same_text;

verus! {

/// `std::path::PathBuf`, which a directory store carries and never reads.
#[verifier::external_type_specification]
#[verifier::external_body]
pub struct ExPathBuf(PathBuf);

/// The text that `textwrap::dedent` makes of `text`: its lines without the
/// white space that begins them all.
pub uninterp spec fn dedented(text: Seq<char>) -> Seq<char>;

/// `textwrap::dedent`. The contract names the text that it returns
/// (`dedented`).
#[verifier::external_body]
fn dedent(text: &str) -> (plain: String)
    ensures
        plain@ == dedented(text@),
{
    textwrap::dedent(text)
}

/// The answer of a store that holds nothing under the key it was asked for.
#[derive(Debug, Clone, Copy, PartialEq, Eq, Structural)]
pub struct NotFound;

/// What an answer says of a key: the text, or `None` for `NotFound`.
pub open spec fn answer_text(answer: Result<String, NotFound>) -> Option<Seq<char>> {
    match answer {
        Ok(text) => Some(text@),
        Err(_) => None,
    }
}

/// The text under `key` in `texts`, or `None` where there is none.
pub open spec fn text_under(texts: Map<Seq<char>, Seq<char>>, key: Seq<char>) -> Option<
    Seq<char>,
> {
    if texts.contains_key(key) {
        Some(texts[key])
    } else {
        None
    }
}

/// A store of texts under keys. The parser asks it for templates and
/// sub-grafts.
///
/// A store may say what it holds, and then answers accordingly. A store
/// that says nothing, as one does that reads files, promises nothing: the
/// parser takes whatever it answers.
pub trait Context {
    /// What the store holds, where that is known: the text under every key
    /// that it has. `None`, unless an implementation says otherwise.
    open spec fn holds(&self) -> Option<Map<Seq<char>, Seq<char>>> {
        None
    }

    /// The text that the store holds under `key`, or `NotFound`. A store
    /// that says what it holds answers by that, and goes on holding it.
    fn lookup(&mut self, key: &str) -> (answer: Result<String, NotFound>)
        ensures
            old(self).holds() matches Some(texts) ==> final(self).holds() == Some(texts)
                && answer_text(answer) == text_under(texts, key@),
    ;
}

/// The mapping that a list of entries stands for, a later entry replacing an
/// earlier one of the same key.
pub open spec fn entries_map<V>(entries: Seq<(Seq<char>, V)>) -> Map<Seq<char>, V>
    decreases entries.len(),
{
    if entries.len() == 0 {
        Map::empty()
    } else {
        entries_map(entries.drop_last()).insert(entries.last().0, entries.last().1)
    }
}

/// A key that no entry has is not in the mapping of the list.
pub proof fn lemma_entries_map_without<V>(entries: Seq<(Seq<char>, V)>, key: Seq<char>)
    requires
        forall|j: int| 0 <= j < entries.len() ==> (#[trigger] entries[j]).0 != key,
    ensures
        !entries_map(entries).contains_key(key),
    decreases entries.len(),
{
    if entries.len() > 0 {
        let before = entries.drop_last();
        assert forall|j: int| 0 <= j < before.len() implies (#[trigger] before[j]).0 != key by {
            assert(entries[j].0 != key);
        }
        lemma_entries_map_without(before, key);
        assert(entries[entries.len() - 1].0 != key);
    }
}

/// The mapping of a list gives a key the value of the last entry that has
/// it.
pub proof fn lemma_entries_map_with<V>(entries: Seq<(Seq<char>, V)>, key: Seq<char>, at: int)
    requires
        0 <= at < entries.len(),
        entries[at].0 == key,
        forall|j: int| at < j < entries.len() ==> (#[trigger] entries[j]).0 != key,
    ensures
        entries_map(entries).contains_key(key),
        entries_map(entries)[key] == entries[at].1,
    decreases entries.len(),
{
    if at < entries.len() - 1 {
        let before = entries.drop_last();
        assert forall|j: int| at < j < before.len() implies (#[trigger] before[j]).0 != key by {
            assert(entries[j].0 != key);
        }
        lemma_entries_map_with(before, key, at);
        assert(entries[entries.len() - 1].0 != key);
    }
}

/// The index of the last of `entries` whose key is `key`.
fn last_entry<V>(entries: &Vec<(String, V)>, key: &str) -> (found: Option<usize>)
    ensures
        match found {
            Some(at) => at < entries.len() && entries@[at as int].0@ == key@ && forall|j: int|
                at < j < entries.len() ==> (#[trigger] entries@[j]).0@ != key@,
            None => forall|j: int| 0 <= j < entries.len() ==> (#[trigger] entries@[j]).0@ != key@,
        },
{
    let mut i: usize = entries.len();
    while i > 0
        invariant
            i <= entries.len(),
            forall|j: int| i <= j < entries.len() ==> (#[trigger] entries@[j]).0@ != key@,
        decreases i,
    {
        i -= 1;
        if same_text(entries[i].0.as_str(), key) {
            return Some(i);
        }
    }
    None
}

/// A store that holds a fixed set of texts.
pub struct StaticContext {
    /// The keys with their texts, in the order in which they were given;
    /// where a key was given twice, the later text counts.
    pub aliases: Vec<(String, String)>,
}

impl View for StaticContext {
    type V = Map<Seq<char>, Seq<char>>;

    /// The text that the store holds under each key.
    open spec fn view(&self) -> Map<Seq<char>, Seq<char>> {
        entries_map(self.aliases.deep_view())
    }
}

impl StaticContext {
    /// A store that holds, under `key`, `value` without the indentation that
    /// its lines share.
    pub fn new(key: &str, value: &str) -> (store: StaticContext)
        ensures
            store@ == Map::<Seq<char>, Seq<char>>::empty().insert(key@, dedented(value@)),
    {
        let mut aliases: Vec<(String, String)> = Vec::new();
        aliases.push((key.to_owned(), dedent(value)));
        let store = StaticContext { aliases };
        proof {
            let entries = store.aliases.deep_view();
            assert(entries.drop_last() =~= Seq::empty());
            assert(entries.last() == (key@, dedented(value@)));
            reveal_with_fuel(entries_map, 2);
        }
        store
    }

    /// The store with `value`, without the indentation that its lines share,
    /// under `key` as well; a text that was there under `key` is replaced.
    pub fn with(self, key: &str, value: &str) -> (store: StaticContext)
        ensures
            store@ == self@.insert(key@, dedented(value@)),
    {
        let mut aliases = self.aliases;
        aliases.push((key.to_owned(), dedent(value)));
        let store = StaticContext { aliases };
        proof {
            assert(store.aliases.deep_view().drop_last() =~= self.aliases.deep_view());
            assert(store.aliases.deep_view().last() == (key@, dedented(value@)));
        }
        store
    }
}

impl Context for StaticContext {
    /// A static store holds what it was given.
    open spec fn holds(&self) -> Option<Map<Seq<char>, Seq<char>>> {
        Some(self@)
    }

    /// The text under `key`, where the store holds one. The store stays as
    /// it is.
    fn lookup(&mut self, key: &str) -> (answer: Result<String, NotFound>)
        ensures
            *final(self) == *old(self),
            match answer {
                Ok(text) => old(self)@.contains_key(key@) && text@ == old(self)@[key@],
                Err(_) => !old(self)@.contains_key(key@),
            },
    {
        let ghost entries = self.aliases.deep_view();
        match last_entry(&self.aliases, key) {
            Some(at) => {
                proof {
                    assert forall|j: int| at < j < entries.len() implies (#[trigger] entries[j]).0
                        != key@ by {
                        assert(self.aliases@[j].0@ != key@);
                    }
                    lemma_entries_map_with(entries, key@, at as int);
                }
                Ok(self.aliases[at].1.clone())
            },
            None => {
                proof {
                    assert forall|j: int| 0 <= j < entries.len() implies (#[trigger] entries[j]).0
                        != key@ by {
                        assert(self.aliases@[j].0@ != key@);
                    }
                    lemma_entries_map_without(entries, key@);
                }
                Err(NotFound)
            },
        }
    }
}

/// A store whose resources are the files of one directory. Reading a file is
/// left to the program that uses the library.
pub struct DirContext {
    pub dir: PathBuf,
}

impl DirContext {
    /// A store over the directory `dir`.
    pub fn new(dir: PathBuf) -> (store: DirContext)
        ensures
            store.dir == dir,
    {
        DirContext { dir }
    }
}

/// A store that remembers what another store answered, the misses too, and
/// asks it for no key twice.
pub struct CachedContext<T> {
    root: Box<T>,
    cache: Vec<(String, Option<String>)>,
}

impl<T: Context> CachedContext<T> {
    /// The store that is asked where the cache has no answer.
    pub closed spec fn inner(&self) -> T {
        *self.root
    }

    /// What the cache remembers: for each key that was looked up, the text
    /// that the inner store gave, or `None` where it gave none.
    pub closed spec fn cached(&self) -> Map<Seq<char>, Option<Seq<char>>> {
        entries_map(self.cache.deep_view())
    }

    /// Whether the cache remembers of `texts` nothing but what is so.
    pub open spec fn agrees(&self, texts: Map<Seq<char>, Seq<char>>) -> bool {
        forall|key: Seq<char>| #[trigger]
            self.cached().contains_key(key) ==> self.cached()[key] == text_under(texts, key)
    }

    /// What a lookup of `key` does: `self` is the store before it and
    /// `after` the store after it.
    ///
    /// A key that the cache remembers is answered from the cache, and
    /// nothing changes: the inner store is not asked. For any other key the
    /// inner store is asked, and the cache remembers its answer.
    pub open spec fn lookup_step(
        &self,
        key: Seq<char>,
        answer: Result<String, NotFound>,
        after: &Self,
    ) -> bool {
        if self.cached().contains_key(key) {
            &&& *after == *self
            &&& answer_text(answer) == self.cached()[key]
        } else {
            after.cached() == self.cached().insert(key, answer_text(answer))
        }
    }

    /// A cache over `root` that remembers nothing yet.
    pub fn new(root: Box<T>) -> (store: CachedContext<T>)
        ensures
            store.inner() == *root,
            store.cached() == Map::<Seq<char>, Option<Seq<char>>>::empty(),
            store.holds() == root.holds(),
    {
        let store = CachedContext { root, cache: Vec::new() };
        assert(store.cache.deep_view() =~= Seq::empty());
        store
    }

    /// A key is looked up in the inner store once: from then on the cache
    /// answers for it as the inner store did, a miss included, and the
    /// inner store is left alone.
    pub proof fn lemma_second_lookup_is_cached(
        &self,
        key: Seq<char>,
        first: Result<String, NotFound>,
        then: &Self,
        second: Result<String, NotFound>,
        last: &Self,
    )
        requires
            self.lookup_step(key, first, then),
            then.lookup_step(key, second, last),
        ensures
            *last == *then,
            last.inner() == then.inner(),
            answer_text(second) == answer_text(first),
    {
    }
}

impl<T: Context> Context for CachedContext<T> {
    /// What the inner store holds, while the cache remembers nothing else.
    open spec fn holds(&self) -> Option<Map<Seq<char>, Seq<char>>> {
        match self.inner().holds() {
            Some(texts) => if self.agrees(texts) {
                Some(texts)
            } else {
                None
            },
            None => None,
        }
    }

    /// The answer of the cache where it has one, else the answer of the
    /// inner store, which the cache then remembers.
    fn lookup(&mut self, key: &str) -> (answer: Result<String, NotFound>)
        ensures
            old(self).lookup_step(key@, answer, final(self)),
    {
        let ghost entries = self.cache.deep_view();
        match last_entry(&self.cache, key) {
            Some(at) => {
                proof {
                    assert forall|j: int| at < j < entries.len() implies (#[trigger] entries[j]).0
                        != key@ by {
                        assert(self.cache@[j].0@ != key@);
                    }
                    lemma_entries_map_with(entries, key@, at as int);
                }
                match &self.cache[at].1 {
                    Some(text) => Ok(text.clone()),
                    None => Err(NotFound),
                }
            },
            None => {
                proof {
                    assert forall|j: int| 0 <= j < entries.len() implies (#[trigger] entries[j]).0
                        != key@ by {
                        assert(self.cache@[j].0@ != key@);
                    }
                    lemma_entries_map_without(entries, key@);
                }
                let answer = self.root.lookup(key);
                let kept = match &answer {
                    Ok(text) => Some(text.clone()),
                    Err(_) => None,
                };
                self.cache.push((key.to_owned(), kept));
                proof {
                    assert(self.cache.deep_view().drop_last() =~= entries);
                    assert(self.cache.deep_view().last() == (key@, answer_text(answer)));
                }
                answer
            },
        }
    }
}

} // verus!
