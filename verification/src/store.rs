//! A key-value store held in memory.
//!
//! It offers what the counter needs of a backend: read a key's text, write a
//! key's text, and write it only if the key still holds what was read. Each
//! store is a value of its own, so several can be used side by side.

use vstd::prelude::*;

verus! {

/// One stored key with its text.
#[derive(Debug)]
struct Entry {
    key: String,
    text: String,
}

/// The keys and texts that a list of entries holds. Where a key occurs more
/// than once, its last entry counts.
spec fn contents(entries: Seq<Entry>) -> Map<Seq<char>, Seq<char>>
    decreases entries.len(),
{
    if entries.len() == 0 {
        Map::empty()
    } else {
        contents(entries.drop_last()).insert(entries.last().key@, entries.last().text@)
    }
}

/// `hit` is the place of the last entry for `key`.
spec fn is_last_entry_for(entries: Seq<Entry>, key: Seq<char>, hit: int) -> bool {
    &&& 0 <= hit < entries.len()
    &&& entries[hit].key@ == key
    &&& forall|j: int| hit < j < entries.len() ==> (#[trigger] entries[j]).key@ != key
}

/// No entry is for `key`.
spec fn has_no_entry_for(entries: Seq<Entry>, key: Seq<char>) -> bool {
    forall|j: int| 0 <= j < entries.len() ==> (#[trigger] entries[j]).key@ != key
}

proof fn lemma_contents_at_last_entry(entries: Seq<Entry>, key: Seq<char>, hit: int)
    requires
        is_last_entry_for(entries, key, hit),
    ensures
        contents(entries).get(key) == Some(entries[hit].text@),
    decreases entries.len(),
{
    if hit < entries.len() - 1 {
        lemma_contents_at_last_entry(entries.drop_last(), key, hit);
    }
}

proof fn lemma_contents_without_entry(entries: Seq<Entry>, key: Seq<char>)
    requires
        has_no_entry_for(entries, key),
    ensures
        contents(entries).get(key) == None::<Seq<char>>,
    decreases entries.len(),
{
    if entries.len() > 0 {
        lemma_contents_without_entry(entries.drop_last(), key);
    }
}

proof fn lemma_contents_after_update(entries: Seq<Entry>, hit: int, entry: Entry)
    requires
        is_last_entry_for(entries, entry.key@, hit),
    ensures
        contents(entries.update(hit, entry)) == contents(entries).insert(entry.key@, entry.text@),
    decreases entries.len(),
{
    let updated = entries.update(hit, entry);
    if hit == entries.len() - 1 {
        assert(updated.drop_last() =~= entries.drop_last());
    } else {
        lemma_contents_after_update(entries.drop_last(), hit, entry);
        assert(updated.drop_last() =~= entries.drop_last().update(hit, entry));
    }
}

/// A key-value store in memory. Its view is the map from each stored key to
/// its text.
#[derive(Debug)]
pub struct MemoryStore {
    entries: Vec<Entry>,
}

impl View for MemoryStore {
    type V = Map<Seq<char>, Seq<char>>;

    closed spec fn view(&self) -> Map<Seq<char>, Seq<char>> {
        contents(self.entries@)
    }
}

impl MemoryStore {
    /// A store that holds nothing.
    pub fn new() -> (store: MemoryStore)
        ensures
            store@ == Map::<Seq<char>, Seq<char>>::empty(),
    {
        MemoryStore { entries: Vec::new() }
    }

    /// The place of the last entry for `key`, if there is one.
    fn find(&self, key: &String) -> (found: Option<usize>)
        ensures
            match found {
                Some(hit) => is_last_entry_for(self.entries@, key@, hit as int),
                None => has_no_entry_for(self.entries@, key@),
            },
    {
        let mut at: usize = self.entries.len();
        while at > 0
            invariant
                at <= self.entries@.len(),
                forall|j: int|
                    at <= j < self.entries@.len() ==> (#[trigger] self.entries@[j]).key@ != key@,
            decreases at,
        {
            at = at - 1;
            if self.entries[at].key == *key {
                return Some(at);
            }
        }
        None
    }

    /// The text stored under `key`, if any.
    pub fn get(&self, key: &str) -> (stored: Option<String>)
        ensures
            stored.deep_view() == self@.get(key@),
    {
        let wanted = key.to_owned();
        match self.find(&wanted) {
            Some(hit) => {
                proof {
                    lemma_contents_at_last_entry(self.entries@, key@, hit as int);
                }
                Some(self.entries[hit].text.clone())
            },
            None => {
                proof {
                    lemma_contents_without_entry(self.entries@, key@);
                }
                None
            },
        }
    }

    /// Stores `text` under `key`, whatever the key held before.
    pub fn put(&mut self, key: &str, text: String)
        ensures
            final(self)@ == old(self)@.insert(key@, text@),
    {
        let entry = Entry { key: key.to_owned(), text };
        match self.find(&entry.key) {
            Some(hit) => {
                proof {
                    lemma_contents_after_update(self.entries@, hit as int, entry);
                }
                self.entries.set(hit, entry);
            },
            None => {
                assert(self.entries@.push(entry).drop_last() =~= self.entries@);
                self.entries.push(entry);
            },
        }
    }

    /// Stores `text` under `key` if the key still holds `expected` (`None`:
    /// holds nothing), and tells whether it did so.
    pub fn put_if_unchanged(
        &mut self,
        key: &str,
        expected: &Option<String>,
        text: String,
    ) -> (applied: bool)
        ensures
            applied == (old(self)@.get(key@) == expected.deep_view()),
            final(self)@ == if applied {
                old(self)@.insert(key@, text@)
            } else {
                old(self)@
            },
    {
        let entry = Entry { key: key.to_owned(), text };
        match self.find(&entry.key) {
            Some(hit) => {
                proof {
                    lemma_contents_at_last_entry(self.entries@, key@, hit as int);
                    lemma_contents_after_update(self.entries@, hit as int, entry);
                }
                let unchanged = match expected {
                    Some(text) => self.entries[hit].text == *text,
                    None => false,
                };
                if unchanged {
                    self.entries.set(hit, entry);
                }
                unchanged
            },
            None => {
                proof {
                    lemma_contents_without_entry(self.entries@, key@);
                }
                let unchanged = expected.is_none();
                if unchanged {
                    assert(self.entries@.push(entry).drop_last() =~= self.entries@);
                    self.entries.push(entry);
                }
                unchanged
            },
        }
    }
}

} // verus!
