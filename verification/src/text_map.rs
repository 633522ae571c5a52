//! A map from text to text, kept in the order in which its keys came.

use vstd::prelude::*;

use crate::text::same_text;

verus! {

/// A map from text to text.
#[derive(Debug)]
pub struct TextMap {
    pub entries: Vec<(String, String)>,
}

/// What a list of entries maps: a later entry overrides an earlier one with the same key.
pub open spec fn map_of(entries: Seq<(String, String)>) -> Map<Seq<char>, Seq<char>>
    decreases entries.len(),
{
    if entries.len() == 0 {
        Map::empty()
    } else {
        map_of(entries.drop_last()).insert(entries.last().0@, entries.last().1@)
    }
}

impl View for TextMap {
    type V = Map<Seq<char>, Seq<char>>;

    open spec fn view(&self) -> Map<Seq<char>, Seq<char>> {
        map_of(self.entries@)
    }
}

/// Whether no key occurs twice.
pub open spec fn has_distinct_keys(entries: Seq<(String, String)>) -> bool {
    forall|left: int, right: int|
        0 <= left < right < entries.len() ==> (#[trigger] entries[left]).0@
            != (#[trigger] entries[right]).0@
}

/// The last entry with a key is the one that counts.
proof fn lemma_last_entry_counts(entries: Seq<(String, String)>, at: int)
    requires
        0 <= at < entries.len(),
        forall|behind: int|
            at < behind < entries.len() ==> (#[trigger] entries[behind]).0@ != entries[at].0@,
    ensures
        map_of(entries).contains_key(entries[at].0@),
        map_of(entries)[entries[at].0@] == entries[at].1@,
    decreases entries.len(),
{
    if at < entries.len() - 1 {
        let front = entries.drop_last();
        assert(front[at] == entries[at]);
        assert forall|behind: int| at < behind < front.len() implies (#[trigger] front[behind]).0@
            != front[at].0@ by {
            assert(front[behind] == entries[behind]);
        }
        lemma_last_entry_counts(front, at);
        assert(entries.last() == entries[entries.len() - 1]);
    }
}

/// A key that no entry has is not in the map.
proof fn lemma_absent_key(entries: Seq<(String, String)>, key: Seq<char>)
    requires
        forall|at: int| 0 <= at < entries.len() ==> (#[trigger] entries[at]).0@ != key,
    ensures
        !map_of(entries).contains_key(key),
    decreases entries.len(),
{
    if entries.len() > 0 {
        let front = entries.drop_last();
        assert forall|at: int| 0 <= at < front.len() implies (#[trigger] front[at]).0@ != key by {
            assert(front[at] == entries[at]);
        }
        lemma_absent_key(front, key);
        assert(entries.last() == entries[entries.len() - 1]);
    }
}

/// Replacing the last entry with a key is an insertion.
proof fn lemma_replaced_entry(
    entries: Seq<(String, String)>,
    at: int,
    replacement: (String, String),
)
    requires
        0 <= at < entries.len(),
        replacement.0@ == entries[at].0@,
        forall|behind: int|
            at < behind < entries.len() ==> (#[trigger] entries[behind]).0@ != entries[at].0@,
    ensures
        map_of(entries.update(at, replacement)) == map_of(entries).insert(
            replacement.0@,
            replacement.1@,
        ),
    decreases entries.len(),
{
    let updated = entries.update(at, replacement);
    let front = entries.drop_last();
    if at < entries.len() - 1 {
        assert(front[at] == entries[at]);
        assert forall|behind: int| at < behind < front.len() implies (#[trigger] front[behind]).0@
            != front[at].0@ by {
            assert(front[behind] == entries[behind]);
        }
        lemma_replaced_entry(front, at, replacement);
        assert(updated.drop_last() =~= front.update(at, replacement));
        let last = entries.last();
        assert(last == entries[entries.len() - 1]);
        assert(updated.last() == last);
        assert(map_of(front).insert(replacement.0@, replacement.1@).insert(last.0@, last.1@)
            =~= map_of(front).insert(last.0@, last.1@).insert(replacement.0@, replacement.1@));
    } else {
        assert(updated.drop_last() =~= front);
        assert(map_of(updated) =~= map_of(entries).insert(replacement.0@, replacement.1@));
    }
}

impl TextMap {
    /// A map that holds nothing.
    pub fn new() -> (map: TextMap)
        ensures
            map@ == Map::<Seq<char>, Seq<char>>::empty(),
            has_distinct_keys(map.entries@),
    {
        TextMap { entries: Vec::new() }
    }

    /// Where the last entry with `key` stands.
    fn find(&self, key: &str) -> (found: Option<usize>)
        ensures
            match found {
                Some(at) => at < self.entries@.len() && self.entries@[at as int].0@ == key@ && (
                forall|behind: int|
                    at < behind < self.entries@.len() ==> (#[trigger] self.entries@[behind]).0@
                        != key@),
                None => forall|at: int|
                    0 <= at < self.entries@.len() ==> (#[trigger] self.entries@[at]).0@ != key@,
            },
    {
        let mut at: usize = self.entries.len();
        while at > 0
            invariant
                at <= self.entries@.len(),
                forall|behind: int|
                    at <= behind < self.entries@.len() ==> (#[trigger] self.entries@[behind]).0@
                        != key@,
            decreases at,
        {
            at -= 1;
            if same_text(self.entries[at].0.as_str(), key) {
                return Some(at);
            }
        }
        None
    }

    /// What `key` is mapped to.
    pub fn get(&self, key: &str) -> (value: Option<String>)
        ensures
            match value {
                Some(text) => self@.contains_key(key@) && self@[key@] == text@,
                None => !self@.contains_key(key@),
            },
    {
        match self.find(key) {
            Some(at) => {
                proof {
                    lemma_last_entry_counts(self.entries@, at as int);
                }
                Some(self.entries[at].1.clone())
            },
            None => {
                proof {
                    lemma_absent_key(self.entries@, key@);
                }
                None
            },
        }
    }

    /// Maps `key` to `value` from now on.
    pub fn insert(&mut self, key: String, value: String)
        ensures
            final(self)@ == old(self)@.insert(key@, value@),
            has_distinct_keys(old(self).entries@) ==> has_distinct_keys(final(self).entries@),
    {
        let ghost before = self.entries@;
        match self.find(key.as_str()) {
            Some(at) => {
                proof {
                    lemma_replaced_entry(before, at as int, (key, value));
                }
                self.entries.set(at, (key, value));
            },
            None => {
                self.entries.push((key, value));
                assert(self.entries@.drop_last() =~= before);
            },
        }
    }
}

/// The last entry with a key counts.
pub proof fn law_last_entry_counts(entries: Seq<(String, String)>, at: int)
    requires
        0 <= at < entries.len(),
        forall|behind: int|
            at < behind < entries.len() ==> (#[trigger] entries[behind]).0@ != entries[at].0@,
    ensures
        map_of(entries).contains_key(entries[at].0@),
        map_of(entries)[entries[at].0@] == entries[at].1@,
    decreases entries.len(),
{
    let last = entries.len() - 1;
    if at < last {
        let front = entries.drop_last();
        assert(entries[last].0@ != entries[at].0@);
        assert forall|behind: int| at < behind < front.len() implies (#[trigger] front[behind]).0@
            != front[at].0@ by {
            assert(front[behind] == entries[behind]);
        }
        law_last_entry_counts(front, at);
    }
}

/// What has no entry is not mapped.
pub proof fn law_only_entries_count(entries: Seq<(String, String)>, key: Seq<char>)
    requires
        forall|at: int| 0 <= at < entries.len() ==> (#[trigger] entries[at]).0@ != key,
    ensures
        !map_of(entries).contains_key(key),
    decreases entries.len(),
{
    if entries.len() > 0 {
        let front = entries.drop_last();
        assert(entries[entries.len() - 1].0@ != key);
        assert forall|at: int| 0 <= at < front.len() implies (#[trigger] front[at]).0@ != key by {
            assert(front[at] == entries[at]);
        }
        law_only_entries_count(front, key);
    }
}

} // verus!
