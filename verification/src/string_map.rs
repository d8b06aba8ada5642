//! Maps whose keys are texts, such as labels and selectors.
use crate::text::same;
use vstd::prelude::*;

verus! {

/// A map from texts to values.
#[derive(Debug)]
pub struct StringMap<V> {
    entries: Vec<(String, V)>,
}

/// Whether no key occurs in two entries.
pub closed spec fn distinct_keys<V>(entries: Seq<(String, V)>) -> bool {
    forall|i: int, j: int|
        0 <= i < j < entries.len() ==> #[trigger] entries[i].0@ != #[trigger] entries[j].0@
}

/// The map that a row of entries stands for: the last entry of a key counts.
pub closed spec fn entries_map<V>(entries: Seq<(String, V)>) -> Map<Seq<char>, V>
    decreases entries.len(),
{
    if entries.len() == 0 {
        Map::empty()
    } else {
        entries_map(entries.drop_last()).insert(entries.last().0@, entries.last().1)
    }
}

/// Under distinct keys every entry is in the map, and nothing else is.
proof fn lemma_entries_map<V>(entries: Seq<(String, V)>)
    requires
        distinct_keys(entries),
    ensures
        forall|i: int|
            0 <= i < entries.len() ==> entries_map(entries).contains_key(
                #[trigger] entries[i].0@,
            ) && entries_map(entries)[entries[i].0@] == entries[i].1,
        forall|k: Seq<char>| #[trigger]
            entries_map(entries).contains_key(k) ==> exists|i: int|
                0 <= i < entries.len() && #[trigger] entries[i].0@ == k,
    decreases entries.len(),
{
    if entries.len() > 0 {
        let rest = entries.drop_last();
        lemma_entries_map(rest);
        assert forall|i: int| 0 <= i < entries.len() implies entries_map(entries).contains_key(
            #[trigger] entries[i].0@,
        ) && entries_map(entries)[entries[i].0@] == entries[i].1 by {
            if i < rest.len() {
                assert(rest[i] == entries[i]);
            }
        }
        assert forall|k: Seq<char>| #[trigger] entries_map(entries).contains_key(k) implies exists|
            i: int,
        |
            0 <= i < entries.len() && #[trigger] entries[i].0@ == k by {
            if k == entries.last().0@ {
                assert(entries[entries.len() - 1].0@ == k);
            } else {
                assert(entries_map(rest).contains_key(k));
                let i = choose|i: int| 0 <= i < rest.len() && #[trigger] rest[i].0@ == k;
                assert(entries[i] == rest[i]);
            }
        }
    }
}

impl<V> View for StringMap<V> {
    type V = Map<Seq<char>, V>;

    closed spec fn view(&self) -> Map<Seq<char>, V> {
        entries_map(self.entries@)
    }
}

impl<V> StringMap<V> {
    /// No key occurs twice.
    #[verifier::type_invariant]
    spec fn well_formed(&self) -> bool {
        distinct_keys(self.entries@)
    }

    /// A map without entries.
    pub fn new() -> (map: Self)
        ensures
            map@ == Map::<Seq<char>, V>::empty(),
    {
        StringMap { entries: Vec::new() }
    }

    /// The map with `key` bound to `value`, whatever it was bound to before.
    pub fn with(self, key: String, value: V) -> (map: Self)
        ensures
            map@ == self@.insert(key@, value),
    {
        proof {
            use_type_invariant(&self);
        }
        let mut entries = self.entries;
        let ghost before = entries@;
        let mut i: usize = 0;
        while i < entries.len() && !same(entries[i].0.as_str(), key.as_str())
            invariant
                i <= entries.len(),
                entries@ == before,
                forall|j: int| 0 <= j < i ==> #[trigger] entries@[j].0@ != key@,
            decreases entries.len() - i,
        {
            i += 1;
        }
        if i < entries.len() {
            let _ = entries.remove(i);
        }
        let ghost rest = entries@;
        entries.push((key, value));
        proof {
            assert(rest =~= if i < before.len() { before.remove(i as int) } else { before });
            assert(distinct_keys(rest));
            assert forall|j: int| 0 <= j < rest.len() implies #[trigger] rest[j].0@ != key@ by {
                if i < before.len() {
                    if j < i {
                        assert(rest[j] == before[j]);
                    } else {
                        assert(rest[j] == before[j + 1]);
                        assert(before[i as int].0@ != before[j + 1].0@);
                    }
                }
            }
            assert(entries@.drop_last() =~= rest);
            lemma_entries_map(before);
            lemma_entries_map(rest);
            assert(entries_map(rest).insert(key@, value) =~= entries_map(before).insert(
                key@,
                value,
            )) by {
                assert forall|k: Seq<char>| k != key@ implies entries_map(rest).contains_key(k)
                    == entries_map(before).contains_key(k) && (entries_map(rest).contains_key(k)
                    ==> entries_map(rest)[k] == entries_map(before)[k]) by {
                    if entries_map(before).contains_key(k) {
                        let j = choose|j: int|
                            0 <= j < before.len() && #[trigger] before[j].0@ == k;
                        if j < i {
                            assert(rest[j] == before[j]);
                        } else if i < before.len() {
                            assert(j != i);
                            assert(rest[j - 1] == before[j]);
                        }
                    }
                    if entries_map(rest).contains_key(k) {
                        let j = choose|j: int| 0 <= j < rest.len() && #[trigger] rest[j].0@ == k;
                        if j < i {
                            assert(rest[j] == before[j]);
                        } else {
                            assert(rest[j] == before[j + 1]);
                        }
                    }
                }
            }
        }
        StringMap { entries }
    }

    /// Whether the map has no entry.
    pub fn is_empty(&self) -> (empty: bool)
        ensures
            empty == (self@ == Map::<Seq<char>, V>::empty()),
    {
        proof {
            use_type_invariant(self);
            lemma_entries_map(self.entries@);
            if self.entries@.len() > 0 {
                assert(self@.contains_key(self.entries@[0].0@));
            }
        }
        self.entries.len() == 0
    }

    /// The value that `key` is bound to, if it is bound.
    pub fn get(&self, key: &str) -> (found: Option<&V>)
        ensures
            match found {
                Some(value) => self@.contains_key(key@) && self@[key@] == *value,
                None => !self@.contains_key(key@),
            },
    {
        proof {
            use_type_invariant(self);
            lemma_entries_map(self.entries@);
        }
        let mut i: usize = 0;
        while i < self.entries.len()
            invariant
                i <= self.entries.len(),
                forall|j: int| 0 <= j < i ==> #[trigger] self.entries@[j].0@ != key@,
                forall|j: int|
                    0 <= j < self.entries@.len() ==> self@.contains_key(
                        #[trigger] self.entries@[j].0@,
                    ) && self@[self.entries@[j].0@] == self.entries@[j].1,
            decreases self.entries.len() - i,
        {
            if same(self.entries[i].0.as_str(), key) {
                return Some(&self.entries[i].1);
            }
            i += 1;
        }
        None
    }
}

/// Whether `labels` binds every key of `selector`, each to the same text.
pub open spec fn selects(
    selector: Map<Seq<char>, String>,
    labels: Map<Seq<char>, String>,
) -> bool {
    forall|k: Seq<char>| #[trigger]
        selector.contains_key(k) ==> labels.contains_key(k) && labels[k]@ == selector[k]@
}

impl StringMap<String> {
    /// Whether `labels` binds every key of this map to the text it has here.
    pub fn matches(&self, labels: &StringMap<String>) -> (matched: bool)
        ensures
            matched == selects(self@, labels@),
    {
        proof {
            use_type_invariant(self);
            lemma_entries_map(self.entries@);
        }
        let mut i: usize = 0;
        while i < self.entries.len()
            invariant
                i <= self.entries.len(),
                forall|j: int|
                    0 <= j < self.entries@.len() ==> self@.contains_key(
                        #[trigger] self.entries@[j].0@,
                    ) && self@[self.entries@[j].0@] == self.entries@[j].1,
                forall|j: int|
                    0 <= j < i ==> labels@.contains_key(#[trigger] self.entries@[j].0@)
                        && labels@[self.entries@[j].0@]@ == self.entries@[j].1@,
            decreases self.entries.len() - i,
        {
            let key = self.entries[i].0.as_str();
            assert(self@.contains_key(self.entries@[i as int].0@));
            match labels.get(key) {
                Some(value) => {
                    if !same(value.as_str(), self.entries[i].1.as_str()) {
                        return false;
                    }
                },
                None => {
                    return false;
                },
            }
            i += 1;
        }
        true
    }
}

/// An empty selector selects all labels. One more key narrows a selector to the
/// labels that bind the key to the same text, and what it selects it still
/// selects where labels are added.
pub proof fn law_selects(
    selector: Map<Seq<char>, String>,
    labels: Map<Seq<char>, String>,
    key: Seq<char>,
    value: String,
)
    ensures
        selects(Map::empty(), labels),
        !selector.contains_key(key) ==> (selects(selector.insert(key, value), labels) <==> {
            &&& selects(selector, labels)
            &&& labels.contains_key(key)
            &&& labels[key]@ == value@
        }),
        !labels.contains_key(key) && selects(selector, labels) ==> selects(
            selector,
            labels.insert(key, value),
        ),
        selects(selector, selector),
{
    let longer = selector.insert(key, value);
    if !selector.contains_key(key) {
        if selects(longer, labels) {
            assert(longer.contains_key(key));
            assert forall|k: Seq<char>| #[trigger]
                selector.contains_key(k) implies labels.contains_key(k) && labels[k]@
                == selector[k]@ by {
                assert(longer.contains_key(k));
            }
        }
        if selects(selector, labels) && labels.contains_key(key) && labels[key]@ == value@ {
            assert forall|k: Seq<char>| #[trigger]
                longer.contains_key(k) implies labels.contains_key(k) && labels[k]@
                == longer[k]@ by {
                if k != key {
                    assert(selector.contains_key(k));
                }
            }
        }
    }
}


} // verus!
