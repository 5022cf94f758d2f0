//! The metadata of a field: values by key.

use vstd::prelude::*;

verus! {

/// A metadata value.
#[derive(Debug)]
pub enum MetadataValue {
    /// An integer
    Number(i64),
    /// A string
    String(String),
    /// A boolean
    Boolean(bool),
    /// Any other JSON value, as its text
    Other(String),
}

/// What a metadata value holds.
pub enum MetadataValueView {
    Number(i64),
    String(Seq<char>),
    Boolean(bool),
    Other(Seq<char>),
}

impl View for MetadataValue {
    type V = MetadataValueView;

    open spec fn view(&self) -> MetadataValueView {
        match self {
            MetadataValue::Number(n) => MetadataValueView::Number(*n),
            MetadataValue::String(s) => MetadataValueView::String(s@),
            MetadataValue::Boolean(b) => MetadataValueView::Boolean(*b),
            MetadataValue::Other(s) => MetadataValueView::Other(s@),
        }
    }
}

impl Clone for MetadataValue {
    fn clone(&self) -> (r: Self)
        ensures
            r@ == self@,
    {
        match self {
            MetadataValue::Number(n) => MetadataValue::Number(*n),
            MetadataValue::String(s) => MetadataValue::String(s.clone()),
            MetadataValue::Boolean(b) => MetadataValue::Boolean(*b),
            MetadataValue::Other(s) => MetadataValue::Other(s.clone()),
        }
    }
}

impl PartialEq for MetadataValue {
    fn eq(&self, other: &Self) -> (r: bool) {
        match (self, other) {
            (MetadataValue::Number(a), MetadataValue::Number(b)) => *a == *b,
            (MetadataValue::String(a), MetadataValue::String(b)) => *a == *b,
            (MetadataValue::Boolean(a), MetadataValue::Boolean(b)) => *a == *b,
            (MetadataValue::Other(a), MetadataValue::Other(b)) => *a == *b,
            _ => false,
        }
    }
}

impl vstd::std_specs::cmp::PartialEqSpecImpl for MetadataValue {
    open spec fn obeys_eq_spec() -> bool {
        true
    }

    open spec fn eq_spec(&self, other: &Self) -> bool {
        self@ == other@
    }
}

impl Eq for MetadataValue {}

/// The map that a list of entries stands for.
pub open spec fn entries_map(entries: Seq<(String, MetadataValue)>) -> Map<
    Seq<char>,
    MetadataValueView,
>
    decreases entries.len(),
{
    if entries.len() == 0 {
        Map::empty()
    } else {
        entries_map(entries.drop_last()).insert(entries.last().0@, entries.last().1@)
    }
}

/// No key stands twice in the list.
pub open spec fn distinct_keys(entries: Seq<(String, MetadataValue)>) -> bool {
    forall|i: int, j: int|
        0 <= i < j < entries.len() ==> (#[trigger] entries[i]).0@ != (#[trigger] entries[j]).0@
}

/// The keys of the map are those of the entries.
proof fn lemma_entries_map_keys(entries: Seq<(String, MetadataValue)>, key: Seq<char>)
    ensures
        entries_map(entries).contains_key(key) <==> exists|i: int|
            0 <= i < entries.len() && (#[trigger] entries[i]).0@ == key,
    decreases entries.len(),
{
    if entries.len() > 0 {
        let rest = entries.drop_last();
        lemma_entries_map_keys(rest, key);
        if entries_map(entries).contains_key(key) {
            if entries.last().0@ == key {
                assert(entries[entries.len() - 1].0@ == key);
            } else {
                let i = choose|i: int| 0 <= i < rest.len() && (#[trigger] rest[i]).0@ == key;
                assert(entries[i].0@ == key);
            }
        }
        if exists|i: int| 0 <= i < entries.len() && (#[trigger] entries[i]).0@ == key {
            let i = choose|i: int| 0 <= i < entries.len() && (#[trigger] entries[i]).0@ == key;
            if i < rest.len() {
                assert(rest[i].0@ == key);
            }
        }
    }
}

/// The map has for the key of an entry the value of that entry.
proof fn lemma_entries_map_value(entries: Seq<(String, MetadataValue)>, i: int)
    requires
        distinct_keys(entries),
        0 <= i < entries.len(),
    ensures
        entries_map(entries).contains_key(entries[i].0@),
        entries_map(entries)[entries[i].0@] == entries[i].1@,
    decreases entries.len(),
{
    if i < entries.len() - 1 {
        let rest = entries.drop_last();
        assert(distinct_keys(rest)) by {
            assert forall|a: int, b: int| 0 <= a < b < rest.len() implies (#[trigger] rest[a]).0@
                != (#[trigger] rest[b]).0@ by {
                assert(entries[a].0@ != entries[b].0@);
            }
        }
        lemma_entries_map_value(rest, i);
        assert(rest[i] == entries[i]);
        assert(entries[i].0@ != entries[entries.len() - 1].0@);
    }
}

/// Metadata values by key. No key stands twice.
#[derive(Debug)]
pub struct Metadata {
    entries: Vec<(String, MetadataValue)>,
}

impl View for Metadata {
    type V = Map<Seq<char>, MetadataValueView>;

    closed spec fn view(&self) -> Map<Seq<char>, MetadataValueView> {
        entries_map(self.entries@)
    }
}

impl Metadata {
    #[verifier::type_invariant]
    spec fn inv(self) -> bool {
        distinct_keys(self.entries@)
    }

    /// No metadata.
    pub fn new() -> (r: Self)
        ensures
            r@ == Map::<Seq<char>, MetadataValueView>::empty(),
    {
        Metadata { entries: Vec::new() }
    }

    /// The entries, in the order in which their keys came.
    pub fn entries(&self) -> (r: &[(String, MetadataValue)])
        ensures
            entries_map(r@) == self@,
            distinct_keys(r@),
    {
        proof {
            use_type_invariant(self);
        }
        self.entries.as_slice()
    }

    /// The position of a key among the entries.
    fn position(&self, key: &String) -> (r: Option<usize>)
        ensures
            match r {
                Some(i) => i < self.entries@.len() && self.entries@[i as int].0@ == key@,
                None => forall|i: int|
                    0 <= i < self.entries@.len() ==> (#[trigger] self.entries@[i]).0@ != key@,
            },
    {
        let n: usize = self.entries.len();
        for i in 0..n
            invariant
                n == self.entries@.len(),
                forall|j: int| 0 <= j < i ==> (#[trigger] self.entries@[j]).0@ != key@,
        {
            if self.entries[i].0 == *key {
                return Some(i);
            }
        }
        None
    }

    /// The value for a key.
    pub fn get(&self, key: &String) -> (r: Option<&MetadataValue>)
        ensures
            match r {
                Some(value) => self@.contains_key(key@) && value@ == self@[key@],
                None => !self@.contains_key(key@),
            },
    {
        proof {
            use_type_invariant(self);
            lemma_entries_map_keys(self.entries@, key@);
        }
        match self.position(key) {
            Some(i) => {
                proof {
                    lemma_entries_map_value(self.entries@, i as int);
                }
                Some(&self.entries[i].1)
            },
            None => None,
        }
    }

    /// The metadata with `value` for `key`, whatever it had for that key.
    pub fn insert(self, key: String, value: MetadataValue) -> (r: Self)
        ensures
            r@ == self@.insert(key@, value@),
    {
        proof {
            use_type_invariant(&self);
        }
        let position = self.position(&key);
        let mut entries = self.entries;
        let ghost before = entries@;
        match position {
            Some(i) => {
                entries.set(i, (key, value));
                proof {
                    lemma_entries_map_update(before, entries@, i as int);
                }
                Metadata { entries }
            },
            None => {
                entries.push((key, value));
                assert(entries@.drop_last() =~= before);
                Metadata { entries }
            },
        }
    }

    /// Whether `other` has every entry of this metadata.
    fn all_in(&self, other: &Metadata) -> (r: bool)
        ensures
            r == self@.submap_of(other@),
    {
        proof {
            use_type_invariant(self);
        }
        let n: usize = self.entries.len();
        for i in 0..n
            invariant
                n == self.entries@.len(),
                distinct_keys(self.entries@),
                forall|j: int|
                    0 <= j < i ==> other@.contains_pair(
                        (#[trigger] self.entries@[j]).0@,
                        self.entries@[j].1@,
                    ),
        {
            proof {
                lemma_entries_map_value(self.entries@, i as int);
            }
            match other.get(&self.entries[i].0) {
                Some(value) => {
                    if *value != self.entries[i].1 {
                        return false;
                    }
                },
                None => {
                    return false;
                },
            }
        }
        assert forall|key: Seq<char>| self@.contains_key(key) implies #[trigger] other@.contains_key(
            key,
        ) && self@[key] == other@[key] by {
            lemma_entries_map_keys(self.entries@, key);
            let i = choose|i: int|
                0 <= i < self.entries@.len() && (#[trigger] self.entries@[i]).0@ == key;
            lemma_entries_map_value(self.entries@, i);
        }
        true
    }
}

/// Replacing the value of an entry replaces it in the map.
proof fn lemma_entries_map_update(
    before: Seq<(String, MetadataValue)>,
    after: Seq<(String, MetadataValue)>,
    i: int,
)
    requires
        distinct_keys(before),
        0 <= i < before.len(),
        after.len() == before.len(),
        after[i].0@ == before[i].0@,
        forall|j: int| 0 <= j < before.len() && j != i ==> #[trigger] after[j] == before[j],
    ensures
        distinct_keys(after),
        entries_map(after) == entries_map(before).insert(after[i].0@, after[i].1@),
{
    assert forall|a: int, b: int| 0 <= a < b < after.len() implies (#[trigger] after[a]).0@ != (
    #[trigger] after[b]).0@ by {
        assert(before[a].0@ != before[b].0@);
        assert(after[a].0@ == before[a].0@);
        assert(after[b].0@ == before[b].0@);
    }
    let expected = entries_map(before).insert(after[i].0@, after[i].1@);
    assert forall|key: Seq<char>| #[trigger]
        entries_map(after).contains_key(key) <==> expected.contains_key(key) by {
        lemma_entries_map_keys(before, key);
        lemma_entries_map_keys(after, key);
        if entries_map(after).contains_key(key) {
            let j = choose|j: int| 0 <= j < after.len() && (#[trigger] after[j]).0@ == key;
            assert(before[j].0@ == key);
        }
        if expected.contains_key(key) {
            if key == after[i].0@ {
            } else {
                let j = choose|j: int| 0 <= j < before.len() && (#[trigger] before[j]).0@ == key;
                assert(after[j].0@ == key);
            }
        }
    }
    assert forall|key: Seq<char>| #[trigger]
        entries_map(after).contains_key(key) implies entries_map(after)[key] == expected[key] by {
        lemma_entries_map_keys(after, key);
        let j = choose|j: int| 0 <= j < after.len() && (#[trigger] after[j]).0@ == key;
        lemma_entries_map_value(after, j);
        lemma_entries_map_value(before, j);
    }
    assert(entries_map(after) =~= expected);
}

impl Clone for Metadata {
    fn clone(&self) -> (r: Self)
        ensures
            r@ == self@,
    {
        proof {
            use_type_invariant(self);
        }
        let mut entries: Vec<(String, MetadataValue)> = Vec::new();
        let n: usize = self.entries.len();
        for i in 0..n
            invariant
                n == self.entries@.len(),
                distinct_keys(self.entries@),
                entries@.len() == i,
                forall|j: int|
                    0 <= j < i ==> (#[trigger] entries@[j]).0@ == self.entries@[j].0@
                        && entries@[j].1@ == self.entries@[j].1@,
        {
            entries.push((self.entries[i].0.clone(), self.entries[i].1.clone()));
        }
        proof {
            lemma_entries_map_same(entries@, self.entries@);
        }
        Metadata { entries }
    }
}

/// Entries with equal contents stand for the same map.
proof fn lemma_entries_map_same(a: Seq<(String, MetadataValue)>, b: Seq<(String, MetadataValue)>)
    requires
        a.len() == b.len(),
        forall|j: int|
            0 <= j < a.len() ==> (#[trigger] a[j]).0@ == b[j].0@ && a[j].1@ == b[j].1@,
    ensures
        entries_map(a) == entries_map(b),
        distinct_keys(b) ==> distinct_keys(a),
    decreases a.len(),
{
    if a.len() > 0 {
        lemma_entries_map_same(a.drop_last(), b.drop_last());
    }
    if distinct_keys(b) {
        assert forall|i: int, j: int| 0 <= i < j < a.len() implies (#[trigger] a[i]).0@ != (
        #[trigger] a[j]).0@ by {
            assert(b[i].0@ != b[j].0@);
        }
    }
}

impl PartialEq for Metadata {
    fn eq(&self, other: &Self) -> (r: bool) {
        let r = self.all_in(other) && other.all_in(self);
        proof {
            if r {
                assert forall|key: Seq<char>| #[trigger]
                    self@.dom().contains(key) <==> other@.dom().contains(key) by {}
                assert(self@ =~= other@);
            }
        }
        r
    }
}

impl vstd::std_specs::cmp::PartialEqSpecImpl for Metadata {
    open spec fn obeys_eq_spec() -> bool {
        true
    }

    open spec fn eq_spec(&self, other: &Self) -> bool {
        self@ == other@
    }
}

impl Eq for Metadata {}

} // verus!
