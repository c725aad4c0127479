//! A package's free-form `[package.metadata]` table, and the list of crates to
//! patch that it names under `patch.crates`.
use vstd::prelude::*;
use crate::text::str_eq;

verus! {

/// A value of a package's metadata table, as cargo reports it in JSON.
pub enum MetaValue {
    Null,
    Bool(bool),
    /// A number, by its decimal text.
    Number(String),
    Str(String),
    Array(Vec<MetaValue>),
    /// The entries of a table, each key once.
    Object(Vec<(String, MetaValue)>),
}

/// The value stored under `key` among `entries`, the first such entry if any.
pub open spec fn entry_lookup(entries: Seq<(String, MetaValue)>, key: Seq<char>) -> Option<
    MetaValue,
>
    decreases entries.len(),
{
    if entries.len() == 0 {
        None
    } else if entries[0].0@ == key {
        Some(entries[0].1)
    } else {
        entry_lookup(entries.drop_first(), key)
    }
}

/// Looking a key up among a table's entries finds the value of the first
/// entry with that key, wherever it stands, and nothing when no entry has it.
pub proof fn lemma_entry_lookup(entries: Seq<(String, MetaValue)>, key: Seq<char>)
    ensures
        match entry_lookup(entries, key) {
            Some(v) => exists|i: int|
                0 <= i < entries.len() && #[trigger] entries[i].0@ == key && v == entries[i].1
                    && forall|j: int| 0 <= j < i ==> entries[j].0@ != key,
            None => forall|j: int| 0 <= j < entries.len() ==> entries[j].0@ != key,
        },
        forall|i: int|
            0 <= i < entries.len() && #[trigger] entries[i].0@ == key && (forall|j: int|
                0 <= j < i ==> entries[j].0@ != key) ==> entry_lookup(entries, key) == Some(
                entries[i].1,
            ),
    decreases entries.len(),
{
    if entries.len() > 0 && entries[0].0@ != key {
        let rest = entries.drop_first();
        lemma_entry_lookup(rest, key);
        assert forall|j: int| 1 <= j < entries.len() implies entries[j] == rest[j - 1] by {}
        match entry_lookup(rest, key) {
            Some(v) => {
                let i = choose|i: int|
                    0 <= i < rest.len() && #[trigger] rest[i].0@ == key && v == rest[i].1
                        && forall|j: int| 0 <= j < i ==> rest[j].0@ != key;
                assert(entries[i + 1].0@ == key);
                assert forall|j: int| 0 <= j < i + 1 implies entries[j].0@ != key by {
                    if j > 0 {
                        assert(entries[j] == rest[j - 1]);
                    }
                }
            },
            None => {},
        }
        assert forall|i: int|
            0 <= i < entries.len() && #[trigger] entries[i].0@ == key && (forall|j: int|
                0 <= j < i ==> entries[j].0@ != key) implies entry_lookup(entries, key) == Some(
            entries[i].1,
        ) by {
            assert(i >= 1);
            assert(rest[i - 1].0@ == key);
            assert forall|j: int| 0 <= j < i - 1 implies rest[j].0@ != key by {
                assert(entries[j + 1].0@ != key);
            }
        }
    } else if entries.len() > 0 {
        assert(entries[0].0@ == key);
        assert forall|i: int|
            0 <= i < entries.len() && #[trigger] entries[i].0@ == key && (forall|j: int|
                0 <= j < i ==> entries[j].0@ != key) implies entry_lookup(entries, key) == Some(
            entries[i].1,
        ) by {
            if i > 0 {
                assert(entries[0].0@ != key);
            }
        }
    }
}

/// The strings among `items`, in order; other items are passed over.
pub open spec fn strings_of(items: Seq<MetaValue>) -> Seq<Seq<char>>
    decreases items.len(),
{
    if items.len() == 0 {
        Seq::empty()
    } else {
        let rest = strings_of(items.drop_last());
        match items.last() {
            MetaValue::Str(s) => rest.push(s@),
            _ => rest,
        }
    }
}

/// The strings of two runs of items are those of the first run, then those of
/// the second; a string item gives its text, unchanged, and any other item
/// gives nothing.
pub proof fn lemma_strings_of(first: Seq<MetaValue>, second: Seq<MetaValue>, item: MetaValue)
    ensures
        strings_of(first + second) == strings_of(first) + strings_of(second),
        strings_of(seq![item]) == match item {
            MetaValue::Str(s) => seq![s@],
            _ => Seq::<Seq<char>>::empty(),
        },
    decreases second.len(),
{
    assert(seq![item].drop_last() =~= Seq::<MetaValue>::empty());
    assert(seq![item].last() == item);
    assert(strings_of(Seq::<MetaValue>::empty()) == Seq::<Seq<char>>::empty());
    assert(strings_of(seq![item].drop_last()) == Seq::<Seq<char>>::empty());
    match item {
        MetaValue::Str(s) => {
            assert(Seq::<Seq<char>>::empty().push(s@) =~= seq![s@]);
            assert(strings_of(seq![item]) == Seq::<Seq<char>>::empty().push(s@));
        },
        _ => {
            assert(strings_of(seq![item]) == Seq::<Seq<char>>::empty());
        },
    }
    if second.len() == 0 {
        assert(first + second =~= first);
        assert(strings_of(first) + strings_of(second) =~= strings_of(first));
    } else {
        lemma_strings_of(first, second.drop_last(), item);
        assert((first + second).drop_last() =~= first + second.drop_last());
        assert((first + second).last() == second.last());
    }
}

/// The crates that a metadata table names under `patch.crates`: the strings
/// of that array, or none when the path does not lead to an array.
pub open spec fn patch_crates_of(meta: MetaValue) -> Seq<Seq<char>> {
    match meta.lookup("patch"@) {
        Some(patch) => match patch.lookup("crates"@) {
            Some(MetaValue::Array(items)) => strings_of(items@),
            _ => Seq::empty(),
        },
        None => Seq::empty(),
    }
}

impl MetaValue {
    /// The value under `key` when this is a table that has that key.
    pub open spec fn lookup(self, key: Seq<char>) -> Option<MetaValue> {
        match self {
            MetaValue::Object(entries) => entry_lookup(entries@, key),
            _ => None,
        }
    }

    /// The value under `key` when this is a table that has that key.
    pub fn get(&self, key: &str) -> (r: Option<&MetaValue>)
        ensures
            match r {
                Some(v) => self.lookup(key@) == Some(*v),
                None => self.lookup(key@) is None,
            },
            match *self {
                MetaValue::Object(entries) => (r is Some <==> exists|i: int|
                    0 <= i < entries@.len() && #[trigger] entries@[i].0@ == key@) && (r matches Some(
                    v,
                ) ==> exists|i: int|
                    0 <= i < entries@.len() && #[trigger] entries@[i].0@ == key@ && *v
                        == entries@[i].1 && forall|j: int| 0 <= j < i ==> entries@[j].0@ != key@),
                _ => r is None,
            },
    {
        match self {
            MetaValue::Object(entries) => {
                proof {
                    lemma_entry_lookup(entries@, key@);
                }
                let mut i: usize = 0;
                assert(entries@.skip(0) =~= entries@);
                while i < entries.len()
                    invariant
                        i <= entries@.len(),
                        *self == MetaValue::Object(*entries),
                        self.lookup(key@) == entry_lookup(
                            entries@.skip(i as int),
                            key@,
                        ),
                    decreases entries@.len() - i,
                {
                    assert(entries@.skip(i as int).drop_first() =~= entries@.skip(i + 1));
                    assert(entries@.skip(i as int)[0] == entries@[i as int]);
                    let entry = &entries[i];
                    if str_eq(entry.0.as_str(), key) {
                        proof {
                            lemma_entry_lookup(entries@, key@);
                        }
                        return Some(&entry.1);
                    }
                    i = i + 1;
                }
                None
            },
            _ => None,
        }
    }

    /// The items of this value when it is an array.
    pub fn as_array(&self) -> (r: Option<&Vec<MetaValue>>)
        ensures
            match r {
                Some(items) => *self == MetaValue::Array(*items),
                None => !(*self is Array),
            },
    {
        match self {
            MetaValue::Array(items) => Some(items),
            _ => None,
        }
    }

    /// The text of this value when it is a string.
    pub fn as_str(&self) -> (r: Option<&str>)
        ensures
            match r {
                Some(s) => *self is Str && s@ == self->Str_0@,
                None => !(*self is Str),
            },
    {
        match self {
            MetaValue::Str(s) => Some(s.as_str()),
            _ => None,
        }
    }
}

/// The crates that a package's metadata names under `patch.crates`, in order.
pub fn patch_crates(meta: &MetaValue) -> (r: Vec<String>)
    ensures
        r.deep_view() == patch_crates_of(*meta),
{
    let mut out: Vec<String> = Vec::new();
    if let Some(patch) = meta.get("patch") {
        if let Some(crates) = patch.get("crates") {
            if let Some(items) = crates.as_array() {
                let mut i: usize = 0;
                while i < items.len()
                    invariant
                        i <= items@.len(),
                        out.deep_view() == strings_of(items@.take(i as int)),
                    decreases items@.len() - i,
                {
                    let ghost before = out.deep_view();
                    assert(items@.take(i + 1).drop_last() =~= items@.take(i as int));
                    if let Some(s) = items[i].as_str() {
                        out.push(String::from_str(s));
                        assert(out.deep_view() =~= before.push(s@));
                    }
                    i = i + 1;
                }
                assert(items@.take(items@.len() as int) =~= items@);
            }
        }
    }
    out
}

} // verus!
