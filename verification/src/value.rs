use vstd::prelude::*;
use crate::number::{JsonNumber, NumberModel};

verus! {

/// A parsed JSON value. A value owns everything below it.
#[derive(Debug)]
pub enum JsonValue {
    /// `true` or `false`.
    Boolean(bool),
    /// The characters between two double quotes, taken as they are.
    String(String),
    /// A number, kept as the decimal that the text spelt.
    Number(JsonNumber),
    /// The elements of an array, in their order.
    Array(Vec<JsonValue>),
    /// The members of an object.
    Object(JsonObject),
    /// `null`.
    Null,
}

/// The members of a JSON object: a mapping from key to value in which every
/// key occurs once. Writing to a key that is present replaces its value. The
/// order in which the keys are listed is not part of the object's meaning.
#[derive(Debug)]
pub struct JsonObject {
    entries: Vec<(String, JsonValue)>,
}

/// The mathematical content of a [`JsonValue`]: the same tree, with a
/// sequence for each array and a mapping for each object.
pub enum JsonModel {
    /// `true` or `false`.
    Boolean(bool),
    /// The characters of a string.
    String(Seq<char>),
    /// A number.
    Number(NumberModel),
    /// The elements of an array, in their order.
    Array(Seq<JsonModel>),
    /// The members of an object: under each key the value written last.
    Object(Map<Seq<char>, JsonModel>),
    /// `null`.
    Null,
}

impl JsonModel {
    /// Whether the tree is one that parsing can return: every number in it
    /// is well formed, and every object in it has finitely many keys.
    pub open spec fn well_formed(self) -> bool
        decreases self,
    {
        match self {
            JsonModel::Number(number) => number.well_formed(),
            JsonModel::Array(items) => forall|k: int|
                0 <= k < items.len() ==> (#[trigger] items[k]).well_formed(),
            JsonModel::Object(members) => members.dom().finite() && forall|key: Seq<char>|
                members.contains_key(key) ==> (#[trigger] members[key]).well_formed(),
            _ => true,
        }
    }
}

/// An array is well formed where each of its items is.
pub proof fn lemma_array_well_formed(items: Seq<JsonModel>)
    ensures
        JsonModel::Array(items).well_formed() <==> forall|k: int|
            0 <= k < items.len() ==> (#[trigger] items[k]).well_formed(),
{
    let array = JsonModel::Array(items);
    assert(array matches JsonModel::Array(inner) && inner == items);
}

/// An object is well formed where it has finitely many keys and each of its
/// values is well formed.
pub proof fn lemma_object_well_formed(members: Map<Seq<char>, JsonModel>)
    ensures
        JsonModel::Object(members).well_formed() <==> members.dom().finite() && forall|
            key: Seq<char>,
        |
            members.contains_key(key) ==> (#[trigger] members[key]).well_formed(),
{
    let object = JsonModel::Object(members);
    assert(object matches JsonModel::Object(inner) && inner == members);
}

/// The mapping that results from writing the entries in order, so that of two
/// entries with one key the later one stays.
pub open spec fn entries_model(entries: Seq<(String, JsonValue)>) -> Map<Seq<char>, JsonModel>
    decreases entries, 0nat,
{
    if entries.len() == 0 {
        Map::empty()
    } else {
        entries_model(entries.drop_last()).insert(
            entries.last().0@,
            value_model(entries.last().1),
        )
    }
}

/// The models of the items, in order. (The sequence is as long as `items`;
/// the second branch only shows that no index beyond it is looked at.)
pub open spec fn items_model(items: Seq<JsonValue>) -> Seq<JsonModel>
    decreases items, 0nat,
{
    Seq::new(
        items.len(),
        |i: int|
            if 0 <= i < items.len() {
                value_model(items[i])
            } else {
                JsonModel::Null
            },
    )
}

/// The model of a value: the same tree, with every collection replaced by
/// its mathematical counterpart.
pub open spec fn value_model(value: JsonValue) -> JsonModel
    decreases value, 1nat,
{
    match value {
        JsonValue::Boolean(b) => JsonModel::Boolean(b),
        JsonValue::String(text) => JsonModel::String(text@),
        JsonValue::Number(number) => JsonModel::Number(number@),
        JsonValue::Array(items) => JsonModel::Array(items_model(items@)),
        JsonValue::Object(object) => JsonModel::Object(entries_model(object.entries())),
        JsonValue::Null => JsonModel::Null,
    }
}

impl View for JsonValue {
    type V = JsonModel;

    open spec fn view(&self) -> JsonModel {
        value_model(*self)
    }
}

impl View for JsonObject {
    type V = Map<Seq<char>, JsonModel>;

    open spec fn view(&self) -> Map<Seq<char>, JsonModel> {
        entries_model(self.entries())
    }
}

/// Whether no key occurs in two entries.
pub open spec fn keys_distinct(entries: Seq<(String, JsonValue)>) -> bool {
    forall|i: int, j: int| 0 <= i < j < entries.len() ==> entries[i].0@ != entries[j].0@
}

/// Whether some entry has the key `key`.
pub open spec fn has_key(entries: Seq<(String, JsonValue)>, key: Seq<char>) -> bool {
    exists|i: int| 0 <= i < entries.len() && #[trigger] entries[i].0@ == key
}

/// The mapping of some entries has their keys, and no others.
pub proof fn lemma_entries_model_keys(entries: Seq<(String, JsonValue)>)
    ensures
        entries_model(entries).dom().finite(),
        forall|key: Seq<char>| #[trigger]
            entries_model(entries).contains_key(key) <==> has_key(entries, key),
    decreases entries.len(),
{
    if entries.len() > 0 {
        let front = entries.drop_last();
        lemma_entries_model_keys(front);
        assert forall|key: Seq<char>| #[trigger]
            entries_model(entries).contains_key(key) <==> has_key(entries, key) by {
            if has_key(entries, key) {
                let i = choose|i: int| 0 <= i < entries.len() && #[trigger] entries[i].0@ == key;
                if i < entries.len() - 1 {
                    assert(front[i].0@ == key);
                }
            }
            if entries_model(entries).contains_key(key) {
                if key == entries.last().0@ {
                    assert(entries[entries.len() - 1].0@ == key);
                } else {
                    let i = choose|i: int| 0 <= i < front.len() && #[trigger] front[i].0@ == key;
                    assert(entries[i].0@ == key);
                }
            }
        }
    }
}

/// Where no key occurs twice, the mapping has as many keys as there are
/// entries, and holds under each entry's key that entry's value.
pub proof fn lemma_entries_model_distinct(entries: Seq<(String, JsonValue)>)
    requires
        keys_distinct(entries),
    ensures
        entries_model(entries).len() == entries.len(),
        forall|i: int|
            0 <= i < entries.len() ==> entries_model(entries)[#[trigger] entries[i].0@]
                == value_model(entries[i].1),
    decreases entries.len(),
{
    if entries.len() > 0 {
        let front = entries.drop_last();
        lemma_entries_model_distinct(front);
        lemma_entries_model_keys(front);
        if has_key(front, entries.last().0@) {
            let i = choose|i: int|
                0 <= i < front.len() && #[trigger] front[i].0@ == entries.last().0@;
            assert(entries[i].0@ == entries[entries.len() - 1].0@);
        }
        assert forall|i: int| 0 <= i < entries.len() implies entries_model(
            entries,
        )[#[trigger] entries[i].0@] == value_model(entries[i].1) by {
            if i < entries.len() - 1 {
                assert(front[i] == entries[i]);
                assert(entries[i].0@ != entries[entries.len() - 1].0@);
            }
        }
    }
}

/// Appending an entry writes its value under its key.
pub proof fn lemma_entries_model_push(entries: Seq<(String, JsonValue)>, entry: (String, JsonValue))
    ensures
        entries_model(entries.push(entry)) == entries_model(entries).insert(
            entry.0@,
            value_model(entry.1),
        ),
{
    assert(entries.push(entry).drop_last() =~= entries);
}

/// Where no key occurs twice, replacing an entry by one with the same key
/// writes the new value under that key.
pub proof fn lemma_entries_model_update(
    entries: Seq<(String, JsonValue)>,
    i: int,
    entry: (String, JsonValue),
)
    requires
        keys_distinct(entries),
        0 <= i < entries.len(),
        entries[i].0@ == entry.0@,
    ensures
        keys_distinct(entries.update(i, entry)),
        entries_model(entries.update(i, entry)) == entries_model(entries).insert(
            entry.0@,
            value_model(entry.1),
        ),
    decreases entries.len(),
{
    let updated = entries.update(i, entry);
    let front = entries.drop_last();
    if i == entries.len() - 1 {
        assert(updated.drop_last() =~= front);
        assert(entries_model(updated) =~= entries_model(entries).insert(
            entry.0@,
            value_model(entry.1),
        ));
    } else {
        lemma_entries_model_update(front, i, entry);
        assert(updated.drop_last() =~= front.update(i, entry));
        assert(updated.last() == entries.last());
        assert(entries[i].0@ != entries[entries.len() - 1].0@);
        assert(entries_model(updated) =~= entries_model(entries).insert(
            entry.0@,
            value_model(entry.1),
        ));
    }
}

impl JsonObject {
    /// The entries that the object holds, one for each key.
    pub closed spec fn entries(self) -> Seq<(String, JsonValue)> {
        self.entries@
    }

    #[verifier::type_invariant]
    spec fn no_key_twice(self) -> bool {
        keys_distinct(self.entries@)
    }

    /// An object without members.
    pub fn new() -> (object: JsonObject)
        ensures
            object@ == Map::<Seq<char>, JsonModel>::empty(),
    {
        JsonObject { entries: Vec::new() }
    }

    /// Writes `value` under `key`. What stood under that key before is gone.
    pub fn insert(&mut self, key: String, value: JsonValue)
        ensures
            final(self)@ == old(self)@.insert(key@, value@),
    {
        proof {
            use_type_invariant(&*self);
        }
        let mut entries: Vec<(String, JsonValue)> = Vec::new();
        core::mem::swap(&mut self.entries, &mut entries);
        let mut i: usize = 0;
        while i < entries.len()
            invariant
                entries@ == old(self).entries@,
                self.entries@.len() == 0,
                keys_distinct(entries@),
                forall|k: int| 0 <= k < i ==> entries@[k].0@ != key@,
            decreases entries.len() - i,
        {
            if entries[i].0 == key {
                proof {
                    lemma_entries_model_update(entries@, i as int, (key, value));
                }
                entries.set(i, (key, value));
                core::mem::swap(&mut self.entries, &mut entries);
                return ;
            }
            i = i + 1;
        }
        proof {
            lemma_entries_model_push(entries@, (key, value));
        }
        entries.push((key, value));
        core::mem::swap(&mut self.entries, &mut entries);
    }

    /// The value under `key`, if the object has that key.
    pub fn get(&self, key: &String) -> (found: Option<&JsonValue>)
        ensures
            match found {
                Some(value) => self@.contains_key(key@) && self@[key@] == value@,
                None => !self@.contains_key(key@),
            },
    {
        proof {
            use_type_invariant(self);
            lemma_entries_model_keys(self.entries@);
            lemma_entries_model_distinct(self.entries@);
        }
        let mut i: usize = 0;
        while i < self.entries.len()
            invariant
                forall|k: int| 0 <= k < i ==> self.entries@[k].0@ != key@,
                forall|k: int|
                    0 <= k < self.entries@.len() ==> self@[#[trigger] self.entries@[k].0@]
                        == value_model(self.entries@[k].1),
                forall|k: Seq<char>| #[trigger]
                    self@.contains_key(k) <==> has_key(self.entries@, k),
            decreases self.entries.len() - i,
        {
            if self.entries[i].0 == *key {
                assert(self.entries@[i as int].0@ == key@);
                return Some(&self.entries[i].1);
            }
            i = i + 1;
        }
        None
    }

    /// The key at `index` in the list of the object's keys.
    pub closed spec fn key_at(self, index: int) -> Seq<char> {
        self.entries@[index].0@
    }

    /// Whether `key_at` lists the keys of the object, each of them once, at
    /// the indices below the number of keys.
    pub open spec fn keys_listed(self) -> bool {
        &&& self@.dom().finite()
        &&& forall|i: int, j: int|
            0 <= i < j < self@.len() ==> self.key_at(i) != self.key_at(j)
        &&& forall|i: int| 0 <= i < self@.len() ==> self@.contains_key(#[trigger] self.key_at(i))
        &&& forall|key: Seq<char>| #[trigger]
            self@.contains_key(key) ==> exists|i: int|
                0 <= i < self@.len() && self.key_at(i) == key
    }

    /// How many keys the object has.
    pub fn len(&self) -> (n: usize)
        ensures
            self.keys_listed(),
            n == self@.len(),
    {
        proof {
            use_type_invariant(self);
            lemma_entries_model_keys(self.entries@);
            lemma_entries_model_distinct(self.entries@);
            assert forall|key: Seq<char>| #[trigger] self@.contains_key(key) implies exists|
                i: int,
            |
                0 <= i < self@.len() && self.key_at(i) == key by {
                let i = choose|i: int|
                    0 <= i < self.entries@.len() && #[trigger] self.entries@[i].0@ == key;
                assert(self.key_at(i) == key);
            }
            assert forall|i: int| 0 <= i < self@.len() implies self@.contains_key(
                #[trigger] self.key_at(i),
            ) by {
                assert(self.entries@[i].0@ == self.key_at(i));
            }
        }
        self.entries.len()
    }

    /// The key and the value of the entry at `index`; `None` from the number
    /// of keys on.
    pub fn entry(&self, index: usize) -> (found: Option<(&String, &JsonValue)>)
        ensures
            self.keys_listed(),
            match found {
                Some((key, value)) => index < self@.len() && key@ == self.key_at(index as int)
                    && self@[key@] == value@,
                None => index >= self@.len(),
            },
    {
        let n = self.len();
        proof {
            use_type_invariant(self);
            lemma_entries_model_distinct(self.entries@);
        }
        if index < n {
            assert(self.entries@[index as int].0@ == self.key_at(index as int));
            Some((&self.entries[index].0, &self.entries[index].1))
        } else {
            None
        }
    }
}

} // verus!
