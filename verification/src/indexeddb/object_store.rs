//! Object stores of the indexed database: records under keys, and indexes
//! that find the records by a property of their values. Values are JSON
//! documents, which the store carries and of which it reads one property
//! at a time.

use vstd::prelude::*;
use crate::indexeddb::{
    bound_view, in_key_range, key_order, key_views, lemma_key_views, IDBError, IDBIndexParameters,
    IDBKey, IDBKeyRange, IDBObjectStoreParameters, KeyView,
};
use crate::text::str_eq;
use serde_json::Value as JsonValue;

verus! {

/// `serde_json::Value`, a JSON document. The store carries it, and reads
/// it through the functions below.
#[verifier::external_type_specification]
#[verifier::external_body]
pub struct ExJsonValue(JsonValue);

/// The member of a JSON document under a name, as `serde_json::Value::get`
/// gives it for a text.
pub uninterp spec fn member_of(value: JsonValue, name: Seq<char>) -> Option<
    JsonValue,
>;

/// The whole number that a JSON document is, as `serde_json::Value::as_i64`
/// gives it.
pub uninterp spec fn integer_of(value: JsonValue) -> Option<i64>;

/// The text that a JSON document is, as `serde_json::Value::as_str` gives
/// it.
pub uninterp spec fn string_of(value: JsonValue) -> Option<Seq<char>>;

/// `serde_json::Value::get` with a text: the member of an object under
/// that name; nothing where the document is no object or has no such
/// member.
#[verifier::external_body]
fn json_member<'a>(value: &'a JsonValue, name: &str) -> (member: Option<
    &'a JsonValue,
>)
    ensures
        match member {
            Some(m) => member_of(*value, name@) == Some(*m),
            None => member_of(*value, name@).is_none(),
        },
{
    value.get(name)
}

/// `serde_json::Value::as_i64`: the number, where the document is a whole
/// number that an `i64` holds.
#[verifier::external_body]
fn json_integer(value: &JsonValue) -> (number: Option<i64>)
    ensures
        number == integer_of(*value),
{
    value.as_i64()
}

/// `serde_json::Value::as_str`: the text, where the document is a text.
#[verifier::external_body]
fn json_string(value: &JsonValue) -> (text: Option<&str>)
    ensures
        match text {
            Some(s) => string_of(*value) == Some(s@),
            None => string_of(*value).is_none(),
        },
{
    value.as_str()
}

/// `serde_json::Value`'s `clone`: the same document once more.
#[verifier::external_body]
pub(crate) fn clone_json(value: &JsonValue) -> (copy: JsonValue)
    ensures
        copy == *value,
{
    value.clone()
}

/// The key that an index with this key path has for a value: the member
/// of the value under the key path, where that is a whole number or a
/// text.
pub open spec fn index_key_of(value: JsonValue, key_path: Seq<char>) -> Option<KeyView> {
    match member_of(value, key_path) {
        Some(member) => match integer_of(member) {
            Some(n) => Some(KeyView::Number(n)),
            None => match string_of(member) {
                Some(s) => Some(KeyView::Text(s)),
                None => None,
            },
        },
        None => None,
    }
}

/// The key that an index with this key path has for a value.
pub fn extract_index_key(value: &JsonValue, key_path: &str) -> (key: Option<IDBKey>)
    ensures
        bound_view(key) == index_key_of(*value, key_path@),
{
    match json_member(value, key_path) {
        Some(member) => match json_integer(member) {
            Some(n) => Some(IDBKey::Number(n)),
            None => match json_string(member) {
                Some(s) => Some(IDBKey::String(String::from_str(s))),
                None => None,
            },
        },
        None => None,
    }
}

/// Whether two keys are the same.
pub fn same_key(a: &IDBKey, b: &IDBKey) -> (same: bool)
    ensures
        same == (a@ == b@),
    decreases *a,
{
    match (a, b) {
        (IDBKey::Number(x), IDBKey::Number(y)) => *x == *y,
        (IDBKey::String(x), IDBKey::String(y)) => str_eq(x.as_str(), y.as_str()),
        (IDBKey::Date(x), IDBKey::Date(y)) => *x == *y,
        (IDBKey::Array(x), IDBKey::Array(y)) => {
            proof {
                lemma_key_views(x@, x@.len() as int);
                lemma_key_views(y@, y@.len() as int);
            }
            if x.len() != y.len() {
                return false;
            }
            let mut i: usize = 0;
            while i < x.len()
                invariant
                    *a == IDBKey::Array(*x),
                    *b == IDBKey::Array(*y),
                    i <= x@.len(),
                    x@.len() == y@.len(),
                    forall|j: int| 0 <= j < i ==> (#[trigger] x@[j])@ == y@[j]@,
                decreases x@.len() - i,
            {
                proof {
                    assert(a->Array_0 == *x);
                    assert(decreases_to!(*a => a->Array_0));
                    assert(decreases_to!(*x => x[i as int]));
                }
                if !same_key(&x[i], &y[i]) {
                    proof {
                        lemma_key_views(x@, x@.len() as int);
                        lemma_key_views(y@, y@.len() as int);
                        let xs = key_views(x@, x@.len() as int);
                        let ys = key_views(y@, y@.len() as int);
                        assert(xs[i as int] != ys[i as int]);
                    }
                    return false;
                }
                i = i + 1;
            }
            proof {
                lemma_key_views(x@, x@.len() as int);
                lemma_key_views(y@, y@.len() as int);
                assert(key_views(x@, x@.len() as int) =~= key_views(y@, y@.len() as int));
            }
            true
        },
        _ => false,
    }
}

/// The first place from `from` on at which an item stands, and the
/// length of the list where it stands at none.
pub open spec fn first_at<T>(items: Seq<T>, item: T, from: int) -> int
    decreases items.len() - from,
{
    if from < 0 || from >= items.len() {
        items.len() as int
    } else if items[from] == item {
        from
    } else {
        first_at(items, item, from + 1)
    }
}

/// The first place of an item lies behind every place that was passed
/// without finding it.
pub proof fn lemma_first_at<T>(items: Seq<T>, item: T, from: int, passed: int)
    requires
        0 <= from <= passed <= items.len(),
        forall|j: int| from <= j < passed ==> items[j] != item,
    ensures
        first_at(items, item, from) == first_at(items, item, passed),
        passed < items.len() && items[passed] == item ==> first_at(items, item, from) == passed,
        passed == items.len() ==> first_at(items, item, from) == items.len(),
    decreases passed - from,
{
    if from < passed {
        lemma_first_at(items, item, from + 1, passed);
    }
}

/// At its first place an item stands, and before it it does not; where
/// it has none, it stands nowhere.
pub proof fn lemma_first_found<T>(items: Seq<T>, item: T, from: int)
    requires
        0 <= from <= items.len(),
    ensures
        from <= first_at(items, item, from) <= items.len(),
        first_at(items, item, from) < items.len() ==> items[first_at(items, item, from)] == item,
        forall|j: int| from <= j < first_at(items, item, from) ==> items[j] != item,
    decreases items.len() - from,
{
    if from < items.len() && items[from] != item {
        lemma_first_found(items, item, from + 1);
    }
}

/// A list without duplicates stays so when an item that it does not hold
/// is put behind it.
pub proof fn lemma_push_distinct<T>(items: Seq<T>, item: T)
    requires
        items.no_duplicates(),
        first_at(items, item, 0) == items.len(),
    ensures
        items.push(item).no_duplicates(),
{
    lemma_first_found(items, item, 0);
    let longer = items.push(item);
    assert forall|a: int, b: int| 0 <= a < longer.len() && 0 <= b < longer.len() && a
        != b implies longer[a] != longer[b] by {
        if a < items.len() && b < items.len() {
            assert(items[a] != items[b]);
        } else if a < items.len() {
            assert(items[a] != item);
        } else {
            assert(items[b] != item);
        }
    }
}

/// A list without duplicates stays so when an item leaves it.
pub proof fn lemma_remove_distinct<T>(items: Seq<T>, at: int)
    requires
        items.no_duplicates(),
        0 <= at < items.len(),
    ensures
        items.remove(at).no_duplicates(),
{
    let rest = items.remove(at);
    assert forall|a: int, b: int| 0 <= a < rest.len() && 0 <= b < rest.len() && a
        != b implies rest[a] != rest[b] by {
        let a2 = if a < at { a } else { a + 1 };
        let b2 = if b < at { b } else { b + 1 };
        assert(rest[a] == items[a2] && rest[b] == items[b2]);
    }
}

/// The keys as mathematical values.
pub open spec fn all_views(keys: Seq<IDBKey>) -> Seq<KeyView> {
    Seq::new(keys.len(), |i: int| keys[i]@)
}

/// The first `k` keys without those that are `key`, in their order.
pub open spec fn keys_without(keys: Seq<KeyView>, key: KeyView, k: int) -> Seq<KeyView>
    decreases k,
{
    if k <= 0 || k > keys.len() {
        Seq::empty()
    } else if keys[k - 1] == key {
        keys_without(keys, key, k - 1)
    } else {
        keys_without(keys, key, k - 1).push(keys[k - 1])
    }
}

/// The index keys of the entries of an index.
pub open spec fn entry_keys(entries: Seq<(KeyView, Seq<KeyView>)>) -> Seq<KeyView> {
    Seq::new(entries.len(), |i: int| entries[i].0)
}

/// The entries of an index after a record was entered: its primary key
/// stands behind those of the index key, which gets an entry at the end
/// where it had none.
pub open spec fn entries_with(
    entries: Seq<(KeyView, Seq<KeyView>)>,
    index_key: KeyView,
    primary: KeyView,
) -> Seq<(KeyView, Seq<KeyView>)> {
    let at = first_at(entry_keys(entries), index_key, 0);
    if at < entries.len() {
        entries.update(at, (index_key, entries[at].1.push(primary)))
    } else {
        entries.push((index_key, seq![primary]))
    }
}

/// The entries of an index after a record left: its primary key stands
/// under no index key any more. Entries that are empty then stay.
pub open spec fn entries_without(entries: Seq<(KeyView, Seq<KeyView>)>, primary: KeyView) -> Seq<
    (KeyView, Seq<KeyView>),
> {
    Seq::new(
        entries.len(),
        |i: int| (entries[i].0, keys_without(entries[i].1, primary, entries[i].1.len() as int)),
    )
}

/// The entries as mathematical values.
pub open spec fn entries_view(entries: Seq<(IDBKey, Vec<IDBKey>)>) -> Seq<(KeyView, Seq<KeyView>)> {
    Seq::new(entries.len(), |i: int| (entries[i].0@, all_views(entries[i].1@)))
}

/// A copy of keys.
fn clone_keys(keys: &Vec<IDBKey>) -> (copy: Vec<IDBKey>)
    ensures
        all_views(copy@) == all_views(keys@),
{
    let mut copy: Vec<IDBKey> = Vec::new();
    let mut i: usize = 0;
    while i < keys.len()
        invariant
            i <= keys@.len(),
            copy@.len() == i,
            forall|j: int| 0 <= j < i ==> (#[trigger] copy@[j])@ == keys@[j]@,
        decreases keys@.len() - i,
    {
        copy.push(keys[i].clone());
        i = i + 1;
    }
    assert(all_views(copy@) =~= all_views(keys@));
    copy
}

/// Index data
#[derive(Debug)]
pub struct IndexData {
    name: String,
    key_path: String,
    unique: bool,
    multi_entry: bool,
    /// For each index key, in the order in which they came, the primary
    /// keys of the records that have it
    entries: Vec<(IDBKey, Vec<IDBKey>)>,
}

/// An index as a mathematical value.
pub struct IndexView {
    pub name: Seq<char>,
    pub key_path: Seq<char>,
    pub unique: bool,
    pub multi_entry: bool,
    pub entries: Seq<(KeyView, Seq<KeyView>)>,
}

impl IndexView {
    /// The index after a record with this primary key and value was
    /// entered: it stands under the index key that the value has, if it
    /// has one.
    pub open spec fn with(self, primary: KeyView, value: JsonValue) -> IndexView {
        match index_key_of(value, self.key_path) {
            Some(index_key) => IndexView {
                entries: entries_with(self.entries, index_key, primary),
                ..self
            },
            None => self,
        }
    }

    /// The index after the record with this primary key left.
    pub open spec fn without(self, primary: KeyView) -> IndexView {
        IndexView { entries: entries_without(self.entries, primary), ..self }
    }

    /// The index without entries.
    pub open spec fn cleared(self) -> IndexView {
        IndexView { entries: Seq::empty(), ..self }
    }

    /// The primary keys that stand under an index key.
    pub open spec fn primary_keys(self, index_key: KeyView) -> Seq<KeyView> {
        let at = first_at(entry_keys(self.entries), index_key, 0);
        if at < self.entries.len() {
            self.entries[at].1
        } else {
            Seq::empty()
        }
    }
}

impl View for IndexData {
    type V = IndexView;

    closed spec fn view(&self) -> IndexView {
        IndexView {
            name: self.name@,
            key_path: self.key_path@,
            unique: self.unique,
            multi_entry: self.multi_entry,
            entries: entries_view(self.entries@),
        }
    }
}

impl Clone for IndexData {
    fn clone(&self) -> (copy: Self)
        ensures
            copy@ == self@,
    {
        let mut entries: Vec<(IDBKey, Vec<IDBKey>)> = Vec::new();
        let mut i: usize = 0;
        while i < self.entries.len()
            invariant
                i <= self.entries@.len(),
                entries@.len() == i,
                forall|j: int|
                    0 <= j < i ==> (#[trigger] entries@[j]).0@ == self.entries@[j].0@ && all_views(
                        entries@[j].1@,
                    ) == all_views(self.entries@[j].1@),
            decreases self.entries@.len() - i,
        {
            entries.push((self.entries[i].0.clone(), clone_keys(&self.entries[i].1)));
            i = i + 1;
        }
        assert(entries_view(entries@) =~= entries_view(self.entries@));
        IndexData {
            name: self.name.clone(),
            key_path: self.key_path.clone(),
            unique: self.unique,
            multi_entry: self.multi_entry,
            entries,
        }
    }
}

impl IndexData {
    /// An index without entries.
    pub fn new(name: String, key_path: String, params: IDBIndexParameters) -> (index: Self)
        ensures
            index@ == (IndexView {
                name: name@,
                key_path: key_path@,
                unique: params.unique,
                multi_entry: params.multi_entry,
                entries: Seq::empty(),
            }),
    {
        let index = IndexData {
            name,
            key_path,
            unique: params.unique,
            multi_entry: params.multi_entry,
            entries: Vec::new(),
        };
        assert(index@.entries =~= Seq::empty());
        index
    }

    /// The name of the index.
    pub fn name(&self) -> (name: &str)
        ensures
            name@ == self@.name,
    {
        self.name.as_str()
    }

    /// The name of the property by which the index finds records.
    pub fn key_path(&self) -> (key_path: &str)
        ensures
            key_path@ == self@.key_path,
    {
        self.key_path.as_str()
    }

    /// Whether an index key may stand for one record only.
    pub fn unique(&self) -> (unique: bool)
        ensures
            unique == self@.unique,
    {
        self.unique
    }

    /// Whether an array is entered element by element.
    pub fn multi_entry(&self) -> (multi_entry: bool)
        ensures
            multi_entry == self@.multi_entry,
    {
        self.multi_entry
    }

    /// The place of the entry of an index key, and the number of entries
    /// where it has none.
    fn position(&self, index_key: &IDBKey) -> (at: usize)
        ensures
            at == first_at(entry_keys(self@.entries), index_key@, 0),
            at <= self.entries@.len(),
    {
        let ghost keys = entry_keys(self@.entries);
        let mut i: usize = 0;
        while i < self.entries.len() && !same_key(&self.entries[i].0, index_key)
            invariant
                i <= self.entries@.len(),
                keys == entry_keys(self@.entries),
                forall|j: int| 0 <= j < i ==> keys[j] != index_key@,
            decreases self.entries@.len() - i,
        {
            i = i + 1;
        }
        proof {
            lemma_first_at(keys, index_key@, 0, i as int);
        }
        i
    }

    /// The primary keys of the records that have an index key, in the
    /// order in which they were entered.
    pub fn primary_keys(&self, index_key: &IDBKey) -> (keys: Vec<IDBKey>)
        ensures
            all_views(keys@) == self@.primary_keys(index_key@),
    {
        let at = self.position(index_key);
        if at < self.entries.len() {
            clone_keys(&self.entries[at].1)
        } else {
            let keys: Vec<IDBKey> = Vec::new();
            assert(all_views(keys@) =~= Seq::<KeyView>::empty());
            keys
        }
    }

    /// Enters a record: its primary key is put under the index key.
    pub fn insert(&mut self, index_key: IDBKey, primary: IDBKey)
        ensures
            final(self)@ == (IndexView {
                entries: entries_with(old(self)@.entries, index_key@, primary@),
                ..old(self)@
            }),
    {
        let at = self.position(&index_key);
        let ghost before = self.entries@;
        if at < self.entries.len() {
            let (held, mut keys) = self.entries.remove(at);
            let ghost keys_before = keys@;
            keys.push(primary);
            assert(all_views(keys@) =~= all_views(keys_before).push(primary@));
            self.entries.insert(at, (held, keys));
            proof {
                lemma_first_found(entry_keys(entries_view(before)), index_key@, 0);
                assert(entry_keys(entries_view(before))[at as int] == index_key@);
                assert(held@ == index_key@);
                assert(self.entries@ =~= before.update(at as int, (held, keys)));
            }
            assert(entries_view(self.entries@) =~= entries_with(
                entries_view(before),
                index_key@,
                primary@,
            ));
        } else {
            let mut keys: Vec<IDBKey> = Vec::new();
            keys.push(primary);
            assert(all_views(keys@) =~= seq![primary@]);
            self.entries.push((index_key, keys));
            assert(entries_view(self.entries@) =~= entries_with(
                entries_view(before),
                index_key@,
                primary@,
            ));
        }
    }

    /// Takes a record out: its primary key stands under no index key any
    /// more.
    pub fn remove(&mut self, primary: &IDBKey)
        ensures
            final(self)@ == old(self)@.without(primary@),
    {
        let ghost before = self.entries@;
        let mut kept: Vec<(IDBKey, Vec<IDBKey>)> = Vec::new();
        let mut i: usize = 0;
        while i < self.entries.len()
            invariant
                i <= self.entries@.len(),
                self.entries@ == before,
                kept@.len() == i,
                forall|j: int|
                    0 <= j < i ==> (#[trigger] kept@[j]).0@ == before[j].0@ && all_views(
                        kept@[j].1@,
                    ) == keys_without(
                        all_views(before[j].1@),
                        primary@,
                        before[j].1@.len() as int,
                    ),
            decreases self.entries@.len() - i,
        {
            let keys = &self.entries[i].1;
            let mut rest: Vec<IDBKey> = Vec::new();
            let mut k: usize = 0;
            while k < keys.len()
                invariant
                    k <= keys@.len(),
                    all_views(rest@) == keys_without(all_views(keys@), primary@, k as int),
                decreases keys@.len() - k,
            {
                let ghost held = all_views(rest@);
                if !same_key(&keys[k], primary) {
                    rest.push(keys[k].clone());
                    assert(all_views(rest@) =~= held.push(keys@[k as int]@));
                }
                k = k + 1;
            }
            kept.push((self.entries[i].0.clone(), rest));
            i = i + 1;
        }
        self.entries = kept;
        assert(entries_view(self.entries@) =~= entries_without(entries_view(before), primary@));
    }

    /// Takes every record out.
    pub fn clear(&mut self)
        ensures
            final(self)@ == old(self)@.cleared(),
    {
        self.entries.clear();
        assert(entries_view(self.entries@) =~= Seq::empty());
    }
}

/// The records as mathematical values.
pub open spec fn record_views(records: Seq<(IDBKey, JsonValue)>) -> Seq<(KeyView, JsonValue)> {
    Seq::new(records.len(), |i: int| (records[i].0@, records[i].1))
}

/// The keys of the records.
pub open spec fn record_keys(records: Seq<(KeyView, JsonValue)>) -> Seq<KeyView> {
    Seq::new(records.len(), |i: int| records[i].0)
}

/// The indexes as mathematical values.
pub open spec fn index_views(indexes: Seq<IndexData>) -> Seq<IndexView> {
    Seq::new(indexes.len(), |i: int| indexes[i]@)
}

/// The names of the indexes.
pub open spec fn names_of(indexes: Seq<IndexView>) -> Seq<Seq<char>> {
    Seq::new(indexes.len(), |i: int| indexes[i].name)
}

/// The indexes after a record was entered in each.
pub open spec fn indexes_with(indexes: Seq<IndexView>, primary: KeyView, value: JsonValue) -> Seq<
    IndexView,
> {
    Seq::new(indexes.len(), |i: int| indexes[i].with(primary, value))
}

/// The indexes after a record left each.
pub open spec fn indexes_without(indexes: Seq<IndexView>, primary: KeyView) -> Seq<IndexView> {
    Seq::new(indexes.len(), |i: int| indexes[i].without(primary))
}

/// The indexes without entries.
pub open spec fn indexes_cleared(indexes: Seq<IndexView>) -> Seq<IndexView> {
    Seq::new(indexes.len(), |i: int| indexes[i].cleared())
}

/// The entries of an index over the first `k` records, entered in their
/// order.
pub open spec fn built_entries(records: Seq<(KeyView, JsonValue)>, key_path: Seq<char>, k: int) -> Seq<
    (KeyView, Seq<KeyView>),
>
    decreases k,
{
    if k <= 0 || k > records.len() {
        Seq::empty()
    } else {
        let before = built_entries(records, key_path, k - 1);
        match index_key_of(records[k - 1].1, key_path) {
            Some(index_key) => entries_with(before, index_key, records[k - 1].0),
            None => before,
        }
    }
}

/// Whether a range, where there is one, holds a key.
pub open spec fn range_holds(range: Option<&IDBKeyRange>, key: KeyView) -> bool {
    match range {
        Some(r) => in_key_range(
            key,
            bound_view(r.lower),
            bound_view(r.upper),
            r.lower_open,
            r.upper_open,
        ),
        None => true,
    }
}

/// Those of the first `k` records whose key the range holds, in their
/// order.
pub open spec fn selected(records: Seq<(KeyView, JsonValue)>, range: Option<&IDBKeyRange>, k: int) -> Seq<
    (KeyView, JsonValue),
>
    decreases k,
{
    if k <= 0 || k > records.len() {
        Seq::empty()
    } else if range_holds(range, records[k - 1].0) {
        selected(records, range, k - 1).push(records[k - 1])
    } else {
        selected(records, range, k - 1)
    }
}

/// The place of a key among records in order, looked for from `from` on:
/// before the first record whose key comes behind it, or at the end.
pub open spec fn place_for(sorted: Seq<(KeyView, JsonValue)>, key: KeyView, from: int) -> int
    decreases sorted.len() - from,
{
    if from < 0 || from >= sorted.len() {
        sorted.len() as int
    } else if key_order(sorted[from].0, key) > 0 {
        from
    } else {
        place_for(sorted, key, from + 1)
    }
}

/// The records in the order of their keys: each is put, in turn, before
/// the first that comes behind it, so that records whose keys have no
/// order stay as they were.
pub open spec fn arranged(records: Seq<(KeyView, JsonValue)>) -> Seq<(KeyView, JsonValue)>
    decreases records.len(),
{
    if records.len() == 0 {
        Seq::empty()
    } else {
        let before = arranged(records.drop_last());
        before.insert(place_for(before, records.last().0, 0), records.last())
    }
}

/// The first `count` items, or all where there are fewer or no count is
/// given.
pub open spec fn limited<T>(items: Seq<T>, count: Option<usize>) -> Seq<T> {
    match count {
        Some(n) => if n < items.len() {
            items.subrange(0, n as int)
        } else {
            items
        },
        None => items,
    }
}

/// The place of a key lies behind every place that was passed without
/// finding a record that comes behind it.
pub proof fn lemma_place_for(sorted: Seq<(KeyView, JsonValue)>, key: KeyView, from: int, passed: int)
    requires
        0 <= from <= passed <= sorted.len(),
        forall|j: int| from <= j < passed ==> key_order(sorted[j].0, key) <= 0,
    ensures
        place_for(sorted, key, from) == place_for(sorted, key, passed),
        passed <= place_for(sorted, key, passed) <= sorted.len(),
        passed < sorted.len() && key_order(sorted[passed].0, key) > 0 ==> place_for(
            sorted,
            key,
            from,
        ) == passed,
        passed == sorted.len() ==> place_for(sorted, key, from) == sorted.len(),
    decreases sorted.len() - from,
{
    if from < passed {
        lemma_place_for(sorted, key, from + 1, passed);
    } else if passed < sorted.len() && key_order(sorted[passed].0, key) <= 0 {
        lemma_place_for(sorted, key, passed + 1, passed + 1);
    }
}

/// Arranging records keeps their number.
pub proof fn lemma_arranged_len(records: Seq<(KeyView, JsonValue)>)
    ensures
        arranged(records).len() == records.len(),
    decreases records.len(),
{
    if records.len() > 0 {
        lemma_arranged_len(records.drop_last());
        lemma_place_for(arranged(records.drop_last()), records.last().0, 0, 0);
    }
}

/// Object store
#[derive(Debug)]
pub struct IDBObjectStore {
    name: String,
    key_path: Option<String>,
    auto_increment: bool,
    auto_increment_counter: i64,
    /// The records, each under its primary key, in the order in which
    /// the keys came
    records: Vec<(IDBKey, JsonValue)>,
    /// The indexes, in the order in which they were created
    indexes: Vec<IndexData>,
}

/// An object store as a mathematical value.
pub struct StoreView {
    pub name: Seq<char>,
    pub key_path: Option<Seq<char>>,
    pub auto_increment: bool,
    pub counter: i64,
    pub records: Seq<(KeyView, JsonValue)>,
    pub indexes: Seq<IndexView>,
}

impl StoreView {
    /// Whether the store has a record under a key.
    pub open spec fn has_key(self, key: KeyView) -> bool {
        first_at(record_keys(self.records), key, 0) < self.records.len()
    }

    /// The place of the record under a key.
    pub open spec fn key_index(self, key: KeyView) -> int {
        first_at(record_keys(self.records), key, 0)
    }

    /// Whether the store has an index of this name.
    pub open spec fn has_index(self, name: Seq<char>) -> bool {
        first_at(names_of(self.indexes), name, 0) < self.indexes.len()
    }

    /// The place of the index of this name.
    pub open spec fn index_at(self, name: Seq<char>) -> int {
        first_at(names_of(self.indexes), name, 0)
    }

    /// The key under which a value is kept: the given one, or the next
    /// number where none is given and the store counts; none else.
    pub open spec fn resolved(self, key: Option<KeyView>) -> Option<KeyView> {
        match key {
            Some(k) => Some(k),
            None => if self.auto_increment {
                Some(KeyView::Number((self.counter + 1) as i64))
            } else {
                None
            },
        }
    }

    /// The store after a key was resolved: where the store made the key,
    /// it has counted on.
    pub open spec fn counted(self, key: Option<KeyView>) -> StoreView {
        if key.is_none() && self.auto_increment {
            StoreView { counter: (self.counter + 1) as i64, ..self }
        } else {
            self
        }
    }

    /// The store with one more record, entered in every index.
    pub open spec fn with_record(self, key: KeyView, value: JsonValue) -> StoreView {
        StoreView {
            records: self.records.push((key, value)),
            indexes: indexes_with(self.indexes, key, value),
            ..self
        }
    }

    /// The store with another value under a key that it has: the record
    /// leaves every index and is entered again.
    pub open spec fn with_value(self, key: KeyView, value: JsonValue) -> StoreView {
        StoreView {
            records: self.records.update(self.key_index(key), (key, value)),
            indexes: indexes_with(indexes_without(self.indexes, key), key, value),
            ..self
        }
    }

    /// The store after `add`: where a key is resolved and the store has
    /// no record under it, the record is added.
    pub open spec fn after_add(self, key: Option<KeyView>, value: JsonValue) -> StoreView {
        let counted = self.counted(key);
        match self.resolved(key) {
            Some(k) => if self.has_key(k) {
                counted
            } else {
                counted.with_record(k, value)
            },
            None => counted,
        }
    }

    /// The store after `put`: where a key is resolved, the value stands
    /// under it, in place of what was there.
    pub open spec fn after_put(self, key: Option<KeyView>, value: JsonValue) -> StoreView {
        let counted = self.counted(key);
        match self.resolved(key) {
            Some(k) => if self.has_key(k) {
                counted.with_value(k, value)
            } else {
                counted.with_record(k, value)
            },
            None => counted,
        }
    }

    /// The store without the record under a key.
    pub open spec fn after_delete(self, key: KeyView) -> StoreView {
        if self.has_key(key) {
            StoreView {
                records: self.records.remove(self.key_index(key)),
                indexes: indexes_without(self.indexes, key),
                ..self
            }
        } else {
            self
        }
    }

    /// The store with one more index, built from the records. Nothing
    /// changes where the store has an index of that name.
    pub open spec fn after_create_index(
        self,
        name: Seq<char>,
        key_path: Seq<char>,
        params: IDBIndexParameters,
    ) -> StoreView {
        if self.has_index(name) {
            self
        } else {
            StoreView {
                indexes: self.indexes.push(
                    IndexView {
                        name,
                        key_path,
                        unique: params.unique,
                        multi_entry: params.multi_entry,
                        entries: built_entries(self.records, key_path, self.records.len() as int),
                    },
                ),
                ..self
            }
        }
    }

    /// The store without the index of a name.
    pub open spec fn after_delete_index(self, name: Seq<char>) -> StoreView {
        if self.has_index(name) {
            StoreView { indexes: self.indexes.remove(self.index_at(name)), ..self }
        } else {
            self
        }
    }

    /// The records whose key a range holds, in the order of their keys,
    /// and of those the first `count`.
    pub open spec fn all(self, range: Option<&IDBKeyRange>, count: Option<usize>) -> Seq<
        (KeyView, JsonValue),
    > {
        limited(arranged(selected(self.records, range, self.records.len() as int)), count)
    }
}

/// Whether an error is a data error with this message.
pub open spec fn is_data_error(e: IDBError, text: Seq<char>) -> bool {
    e matches IDBError::DataError(msg) && msg@ == text
}

/// Whether an error is a constraint error with this message.
pub open spec fn is_constraint_error(e: IDBError, text: Seq<char>) -> bool {
    e matches IDBError::ConstraintError(msg) && msg@ == text
}

/// Whether an error is a not-found error with this message.
pub open spec fn is_not_found_error(e: IDBError, text: Seq<char>) -> bool {
    e matches IDBError::NotFoundError(msg) && msg@ == text
}

/// What an optional text holds.
pub open spec fn path_view(text: Option<String>) -> Option<Seq<char>> {
    match text {
        Some(s) => Some(s@),
        None => None,
    }
}

impl View for IDBObjectStore {
    type V = StoreView;

    closed spec fn view(&self) -> StoreView {
        StoreView {
            name: self.name@,
            key_path: path_view(self.key_path),
            auto_increment: self.auto_increment,
            counter: self.auto_increment_counter,
            records: record_views(self.records@),
            indexes: index_views(self.indexes@),
        }
    }
}

impl Clone for IDBObjectStore {
    fn clone(&self) -> (copy: Self)
        ensures
            copy@ == self@,
    {
        let mut records: Vec<(IDBKey, JsonValue)> = Vec::new();
        let mut i: usize = 0;
        while i < self.records.len()
            invariant
                i <= self.records@.len(),
                records@.len() == i,
                forall|j: int|
                    0 <= j < i ==> (#[trigger] records@[j]).0@ == self.records@[j].0@
                        && records@[j].1 == self.records@[j].1,
            decreases self.records@.len() - i,
        {
            records.push((self.records[i].0.clone(), clone_json(&self.records[i].1)));
            i = i + 1;
        }
        let mut indexes: Vec<IndexData> = Vec::new();
        let mut i: usize = 0;
        while i < self.indexes.len()
            invariant
                i <= self.indexes@.len(),
                indexes@.len() == i,
                forall|j: int| 0 <= j < i ==> (#[trigger] indexes@[j])@ == self.indexes@[j]@,
            decreases self.indexes@.len() - i,
        {
            indexes.push(self.indexes[i].clone());
            i = i + 1;
        }
        let key_path = match &self.key_path {
            Some(path) => Some(path.clone()),
            None => None,
        };
        assert(record_views(records@) =~= record_views(self.records@));
        assert(index_views(indexes@) =~= index_views(self.indexes@));
        IDBObjectStore {
            name: self.name.clone(),
            key_path,
            auto_increment: self.auto_increment,
            auto_increment_counter: self.auto_increment_counter,
            records,
            indexes,
        }
    }
}

impl IDBObjectStore {
    /// Whether the store is in order: no two records have the same key,
    /// and no two indexes the same name.
    pub open spec fn wf(&self) -> bool {
        record_keys(self@.records).no_duplicates() && names_of(self@.indexes).no_duplicates()
    }

    /// A store without records and indexes.
    pub fn new(name: String, params: IDBObjectStoreParameters) -> (store: Self)
        ensures
            store.wf(),
            store@ == (StoreView {
                name: name@,
                key_path: path_view(params.key_path),
                auto_increment: params.auto_increment,
                counter: 0,
                records: Seq::empty(),
                indexes: Seq::empty(),
            }),
    {
        let store = IDBObjectStore {
            name,
            key_path: params.key_path,
            auto_increment: params.auto_increment,
            auto_increment_counter: 0,
            records: Vec::new(),
            indexes: Vec::new(),
        };
        assert(store@.records =~= Seq::empty());
        assert(store@.indexes =~= Seq::empty());
        store
    }

    /// The name of the store.
    pub fn name(&self) -> (name: &str)
        ensures
            name@ == self@.name,
    {
        self.name.as_str()
    }

    /// The name of the property that holds the key, where the store has
    /// one.
    pub fn key_path(&self) -> (key_path: Option<&str>)
        ensures
            match key_path {
                Some(path) => self@.key_path == Some(path@),
                None => self@.key_path.is_none(),
            },
    {
        match &self.key_path {
            Some(path) => Some(path.as_str()),
            None => None,
        }
    }

    /// Whether the store makes keys by counting.
    pub fn auto_increment(&self) -> (counts: bool)
        ensures
            counts == self@.auto_increment,
    {
        self.auto_increment
    }

    /// Whether the store can make one more key by counting.
    pub fn can_count_on(&self) -> (can: bool)
        ensures
            can == (self@.counter < i64::MAX),
    {
        self.auto_increment_counter < i64::MAX
    }

    /// The names of the indexes, in the order in which they were created.
    pub fn index_names(&self) -> (names: Vec<String>)
        ensures
            crate::text::views(names@) == names_of(self@.indexes),
    {
        let mut names: Vec<String> = Vec::new();
        let mut i: usize = 0;
        while i < self.indexes.len()
            invariant
                i <= self.indexes@.len(),
                names@.len() == i,
                forall|j: int| 0 <= j < i ==> (#[trigger] names@[j])@ == self.indexes@[j]@.name,
            decreases self.indexes@.len() - i,
        {
            names.push(String::from_str(self.indexes[i].name()));
            i = i + 1;
        }
        assert(crate::text::views(names@) =~= names_of(self@.indexes));
        names
    }

    /// The place of the record under a key, and the number of records
    /// where there is none.
    fn position(&self, key: &IDBKey) -> (at: usize)
        ensures
            at == self@.key_index(key@),
            at <= self.records@.len(),
            at < self.records@.len() ==> self.records@[at as int].0@ == key@,
    {
        let ghost keys = record_keys(self@.records);
        let mut i: usize = 0;
        while i < self.records.len() && !same_key(&self.records[i].0, key)
            invariant
                i <= self.records@.len(),
                keys == record_keys(self@.records),
                forall|j: int| 0 <= j < i ==> keys[j] != key@,
            decreases self.records@.len() - i,
        {
            i = i + 1;
        }
        proof {
            lemma_first_at(keys, key@, 0, i as int);
            if i < self.records@.len() {
                assert(keys[i as int] == key@);
            }
        }
        i
    }

    /// The place of the index of a name, and the number of indexes where
    /// there is none.
    fn index_position(&self, name: &str) -> (at: usize)
        ensures
            at == self@.index_at(name@),
            at <= self.indexes@.len(),
    {
        let ghost names = names_of(self@.indexes);
        let mut i: usize = 0;
        while i < self.indexes.len() && !str_eq(self.indexes[i].name(), name)
            invariant
                i <= self.indexes@.len(),
                names == names_of(self@.indexes),
                forall|j: int| 0 <= j < i ==> names[j] != name@,
            decreases self.indexes@.len() - i,
        {
            i = i + 1;
        }
        proof {
            lemma_first_at(names, name@, 0, i as int);
        }
        i
    }

    /// The key under which a value is kept: the given one, or the next
    /// number where none is given and the store counts.
    fn resolve_key(&mut self, key: Option<IDBKey>) -> (resolved: Result<IDBKey, IDBError>)
        requires
            key.is_none() && old(self)@.auto_increment ==> old(self)@.counter < i64::MAX,
        ensures
            final(self)@ == old(self)@.counted(bound_view(key)),
            final(self).records == old(self).records,
            final(self).indexes == old(self).indexes,
            match resolved {
                Ok(k) => old(self)@.resolved(bound_view(key)) == Some(k@),
                Err(e) => old(self)@.resolved(bound_view(key)).is_none() && is_data_error(e, if old(self)@.key_path.is_some() { "Key path not implemented"@ } else { "No key provided"@ }),
            },
    {
        match key {
            Some(k) => Ok(k),
            None => {
                if self.auto_increment {
                    self.auto_increment_counter = self.auto_increment_counter + 1;
                    Ok(IDBKey::Number(self.auto_increment_counter))
                } else if self.key_path.is_some() {
                    Err(IDBError::DataError(String::from_str("Key path not implemented")))
                } else {
                    Err(IDBError::DataError(String::from_str("No key provided")))
                }
            },
        }
    }

    /// Enters a record in every index.
    fn update_indexes(&mut self, key: &IDBKey, value: &JsonValue)
        ensures
            final(self)@ == (StoreView {
                indexes: indexes_with(old(self)@.indexes, key@, *value),
                ..old(self)@
            }),
            final(self).records == old(self).records,
    {
        let mut i: usize = 0;
        while i < self.indexes.len()
            invariant
                i <= self.indexes@.len(),
                self.indexes@.len() == old(self).indexes@.len(),
                self.name == old(self).name,
                self.key_path == old(self).key_path,
                self.auto_increment == old(self).auto_increment,
                self.auto_increment_counter == old(self).auto_increment_counter,
                self.records == old(self).records,
                forall|j: int|
                    0 <= j < self.indexes@.len() ==> (#[trigger] self.indexes@[j])@ == if j < i {
                        old(self).indexes@[j]@.with(key@, *value)
                    } else {
                        old(self).indexes@[j]@
                    },
            decreases self.indexes@.len() - i,
        {
            match extract_index_key(value, self.indexes[i].key_path()) {
                Some(index_key) => {
                    self.indexes[i].insert(index_key, key.clone());
                },
                None => {},
            }
            i = i + 1;
        }
        assert(self@.indexes =~= indexes_with(old(self)@.indexes, key@, *value));
    }

    /// Takes a record out of every index.
    fn remove_from_indexes(&mut self, key: &IDBKey)
        ensures
            final(self)@ == (StoreView {
                indexes: indexes_without(old(self)@.indexes, key@),
                ..old(self)@
            }),
            final(self).records == old(self).records,
    {
        let mut i: usize = 0;
        while i < self.indexes.len()
            invariant
                i <= self.indexes@.len(),
                self.indexes@.len() == old(self).indexes@.len(),
                self.name == old(self).name,
                self.key_path == old(self).key_path,
                self.auto_increment == old(self).auto_increment,
                self.auto_increment_counter == old(self).auto_increment_counter,
                self.records == old(self).records,
                forall|j: int|
                    0 <= j < self.indexes@.len() ==> (#[trigger] self.indexes@[j])@ == if j < i {
                        old(self).indexes@[j]@.without(key@)
                    } else {
                        old(self).indexes@[j]@
                    },
            decreases self.indexes@.len() - i,
        {
            self.indexes[i].remove(key);
            i = i + 1;
        }
        assert(self@.indexes =~= indexes_without(old(self)@.indexes, key@));
    }

    /// Adds a record under a key that the store does not have yet. The
    /// key is the given one, or the next number where none is given and
    /// the store counts.
    pub fn add(&mut self, value: JsonValue, key: Option<IDBKey>) -> (added: Result<IDBKey, IDBError>)
        requires
            old(self).wf(),
            key.is_none() && old(self)@.auto_increment ==> old(self)@.counter < i64::MAX,
        ensures
            final(self).wf(),
            final(self)@ == old(self)@.after_add(bound_view(key), value),
            match added {
                Ok(k) => old(self)@.resolved(bound_view(key)) == Some(k@) && !old(self)@.has_key(k@),
                Err(e) => match old(self)@.resolved(bound_view(key)) {
                    Some(k) => old(self)@.has_key(k) && is_constraint_error(e, "Key already exists"@),
                    None => is_data_error(e, if old(self)@.key_path.is_some() { "Key path not implemented"@ } else { "No key provided"@ }),
                },
            },
    {
        let final_key = match self.resolve_key(key) {
            Ok(k) => k,
            Err(e) => {
                return Err(e);
            },
        };
        if self.position(&final_key) < self.records.len() {
            return Err(IDBError::ConstraintError(String::from_str("Key already exists")));
        }
        let ghost before = self@.records;
        proof {
            lemma_first_found(record_keys(before), final_key@, 0);
        }
        self.records.push((final_key.clone(), clone_json(&value)));
        assert(self@.records =~= before.push((final_key@, value)));
        assert(record_keys(self@.records) =~= record_keys(before).push(final_key@));
        proof {
            lemma_push_distinct(record_keys(before), final_key@);
        }
        self.update_indexes(&final_key, &value);
        assert(names_of(self@.indexes) =~= names_of(old(self)@.indexes));
        Ok(final_key)
    }

    /// Puts a value under a key, in place of what the store had there.
    /// The key is the given one, or the next number where none is given
    /// and the store counts.
    pub fn put(&mut self, value: JsonValue, key: Option<IDBKey>) -> (kept: Result<IDBKey, IDBError>)
        requires
            old(self).wf(),
            key.is_none() && old(self)@.auto_increment ==> old(self)@.counter < i64::MAX,
        ensures
            final(self).wf(),
            final(self)@ == old(self)@.after_put(bound_view(key), value),
            match kept {
                Ok(k) => old(self)@.resolved(bound_view(key)) == Some(k@),
                Err(e) => old(self)@.resolved(bound_view(key)).is_none() && is_data_error(e, if old(self)@.key_path.is_some() { "Key path not implemented"@ } else { "No key provided"@ }),
            },
    {
        let final_key = match self.resolve_key(key) {
            Ok(k) => k,
            Err(e) => {
                return Err(e);
            },
        };
        let at = self.position(&final_key);
        let ghost before = self@.records;
        proof {
            lemma_first_found(record_keys(before), final_key@, 0);
        }
        if at < self.records.len() {
            self.remove_from_indexes(&final_key);
            self.records.set(at, (final_key.clone(), clone_json(&value)));
            assert(self@.records =~= before.update(at as int, (final_key@, value)));
            assert(record_keys(self@.records) =~= record_keys(before));
        } else {
            self.records.push((final_key.clone(), clone_json(&value)));
            assert(self@.records =~= before.push((final_key@, value)));
            assert(record_keys(self@.records) =~= record_keys(before).push(final_key@));
            proof {
                lemma_push_distinct(record_keys(before), final_key@);
            }
        }
        self.update_indexes(&final_key, &value);
        assert(names_of(self@.indexes) =~= names_of(old(self)@.indexes));
        Ok(final_key)
    }

    /// The value under a key.
    pub fn get(&self, key: &IDBKey) -> (value: Option<&JsonValue>)
        ensures
            match value {
                Some(v) => self@.has_key(key@) && *v == self@.records[self@.key_index(key@)].1,
                None => !self@.has_key(key@),
            },
    {
        let at = self.position(key);
        if at < self.records.len() {
            Some(&self.records[at].1)
        } else {
            None
        }
    }

    /// Takes out the record under a key; an error where there is none.
    pub fn delete(&mut self, key: &IDBKey) -> (done: Result<(), IDBError>)
        requires
            old(self).wf(),
        ensures
            final(self).wf(),
            final(self)@ == old(self)@.after_delete(key@),
            match done {
                Ok(_) => old(self)@.has_key(key@),
                Err(e) => !old(self)@.has_key(key@) && is_not_found_error(e, "Key not found"@),
            },
    {
        let at = self.position(key);
        if at < self.records.len() {
            let ghost before = self@.records;
            self.records.remove(at);
            assert(self@.records =~= before.remove(at as int));
            assert(record_keys(self@.records) =~= record_keys(before).remove(at as int));
            proof {
                lemma_remove_distinct(record_keys(before), at as int);
            }
            self.remove_from_indexes(key);
            assert(names_of(self@.indexes) =~= names_of(old(self)@.indexes));
            Ok(())
        } else {
            Err(IDBError::NotFoundError(String::from_str("Key not found")))
        }
    }

    /// Takes out every record; the indexes stay, without entries.
    pub fn clear(&mut self) -> (done: Result<(), IDBError>)
        requires
            old(self).wf(),
        ensures
            final(self).wf(),
            done.is_ok(),
            final(self)@ == (StoreView {
                records: Seq::empty(),
                indexes: indexes_cleared(old(self)@.indexes),
                ..old(self)@
            }),
    {
        self.records.clear();
        let mut i: usize = 0;
        while i < self.indexes.len()
            invariant
                i <= self.indexes@.len(),
                self.indexes@.len() == old(self).indexes@.len(),
                self.name == old(self).name,
                self.key_path == old(self).key_path,
                self.auto_increment == old(self).auto_increment,
                self.auto_increment_counter == old(self).auto_increment_counter,
                self.records@.len() == 0,
                forall|j: int|
                    0 <= j < self.indexes@.len() ==> (#[trigger] self.indexes@[j])@ == if j < i {
                        old(self).indexes@[j]@.cleared()
                    } else {
                        old(self).indexes@[j]@
                    },
            decreases self.indexes@.len() - i,
        {
            self.indexes[i].clear();
            i = i + 1;
        }
        assert(self@.records =~= Seq::empty());
        assert(self@.indexes =~= indexes_cleared(old(self)@.indexes));
        assert(names_of(self@.indexes) =~= names_of(old(self)@.indexes));
        Ok(())
    }

    /// The number of records.
    pub fn count(&self) -> (count: usize)
        ensures
            count == self@.records.len(),
    {
        self.records.len()
    }

    /// The records whose key a range holds (all where none is given), in
    /// the order of their keys, and of those the first `count` (all where
    /// none is given).
    pub fn get_all(&self, range: Option<&IDBKeyRange>, count: Option<usize>) -> (records: Vec<
        (IDBKey, JsonValue),
    >)
        ensures
            record_views(records@) == self@.all(range, count),
    {
        let ghost all = self@.records;
        let mut results: Vec<(IDBKey, JsonValue)> = Vec::new();
        let mut i: usize = 0;
        assert(record_views(results@) =~= arranged(selected(all, range, 0)));
        while i < self.records.len()
            invariant
                i <= self.records@.len(),
                all == self@.records,
                all.len() == self.records@.len(),
                record_views(results@) == arranged(selected(all, range, i as int)),
            decreases self.records@.len() - i,
        {
            let held = match range {
                Some(r) => r.includes(&self.records[i].0),
                None => true,
            };
            if held {
                let key = self.records[i].0.clone();
                let ghost sorted = record_views(results@);
                let mut j: usize = 0;
                while j < results.len() && results[j].0.order(&key) <= 0
                    invariant
                        j <= results@.len(),
                        sorted == record_views(results@),
                        forall|t: int| 0 <= t < j ==> key_order(sorted[t].0, key@) <= 0,
                    decreases results@.len() - j,
                {
                    j = j + 1;
                }
                proof {
                    lemma_place_for(sorted, key@, 0, j as int);
                    assert(selected(all, range, i as int + 1).drop_last() =~= selected(
                        all,
                        range,
                        i as int,
                    ));
                }
                results.insert(j, (key, clone_json(&self.records[i].1)));
                assert(record_views(results@) =~= sorted.insert(j as int, all[i as int]));
            }
            i = i + 1;
        }
        match count {
            Some(max_count) => {
                let ghost whole = record_views(results@);
                results.truncate(max_count);
                assert(record_views(results@) =~= limited(whole, count));
            },
            None => {},
        }
        results
    }

    /// The keys that a range holds (all where none is given), in their
    /// order, and of those the first `count` (all where none is given).
    pub fn get_all_keys(&self, range: Option<&IDBKeyRange>, count: Option<usize>) -> (keys: Vec<
        IDBKey,
    >)
        ensures
            all_views(keys@) == record_keys(self@.all(range, count)),
    {
        let records = self.get_all(range, count);
        let mut keys: Vec<IDBKey> = Vec::new();
        let mut i: usize = 0;
        while i < records.len()
            invariant
                i <= records@.len(),
                keys@.len() == i,
                forall|j: int| 0 <= j < i ==> (#[trigger] keys@[j])@ == records@[j].0@,
            decreases records@.len() - i,
        {
            keys.push(records[i].0.clone());
            i = i + 1;
        }
        assert(all_views(keys@) =~= record_keys(record_views(records@)));
        keys
    }

    /// Creates an index over a property of the values, and enters the
    /// records that the store has. An error where the store has an index
    /// of that name.
    pub fn create_index(&mut self, name: String, key_path: String, params: IDBIndexParameters) -> (done:
        Result<(), IDBError>)
        requires
            old(self).wf(),
        ensures
            final(self).wf(),
            final(self)@ == old(self)@.after_create_index(name@, key_path@, params),
            match done {
                Ok(_) => !old(self)@.has_index(name@),
                Err(e) => old(self)@.has_index(name@) && is_constraint_error(e, "Index already exists"@),
            },
    {
        if self.index_position(name.as_str()) < self.indexes.len() {
            return Err(IDBError::ConstraintError(String::from_str("Index already exists")));
        }
        let ghost all = self@.records;
        let mut index = IndexData::new(name, key_path, params);
        let mut i: usize = 0;
        while i < self.records.len()
            invariant
                i <= self.records@.len(),
                *self == *old(self),
                all == self@.records,
                all.len() == self.records@.len(),
                index@ == (IndexView {
                    name: name@,
                    key_path: key_path@,
                    unique: params.unique,
                    multi_entry: params.multi_entry,
                    entries: built_entries(all, key_path@, i as int),
                }),
            decreases self.records@.len() - i,
        {
            match extract_index_key(&self.records[i].1, index.key_path()) {
                Some(index_key) => {
                    index.insert(index_key, self.records[i].0.clone());
                },
                None => {},
            }
            i = i + 1;
        }
        let ghost before = self@.indexes;
        proof {
            lemma_first_found(names_of(before), name@, 0);
        }
        self.indexes.push(index);
        assert(self@.indexes =~= before.push(index@));
        assert(names_of(self@.indexes) =~= names_of(before).push(name@));
        proof {
            lemma_push_distinct(names_of(before), name@);
        }
        assert(self@.records =~= all);
        Ok(())
    }

    /// Takes out the index of a name; an error where there is none.
    pub fn delete_index(&mut self, name: &str) -> (done: Result<(), IDBError>)
        requires
            old(self).wf(),
        ensures
            final(self).wf(),
            final(self)@ == old(self)@.after_delete_index(name@),
            match done {
                Ok(_) => old(self)@.has_index(name@),
                Err(e) => !old(self)@.has_index(name@) && is_not_found_error(e, "Index not found"@),
            },
    {
        let at = self.index_position(name);
        if at < self.indexes.len() {
            let ghost before = self@.indexes;
            let ghost records = self@.records;
            self.indexes.remove(at);
            assert(self@.indexes =~= before.remove(at as int));
            assert(self@.records =~= records);
            assert(names_of(self@.indexes) =~= names_of(before).remove(at as int));
            proof {
                lemma_remove_distinct(names_of(before), at as int);
            }
            Ok(())
        } else {
            Err(IDBError::NotFoundError(String::from_str("Index not found")))
        }
    }

    /// The index of a name; an error where there is none.
    pub fn index(&self, name: &str) -> (found: Result<&IndexData, IDBError>)
        ensures
            match found {
                Ok(index) => self@.has_index(name@) && index@ == self@.indexes[self@.index_at(name@)],
                Err(e) => !self@.has_index(name@) && is_not_found_error(e, "Index not found"@),
            },
    {
        let at = self.index_position(name);
        if at < self.indexes.len() {
            Ok(&self.indexes[at])
        } else {
            Err(IDBError::NotFoundError(String::from_str("Index not found")))
        }
    }
}

} // verus!
