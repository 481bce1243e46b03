//! Keys, key ranges, cursors and transactions of the indexed database.

use vstd::prelude::*;
use crate::text::{compare_text, lemma_order_from, text_order};
use vstd::seq_lib::{to_multiset_contains, to_multiset_insert, to_multiset_remove};

pub mod comparison;
pub mod database;
pub mod object_store;

verus! {

/// IndexedDB error types
#[derive(Debug, Clone, PartialEq)]
pub enum IDBError {
    NotFoundError(String),
    InvalidStateError(String),
    ConstraintError(String),
    VersionError(String),
    DataError(String),
    TransactionInactiveError,
    ReadOnlyError,
    AbortError,
    UnknownError(String),
}

impl IDBError {
    /// The text of the error: its name, and behind a colon its message
    /// where it has one.
    pub fn to_string(&self) -> (text: String)
        ensures
            text@ == match *self {
                IDBError::NotFoundError(msg) => "NotFoundError: "@ + msg@,
                IDBError::InvalidStateError(msg) => "InvalidStateError: "@ + msg@,
                IDBError::ConstraintError(msg) => "ConstraintError: "@ + msg@,
                IDBError::VersionError(msg) => "VersionError: "@ + msg@,
                IDBError::DataError(msg) => "DataError: "@ + msg@,
                IDBError::TransactionInactiveError => "TransactionInactiveError"@,
                IDBError::ReadOnlyError => "ReadOnlyError"@,
                IDBError::AbortError => "AbortError"@,
                IDBError::UnknownError(msg) => "UnknownError: "@ + msg@,
            },
    {
        match self {
            IDBError::NotFoundError(msg) => String::from_str("NotFoundError: ").concat(
                msg.as_str(),
            ),
            IDBError::InvalidStateError(msg) => String::from_str("InvalidStateError: ").concat(
                msg.as_str(),
            ),
            IDBError::ConstraintError(msg) => String::from_str("ConstraintError: ").concat(
                msg.as_str(),
            ),
            IDBError::VersionError(msg) => String::from_str("VersionError: ").concat(msg.as_str()),
            IDBError::DataError(msg) => String::from_str("DataError: ").concat(msg.as_str()),
            IDBError::TransactionInactiveError => String::from_str("TransactionInactiveError"),
            IDBError::ReadOnlyError => String::from_str("ReadOnlyError"),
            IDBError::AbortError => String::from_str("AbortError"),
            IDBError::UnknownError(msg) => String::from_str("UnknownError: ").concat(msg.as_str()),
        }
    }
}

/// IndexedDB key
#[derive(Debug, PartialEq, Eq, Hash)]
pub enum IDBKey {
    Number(i64),
    String(String),
    /// Unix timestamp
    Date(i64),
    Array(Vec<IDBKey>),
}

/// A key as a mathematical value.
pub enum KeyView {
    Number(i64),
    Text(Seq<char>),
    Date(i64),
    Array(Seq<KeyView>),
}

/// The key as a mathematical value.
pub open spec fn key_view(key: IDBKey) -> KeyView
    decreases key, 0nat,
{
    match key {
        IDBKey::Number(n) => KeyView::Number(n),
        IDBKey::String(s) => KeyView::Text(s@),
        IDBKey::Date(d) => KeyView::Date(d),
        IDBKey::Array(keys) => KeyView::Array(key_views(keys@, keys@.len() as int)),
    }
}

/// The first `k` keys as mathematical values.
pub open spec fn key_views(keys: Seq<IDBKey>, k: int) -> Seq<KeyView>
    decreases keys, k,
{
    if k <= 0 || k > keys.len() {
        Seq::empty()
    } else {
        key_views(keys, k - 1).push(key_view(keys[k - 1]))
    }
}

impl View for IDBKey {
    type V = KeyView;

    open spec fn view(&self) -> KeyView {
        key_view(*self)
    }
}

/// The views of the first `k` keys are `k` views, one for each key.
pub proof fn lemma_key_views(keys: Seq<IDBKey>, k: int)
    requires
        0 <= k <= keys.len(),
    ensures
        key_views(keys, k).len() == k,
        forall|j: int| 0 <= j < k ==> #[trigger] key_views(keys, k)[j] == key_view(keys[j]),
    decreases k,
{
    if k > 0 {
        lemma_key_views(keys, k - 1);
    }
}

/// The order of two numbers: -1, 0 or 1.
pub open spec fn number_order(a: i64, b: i64) -> int {
    if a < b {
        -1
    } else if a > b {
        1
    } else {
        0
    }
}

/// The order of two keys: -1 where the first comes first, 1 where the
/// second does, 0 else. Numbers and dates go by their value, texts
/// character by character, arrays by the first element that differs and
/// then by their length. Keys of different kinds have no order: the
/// result is 0.
pub open spec fn key_order(a: KeyView, b: KeyView) -> int
    decreases a, 0nat,
{
    match (a, b) {
        (KeyView::Number(x), KeyView::Number(y)) => number_order(x, y),
        (KeyView::Text(x), KeyView::Text(y)) => text_order(x, y),
        (KeyView::Date(x), KeyView::Date(y)) => number_order(x, y),
        (KeyView::Array(x), KeyView::Array(y)) => array_order(x, y, 0),
        _ => 0,
    }
}

/// The order of two arrays of keys from index `i` on, their elements
/// before `i` being in no order.
pub open spec fn array_order(a: Seq<KeyView>, b: Seq<KeyView>, i: int) -> int
    decreases a, a.len() - i,
{
    if i < 0 || i >= a.len() || i >= b.len() {
        if a.len() < b.len() {
            -1
        } else if a.len() > b.len() {
            1
        } else {
            0
        }
    } else if key_order(a[i], b[i]) != 0 {
        key_order(a[i], b[i])
    } else {
        array_order(a, b, i + 1)
    }
}

/// The order of two keys is one of -1, 0 and 1, and turns round with the
/// keys.
pub proof fn lemma_key_order(a: KeyView, b: KeyView)
    ensures
        -1 <= key_order(a, b) <= 1,
        key_order(b, a) == -key_order(a, b),
    decreases a, 0nat,
{
    match (a, b) {
        (KeyView::Text(x), KeyView::Text(y)) => {
            lemma_order_from(x, y, 0);
        },
        (KeyView::Array(x), KeyView::Array(y)) => {
            lemma_array_order(x, y, 0);
        },
        _ => {},
    }
}

/// The order of two arrays is one of -1, 0 and 1, and turns round with the
/// arrays.
pub proof fn lemma_array_order(a: Seq<KeyView>, b: Seq<KeyView>, i: int)
    requires
        0 <= i,
    ensures
        -1 <= array_order(a, b, i) <= 1,
        array_order(b, a, i) == -array_order(a, b, i),
    decreases a, a.len() - i,
{
    if i < a.len() && i < b.len() {
        lemma_key_order(a[i], b[i]);
        if key_order(a[i], b[i]) == 0 {
            lemma_array_order(a, b, i + 1);
        }
    }
}

impl Clone for IDBKey {
    fn clone(&self) -> (copy: IDBKey)
        ensures
            copy@ == self@,
        decreases self,
    {
        match self {
            IDBKey::Number(n) => IDBKey::Number(*n),
            IDBKey::String(s) => IDBKey::String(s.clone()),
            IDBKey::Date(d) => IDBKey::Date(*d),
            IDBKey::Array(keys) => {
                let mut copies: Vec<IDBKey> = Vec::new();
                let mut i: usize = 0;
                while i < keys.len()
                    invariant
                        *self == IDBKey::Array(*keys),
                        i <= keys@.len(),
                        copies@.len() == i,
                        forall|j: int| 0 <= j < i ==> key_view(#[trigger] copies@[j]) == key_view(
                            keys@[j],
                        ),
                    decreases keys@.len() - i,
                {
                    proof {
                        assert(self->Array_0 == *keys);
                        assert(decreases_to!(*self => self->Array_0));
                        assert(decreases_to!(*keys => keys[i as int]));
                    }
                    let copy = keys[i].clone();
                    copies.push(copy);
                    i = i + 1;
                }
                proof {
                    lemma_key_views(keys@, keys@.len() as int);
                    lemma_key_views(copies@, copies@.len() as int);
                    assert(key_views(copies@, copies@.len() as int) =~= key_views(
                        keys@,
                        keys@.len() as int,
                    ));
                }
                IDBKey::Array(copies)
            },
        }
    }
}

impl IDBKey {
    /// The order of this key and another: -1, 0 or 1.
    pub fn order(&self, other: &IDBKey) -> (order: i8)
        ensures
            order == key_order(self@, other@),
        decreases self,
    {
        match (self, other) {
            (IDBKey::Number(a), IDBKey::Number(b)) => order_numbers(*a, *b),
            (IDBKey::String(a), IDBKey::String(b)) => compare_text(a.as_str(), b.as_str()),
            (IDBKey::Date(a), IDBKey::Date(b)) => order_numbers(*a, *b),
            (IDBKey::Array(a), IDBKey::Array(b)) => {
                let ghost x = key_views(a@, a@.len() as int);
                let ghost y = key_views(b@, b@.len() as int);
                proof {
                    lemma_key_views(a@, a@.len() as int);
                    lemma_key_views(b@, b@.len() as int);
                }
                let mut i: usize = 0;
                while i < a.len() && i < b.len()
                    invariant
                        *self == IDBKey::Array(*a),
                        *other == IDBKey::Array(*b),
                        i <= a@.len(),
                        i <= b@.len(),
                        x == key_views(a@, a@.len() as int),
                        y == key_views(b@, b@.len() as int),
                        x.len() == a@.len(),
                        y.len() == b@.len(),
                        forall|j: int| 0 <= j < a@.len() ==> #[trigger] x[j] == key_view(a@[j]),
                        forall|j: int| 0 <= j < b@.len() ==> #[trigger] y[j] == key_view(b@[j]),
                        array_order(x, y, 0) == array_order(x, y, i as int),
                    decreases a@.len() - i,
                {
                    proof {
                        assert(self->Array_0 == *a);
                        assert(decreases_to!(*self => self->Array_0));
                        assert(decreases_to!(*a => a[i as int]));
                    }
                    let order = a[i].order(&b[i]);
                    assert(order == key_order(x[i as int], y[i as int]));
                    if order != 0 {
                        return order;
                    }
                    i = i + 1;
                }
                if a.len() < b.len() {
                    -1
                } else if a.len() > b.len() {
                    1
                } else {
                    0
                }
            },
            _ => 0,
        }
    }
}

/// The order of two numbers: -1, 0 or 1.
fn order_numbers(a: i64, b: i64) -> (order: i8)
    ensures
        order == number_order(a, b),
{
    if a < b {
        -1
    } else if a > b {
        1
    } else {
        0
    }
}

/// Key range for queries
#[derive(Debug, Clone)]
pub struct IDBKeyRange {
    pub lower: Option<IDBKey>,
    pub upper: Option<IDBKey>,
    pub lower_open: bool,
    pub upper_open: bool,
}

/// The view of an optional key.
pub open spec fn bound_view(bound: Option<IDBKey>) -> Option<KeyView> {
    match bound {
        Some(k) => Some(k@),
        None => None,
    }
}

/// Whether a key lies in a range: not before the lower bound and not
/// behind the upper bound, and not at a bound that is open.
pub open spec fn in_key_range(
    key: KeyView,
    lower: Option<KeyView>,
    upper: Option<KeyView>,
    lower_open: bool,
    upper_open: bool,
) -> bool {
    &&& match lower {
        Some(l) => key_order(key, l) > 0 || (key_order(key, l) == 0 && !lower_open),
        None => true,
    }
    &&& match upper {
        Some(u) => key_order(key, u) < 0 || (key_order(key, u) == 0 && !upper_open),
        None => true,
    }
}

impl IDBKeyRange {
    /// The range that holds one key.
    pub fn only(key: IDBKey) -> (range: Self)
        ensures
            bound_view(range.lower) == Some(key@),
            bound_view(range.upper) == Some(key@),
            !range.lower_open,
            !range.upper_open,
    {
        IDBKeyRange { lower: Some(key.clone()), upper: Some(key), lower_open: false, upper_open: false }
    }

    /// The range from a key on.
    pub fn lower_bound(key: IDBKey, open: bool) -> (range: Self)
        ensures
            range.lower == Some(key),
            range.upper.is_none(),
            range.lower_open == open,
            !range.upper_open,
    {
        IDBKeyRange { lower: Some(key), upper: None, lower_open: open, upper_open: false }
    }

    /// The range up to a key.
    pub fn upper_bound(key: IDBKey, open: bool) -> (range: Self)
        ensures
            range.lower.is_none(),
            range.upper == Some(key),
            !range.lower_open,
            range.upper_open == open,
    {
        IDBKeyRange { lower: None, upper: Some(key), lower_open: false, upper_open: open }
    }

    /// The range between two keys.
    pub fn bound(lower: IDBKey, upper: IDBKey, lower_open: bool, upper_open: bool) -> (range: Self)
        ensures
            range.lower == Some(lower),
            range.upper == Some(upper),
            range.lower_open == lower_open,
            range.upper_open == upper_open,
    {
        IDBKeyRange { lower: Some(lower), upper: Some(upper), lower_open, upper_open }
    }

    /// Whether the range holds a key.
    pub fn includes(&self, key: &IDBKey) -> (held: bool)
        ensures
            held == in_key_range(
                key@,
                bound_view(self.lower),
                bound_view(self.upper),
                self.lower_open,
                self.upper_open,
            ),
    {
        if let Some(lower) = &self.lower {
            let order = key.order(lower);
            if order < 0 || (self.lower_open && order == 0) {
                return false;
            }
        }
        if let Some(upper) = &self.upper {
            let order = key.order(upper);
            if order > 0 || (self.upper_open && order == 0) {
                return false;
            }
        }
        true
    }
}

/// Cursor direction
#[derive(Debug, Clone, Copy, PartialEq, Eq, Structural)]
pub enum IDBCursorDirection {
    Next,
    NextUnique,
    Prev,
    PrevUnique,
}

/// Transaction mode
#[derive(Debug, Clone, Copy, PartialEq, Eq, Structural)]
pub enum IDBTransactionMode {
    ReadOnly,
    ReadWrite,
    VersionChange,
}

/// Index parameters
#[derive(Debug, Clone, Copy)]
pub struct IDBIndexParameters {
    pub unique: bool,
    pub multi_entry: bool,
}

impl Default for IDBIndexParameters {
    fn default() -> (params: Self)
        ensures
            !params.unique,
            !params.multi_entry,
    {
        IDBIndexParameters { unique: false, multi_entry: false }
    }
}

/// Object store parameters
#[derive(Debug, Clone)]
pub struct IDBObjectStoreParameters {
    pub key_path: Option<String>,
    pub auto_increment: bool,
}

impl Default for IDBObjectStoreParameters {
    fn default() -> (params: Self)
        ensures
            params.key_path.is_none(),
            !params.auto_increment,
    {
        IDBObjectStoreParameters { key_path: None, auto_increment: false }
    }
}

/// Whether a direction runs from the last key to the first.
pub open spec fn runs_backwards(direction: IDBCursorDirection) -> bool {
    direction == IDBCursorDirection::Prev || direction == IDBCursorDirection::PrevUnique
}

/// Whether each key of a list stands in order with the key behind it:
/// not behind it where the list runs forwards, not before it where it
/// runs backwards.
pub open spec fn in_order(keys: Seq<IDBKey>, backwards: bool) -> bool {
    forall|i: int|
        0 <= i < keys.len() - 1 ==> if backwards {
            key_order((#[trigger] keys[i])@, keys[i + 1]@) >= 0
        } else {
            key_order(keys[i]@, keys[i + 1]@) <= 0
        }
}

/// Cursor for iterating records
#[derive(Debug)]
pub struct IDBCursor {
    keys: Vec<IDBKey>,
    current_index: usize,
    direction: IDBCursorDirection,
}

impl IDBCursor {
    /// The keys in the order in which the cursor visits them.
    pub closed spec fn keys(&self) -> Seq<IDBKey> {
        self.keys@
    }

    /// How many keys the cursor has passed.
    pub closed spec fn position(&self) -> usize {
        self.current_index
    }

    /// The direction of the cursor.
    pub closed spec fn direction(&self) -> IDBCursorDirection {
        self.direction
    }

    /// A cursor over keys, at the first of them in its direction. It
    /// visits the same keys, each as often as it was given, in order.
    pub fn new(keys: Vec<IDBKey>, direction: IDBCursorDirection) -> (cursor: Self)
        ensures
            cursor.keys().to_multiset() == keys@.to_multiset(),
            in_order(cursor.keys(), runs_backwards(direction)),
            cursor.position() == 0,
            cursor.direction() == direction,
    {
        let backwards = match direction {
            IDBCursorDirection::Prev | IDBCursorDirection::PrevUnique => true,
            _ => false,
        };
        let sorted = sort_keys(keys, backwards);
        IDBCursor { keys: sorted, current_index: 0, direction }
    }

    /// The key at the cursor; none where the cursor is past the last key.
    pub fn key(&self) -> (key: Option<&IDBKey>)
        ensures
            match key {
                Some(k) => self.position() < self.keys().len() && *k == self.keys()[self.position() as int],
                None => self.position() >= self.keys().len(),
            },
    {
        if self.current_index < self.keys.len() {
            Some(&self.keys[self.current_index])
        } else {
            None
        }
    }

    /// Moves the cursor on by `count` keys.
    pub fn advance(&mut self, count: usize)
        requires
            old(self).position() + count <= usize::MAX,
        ensures
            final(self).position() == old(self).position() + count,
            final(self).keys() == old(self).keys(),
            final(self).direction() == old(self).direction(),
    {
        self.current_index = self.current_index + count;
    }

    /// Moves the cursor on by one key.
    pub fn continue_cursor(&mut self)
        requires
            old(self).position() < usize::MAX,
        ensures
            final(self).position() == old(self).position() + 1,
            final(self).keys() == old(self).keys(),
            final(self).direction() == old(self).direction(),
    {
        self.current_index = self.current_index + 1;
    }

    /// Whether the cursor is at a key.
    pub fn has_value(&self) -> (has: bool)
        ensures
            has == (self.position() < self.keys().len()),
    {
        self.current_index < self.keys.len()
    }
}

/// Puts keys in order, forwards or backwards.
fn sort_keys(keys: Vec<IDBKey>, backwards: bool) -> (sorted: Vec<IDBKey>)
    ensures
        sorted@.to_multiset() == keys@.to_multiset(),
        in_order(sorted@, backwards),
{
    let mut rest = keys;
    let mut sorted: Vec<IDBKey> = Vec::new();
    proof {
        assert forall|k: IDBKey| #[trigger]
            sorted@.to_multiset().count(k) + rest@.to_multiset().count(k) == keys@.to_multiset().count(
                k,
            ) by {
            to_multiset_contains(sorted@, k);
        }
    }
    while rest.len() > 0
        invariant
            forall|k: IDBKey| #[trigger]
                sorted@.to_multiset().count(k) + rest@.to_multiset().count(k)
                    == keys@.to_multiset().count(k),
            in_order(sorted@, backwards),
        decreases rest@.len(),
    {
        let ghost before_rest = rest@;
        let ghost before_sorted = sorted@;
        let last = rest.len() - 1;
        let key = rest.remove(last);
        let mut j: usize = 0;
        while j < sorted.len() && !comes_after(&sorted[j], &key, backwards)
            invariant
                j <= sorted@.len(),
                sorted@ == before_sorted,
                forall|t: int|
                    0 <= t < j ==> if backwards {
                        key_order((#[trigger] sorted@[t])@, key@) >= 0
                    } else {
                        key_order(sorted@[t]@, key@) <= 0
                    },
            decreases sorted@.len() - j,
        {
            j = j + 1;
        }
        proof {
            if j < before_sorted.len() {
                lemma_key_order(before_sorted[j as int]@, key@);
            }
        }
        sorted.insert(j, key);
        proof {
            broadcast use vstd::multiset::group_multiset_axioms;

            let now = sorted@;
            assert forall|i: int| 0 <= i < now.len() - 1 implies if backwards {
                key_order((#[trigger] now[i])@, now[i + 1]@) >= 0
            } else {
                key_order(now[i]@, now[i + 1]@) <= 0
            } by {
                if i + 1 < j {
                    assert(now[i] == before_sorted[i]);
                    assert(now[i + 1] == before_sorted[i + 1]);
                } else if i + 1 == j {
                    assert(now[i] == before_sorted[i]);
                } else if i == j {
                    assert(now[i + 1] == before_sorted[i]);
                } else {
                    assert(now[i] == before_sorted[i - 1]);
                    assert(now[i + 1] == before_sorted[i]);
                }
            }
            to_multiset_remove(before_rest, last as int);
            to_multiset_insert(before_sorted, j as int, key);
            to_multiset_contains(before_rest, key);
            assert(before_rest.contains(key)) by {
                assert(before_rest[last as int] == key);
            }
            assert forall|k: IDBKey| #[trigger]
                sorted@.to_multiset().count(k) + rest@.to_multiset().count(k)
                    == keys@.to_multiset().count(k) by {
                assert(before_sorted.to_multiset().count(k) + before_rest.to_multiset().count(k)
                    == keys@.to_multiset().count(k));
            }
        }
    }
    proof {
        assert forall|k: IDBKey| sorted@.to_multiset().count(k) == keys@.to_multiset().count(
            k,
        ) by {
            to_multiset_contains(rest@, k);
            assert(sorted@.to_multiset().count(k) + rest@.to_multiset().count(k)
                == keys@.to_multiset().count(k));
        }
        assert(sorted@.to_multiset() =~= keys@.to_multiset());
    }
    sorted
}

/// Whether `held` has to stand behind `key`: it comes behind it where the
/// list runs forwards, before it where it runs backwards.
fn comes_after(held: &IDBKey, key: &IDBKey, backwards: bool) -> (after: bool)
    ensures
        after == if backwards {
            key_order(held@, key@) < 0
        } else {
            key_order(held@, key@) > 0
        },
{
    let order = held.order(key);
    if backwards {
        order < 0
    } else {
        order > 0
    }
}

/// Transaction
pub struct IDBTransaction {
    mode: IDBTransactionMode,
    store_names: Vec<String>,
    active: bool,
    aborted: bool,
}

/// A transaction as a mathematical value.
pub struct TransactionView {
    pub mode: IDBTransactionMode,
    pub store_names: Seq<String>,
    pub active: bool,
    pub aborted: bool,
}

impl View for IDBTransaction {
    type V = TransactionView;

    closed spec fn view(&self) -> TransactionView {
        TransactionView {
            mode: self.mode,
            store_names: self.store_names@,
            active: self.active,
            aborted: self.aborted,
        }
    }
}

impl IDBTransaction {
    /// A transaction over stores, active and not aborted.
    pub fn new(store_names: Vec<String>, mode: IDBTransactionMode) -> (transaction: Self)
        ensures
            transaction@ == (TransactionView {
                mode,
                store_names: store_names@,
                active: true,
                aborted: false,
            }),
    {
        IDBTransaction { mode, store_names, active: true, aborted: false }
    }

    pub fn mode(&self) -> (mode: IDBTransactionMode)
        ensures
            mode == self@.mode,
    {
        self.mode
    }

    pub fn object_store_names(&self) -> (names: &[String])
        ensures
            names@ == self@.store_names,
    {
        self.store_names.as_slice()
    }

    /// Whether the transaction can still be used: it was neither committed
    /// nor aborted.
    pub fn is_active(&self) -> (active: bool)
        ensures
            active == (self@.active && !self@.aborted),
    {
        self.active && !self.aborted
    }

    pub fn abort(&mut self)
        ensures
            final(self)@ == (TransactionView { active: false, aborted: true, ..old(self)@ }),
    {
        self.aborted = true;
        self.active = false;
    }

    pub fn commit(&mut self)
        ensures
            final(self)@ == (TransactionView { active: false, ..old(self)@ }),
    {
        self.active = false;
    }
}

} // verus!
