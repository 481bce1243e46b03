//! Storage: local and session storage with a quota, cookies, and the
//! events that a change of storage gives rise to.

use vstd::prelude::*;
use crate::clock::{is_later, later, now};
use crate::string_map::{assoc, lemma_assoc_at, StringMap};
use crate::text::{byte_len, byte_length, ends_with, has_prefix, has_suffix, starts_with};
use std::time::{Duration, SystemTime};

verus! {

/// Storage quota limit in bytes, for local storage and for session
/// storage.
pub const STORAGE_QUOTA: usize = 5_242_880;

/// Storage error types
#[derive(Debug, Clone, Copy, PartialEq, Eq, Structural)]
pub enum StorageError {
    /// Quota exceeded
    QuotaExceeded,
    /// Invalid key
    InvalidKey,
    /// Invalid value
    InvalidValue,
}

impl StorageError {
    /// The text of the error.
    pub fn to_string(&self) -> (text: String)
        ensures
            text@ == match *self {
                StorageError::QuotaExceeded => "Storage quota exceeded"@,
                StorageError::InvalidKey => "Invalid storage key"@,
                StorageError::InvalidValue => "Invalid storage value"@,
            },
    {
        match self {
            StorageError::QuotaExceeded => String::from_str("Storage quota exceeded"),
            StorageError::InvalidKey => String::from_str("Invalid storage key"),
            StorageError::InvalidValue => String::from_str("Invalid storage value"),
        }
    }
}

/// The bytes that the first `k` entries take: for each the bytes of its key
/// and of its value.
pub open spec fn stored_bytes(keys: Seq<Seq<char>>, values: Seq<String>, k: int) -> int
    decreases k,
{
    if k <= 0 || k > keys.len() || k > values.len() {
        0
    } else {
        stored_bytes(keys, values, k - 1) + byte_len(keys[k - 1]) + byte_len(values[k - 1]@)
    }
}

/// Two lists of entries that agree on their first `k` entries take the
/// same bytes there.
pub proof fn lemma_stored_agree(
    keys: Seq<Seq<char>>,
    values: Seq<String>,
    keys2: Seq<Seq<char>>,
    values2: Seq<String>,
    k: int,
)
    requires
        0 <= k <= keys.len(),
        k <= values.len(),
        k <= keys2.len(),
        k <= values2.len(),
        forall|j: int| 0 <= j < k ==> keys[j] == keys2[j] && values[j]@ == values2[j]@,
    ensures
        stored_bytes(keys, values, k) == stored_bytes(keys2, values2, k),
    decreases k,
{
    if k > 0 {
        lemma_stored_agree(keys, values, keys2, values2, k - 1);
    }
}

/// The bytes that entries take are not negative, and the first entries
/// take no more than more of them.
pub proof fn lemma_stored_grows(keys: Seq<Seq<char>>, values: Seq<String>, a: int, b: int)
    requires
        0 <= a <= b <= keys.len(),
        b <= values.len(),
    ensures
        0 <= stored_bytes(keys, values, a) <= stored_bytes(keys, values, b),
        a < b ==> stored_bytes(keys, values, a) + byte_len(keys[a]) + byte_len(values[a]@)
            <= stored_bytes(keys, values, b),
    decreases b,
{
    if a < b {
        lemma_stored_grows(keys, values, a, b - 1);
    } else if a > 0 {
        lemma_stored_grows(keys, values, a - 1, a - 1 + 1 - 1);
        lemma_stored_grows(keys, values, 0, a - 1);
    }
}

/// Another value at index `i` changes the bytes by the difference of the
/// two values.
pub proof fn lemma_stored_update(
    keys: Seq<Seq<char>>,
    values: Seq<String>,
    i: int,
    value: String,
    k: int,
)
    requires
        0 <= i < keys.len(),
        keys.len() == values.len(),
        0 <= k <= keys.len(),
    ensures
        stored_bytes(keys, values.update(i, value), k) == stored_bytes(keys, values, k) + if i < k {
            byte_len(value@) - byte_len(values[i]@)
        } else {
            0
        },
    decreases k,
{
    if k > 0 {
        lemma_stored_update(keys, values, i, value, k - 1);
    }
}

/// Without the entry at index `i` the bytes are less by the bytes of that
/// entry.
pub proof fn lemma_stored_remove(keys: Seq<Seq<char>>, values: Seq<String>, i: int, k: int)
    requires
        0 <= i < keys.len(),
        keys.len() == values.len(),
        0 <= k <= keys.len() - 1,
    ensures
        stored_bytes(keys.remove(i), values.remove(i), k) == if k <= i {
            stored_bytes(keys, values, k)
        } else {
            stored_bytes(keys, values, k + 1) - byte_len(keys[i]) - byte_len(values[i]@)
        },
    decreases k,
{
    if k > 0 {
        lemma_stored_remove(keys, values, i, k - 1);
        let j = if k - 1 < i {
            k - 1
        } else {
            k
        };
        assert(keys.remove(i)[k - 1] == keys[j]);
        assert(values.remove(i)[k - 1] == values[j]);
        assert(stored_bytes(keys, values, k + 1) == stored_bytes(keys, values, k) + byte_len(
            keys[k],
        ) + byte_len(values[k]@));
    }
}

/// LocalStorage - persistent key-value storage
pub struct LocalStorage {
    /// Data store
    data: StringMap<String>,
    /// Current size in bytes
    size: usize,
    /// Storage quota
    quota: usize,
}

impl LocalStorage {
    /// The items, by key.
    pub closed spec fn entries(&self) -> Map<Seq<char>, String> {
        self.data@
    }

    /// The keys, in the order in which they were first set.
    pub closed spec fn spec_keys(&self) -> Seq<Seq<char>> {
        self.data.keys()
    }

    /// The bytes that the items take.
    pub closed spec fn spec_size(&self) -> usize {
        self.size
    }

    /// The size is what the items take, and it is within the quota.
    pub closed spec fn wf(&self) -> bool {
        &&& self.quota == STORAGE_QUOTA
        &&& self.size <= self.quota
        &&& self.data.keys().len() == self.data.values().len()
        &&& self.size == stored_bytes(
            self.data.keys(),
            self.data.values(),
            self.data.keys().len() as int,
        )
    }

    /// Create a new LocalStorage, without items.
    pub fn new() -> (storage: Self)
        ensures
            storage.wf(),
            storage.entries() == Map::<Seq<char>, String>::empty(),
            storage.spec_keys() == Seq::<Seq<char>>::empty(),
            storage.spec_size() == 0,
    {
        LocalStorage { data: StringMap::new(), size: 0, quota: STORAGE_QUOTA }
    }

    /// What an item under `key` takes now: the bytes of the key and of its
    /// value, and nothing where there is no such item.
    pub open spec fn held_bytes(&self, key: Seq<char>) -> int {
        if self.entries().contains_key(key) {
            byte_len(key) + byte_len(self.entries()[key]@)
        } else {
            0
        }
    }

    /// Set an item. The new item takes the place of one with the same key.
    /// Fails where the items would then take more than the quota; the
    /// storage is then unchanged.
    pub fn set_item(&mut self, key: String, value: String) -> (done: Result<(), StorageError>)
        requires
            old(self).wf(),
        ensures
            final(self).wf(),
            ({
                let total = old(self).spec_size() - old(self).held_bytes(key@) + byte_len(key@)
                    + byte_len(value@);
                match done {
                    Ok(_) => {
                        &&& total <= STORAGE_QUOTA
                        &&& final(self).entries() == old(self).entries().insert(key@, value)
                        &&& final(self).spec_size() == total
                        &&& final(self).spec_keys() == if old(self).entries().contains_key(key@) {
                            old(self).spec_keys()
                        } else {
                            old(self).spec_keys().push(key@)
                        }
                    },
                    Err(e) => {
                        &&& e == StorageError::QuotaExceeded
                        &&& total > STORAGE_QUOTA
                        &&& final(self).entries() == old(self).entries()
                        &&& final(self).spec_size() == old(self).spec_size()
                        &&& final(self).spec_keys() == old(self).spec_keys()
                    },
                }
            }),
    {
        let key_size = byte_length(key.as_str());
        let value_size = byte_length(value.as_str());
        let count = self.data.len();
        let ghost keys = self.data.keys();
        let ghost values = self.data.values();
        let found = self.data.position(key.as_str());
        let existing_size: usize = match found {
            Some(i) => {
                proof {
                    lemma_stored_grows(keys, values, i as int, count as int);
                    lemma_stored_grows(keys, values, 0, i as int);
                    lemma_assoc_at(keys, values, i as int);
                }
                key_size + byte_length(self.data.value_at(i).as_str())
            },
            None => 0,
        };
        proof {
            lemma_stored_grows(keys, values, 0, count as int);
        }
        let base: usize = self.size - existing_size;
        if key_size > self.quota - base {
            return Err(StorageError::QuotaExceeded);
        }
        let with_key: usize = base + key_size;
        if value_size > self.quota - with_key {
            return Err(StorageError::QuotaExceeded);
        }
        let new_total_size: usize = with_key + value_size;
        proof {
            match found {
                Some(i) => {
                    lemma_stored_update(keys, values, i as int, value, count as int);
                },
                None => {
                    lemma_stored_agree(
                        keys,
                        values,
                        keys.push(key@),
                        values.push(value),
                        count as int,
                    );
                },
            }
        }
        self.data.insert(key, value);
        self.size = new_total_size;
        Ok(())
    }

    /// Get an item
    pub fn get_item(&self, key: &str) -> (value: Option<String>)
        ensures
            match value {
                Some(v) => self.entries().contains_key(key@) && v == self.entries()[key@],
                None => !self.entries().contains_key(key@),
            },
    {
        match self.data.get(key) {
            Some(v) => Some(v.clone()),
            None => None,
        }
    }

    /// Remove an item and give its value back.
    pub fn remove_item(&mut self, key: &str) -> (value: Option<String>)
        requires
            old(self).wf(),
        ensures
            final(self).wf(),
            final(self).entries() == old(self).entries().remove(key@),
            final(self).spec_size() == old(self).spec_size() - old(self).held_bytes(key@),
            match value {
                Some(v) => old(self).entries().contains_key(key@) && v == old(self).entries()[key@],
                None => !old(self).entries().contains_key(key@),
            },
    {
        let count = self.data.len();
        let ghost keys = self.data.keys();
        let ghost values = self.data.values();
        match self.data.position(key) {
            Some(i) => {
                proof {
                    lemma_stored_grows(keys, values, i as int, count as int);
                    lemma_stored_grows(keys, values, 0, i as int);
                    lemma_stored_remove(keys, values, i as int, count as int - 1);
                    lemma_assoc_at(keys, values, i as int);
                }
                let value = self.data.remove_at(i);
                let size = byte_length(key) + byte_length(value.as_str());
                self.size = self.size - size;
                Some(value)
            },
            None => {
                assert(self.data@.remove(key@) =~= self.data@);
                None
            },
        }
    }

    /// Clear all items
    pub fn clear(&mut self)
        requires
            old(self).wf(),
        ensures
            final(self).wf(),
            final(self).entries() == Map::<Seq<char>, String>::empty(),
            final(self).spec_keys() == Seq::<Seq<char>>::empty(),
            final(self).spec_size() == 0,
    {
        self.data.clear();
        self.size = 0;
    }

    /// Get number of items
    pub fn length(&self) -> (n: usize)
        ensures
            n == self.spec_keys().len(),
            n == self.entries().len(),
    {
        self.data.len()
    }

    /// Get key at index, in the order in which the keys were first set.
    pub fn key(&self, index: usize) -> (key: Option<String>)
        ensures
            match key {
                Some(k) => index < self.spec_keys().len() && k@ == self.spec_keys()[index as int],
                None => index >= self.spec_keys().len(),
            },
    {
        if index < self.data.len() {
            Some(self.data.key_at(index).clone())
        } else {
            None
        }
    }

    /// Get current size in bytes
    pub fn size(&self) -> (size: usize)
        ensures
            size == self.spec_size(),
    {
        self.size
    }

    /// Get remaining quota
    pub fn remaining_quota(&self) -> (left: usize)
        requires
            self.wf(),
        ensures
            left == STORAGE_QUOTA - self.spec_size(),
    {
        self.quota - self.size
    }
}

impl Default for LocalStorage {
    fn default() -> (storage: Self)
        ensures
            storage.wf(),
            storage.entries() == Map::<Seq<char>, String>::empty(),
            storage.spec_keys() == Seq::<Seq<char>>::empty(),
            storage.spec_size() == 0,
    {
        LocalStorage::new()
    }
}

/// SessionStorage - per-tab key-value storage (cleared on tab close)
pub struct SessionStorage {
    /// The items, kept as local storage keeps them
    store: LocalStorage,
}

impl SessionStorage {
    /// The storage that keeps the items.
    pub closed spec fn storage(&self) -> LocalStorage {
        self.store
    }

    /// The items, by key.
    pub closed spec fn entries(&self) -> Map<Seq<char>, String> {
        self.store.entries()
    }

    /// The keys, in the order in which they were first set.
    pub closed spec fn spec_keys(&self) -> Seq<Seq<char>> {
        self.store.spec_keys()
    }

    /// The bytes that the items take.
    pub closed spec fn spec_size(&self) -> usize {
        self.store.spec_size()
    }

    /// The size is what the items take, and it is within the quota.
    pub closed spec fn wf(&self) -> bool {
        self.store.wf()
    }

    /// What an item under `key` takes now: the bytes of the key and of its
    /// value, and nothing where there is no such item.
    pub open spec fn held_bytes(&self, key: Seq<char>) -> int {
        if self.entries().contains_key(key) {
            byte_len(key) + byte_len(self.entries()[key]@)
        } else {
            0
        }
    }

    /// Create a new SessionStorage, without items.
    pub fn new() -> (storage: Self)
        ensures
            storage.wf(),
            storage.entries() == Map::<Seq<char>, String>::empty(),
            storage.spec_keys() == Seq::<Seq<char>>::empty(),
            storage.spec_size() == 0,
    {
        SessionStorage { store: LocalStorage::new() }
    }

    /// Set an item. The new item takes the place of one with the same key.
    /// Fails where the items would then take more than the quota; the
    /// storage is then unchanged.
    pub fn set_item(&mut self, key: String, value: String) -> (done: Result<(), StorageError>)
        requires
            old(self).wf(),
        ensures
            final(self).wf(),
            ({
                let total = old(self).spec_size() - old(self).held_bytes(key@) + byte_len(key@)
                    + byte_len(value@);
                match done {
                    Ok(_) => {
                        &&& total <= STORAGE_QUOTA
                        &&& final(self).entries() == old(self).entries().insert(key@, value)
                        &&& final(self).spec_size() == total
                        &&& final(self).spec_keys() == if old(self).entries().contains_key(key@) {
                            old(self).spec_keys()
                        } else {
                            old(self).spec_keys().push(key@)
                        }
                    },
                    Err(e) => {
                        &&& e == StorageError::QuotaExceeded
                        &&& total > STORAGE_QUOTA
                        &&& final(self).entries() == old(self).entries()
                        &&& final(self).spec_size() == old(self).spec_size()
                        &&& final(self).spec_keys() == old(self).spec_keys()
                    },
                }
            }),
    {
        self.store.set_item(key, value)
    }

    /// Get an item
    pub fn get_item(&self, key: &str) -> (value: Option<String>)
        ensures
            match value {
                Some(v) => self.entries().contains_key(key@) && v == self.entries()[key@],
                None => !self.entries().contains_key(key@),
            },
    {
        self.store.get_item(key)
    }

    /// Remove an item and give its value back.
    pub fn remove_item(&mut self, key: &str) -> (value: Option<String>)
        requires
            old(self).wf(),
        ensures
            final(self).wf(),
            final(self).entries() == old(self).entries().remove(key@),
            final(self).spec_size() == old(self).spec_size() - old(self).held_bytes(key@),
            match value {
                Some(v) => old(self).entries().contains_key(key@) && v == old(self).entries()[key@],
                None => !old(self).entries().contains_key(key@),
            },
    {
        self.store.remove_item(key)
    }

    /// Clear all items
    pub fn clear(&mut self)
        requires
            old(self).wf(),
        ensures
            final(self).wf(),
            final(self).entries() == Map::<Seq<char>, String>::empty(),
            final(self).spec_keys() == Seq::<Seq<char>>::empty(),
            final(self).spec_size() == 0,
    {
        self.store.clear();
    }

    /// Get number of items
    pub fn length(&self) -> (n: usize)
        ensures
            n == self.spec_keys().len(),
            n == self.entries().len(),
    {
        self.store.length()
    }

    /// Get key at index, in the order in which the keys were first set.
    pub fn key(&self, index: usize) -> (key: Option<String>)
        ensures
            match key {
                Some(k) => index < self.spec_keys().len() && k@ == self.spec_keys()[index as int],
                None => index >= self.spec_keys().len(),
            },
    {
        self.store.key(index)
    }
}

impl Default for SessionStorage {
    fn default() -> (storage: Self)
        ensures
            storage.wf(),
            storage.entries() == Map::<Seq<char>, String>::empty(),
            storage.spec_keys() == Seq::<Seq<char>>::empty(),
            storage.spec_size() == 0,
    {
        SessionStorage::new()
    }
}

/// SameSite attribute values
#[derive(Debug, Clone, Copy, PartialEq, Eq, Structural)]
pub enum SameSite {
    Strict,
    Lax,
    /// The cookie goes with every request (`SameSite=None`)
    Unrestricted,
}

/// Cookie with attributes
#[derive(Debug)]
pub struct Cookie {
    /// Cookie name
    pub name: String,
    /// Cookie value
    pub value: String,
    /// Expiration time
    pub expires: Option<SystemTime>,
    /// Max age in seconds
    pub max_age: Option<Duration>,
    /// Domain
    pub domain: Option<String>,
    /// Path
    pub path: String,
    /// Secure flag
    pub secure: bool,
    /// HttpOnly flag
    pub http_only: bool,
    /// SameSite attribute
    pub same_site: SameSite,
}

impl Cookie {
    /// Create a new cookie: for every domain and the path `/`, without an
    /// end, not secure, not for HTTP only, and `Lax`.
    pub fn new(name: String, value: String) -> (cookie: Self)
        ensures
            cookie.name == name,
            cookie.value == value,
            cookie.expires.is_none(),
            cookie.max_age.is_none(),
            cookie.domain.is_none(),
            cookie.path@ == "/"@,
            !cookie.secure,
            !cookie.http_only,
            cookie.same_site == SameSite::Lax,
    {
        Cookie {
            name,
            value,
            expires: None,
            max_age: None,
            domain: None,
            path: String::from_str("/"),
            secure: false,
            http_only: false,
            same_site: SameSite::Lax,
        }
    }

    /// Whether the cookie is expired at a time: whether the time is later
    /// than the one at which the cookie expires. A cookie without such a
    /// time never is.
    pub open spec fn expired_at(&self, time: SystemTime) -> bool {
        match self.expires {
            Some(expires) => later(time, expires),
            None => false,
        }
    }

    /// Whether a reading of the clock gives this answer to the question
    /// whether the cookie is expired.
    pub open spec fn clock_may_say(&self, expired: bool) -> bool {
        exists|time: SystemTime| expired == #[trigger] self.expired_at(time)
    }

    /// Whether the cookie is expired at a time.
    pub fn is_expired_at(&self, time: &SystemTime) -> (expired: bool)
        ensures
            expired == self.expired_at(*time),
    {
        match &self.expires {
            Some(expires) => self.expired_when(is_later(time, expires)),
            None => false,
        }
    }

    /// Check if cookie is expired: whether the time that the clock shows
    /// is later than the time at which the cookie expires. A cookie
    /// without such a time never is.
    pub fn is_expired(&self) -> (expired: bool)
        ensures
            self.clock_may_say(expired),
            self.expires.is_none() ==> !expired,
    {
        match &self.expires {
            Some(_) => {
                let time = now();
                let expired = self.is_expired_at(&time);
                assert(expired == self.expired_at(time));
                expired
            },
            None => {
                let ghost any = arbitrary::<SystemTime>();
                assert(false == self.expired_at(any));
                false
            },
        }
    }

    /// Whether the cookie is expired, given whether the clock is past the
    /// time at which it expires.
    pub fn expired_when(&self, clock_is_past: bool) -> (expired: bool)
        ensures
            expired == (self.expires.is_some() && clock_is_past),
    {
        self.expires.is_some() && clock_is_past
    }

    /// Whether the cookie goes to a domain: to every domain where it names
    /// none, else to the domains that end with the one it names.
    pub open spec fn goes_to_domain(&self, domain: Seq<char>) -> bool {
        match self.domain {
            Some(d) => has_suffix(domain, d@),
            None => true,
        }
    }

    /// Whether the cookie goes to a path: to the paths that start with its
    /// own.
    pub open spec fn goes_to_path(&self, path: Seq<char>) -> bool {
        has_prefix(path, self.path@)
    }

    /// Check if cookie matches domain
    pub fn matches_domain(&self, domain: &str) -> (matches: bool)
        ensures
            matches == self.goes_to_domain(domain@),
    {
        match &self.domain {
            Some(cookie_domain) => ends_with(domain, cookie_domain.as_str()),
            None => true,
        }
    }

    /// Check if cookie matches path
    pub fn matches_path(&self, path: &str) -> (matches: bool)
        ensures
            matches == self.goes_to_path(path@),
    {
        starts_with(path, self.path.as_str())
    }

    /// Whether the cookie may go with a request, its expiry apart: the
    /// domain and the path match, and a secure cookie goes only with a
    /// secure request.
    pub open spec fn fits_request(&self, domain: Seq<char>, path: Seq<char>, secure: bool) -> bool {
        self.goes_to_domain(domain) && self.goes_to_path(path) && (!self.secure || secure)
    }
}

/// Whether a cookie was asked rightly whether it is expired: at the time,
/// where one is given, and by some reading of the clock else.
pub open spec fn judged(cookie: Cookie, expired: bool, time: Option<&SystemTime>) -> bool {
    match time {
        Some(t) => expired == cookie.expired_at(*t),
        None => cookie.clock_may_say(expired),
    }
}

/// Those of the first `k` names under which a jar holds a cookie, in their
/// order.
pub open spec fn names_held(names: Seq<Seq<char>>, jar: Map<Seq<char>, Cookie>, k: int) -> Seq<
    Seq<char>,
>
    decreases k,
{
    if k <= 0 || k > names.len() {
        Seq::empty()
    } else if jar.contains_key(names[k - 1]) {
        names_held(names, jar, k - 1).push(names[k - 1])
    } else {
        names_held(names, jar, k - 1)
    }
}

/// Two jars that hold cookies under the same of the first `k` names give
/// the same names.
pub proof fn lemma_names_held_same(
    names: Seq<Seq<char>>,
    a: Map<Seq<char>, Cookie>,
    b: Map<Seq<char>, Cookie>,
    k: int,
)
    requires
        0 <= k <= names.len(),
        forall|t: int| 0 <= t < k ==> a.contains_key(#[trigger] names[t]) == b.contains_key(names[t]),
    ensures
        names_held(names, a, k) == names_held(names, b, k),
    decreases k,
{
    if k > 0 {
        lemma_names_held_same(names, a, b, k - 1);
    }
}

/// Cookie jar for managing cookies
pub struct CookieJar {
    /// Cookies storage
    cookies: StringMap<Cookie>,
}

impl View for CookieJar {
    type V = Map<Seq<char>, Cookie>;

    closed spec fn view(&self) -> Map<Seq<char>, Cookie> {
        self.cookies@
    }
}

impl CookieJar {
    /// The names of the cookies, in the order in which they were first
    /// set.
    pub closed spec fn spec_names(&self) -> Seq<Seq<char>> {
        self.cookies.keys()
    }

    /// Create a new cookie jar, without cookies.
    pub fn new() -> (jar: Self)
        ensures
            jar@ == Map::<Seq<char>, Cookie>::empty(),
            jar.spec_names() == Seq::<Seq<char>>::empty(),
    {
        CookieJar { cookies: StringMap::new() }
    }

    /// Set a cookie, in the place of one with the same name.
    pub fn set_cookie(&mut self, cookie: Cookie)
        ensures
            final(self)@ == old(self)@.insert(cookie.name@, cookie),
            final(self).spec_names() == if old(self)@.contains_key(cookie.name@) {
                old(self).spec_names()
            } else {
                old(self).spec_names().push(cookie.name@)
            },
    {
        let name = cookie.name.clone();
        self.cookies.insert(name, cookie);
    }

    /// Get a cookie by name. None where there is no such cookie or where it
    /// has expired; a cookie without an end never has.
    pub fn get_cookie(&self, name: &str) -> (cookie: Option<&Cookie>)
        ensures
            match cookie {
                Some(c) => self@.contains_key(name@) && *c == self@[name@],
                None => !self@.contains_key(name@) || self@[name@].expires.is_some(),
            },
    {
        match self.cookies.get(name) {
            Some(cookie) => {
                if cookie.is_expired() {
                    None
                } else {
                    Some(cookie)
                }
            },
            None => None,
        }
    }

    /// Get all cookies for a domain and path, in the order in which they
    /// were first set. Each of them is in the jar and fits the request;
    /// every cookie of the jar that fits the request and has no end is
    /// among them.
    pub fn get_cookies_for_request(&self, domain: &str, path: &str, secure: bool) -> (found: Vec<
        &Cookie,
    >)
        ensures
            forall|i: int|
                0 <= i < found@.len() ==> {
                    &&& self@.contains_key((#[trigger] found@[i]).name@)
                    &&& self@[found@[i].name@] == *found@[i]
                    &&& found@[i].fits_request(domain@, path@, secure)
                },
            forall|name: Seq<char>|
                #[trigger] self@.contains_key(name) && self@[name].name@ == name
                    && self@[name].fits_request(domain@, path@, secure) && self@[name].expires.is_none()
                    ==> exists|i: int| 0 <= i < found@.len() && *(#[trigger] found@[i]) == self@[name],
    {
        let mut found: Vec<&Cookie> = Vec::new();
        let count = self.cookies.len();
        let ghost names = self.cookies.keys();
        let ghost cookies = self.cookies.values();
        let mut i: usize = 0;
        while i < count
            invariant
                i <= count,
                count == names.len(),
                count == cookies.len(),
                names == self.cookies.keys(),
                cookies == self.cookies.values(),
                names.no_duplicates(),
                self@ == assoc(names, cookies),
                forall|j: int|
                    0 <= j < found@.len() ==> {
                        &&& self@.contains_key((#[trigger] found@[j]).name@)
                        &&& self@[found@[j].name@] == *found@[j]
                        &&& found@[j].fits_request(domain@, path@, secure)
                    },
                forall|j: int|
                    0 <= j < i && names[j] == cookies[j].name@ && (#[trigger] cookies[j]).fits_request(
                        domain@,
                        path@,
                        secure,
                    ) && cookies[j].expires.is_none() ==> exists|t: int|
                        0 <= t < found@.len() && *(#[trigger] found@[t]) == cookies[j],
            decreases count - i,
        {
            let cookie = self.cookies.value_at(i);
            let name = self.cookies.key_at(i);
            let named: bool = crate::text::str_eq(name.as_str(), cookie.name.as_str());
            if named && !cookie.is_expired() && cookie.matches_domain(domain) && cookie.matches_path(
                path,
            ) && (!cookie.secure || secure) {
                let ghost before = found@;
                found.push(cookie);
                proof {
                    lemma_assoc_at(names, cookies, i as int);
                    assert forall|j: int|
                        0 <= j < i + 1 && names[j] == cookies[j].name@ && (
                        #[trigger] cookies[j]).fits_request(domain@, path@, secure)
                            && cookies[j].expires.is_none() implies exists|t: int|
                        0 <= t < found@.len() && *(#[trigger] found@[t]) == cookies[j] by {
                        if j < i {
                            let t = choose|t: int|
                                0 <= t < before.len() && *(#[trigger] before[t]) == cookies[j];
                            assert(found@[t] == before[t]);
                        } else {
                            assert(*found@[before.len() as int] == cookies[j]);
                        }
                    }
                }
            }
            i = i + 1;
        }
        proof {
            assert forall|name: Seq<char>|
                #[trigger] self@.contains_key(name) && self@[name].name@ == name
                    && self@[name].fits_request(domain@, path@, secure)
                    && self@[name].expires.is_none() implies exists|t: int|
                0 <= t < found@.len() && *(#[trigger] found@[t]) == self@[name] by {
                let j = names.index_of(name);
                assert(names.contains(name));
                assert(0 <= j < names.len() && names[j] == name);
                lemma_assoc_at(names, cookies, j);
                assert(cookies[j].fits_request(domain@, path@, secure));
            }
        }
        found
    }

    /// Remove a cookie and give it back.
    pub fn remove_cookie(&mut self, name: &str) -> (cookie: Option<Cookie>)
        ensures
            final(self)@ == old(self)@.remove(name@),
            cookie == if old(self)@.contains_key(name@) {
                Some(old(self)@[name@])
            } else {
                None
            },
    {
        self.cookies.remove(name)
    }

    /// Clear all cookies
    pub fn clear(&mut self)
        ensures
            final(self)@ == Map::<Seq<char>, Cookie>::empty(),
            final(self).spec_names() == Seq::<Seq<char>>::empty(),
    {
        self.cookies.clear();
    }

    /// Remove expired cookies: each cookie is asked in turn whether it is
    /// expired, by the clock as it then stands, and leaves the jar where
    /// it is. The others stay as they are, in their order.
    pub fn purge_expired(&mut self)
        ensures
            forall|name: Seq<char>|
                #[trigger] final(self)@.contains_key(name) ==> old(self)@.contains_key(name)
                    && final(self)@[name] == old(self)@[name],
            forall|name: Seq<char>|
                #[trigger] old(self)@.contains_key(name) ==> old(self)@[name].clock_may_say(
                    !final(self)@.contains_key(name),
                ),
            forall|name: Seq<char>|
                #[trigger] old(self)@.contains_key(name) && old(self)@[name].expires.is_none()
                    ==> final(self)@.contains_key(name),
            final(self).spec_names() == names_held(
                old(self).spec_names(),
                final(self)@,
                old(self).spec_names().len() as int,
            ),
    {
        self.purge(None);
    }

    /// Remove the cookies that are expired at a time. The others stay as
    /// they are, in their order.
    pub fn purge_expired_at(&mut self, time: &SystemTime)
        ensures
            forall|name: Seq<char>|
                #[trigger] final(self)@.contains_key(name) <==> old(self)@.contains_key(name)
                    && !old(self)@[name].expired_at(*time),
            forall|name: Seq<char>|
                #[trigger] final(self)@.contains_key(name) ==> final(self)@[name] == old(self)@[name],
            final(self).spec_names() == names_held(
                old(self).spec_names(),
                final(self)@,
                old(self).spec_names().len() as int,
            ),
    {
        self.purge(Some(time));
    }

    /// Removes the cookies that are expired: at the time, where one is
    /// given, and by the clock else.
    fn purge(&mut self, time: Option<&SystemTime>)
        ensures
            forall|name: Seq<char>|
                #[trigger] final(self)@.contains_key(name) ==> old(self)@.contains_key(name)
                    && final(self)@[name] == old(self)@[name],
            forall|name: Seq<char>|
                #[trigger] old(self)@.contains_key(name) ==> judged(
                    old(self)@[name],
                    !final(self)@.contains_key(name),
                    time,
                ),
            final(self).spec_names() == names_held(
                old(self).spec_names(),
                final(self)@,
                old(self).spec_names().len() as int,
            ),
    {
        let ghost names = self.cookies.keys();
        let ghost jar = self@;
        let count = self.cookies.len();
        assert(count == names.len());
        let mut i: usize = 0;
        let ghost mut passed: int = 0;
        assert(self.cookies.keys() =~= names_held(names, self@, 0) + names.subrange(
            0,
            names.len() as int,
        ));
        while i < self.cookies.len()
            invariant
                names == old(self).cookies.keys(),
                jar == old(self)@,
                names.no_duplicates(),
                0 <= passed <= names.len(),
                i == names_held(names, self@, passed).len(),
                self.cookies.keys() == names_held(names, self@, passed) + names.subrange(
                    passed,
                    names.len() as int,
                ),
                forall|name: Seq<char>|
                    #[trigger] self@.contains_key(name) ==> jar.contains_key(name) && self@[name]
                        == jar[name],
                forall|t: int|
                    0 <= t < passed ==> judged(
                        jar[#[trigger] names[t]],
                        !self@.contains_key(names[t]),
                        time,
                    ),
            decreases names.len() - passed,
        {
            let held = self.cookies.len();
            assert(i < held);
            let ghost before = self@;
            let ghost name = names[passed];
            assert(self.cookies.keys()[i as int] == name);
            let cookie = self.cookies.value_at(i);
            assert(*cookie == jar[name]);
            let expired = match time {
                Some(t) => cookie.is_expired_at(t),
                None => cookie.is_expired(),
            };
            if expired {
                self.cookies.remove_at(i);
                proof {
                    assert(self@ == before.remove(name));
                    assert forall|t: int| 0 <= t < passed implies before.contains_key(
                        #[trigger] names[t],
                    ) == self@.contains_key(names[t]) by {
                        assert(names[t] != names[passed]);
                    }
                    lemma_names_held_same(names, before, self@, passed);
                    assert(self.cookies.keys() =~= names_held(names, self@, passed + 1)
                        + names.subrange(passed + 1, names.len() as int));
                    assert forall|name2: Seq<char>| #[trigger] self@.contains_key(name2) implies jar.contains_key(
                        name2,
                    ) && self@[name2] == jar[name2] by {
                        assert(before.contains_key(name2));
                    }
                }
            } else {
                proof {
                    assert(self.cookies.keys() =~= names_held(names, self@, passed + 1)
                        + names.subrange(passed + 1, names.len() as int));
                }
                i = i + 1;
            }
            proof {
                passed = passed + 1;
            }
        }
        proof {
            assert(names.subrange(passed, names.len() as int) =~= Seq::<Seq<char>>::empty());
            assert(self.cookies.keys() =~= names_held(names, self@, names.len() as int));
            assert forall|name: Seq<char>| #[trigger] jar.contains_key(name) implies judged(
                jar[name],
                !self@.contains_key(name),
                time,
            ) by {
                assert(names.contains(name));
                let t = names.index_of(name);
                assert(names[t] == name);
            }
        }
    }

    /// Get all cookie names, in the order in which they were first set.
    pub fn names(&self) -> (names: Vec<String>)
        ensures
            crate::text::views(names@) == self.spec_names(),
    {
        let mut names: Vec<String> = Vec::new();
        let count = self.cookies.len();
        let mut i: usize = 0;
        while i < count
            invariant
                i <= count,
                count == self.cookies.keys().len(),
                names@.len() == i,
                crate::text::views(names@) == self.cookies.keys().subrange(0, i as int),
            decreases count - i,
        {
            let ghost before = names@;
            let name = self.cookies.key_at(i).clone();
            names.push(name);
            proof {
                let now = crate::text::views(names@);
                let want = self.cookies.keys().subrange(0, i as int + 1);
                assert(now.len() == want.len());
                assert forall|j: int| 0 <= j < now.len() implies now[j] == want[j] by {
                    if j < i {
                        assert(crate::text::views(before)[j] == self.cookies.keys().subrange(
                            0,
                            i as int,
                        )[j]);
                        assert(names@[j] == before[j]);
                    }
                }
                assert(now =~= want);
            }
            i = i + 1;
        }
        assert(self.cookies.keys().subrange(0, count as int) =~= self.cookies.keys());
        names
    }
}

impl Default for CookieJar {
    fn default() -> (jar: Self)
        ensures
            jar@ == Map::<Seq<char>, Cookie>::empty(),
            jar.spec_names() == Seq::<Seq<char>>::empty(),
    {
        CookieJar::new()
    }
}

/// Storage area type
#[derive(Debug, Clone, Copy, PartialEq, Eq, Structural)]
pub enum StorageArea {
    Local,
    Session,
}

/// Storage event (fired when storage changes)
#[derive(Debug, Clone)]
pub struct StorageEvent {
    /// Storage key
    pub key: Option<String>,
    /// Old value
    pub old_value: Option<String>,
    /// New value
    pub new_value: Option<String>,
    /// Storage area type
    pub storage_area: StorageArea,
}

/// Storage manager coordinating all storage types
pub struct StorageManager<L> {
    /// LocalStorage instance
    local_storage: LocalStorage,
    /// SessionStorage instance
    session_storage: SessionStorage,
    /// Cookie jar
    cookie_jar: CookieJar,
    /// Storage event listeners, in the order in which they were added
    event_listeners: Vec<L>,
}

/// What a change of one storage does: where the new value fits, it stands
/// under the key, and the event tells the key, the value that was under
/// it, the new value and the area; else nothing changes, and the quota is
/// exceeded.
pub open spec fn storage_changed(
    before: LocalStorage,
    after: LocalStorage,
    area: StorageArea,
    key: String,
    value: String,
    event: Result<StorageEvent, StorageError>,
) -> bool {
    let total = before.spec_size() - before.held_bytes(key@) + byte_len(key@) + byte_len(value@);
    match event {
        Ok(e) => {
            &&& total <= STORAGE_QUOTA
            &&& after.entries() == before.entries().insert(key@, value)
            &&& after.spec_size() == total
            &&& e.key == Some(key)
            &&& e.new_value == Some(value)
            &&& e.old_value == if before.entries().contains_key(key@) {
                Some(before.entries()[key@])
            } else {
                None
            }
            &&& e.storage_area == area
        },
        Err(e) => {
            &&& e == StorageError::QuotaExceeded
            &&& total > STORAGE_QUOTA
            &&& after.entries() == before.entries()
            &&& after.spec_size() == before.spec_size()
        },
    }
}

impl<L: Fn(&StorageEvent)> StorageManager<L> {
    /// The local storage.
    pub closed spec fn local(&self) -> LocalStorage {
        self.local_storage
    }

    /// The session storage.
    pub closed spec fn session(&self) -> SessionStorage {
        self.session_storage
    }

    /// The cookie jar.
    pub closed spec fn jar(&self) -> CookieJar {
        self.cookie_jar
    }

    /// The listeners, in the order in which they were added.
    pub closed spec fn listeners(&self) -> Seq<L> {
        self.event_listeners@
    }

    /// Both storages keep their invariants.
    pub open spec fn wf(&self) -> bool {
        self.local().wf() && self.session().wf()
    }

    /// Whether every listener can be called with whatever event there is.
    pub open spec fn accepts_all(&self) -> bool {
        forall|i: int, event: &StorageEvent|
            0 <= i < self.listeners().len() ==> #[trigger] call_requires(
                self.listeners()[i],
                (event,),
            )
    }

    /// Whether every listener was told of an event.
    pub open spec fn told(&self, event: StorageEvent) -> bool {
        forall|i: int|
            0 <= i < self.listeners().len() ==> call_ensures(
                #[trigger] self.listeners()[i],
                (&event,),
                (),
            )
    }

    /// What setting an item does: the storage changes as `changed` says,
    /// and where it did, every listener was told of the event.
    pub open spec fn set_and_told(
        &self,
        done: Result<(), StorageError>,
        changed: Result<StorageEvent, StorageError>,
    ) -> bool {
        match (done, changed) {
            (Ok(_), Ok(event)) => self.told(event),
            (Err(d), Err(e)) => d == e,
            _ => false,
        }
    }

    /// Create a new storage manager, with empty storages, an empty cookie
    /// jar and no listeners.
    pub fn new() -> (manager: Self)
        ensures
            manager.wf(),
            manager.accepts_all(),
            manager.local().entries() == Map::<Seq<char>, String>::empty(),
            manager.session().entries() == Map::<Seq<char>, String>::empty(),
            manager.jar()@ == Map::<Seq<char>, Cookie>::empty(),
            manager.listeners().len() == 0,
    {
        StorageManager {
            local_storage: LocalStorage::new(),
            session_storage: SessionStorage::new(),
            cookie_jar: CookieJar::new(),
            event_listeners: Vec::new(),
        }
    }

    /// Get LocalStorage
    pub fn local_storage(&mut self) -> (storage: &mut LocalStorage)
        ensures
            *storage == old(self).local(),
            final(self).local() == *final(storage),
            final(self).session() == old(self).session(),
            final(self).jar() == old(self).jar(),
            final(self).listeners() == old(self).listeners(),
    {
        &mut self.local_storage
    }

    /// Get SessionStorage
    pub fn session_storage(&mut self) -> (storage: &mut SessionStorage)
        ensures
            *storage == old(self).session(),
            final(self).session() == *final(storage),
            final(self).local() == old(self).local(),
            final(self).jar() == old(self).jar(),
            final(self).listeners() == old(self).listeners(),
    {
        &mut self.session_storage
    }

    /// Get CookieJar
    pub fn cookie_jar(&mut self) -> (jar: &mut CookieJar)
        ensures
            *jar == old(self).jar(),
            final(self).jar() == *final(jar),
            final(self).local() == old(self).local(),
            final(self).session() == old(self).session(),
            final(self).listeners() == old(self).listeners(),
    {
        &mut self.cookie_jar
    }

    /// Add storage event listener, behind those that are there.
    pub fn add_storage_listener(&mut self, listener: L)
        ensures
            final(self).listeners() == old(self).listeners().push(listener),
            final(self).local() == old(self).local(),
            final(self).session() == old(self).session(),
            final(self).jar() == old(self).jar(),
    {
        self.event_listeners.push(listener);
    }

    /// Fire storage event: every listener is called with it, in the order
    /// in which they were added.
    pub fn fire_storage_event(&self, event: StorageEvent)
        requires
            self.accepts_all(),
        ensures
            self.told(event),
    {
        let mut i: usize = 0;
        while i < self.event_listeners.len()
            invariant
                i <= self.event_listeners@.len(),
                self.accepts_all(),
                forall|j: int|
                    0 <= j < i ==> call_ensures(#[trigger] self.listeners()[j], (&event,), ()),
            decreases self.event_listeners@.len() - i,
        {
            let listener = &self.event_listeners[i];
            assert(call_requires(self.listeners()[i as int], (&event,)));
            listener(&event);
            i = i + 1;
        }
    }

    /// Set item in LocalStorage and give the event to fire: the key, the
    /// value that was under it, the new value, and the local area. Fails as
    /// `LocalStorage::set_item` does, with no event.
    pub fn change_local_item(&mut self, key: String, value: String) -> (event: Result<
        StorageEvent,
        StorageError,
    >)
        requires
            old(self).wf(),
        ensures
            final(self).wf(),
            final(self).session() == old(self).session(),
            final(self).jar() == old(self).jar(),
            final(self).listeners() == old(self).listeners(),
            storage_changed(
                old(self).local(),
                final(self).local(),
                StorageArea::Local,
                key,
                value,
                event,
            ),
    {
        let old_value = self.local_storage.get_item(key.as_str());
        match self.local_storage.set_item(key.clone(), value.clone()) {
            Ok(_) => Ok(
                StorageEvent {
                    key: Some(key),
                    old_value,
                    new_value: Some(value),
                    storage_area: StorageArea::Local,
                },
            ),
            Err(e) => Err(e),
        }
    }

    /// Set item in SessionStorage and give the event to fire: the key, the
    /// value that was under it, the new value, and the session area. Fails
    /// as `SessionStorage::set_item` does, with no event.
    pub fn change_session_item(&mut self, key: String, value: String) -> (event: Result<
        StorageEvent,
        StorageError,
    >)
        requires
            old(self).wf(),
        ensures
            final(self).wf(),
            final(self).local() == old(self).local(),
            final(self).jar() == old(self).jar(),
            final(self).listeners() == old(self).listeners(),
            storage_changed(
                old(self).session().storage(),
                final(self).session().storage(),
                StorageArea::Session,
                key,
                value,
                event,
            ),
    {
        let old_value = self.session_storage.get_item(key.as_str());
        match self.session_storage.set_item(key.clone(), value.clone()) {
            Ok(_) => Ok(
                StorageEvent {
                    key: Some(key),
                    old_value,
                    new_value: Some(value),
                    storage_area: StorageArea::Session,
                },
            ),
            Err(e) => Err(e),
        }
    }

    /// Set item in LocalStorage and fire event
    pub fn set_local_item(&mut self, key: String, value: String) -> (done: Result<(), StorageError>)
        requires
            old(self).wf(),
            old(self).accepts_all(),
        ensures
            final(self).wf(),
            final(self).session() == old(self).session(),
            final(self).jar() == old(self).jar(),
            final(self).listeners() == old(self).listeners(),
            exists|changed: Result<StorageEvent, StorageError>|
                #[trigger] storage_changed(
                    old(self).local(),
                    final(self).local(),
                    StorageArea::Local,
                    key,
                    value,
                    changed,
                ) && final(self).set_and_told(done, changed),
    {
        let changed = self.change_local_item(key, value);
        match changed {
            Ok(event) => {
                self.fire_storage_event(event);
                assert(self.set_and_told(Ok(()), changed));
                Ok(())
            },
            Err(e) => {
                assert(self.set_and_told(Err(e), changed));
                Err(e)
            },
        }
    }

    /// Set item in SessionStorage and fire event
    pub fn set_session_item(&mut self, key: String, value: String) -> (done: Result<
        (),
        StorageError,
    >)
        requires
            old(self).wf(),
            old(self).accepts_all(),
        ensures
            final(self).wf(),
            final(self).local() == old(self).local(),
            final(self).jar() == old(self).jar(),
            final(self).listeners() == old(self).listeners(),
            exists|changed: Result<StorageEvent, StorageError>|
                #[trigger] storage_changed(
                    old(self).session().storage(),
                    final(self).session().storage(),
                    StorageArea::Session,
                    key,
                    value,
                    changed,
                ) && final(self).set_and_told(done, changed),
    {
        let changed = self.change_session_item(key, value);
        match changed {
            Ok(event) => {
                self.fire_storage_event(event);
                assert(self.set_and_told(Ok(()), changed));
                Ok(())
            },
            Err(e) => {
                assert(self.set_and_told(Err(e), changed));
                Err(e)
            },
        }
    }
}

impl<L: Fn(&StorageEvent)> Default for StorageManager<L> {
    fn default() -> (manager: Self)
        ensures
            manager.wf(),
            manager.accepts_all(),
            manager.local().entries() == Map::<Seq<char>, String>::empty(),
            manager.session().entries() == Map::<Seq<char>, String>::empty(),
            manager.jar()@ == Map::<Seq<char>, Cookie>::empty(),
            manager.listeners().len() == 0,
    {
        StorageManager::new()
    }
}

} // verus!
