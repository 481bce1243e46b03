//! The kinds of resources that a page loads, and the cache that keeps what
//! was loaded: it holds at most a given number of bytes, and makes room by
//! giving up what was used longest ago.

use vstd::prelude::*;
use crate::clock::{duration_between, epoch, now, whole_secs};
use crate::urls::{clone_url, path_of, same_url, url_path};
use crate::net::NetError;
use crate::text::{
    after_last, contains_text, copy_bytes, from_utf8, has_part, lowercase, str_eq, text_after_last,
    to_lowercase,
};
use url::Url;
use vstd::utf8::{encode_utf8, valid_utf8};

verus! {

/// Represents a resource type
#[derive(Debug, Clone, Copy, PartialEq, Eq, Hash, Structural)]
pub enum ResourceType {
    Html,
    Css,
    Image,
    Font,
    Other,
}

/// The resource type that a lower-case content type names: the first of
/// HTML, CSS, image and font whose mark the content type holds somewhere.
pub open spec fn content_kind(lower: Seq<char>) -> ResourceType {
    if has_part(lower, "text/html"@) {
        ResourceType::Html
    } else if has_part(lower, "text/css"@) {
        ResourceType::Css
    } else if has_part(lower, "image/"@) {
        ResourceType::Image
    } else if has_part(lower, "font/"@) || has_part(lower, "application/font"@) {
        ResourceType::Font
    } else {
        ResourceType::Other
    }
}

/// The resource type that a lower-case file extension names.
pub open spec fn extension_kind(lower: Seq<char>) -> ResourceType {
    if lower == "html"@ || lower == "htm"@ {
        ResourceType::Html
    } else if lower == "css"@ {
        ResourceType::Css
    } else if lower == "png"@ || lower == "jpg"@ || lower == "jpeg"@ || lower == "gif"@ || lower
        == "svg"@ || lower == "webp"@ {
        ResourceType::Image
    } else if lower == "woff"@ || lower == "woff2"@ || lower == "ttf"@ || lower == "otf"@ {
        ResourceType::Font
    } else {
        ResourceType::Other
    }
}

impl ResourceType {
    /// Determine resource type from content-type header, whatever the case
    /// of its letters.
    pub fn from_content_type(content_type: &str) -> (kind: Self)
        ensures
            kind == content_kind(lowercase(content_type@)),
    {
        let lower = to_lowercase(content_type);
        ResourceType::from_lowercase_content_type(lower.as_str())
    }

    /// The resource type that a lower-case content type names.
    pub fn from_lowercase_content_type(lower: &str) -> (kind: Self)
        ensures
            kind == content_kind(lower@),
    {
        if contains_text(lower, "text/html") {
            ResourceType::Html
        } else if contains_text(lower, "text/css") {
            ResourceType::Css
        } else if contains_text(lower, "image/") {
            ResourceType::Image
        } else if contains_text(lower, "font/") || contains_text(lower, "application/font") {
            ResourceType::Font
        } else {
            ResourceType::Other
        }
    }

    /// Determine resource type from the file extension of a path: the text
    /// behind its last dot, whatever the case of its letters.
    pub fn from_path(path: &str) -> (kind: Self)
        ensures
            kind == extension_kind(lowercase(after_last(path@, '.'))),
    {
        let lower = to_lowercase(text_after_last(path, '.'));
        ResourceType::from_lowercase_extension(lower.as_str())
    }

    /// Determine resource type from the file extension of a URL's path.
    pub fn from_extension(url: &Url) -> (kind: Self)
        ensures
            kind == extension_kind(lowercase(after_last(path_of(*url), '.'))),
    {
        let path = url_path(url);
        ResourceType::from_path(path.as_str())
    }

    /// The resource type that a lower-case file extension names.
    pub fn from_lowercase_extension(lower: &str) -> (kind: Self)
        ensures
            kind == extension_kind(lower@),
    {
        if str_eq(lower, "html") || str_eq(lower, "htm") {
            ResourceType::Html
        } else if str_eq(lower, "css") {
            ResourceType::Css
        } else if str_eq(lower, "png") || str_eq(lower, "jpg") || str_eq(lower, "jpeg") || str_eq(
            lower,
            "gif",
        ) || str_eq(lower, "svg") || str_eq(lower, "webp") {
            ResourceType::Image
        } else if str_eq(lower, "woff") || str_eq(lower, "woff2") || str_eq(lower, "ttf") || str_eq(
            lower,
            "otf",
        ) {
            ResourceType::Font
        } else {
            ResourceType::Other
        }
    }
}

/// The seconds since the start of 1970 that the system clock shows, and 0
/// where it shows a time before that. Nothing is known of the reading.
pub fn current_timestamp() -> u64 {
    match duration_between(&now(), &epoch()) {
        Some(since) => whole_secs(&since),
        None => 0,
    }
}

/// Cached resource data
#[derive(Debug)]
pub struct CachedResource {
    pub url: Url,
    pub resource_type: ResourceType,
    pub content_type: String,
    pub data: Vec<u8>,
    /// Timestamp for LRU eviction (system time in seconds)
    pub last_accessed: u64,
}

/// What a cached resource holds.
pub ghost struct ResourceModel {
    pub url: Url,
    pub resource_type: ResourceType,
    pub content_type: Seq<char>,
    pub data: Seq<u8>,
    pub last_accessed: u64,
}

impl View for CachedResource {
    type V = ResourceModel;

    open spec fn view(&self) -> ResourceModel {
        ResourceModel {
            url: self.url,
            resource_type: self.resource_type,
            content_type: self.content_type@,
            data: self.data@,
            last_accessed: self.last_accessed,
        }
    }
}

impl Clone for CachedResource {
    fn clone(&self) -> (copy: Self)
        ensures
            copy@ == self@,
    {
        CachedResource {
            url: clone_url(&self.url),
            resource_type: self.resource_type,
            content_type: self.content_type.clone(),
            data: copy_bytes(&self.data),
            last_accessed: self.last_accessed,
        }
    }
}

impl CachedResource {
    /// Get the resource as a UTF-8 string: the text that the data is the
    /// UTF-8 form of, and a parse error where it is the form of none.
    pub fn as_text(&self) -> (text: Result<String, NetError>)
        ensures
            match text {
                Ok(s) => valid_utf8(self.data@) && encode_utf8(s@) == self.data@,
                Err(e) => !valid_utf8(self.data@) && e is ParseError,
            },
    {
        match from_utf8(copy_bytes(&self.data)) {
            Some(s) => Ok(s),
            None => Err(NetError::ParseError(String::from_str("Invalid UTF-8"))),
        }
    }

    /// The resource that a response gives: of the kind that its content
    /// type names, or, where it has no content type, of the kind that the
    /// extension of the URL's path names.
    pub fn from_response(url: Url, content_type: String, data: Vec<u8>, stamp: u64) -> (resource:
        Self)
        ensures
            resource.url == url,
            resource.content_type == content_type,
            resource.data == data,
            resource.last_accessed == stamp,
            resource.resource_type == response_kind(url, content_type@),
    {
        let resource_type = if content_type.as_str().unicode_len() != 0 {
            ResourceType::from_content_type(content_type.as_str())
        } else {
            ResourceType::from_extension(&url)
        };
        CachedResource { url, resource_type, content_type, data, last_accessed: stamp }
    }
}

/// The kind of the resource that a response with this URL and content type
/// brings.
pub open spec fn response_kind(url: Url, content_type: Seq<char>) -> ResourceType {
    if content_type.len() != 0 {
        content_kind(lowercase(content_type))
    } else {
        extension_kind(lowercase(after_last(path_of(url), '.')))
    }
}

/// The bytes that the entries hold together.
pub open spec fn total_size(entries: Seq<(Url, CachedResource)>) -> int
    decreases entries.len(),
{
    if entries.len() == 0 {
        0
    } else {
        total_size(entries.drop_last()) + entries.last().1.data@.len()
    }
}

/// Whether no two entries have the same URL.
pub open spec fn distinct_keys(entries: Seq<(Url, CachedResource)>) -> bool {
    forall|i: int, j: int|
        0 <= i < j < entries.len() ==> (#[trigger] entries[i]).0 != (#[trigger] entries[j]).0
}

/// Whether an entry has this URL.
pub open spec fn holds(entries: Seq<(Url, CachedResource)>, url: Url) -> bool {
    exists|i: int| 0 <= i < entries.len() && (#[trigger] entries[i]).0 == url
}

/// The place of an entry with this URL, where there is one.
pub open spec fn index_of(entries: Seq<(Url, CachedResource)>, url: Url) -> int {
    choose|i: int| 0 <= i < entries.len() && (#[trigger] entries[i]).0 == url
}

/// The entries without the one that has this URL.
pub open spec fn without(entries: Seq<(Url, CachedResource)>, url: Url) -> Seq<
    (Url, CachedResource),
> {
    if holds(entries, url) {
        entries.remove(index_of(entries, url))
    } else {
        entries
    }
}

/// The entries after the one with this URL was used at the time `stamp`.
pub open spec fn touched(entries: Seq<(Url, CachedResource)>, url: Url, stamp: u64) -> Seq<
    (Url, CachedResource),
> {
    if holds(entries, url) {
        let i = index_of(entries, url);
        entries.update(i, (entries[i].0, CachedResource { last_accessed: stamp, ..entries[i].1 }))
    } else {
        entries
    }
}

/// The place of the entry that was used longest ago: of those with the
/// least time of use, the first.
pub open spec fn oldest(entries: Seq<(Url, CachedResource)>) -> int
    decreases entries.len(),
{
    if entries.len() <= 1 {
        0
    } else {
        let before = oldest(entries.drop_last());
        if entries.last().1.last_accessed < entries[before].1.last_accessed {
            entries.len() - 1
        } else {
            before
        }
    }
}

/// The entries without the one that was used longest ago.
pub open spec fn evicted(entries: Seq<(Url, CachedResource)>) -> Seq<(Url, CachedResource)> {
    if entries.len() == 0 {
        entries
    } else {
        entries.remove(oldest(entries))
    }
}

/// The entries after those used longest ago were given up, one by one,
/// until `size` more bytes fit under `max_size` or nothing was left.
pub open spec fn made_room(entries: Seq<(Url, CachedResource)>, size: int, max_size: int) -> Seq<
    (Url, CachedResource),
>
    decreases entries.len(),
    via made_room_ends
{
    if entries.len() > 0 && total_size(entries) + size > max_size {
        made_room(entries.remove(oldest(entries)), size, max_size)
    } else {
        entries
    }
}

#[via_fn]
proof fn made_room_ends(entries: Seq<(Url, CachedResource)>, size: int, max_size: int) {
    if entries.len() > 0 {
        lemma_oldest_in_range(entries);
    }
}

/// The entries after a resource was handed to a cache of `max_size` bytes
/// under a URL: room is made for it; one larger than the whole cache is
/// then left out; any other takes the place of what the URL had.
pub open spec fn stored(
    entries: Seq<(Url, CachedResource)>,
    url: Url,
    resource: CachedResource,
    max_size: int,
) -> Seq<(Url, CachedResource)> {
    let room = made_room(entries, resource.data@.len() as int, max_size);
    if resource.data@.len() > max_size {
        room
    } else {
        without(room, url).push((url, resource))
    }
}

/// The place of the oldest entry is a place of the entries.
pub proof fn lemma_oldest_in_range(entries: Seq<(Url, CachedResource)>)
    requires
        entries.len() > 0,
    ensures
        0 <= oldest(entries) < entries.len(),
    decreases entries.len(),
{
    if entries.len() > 1 {
        lemma_oldest_in_range(entries.drop_last());
    }
}

/// No entry was used before the oldest, and none that comes before it was
/// used at the same time.
pub proof fn lemma_oldest_is_least(entries: Seq<(Url, CachedResource)>, i: int)
    requires
        0 <= i < entries.len(),
    ensures
        entries[oldest(entries)].1.last_accessed <= entries[i].1.last_accessed,
        i < oldest(entries) ==> entries[oldest(entries)].1.last_accessed
            < entries[i].1.last_accessed,
    decreases entries.len(),
{
    lemma_oldest_in_range(entries);
    if entries.len() > 1 {
        lemma_oldest_in_range(entries.drop_last());
        if i < entries.len() - 1 {
            lemma_oldest_is_least(entries.drop_last(), i);
        } else {
            lemma_oldest_is_least(entries.drop_last(), oldest(entries.drop_last()));
        }
    }
}

proof fn lemma_total_push(entries: Seq<(Url, CachedResource)>, entry: (Url, CachedResource))
    ensures
        total_size(entries.push(entry)) == total_size(entries) + entry.1.data@.len(),
{
    assert(entries.push(entry).drop_last() =~= entries);
}

proof fn lemma_total_nonnegative(entries: Seq<(Url, CachedResource)>)
    ensures
        total_size(entries) >= 0,
    decreases entries.len(),
{
    if entries.len() > 0 {
        lemma_total_nonnegative(entries.drop_last());
    }
}

proof fn lemma_total_remove(entries: Seq<(Url, CachedResource)>, i: int)
    requires
        0 <= i < entries.len(),
    ensures
        total_size(entries.remove(i)) == total_size(entries) - entries[i].1.data@.len(),
        total_size(entries.remove(i)) >= 0,
    decreases entries.len(),
{
    lemma_total_nonnegative(entries.remove(i));
    if i == entries.len() - 1 {
        assert(entries.remove(i) =~= entries.drop_last());
    } else {
        lemma_total_remove(entries.drop_last(), i);
        assert(entries.remove(i).drop_last() =~= entries.drop_last().remove(i));
        assert(entries.remove(i).last() == entries.last());
    }
}

proof fn lemma_total_prefix(entries: Seq<(Url, CachedResource)>, k: int)
    requires
        0 <= k <= entries.len(),
    ensures
        0 <= total_size(entries.subrange(0, k)) <= total_size(entries),
    decreases entries.len(),
{
    lemma_total_nonnegative(entries.subrange(0, k));
    if k == entries.len() {
        assert(entries.subrange(0, k) =~= entries);
    } else {
        lemma_total_prefix(entries.drop_last(), k);
        assert(entries.drop_last().subrange(0, k) =~= entries.subrange(0, k));
    }
}

proof fn lemma_total_update(
    entries: Seq<(Url, CachedResource)>,
    i: int,
    entry: (Url, CachedResource),
)
    requires
        0 <= i < entries.len(),
        entry.1.data == entries[i].1.data,
    ensures
        total_size(entries.update(i, entry)) == total_size(entries),
    decreases entries.len(),
{
    if i == entries.len() - 1 {
        assert(entries.update(i, entry).drop_last() =~= entries.drop_last());
    } else {
        lemma_total_update(entries.drop_last(), i, entry);
        assert(entries.update(i, entry).drop_last() =~= entries.drop_last().update(i, entry));
    }
}

proof fn lemma_distinct_remove(entries: Seq<(Url, CachedResource)>, i: int)
    requires
        0 <= i < entries.len(),
        distinct_keys(entries),
    ensures
        distinct_keys(entries.remove(i)),
        !holds(entries.remove(i), entries[i].0),
{
    let rest = entries.remove(i);
    assert forall|a: int, b: int| 0 <= a < b < rest.len() implies (#[trigger] rest[a]).0 != (
    #[trigger] rest[b]).0 by {
        let a2 = if a < i { a } else { a + 1 };
        let b2 = if b < i { b } else { b + 1 };
        assert(rest[a] == entries[a2] && rest[b] == entries[b2]);
    }
    if holds(rest, entries[i].0) {
        let a = index_of(rest, entries[i].0);
        let a2 = if a < i { a } else { a + 1 };
        assert(rest[a] == entries[a2]);
        if a2 < i {
            assert(entries[a2].0 != entries[i].0);
        } else {
            assert(entries[i].0 != entries[a2].0);
        }
    }
}

proof fn lemma_index_of(entries: Seq<(Url, CachedResource)>, url: Url, i: int)
    requires
        0 <= i < entries.len(),
        distinct_keys(entries),
        entries[i].0 == url,
    ensures
        holds(entries, url),
        index_of(entries, url) == i,
{
    let j = index_of(entries, url);
    if j < i {
        assert(entries[j].0 != entries[i].0);
    } else if i < j {
        assert(entries[i].0 != entries[j].0);
    }
}

/// Internal LRU cache implementation
pub struct ResourceCache {
    /// Maximum cache size in bytes
    pub max_size: usize,
    /// Current cache size in bytes
    pub current_size: usize,
    /// Cached resources, each under its URL
    pub entries: Vec<(Url, CachedResource)>,
}

impl ResourceCache {
    /// Whether the cache is in order: no URL occurs twice, the size is
    /// that of the data held, and it is within the limit.
    pub open spec fn wf(&self) -> bool {
        &&& distinct_keys(self.entries@)
        &&& self.current_size == total_size(self.entries@)
        &&& self.current_size <= self.max_size
    }

    /// Whether the cache is in order.
    pub fn is_well_formed(&self) -> (ok: bool)
        ensures
            ok == self.wf(),
    {
        let ghost all = self.entries@;
        let mut total: usize = 0;
        let mut i: usize = 0;
        while i < self.entries.len()
            invariant
                i <= all.len(),
                all == self.entries@,
                total == total_size(all.subrange(0, i as int)),
                total <= self.max_size,
                distinct_keys(all.subrange(0, i as int)),
            decreases all.len() - i,
        {
            let ghost next = all.subrange(0, i as int + 1);
            proof {
                assert(next.drop_last() =~= all.subrange(0, i as int));
                lemma_total_prefix(all, i as int + 1);
            }
            let size = self.entries[i].1.data.len();
            if size > self.max_size - total {
                return false;
            }
            let mut j: usize = 0;
            while j < i
                invariant
                    j <= i < all.len(),
                    all == self.entries@,
                    forall|k: int| 0 <= k < j ==> (#[trigger] all[k]).0 != all[i as int].0,
                decreases i - j,
            {
                if same_url(&self.entries[j].0, &self.entries[i].0) {
                    assert(all[j as int].0 == all[i as int].0);
                    return false;
                }
                j = j + 1;
            }
            proof {
                assert forall|a: int, b: int| 0 <= a < b < next.len() implies (#[trigger] next[a]).0
                    != (#[trigger] next[b]).0 by {
                    if b < i {
                        assert(all.subrange(0, i as int)[a].0 != all.subrange(0, i as int)[b].0);
                    } else {
                        assert(all[a].0 != all[i as int].0);
                    }
                }
            }
            total = total + size;
            i = i + 1;
        }
        assert(all.subrange(0, all.len() as int) =~= all);
        total == self.current_size
    }

    /// An empty cache for at most `max_size` bytes.
    pub fn new(max_size: usize) -> (cache: Self)
        ensures
            cache.wf(),
            cache.max_size == max_size,
            cache.entries@.len() == 0,
    {
        ResourceCache { max_size, current_size: 0, entries: Vec::new() }
    }

    /// Where the entry with this URL stands.
    fn position(&self, url: &Url) -> (at: Option<usize>)
        requires
            self.wf(),
        ensures
            match at {
                Some(i) => i < self.entries@.len() && holds(self.entries@, *url) && index_of(
                    self.entries@,
                    *url,
                ) == i,
                None => !holds(self.entries@, *url),
            },
    {
        let mut i: usize = 0;
        while i < self.entries.len()
            invariant
                i <= self.entries@.len(),
                distinct_keys(self.entries@),
                forall|j: int| 0 <= j < i ==> (#[trigger] self.entries@[j]).0 != *url,
            decreases self.entries@.len() - i,
        {
            if same_url(&self.entries[i].0, url) {
                proof {
                    lemma_index_of(self.entries@, *url, i as int);
                }
                return Some(i);
            }
            i = i + 1;
        }
        None
    }

    /// The resource under a URL, used at the time `stamp`: a copy of it as
    /// it then stands, or nothing where the cache has none under the URL.
    pub fn get_at(&mut self, url: &Url, stamp: u64) -> (found: Option<CachedResource>)
        requires
            old(self).wf(),
        ensures
            final(self).wf(),
            final(self).max_size == old(self).max_size,
            final(self).current_size == old(self).current_size,
            final(self).entries@ == touched(old(self).entries@, *url, stamp),
            match found {
                Some(resource) => holds(old(self).entries@, *url) && resource@ == final(self).entries@[index_of(old(self).entries@, *url)].1@,
                None => !holds(old(self).entries@, *url),
            },
    {
        match self.position(url) {
            Some(i) => {
                let ghost before = self.entries@;
                let (key, mut resource) = self.entries.remove(i);
                resource.last_accessed = stamp;
                let copy = resource.clone();
                self.entries.insert(i, (key, resource));
                proof {
                    assert(self.entries@ =~= before.update(i as int, (key, resource)));
                    lemma_total_update(before, i as int, (key, resource));
                    assert forall|a: int, b: int|
                        0 <= a < b < self.entries@.len() implies (#[trigger] self.entries@[a]).0
                        != (#[trigger] self.entries@[b]).0 by {
                        assert(before[a].0 != before[b].0);
                    }
                }
                Some(copy)
            },
            None => None,
        }
    }

    /// The resource under a URL, used now: as `get_at` with the time that
    /// the system clock shows.
    pub fn get(&mut self, url: &Url) -> (found: Option<CachedResource>)
        requires
            old(self).wf(),
        ensures
            final(self).wf(),
            final(self).max_size == old(self).max_size,
            final(self).current_size == old(self).current_size,
            exists|stamp: u64|
                final(self).entries@ == #[trigger] touched(old(self).entries@, *url, stamp),
            match found {
                Some(resource) => holds(old(self).entries@, *url) && resource@ == final(self).entries@[index_of(old(self).entries@, *url)].1@,
                None => !holds(old(self).entries@, *url),
            },
    {
        let stamp = current_timestamp();
        self.get_at(url, stamp)
    }

    /// Hands a resource to the cache under a URL. Entries are given up,
    /// the one used longest ago first, until the resource fits or nothing
    /// is left; a resource larger than the whole cache is then not kept;
    /// any other takes the place of what the URL had.
    pub fn put(&mut self, url: Url, resource: CachedResource)
        requires
            old(self).wf(),
        ensures
            final(self).wf(),
            final(self).max_size == old(self).max_size,
            final(self).entries@ == stored(
                old(self).entries@,
                url,
                resource,
                old(self).max_size as int,
            ),
    {
        let resource_size = resource.data.len();
        while !self.entries.is_empty() && resource_size > self.max_size - self.current_size
            invariant
                self.wf(),
                self.max_size == old(self).max_size,
                resource_size == resource.data@.len(),
                made_room(self.entries@, resource_size as int, self.max_size as int) == made_room(
                    old(self).entries@,
                    resource_size as int,
                    self.max_size as int,
                ),
            decreases self.entries@.len(),
        {
            proof {
                lemma_oldest_in_range(self.entries@);
            }
            self.evict_lru();
        }
        proof {
            assert(total_size(Seq::<(Url, CachedResource)>::empty()) == 0);
            if self.entries@.len() == 0 {
                assert(self.entries@ =~= Seq::<(Url, CachedResource)>::empty());
            }
        }
        if resource_size > self.max_size {
            return ;
        }
        match self.position(&url) {
            Some(i) => {
                proof {
                    lemma_total_remove(self.entries@, i as int);
                    lemma_distinct_remove(self.entries@, i as int);
                }
                let replaced = self.entries.remove(i);
                self.current_size = self.current_size - replaced.1.data.len();
            },
            None => {},
        }
        proof {
            lemma_total_push(self.entries@, (url, resource));
            let kept = self.entries@;
            assert forall|a: int, b: int| 0 <= a < b < kept.push((url, resource)).len() implies (
            #[trigger] kept.push((url, resource))[a]).0 != (#[trigger] kept.push(
                (url, resource),
            )[b]).0 by {
                if b < kept.len() {
                    assert(kept[a].0 != kept[b].0);
                } else {
                    assert(kept[a].0 != url);
                }
            }
        }
        self.current_size = self.current_size + resource_size;
        self.entries.push((url, resource));
    }

    /// Gives up the entry that was used longest ago, where there is one.
    pub fn evict_lru(&mut self)
        requires
            old(self).wf(),
        ensures
            final(self).wf(),
            final(self).max_size == old(self).max_size,
            final(self).entries@ == evicted(old(self).entries@),
    {
        if self.entries.is_empty() {
            return ;
        }
        let mut best: usize = 0;
        let mut i: usize = 1;
        while i < self.entries.len()
            invariant
                1 <= i <= self.entries@.len(),
                best < i,
                best == oldest(self.entries@.subrange(0, i as int)),
            decreases self.entries@.len() - i,
        {
            proof {
                assert(self.entries@.subrange(0, i as int + 1).drop_last() =~= self.entries@.subrange(
                    0,
                    i as int,
                ));
            }
            if self.entries[i].1.last_accessed < self.entries[best].1.last_accessed {
                best = i;
            }
            i = i + 1;
        }
        proof {
            assert(self.entries@.subrange(0, self.entries@.len() as int) =~= self.entries@);
            lemma_total_remove(self.entries@, best as int);
            lemma_distinct_remove(self.entries@, best as int);
        }
        let removed = self.entries.remove(best);
        self.current_size = self.current_size - removed.1.data.len();
    }

    /// Gives up every entry.
    pub fn clear(&mut self)
        ensures
            final(self).wf(),
            final(self).max_size == old(self).max_size,
            final(self).entries@.len() == 0,
    {
        self.entries.clear();
        self.current_size = 0;
    }
}

/// The bytes that a loader's cache holds unless told otherwise: 50 MB.
pub const DEFAULT_CACHE_SIZE: usize = 52_428_800;

/// Resource loader with LRU caching: it keeps what was loaded, and decides
/// what a response is kept as. Fetching is left to the caller.
pub struct ResourceLoader {
    pub cache: ResourceCache,
}

impl ResourceLoader {
    /// Whether the loader's cache is in order.
    pub open spec fn wf(&self) -> bool {
        self.cache.wf()
    }

    /// Whether the loader's cache is in order.
    pub fn is_well_formed(&self) -> (ok: bool)
        ensures
            ok == self.wf(),
    {
        self.cache.is_well_formed()
    }

    /// Create a new resource loader with specified cache capacity (in bytes)
    pub fn new(cache_size: usize) -> (loader: Self)
        ensures
            loader.wf(),
            loader.cache.max_size == cache_size,
            loader.cache.entries@.len() == 0,
    {
        ResourceLoader { cache: ResourceCache::new(cache_size) }
    }

    /// Create a resource loader with default 50MB cache
    pub fn with_default_cache() -> (loader: Self)
        ensures
            loader.wf(),
            loader.cache.max_size == DEFAULT_CACHE_SIZE,
            loader.cache.entries@.len() == 0,
    {
        ResourceLoader::new(DEFAULT_CACHE_SIZE)
    }

    /// The resource that the cache holds under a URL, used now: what a
    /// load gives without fetching.
    pub fn load_cached(&mut self, url: &Url) -> (found: Option<CachedResource>)
        requires
            old(self).wf(),
        ensures
            final(self).wf(),
            final(self).cache.max_size == old(self).cache.max_size,
            exists|stamp: u64|
                final(self).cache.entries@ == #[trigger] touched(
                    old(self).cache.entries@,
                    *url,
                    stamp,
                ),
            found is Some <==> holds(old(self).cache.entries@, *url),
    {
        self.cache.get(url)
    }

    /// Takes in what was fetched, at the time `stamp`: the resource that
    /// the response gives is handed to the cache under its URL, and a copy
    /// of it is returned.
    pub fn store_response(
        &mut self,
        url: Url,
        content_type: String,
        data: Vec<u8>,
        stamp: u64,
    ) -> (resource: CachedResource)
        requires
            old(self).wf(),
        ensures
            final(self).wf(),
            final(self).cache.max_size == old(self).cache.max_size,
            resource@ == (ResourceModel {
                url,
                resource_type: response_kind(url, content_type@),
                content_type: content_type@,
                data: data@,
                last_accessed: stamp,
            }),
            exists|kept: CachedResource|
                kept@ == resource@ && final(self).cache.entries@ == #[trigger] stored(
                    old(self).cache.entries@,
                    url,
                    kept,
                    old(self).cache.max_size as int,
                ),
    {
        let key = clone_url(&url);
        let kept = CachedResource::from_response(url, content_type, data, stamp);
        let resource = kept.clone();
        self.cache.put(key, kept);
        resource
    }

    /// Clear the cache
    pub fn clear_cache(&mut self)
        ensures
            final(self).wf(),
            final(self).cache.max_size == old(self).cache.max_size,
            final(self).cache.entries@.len() == 0,
    {
        self.cache.clear();
    }

    /// Get current cache size in bytes
    pub fn cache_size(&self) -> (size: usize)
        ensures
            size == self.cache.current_size,
    {
        self.cache.current_size
    }

    /// Get number of cached resources
    pub fn cache_count(&self) -> (count: usize)
        ensures
            count == self.cache.entries@.len(),
    {
        self.cache.entries.len()
    }
}

} // verus!
