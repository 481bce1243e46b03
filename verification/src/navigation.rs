//! The history of the pages that were visited, and bookmarks.

use vstd::prelude::*;
use crate::clock::now;
use crate::layout::sums::min_int;
use crate::urls::same_url;
use url::Url;
use std::collections::VecDeque;
use std::time::SystemTime;

verus! {

/// The number of entries that a history keeps unless told otherwise.
pub const DEFAULT_HISTORY_SIZE: usize = 100;

/// A single entry in the navigation history
#[derive(Debug)]
pub struct HistoryEntry {
    pub url: Url,
    pub title: Option<String>,
    pub timestamp: SystemTime,
}

/// Represents a browser's navigation history
#[derive(Debug)]
pub struct NavigationHistory {
    /// History entries (URLs visited)
    entries: VecDeque<HistoryEntry>,
    /// Current position in history (index into entries)
    current_index: usize,
    /// Maximum history size
    max_size: usize,
}

/// A history as a mathematical value.
pub struct HistoryView {
    /// The entries, oldest first
    pub entries: Seq<HistoryEntry>,
    pub current_index: usize,
    pub max_size: usize,
}

impl View for NavigationHistory {
    type V = HistoryView;

    closed spec fn view(&self) -> HistoryView {
        HistoryView {
            entries: self.entries@,
            current_index: self.current_index,
            max_size: self.max_size,
        }
    }
}

impl HistoryView {
    /// The entries that stay when a new page is visited: those up to the
    /// current one where entries stand behind it, and all of them else.
    pub open spec fn kept(self) -> Seq<HistoryEntry> {
        if self.current_index < self.entries.len() - 1 {
            self.entries.subrange(0, self.current_index + 1)
        } else {
            self.entries
        }
    }

    /// The history after a visit that gave `entry`: the entry stands behind
    /// the entries that stay; the oldest entry is gone where there are then
    /// more than the history keeps; the last entry is the current one.
    pub open spec fn after_navigate(self, entry: HistoryEntry) -> HistoryView {
        let all = self.kept().push(entry);
        if all.len() > self.max_size {
            HistoryView {
                entries: all.subrange(1, all.len() as int),
                current_index: if self.max_size >= 1 {
                    (self.max_size - 1) as usize
                } else {
                    0
                },
                max_size: self.max_size,
            }
        } else {
            HistoryView {
                entries: all,
                current_index: (all.len() - 1) as usize,
                max_size: self.max_size,
            }
        }
    }
}

impl NavigationHistory {
    /// Create a new navigation history
    pub fn new() -> (history: Self)
        ensures
            history@ == (HistoryView {
                entries: Seq::empty(),
                current_index: 0,
                max_size: DEFAULT_HISTORY_SIZE,
            }),
    {
        NavigationHistory::with_capacity(DEFAULT_HISTORY_SIZE)
    }

    /// Create a new navigation history with a maximum size
    pub fn with_capacity(max_size: usize) -> (history: Self)
        ensures
            history@ == (HistoryView { entries: Seq::empty(), current_index: 0, max_size }),
    {
        NavigationHistory { entries: VecDeque::new(), current_index: 0, max_size }
    }

    /// Navigate to a new URL. The visit gives an entry with the URL, no
    /// title and the time of the call.
    pub fn navigate_to(&mut self, url: Url)
        ensures
            exists|entry: HistoryEntry|
                entry.url == url && entry.title.is_none() && final(self)@ == #[trigger] old(self)@.after_navigate(entry),
    {
        let count = self.entries.len();
        if count >= 1 && self.current_index < count - 1 {
            self.entries.truncate(self.current_index + 1);
        }
        let entry = HistoryEntry { url, title: None, timestamp: now() };
        let ghost kept = self.entries@;
        assert(kept =~= old(self)@.kept());
        self.entries.push_back(entry);
        let ghost all = self.entries@;
        assert(all =~= kept.push(entry));
        if self.entries.len() > self.max_size {
            self.entries.pop_front();
            assert(self.entries@ =~= all.subrange(1, all.len() as int));
            self.current_index = if self.max_size >= 1 {
                self.max_size - 1
            } else {
                0
            };
        } else {
            self.current_index = self.entries.len() - 1;
        }
        assert(self@ == old(self)@.after_navigate(entry));
    }

    /// Go back in history if possible, and give the entry that is then the
    /// current one.
    pub fn go_back(&mut self) -> (entry: Option<&HistoryEntry>)
        ensures
            final(self)@.entries == old(self)@.entries,
            final(self)@.max_size == old(self)@.max_size,
            final(self)@.current_index == if old(self)@.current_index > 0 {
                (old(self)@.current_index - 1) as usize
            } else {
                0
            },
            match entry {
                Some(e) => old(self)@.current_index > 0 && final(self)@.current_index < final(self)@.entries.len() && *e == final(self)@.entries[final(self)@.current_index as int],
                None => old(self)@.current_index == 0 || final(self)@.current_index >= final(self)@.entries.len(),
            },
    {
        if self.can_go_back() {
            self.current_index = self.current_index - 1;
            self.current_entry()
        } else {
            None
        }
    }

    /// Go forward in history if possible, and give the entry that is then
    /// the current one.
    pub fn go_forward(&mut self) -> (entry: Option<&HistoryEntry>)
        ensures
            final(self)@.entries == old(self)@.entries,
            final(self)@.max_size == old(self)@.max_size,
            match entry {
                Some(e) => old(self)@.current_index + 1 < old(self)@.entries.len() && final(self)@.current_index == old(self)@.current_index + 1 && *e == final(self)@.entries[final(self)@.current_index as int],
                None => old(self)@.current_index + 1 >= old(self)@.entries.len() && final(self)@.current_index == old(self)@.current_index,
            },
    {
        if self.can_go_forward() {
            let count = self.entries.len();
            assert(self.current_index + 1 < count);
            self.current_index = self.current_index + 1;
            self.current_entry()
        } else {
            None
        }
    }

    /// Check if can go back
    pub fn can_go_back(&self) -> (can: bool)
        ensures
            can == (self@.current_index > 0),
    {
        self.current_index > 0
    }

    /// Check if can go forward
    pub fn can_go_forward(&self) -> (can: bool)
        ensures
            can == (self@.current_index + 1 < self@.entries.len()),
    {
        self.entries.len() > 0 && self.current_index < self.entries.len() - 1
    }

    /// Get current entry
    pub fn current_entry(&self) -> (entry: Option<&HistoryEntry>)
        ensures
            match entry {
                Some(e) => self@.current_index < self@.entries.len() && *e
                    == self@.entries[self@.current_index as int],
                None => self@.current_index >= self@.entries.len(),
            },
    {
        if self.current_index < self.entries.len() {
            Some(&self.entries[self.current_index])
        } else {
            None
        }
    }

    /// Get current URL
    pub fn current_url(&self) -> (url: Option<&Url>)
        ensures
            match url {
                Some(u) => self@.current_index < self@.entries.len() && *u
                    == self@.entries[self@.current_index as int].url,
                None => self@.current_index >= self@.entries.len(),
            },
    {
        match self.current_entry() {
            Some(e) => Some(&e.url),
            None => None,
        }
    }

    /// Update the title of the current entry
    pub fn update_current_title(&mut self, title: String)
        ensures
            final(self)@.current_index == old(self)@.current_index,
            final(self)@.max_size == old(self)@.max_size,
            final(self)@.entries.len() == old(self)@.entries.len(),
            forall|i: int|
                0 <= i < old(self)@.entries.len() && i != old(self)@.current_index ==> final(self)@.entries[i] == old(self)@.entries[i],
            old(self)@.current_index < old(self)@.entries.len() ==> {
                let before = old(self)@.entries[old(self)@.current_index as int];
                let after = final(self)@.entries[old(self)@.current_index as int];
                after.title == Some(title) && after.url == before.url && after.timestamp
                    == before.timestamp
            },
    {
        if self.current_index < self.entries.len() {
            let index = self.current_index;
            let mut entry = match self.entries.remove(index) {
                Some(e) => e,
                None => {
                    return ;
                },
            };
            entry.title = Some(title);
            self.entries.insert(index, entry);
        }
    }

    /// Get all history entries
    pub fn entries(&self) -> (entries: &VecDeque<HistoryEntry>)
        ensures
            entries@ == self@.entries,
    {
        &self.entries
    }

    /// Get current index
    pub fn current_index(&self) -> (index: usize)
        ensures
            index == self@.current_index,
    {
        self.current_index
    }

    /// Clear all history
    pub fn clear(&mut self)
        ensures
            final(self)@ == (HistoryView {
                entries: Seq::empty(),
                current_index: 0,
                max_size: old(self)@.max_size,
            }),
    {
        self.entries.clear();
        self.current_index = 0;
    }

    /// Get recent history (last N entries), the newest first.
    pub fn recent(&self, count: usize) -> (found: Vec<&HistoryEntry>)
        ensures
            found@.len() == min_int(count as int, self@.entries.len() as int),
            forall|i: int|
                0 <= i < found@.len() ==> *(#[trigger] found@[i]) == self@.entries[self@.entries.len()
                    - 1 - i],
    {
        let mut found: Vec<&HistoryEntry> = Vec::new();
        let total = self.entries.len();
        let mut i: usize = 0;
        while i < count && i < total
            invariant
                total == self.entries@.len(),
                i <= count,
                i <= total,
                found@.len() == i,
                forall|j: int|
                    0 <= j < i ==> *(#[trigger] found@[j]) == self.entries@[total - 1 - j],
            decreases total - i,
        {
            found.push(&self.entries[total - 1 - i]);
            i = i + 1;
        }
        found
    }
}

impl Default for NavigationHistory {
    fn default() -> (history: Self)
        ensures
            history@ == (HistoryView {
                entries: Seq::empty(),
                current_index: 0,
                max_size: DEFAULT_HISTORY_SIZE,
            }),
    {
        NavigationHistory::new()
    }
}

/// A bookmark
#[derive(Debug)]
pub struct Bookmark {
    pub url: Url,
    pub title: String,
    pub created_at: SystemTime,
}

/// Bookmark manager
#[derive(Debug)]
pub struct BookmarkManager {
    bookmarks: Vec<Bookmark>,
}

impl View for BookmarkManager {
    type V = Seq<Bookmark>;

    closed spec fn view(&self) -> Seq<Bookmark> {
        self.bookmarks@
    }
}

/// Whether one of the first `k` bookmarks is for a URL.
pub open spec fn bookmarked_before(bookmarks: Seq<Bookmark>, url: Url, k: int) -> bool {
    exists|i: int| 0 <= i < k && i < bookmarks.len() && (#[trigger] bookmarks[i]).url == url
}

/// Those of the first `k` bookmarks that are not for a URL, in order.
pub open spec fn bookmarks_without(bookmarks: Seq<Bookmark>, url: Url, k: int) -> Seq<
    Bookmark,
>
    decreases k,
{
    if k <= 0 || k > bookmarks.len() {
        Seq::empty()
    } else if bookmarks[k - 1].url == url {
        bookmarks_without(bookmarks, url, k - 1)
    } else {
        bookmarks_without(bookmarks, url, k - 1).push(bookmarks[k - 1])
    }
}

/// There are as many bookmarks without a URL as bookmarks exactly where
/// none of them is for the URL.
pub proof fn lemma_bookmarks_without(bookmarks: Seq<Bookmark>, url: Url, k: int)
    requires
        0 <= k <= bookmarks.len(),
    ensures
        bookmarks_without(bookmarks, url, k).len() <= k,
        bookmarks_without(bookmarks, url, k).len() < k <==> bookmarked_before(bookmarks, url, k),
    decreases k,
{
    if k > 0 {
        lemma_bookmarks_without(bookmarks, url, k - 1);
        if bookmarked_before(bookmarks, url, k - 1) {
            let i = choose|i: int|
                0 <= i < k - 1 && i < bookmarks.len() && (#[trigger] bookmarks[i]).url == url;
            assert(0 <= i < k && bookmarks[i].url == url);
        }
        if bookmarks[k - 1].url == url {
            assert(0 <= k - 1 < k && bookmarks[k - 1].url == url);
        }
        if bookmarked_before(bookmarks, url, k) {
            let i = choose|i: int|
                0 <= i < k && i < bookmarks.len() && (#[trigger] bookmarks[i]).url == url;
            if i < k - 1 {
                assert(0 <= i < k - 1 && bookmarks[i].url == url);
            }
        }
    }
}

impl BookmarkManager {
    /// Create a new bookmark manager
    pub fn new() -> (manager: Self)
        ensures
            manager@ == Seq::<Bookmark>::empty(),
    {
        BookmarkManager { bookmarks: Vec::new() }
    }

    /// Add a bookmark, created at the time of the call. Says whether it was
    /// added: a URL is bookmarked once.
    pub fn add(&mut self, url: Url, title: String) -> (added: bool)
        ensures
            added == !bookmarked_before(old(self)@, url, old(self)@.len() as int),
            if added {
                &&& final(self)@.len() == old(self)@.len() + 1
                &&& final(self)@.subrange(0, old(self)@.len() as int) == old(self)@
                &&& final(self)@.last().url == url
                &&& final(self)@.last().title == title
            } else {
                final(self)@ == old(self)@
            },
    {
        if self.is_bookmarked(&url) {
            return false;
        }
        self.bookmarks.push(Bookmark { url, title, created_at: now() });
        assert(self@.subrange(0, old(self)@.len() as int) =~= old(self)@);
        true
    }

    /// Remove the bookmarks for a URL. Says whether there was one.
    pub fn remove(&mut self, url: &Url) -> (removed: bool)
        ensures
            removed == bookmarked_before(old(self)@, *url, old(self)@.len() as int),
            final(self)@ == bookmarks_without(old(self)@, *url, old(self)@.len() as int),
    {
        let ghost given = self.bookmarks@;
        let len_before = self.bookmarks.len();
        let mut rest: Vec<Bookmark> = Vec::new();
        core::mem::swap(&mut self.bookmarks, &mut rest);
        let mut reversed: Vec<Bookmark> = Vec::new();
        while rest.len() > 0
            invariant
                rest@.len() + reversed@.len() == given.len(),
                forall|j: int| 0 <= j < rest@.len() ==> #[trigger] rest@[j] == given[j],
                forall|j: int|
                    0 <= j < reversed@.len() ==> #[trigger] reversed@[j] == given[given.len() - 1
                        - j],
            decreases rest@.len(),
        {
            let bookmark = rest.pop().unwrap();
            reversed.push(bookmark);
        }
        let mut i: usize = 0;
        while reversed.len() > 0
            invariant
                reversed@.len() + i == given.len(),
                given.len() == len_before,
                forall|j: int|
                    0 <= j < reversed@.len() ==> #[trigger] reversed@[j] == given[given.len() - 1
                        - j],
                self.bookmarks@ == bookmarks_without(given, *url, i as int),
            decreases reversed@.len(),
        {
            let bookmark = reversed.pop().unwrap();
            assert(bookmark == given[i as int]);
            if !same_url(&bookmark.url, url) {
                self.bookmarks.push(bookmark);
            }
            i = i + 1;
        }
        proof {
            lemma_bookmarks_without(given, *url, given.len() as int);
        }
        self.bookmarks.len() < len_before
    }

    /// Check if a URL is bookmarked
    pub fn is_bookmarked(&self, url: &Url) -> (held: bool)
        ensures
            held == bookmarked_before(self@, *url, self@.len() as int),
    {
        let mut i: usize = 0;
        while i < self.bookmarks.len()
            invariant
                i <= self.bookmarks@.len(),
                !bookmarked_before(self@, *url, i as int),
            decreases self.bookmarks@.len() - i,
        {
            if same_url(&self.bookmarks[i].url, url) {
                assert(0 <= i < self@.len() && self@[i as int].url == *url);
                return true;
            }
            proof {
                if bookmarked_before(self@, *url, i as int + 1) {
                    let j = choose|j: int|
                        0 <= j < i + 1 && j < self@.len() && (#[trigger] self@[j]).url == *url;
                    if j < i {
                        assert(0 <= j < i && self@[j].url == *url);
                    }
                }
            }
            i = i + 1;
        }
        false
    }

    /// Get all bookmarks, in the order in which they were added.
    pub fn all(&self) -> (bookmarks: &[Bookmark])
        ensures
            bookmarks@ == self@,
    {
        self.bookmarks.as_slice()
    }

    /// Clear all bookmarks
    pub fn clear(&mut self)
        ensures
            final(self)@ == Seq::<Bookmark>::empty(),
    {
        self.bookmarks.clear();
    }
}

impl Default for BookmarkManager {
    fn default() -> (manager: Self)
        ensures
            manager@ == Seq::<Bookmark>::empty(),
    {
        BookmarkManager::new()
    }
}

} // verus!
