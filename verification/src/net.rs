//! What comes over the network: the errors of loading, the cache of what
//! was loaded, what a page asks to be loaded, and the URLs that were
//! visited.

use vstd::prelude::*;
use url::Url;

pub mod page_loader;
pub mod resource_loader;

verus! {

/// Network errors
#[derive(Debug)]
pub enum NetError {
    InvalidUrl(String),
    RequestFailed(String),
    Timeout,
    NetworkError(String),
    ParseError(String),
}

impl NetError {
    /// The text of the error: what failed, and behind a colon the message
    /// where it has one.
    pub fn to_string(&self) -> (text: String)
        ensures
            text@ == match *self {
                NetError::InvalidUrl(msg) => "Invalid URL: "@ + msg@,
                NetError::RequestFailed(msg) => "Request failed: "@ + msg@,
                NetError::Timeout => "Request timed out"@,
                NetError::NetworkError(msg) => "Network error: "@ + msg@,
                NetError::ParseError(msg) => "Parse error: "@ + msg@,
            },
    {
        match self {
            NetError::InvalidUrl(msg) => String::from_str("Invalid URL: ").concat(msg.as_str()),
            NetError::RequestFailed(msg) => String::from_str("Request failed: ").concat(
                msg.as_str(),
            ),
            NetError::Timeout => String::from_str("Request timed out"),
            NetError::NetworkError(msg) => String::from_str("Network error: ").concat(msg.as_str()),
            NetError::ParseError(msg) => String::from_str("Parse error: ").concat(msg.as_str()),
        }
    }
}

/// Navigation history manager
pub struct Navigator {
    history: Vec<Url>,
    current_index: usize,
}

/// The visited URLs as a mathematical value: the URLs, oldest first, and
/// the place of the current one among them (0 where there is none yet).
pub struct VisitedView {
    pub urls: Seq<Url>,
    pub current: int,
}

impl VisitedView {
    /// The URLs that stay when a new one is visited: those up to the
    /// current one.
    pub open spec fn kept(self) -> Seq<Url> {
        if self.current + 1 <= self.urls.len() {
            self.urls.subrange(0, self.current + 1)
        } else {
            self.urls
        }
    }
}

impl View for Navigator {
    type V = VisitedView;

    closed spec fn view(&self) -> VisitedView {
        VisitedView { urls: self.history@, current: self.current_index as int }
    }
}

impl Navigator {
    /// The current place lies among the URLs, or there are none and it
    /// is 0.
    pub open spec fn wf(&self) -> bool {
        0 <= self@.current && (self@.current < self@.urls.len() || (self@.urls.len() == 0
            && self@.current == 0))
    }

    /// Whether the current place lies where it should.
    pub fn is_well_formed(&self) -> (ok: bool)
        ensures
            ok == self.wf(),
    {
        let count = self.history.len();
        self.current_index < count || (count == 0 && self.current_index == 0)
    }

    /// Create a new navigator
    pub fn new() -> (navigator: Self)
        ensures
            navigator.wf(),
            navigator@.urls.len() == 0,
            navigator@.current == 0,
    {
        Navigator { history: Vec::new(), current_index: 0 }
    }

    /// Navigate to a URL: the URLs behind the current one are forgotten,
    /// and the new URL becomes the last and the current one.
    pub fn navigate_to(&mut self, url: Url)
        requires
            old(self).wf(),
        ensures
            final(self).wf(),
            final(self)@.urls == old(self)@.kept().push(url),
            final(self)@.current == final(self)@.urls.len() - 1,
    {
        let count = self.history.len();
        if self.current_index < count {
            self.history.truncate(self.current_index + 1);
        }
        self.history.push(url);
        self.current_index = self.history.len() - 1;
    }

    /// Go back in history, and give the URL that is then the current one.
    /// None at the first URL, and where there is none.
    pub fn back(&mut self) -> (url: Option<&Url>)
        requires
            old(self).wf(),
        ensures
            final(self).wf(),
            final(self)@.urls == old(self)@.urls,
            match url {
                Some(u) => old(self)@.current > 0 && final(self)@.current == old(self)@.current - 1
                    && *u == old(self)@.urls[old(self)@.current - 1],
                None => old(self)@.current == 0 && final(self)@.current == 0,
            },
    {
        if self.current_index > 0 {
            self.current_index = self.current_index - 1;
            Some(&self.history[self.current_index])
        } else {
            None
        }
    }

    /// Go forward in history, and give the URL that is then the current
    /// one. None at the last URL, and where there is none.
    pub fn forward(&mut self) -> (url: Option<&Url>)
        requires
            old(self).wf(),
        ensures
            final(self).wf(),
            final(self)@.urls == old(self)@.urls,
            match url {
                Some(u) => old(self)@.current + 1 < old(self)@.urls.len() && final(self)@.current
                    == old(self)@.current + 1 && *u == old(self)@.urls[old(self)@.current + 1],
                None => old(self)@.current + 1 >= old(self)@.urls.len() && final(self)@.current
                    == old(self)@.current,
            },
    {
        let count = self.history.len();
        if count > 0 && self.current_index < count - 1 {
            self.current_index = self.current_index + 1;
            Some(&self.history[self.current_index])
        } else {
            None
        }
    }

    /// Get current URL
    pub fn current(&self) -> (url: Option<&Url>)
        ensures
            match url {
                Some(u) => self@.current < self@.urls.len() && *u == self@.urls[self@.current],
                None => self@.current >= self@.urls.len(),
            },
    {
        if self.current_index < self.history.len() {
            Some(&self.history[self.current_index])
        } else {
            None
        }
    }

    /// Check if can go back
    pub fn can_go_back(&self) -> (can: bool)
        ensures
            can == (self@.current > 0),
    {
        self.current_index > 0
    }

    /// Check if can go forward
    pub fn can_go_forward(&self) -> (can: bool)
        ensures
            can == (self@.current + 1 < self@.urls.len()),
    {
        let count = self.history.len();
        count > 0 && self.current_index < count - 1
    }
}

impl Default for Navigator {
    fn default() -> (navigator: Self)
        ensures
            navigator.wf(),
            navigator@.urls.len() == 0,
            navigator@.current == 0,
    {
        Navigator::new()
    }
}

} // verus!
