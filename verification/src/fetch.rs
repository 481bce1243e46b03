//! The fetch interface: requests, responses and headers.

use vstd::prelude::*;
use crate::string_map::{assoc, lemma_assoc_at, StringMap};
use crate::text::{copy_bytes, from_utf8, lowercase, to_lowercase, views};
use vstd::utf8::{encode_utf8, valid_utf8};

verus! {

/// HTTP method
#[derive(Debug, Clone, Copy, PartialEq, Eq, Structural)]
pub enum Method {
    Get,
    Post,
    Put,
    Delete,
    Patch,
    Head,
    Options,
}

/// Request mode
#[derive(Debug, Clone, Copy, PartialEq, Eq, Structural)]
pub enum RequestMode {
    SameOrigin,
    Cors,
    NoCors,
    Navigate,
}

/// Request credentials mode
#[derive(Debug, Clone, Copy, PartialEq, Eq, Structural)]
pub enum RequestCredentials {
    Omit,
    SameOrigin,
    Include,
}

/// Request cache mode
#[derive(Debug, Clone, Copy, PartialEq, Eq, Structural)]
pub enum RequestCache {
    Default,
    NoStore,
    Reload,
    NoCache,
    ForceCache,
    OnlyIfCached,
}

/// Request redirect mode
#[derive(Debug, Clone, Copy, PartialEq, Eq, Structural)]
pub enum RequestRedirect {
    Follow,
    Error,
    Manual,
}

/// Response type
#[derive(Debug, Clone, Copy, PartialEq, Eq, Structural)]
pub enum ResponseType {
    Basic,
    Cors,
    Error,
    Opaque,
    OpaqueRedirect,
}

/// Fetch error
#[derive(Debug, Clone, Copy, PartialEq, Eq, Structural)]
pub enum FetchError {
    NetworkError,
    InvalidUrl,
    CorsError,
    BodyUsed,
    InvalidBody,
    InvalidRedirect,
    Timeout,
    Aborted,
}

impl FetchError {
    /// The text of the error.
    pub fn to_string(&self) -> (text: String)
        ensures
            text@ == match *self {
                FetchError::NetworkError => "Network error"@,
                FetchError::InvalidUrl => "Invalid URL"@,
                FetchError::CorsError => "CORS error"@,
                FetchError::BodyUsed => "Body already used"@,
                FetchError::InvalidBody => "Invalid body"@,
                FetchError::InvalidRedirect => "Invalid redirect status"@,
                FetchError::Timeout => "Request timeout"@,
                FetchError::Aborted => "Request aborted"@,
            },
    {
        match self {
            FetchError::NetworkError => String::from_str("Network error"),
            FetchError::InvalidUrl => String::from_str("Invalid URL"),
            FetchError::CorsError => String::from_str("CORS error"),
            FetchError::BodyUsed => String::from_str("Body already used"),
            FetchError::InvalidBody => String::from_str("Invalid body"),
            FetchError::InvalidRedirect => String::from_str("Invalid redirect status"),
            FetchError::Timeout => String::from_str("Request timeout"),
            FetchError::Aborted => String::from_str("Request aborted"),
        }
    }
}

/// HTTP Headers. Names count whatever the case of their letters: a header
/// is kept under the lower-case form of its name.
#[derive(Debug)]
pub struct Headers {
    headers: StringMap<String>,
}

impl View for Headers {
    type V = Map<Seq<char>, String>;

    closed spec fn view(&self) -> Map<Seq<char>, String> {
        self.headers@
    }
}

impl Headers {
    /// The lower-case names, in the order in which they were first set.
    pub closed spec fn names(&self) -> Seq<Seq<char>> {
        self.headers.keys()
    }

    /// No headers.
    pub fn new() -> (headers: Self)
        ensures
            headers@ == Map::<Seq<char>, String>::empty(),
            headers.names() == Seq::<Seq<char>>::empty(),
    {
        Headers { headers: StringMap::new() }
    }

    /// Adds a value to a header: behind the value that the header has, with
    /// a comma and a space between the two, or as its first value.
    pub fn append(&mut self, name: String, value: String)
        ensures
            final(self)@.dom() == old(self)@.dom().insert(lowercase(name@)),
            final(self)@[lowercase(name@)]@ == if old(self)@.contains_key(lowercase(name@)) {
                old(self)@[lowercase(name@)]@ + ", "@ + value@
            } else {
                value@
            },
            forall|k: Seq<char>|
                old(self)@.contains_key(k) && k != lowercase(name@) ==> #[trigger] final(self)@[k]
                    == old(self)@[k],
    {
        let key = to_lowercase(name.as_str());
        let count = self.headers.len();
        assert(count == self.names().len());
        match self.headers.position(key.as_str()) {
            Some(i) => {
                proof {
                    lemma_assoc_at(self.headers.keys(), self.headers.values(), i as int);
                }
                let existing = self.headers.value_at(i).clone();
                let joined = existing.concat(", ").concat(value.as_str());
                self.headers.set_value_at(i, joined);
                assert(self@.dom() =~= old(self)@.dom().insert(lowercase(name@)));
            },
            None => {
                self.headers.insert(key, value);
                assert(self@.dom() =~= old(self)@.dom().insert(lowercase(name@)));
            },
        }
    }

    /// Takes a header out.
    pub fn delete(&mut self, name: &str)
        ensures
            final(self)@ == old(self)@.remove(lowercase(name@)),
    {
        let key = to_lowercase(name);
        self.headers.remove(key.as_str());
    }

    /// The value of a header.
    pub fn get(&self, name: &str) -> (value: Option<&str>)
        ensures
            match value {
                Some(v) => self@.contains_key(lowercase(name@)) && v@ == self@[lowercase(name@)]@,
                None => !self@.contains_key(lowercase(name@)),
            },
    {
        let key = to_lowercase(name);
        match self.headers.get(key.as_str()) {
            Some(v) => Some(v.as_str()),
            None => None,
        }
    }

    /// Whether there is such a header.
    pub fn has(&self, name: &str) -> (held: bool)
        ensures
            held == self@.contains_key(lowercase(name@)),
    {
        let key = to_lowercase(name);
        self.headers.contains_key(key.as_str())
    }

    /// Gives a header a value, in the place of the value that it has.
    pub fn set(&mut self, name: String, value: String)
        ensures
            final(self)@ == old(self)@.insert(lowercase(name@), value),
            final(self).names() == if old(self)@.contains_key(lowercase(name@)) {
                old(self).names()
            } else {
                old(self).names().push(lowercase(name@))
            },
    {
        let key = to_lowercase(name.as_str());
        self.headers.insert(key, value);
    }

    /// The names of the headers, in the order in which they were first
    /// set.
    pub fn keys(&self) -> (names: Vec<String>)
        ensures
            views(names@) == self.names(),
    {
        let mut names: Vec<String> = Vec::new();
        let count = self.headers.len();
        let mut i: usize = 0;
        while i < count
            invariant
                i <= count,
                count == self.headers.keys().len(),
                names@.len() == i,
                forall|j: int| 0 <= j < i ==> (#[trigger] names@[j])@ == self.headers.keys()[j],
            decreases count - i,
        {
            names.push(self.headers.key_at(i).clone());
            i = i + 1;
        }
        assert(views(names@) =~= self.names());
        names
    }

    /// The values of the headers, in the order of their names.
    pub fn values(&self) -> (values: Vec<String>)
        ensures
            values@.len() == self.names().len(),
            forall|i: int|
                0 <= i < values@.len() ==> (#[trigger] values@[i]) == self@[self.names()[i]],
    {
        let mut values: Vec<String> = Vec::new();
        let count = self.headers.len();
        let mut i: usize = 0;
        while i < count
            invariant
                i <= count,
                count == self.headers.keys().len(),
                values@.len() == i,
                forall|j: int|
                    0 <= j < i ==> (#[trigger] values@[j]) == self.headers@[self.headers.keys()[j]],
            decreases count - i,
        {
            values.push(self.headers.value_at(i).clone());
            i = i + 1;
        }
        values
    }

    /// The headers as pairs of name and value, in the order of their
    /// names.
    pub fn entries(&self) -> (entries: Vec<(String, String)>)
        ensures
            entries@.len() == self.names().len(),
            forall|i: int|
                0 <= i < entries@.len() ==> (#[trigger] entries@[i]).0@ == self.names()[i]
                    && entries@[i].1 == self@[self.names()[i]],
    {
        let mut entries: Vec<(String, String)> = Vec::new();
        let count = self.headers.len();
        let mut i: usize = 0;
        while i < count
            invariant
                i <= count,
                count == self.headers.keys().len(),
                entries@.len() == i,
                forall|j: int|
                    0 <= j < i ==> (#[trigger] entries@[j]).0@ == self.headers.keys()[j]
                        && entries@[j].1 == self.headers@[self.headers.keys()[j]],
            decreases count - i,
        {
            entries.push((self.headers.key_at(i).clone(), self.headers.value_at(i).clone()));
            i = i + 1;
        }
        entries
    }
}

impl Clone for Headers {
    fn clone(&self) -> (copy: Self)
        ensures
            copy@ == self@,
            copy.names() == self.names(),
    {
        let mut headers: StringMap<String> = StringMap::new();
        let count = self.headers.len();
        let ghost names = self.headers.keys();
        let ghost values = self.headers.values();
        let mut i: usize = 0;
        while i < count
            invariant
                i <= count,
                names == self.headers.keys(),
                values == self.headers.values(),
                count == names.len(),
                count == values.len(),
                names.no_duplicates(),
                self.headers@ == assoc(names, values),
                headers.keys() == names.subrange(0, i as int),
                headers.values() == values.subrange(0, i as int),
            decreases count - i,
        {
            let name = self.headers.key_at(i).clone();
            let value = self.headers.value_at(i).clone();
            let held = headers.len();
            proof {
                if headers@.contains_key(name@) {
                    let j = headers.keys().index_of(name@);
                    assert(headers.keys().contains(name@));
                    assert(0 <= j < i && names[j] == names[i as int]);
                }
            }
            headers.insert(name, value);
            assert(headers.keys() =~= names.subrange(0, i as int + 1));
            assert(headers.values() =~= values.subrange(0, i as int + 1));
            i = i + 1;
        }
        let copied = headers.len();
        proof {
            assert(copied == count);
            assert(names.subrange(0, count as int) =~= names);
            assert(values.subrange(0, count as int) =~= values);
        }
        Headers { headers }
    }
}

impl Default for Headers {
    fn default() -> (headers: Self)
        ensures
            headers@ == Map::<Seq<char>, String>::empty(),
            headers.names() == Seq::<Seq<char>>::empty(),
    {
        Headers::new()
    }
}

/// Request initialization options
#[derive(Debug, Clone)]
pub struct RequestInit {
    pub method: Option<Method>,
    pub headers: Option<Headers>,
    pub body: Option<Vec<u8>>,
    pub mode: Option<RequestMode>,
    pub credentials: Option<RequestCredentials>,
    pub cache: Option<RequestCache>,
    pub redirect: Option<RequestRedirect>,
    pub referrer: Option<String>,
    pub integrity: Option<String>,
}

impl Default for RequestInit {
    fn default() -> (init: Self)
        ensures
            init.method.is_none(),
            init.headers.is_none(),
            init.body.is_none(),
            init.mode.is_none(),
            init.credentials.is_none(),
            init.cache.is_none(),
            init.redirect.is_none(),
            init.referrer.is_none(),
            init.integrity.is_none(),
    {
        RequestInit {
            method: None,
            headers: None,
            body: None,
            mode: None,
            credentials: None,
            cache: None,
            redirect: None,
            referrer: None,
            integrity: None,
        }
    }
}

/// Request object
#[derive(Debug, Clone)]
pub struct Request {
    pub url: String,
    pub method: Method,
    pub headers: Headers,
    pub body: Option<Vec<u8>>,
    pub mode: RequestMode,
    pub credentials: RequestCredentials,
    pub cache: RequestCache,
    pub redirect: RequestRedirect,
    pub referrer: String,
    pub integrity: String,
}

/// Request info (URL or Request object)
#[derive(Debug, Clone)]
pub enum RequestInfo {
    Url(String),
    Request(Request),
}

/// What an option sets: its value, or what was there.
pub open spec fn set_or<T>(option: Option<T>, held: T) -> T {
    match option {
        Some(v) => v,
        None => held,
    }
}

impl Request {
    /// A request with the settings that a request has unless told
    /// otherwise: no headers and no body, CORS, credentials for the same
    /// origin, the default cache, following redirects.
    pub fn new(url: String, method: Method) -> (request: Self)
        ensures
            request.url == url,
            request.method == method,
            request.headers@ == Map::<Seq<char>, String>::empty(),
            request.body.is_none(),
            request.mode == RequestMode::Cors,
            request.credentials == RequestCredentials::SameOrigin,
            request.cache == RequestCache::Default,
            request.redirect == RequestRedirect::Follow,
            request.referrer@ == "about:client"@,
            request.integrity@ == Seq::<char>::empty(),
    {
        Request {
            url,
            method,
            headers: Headers::new(),
            body: None,
            mode: RequestMode::Cors,
            credentials: RequestCredentials::SameOrigin,
            cache: RequestCache::Default,
            redirect: RequestRedirect::Follow,
            referrer: String::from_str("about:client"),
            integrity: String::new(),
        }
    }

    /// Takes over what the options set, and keeps the rest.
    pub fn apply_init(&mut self, init: RequestInit) -> (done: Result<(), FetchError>)
        ensures
            done.is_ok(),
            final(self).url == old(self).url,
            final(self).method == set_or(init.method, old(self).method),
            final(self).headers == set_or(init.headers, old(self).headers),
            final(self).body == (match init.body {
                Some(b) => Some(b),
                None => old(self).body,
            }),
            final(self).mode == set_or(init.mode, old(self).mode),
            final(self).credentials == set_or(init.credentials, old(self).credentials),
            final(self).cache == set_or(init.cache, old(self).cache),
            final(self).redirect == set_or(init.redirect, old(self).redirect),
            final(self).referrer == set_or(init.referrer, old(self).referrer),
            final(self).integrity == set_or(init.integrity, old(self).integrity),
    {
        if let Some(method) = init.method {
            self.method = method;
        }
        if let Some(headers) = init.headers {
            self.headers = headers;
        }
        if let Some(body) = init.body {
            self.body = Some(body);
        }
        if let Some(mode) = init.mode {
            self.mode = mode;
        }
        if let Some(credentials) = init.credentials {
            self.credentials = credentials;
        }
        if let Some(cache) = init.cache {
            self.cache = cache;
        }
        if let Some(redirect) = init.redirect {
            self.redirect = redirect;
        }
        if let Some(referrer) = init.referrer {
            self.referrer = referrer;
        }
        if let Some(integrity) = init.integrity {
            self.integrity = integrity;
        }
        Ok(())
    }

    /// A copy of the request.
    pub fn clone_request(&self) -> (copy: Self)
        ensures
            copy.url == self.url,
            copy.method == self.method,
            copy.headers@ == self.headers@,
            copy.headers.names() == self.headers.names(),
            match (copy.body, self.body) {
                (Some(a), Some(b)) => a@ == b@,
                (None, None) => true,
                _ => false,
            },
            copy.mode == self.mode,
            copy.credentials == self.credentials,
            copy.cache == self.cache,
            copy.redirect == self.redirect,
            copy.referrer == self.referrer,
            copy.integrity == self.integrity,
    {
        Request {
            url: self.url.clone(),
            method: self.method,
            headers: self.headers.clone(),
            body: match &self.body {
                Some(b) => Some(copy_bytes(b)),
                None => None,
            },
            mode: self.mode,
            credentials: self.credentials,
            cache: self.cache,
            redirect: self.redirect,
            referrer: self.referrer.clone(),
            integrity: self.integrity.clone(),
        }
    }
}

/// Response object
#[derive(Debug, Clone)]
pub struct Response {
    pub status: u16,
    pub status_text: String,
    pub headers: Headers,
    /// The bytes of the body
    pub body: Vec<u8>,
    pub url: String,
    pub redirected: bool,
    pub response_type: ResponseType,
    /// Whether the body was read
    pub body_used: bool,
}

/// Whether a status is one of those of a redirect.
pub open spec fn is_redirect_status(status: u16) -> bool {
    status == 301 || status == 302 || status == 303 || status == 307 || status == 308
}

impl Response {
    /// The bytes of the body.
    pub open spec fn spec_body(&self) -> Seq<u8> {
        self.body@
    }

    /// Whether the body was read.
    pub open spec fn body_was_used(&self) -> bool {
        self.body_used
    }

    /// A basic response whose body was not read.
    pub fn new(status: u16, status_text: String, headers: Headers, body: Vec<u8>, url: String) -> (response:
        Self)
        ensures
            response.status == status,
            response.status_text == status_text,
            response.headers == headers,
            response.spec_body() == body@,
            response.url == url,
            !response.redirected,
            response.response_type == ResponseType::Basic,
            !response.body_was_used(),
    {
        Response {
            status,
            status_text,
            headers,
            body,
            url,
            redirected: false,
            response_type: ResponseType::Basic,
            body_used: false,
        }
    }

    /// Whether the status is one of success: from 200 up to 299.
    pub fn ok(&self) -> (ok: bool)
        ensures
            ok == (200 <= self.status < 300),
    {
        self.status >= 200 && self.status < 300
    }

    /// Reads the body as text. A body can be read once; bytes that are not
    /// valid UTF-8 are no text, and count as read all the same.
    pub fn text(&mut self) -> (text: Result<String, FetchError>)
        ensures
            final(self).body_was_used(),
            final(self).spec_body() == old(self).spec_body(),
            final(self).status == old(self).status,
            final(self).status_text == old(self).status_text,
            final(self).headers == old(self).headers,
            final(self).url == old(self).url,
            final(self).redirected == old(self).redirected,
            final(self).response_type == old(self).response_type,
            match text {
                Ok(t) => !old(self).body_was_used() && valid_utf8(old(self).spec_body())
                    && encode_utf8(t@) == old(self).spec_body(),
                Err(e) => if old(self).body_was_used() {
                    e == FetchError::BodyUsed
                } else {
                    e == FetchError::InvalidBody && !valid_utf8(old(self).spec_body())
                },
            },
    {
        if self.body_used {
            return Err(FetchError::BodyUsed);
        }
        self.body_used = true;
        match from_utf8(copy_bytes(&self.body)) {
            Some(t) => Ok(t),
            None => Err(FetchError::InvalidBody),
        }
    }

    /// Reads the body as the text of a JSON document.
    pub fn json(&mut self) -> (text: Result<String, FetchError>)
        ensures
            final(self).body_was_used(),
            final(self).spec_body() == old(self).spec_body(),
            final(self).status == old(self).status,
            final(self).status_text == old(self).status_text,
            final(self).headers == old(self).headers,
            final(self).url == old(self).url,
            final(self).redirected == old(self).redirected,
            final(self).response_type == old(self).response_type,
            match text {
                Ok(t) => !old(self).body_was_used() && valid_utf8(old(self).spec_body())
                    && encode_utf8(t@) == old(self).spec_body(),
                Err(e) => if old(self).body_was_used() {
                    e == FetchError::BodyUsed
                } else {
                    e == FetchError::InvalidBody && !valid_utf8(old(self).spec_body())
                },
            },
    {
        self.text()
    }

    /// Reads the body as bytes. A body can be read once.
    pub fn bytes(&mut self) -> (bytes: Result<Vec<u8>, FetchError>)
        ensures
            final(self).body_was_used(),
            final(self).spec_body() == old(self).spec_body(),
            final(self).status == old(self).status,
            final(self).status_text == old(self).status_text,
            final(self).headers == old(self).headers,
            final(self).url == old(self).url,
            final(self).redirected == old(self).redirected,
            final(self).response_type == old(self).response_type,
            match bytes {
                Ok(b) => !old(self).body_was_used() && b@ == old(self).spec_body(),
                Err(e) => e == FetchError::BodyUsed && old(self).body_was_used(),
            },
    {
        if self.body_used {
            return Err(FetchError::BodyUsed);
        }
        self.body_used = true;
        Ok(copy_bytes(&self.body))
    }

    /// A copy of the response. A response whose body was read cannot be
    /// copied.
    pub fn clone_response(&self) -> (copy: Result<Self, FetchError>)
        ensures
            match copy {
                Ok(c) => {
                    &&& !self.body_was_used()
                    &&& !c.body_was_used()
                    &&& c.status == self.status
                    &&& c.status_text == self.status_text
                    &&& c.headers@ == self.headers@
                    &&& c.spec_body() == self.spec_body()
                    &&& c.url == self.url
                    &&& c.redirected == self.redirected
                    &&& c.response_type == self.response_type
                },
                Err(e) => e == FetchError::BodyUsed && self.body_was_used(),
            },
    {
        if self.body_used {
            return Err(FetchError::BodyUsed);
        }
        Ok(
            Response {
                status: self.status,
                status_text: self.status_text.clone(),
                headers: self.headers.clone(),
                body: copy_bytes(&self.body),
                url: self.url.clone(),
                redirected: self.redirected,
                response_type: self.response_type,
                body_used: false,
            },
        )
    }

    /// The response that stands for a network error.
    pub fn error() -> (response: Self)
        ensures
            response.status == 0,
            response.status_text@ == Seq::<char>::empty(),
            response.headers@ == Map::<Seq<char>, String>::empty(),
            response.spec_body() == Seq::<u8>::empty(),
            response.url@ == Seq::<char>::empty(),
            !response.redirected,
            response.response_type == ResponseType::Error,
            !response.body_was_used(),
    {
        Response {
            status: 0,
            status_text: String::new(),
            headers: Headers::new(),
            body: Vec::new(),
            url: String::new(),
            redirected: false,
            response_type: ResponseType::Error,
            body_used: false,
        }
    }

    /// A redirect to a URL, which the `location` header names. The status
    /// has to be one of 301, 302, 303, 307 and 308.
    pub fn redirect(url: String, status: u16) -> (response: Result<Self, FetchError>)
        ensures
            match response {
                Ok(r) => {
                    &&& is_redirect_status(status)
                    &&& r.status == status
                    &&& r.status_text@ == "Redirect"@
                    &&& r.headers@.dom() == set![lowercase("Location"@)]
                    &&& r.headers@[lowercase("Location"@)]@ == url@
                    &&& r.spec_body() == Seq::<u8>::empty()
                    &&& r.url == url
                    &&& r.redirected
                    &&& r.response_type == ResponseType::Basic
                    &&& !r.body_was_used()
                },
                Err(e) => e == FetchError::InvalidRedirect && !is_redirect_status(status),
            },
    {
        if !(status == 301 || status == 302 || status == 303 || status == 307 || status == 308) {
            return Err(FetchError::InvalidRedirect);
        }
        let mut headers = Headers::new();
        headers.set(String::from_str("Location"), url.clone());
        assert(headers@.dom() =~= set![lowercase("Location"@)]);
        Ok(
            Response {
                status,
                status_text: String::from_str("Redirect"),
                headers,
                body: Vec::new(),
                url,
                redirected: true,
                response_type: ResponseType::Basic,
                body_used: false,
            },
        )
    }
}

/// The request that a fetch makes: the request that is given, or one for
/// the URL that is given, with the method that the options name or `Get`
/// and with what else the options set.
pub fn build_request(input: RequestInfo, init: Option<RequestInit>) -> (request: Request)
    ensures
        match input {
            RequestInfo::Request(r) => request == r,
            RequestInfo::Url(url) => {
                &&& request.url == url
                &&& match init {
                    Some(i) => {
                        &&& request.method == set_or(i.method, Method::Get)
                        &&& match i.headers {
                            Some(h) => request.headers == h,
                            None => request.headers@ == Map::<Seq<char>, String>::empty(),
                        }
                        &&& request.body == i.body
                        &&& request.mode == set_or(i.mode, RequestMode::Cors)
                        &&& request.credentials == set_or(
                            i.credentials,
                            RequestCredentials::SameOrigin,
                        )
                        &&& request.cache == set_or(i.cache, RequestCache::Default)
                        &&& request.redirect == set_or(i.redirect, RequestRedirect::Follow)
                    },
                    None => request.method == Method::Get && request.headers@ == Map::<
                        Seq<char>,
                        String,
                    >::empty() && request.body.is_none(),
                }
            },
        },
{
    match input {
        RequestInfo::Url(url) => {
            let method = match &init {
                Some(i) => match i.method {
                    Some(m) => m,
                    None => Method::Get,
                },
                None => Method::Get,
            };
            let mut req = Request::new(url, method);
            if let Some(init) = init {
                let _ = req.apply_init(init);
            }
            req
        },
        RequestInfo::Request(req) => req,
    }
}

/// The response to a request that no network carries: success, without
/// headers and without a body, for the URL of the request.
pub fn fetch(input: RequestInfo, init: Option<RequestInit>) -> (response: Result<
    Response,
    FetchError,
>)
    ensures
        match response {
            Ok(r) => {
                &&& r.status == 200
                &&& r.status_text@ == "OK"@
                &&& r.headers@ == Map::<Seq<char>, String>::empty()
                &&& r.spec_body() == Seq::<u8>::empty()
                &&& r.url@ == (match input {
                    RequestInfo::Url(url) => url@,
                    RequestInfo::Request(req) => req.url@,
                })
                &&& !r.redirected
                &&& r.response_type == ResponseType::Basic
                &&& !r.body_was_used()
            },
            Err(_) => false,
        },
{
    let request = build_request(input, init);
    Ok(Response::new(200, String::from_str("OK"), Headers::new(), Vec::new(), request.url.clone()))
}

} // verus!
