//! Timing of a page: marks and measures that scripts set, the timing of
//! the resources that were loaded, and of the navigation itself. Times
//! are whole microseconds since the time origin.

use vstd::prelude::*;
use crate::clock::{duration_between, elapsed, epoch, instant_now, now, whole_micros};
use crate::string_map::StringMap;
use crate::text::{count_text, decimal, decimal_text, str_eq};
use std::time::Instant;

verus! {

/// High-resolution timestamp (microseconds since time origin)
pub type DOMHighResTimeStamp = i64;

/// The most resource entries that are kept.
pub const RESOURCE_ENTRY_LIMIT: usize = 150;

/// The limit of the heap that is told unless another is known: 2 GB.
pub const DEFAULT_HEAP_LIMIT: u64 = 2_147_483_648;

/// Navigation timing information
#[derive(Debug, Clone, Copy, PartialEq, Eq, Structural)]
pub struct NavigationTiming {
    pub navigation_start: DOMHighResTimeStamp,
    pub unload_event_start: DOMHighResTimeStamp,
    pub unload_event_end: DOMHighResTimeStamp,
    pub redirect_start: DOMHighResTimeStamp,
    pub redirect_end: DOMHighResTimeStamp,
    pub fetch_start: DOMHighResTimeStamp,
    pub domain_lookup_start: DOMHighResTimeStamp,
    pub domain_lookup_end: DOMHighResTimeStamp,
    pub connect_start: DOMHighResTimeStamp,
    pub connect_end: DOMHighResTimeStamp,
    pub secure_connection_start: DOMHighResTimeStamp,
    pub request_start: DOMHighResTimeStamp,
    pub response_start: DOMHighResTimeStamp,
    pub response_end: DOMHighResTimeStamp,
    pub dom_loading: DOMHighResTimeStamp,
    pub dom_interactive: DOMHighResTimeStamp,
    pub dom_content_loaded_event_start: DOMHighResTimeStamp,
    pub dom_content_loaded_event_end: DOMHighResTimeStamp,
    pub dom_complete: DOMHighResTimeStamp,
    pub load_event_start: DOMHighResTimeStamp,
    pub load_event_end: DOMHighResTimeStamp,
}

impl NavigationTiming {
    /// The timing in which every time is 0.
    pub open spec fn zero() -> NavigationTiming {
        NavigationTiming {
            navigation_start: 0,
            unload_event_start: 0,
            unload_event_end: 0,
            redirect_start: 0,
            redirect_end: 0,
            fetch_start: 0,
            domain_lookup_start: 0,
            domain_lookup_end: 0,
            connect_start: 0,
            connect_end: 0,
            secure_connection_start: 0,
            request_start: 0,
            response_start: 0,
            response_end: 0,
            dom_loading: 0,
            dom_interactive: 0,
            dom_content_loaded_event_start: 0,
            dom_content_loaded_event_end: 0,
            dom_complete: 0,
            load_event_start: 0,
            load_event_end: 0,
        }
    }
}

impl Default for NavigationTiming {
    fn default() -> (timing: Self)
        ensures
            timing == NavigationTiming::zero(),
    {
        NavigationTiming {
            navigation_start: 0,
            unload_event_start: 0,
            unload_event_end: 0,
            redirect_start: 0,
            redirect_end: 0,
            fetch_start: 0,
            domain_lookup_start: 0,
            domain_lookup_end: 0,
            connect_start: 0,
            connect_end: 0,
            secure_connection_start: 0,
            request_start: 0,
            response_start: 0,
            response_end: 0,
            dom_loading: 0,
            dom_interactive: 0,
            dom_content_loaded_event_start: 0,
            dom_content_loaded_event_end: 0,
            dom_complete: 0,
            load_event_start: 0,
            load_event_end: 0,
        }
    }
}

/// Resource timing entry
#[derive(Debug)]
pub struct PerformanceResourceTiming {
    pub name: String,
    pub entry_type: String,
    pub start_time: DOMHighResTimeStamp,
    pub duration: DOMHighResTimeStamp,
    pub initiator_type: String,
    pub next_hop_protocol: String,
    pub worker_start: DOMHighResTimeStamp,
    pub redirect_start: DOMHighResTimeStamp,
    pub redirect_end: DOMHighResTimeStamp,
    pub fetch_start: DOMHighResTimeStamp,
    pub domain_lookup_start: DOMHighResTimeStamp,
    pub domain_lookup_end: DOMHighResTimeStamp,
    pub connect_start: DOMHighResTimeStamp,
    pub connect_end: DOMHighResTimeStamp,
    pub secure_connection_start: DOMHighResTimeStamp,
    pub request_start: DOMHighResTimeStamp,
    pub response_start: DOMHighResTimeStamp,
    pub response_end: DOMHighResTimeStamp,
    pub transfer_size: u64,
    pub encoded_body_size: u64,
    pub decoded_body_size: u64,
}

/// A resource timing entry as a mathematical value.
pub struct ResourceView {
    pub name: Seq<char>,
    pub entry_type: Seq<char>,
    pub start_time: DOMHighResTimeStamp,
    pub duration: DOMHighResTimeStamp,
    pub initiator_type: Seq<char>,
    pub next_hop_protocol: Seq<char>,
    pub worker_start: DOMHighResTimeStamp,
    pub redirect_start: DOMHighResTimeStamp,
    pub redirect_end: DOMHighResTimeStamp,
    pub fetch_start: DOMHighResTimeStamp,
    pub domain_lookup_start: DOMHighResTimeStamp,
    pub domain_lookup_end: DOMHighResTimeStamp,
    pub connect_start: DOMHighResTimeStamp,
    pub connect_end: DOMHighResTimeStamp,
    pub secure_connection_start: DOMHighResTimeStamp,
    pub request_start: DOMHighResTimeStamp,
    pub response_start: DOMHighResTimeStamp,
    pub response_end: DOMHighResTimeStamp,
    pub transfer_size: u64,
    pub encoded_body_size: u64,
    pub decoded_body_size: u64,
}

impl View for PerformanceResourceTiming {
    type V = ResourceView;

    open spec fn view(&self) -> ResourceView {
        ResourceView {
            name: self.name@,
            entry_type: self.entry_type@,
            start_time: self.start_time,
            duration: self.duration,
            initiator_type: self.initiator_type@,
            next_hop_protocol: self.next_hop_protocol@,
            worker_start: self.worker_start,
            redirect_start: self.redirect_start,
            redirect_end: self.redirect_end,
            fetch_start: self.fetch_start,
            domain_lookup_start: self.domain_lookup_start,
            domain_lookup_end: self.domain_lookup_end,
            connect_start: self.connect_start,
            connect_end: self.connect_end,
            secure_connection_start: self.secure_connection_start,
            request_start: self.request_start,
            response_start: self.response_start,
            response_end: self.response_end,
            transfer_size: self.transfer_size,
            encoded_body_size: self.encoded_body_size,
            decoded_body_size: self.decoded_body_size,
        }
    }
}

impl Clone for PerformanceResourceTiming {
    fn clone(&self) -> (copy: Self)
        ensures
            copy@ == self@,
    {
        PerformanceResourceTiming {
            name: self.name.clone(),
            entry_type: self.entry_type.clone(),
            start_time: self.start_time,
            duration: self.duration,
            initiator_type: self.initiator_type.clone(),
            next_hop_protocol: self.next_hop_protocol.clone(),
            worker_start: self.worker_start,
            redirect_start: self.redirect_start,
            redirect_end: self.redirect_end,
            fetch_start: self.fetch_start,
            domain_lookup_start: self.domain_lookup_start,
            domain_lookup_end: self.domain_lookup_end,
            connect_start: self.connect_start,
            connect_end: self.connect_end,
            secure_connection_start: self.secure_connection_start,
            request_start: self.request_start,
            response_start: self.response_start,
            response_end: self.response_end,
            transfer_size: self.transfer_size,
            encoded_body_size: self.encoded_body_size,
            decoded_body_size: self.decoded_body_size,
        }
    }
}

/// Performance measure entry
#[derive(Debug, PartialEq)]
pub struct PerformanceMeasure {
    /// Measure name
    pub name: String,
    /// Entry type
    pub entry_type: String,
    /// Start time
    pub start_time: DOMHighResTimeStamp,
    /// Duration
    pub duration: DOMHighResTimeStamp,
}

/// A measure as a mathematical value.
pub struct MeasureView {
    pub name: Seq<char>,
    pub entry_type: Seq<char>,
    pub start_time: DOMHighResTimeStamp,
    pub duration: DOMHighResTimeStamp,
}

impl View for PerformanceMeasure {
    type V = MeasureView;

    open spec fn view(&self) -> MeasureView {
        MeasureView {
            name: self.name@,
            entry_type: self.entry_type@,
            start_time: self.start_time,
            duration: self.duration,
        }
    }
}

impl Clone for PerformanceMeasure {
    fn clone(&self) -> (copy: Self)
        ensures
            copy@ == self@,
    {
        PerformanceMeasure {
            name: self.name.clone(),
            entry_type: self.entry_type.clone(),
            start_time: self.start_time,
            duration: self.duration,
        }
    }
}

/// Memory information
#[derive(Debug, Clone, Copy, PartialEq, Eq, Structural)]
pub struct MemoryInfo {
    /// Used JS heap size (bytes)
    pub used_js_heap_size: u64,
    /// Total JS heap size (bytes)
    pub total_js_heap_size: u64,
    /// JS heap size limit (bytes)
    pub js_heap_size_limit: u64,
}

/// Performance entry (union type)
#[derive(Debug)]
pub enum PerformanceEntry {
    Mark { name: String, start_time: DOMHighResTimeStamp },
    Measure(PerformanceMeasure),
    Resource(PerformanceResourceTiming),
    Navigation(NavigationTiming),
}

/// A performance entry as a mathematical value.
pub enum EntryView {
    Mark { name: Seq<char>, start_time: DOMHighResTimeStamp },
    Measure(MeasureView),
    Resource(ResourceView),
    Navigation(NavigationTiming),
}

impl View for PerformanceEntry {
    type V = EntryView;

    open spec fn view(&self) -> EntryView {
        match self {
            PerformanceEntry::Mark { name, start_time } => EntryView::Mark {
                name: name@,
                start_time: *start_time,
            },
            PerformanceEntry::Measure(measure) => EntryView::Measure(measure@),
            PerformanceEntry::Resource(resource) => EntryView::Resource(resource@),
            PerformanceEntry::Navigation(timing) => EntryView::Navigation(*timing),
        }
    }
}

/// Performance errors
#[derive(Debug, Clone, Copy, PartialEq, Eq, Structural)]
pub enum PerformanceError {
    MarkNotFound,
    InvalidMeasure,
    InvalidEntry,
}

impl PerformanceError {
    /// What the error says.
    pub fn message(&self) -> (text: &'static str)
        ensures
            text@ == match self {
                PerformanceError::MarkNotFound => "Performance mark not found"@,
                PerformanceError::InvalidMeasure => "Invalid performance measure"@,
                PerformanceError::InvalidEntry => "Invalid performance entry"@,
            },
    {
        match self {
            PerformanceError::MarkNotFound => "Performance mark not found",
            PerformanceError::InvalidMeasure => "Invalid performance measure",
            PerformanceError::InvalidEntry => "Invalid performance entry",
        }
    }
}

/// The entries as mathematical values.
pub open spec fn entry_views(entries: Seq<PerformanceEntry>) -> Seq<EntryView> {
    Seq::new(entries.len(), |i: int| entries[i]@)
}

/// The resource entries as mathematical values.
pub open spec fn resource_views(resources: Seq<PerformanceResourceTiming>) -> Seq<ResourceView> {
    Seq::new(resources.len(), |i: int| resources[i]@)
}

/// The marks as entries, in the order of their names.
pub open spec fn mark_entries(names: Seq<Seq<char>>, marks: Map<Seq<char>, DOMHighResTimeStamp>) -> Seq<
    EntryView,
> {
    Seq::new(
        names.len(),
        |i: int| EntryView::Mark { name: names[i], start_time: marks[names[i]] },
    )
}

/// The measures as entries, in the order of their names.
pub open spec fn measure_entries(names: Seq<Seq<char>>, measures: Map<Seq<char>, PerformanceMeasure>) -> Seq<
    EntryView,
> {
    Seq::new(names.len(), |i: int| EntryView::Measure(measures[names[i]]@))
}

/// The resources as entries.
pub open spec fn resource_entries(resources: Seq<ResourceView>) -> Seq<EntryView> {
    Seq::new(resources.len(), |i: int| EntryView::Resource(resources[i]))
}

/// Those of the first `k` resources that have a name, as entries.
pub open spec fn resources_named(resources: Seq<ResourceView>, name: Seq<char>, k: int) -> Seq<
    EntryView,
>
    decreases k,
{
    if k <= 0 || k > resources.len() {
        Seq::empty()
    } else if resources[k - 1].name == name {
        resources_named(resources, name, k - 1).push(EntryView::Resource(resources[k - 1]))
    } else {
        resources_named(resources, name, k - 1)
    }
}

/// The time that has passed from a start to an end, held to what an
/// `i64` holds.
pub open spec fn time_between(start: DOMHighResTimeStamp, end: DOMHighResTimeStamp) -> i64 {
    if end - start > i64::MAX {
        i64::MAX
    } else if end - start < i64::MIN {
        i64::MIN
    } else {
        (end - start) as i64
    }
}

/// The time from a start to an end.
fn duration_of(start: DOMHighResTimeStamp, end: DOMHighResTimeStamp) -> (duration: i64)
    ensures
        duration == time_between(start, end),
{
    let difference: i128 = end as i128 - start as i128;
    if difference > i64::MAX as i128 {
        i64::MAX
    } else if difference < i64::MIN as i128 {
        i64::MIN
    } else {
        difference as i64
    }
}

/// A count of microseconds as a timestamp, held to what an `i64` holds.
fn as_timestamp(micros: u128) -> (timestamp: DOMHighResTimeStamp)
    ensures
        timestamp >= 0,
        timestamp == if micros > i64::MAX {
            i64::MAX
        } else {
            micros as i64
        },
{
    if micros > i64::MAX as u128 {
        i64::MAX
    } else {
        micros as i64
    }
}

/// Performance interface - high-resolution timing
pub struct Performance {
    /// Time origin (when navigation started)
    time_origin: Instant,
    /// Navigation timing
    navigation_timing: NavigationTiming,
    /// Resource timing entries
    resource_entries: Vec<PerformanceResourceTiming>,
    /// User timing marks
    marks: StringMap<DOMHighResTimeStamp>,
    /// User timing measures
    measures: StringMap<PerformanceMeasure>,
    /// Memory info (if available)
    memory: Option<MemoryInfo>,
}

impl Performance {
    /// The marks, by name.
    pub closed spec fn marks(&self) -> Map<Seq<char>, DOMHighResTimeStamp> {
        self.marks@
    }

    /// The names of the marks, in the order in which they first came.
    pub closed spec fn mark_names(&self) -> Seq<Seq<char>> {
        self.marks.keys()
    }

    /// The measures, by name.
    pub closed spec fn measures(&self) -> Map<Seq<char>, PerformanceMeasure> {
        self.measures@
    }

    /// The names of the measures, in the order in which they first came.
    pub closed spec fn measure_names(&self) -> Seq<Seq<char>> {
        self.measures.keys()
    }

    /// The resource timing entries, oldest first.
    pub closed spec fn resources(&self) -> Seq<ResourceView> {
        resource_views(self.resource_entries@)
    }

    /// The timing of the navigation.
    pub closed spec fn navigation(&self) -> NavigationTiming {
        self.navigation_timing
    }

    /// What is known of memory.
    pub closed spec fn memory_info(&self) -> Option<MemoryInfo> {
        self.memory
    }

    /// Whether everything but the marks is the same as in another.
    pub open spec fn same_but_marks(&self, other: &Performance) -> bool {
        &&& self.measures() == other.measures()
        &&& self.measure_names() == other.measure_names()
        &&& self.resources() == other.resources()
        &&& self.navigation() == other.navigation()
        &&& self.memory_info() == other.memory_info()
    }

    /// Whether everything but the measures is the same as in another.
    pub open spec fn same_but_measures(&self, other: &Performance) -> bool {
        &&& self.marks() == other.marks()
        &&& self.mark_names() == other.mark_names()
        &&& self.resources() == other.resources()
        &&& self.navigation() == other.navigation()
        &&& self.memory_info() == other.memory_info()
    }

    /// Whether marks and measures are the same as in another.
    pub open spec fn same_user_timing(&self, other: &Performance) -> bool {
        &&& self.marks() == other.marks()
        &&& self.mark_names() == other.mark_names()
        &&& self.measures() == other.measures()
        &&& self.measure_names() == other.measure_names()
    }

    /// Every entry: the marks, the measures, the resources, and the
    /// navigation.
    pub open spec fn all_entries(&self) -> Seq<EntryView> {
        mark_entries(self.mark_names(), self.marks()) + measure_entries(
            self.measure_names(),
            self.measures(),
        ) + resource_entries(self.resources()) + seq![EntryView::Navigation(self.navigation())]
    }

    /// The entries of a type: `mark`, `measure`, `resource` or
    /// `navigation`; none of any other type.
    pub open spec fn entries_of_type(&self, entry_type: Seq<char>) -> Seq<EntryView> {
        if entry_type == "mark"@ {
            mark_entries(self.mark_names(), self.marks())
        } else if entry_type == "measure"@ {
            measure_entries(self.measure_names(), self.measures())
        } else if entry_type == "resource"@ {
            resource_entries(self.resources())
        } else if entry_type == "navigation"@ {
            seq![EntryView::Navigation(self.navigation())]
        } else {
            Seq::empty()
        }
    }

    /// The entries of a name: the mark, the measure, and the resources
    /// of that name.
    pub open spec fn entries_of_name(&self, name: Seq<char>) -> Seq<EntryView> {
        (if self.marks().contains_key(name) {
            seq![EntryView::Mark { name, start_time: self.marks()[name] }]
        } else {
            Seq::empty()
        }) + (if self.measures().contains_key(name) {
            seq![EntryView::Measure(self.measures()[name]@)]
        } else {
            Seq::empty()
        }) + resources_named(self.resources(), name, self.resources().len() as int)
    }

    /// Create a new performance object, whose time origin is now: no
    /// marks, measures or resources, a navigation timing of zeros, and an
    /// unused heap with the default limit.
    pub fn new() -> (performance: Self)
        ensures
            performance.marks() == Map::<Seq<char>, DOMHighResTimeStamp>::empty(),
            performance.mark_names().len() == 0,
            performance.measures() == Map::<Seq<char>, PerformanceMeasure>::empty(),
            performance.measure_names().len() == 0,
            performance.resources().len() == 0,
            performance.navigation() == NavigationTiming::zero(),
            performance.memory_info() == Some(
                MemoryInfo {
                    used_js_heap_size: 0,
                    total_js_heap_size: 0,
                    js_heap_size_limit: DEFAULT_HEAP_LIMIT,
                },
            ),
    {
        Performance {
            time_origin: instant_now(),
            navigation_timing: NavigationTiming::default(),
            resource_entries: Vec::new(),
            marks: StringMap::new(),
            measures: StringMap::new(),
            memory: Some(
                MemoryInfo {
                    used_js_heap_size: 0,
                    total_js_heap_size: 0,
                    js_heap_size_limit: DEFAULT_HEAP_LIMIT,
                },
            ),
        }
    }

    /// Get current high-resolution timestamp: the microseconds since the
    /// time origin, as the clock shows them.
    pub fn now(&self) -> (timestamp: DOMHighResTimeStamp)
        ensures
            timestamp >= 0,
    {
        let passed = elapsed(&self.time_origin);
        as_timestamp(whole_micros(&passed))
    }

    /// The time origin where the clocks show these two times: the
    /// microseconds from the start of 1970 to now, less those from the
    /// time origin to now.
    pub open spec fn origin_between(since_epoch: i64, current: DOMHighResTimeStamp) -> i64 {
        time_between(current, since_epoch)
    }

    /// Whether the clocks may show a time origin: it lies some reading of
    /// the time since the origin before some reading of the time since the
    /// start of 1970, and neither reading is negative.
    pub open spec fn clocks_may_show(origin: i64) -> bool {
        exists|since_epoch: i64, current: DOMHighResTimeStamp|
            since_epoch >= 0 && current >= 0 && origin == #[trigger] Self::origin_between(
                since_epoch,
                current,
            )
    }

    /// Get time origin: the microseconds from the start of 1970 to the
    /// time origin, as the clocks show them.
    pub fn time_origin(&self) -> (origin: i64)
        ensures
            Self::clocks_may_show(origin),
    {
        let since_epoch = match duration_between(&now(), &epoch()) {
            Some(since) => as_timestamp(whole_micros(&since)),
            None => 0,
        };
        let current = self.now();
        let origin = Self::time_origin_at(since_epoch, current);
        assert(origin == Self::origin_between(since_epoch, current));
        origin
    }

    /// The time origin, given the microseconds from the start of 1970 to
    /// now and those from the time origin to now.
    pub fn time_origin_at(since_epoch: i64, current: DOMHighResTimeStamp) -> (origin: i64)
        ensures
            origin == Self::origin_between(since_epoch, current),
    {
        duration_of(current, since_epoch)
    }

    /// Create a performance mark at the current time.
    pub fn mark(&mut self, name: String) -> (done: Result<(), PerformanceError>)
        ensures
            done.is_ok(),
            final(self).same_but_marks(old(self)),
            exists|timestamp: DOMHighResTimeStamp|
                timestamp >= 0 && final(self).marks() == #[trigger] old(self).marks().insert(
                    name@,
                    timestamp,
                ),
            final(self).mark_names() == if old(self).marks().contains_key(name@) {
                old(self).mark_names()
            } else {
                old(self).mark_names().push(name@)
            },
    {
        let timestamp = self.now();
        self.mark_at(name, timestamp);
        Ok(())
    }

    /// Create a performance mark at a given time, in place of an older
    /// mark of that name.
    pub fn mark_at(&mut self, name: String, timestamp: DOMHighResTimeStamp)
        ensures
            final(self).same_but_marks(old(self)),
            final(self).marks() == old(self).marks().insert(name@, timestamp),
            final(self).mark_names() == if old(self).marks().contains_key(name@) {
                old(self).mark_names()
            } else {
                old(self).mark_names().push(name@)
            },
    {
        self.marks.insert(name, timestamp);
    }

    /// Whether there is a mark of a name.
    pub fn has_mark(&self, name: &str) -> (held: bool)
        ensures
            held == self.marks().contains_key(name@),
    {
        self.marks.contains_key(name)
    }

    /// Whether there is a measure of a name.
    pub fn has_measure(&self, name: &str) -> (held: bool)
        ensures
            held == self.measures().contains_key(name@),
    {
        self.measures.contains_key(name)
    }

    /// Clear marks: the one of a name, or all where no name is given.
    pub fn clear_marks(&mut self, name: Option<&str>)
        ensures
            final(self).same_but_marks(old(self)),
            final(self).marks() == match name {
                Some(mark_name) => old(self).marks().remove(mark_name@),
                None => Map::<Seq<char>, DOMHighResTimeStamp>::empty(),
            },
    {
        match name {
            Some(mark_name) => {
                self.marks.remove(mark_name);
            },
            None => {
                self.marks.clear();
            },
        }
    }

    /// Create a performance measure from a start mark (the time origin
    /// where none is given) to an end mark (the current time where none
    /// is given).
    pub fn measure(&mut self, name: String, start_mark: Option<&str>, end_mark: Option<&str>) -> (
    measured: Result<PerformanceMeasure, PerformanceError>)
        ensures
            final(self).same_but_measures(old(self)),
            exists|current: DOMHighResTimeStamp|
                current >= 0 && #[trigger] old(self).measured_at(
                    final(self),
                    name@,
                    start_mark,
                    end_mark,
                    current,
                    measured,
                ),
    {
        let current = self.now();
        let measured = self.measure_at(name, start_mark, end_mark, current);
        assert(old(self).measured_at(self, name@, start_mark, end_mark, current, measured));
        measured
    }

    /// What `measure_at` does: with both marks there (where they are
    /// asked for), the measure of the name runs from the start to the
    /// end, is kept in place of an older one of that name, and is given;
    /// else nothing changes, and the error says that a mark was not
    /// found.
    pub open spec fn measured_at(
        &self,
        after: &Performance,
        name: Seq<char>,
        start_mark: Option<&str>,
        end_mark: Option<&str>,
        current: DOMHighResTimeStamp,
        measured: Result<PerformanceMeasure, PerformanceError>,
    ) -> bool {
        let start_known = match start_mark {
            Some(mark) => self.marks().contains_key(mark@),
            None => true,
        };
        let end_known = match end_mark {
            Some(mark) => self.marks().contains_key(mark@),
            None => true,
        };
        let start_time = match start_mark {
            Some(mark) => self.marks()[mark@],
            None => 0,
        };
        let end_time = match end_mark {
            Some(mark) => self.marks()[mark@],
            None => current,
        };
        match measured {
            Ok(measure) => {
                &&& start_known && end_known
                &&& measure@ == (MeasureView {
                    name,
                    entry_type: "measure"@,
                    start_time,
                    duration: time_between(start_time, end_time),
                })
                &&& after.measures().dom() == self.measures().dom().insert(name)
                &&& after.measures()[name]@ == measure@
                &&& forall|other: Seq<char>|
                    other != name && self.measures().contains_key(other)
                        ==> #[trigger] after.measures()[other] == self.measures()[other]
                &&& after.measure_names() == if self.measures().contains_key(name) {
                    self.measure_names()
                } else {
                    self.measure_names().push(name)
                }
            },
            Err(e) => {
                &&& !(start_known && end_known)
                &&& e == PerformanceError::MarkNotFound
                &&& after.measures() == self.measures()
                &&& after.measure_names() == self.measure_names()
            },
        }
    }

    /// Create a performance measure as `measure` does, with a given
    /// current time.
    pub fn measure_at(
        &mut self,
        name: String,
        start_mark: Option<&str>,
        end_mark: Option<&str>,
        current: DOMHighResTimeStamp,
    ) -> (measured: Result<PerformanceMeasure, PerformanceError>)
        ensures
            final(self).same_but_measures(old(self)),
            old(self).measured_at(final(self), name@, start_mark, end_mark, current, measured),
    {
        let start_time = match start_mark {
            Some(mark) => match self.marks.get(mark) {
                Some(timestamp) => *timestamp,
                None => {
                    return Err(PerformanceError::MarkNotFound);
                },
            },
            None => 0,
        };
        let end_time = match end_mark {
            Some(mark) => match self.marks.get(mark) {
                Some(timestamp) => *timestamp,
                None => {
                    return Err(PerformanceError::MarkNotFound);
                },
            },
            None => current,
        };
        let measure = PerformanceMeasure {
            name: name.clone(),
            entry_type: String::from_str("measure"),
            start_time,
            duration: duration_of(start_time, end_time),
        };
        let kept = measure.clone();
        self.measures.insert(name, kept);
        assert(self.measures().dom() =~= old(self).measures().dom().insert(name@));
        Ok(measure)
    }

    /// Clear measures: the one of a name, or all where no name is given.
    pub fn clear_measures(&mut self, name: Option<&str>)
        ensures
            final(self).same_but_measures(old(self)),
            final(self).measures() == match name {
                Some(measure_name) => old(self).measures().remove(measure_name@),
                None => Map::<Seq<char>, PerformanceMeasure>::empty(),
            },
    {
        match name {
            Some(measure_name) => {
                self.measures.remove(measure_name);
            },
            None => {
                self.measures.clear();
            },
        }
    }

    /// The marks as entries.
    fn push_marks(&self, entries: &mut Vec<PerformanceEntry>)
        ensures
            entry_views(final(entries)@) == entry_views(old(entries)@) + mark_entries(
                self.mark_names(),
                self.marks(),
            ),
    {
        let ghost before = entry_views(entries@);
        let count = self.marks.len();
        let mut i: usize = 0;
        while i < count
            invariant
                i <= count,
                count == self.marks.keys().len(),
                entry_views(entries@) == before + mark_entries(self.mark_names(), self.marks()).subrange(
                    0,
                    i as int,
                ),
            decreases count - i,
        {
            let ghost held = entry_views(entries@);
            entries.push(
                PerformanceEntry::Mark {
                    name: self.marks.key_at(i).clone(),
                    start_time: *self.marks.value_at(i),
                },
            );
            assert(entry_views(entries@) =~= held.push(
                mark_entries(self.mark_names(), self.marks())[i as int],
            ));
            assert(entry_views(entries@) =~= before + mark_entries(
                self.mark_names(),
                self.marks(),
            ).subrange(0, i as int + 1));
            i = i + 1;
        }
        assert(mark_entries(self.mark_names(), self.marks()).subrange(0, count as int)
            =~= mark_entries(self.mark_names(), self.marks()));
        assert(entry_views(entries@) =~= before + mark_entries(self.mark_names(), self.marks()));
    }

    /// The measures as entries.
    fn push_measures(&self, entries: &mut Vec<PerformanceEntry>)
        ensures
            entry_views(final(entries)@) == entry_views(old(entries)@) + measure_entries(
                self.measure_names(),
                self.measures(),
            ),
    {
        let ghost before = entry_views(entries@);
        let count = self.measures.len();
        let mut i: usize = 0;
        while i < count
            invariant
                i <= count,
                count == self.measures.keys().len(),
                entry_views(entries@) == before + measure_entries(
                    self.measure_names(),
                    self.measures(),
                ).subrange(0, i as int),
            decreases count - i,
        {
            let ghost held = entry_views(entries@);
            entries.push(PerformanceEntry::Measure(self.measures.value_at(i).clone()));
            assert(entry_views(entries@) =~= held.push(
                measure_entries(self.measure_names(), self.measures())[i as int],
            ));
            assert(entry_views(entries@) =~= before + measure_entries(
                self.measure_names(),
                self.measures(),
            ).subrange(0, i as int + 1));
            i = i + 1;
        }
        assert(measure_entries(self.measure_names(), self.measures()).subrange(0, count as int)
            =~= measure_entries(self.measure_names(), self.measures()));
        assert(entry_views(entries@) =~= before + measure_entries(
            self.measure_names(),
            self.measures(),
        ));
    }

    /// The resources as entries.
    fn push_resources(&self, entries: &mut Vec<PerformanceEntry>)
        ensures
            entry_views(final(entries)@) == entry_views(old(entries)@) + resource_entries(
                self.resources(),
            ),
    {
        let ghost before = entry_views(entries@);
        let mut i: usize = 0;
        while i < self.resource_entries.len()
            invariant
                i <= self.resource_entries@.len(),
                entry_views(entries@) == before + resource_entries(self.resources()).subrange(
                    0,
                    i as int,
                ),
            decreases self.resource_entries@.len() - i,
        {
            let ghost held = entry_views(entries@);
            entries.push(PerformanceEntry::Resource(self.resource_entries[i].clone()));
            assert(entry_views(entries@) =~= held.push(resource_entries(self.resources())[i as int]));
            assert(entry_views(entries@) =~= before + resource_entries(self.resources()).subrange(
                0,
                i as int + 1,
            ));
            i = i + 1;
        }
        assert(resource_entries(self.resources()).subrange(0, self.resources().len() as int)
            =~= resource_entries(self.resources()));
        assert(entry_views(entries@) =~= before + resource_entries(self.resources()));
    }

    /// Get all entries by type
    pub fn get_entries_by_type(&self, entry_type: &str) -> (entries: Vec<PerformanceEntry>)
        ensures
            entry_views(entries@) == self.entries_of_type(entry_type@),
    {
        let mut entries: Vec<PerformanceEntry> = Vec::new();
        assert(entry_views(entries@) =~= Seq::<EntryView>::empty());
        if str_eq(entry_type, "mark") {
            self.push_marks(&mut entries);
        } else if str_eq(entry_type, "measure") {
            self.push_measures(&mut entries);
        } else if str_eq(entry_type, "resource") {
            self.push_resources(&mut entries);
        } else if str_eq(entry_type, "navigation") {
            entries.push(PerformanceEntry::Navigation(self.navigation_timing));
        }
        assert(entry_views(entries@) =~= self.entries_of_type(entry_type@));
        entries
    }

    /// Get all entries by name
    pub fn get_entries_by_name(&self, name: &str) -> (entries: Vec<PerformanceEntry>)
        ensures
            entry_views(entries@) == self.entries_of_name(name@),
    {
        let mut entries: Vec<PerformanceEntry> = Vec::new();
        match self.marks.get(name) {
            Some(timestamp) => {
                entries.push(
                    PerformanceEntry::Mark { name: String::from_str(name), start_time: *timestamp },
                );
            },
            None => {},
        }
        match self.measures.get(name) {
            Some(measure) => {
                entries.push(PerformanceEntry::Measure(measure.clone()));
            },
            None => {},
        }
        let ghost before = entry_views(entries@);
        let mut i: usize = 0;
        assert(entry_views(entries@) =~= before + resources_named(self.resources(), name@, 0));
        while i < self.resource_entries.len()
            invariant
                i <= self.resource_entries@.len(),
                entry_views(entries@) == before + resources_named(
                    self.resources(),
                    name@,
                    i as int,
                ),
            decreases self.resource_entries@.len() - i,
        {
            let ghost held = entry_views(entries@);
            assert(self.resources()[i as int] == self.resource_entries@[i as int]@);
            if str_eq(self.resource_entries[i].name.as_str(), name) {
                entries.push(PerformanceEntry::Resource(self.resource_entries[i].clone()));
                assert(entry_views(entries@) =~= held.push(
                    EntryView::Resource(self.resources()[i as int]),
                ));
            }
            assert(entry_views(entries@) =~= before + resources_named(
                self.resources(),
                name@,
                i as int + 1,
            ));
            i = i + 1;
        }
        assert(entry_views(entries@) =~= self.entries_of_name(name@));
        entries
    }

    /// Get all entries
    pub fn get_entries(&self) -> (entries: Vec<PerformanceEntry>)
        ensures
            entry_views(entries@) == self.all_entries(),
    {
        let mut entries: Vec<PerformanceEntry> = Vec::new();
        assert(entry_views(entries@) =~= Seq::<EntryView>::empty());
        self.push_marks(&mut entries);
        self.push_measures(&mut entries);
        self.push_resources(&mut entries);
        entries.push(PerformanceEntry::Navigation(self.navigation_timing));
        assert(entry_views(entries@) =~= self.all_entries());
        entries
    }

    /// Add resource timing entry. No more than 150 are kept: where there
    /// are that many, the oldest leaves.
    pub fn add_resource_entry(&mut self, entry: PerformanceResourceTiming)
        ensures
            final(self).same_user_timing(old(self)),
            final(self).navigation() == old(self).navigation(),
            final(self).memory_info() == old(self).memory_info(),
            final(self).resources() == (if old(self).resources().len() >= RESOURCE_ENTRY_LIMIT {
                old(self).resources().drop_first()
            } else {
                old(self).resources()
            }).push(entry@),
    {
        let ghost before = self.resources();
        if self.resource_entries.len() >= RESOURCE_ENTRY_LIMIT {
            self.resource_entries.remove(0);
            assert(self.resources() =~= before.drop_first());
        }
        let ghost held = self.resources();
        self.resource_entries.push(entry);
        assert(self.resources() =~= held.push(entry@));
    }

    /// Clear resource timing entries
    pub fn clear_resource_timings(&mut self)
        ensures
            final(self).same_user_timing(old(self)),
            final(self).navigation() == old(self).navigation(),
            final(self).memory_info() == old(self).memory_info(),
            final(self).resources().len() == 0,
    {
        self.resource_entries.clear();
    }

    /// Update navigation timing
    pub fn set_navigation_timing(&mut self, timing: NavigationTiming)
        ensures
            final(self).same_user_timing(old(self)),
            final(self).resources() == old(self).resources(),
            final(self).memory_info() == old(self).memory_info(),
            final(self).navigation() == timing,
    {
        self.navigation_timing = timing;
    }

    /// Get navigation timing
    pub fn navigation_timing(&self) -> (timing: &NavigationTiming)
        ensures
            *timing == self.navigation(),
    {
        &self.navigation_timing
    }

    /// Get memory info
    pub fn memory(&self) -> (memory: Option<&MemoryInfo>)
        ensures
            match memory {
                Some(info) => self.memory_info() == Some(*info),
                None => self.memory_info().is_none(),
            },
    {
        match &self.memory {
            Some(info) => Some(info),
            None => None,
        }
    }

    /// Update memory info: where memory is known, the used and the total
    /// size of the heap.
    pub fn update_memory(&mut self, used: u64, total: u64)
        ensures
            final(self).same_user_timing(old(self)),
            final(self).resources() == old(self).resources(),
            final(self).navigation() == old(self).navigation(),
            final(self).memory_info() == match old(self).memory_info() {
                Some(info) => Some(
                    MemoryInfo { used_js_heap_size: used, total_js_heap_size: total, ..info },
                ),
                None => None,
            },
    {
        match self.memory {
            Some(info) => {
                self.memory = Some(
                    MemoryInfo {
                        used_js_heap_size: used,
                        total_js_heap_size: total,
                        js_heap_size_limit: info.js_heap_size_limit,
                    },
                );
            },
            None => {},
        }
    }

    /// The report of a performance object with these numbers, in JSON.
    pub open spec fn report(time_origin: int, current: int, marks: int, measures: int) -> Seq<char> {
        "{\"timeOrigin\":"@ + decimal(time_origin) + ",\"now\":"@ + decimal(current)
            + ",\"marks\":"@ + decimal(marks) + ",\"measures\":"@ + decimal(measures) + "}"@
    }

    /// Export performance data as JSON: the time origin and the current
    /// time as the clocks show them, and the numbers of marks and of
    /// measures.
    pub fn to_json(&self) -> (json: String)
        ensures
            exists|time_origin: i64, current: i64| #[trigger]
                Self::report(
                    time_origin as int,
                    current as int,
                    self.mark_names().len() as int,
                    self.measure_names().len() as int,
                ) == json@,
    {
        let time_origin = self.time_origin();
        let current = self.now();
        let json = self.to_json_at(time_origin, current);
        assert(Self::report(
            time_origin as int,
            current as int,
            self.mark_names().len() as int,
            self.measure_names().len() as int,
        ) == json@);
        json
    }

    /// Export performance data as JSON, with a given time origin and
    /// current time.
    pub fn to_json_at(&self, time_origin: i64, current: i64) -> (json: String)
        ensures
            json@ == Self::report(
                time_origin as int,
                current as int,
                self.mark_names().len() as int,
                self.measure_names().len() as int,
            ),
    {
        let marks = self.marks.len();
        let measures = self.measures.len();
        let json = String::from_str("{\"timeOrigin\":").concat(
            decimal_text(time_origin).as_str(),
        ).concat(",\"now\":").concat(decimal_text(current).as_str()).concat(",\"marks\":").concat(
            count_text(marks).as_str(),
        ).concat(",\"measures\":").concat(count_text(measures).as_str()).concat("}");
        json
    }

    /// The number of marks.
    pub fn mark_count(&self) -> (count: usize)
        ensures
            count == self.mark_names().len(),
    {
        self.marks.len()
    }

    /// The number of measures.
    pub fn measure_count(&self) -> (count: usize)
        ensures
            count == self.measure_names().len(),
    {
        self.measures.len()
    }
}

impl Default for Performance {
    fn default() -> (performance: Self)
        ensures
            performance.mark_names().len() == 0,
            performance.measure_names().len() == 0,
            performance.resources().len() == 0,
            performance.navigation() == NavigationTiming::zero(),
    {
        Performance::new()
    }
}

} // verus!
