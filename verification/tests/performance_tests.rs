// Marks, measures and the timing of resources.

use browser_engine::performance::{
    MemoryInfo, NavigationTiming, Performance, PerformanceEntry, PerformanceError,
    PerformanceResourceTiming, DEFAULT_HEAP_LIMIT, RESOURCE_ENTRY_LIMIT,
};
use browser_engine::text::{count_text, decimal_text};

fn resource(name: &str, start_time: i64) -> PerformanceResourceTiming {
    PerformanceResourceTiming {
        name: name.to_string(),
        entry_type: "resource".to_string(),
        start_time,
        duration: 0,
        initiator_type: "script".to_string(),
        next_hop_protocol: "h2".to_string(),
        worker_start: 0,
        redirect_start: 0,
        redirect_end: 0,
        fetch_start: 0,
        domain_lookup_start: 0,
        domain_lookup_end: 0,
        connect_start: 0,
        connect_end: 0,
        secure_connection_start: 0,
        request_start: 0,
        response_start: 0,
        response_end: 0,
        transfer_size: 0,
        encoded_body_size: 0,
        decoded_body_size: 0,
    }
}

// What kind of entry it is, its name and its start time.
fn shown(entries: &[PerformanceEntry]) -> Vec<(&'static str, String, i64)> {
    entries
        .iter()
        .map(|entry| match entry {
            PerformanceEntry::Mark { name, start_time } => ("mark", name.clone(), *start_time),
            PerformanceEntry::Measure(m) => ("measure", m.name.clone(), m.start_time),
            PerformanceEntry::Resource(r) => ("resource", r.name.clone(), r.start_time),
            PerformanceEntry::Navigation(n) => ("navigation", String::new(), n.navigation_start),
        })
        .collect()
}

#[test]
fn test_performance_now() {
    let perf = Performance::new();
    let t1 = perf.now();
    let t2 = perf.now();
    assert!(t1 >= 0);
    assert!(t2 >= t1);
}

#[test]
fn test_performance_mark() {
    let mut perf = Performance::new();

    perf.mark("mark1".to_string()).unwrap();
    assert!(perf.has_mark("mark1"));

    perf.clear_marks(Some("mark1"));
    assert!(!perf.has_mark("mark1"));
}

#[test]
fn test_performance_measure() {
    let mut perf = Performance::new();

    perf.mark_at("start".to_string(), 1_000);
    perf.mark_at("end".to_string(), 11_000);

    let measure = perf.measure("test".to_string(), Some("start"), Some("end")).unwrap();
    assert!(measure.duration >= 10_000);
    assert_eq!(measure.name, "test");
}

#[test]
fn test_measure_without_marks() {
    let mut perf = Performance::new();

    let measure = perf.measure_at("test".to_string(), None, None, 10_000).unwrap();

    assert!(measure.duration >= 10_000);
    let clocked = perf.measure("clocked".to_string(), None, None).unwrap();
    assert_eq!(clocked.start_time, 0);
    assert!(clocked.duration >= 0);
}

#[test]
fn test_mark_not_found() {
    let mut perf = Performance::new();

    let result = perf.measure("test".to_string(), Some("nonexistent"), None);
    assert!(result.is_err());
    assert_eq!(result.unwrap_err(), PerformanceError::MarkNotFound);
}

#[test]
fn test_measures_run_from_mark_to_mark() {
    let mut perf = Performance::default();
    perf.mark_at("a".to_string(), 100);
    perf.mark_at("b".to_string(), 250);
    let forward = perf.measure_at("ab".to_string(), Some("a"), Some("b"), 999).unwrap();
    assert_eq!(
        (forward.name.as_str(), forward.entry_type.as_str(), forward.start_time, forward.duration),
        ("ab", "measure", 100, 150)
    );
    let backward = perf.measure_at("ba".to_string(), Some("b"), Some("a"), 999).unwrap();
    assert_eq!((backward.start_time, backward.duration), (250, -150));
    let to_now = perf.measure_at("a-now".to_string(), Some("a"), None, 999).unwrap();
    assert_eq!((to_now.start_time, to_now.duration), (100, 899));
    let from_origin = perf.measure_at("origin-b".to_string(), None, Some("b"), 999).unwrap();
    assert_eq!((from_origin.start_time, from_origin.duration), (0, 250));
    // A missing end mark is an error too, and nothing is kept.
    assert_eq!(
        perf.measure_at("bad".to_string(), Some("a"), Some("z"), 999),
        Err(PerformanceError::MarkNotFound)
    );
    assert!(!perf.has_measure("bad"));
    assert_eq!(perf.measure_count(), 4);
    // A measure of the same name takes the place of the older one.
    perf.measure_at("ab".to_string(), None, None, 5).unwrap();
    assert_eq!(perf.measure_count(), 4);
    assert_eq!(shown(&perf.get_entries_by_name("ab")), vec![("measure", "ab".to_string(), 0)]);
    // A mark of the same name takes the place of the older one.
    perf.mark_at("a".to_string(), 7);
    assert_eq!(perf.mark_count(), 2);
    // Times at the ends of the range do not overflow.
    perf.mark_at("low".to_string(), i64::MIN);
    perf.mark_at("high".to_string(), i64::MAX);
    assert_eq!(perf.measure_at("x".to_string(), Some("low"), Some("high"), 0).unwrap().duration, i64::MAX);
    assert_eq!(perf.measure_at("y".to_string(), Some("high"), Some("low"), 0).unwrap().duration, i64::MIN);
    perf.clear_measures(Some("x"));
    assert!(!perf.has_measure("x"));
    assert!(perf.has_measure("y"));
    perf.clear_measures(None);
    assert_eq!(perf.measure_count(), 0);
    assert_eq!(perf.mark_count(), 4);
}

#[test]
fn test_get_entries_by_type() {
    let mut perf = Performance::new();

    perf.mark("mark1".to_string()).unwrap();
    perf.mark("mark2".to_string()).unwrap();

    let marks = perf.get_entries_by_type("mark");
    assert_eq!(marks.len(), 2);
}

#[test]
fn test_get_entries_by_name() {
    let mut perf = Performance::new();

    perf.mark("test".to_string()).unwrap();

    let entries = perf.get_entries_by_name("test");
    assert_eq!(entries.len(), 1);
}

#[test]
fn test_entries_by_type_and_by_name() {
    let mut perf = Performance::new();
    perf.mark_at("b".to_string(), 2);
    perf.mark_at("a".to_string(), 1);
    perf.measure_at("a".to_string(), Some("a"), Some("b"), 0).unwrap();
    perf.add_resource_entry(resource("a", 10));
    perf.add_resource_entry(resource("c", 20));
    perf.add_resource_entry(resource("a", 30));
    let mut timing = NavigationTiming::default();
    timing.navigation_start = 5;
    perf.set_navigation_timing(timing);
    assert_eq!(perf.navigation_timing().navigation_start, 5);
    assert_eq!(
        shown(&perf.get_entries_by_type("mark")),
        vec![("mark", "b".to_string(), 2), ("mark", "a".to_string(), 1)]
    );
    assert_eq!(shown(&perf.get_entries_by_type("measure")), vec![("measure", "a".to_string(), 1)]);
    assert_eq!(
        shown(&perf.get_entries_by_type("resource")),
        vec![
            ("resource", "a".to_string(), 10),
            ("resource", "c".to_string(), 20),
            ("resource", "a".to_string(), 30)
        ]
    );
    assert_eq!(shown(&perf.get_entries_by_type("navigation")), vec![("navigation", String::new(), 5)]);
    assert!(perf.get_entries_by_type("paint").is_empty());
    assert!(perf.get_entries_by_type("Mark").is_empty());
    assert_eq!(
        shown(&perf.get_entries_by_name("a")),
        vec![
            ("mark", "a".to_string(), 1),
            ("measure", "a".to_string(), 1),
            ("resource", "a".to_string(), 10),
            ("resource", "a".to_string(), 30)
        ]
    );
    assert_eq!(shown(&perf.get_entries_by_name("c")), vec![("resource", "c".to_string(), 20)]);
    assert!(perf.get_entries_by_name("z").is_empty());
    let all = shown(&perf.get_entries());
    assert_eq!(all.len(), 7);
    assert_eq!(all[0], ("mark", "b".to_string(), 2));
    assert_eq!(all[2], ("measure", "a".to_string(), 1));
    assert_eq!(all[3], ("resource", "a".to_string(), 10));
    assert_eq!(all[6], ("navigation", String::new(), 5));
    perf.clear_resource_timings();
    assert!(perf.get_entries_by_type("resource").is_empty());
    assert_eq!(perf.get_entries().len(), 4);
}

#[test]
fn test_resource_timing() {
    let mut perf = Performance::new();

    let resource = PerformanceResourceTiming {
        name: "https://example.com/script.js".to_string(),
        entry_type: "resource".to_string(),
        start_time: 100,
        duration: 50,
        initiator_type: "script".to_string(),
        next_hop_protocol: "h2".to_string(),
        worker_start: 0,
        redirect_start: 0,
        redirect_end: 0,
        fetch_start: 100,
        domain_lookup_start: 105,
        domain_lookup_end: 110,
        connect_start: 110,
        connect_end: 120,
        secure_connection_start: 115,
        request_start: 120,
        response_start: 140,
        response_end: 150,
        transfer_size: 1024,
        encoded_body_size: 1024,
        decoded_body_size: 2048,
    };

    perf.add_resource_entry(resource);

    let resources = perf.get_entries_by_type("resource");
    assert_eq!(resources.len(), 1);
    match &resources[0] {
        PerformanceEntry::Resource(r) => {
            assert_eq!(r.name, "https://example.com/script.js");
            assert_eq!(r.initiator_type, "script");
            assert_eq!(r.next_hop_protocol, "h2");
            assert_eq!((r.start_time, r.duration, r.response_end), (100, 50, 150));
            assert_eq!((r.transfer_size, r.decoded_body_size), (1024, 2048));
        }
        _ => panic!("a resource was added"),
    }
}

#[test]
fn test_resource_limit() {
    let mut perf = Performance::new();

    for i in 0..200 {
        perf.add_resource_entry(resource(&format!("resource{}", i), 0));
    }

    // Should be limited to 150
    let kept = perf.get_entries_by_type("resource");
    assert_eq!(kept.len(), 150);
    assert_eq!(RESOURCE_ENTRY_LIMIT, 150);
    // The oldest left: the first that is kept is the 51st.
    assert_eq!(shown(&kept)[0].1, "resource50");
    assert_eq!(shown(&kept)[149].1, "resource199");
}

#[test]
fn test_memory_info() {
    let mut perf = Performance::new();

    assert!(perf.memory().is_some());
    assert_eq!(
        perf.memory(),
        Some(&MemoryInfo {
            used_js_heap_size: 0,
            total_js_heap_size: 0,
            js_heap_size_limit: 2 * 1024 * 1024 * 1024
        })
    );
    assert_eq!(DEFAULT_HEAP_LIMIT, 2 * 1024 * 1024 * 1024);

    perf.update_memory(1024, 2048);

    let memory = perf.memory().unwrap();
    assert_eq!(memory.used_js_heap_size, 1024);
    assert_eq!(memory.total_js_heap_size, 2048);
    assert_eq!(memory.js_heap_size_limit, DEFAULT_HEAP_LIMIT);
}

#[test]
fn test_clear_all_marks() {
    let mut perf = Performance::new();

    perf.mark("mark1".to_string()).unwrap();
    perf.mark("mark2".to_string()).unwrap();

    perf.clear_marks(None);
    assert_eq!(perf.mark_count(), 0);
}

#[test]
fn test_time_origin() {
    let perf = Performance::new();
    let origin = perf.time_origin();

    // Should be a reasonable Unix timestamp in microseconds
    assert!(origin > 1_600_000_000_000_000); // After Sep 2020
}

#[test]
fn test_performance_report() {
    let mut perf = Performance::new();
    perf.mark_at("a".to_string(), 1);
    perf.mark_at("b".to_string(), 1);
    perf.measure_at("m".to_string(), None, None, 3).unwrap();
    assert_eq!(
        perf.to_json_at(1_700_000_000_000_000, -25),
        "{\"timeOrigin\":1700000000000000,\"now\":-25,\"marks\":2,\"measures\":1}"
    );
    let json = perf.to_json();
    assert!(json.starts_with("{\"timeOrigin\":"));
    assert!(json.ends_with(",\"marks\":2,\"measures\":1}"));
    assert_eq!(PerformanceError::MarkNotFound.message(), "Performance mark not found");
    assert_eq!(PerformanceError::InvalidMeasure.message(), "Invalid performance measure");
    assert_eq!(PerformanceError::InvalidEntry.message(), "Invalid performance entry");
}

#[test]
fn test_numbers_in_decimal() {
    assert_eq!(decimal_text(0), "0");
    assert_eq!(decimal_text(7), "7");
    assert_eq!(decimal_text(10), "10");
    assert_eq!(decimal_text(-1), "-1");
    assert_eq!(decimal_text(1_000_000), "1000000");
    assert_eq!(decimal_text(-9_876_543_210), "-9876543210");
    assert_eq!(decimal_text(i64::MAX), "9223372036854775807");
    assert_eq!(decimal_text(i64::MIN), "-9223372036854775808");
    assert_eq!(count_text(0), "0");
    assert_eq!(count_text(150), "150");
    assert_eq!(count_text(usize::MAX), usize::MAX.to_string());
}

#[test]
fn test_time_origin_from_two_readings() {
    assert_eq!(Performance::time_origin_at(1_700_000_000_000_000, 2_500), 1_699_999_999_997_500);
    assert_eq!(Performance::time_origin_at(0, 0), 0);
    assert_eq!(Performance::time_origin_at(0, 7), -7);
    assert_eq!(Performance::time_origin_at(i64::MAX, 0), i64::MAX);
    assert_eq!(Performance::time_origin_at(0, i64::MAX), -i64::MAX);
    // The origin of a page that was made just now lies at most a moment back.
    let perf = Performance::new();
    let origin = perf.time_origin();
    let again = perf.time_origin();
    assert!((again - origin).abs() < 60_000_000);
}
