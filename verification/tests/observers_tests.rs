// Observers of the document, and the manager that keeps them.

use browser_engine::layout::Rect;
use browser_engine::observers::{
    area, intersection, IntersectionObserver, IntersectionObserverEntry, MutationObserver,
    MutationObserverInit, MutationRecord, MutationType, ObserverManager, ResizeObserver,
    ResizeObserverEntry, ResizeObserverSize,
};
use std::sync::{Arc, Mutex};

fn rect(x: i64, y: i64, width: i64, height: i64) -> Rect {
    Rect { x, y, width, height }
}

fn child_list_record(target: u64, added: Vec<u64>) -> MutationRecord {
    MutationRecord {
        mutation_type: MutationType::ChildList,
        target,
        added_nodes: added,
        removed_nodes: vec![],
        previous_sibling: None,
        next_sibling: None,
        attribute_name: None,
        old_value: None,
    }
}

type Told = Arc<Mutex<Vec<(u64, Vec<u64>)>>>;

// A callback that notes, under a name, the targets of the records of each call.
fn noting(log: &Told, name: u64) -> Box<dyn Fn(&[MutationRecord])> {
    let log = log.clone();
    Box::new(move |records: &[MutationRecord]| {
        log.lock().unwrap().push((name, records.iter().map(|r| r.target).collect()));
    })
}

type Manager = ObserverManager<
    Box<dyn Fn(&[MutationRecord])>,
    fn(&[IntersectionObserverEntry]),
    fn(&[ResizeObserverEntry]),
>;

fn no_entries(_entries: &[IntersectionObserverEntry]) {}

fn no_sizes(_entries: &[ResizeObserverEntry]) {}

#[test]
fn test_mutation_observer() {
    let called = Arc::new(Mutex::new(false));
    let called_clone = called.clone();

    let mut observer = MutationObserver::new(1, move |_records: &[MutationRecord]| {
        *called_clone.lock().unwrap() = true;
    });

    let config = MutationObserverInit {
        child_list: true,
        ..Default::default()
    };

    observer.observe(100, config);
    assert!(observer.is_observing(100));

    let record = MutationRecord {
        mutation_type: MutationType::ChildList,
        target: 100,
        added_nodes: vec![101],
        removed_nodes: vec![],
        previous_sibling: None,
        next_sibling: None,
        attribute_name: None,
        old_value: None,
    };

    observer.notify(&[record]);
    assert!(*called.lock().unwrap());
}

#[test]
fn test_mutation_observer_keeps_the_last_configuration() {
    let mut observer = MutationObserver::new(7, |_records: &[MutationRecord]| {});
    assert_eq!(observer.id(), 7);
    assert!(!observer.config().child_list);
    assert!(!observer.config().attributes);
    assert!(observer.config().attribute_filter.is_none());
    assert!(!observer.is_observing(1));
    observer.observe(1, MutationObserverInit { child_list: true, ..Default::default() });
    observer.observe(
        2,
        MutationObserverInit {
            attributes: true,
            attribute_filter: Some(vec!["class".to_string()]),
            ..Default::default()
        },
    );
    assert!(observer.is_observing(1));
    assert!(observer.is_observing(2));
    assert!(!observer.is_observing(3));
    assert!(!observer.config().child_list);
    assert!(observer.config().attributes);
    assert_eq!(observer.config().attribute_filter, Some(vec!["class".to_string()]));
}

#[test]
fn test_mutation_record_copies_hold_the_same() {
    let record = MutationRecord {
        mutation_type: MutationType::Attributes,
        target: 5,
        added_nodes: vec![1, 2],
        removed_nodes: vec![3],
        previous_sibling: Some(4),
        next_sibling: None,
        attribute_name: Some("class".to_string()),
        old_value: Some("old".to_string()),
    };
    let copy = record.clone();
    assert_eq!(copy.mutation_type, MutationType::Attributes);
    assert_eq!(copy.target, 5);
    assert_eq!(copy.added_nodes, vec![1, 2]);
    assert_eq!(copy.removed_nodes, vec![3]);
    assert_eq!(copy.previous_sibling, Some(4));
    assert_eq!(copy.next_sibling, None);
    assert_eq!(copy.attribute_name, Some("class".to_string()));
    assert_eq!(copy.old_value, Some("old".to_string()));
}

#[test]
fn test_intersection_observer() {
    let called = Arc::new(Mutex::new(false));
    let called_clone = called.clone();

    let mut observer = IntersectionObserver::new(1, move |_entries: &[IntersectionObserverEntry]| {
        *called_clone.lock().unwrap() = true;
    });

    observer.observe(100);
    assert!(observer.is_observing(100));

    let element_rect = rect(0, 0, 100, 100);
    let root_rect = rect(0, 0, 200, 200);

    let entry = observer.calculate_intersection(element_rect, root_rect);
    assert_eq!(entry.intersection_ratio, 1000);
    assert!(entry.is_intersecting);

    observer.notify(&[entry]);
    assert!(*called.lock().unwrap());
}

#[test]
fn test_intersection_entries() {
    let observer = IntersectionObserver::new(1, no_entries);
    // A quarter of the element lies in the root.
    let entry = observer.calculate_intersection(rect(50, 50, 100, 100), rect(0, 0, 100, 100));
    assert_eq!(
        entry,
        IntersectionObserverEntry {
            target: 0,
            bounding_client_rect: rect(50, 50, 100, 100),
            root_bounds: Some(rect(0, 0, 100, 100)),
            intersection_rect: rect(50, 50, 50, 50),
            intersection_ratio: 250,
            is_intersecting: true,
            time: 0,
        }
    );
    // A third, rounded down.
    let third = observer.calculate_intersection(rect(0, 0, 3, 1), rect(2, 0, 10, 10));
    assert_eq!(third.intersection_rect, rect(2, 0, 1, 1));
    assert_eq!(third.intersection_ratio, 333);
    // Less than a thousandth is still in view.
    let sliver = observer.calculate_intersection(rect(0, 0, 2000, 1), rect(1999, 0, 5, 5));
    assert_eq!(sliver.intersection_ratio, 0);
    assert!(sliver.is_intersecting);
    // Touching edges have nothing in common.
    let apart = observer.calculate_intersection(rect(0, 0, 10, 10), rect(10, 0, 10, 10));
    assert_eq!(apart.intersection_rect, rect(0, 0, 0, 0));
    assert_eq!(apart.intersection_ratio, 0);
    assert!(!apart.is_intersecting);
    assert_eq!(apart.root_bounds, Some(rect(10, 0, 10, 10)));
    // An element without a size is never in view.
    let empty = observer.calculate_intersection(rect(5, 5, 0, 0), rect(0, 0, 10, 10));
    assert!(!empty.is_intersecting);
    assert_eq!(empty.intersection_ratio, 0);
}

#[test]
fn test_intersection_observer_settings() {
    let mut observer = IntersectionObserver::new(3, no_entries);
    assert_eq!(observer.id(), 3);
    observer.set_root(Some(9));
    observer.set_root_margin(1, 2, 3, 4);
    observer.set_thresholds(vec![0, 500, 1000]);
    observer.observe(1);
    observer.observe(2);
    observer.unobserve(1);
    observer.unobserve(5);
    assert!(!observer.is_observing(1));
    assert!(observer.is_observing(2));
    observer.disconnect();
    assert!(!observer.is_observing(2));
}

#[test]
fn test_rect_intersection() {
    let r1 = rect(0, 0, 100, 100);
    let r2 = rect(50, 50, 100, 100);

    let intersection = intersection(&r1, &r2).unwrap();
    assert_eq!(intersection.x, 50);
    assert_eq!(intersection.y, 50);
    assert_eq!(intersection.width, 50);
    assert_eq!(intersection.height, 50);
}

#[test]
fn test_rect_intersection_at_the_limits() {
    let all = rect(i64::MIN, i64::MIN, i64::MAX, i64::MAX);
    let far = rect(i64::MAX - 5, i64::MAX - 7, i64::MAX, i64::MAX);
    assert_eq!(intersection(&all, &far), None);
    assert_eq!(intersection(&far, &far), Some(far));
    assert_eq!(intersection(&all, &rect(-10, -20, 30, 40)), Some(rect(-10, -20, 9, 19)));
    assert_eq!(intersection(&rect(0, 0, 10, 10), &rect(3, 4, 2, 20)), Some(rect(3, 4, 2, 6)));
    assert_eq!(intersection(&rect(0, 0, 10, 10), &rect(0, 10, 10, 10)), None);
    assert_eq!(intersection(&rect(0, 0, -10, 10), &rect(-5, 0, 10, 10)), None);
    assert_eq!(area(&rect(0, 0, 7, 6)), 42);
    assert_eq!(area(&rect(0, 0, -7, 6)), -42);
    assert_eq!(area(&rect(0, 0, i64::MAX, i64::MAX)), (i64::MAX as i128) * (i64::MAX as i128));
    assert_eq!(area(&rect(0, 0, i64::MIN, i64::MIN)), (i64::MIN as i128) * (i64::MIN as i128));
}

#[test]
fn test_resize_observer() {
    let called = Arc::new(Mutex::new(false));
    let called_clone = called.clone();

    let mut observer = ResizeObserver::new(1, move |_entries: &[ResizeObserverEntry]| {
        *called_clone.lock().unwrap() = true;
    });

    let initial_size = ResizeObserverSize {
        inline_size: 100,
        block_size: 100,
    };

    observer.observe(100, initial_size);
    assert!(observer.is_observing(100));

    let new_size = ResizeObserverSize {
        inline_size: 200,
        block_size: 200,
    };

    let changed = observer.check_resize(100, new_size);
    assert!(changed);
    assert!(*called.lock().unwrap());
}

#[test]
fn test_resize_observer_tells_of_each_change_once() {
    let told: Arc<Mutex<Vec<ResizeObserverEntry>>> = Arc::new(Mutex::new(Vec::new()));
    let log = told.clone();
    let mut observer = ResizeObserver::new(4, move |entries: &[ResizeObserverEntry]| {
        log.lock().unwrap().extend_from_slice(entries);
    });
    assert_eq!(observer.id(), 4);
    let small = ResizeObserverSize { inline_size: 10, block_size: 20 };
    let large = ResizeObserverSize { inline_size: 10, block_size: 30 };
    // Not watched: nothing happens.
    assert!(!observer.check_resize(1, small));
    observer.observe(1, small);
    // The same size: nothing happens.
    assert!(!observer.check_resize(1, small));
    assert!(told.lock().unwrap().is_empty());
    assert!(observer.check_resize(1, large));
    // The new size is now the known one.
    assert!(!observer.check_resize(1, large));
    assert!(observer.check_resize(1, small));
    assert_eq!(
        *told.lock().unwrap(),
        vec![
            ResizeObserverEntry {
                target: 1,
                content_rect: rect(0, 0, 10, 30),
                border_box_size: large,
                content_box_size: large,
            },
            ResizeObserverEntry {
                target: 1,
                content_rect: rect(0, 0, 10, 20),
                border_box_size: small,
                content_box_size: small,
            },
        ]
    );
    observer.unobserve(1);
    assert!(!observer.is_observing(1));
    assert!(!observer.check_resize(1, large));
    observer.observe(2, small);
    observer.disconnect();
    assert!(!observer.is_observing(2));
}

#[test]
fn test_observer_manager() {
    let mut manager: ObserverManager<
        _,
        fn(&[IntersectionObserverEntry]),
        fn(&[ResizeObserverEntry]),
    > = ObserverManager::new();

    let id = manager.create_mutation_observer(|_: &[MutationRecord]| {});
    assert!(manager.get_mutation_observer(id).is_some());

    let config = MutationObserverInit::default();
    manager.get_mutation_observer(id).unwrap().observe(100, config);

    let record = MutationRecord {
        mutation_type: MutationType::ChildList,
        target: 100,
        added_nodes: vec![101],
        removed_nodes: vec![],
        previous_sibling: None,
        next_sibling: None,
        attribute_name: None,
        old_value: None,
    };

    manager.record_mutation(100, record);
    manager.flush_mutations();
}

#[test]
fn test_observer_manager_tells_each_watcher_its_records() {
    let log: Told = Arc::new(Mutex::new(Vec::new()));
    let mut manager: Manager = ObserverManager::new();
    assert!(manager.can_create());
    let first = manager.create_mutation_observer(noting(&log, 1));
    let shown = manager.create_intersection_observer(no_entries);
    let second = manager.create_mutation_observer(noting(&log, 2));
    let sized = manager.create_resize_observer(no_sizes);
    let third = manager.create_mutation_observer(noting(&log, 3));
    assert_eq!((first, shown, second, sized, third), (1, 2, 3, 4, 5));
    assert!(manager.get_mutation_observer(shown).is_none());
    assert!(manager.get_intersection_observer(shown).is_some());
    assert!(manager.get_intersection_observer(first).is_none());
    assert!(manager.get_resize_observer(sized).is_some());
    assert!(manager.get_resize_observer(6).is_none());
    assert_eq!(manager.get_mutation_observer(second).unwrap().id(), second);

    manager.get_mutation_observer(first).unwrap().observe(100, MutationObserverInit::default());
    manager.get_mutation_observer(first).unwrap().observe(200, MutationObserverInit::default());
    manager.get_mutation_observer(second).unwrap().observe(200, MutationObserverInit::default());

    manager.record_mutation(200, child_list_record(200, vec![1]));
    manager.record_mutation(300, child_list_record(300, vec![2]));
    manager.record_mutation(100, child_list_record(100, vec![3]));
    manager.record_mutation(200, child_list_record(201, vec![4]));
    assert_eq!(
        manager.pending_records_for(first).iter().map(|r| r.target).collect::<Vec<u64>>(),
        vec![200, 100, 201]
    );
    assert_eq!(manager.pending_records_for(second).len(), 2);
    assert_eq!(manager.pending_records_for(third).len(), 0);
    assert!(log.lock().unwrap().is_empty());

    manager.flush_mutations();
    assert_eq!(*log.lock().unwrap(), vec![(1, vec![200, 100, 201]), (2, vec![200, 201])]);
    assert_eq!(manager.pending_records_for(first).len(), 0);

    // Nothing is told twice, and nothing where nothing waits.
    manager.flush_mutations();
    assert_eq!(log.lock().unwrap().len(), 2);
}

#[test]
fn test_observer_manager_disconnects_all() {
    let log: Told = Arc::new(Mutex::new(Vec::new()));
    let mut manager: Manager = ObserverManager::default();
    let watcher = manager.create_mutation_observer(noting(&log, 1));
    let shown = manager.create_intersection_observer(no_entries);
    let sized = manager.create_resize_observer(no_sizes);
    manager.get_mutation_observer(watcher).unwrap().observe(1, MutationObserverInit::default());
    manager.get_intersection_observer(shown).unwrap().observe(2);
    manager
        .get_resize_observer(sized)
        .unwrap()
        .observe(3, ResizeObserverSize { inline_size: 1, block_size: 1 });
    manager.record_mutation(1, child_list_record(1, vec![]));
    manager.disconnect_all();
    assert!(!manager.get_mutation_observer(watcher).unwrap().is_observing(1));
    assert!(!manager.get_intersection_observer(shown).unwrap().is_observing(2));
    assert!(!manager.get_resize_observer(sized).unwrap().is_observing(3));
    manager.flush_mutations();
    assert!(log.lock().unwrap().is_empty());
    manager.record_mutation(1, child_list_record(1, vec![]));
    manager.flush_mutations();
    assert!(log.lock().unwrap().is_empty());
    assert_eq!(manager.create_mutation_observer(noting(&log, 2)), 4);
}

#[test]
fn test_observer_disconnect() {
    let mut observer = MutationObserver::new(1, |_: &[MutationRecord]| {});
    observer.observe(100, MutationObserverInit::default());

    assert!(observer.is_observing(100));
    observer.disconnect();
    assert!(!observer.is_observing(100));
}
