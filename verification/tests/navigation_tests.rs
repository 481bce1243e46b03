// The history of the pages that were visited, and bookmarks.

use browser_engine::navigation::{BookmarkManager, NavigationHistory};
use url::Url;

fn test_url(path: &str) -> Url {
    Url::parse(&format!("http://example.com{}", path)).unwrap()
}

#[test]
fn test_navigation_history_creation() {
    let history = NavigationHistory::new();
    assert_eq!(history.current_index(), 0);
    assert!(history.current_url().is_none());
}

#[test]
fn test_navigate_to() {
    let mut history = NavigationHistory::new();

    history.navigate_to(test_url("/page1"));
    assert_eq!(history.current_url().unwrap().path(), "/page1");
    assert_eq!(history.current_index(), 0);

    history.navigate_to(test_url("/page2"));
    assert_eq!(history.current_url().unwrap().path(), "/page2");
    assert_eq!(history.current_index(), 1);
}

#[test]
fn test_go_back_forward() {
    let mut history = NavigationHistory::new();

    history.navigate_to(test_url("/page1"));
    history.navigate_to(test_url("/page2"));
    history.navigate_to(test_url("/page3"));

    // Go back
    assert!(history.can_go_back());
    history.go_back();
    assert_eq!(history.current_url().unwrap().path(), "/page2");

    history.go_back();
    assert_eq!(history.current_url().unwrap().path(), "/page1");

    // Can't go back further
    assert!(!history.can_go_back());

    // Go forward
    assert!(history.can_go_forward());
    history.go_forward();
    assert_eq!(history.current_url().unwrap().path(), "/page2");

    history.go_forward();
    assert_eq!(history.current_url().unwrap().path(), "/page3");

    // Can't go forward further
    assert!(!history.can_go_forward());
}

#[test]
fn test_navigate_clears_forward_history() {
    let mut history = NavigationHistory::new();

    history.navigate_to(test_url("/page1"));
    history.navigate_to(test_url("/page2"));
    history.navigate_to(test_url("/page3"));

    // Go back twice
    history.go_back();
    history.go_back();
    assert_eq!(history.current_url().unwrap().path(), "/page1");

    // Navigate to new page should clear forward history
    history.navigate_to(test_url("/page4"));
    assert_eq!(history.current_url().unwrap().path(), "/page4");
    assert!(!history.can_go_forward());
}

#[test]
fn test_update_title() {
    let mut history = NavigationHistory::new();
    history.navigate_to(test_url("/page1"));

    history.update_current_title("Test Page".to_string());
    assert_eq!(history.current_entry().unwrap().title.as_deref(), Some("Test Page"));
}

#[test]
fn test_recent_history() {
    let mut history = NavigationHistory::new();
    history.navigate_to(test_url("/page1"));
    history.navigate_to(test_url("/page2"));
    history.navigate_to(test_url("/page3"));

    let recent = history.recent(2);
    assert_eq!(recent.len(), 2);
    assert_eq!(recent[0].url.path(), "/page3");
    assert_eq!(recent[1].url.path(), "/page2");
}

#[test]
fn test_bookmark_manager() {
    let mut bookmarks = BookmarkManager::new();

    let url = test_url("/page1");
    assert!(bookmarks.add(url.clone(), "Page 1".to_string()));
    assert!(bookmarks.is_bookmarked(&url));

    // Can't add duplicate
    assert!(!bookmarks.add(url.clone(), "Page 1".to_string()));

    assert_eq!(bookmarks.all().len(), 1);

    // Remove bookmark
    assert!(bookmarks.remove(&url));
    assert!(!bookmarks.is_bookmarked(&url));
    assert_eq!(bookmarks.all().len(), 0);
}

#[test]
fn test_max_history_size() {
    let mut history = NavigationHistory::with_capacity(3);

    history.navigate_to(test_url("/page1"));
    history.navigate_to(test_url("/page2"));
    history.navigate_to(test_url("/page3"));
    history.navigate_to(test_url("/page4")); // Should evict page1

    assert_eq!(history.entries().len(), 3);
    // Oldest should be page2 now
    assert_eq!(history.entries()[0].url.path(), "/page2");
}

#[test]
fn test_history_edges() {
    let mut history = NavigationHistory::default();
    assert!(!history.can_go_back());
    assert!(!history.can_go_forward());
    assert!(history.go_back().is_none());
    assert!(history.go_forward().is_none());
    assert!(history.current_entry().is_none());
    history.update_current_title("nothing".to_string());
    assert_eq!(history.recent(5).len(), 0);
    history.navigate_to(test_url("/a"));
    history.navigate_to(test_url("/b"));
    assert!(history.current_entry().unwrap().title.is_none());
    assert_eq!(history.go_back().unwrap().url.path(), "/a");
    history.update_current_title("A".to_string());
    assert_eq!(history.entries()[0].title.as_deref(), Some("A"));
    assert_eq!(history.entries()[1].title, None);
    assert_eq!(history.go_forward().unwrap().url.path(), "/b");
    assert_eq!(history.recent(9).len(), 2);
    assert_eq!(history.recent(0).len(), 0);
    history.clear();
    assert_eq!(history.entries().len(), 0);
    assert_eq!(history.current_index(), 0);
}

#[test]
fn test_history_sizes() {
    let mut none = NavigationHistory::with_capacity(0);
    none.navigate_to(test_url("/a"));
    assert_eq!(none.entries().len(), 0);
    assert_eq!(none.current_index(), 0);
    assert!(none.current_url().is_none());
    let mut one = NavigationHistory::with_capacity(1);
    one.navigate_to(test_url("/a"));
    one.navigate_to(test_url("/b"));
    assert_eq!(one.entries().len(), 1);
    assert_eq!(one.current_url().unwrap().path(), "/b");
    assert!(!one.can_go_back());
    let mut three = NavigationHistory::with_capacity(3);
    for path in ["/1", "/2", "/3"] {
        three.navigate_to(test_url(path));
    }
    three.go_back();
    three.go_back();
    // the way forward is forgotten before the size counts
    three.navigate_to(test_url("/4"));
    let paths: Vec<&str> = three.entries().iter().map(|e| e.url.path()).collect();
    assert_eq!(paths, vec!["/1", "/4"]);
    assert_eq!(three.current_index(), 1);
    three.navigate_to(test_url("/5"));
    three.navigate_to(test_url("/6"));
    let paths: Vec<&str> = three.entries().iter().map(|e| e.url.path()).collect();
    assert_eq!(paths, vec!["/4", "/5", "/6"]);
    assert_eq!(three.current_index(), 2);
}

#[test]
fn test_bookmarks_keep_their_order() {
    let mut bookmarks = BookmarkManager::default();
    for path in ["/a", "/b", "/c"] {
        assert!(bookmarks.add(test_url(path), path.to_string()));
    }
    assert!(!bookmarks.add(test_url("/b"), "again".to_string()));
    assert!(!bookmarks.remove(&test_url("/x")));
    assert!(bookmarks.remove(&test_url("/b")));
    let titles: Vec<&str> = bookmarks.all().iter().map(|b| b.title.as_str()).collect();
    assert_eq!(titles, vec!["/a", "/c"]);
    // the same page under another spelling counts as the same URL
    assert!(bookmarks.is_bookmarked(&Url::parse("HTTP://EXAMPLE.com:80/a").unwrap()));
    assert!(!bookmarks.is_bookmarked(&Url::parse("http://example.com/a?q").unwrap()));
    bookmarks.clear();
    assert_eq!(bookmarks.all().len(), 0);
}
