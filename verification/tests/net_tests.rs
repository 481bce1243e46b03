// The visited URLs, and what a page asks to be loaded.

use browser_engine::css::{Color, Declaration, Rule, Selector, SimpleSelector, Stylesheet, Unit, Value};
use browser_engine::dom::{AttrMap, Node};
use browser_engine::net::page_loader::{LoadedPage, PageLoader, StyleSource};
use browser_engine::net::Navigator;
use url::Url;

fn tag_rule(tag: &str, name: &str, value: Value) -> Rule {
    Rule {
        selectors: vec![Selector::Simple(SimpleSelector {
            tag_name: Some(tag.to_string()),
            id: None,
            classes: Vec::new(),
        })],
        declarations: vec![Declaration { name: name.to_string(), value }],
    }
}

fn elem(tag: &str, attributes: &[(&str, &str)], children: Vec<Node>) -> Node {
    let mut map = AttrMap::new();
    for (name, value) in attributes {
        map.insert(name.to_string(), value.to_string());
    }
    Node::element(tag.to_string(), map, children)
}

// <html><body><p>Test</p></body></html>
fn small_document() -> Node {
    elem(
        "html",
        &[],
        vec![elem("body", &[], vec![elem("p", &[], vec![Node::text("Test".to_string())])])],
    )
}

fn shown(sources: &[StyleSource]) -> Vec<String> {
    sources
        .iter()
        .map(|source| match source {
            StyleSource::Inline(text) => format!("inline:{}", text),
            StyleSource::Linked(href) => format!("link:{}", href),
        })
        .collect()
}

#[test]
fn test_navigator_basic() {
    let nav = Navigator::new();
    assert!(nav.current().is_none());
    assert!(!nav.can_go_back());
    assert!(!nav.can_go_forward());
}

#[test]
fn test_navigator_navigation() {
    let mut nav = Navigator::new();

    let url1 = Url::parse("http://example.com").unwrap();
    let url2 = Url::parse("http://example.com/page2").unwrap();

    nav.navigate_to(url1.clone());
    assert_eq!(nav.current().unwrap(), &url1);
    assert!(!nav.can_go_back());

    nav.navigate_to(url2.clone());
    assert_eq!(nav.current().unwrap(), &url2);
    assert!(nav.can_go_back());

    nav.back();
    assert_eq!(nav.current().unwrap(), &url1);
    assert!(nav.can_go_forward());

    nav.forward();
    assert_eq!(nav.current().unwrap(), &url2);
}

#[test]
fn test_navigator_truncate_on_new_navigation() {
    let mut nav = Navigator::new();

    let url1 = Url::parse("http://example.com/1").unwrap();
    let url2 = Url::parse("http://example.com/2").unwrap();
    let url3 = Url::parse("http://example.com/3").unwrap();

    nav.navigate_to(url1);
    nav.navigate_to(url2);
    nav.back();

    // Navigate to new URL should clear forward history
    nav.navigate_to(url3.clone());
    assert_eq!(nav.current().unwrap(), &url3);
    assert!(!nav.can_go_forward());
}

#[test]
fn test_navigator_stops_at_both_ends() {
    let mut nav = Navigator::default();
    assert!(nav.is_well_formed());
    assert!(nav.back().is_none());
    assert!(nav.forward().is_none());
    let url1 = Url::parse("http://example.com/1").unwrap();
    let url2 = Url::parse("http://example.com/2").unwrap();
    let url3 = Url::parse("http://example.com/3").unwrap();
    nav.navigate_to(url1.clone());
    assert!(nav.back().is_none());
    assert!(nav.forward().is_none());
    nav.navigate_to(url2.clone());
    nav.navigate_to(url3.clone());
    assert_eq!(nav.back(), Some(&url2));
    assert_eq!(nav.back(), Some(&url1));
    assert_eq!(nav.back(), None);
    assert_eq!(nav.current(), Some(&url1));
    assert_eq!(nav.forward(), Some(&url2));
    assert_eq!(nav.forward(), Some(&url3));
    assert_eq!(nav.forward(), None);
    assert_eq!(nav.current(), Some(&url3));
    // Back twice, then a visit: both later URLs are forgotten.
    nav.back();
    nav.back();
    nav.navigate_to(url3.clone());
    assert!(nav.forward().is_none());
    assert_eq!(nav.back(), Some(&url1));
    assert_eq!(nav.back(), None);
}

#[test]
fn test_page_loader_creation() {
    let loader = PageLoader::new();
    assert!(loader.resource_loader.cache_count() == 0);
}

#[test]
fn test_page_loader_with_cache_size() {
    let loader = PageLoader::with_cache_size(1024);
    assert!(loader.resource_loader.cache_count() == 0);
    assert_eq!(loader.resource_loader().cache.max_size, 1024);
}

#[test]
fn test_page_loader_clears_its_cache() {
    let mut loader = PageLoader::default();
    let url = Url::parse("http://example.com/a.css").unwrap();
    loader.resource_loader.store_response(url, "text/css".to_string(), vec![1, 2], 1);
    assert_eq!(loader.resource_loader().cache_count(), 1);
    loader.clear_cache();
    assert_eq!(loader.resource_loader().cache_count(), 0);
    assert_eq!(loader.resource_loader().cache_size(), 0);
}

#[test]
fn test_extract_text_content() {
    let loader = PageLoader::new();

    // Create a simple DOM tree
    let text_node = Node::text("Hello World".to_string());
    let content = loader.extract_text_content(&text_node);
    assert_eq!(content, "Hello World");
}

#[test]
fn test_extract_text_content_joins_the_texts_below() {
    let loader = PageLoader::new();
    let tree = elem(
        "div",
        &[],
        vec![
            Node::text("a ".to_string()),
            elem("b", &[], vec![Node::text("b".to_string()), Node::comment("no".to_string())]),
            Node::text(" c".to_string()),
        ],
    );
    assert_eq!(loader.extract_text_content(&tree), "a b c");
    assert_eq!(loader.extract_text_content(&Node::comment("x".to_string())), "");
    assert_eq!(loader.extract_text_content(&elem("p", &[], vec![])), "");
}

#[test]
fn test_style_sources_come_in_document_order() {
    let loader = PageLoader::new();
    let dom = elem(
        "html",
        &[],
        vec![
            elem(
                "head",
                &[],
                vec![
                    elem("LINK", &[("rel", "StyleSheet"), ("href", "a.css")], vec![]),
                    elem("style", &[], vec![Node::text("p { color: red; }".to_string())]),
                    elem("link", &[("rel", "icon"), ("href", "icon.png")], vec![]),
                    elem("link", &[("rel", "stylesheet")], vec![]),
                    elem("link", &[("href", "b.css")], vec![]),
                    elem("style", &[], vec![]),
                ],
            ),
            elem(
                "body",
                &[],
                vec![
                    elem("p", &[("rel", "stylesheet"), ("href", "c.css")], vec![]),
                    elem(
                        "div",
                        &[],
                        vec![elem(
                            "Style",
                            &[],
                            vec![Node::text("a {}".to_string()), Node::text(" b {}".to_string())],
                        )],
                    ),
                    elem("link", &[("href", "/d.css"), ("rel", "stylesheet")], vec![]),
                ],
            ),
        ],
    );
    let sources = loader.extract_style_sources(&dom);
    assert_eq!(
        shown(&sources),
        vec!["link:a.css", "inline:p { color: red; }", "inline:a {} b {}", "link:/d.css"]
    );
    let mut more = vec![StyleSource::Linked("first.css".to_string())];
    loader.collect_style_sources(&dom, &mut more);
    assert_eq!(more.len(), 5);
    assert_eq!(shown(&more)[0], "link:first.css");
    assert_eq!(shown(&more)[1..], shown(&sources)[..]);
    assert!(loader.extract_style_sources(&small_document()).is_empty());
}

#[test]
fn test_loaded_page_merged_stylesheet() {
    // Create a minimal page
    let dom = small_document();

    let page = LoadedPage {
        url: Url::parse("http://example.com").unwrap(),
        dom,
        stylesheets: Vec::new(),
    };

    // Should return empty stylesheet
    let stylesheet = page.merged_stylesheet();
    assert_eq!(stylesheet.rules.len(), 0);
}

#[test]
fn test_loaded_page_merged_stylesheet_multiple() {
    let dom = small_document();

    // p { color: red; }
    let css1 = Stylesheet::new(vec![tag_rule("p", "color", Value::Color(Color::new(255, 0, 0, 255)))]);
    // p { font-size: 16px; }
    let css2 = Stylesheet::new(vec![tag_rule("p", "font-size", Value::Length(16, Unit::Px))]);

    let page = LoadedPage {
        url: Url::parse("http://example.com").unwrap(),
        dom,
        stylesheets: vec![css1, css2],
    };

    // Should merge both stylesheets
    let stylesheet = page.merged_stylesheet();
    assert_eq!(stylesheet.rules.len(), 2);
}

#[test]
fn test_merged_stylesheet_keeps_the_order_of_the_rules() {
    let sheets = vec![
        Stylesheet::new(vec![
            tag_rule("a", "width", Value::Length(1, Unit::Px)),
            tag_rule("b", "width", Value::Length(2, Unit::Px)),
        ]),
        Stylesheet::new(Vec::new()),
        Stylesheet::new(vec![tag_rule("c", "width", Value::Length(3, Unit::Px))]),
    ];
    let page = LoadedPage {
        url: Url::parse("http://example.com").unwrap(),
        dom: small_document(),
        stylesheets: sheets,
    };
    let merged = page.merged_stylesheet();
    let widths: Vec<&Value> = merged.rules.iter().map(|rule| &rule.declarations[0].value).collect();
    assert_eq!(
        widths,
        vec![&Value::Length(1, Unit::Px), &Value::Length(2, Unit::Px), &Value::Length(3, Unit::Px)]
    );
}

#[test]
fn test_net_errors_say_what_failed() {
    use_error(browser_engine::net::NetError::InvalidUrl("x".to_string()), "Invalid URL: x");
    use_error(browser_engine::net::NetError::RequestFailed("refused".to_string()), "Request failed: refused");
    use_error(browser_engine::net::NetError::Timeout, "Request timed out");
    use_error(browser_engine::net::NetError::NetworkError("down".to_string()), "Network error: down");
    use_error(browser_engine::net::NetError::ParseError("Invalid UTF-8".to_string()), "Parse error: Invalid UTF-8");
}

fn use_error(error: browser_engine::net::NetError, text: &str) {
    assert_eq!(error.to_string(), text);
}
