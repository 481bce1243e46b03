// Values of style sheets.

use browser_engine::css::{specificity, Color, Selector, SimpleSelector, Specificity, Unit, Value};

#[test]
fn test_specificity() {
    let selector = Selector::Simple(SimpleSelector {
        tag_name: Some("div".to_string()),
        id: Some("main".to_string()),
        classes: vec!["container".to_string()],
    });

    let spec = specificity(&selector);
    assert_eq!(spec, Specificity(1, 1, 1));
}

#[test]
fn test_specificity_counts_classes() {
    let selector = Selector::Simple(SimpleSelector {
        tag_name: None,
        id: None,
        classes: vec!["a".to_string(), "b".to_string(), "c".to_string()],
    });
    assert_eq!(specificity(&selector), Specificity(0, 3, 0));
    assert!(Specificity(0, 3, 0).is_at_most(&Specificity(1, 0, 0)));
    assert!(Specificity(0, 3, 1).is_at_most(&Specificity(0, 3, 1)));
    assert!(!Specificity(0, 3, 1).is_at_most(&Specificity(0, 3, 0)));
    assert!(Specificity(0, 2, 9).is_at_most(&Specificity(0, 3, 0)));
    assert!(!Specificity(1, 0, 0).is_at_most(&Specificity(0, 9, 9)));
}

#[test]
fn test_colors() {
    assert_eq!(Color::new(1, 2, 3, 4), Color { r: 1, g: 2, b: 3, a: 4 });
    assert_eq!(Color::black(), Color { r: 0, g: 0, b: 0, a: 255 });
    assert_eq!(Color::white(), Color { r: 255, g: 255, b: 255, a: 255 });
}

#[test]
fn test_values() {
    let word = Value::Keyword("auto".to_string());
    assert!(word.is_keyword("auto"));
    assert!(!word.is_keyword("Auto"));
    assert!(!Value::Number(1).is_keyword("auto"));
    assert_eq!(word.clone(), word);
    assert_eq!(Value::Length(3, Unit::Rem).clone(), Value::Length(3, Unit::Rem));
    assert_eq!(Value::Percentage(50).clone(), Value::Percentage(50));
}

#[test]
fn test_hex_colors() {
    use_hex("fff", Some((255, 255, 255)));
    use_hex("000", Some((0, 0, 0)));
    use_hex("a1C", Some((0xaa, 0x11, 0xcc)));
    use_hex("ff8000", Some((255, 128, 0)));
    use_hex("1A2b3C", Some((0x1a, 0x2b, 0x3c)));
    // Number signs before the code are left out.
    use_hex("#333", Some((0x33, 0x33, 0x33)));
    use_hex("##abcdef", Some((0xab, 0xcd, 0xef)));
    // A plus sign may stand for the first digit of a pair.
    use_hex("+f+0+a", Some((15, 0, 10)));
    // Everything else is no color.
    use_hex("", None);
    use_hex("#", None);
    use_hex("ff", None);
    use_hex("ffff", None);
    use_hex("fffff", None);
    use_hex("fffffff", None);
    use_hex("ggg", None);
    use_hex("+ff", None);
    use_hex("f+f+f+", None);
    use_hex("-f-f-f", None);
    use_hex("ff 000", None);
    use_hex("fff#", None);
    use_hex("é1", None);
    use_hex("ééé", None);
}

fn use_hex(code: &str, expected: Option<(u8, u8, u8)>) {
    let parsed = browser_engine::css::parse_hex_color(code);
    match expected {
        Some((r, g, b)) => assert_eq!(parsed, Ok(Value::Color(Color::new(r, g, b, 255))), "{}", code),
        None => assert_eq!(parsed, Err(()), "{}", code),
    }
}

#[test]
fn test_unit_names() {
    assert_eq!(Unit::from_name("px"), Some(Unit::Px));
    assert_eq!(Unit::from_name("em"), Some(Unit::Em));
    assert_eq!(Unit::from_name("rem"), Some(Unit::Rem));
    assert_eq!(Unit::from_name("%"), Some(Unit::Percent));
    assert_eq!(Unit::from_name("PX"), None);
    assert_eq!(Unit::from_name("pt"), None);
    assert_eq!(Unit::from_name(""), None);
}

#[test]
fn test_value_text() {
    assert_eq!(Value::Keyword("auto".to_string()).to_string(), "auto");
    assert_eq!(Value::Length(16, Unit::Px).to_string(), "16px");
    assert_eq!(Value::Length(-2, Unit::Em).to_string(), "-2em");
    assert_eq!(Value::Length(0, Unit::Rem).to_string(), "0rem");
    assert_eq!(Value::Length(50, Unit::Percent).to_string(), "50%");
    assert_eq!(Value::Color(Color::new(1, 20, 255, 0)).to_string(), "rgba(1, 20, 255, 0)");
    assert_eq!(Value::Number(i64::MIN).to_string(), "-9223372036854775808");
    assert_eq!(Value::Percentage(150).to_string(), "150%");
}
