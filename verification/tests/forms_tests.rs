// Forms: inputs, text areas, form data and the focus.

use browser_engine::forms::{
    Attributes, FocusManager, FormState, InputState, InputType, TextAreaState,
};

#[test]
fn test_input_type_parsing() {
    assert_eq!(InputType::from_str("text"), InputType::Text);
    assert_eq!(InputType::from_str("password"), InputType::Password);
    assert_eq!(InputType::from_str("checkbox"), InputType::Checkbox);
    assert_eq!(InputType::from_str("unknown"), InputType::Text);
}

#[test]
fn test_input_state_set_value() {
    let mut input = InputState::default();

    assert!(input.set_value("test".to_string()));
    assert_eq!(input.value, "test");

    // Test max_length
    input.max_length = Some(5);
    assert!(input.set_value("toolong".to_string()));
    assert_eq!(input.value, "toolo");

    // Test readonly
    input.readonly = true;
    assert!(!input.set_value("newvalue".to_string()));
    assert_eq!(input.value, "toolo"); // Unchanged
}

#[test]
fn test_input_toggle_checked() {
    let mut checkbox = InputState {
        input_type: InputType::Checkbox,
        ..Default::default()
    };

    assert!(!checkbox.checked);
    assert!(checkbox.toggle_checked());
    assert!(checkbox.checked);
    assert!(checkbox.toggle_checked());
    assert!(!checkbox.checked);

    // Test disabled
    checkbox.disabled = true;
    assert!(!checkbox.toggle_checked());
}

#[test]
fn test_textarea_state() {
    let mut textarea = TextAreaState::default();

    assert!(textarea.set_value("Hello\nWorld".to_string()));
    assert_eq!(textarea.value, "Hello\nWorld");

    textarea.readonly = true;
    assert!(!textarea.set_value("New".to_string()));
}

#[test]
fn test_form_collect_data() {
    let mut form = FormState::default();

    let mut input1 = InputState::default();
    input1.value = "John".to_string();
    form.inputs.insert("name".to_string(), input1);

    let mut input2 = InputState {
        input_type: InputType::Checkbox,
        checked: true,
        value: "on".to_string(),
        ..Default::default()
    };
    form.inputs.insert("subscribe".to_string(), input2);

    let data = form.collect_data();
    assert_eq!(data.get("name"), Some(&"John".to_string()));
    assert_eq!(data.get("subscribe"), Some(&"on".to_string()));
}

#[test]
fn test_form_reset() {
    let mut form = FormState::default();

    let mut input = InputState::default();
    input.value = "test".to_string();
    form.inputs.insert("field".to_string(), input);

    form.reset();
    assert_eq!(form.inputs.get("field").unwrap().value, "");
}

#[test]
fn test_focus_manager() {
    let mut focus = FocusManager::new();

    focus.register_focusable("input1".to_string());
    focus.register_focusable("input2".to_string());
    focus.register_focusable("input3".to_string());

    // Focus first element
    assert!(focus.focus("input1".to_string()));
    assert_eq!(focus.focused_element(), Some(&"input1".to_string()));

    // Tab to next
    focus.focus_next();
    assert_eq!(focus.focused_element(), Some(&"input2".to_string()));

    focus.focus_next();
    assert_eq!(focus.focused_element(), Some(&"input3".to_string()));

    // Wrap around
    focus.focus_next();
    assert_eq!(focus.focused_element(), Some(&"input1".to_string()));

    // Shift+Tab (previous)
    focus.focus_previous();
    assert_eq!(focus.focused_element(), Some(&"input3".to_string()));
}

#[test]
fn test_focus_unregister() {
    let mut focus = FocusManager::new();

    focus.register_focusable("input1".to_string());
    focus.focus("input1".to_string());

    focus.unregister_focusable("input1");
    assert_eq!(focus.focused_element(), None);
}

fn attributes(pairs: &[(&str, &str)]) -> Attributes {
    let mut attrs = Attributes::new();
    for (name, value) in pairs {
        attrs.insert(name.to_string(), value.to_string());
    }
    attrs
}

#[test]
fn test_input_type_ignores_case() {
    assert_eq!(InputType::from_str("PassWord"), InputType::Password);
    assert_eq!(InputType::from_str("EMAIL"), InputType::Email);
    assert_eq!(InputType::from_str("number"), InputType::Number);
    assert_eq!(InputType::from_str("radio"), InputType::Radio);
    assert_eq!(InputType::from_str("submit"), InputType::Submit);
    assert_eq!(InputType::from_str("button"), InputType::Button);
    assert_eq!(InputType::from_str("hidden"), InputType::Hidden);
    assert_eq!(InputType::from_lowercase("PASSWORD"), InputType::Text);
}

#[test]
fn test_input_from_attributes() {
    let attrs = attributes(&[
        ("type", "Checkbox"),
        ("value", "yes"),
        ("checked", ""),
        ("placeholder", "tick"),
        ("maxlength", "+12"),
    ]);
    let input = InputState::from_attributes(&attrs);
    assert_eq!(input.input_type, InputType::Checkbox);
    assert_eq!(input.value, "yes");
    assert!(input.checked);
    assert!(!input.disabled);
    assert!(!input.readonly);
    assert_eq!(input.placeholder, Some("tick".to_string()));
    assert_eq!(input.max_length, Some(12));
    let plain = InputState::from_attributes(&attributes(&[("maxlength", "-1")]));
    assert_eq!(plain.input_type, InputType::Text);
    assert_eq!(plain.value, "");
    assert_eq!(plain.max_length, None);
}

#[test]
fn test_maxlength_must_be_a_number_that_fits() {
    for text in ["", "+", "1 2", "12a", " 7", "99999999999999999999999999"] {
        let input = InputState::from_attributes(&attributes(&[("maxlength", text)]));
        assert_eq!(input.max_length, None, "{:?}", text);
    }
    let input = InputState::from_attributes(&attributes(&[("maxlength", "007")]));
    assert_eq!(input.max_length, Some(7));
    let most = usize::MAX.to_string();
    let input = InputState::from_attributes(&attributes(&[("maxlength", most.as_str())]));
    assert_eq!(input.max_length, Some(usize::MAX));
}

#[test]
fn test_set_value_counts_characters_not_bytes() {
    let mut input = InputState::default();
    input.max_length = Some(2);
    assert!(input.set_value("äöü".to_string()));
    assert_eq!(input.value, "äö");
    input.disabled = true;
    assert!(!input.set_value("x".to_string()));
    assert_eq!(input.value, "äö");
}

#[test]
fn test_radio_stays_checked() {
    let mut radio = InputState { input_type: InputType::Radio, ..Default::default() };
    assert!(radio.toggle_checked());
    assert!(radio.checked);
    assert!(radio.toggle_checked());
    assert!(radio.checked);
    let mut text = InputState::default();
    assert!(!text.toggle_checked());
    assert!(!text.checked);
}

#[test]
fn test_textarea_from_attributes() {
    let area = TextAreaState::from_attributes(&attributes(&[
        ("rows", "0"),
        ("cols", "5000"),
        ("readonly", ""),
        ("maxlength", "3"),
    ]));
    assert_eq!(area.rows, 1);
    assert_eq!(area.cols, 1000);
    assert!(area.readonly);
    assert_eq!(area.max_length, Some(3));
    let plain = TextAreaState::from_attributes(&attributes(&[("rows", "many")]));
    assert_eq!(plain.rows, 2);
    assert_eq!(plain.cols, 20);
    let mut area = TextAreaState::default();
    area.max_length = Some(3);
    assert!(area.set_value("abcdef".to_string()));
    assert_eq!(area.value, "abc");
}

#[test]
fn test_form_from_attributes() {
    let form = FormState::from_attributes(&attributes(&[("action", "/go"), ("method", "post")]));
    assert_eq!(form.action, Some("/go".to_string()));
    assert_eq!(form.method, "POST");
    let form = FormState::from_attributes(&attributes(&[]));
    assert_eq!(form.action, None);
    assert_eq!(form.method, "GET");
}

#[test]
fn test_collect_data_leaves_out_buttons_and_unchecked_boxes() {
    let mut form = FormState::default();
    form.inputs.insert(
        "go".to_string(),
        InputState { input_type: InputType::Submit, value: "Go".to_string(), ..Default::default() },
    );
    form.inputs.insert(
        "box".to_string(),
        InputState { input_type: InputType::Checkbox, value: "on".to_string(), ..Default::default() },
    );
    form.inputs.insert(
        "note".to_string(),
        InputState { value: "from input".to_string(), ..Default::default() },
    );
    let mut area = TextAreaState::default();
    area.value = "from area".to_string();
    form.textareas.insert("note".to_string(), area);
    let data = form.collect_data();
    assert_eq!(data.len(), 1);
    assert_eq!(data.get("note"), Some(&"from area".to_string()));
    assert_eq!(data.get("go"), None);
    assert_eq!(data.get("box"), None);
}

#[test]
fn test_reset_unchecks_boxes_and_clears_areas() {
    let mut form = FormState::default();
    form.inputs.insert(
        "box".to_string(),
        InputState {
            input_type: InputType::Checkbox,
            checked: true,
            value: "on".to_string(),
            ..Default::default()
        },
    );
    let mut area = TextAreaState::default();
    area.value = "text".to_string();
    area.rows = 7;
    form.textareas.insert("note".to_string(), area);
    form.reset();
    assert!(!form.inputs.get("box").unwrap().checked);
    assert_eq!(form.inputs.get("box").unwrap().value, "");
    assert_eq!(form.textareas.get("note").unwrap().value, "");
    assert_eq!(form.textareas.get("note").unwrap().rows, 7);
}

#[test]
fn test_focus_edges() {
    let mut focus = FocusManager::default();
    assert_eq!(focus.focus_next(), None);
    assert_eq!(focus.focus_previous(), None);
    focus.register_focusable("a".to_string());
    focus.register_focusable("b".to_string());
    focus.register_focusable("a".to_string());
    assert!(!focus.focus("c".to_string()));
    assert_eq!(focus.focused_element(), None);
    assert_eq!(focus.focus_previous(), Some(&"b".to_string()));
    assert_eq!(focus.focus_previous(), Some(&"a".to_string()));
    assert_eq!(focus.focus_previous(), Some(&"b".to_string()));
    focus.blur();
    assert_eq!(focus.focus_next(), Some(&"a".to_string()));
    focus.unregister_focusable("b");
    assert_eq!(focus.focus_next(), Some(&"a".to_string()));
}
