//! Forms: the state of inputs, text areas and forms, and the focus.

use vstd::prelude::*;
use crate::string_map::StringMap;
use crate::text::{
    lowercase, parse_usize, parsed_usize, str_eq, take_chars, to_lowercase, to_uppercase, uppercase,
};

verus! {

/// Form input types
#[derive(Debug, Clone, Copy, PartialEq, Eq, Structural)]
pub enum InputType {
    Text,
    Password,
    Email,
    Number,
    Checkbox,
    Radio,
    Submit,
    Button,
    Hidden,
}

/// The input type that a lower-case word names; `Text` for every word that
/// names none.
pub open spec fn input_type_of(word: Seq<char>) -> InputType {
    if word == "password"@ {
        InputType::Password
    } else if word == "email"@ {
        InputType::Email
    } else if word == "number"@ {
        InputType::Number
    } else if word == "checkbox"@ {
        InputType::Checkbox
    } else if word == "radio"@ {
        InputType::Radio
    } else if word == "submit"@ {
        InputType::Submit
    } else if word == "button"@ {
        InputType::Button
    } else if word == "hidden"@ {
        InputType::Hidden
    } else {
        InputType::Text
    }
}

impl InputType {
    /// Parse input type from string, whatever the case of its letters.
    pub fn from_str(s: &str) -> (t: Self)
        ensures
            t == input_type_of(lowercase(s@)),
    {
        let lower = to_lowercase(s);
        InputType::from_lowercase(lower.as_str())
    }

    /// The input type that a lower-case word names.
    pub fn from_lowercase(word: &str) -> (t: Self)
        ensures
            t == input_type_of(word@),
    {
        if str_eq(word, "password") {
            InputType::Password
        } else if str_eq(word, "email") {
            InputType::Email
        } else if str_eq(word, "number") {
            InputType::Number
        } else if str_eq(word, "checkbox") {
            InputType::Checkbox
        } else if str_eq(word, "radio") {
            InputType::Radio
        } else if str_eq(word, "submit") {
            InputType::Submit
        } else if str_eq(word, "button") {
            InputType::Button
        } else if str_eq(word, "hidden") {
            InputType::Hidden
        } else {
            InputType::Text
        }
    }
}

/// The attributes of an element, by name.
pub type Attributes = StringMap<String>;

/// The number under `name`, where the attribute is an unsigned decimal
/// number that fits in `usize`.
pub open spec fn number_attribute(attrs: Map<Seq<char>, String>, name: Seq<char>) -> Option<usize> {
    if attrs.contains_key(name) {
        parsed_usize(attrs[name]@)
    } else {
        None
    }
}

/// The text under `name`, where there is such an attribute.
pub open spec fn text_attribute(attrs: Map<Seq<char>, String>, name: Seq<char>) -> Option<Seq<char>> {
    if attrs.contains_key(name) {
        Some(attrs[name]@)
    } else {
        None
    }
}

/// The text of an optional string.
pub open spec fn text_of(s: Option<String>) -> Option<Seq<char>> {
    match s {
        Some(t) => Some(t@),
        None => None,
    }
}

/// Reads the number under `name`.
fn read_number(attrs: &Attributes, name: &str) -> (n: Option<usize>)
    ensures
        n == number_attribute(attrs@, name@),
{
    match attrs.get(name) {
        Some(s) => parse_usize(s.as_str()),
        None => None,
    }
}

/// Reads the text under `name`.
fn read_text(attrs: &Attributes, name: &str) -> (t: Option<String>)
    ensures
        text_of(t) == text_attribute(attrs@, name@),
{
    match attrs.get(name) {
        Some(s) => Some(s.clone()),
        None => None,
    }
}

/// A value cut to the length that a limit allows: the first characters up
/// to the limit, or all of it without a limit.
pub open spec fn limited(value: Seq<char>, max_length: Option<usize>) -> Seq<char> {
    match max_length {
        Some(m) => value.subrange(0, if m < value.len() {
            m as int
        } else {
            value.len() as int
        }),
        None => value,
    }
}

/// Input element state
#[derive(Debug, Clone)]
pub struct InputState {
    pub input_type: InputType,
    pub value: String,
    pub checked: bool,
    pub disabled: bool,
    pub readonly: bool,
    pub placeholder: Option<String>,
    pub max_length: Option<usize>,
}

impl Default for InputState {
    fn default() -> (state: Self)
        ensures
            state.input_type == InputType::Text,
            state.value@ == Seq::<char>::empty(),
            !state.checked,
            !state.disabled,
            !state.readonly,
            state.placeholder.is_none(),
            state.max_length.is_none(),
    {
        InputState {
            input_type: InputType::Text,
            value: String::new(),
            checked: false,
            disabled: false,
            readonly: false,
            placeholder: None,
            max_length: None,
        }
    }
}

impl InputState {
    /// Create from DOM attributes
    pub fn from_attributes(attrs: &Attributes) -> (state: Self)
        ensures
            state.input_type == match text_attribute(attrs@, "type"@) {
                Some(t) => input_type_of(lowercase(t)),
                None => InputType::Text,
            },
            state.value@ == match text_attribute(attrs@, "value"@) {
                Some(v) => v,
                None => Seq::empty(),
            },
            state.checked == attrs@.contains_key("checked"@),
            state.disabled == attrs@.contains_key("disabled"@),
            state.readonly == attrs@.contains_key("readonly"@),
            text_of(state.placeholder) == text_attribute(attrs@, "placeholder"@),
            state.max_length == number_attribute(attrs@, "maxlength"@),
    {
        let input_type = match attrs.get("type") {
            Some(t) => InputType::from_str(t.as_str()),
            None => InputType::Text,
        };
        let value = match attrs.get("value") {
            Some(v) => v.clone(),
            None => String::new(),
        };
        let checked = attrs.contains_key("checked");
        let disabled = attrs.contains_key("disabled");
        let readonly = attrs.contains_key("readonly");
        let placeholder = read_text(attrs, "placeholder");
        let max_length = read_number(attrs, "maxlength");
        InputState { input_type, value, checked, disabled, readonly, placeholder, max_length }
    }

    /// Update value (respecting maxlength and readonly). Says whether the
    /// value was set: a read-only or disabled input keeps its value.
    pub fn set_value(&mut self, new_value: String) -> (set: bool)
        ensures
            set == !(old(self).readonly || old(self).disabled),
            final(self).value@ == if set {
                limited(new_value@, old(self).max_length)
            } else {
                old(self).value@
            },
            final(self).input_type == old(self).input_type,
            final(self).checked == old(self).checked,
            final(self).disabled == old(self).disabled,
            final(self).readonly == old(self).readonly,
            final(self).placeholder == old(self).placeholder,
            final(self).max_length == old(self).max_length,
    {
        if self.readonly || self.disabled {
            return false;
        }
        let value = if let Some(max_len) = self.max_length {
            take_chars(new_value.as_str(), max_len)
        } else {
            new_value
        };
        self.value = value;
        true
    }

    /// Toggle checked state (for checkbox/radio). A checkbox flips, a radio
    /// button becomes checked; says whether the input is one of the two and
    /// not disabled.
    pub fn toggle_checked(&mut self) -> (toggled: bool)
        ensures
            toggled == (!old(self).disabled && (old(self).input_type == InputType::Checkbox || old(self).input_type == InputType::Radio)),
            final(self).checked == if !toggled {
                old(self).checked
            } else if old(self).input_type == InputType::Checkbox {
                !old(self).checked
            } else {
                true
            },
            final(self).input_type == old(self).input_type,
            final(self).value == old(self).value,
            final(self).disabled == old(self).disabled,
            final(self).readonly == old(self).readonly,
            final(self).placeholder == old(self).placeholder,
            final(self).max_length == old(self).max_length,
    {
        if self.disabled {
            return false;
        }
        match self.input_type {
            InputType::Checkbox => {
                self.checked = !self.checked;
                true
            },
            InputType::Radio => {
                self.checked = true;
                true
            },
            _ => false,
        }
    }
}

/// A number of rows or columns held between 1 and 1000; `default` where
/// none is given.
pub open spec fn grid_size(given: Option<usize>, default: usize) -> usize {
    let n = match given {
        Some(v) => v,
        None => default,
    };
    if n < 1 {
        1
    } else if n > 1000 {
        1000
    } else {
        n
    }
}

/// Holds a number of rows or columns between 1 and 1000.
fn clamp_grid_size(given: Option<usize>, default: usize) -> (n: usize)
    ensures
        n == grid_size(given, default),
{
    let n = match given {
        Some(v) => v,
        None => default,
    };
    if n < 1 {
        1
    } else if n > 1000 {
        1000
    } else {
        n
    }
}

/// Textarea element state
#[derive(Debug, Clone)]
pub struct TextAreaState {
    pub value: String,
    pub disabled: bool,
    pub readonly: bool,
    pub placeholder: Option<String>,
    pub rows: usize,
    pub cols: usize,
    pub max_length: Option<usize>,
}

impl Default for TextAreaState {
    fn default() -> (state: Self)
        ensures
            state.value@ == Seq::<char>::empty(),
            !state.disabled,
            !state.readonly,
            state.placeholder.is_none(),
            state.rows == 2,
            state.cols == 20,
            state.max_length.is_none(),
    {
        TextAreaState {
            value: String::new(),
            disabled: false,
            readonly: false,
            placeholder: None,
            rows: 2,
            cols: 20,
            max_length: None,
        }
    }
}

impl TextAreaState {
    /// Create from DOM attributes
    pub fn from_attributes(attrs: &Attributes) -> (state: Self)
        ensures
            state.value@ == Seq::<char>::empty(),
            state.disabled == attrs@.contains_key("disabled"@),
            state.readonly == attrs@.contains_key("readonly"@),
            text_of(state.placeholder) == text_attribute(attrs@, "placeholder"@),
            state.rows == grid_size(number_attribute(attrs@, "rows"@), 2),
            state.cols == grid_size(number_attribute(attrs@, "cols"@), 20),
            state.max_length == number_attribute(attrs@, "maxlength"@),
    {
        let disabled = attrs.contains_key("disabled");
        let readonly = attrs.contains_key("readonly");
        let placeholder = read_text(attrs, "placeholder");
        let rows = clamp_grid_size(read_number(attrs, "rows"), 2);
        let cols = clamp_grid_size(read_number(attrs, "cols"), 20);
        let max_length = read_number(attrs, "maxlength");
        TextAreaState {
            value: String::new(),
            disabled,
            readonly,
            placeholder,
            rows,
            cols,
            max_length,
        }
    }

    /// Update value. Says whether the value was set: a read-only or
    /// disabled text area keeps its value.
    pub fn set_value(&mut self, new_value: String) -> (set: bool)
        ensures
            set == !(old(self).readonly || old(self).disabled),
            final(self).value@ == if set {
                limited(new_value@, old(self).max_length)
            } else {
                old(self).value@
            },
            final(self).disabled == old(self).disabled,
            final(self).readonly == old(self).readonly,
            final(self).placeholder == old(self).placeholder,
            final(self).rows == old(self).rows,
            final(self).cols == old(self).cols,
            final(self).max_length == old(self).max_length,
    {
        if self.readonly || self.disabled {
            return false;
        }
        let value = if let Some(max_len) = self.max_length {
            take_chars(new_value.as_str(), max_len)
        } else {
            new_value
        };
        self.value = value;
        true
    }
}

/// Whether an input takes part in the data of its form: a checkbox or a
/// radio button where it is checked, a submit or plain button never, every
/// other input always.
pub open spec fn is_submitted(input: InputState) -> bool {
    match input.input_type {
        InputType::Checkbox | InputType::Radio => input.checked,
        InputType::Submit | InputType::Button => false,
        _ => true,
    }
}

/// The data of a form: the value of each text area under its name, and
/// under every other name the value of the input that takes part.
pub open spec fn form_data(
    inputs: Map<Seq<char>, InputState>,
    textareas: Map<Seq<char>, TextAreaState>,
) -> Map<Seq<char>, Seq<char>> {
    Map::new(
        |k: Seq<char>| textareas.contains_key(k) || (inputs.contains_key(k) && is_submitted(inputs[k])),
        |k: Seq<char>|
            if textareas.contains_key(k) {
                textareas[k].value@
            } else {
                inputs[k].value@
            },
    )
}

/// Whether one of the first `i` names is `k`.
pub open spec fn named_before(names: Seq<Seq<char>>, k: Seq<char>, i: int) -> bool {
    exists|j: int| 0 <= j < i && j < names.len() && #[trigger] names[j] == k
}

/// Whether one of the first `i` inputs has the name `k` and takes part in
/// the data of the form.
pub open spec fn submitted_before(
    names: Seq<Seq<char>>,
    states: Seq<InputState>,
    k: Seq<char>,
    i: int,
) -> bool {
    exists|j: int|
        0 <= j < i && j < names.len() && #[trigger] names[j] == k && is_submitted(states[j])
}

/// One name more is among the names where it was before or is the new one.
pub proof fn lemma_named_step(names: Seq<Seq<char>>, k: Seq<char>, i: int)
    requires
        0 <= i < names.len(),
    ensures
        named_before(names, k, i + 1) <==> named_before(names, k, i) || names[i] == k,
{
    if named_before(names, k, i + 1) {
        let j = choose|j: int| 0 <= j < i + 1 && j < names.len() && #[trigger] names[j] == k;
        if j < i {
            assert(0 <= j < i && names[j] == k);
        }
    }
    if named_before(names, k, i) {
        let j = choose|j: int| 0 <= j < i && j < names.len() && #[trigger] names[j] == k;
        assert(0 <= j < i + 1 && names[j] == k);
    }
    if names[i] == k {
        assert(0 <= i < i + 1 && names[i] == k);
    }
}

/// One input more takes part under a name where one did before or the new
/// one does.
pub proof fn lemma_submitted_step(
    names: Seq<Seq<char>>,
    states: Seq<InputState>,
    k: Seq<char>,
    i: int,
)
    requires
        0 <= i < names.len(),
    ensures
        submitted_before(names, states, k, i + 1) <==> submitted_before(names, states, k, i) || (
        names[i] == k && is_submitted(states[i])),
{
    if submitted_before(names, states, k, i + 1) {
        let j = choose|j: int|
            0 <= j < i + 1 && j < names.len() && #[trigger] names[j] == k && is_submitted(
                states[j],
            );
        if j < i {
            assert(0 <= j < i && names[j] == k && is_submitted(states[j]));
        }
    }
    if submitted_before(names, states, k, i) {
        let j = choose|j: int|
            0 <= j < i && j < names.len() && #[trigger] names[j] == k && is_submitted(states[j]);
        assert(0 <= j < i + 1 && names[j] == k && is_submitted(states[j]));
    }
    if names[i] == k && is_submitted(states[i]) {
        assert(0 <= i < i + 1 && names[i] == k && is_submitted(states[i]));
    }
}

/// A name is among all the names where the map of the names holds it.
pub proof fn lemma_named_all<V>(names: Seq<Seq<char>>, values: Seq<V>, k: Seq<char>)
    requires
        names.no_duplicates(),
    ensures
        named_before(names, k, names.len() as int) <==> crate::string_map::assoc(
            names,
            values,
        ).contains_key(k),
{
    if named_before(names, k, names.len() as int) {
        let j = choose|j: int| 0 <= j < names.len() && j < names.len() && #[trigger] names[j] == k;
        crate::string_map::lemma_assoc_at(names, values, j);
    }
    if names.contains(k) {
        let j = names.index_of(k);
        assert(0 <= j < names.len() && names[j] == k);
    }
}

/// An input takes part under a name among all the inputs where the map of
/// the inputs holds the name with an input that takes part.
pub proof fn lemma_submitted_all(names: Seq<Seq<char>>, states: Seq<InputState>, k: Seq<char>)
    requires
        names.no_duplicates(),
        names.len() == states.len(),
    ensures
        submitted_before(names, states, k, names.len() as int) <==> (crate::string_map::assoc(
            names,
            states,
        ).contains_key(k) && is_submitted(crate::string_map::assoc(names, states)[k])),
{
    if submitted_before(names, states, k, names.len() as int) {
        let j = choose|j: int|
            0 <= j < names.len() && j < names.len() && #[trigger] names[j] == k && is_submitted(
                states[j],
            );
        crate::string_map::lemma_assoc_at(names, states, j);
    }
    if names.contains(k) {
        let j = names.index_of(k);
        assert(0 <= j < names.len() && names[j] == k);
        crate::string_map::lemma_assoc_at(names, states, j);
    }
}

/// The texts of the strings of a map.
pub open spec fn texts(data: Map<Seq<char>, String>) -> Map<Seq<char>, Seq<char>> {
    Map::new(|k: Seq<char>| data.contains_key(k), |k: Seq<char>| data[k]@)
}

/// An input after a reset: without a value, and not checked where it is a
/// checkbox or a radio button.
pub open spec fn is_reset_of(after: InputState, before: InputState) -> bool {
    &&& after.value@ == Seq::<char>::empty()
    &&& after.checked == if before.input_type == InputType::Checkbox || before.input_type
        == InputType::Radio {
        false
    } else {
        before.checked
    }
    &&& after.input_type == before.input_type
    &&& after.disabled == before.disabled
    &&& after.readonly == before.readonly
    &&& after.placeholder == before.placeholder
    &&& after.max_length == before.max_length
}

/// A text area after a reset: without a value.
pub open spec fn is_cleared_of(after: TextAreaState, before: TextAreaState) -> bool {
    &&& after.value@ == Seq::<char>::empty()
    &&& after.disabled == before.disabled
    &&& after.readonly == before.readonly
    &&& after.placeholder == before.placeholder
    &&& after.rows == before.rows
    &&& after.cols == before.cols
    &&& after.max_length == before.max_length
}

/// Form element state
#[derive(Debug, Clone)]
pub struct FormState {
    pub action: Option<String>,
    pub method: String,
    pub inputs: StringMap<InputState>,
    pub textareas: StringMap<TextAreaState>,
}

impl Default for FormState {
    fn default() -> (form: Self)
        ensures
            form.action.is_none(),
            form.method@ == "GET"@,
            form.inputs@ == Map::<Seq<char>, InputState>::empty(),
            form.textareas@ == Map::<Seq<char>, TextAreaState>::empty(),
    {
        FormState {
            action: None,
            method: String::from_str("GET"),
            inputs: StringMap::new(),
            textareas: StringMap::new(),
        }
    }
}

impl FormState {
    /// Create from form attributes: the action as given, the method in
    /// upper case and `GET` where none is given, and no inputs yet.
    pub fn from_attributes(attrs: &Attributes) -> (form: Self)
        ensures
            text_of(form.action) == text_attribute(attrs@, "action"@),
            form.method@ == match text_attribute(attrs@, "method"@) {
                Some(m) => uppercase(m),
                None => "GET"@,
            },
            form.inputs@ == Map::<Seq<char>, InputState>::empty(),
            form.textareas@ == Map::<Seq<char>, TextAreaState>::empty(),
    {
        let action = read_text(attrs, "action");
        let method = match attrs.get("method") {
            Some(m) => to_uppercase(m.as_str()),
            None => String::from_str("GET"),
        };
        FormState { action, method, inputs: StringMap::new(), textareas: StringMap::new() }
    }

    /// Collect form data for submission
    pub fn collect_data(&self) -> (data: StringMap<String>)
        ensures
            texts(data@) == form_data(self.inputs@, self.textareas@),
    {
        let mut data: StringMap<String> = StringMap::new();
        let input_count = self.inputs.len();
        let ghost names = self.inputs.keys();
        let ghost states = self.inputs.values();
        let mut i: usize = 0;
        while i < input_count
            invariant
                i <= input_count,
                input_count == names.len(),
                names == self.inputs.keys(),
                states == self.inputs.values(),
                names.no_duplicates(),
                names.len() == states.len(),
                forall|k: Seq<char>|
                    #[trigger] data@.contains_key(k) <==> submitted_before(names, states, k, i as int),
                forall|j: int|
                    0 <= j < i && is_submitted(states[j]) ==> data@[#[trigger] names[j]]@
                        == states[j].value@,
            decreases input_count - i,
        {
            let name = self.inputs.key_at(i);
            let input = self.inputs.value_at(i);
            let included = match input.input_type {
                InputType::Checkbox | InputType::Radio => input.checked,
                InputType::Submit | InputType::Button => false,
                _ => true,
            };
            proof {
                assert forall|k: Seq<char>|
                    submitted_before(names, states, k, i as int + 1) <==> submitted_before(
                        names,
                        states,
                        k,
                        i as int,
                    ) || (names[i as int] == k && is_submitted(states[i as int])) by {
                    lemma_submitted_step(names, states, k, i as int);
                }
            }
            if included {
                data.insert(name.clone(), input.value.clone());
                proof {
                    assert forall|j: int| 0 <= j < i + 1 && is_submitted(states[j]) implies data@[#[trigger] names[j]]@
                        == states[j].value@ by {
                        if j < i {
                            assert(names[j] != names[i as int]);
                        }
                    }
                }
            }
            i = i + 1;
        }
        let ghost from_inputs = data@;
        let area_count = self.textareas.len();
        let ghost areas = self.textareas.keys();
        let ghost contents = self.textareas.values();
        let mut i: usize = 0;
        while i < area_count
            invariant
                i <= area_count,
                area_count == areas.len(),
                areas == self.textareas.keys(),
                contents == self.textareas.values(),
                areas.no_duplicates(),
                areas.len() == contents.len(),
                forall|k: Seq<char>|
                    #[trigger] data@.contains_key(k) <==> from_inputs.contains_key(k) || named_before(
                        areas,
                        k,
                        i as int,
                    ),
                forall|j: int| 0 <= j < i ==> data@[#[trigger] areas[j]]@ == contents[j].value@,
                forall|k: Seq<char>|
                    from_inputs.contains_key(k) && !named_before(areas, k, i as int)
                        ==> #[trigger] data@[k] == from_inputs[k],
            decreases area_count - i,
        {
            let name = self.textareas.key_at(i);
            let area = self.textareas.value_at(i);
            proof {
                assert forall|k: Seq<char>|
                    named_before(areas, k, i as int + 1) <==> named_before(areas, k, i as int)
                        || areas[i as int] == k by {
                    lemma_named_step(areas, k, i as int);
                }
            }
            data.insert(name.clone(), area.value.clone());
            proof {
                assert forall|j: int| 0 <= j < i + 1 implies data@[#[trigger] areas[j]]@
                    == contents[j].value@ by {
                    if j < i {
                        assert(areas[j] != areas[i as int]);
                    }
                }
            }
            i = i + 1;
        }
        proof {
            let expected = form_data(self.inputs@, self.textareas@);
            let got = texts(data@);
            assert forall|k: Seq<char>|
                named_before(areas, k, area_count as int) <==> self.textareas@.contains_key(k) by {
                lemma_named_all(areas, contents, k);
            }
            assert forall|k: Seq<char>|
                submitted_before(names, states, k, input_count as int) <==> (
                self.inputs@.contains_key(k) && is_submitted(self.inputs@[k])) by {
                lemma_submitted_all(names, states, k);
            }
            assert forall|k: Seq<char>| #[trigger] got.contains_key(k) <==> expected.contains_key(
                k,
            ) by {
                assert(got.contains_key(k) == data@.contains_key(k));
            }
            assert forall|k: Seq<char>| #[trigger] got.contains_key(k) implies got[k] == expected[k] by {
                assert(data@.contains_key(k));
                if self.textareas@.contains_key(k) {
                    let j = choose|j: int| 0 <= j < areas.len() && #[trigger] areas[j] == k;
                    crate::string_map::lemma_assoc_at(areas, contents, j);
                } else {
                    assert(from_inputs.contains_key(k));
                    let j = choose|j: int|
                        0 <= j < names.len() && #[trigger] names[j] == k && is_submitted(states[j]);
                    crate::string_map::lemma_assoc_at(names, states, j);
                    assert(data@[k] == from_inputs[k]);
                }
            }
            assert(got =~= expected);
        }
        data
    }

    /// Reset form to initial state: every input and every text area loses
    /// its value, and checkboxes and radio buttons are not checked.
    pub fn reset(&mut self)
        ensures
            final(self).action == old(self).action,
            final(self).method == old(self).method,
            final(self).inputs.keys() == old(self).inputs.keys(),
            final(self).textareas.keys() == old(self).textareas.keys(),
            final(self).inputs.values().len() == old(self).inputs.values().len(),
            final(self).textareas.values().len() == old(self).textareas.values().len(),
            forall|i: int|
                0 <= i < old(self).inputs.values().len() ==> is_reset_of(
                    #[trigger] final(self).inputs.values()[i],
                    old(self).inputs.values()[i],
                ),
            forall|i: int|
                0 <= i < old(self).textareas.values().len() ==> is_cleared_of(
                    #[trigger] final(self).textareas.values()[i],
                    old(self).textareas.values()[i],
                ),
    {
        let input_count = self.inputs.len();
        let mut i: usize = 0;
        while i < input_count
            invariant
                i <= input_count,
                self.action == old(self).action,
                self.method == old(self).method,
                self.textareas == old(self).textareas,
                self.inputs.keys() == old(self).inputs.keys(),
                self.inputs.values().len() == old(self).inputs.values().len(),
                input_count == self.inputs.keys().len(),
                input_count == self.inputs.values().len(),
                forall|j: int|
                    0 <= j < i ==> is_reset_of(
                        #[trigger] self.inputs.values()[j],
                        old(self).inputs.values()[j],
                    ),
                forall|j: int|
                    i <= j < input_count ==> #[trigger] self.inputs.values()[j] == old(self).inputs.values()[j],
            decreases input_count - i,
        {
            let input = self.inputs.value_at(i);
            let checked = match input.input_type {
                InputType::Checkbox | InputType::Radio => false,
                _ => input.checked,
            };
            let cleared = InputState {
                input_type: input.input_type,
                value: String::new(),
                checked,
                disabled: input.disabled,
                readonly: input.readonly,
                placeholder: input.placeholder.clone(),
                max_length: input.max_length,
            };
            self.inputs.set_value_at(i, cleared);
            i = i + 1;
        }
        let area_count = self.textareas.len();
        let mut i: usize = 0;
        while i < area_count
            invariant
                i <= area_count,
                self.action == old(self).action,
                self.method == old(self).method,
                self.inputs.keys() == old(self).inputs.keys(),
                self.inputs.values().len() == old(self).inputs.values().len(),
                forall|j: int|
                    0 <= j < old(self).inputs.values().len() ==> is_reset_of(
                        #[trigger] self.inputs.values()[j],
                        old(self).inputs.values()[j],
                    ),
                self.textareas.keys() == old(self).textareas.keys(),
                self.textareas.values().len() == old(self).textareas.values().len(),
                area_count == self.textareas.keys().len(),
                area_count == self.textareas.values().len(),
                forall|j: int|
                    0 <= j < i ==> is_cleared_of(
                        #[trigger] self.textareas.values()[j],
                        old(self).textareas.values()[j],
                    ),
                forall|j: int|
                    i <= j < area_count ==> #[trigger] self.textareas.values()[j] == old(self).textareas.values()[j],
            decreases area_count - i,
        {
            let area = self.textareas.value_at(i);
            let cleared = TextAreaState {
                value: String::new(),
                disabled: area.disabled,
                readonly: area.readonly,
                placeholder: area.placeholder.clone(),
                rows: area.rows,
                cols: area.cols,
                max_length: area.max_length,
            };
            self.textareas.set_value_at(i, cleared);
            i = i + 1;
        }
    }
}

/// A focus manager as a mathematical value: the focused element, and the
/// elements that can take the focus, in tab order.
pub struct FocusView {
    pub focused: Option<Seq<char>>,
    pub focusable: Seq<Seq<char>>,
}

/// The elements among the first `k` that are not `id`, in order.
pub open spec fn without_id(ids: Seq<Seq<char>>, id: Seq<char>, k: int) -> Seq<Seq<char>>
    decreases k,
{
    if k <= 0 || k > ids.len() {
        Seq::empty()
    } else if ids[k - 1] == id {
        without_id(ids, id, k - 1)
    } else {
        without_id(ids, id, k - 1).push(ids[k - 1])
    }
}

/// The index of the first of the first `k` elements that is `id`; `k` where
/// none of them is.
pub open spec fn first_index(ids: Seq<Seq<char>>, id: Seq<char>, k: int) -> int
    decreases k,
{
    if k <= 0 || k > ids.len() {
        0
    } else {
        let before = first_index(ids, id, k - 1);
        if before < k - 1 {
            before
        } else if ids[k - 1] == id {
            k - 1
        } else {
            k
        }
    }
}

/// The first index of an element lies among the elements or is their
/// number; the element stands there, and nowhere before.
pub proof fn lemma_first_index(ids: Seq<Seq<char>>, id: Seq<char>, k: int)
    requires
        0 <= k <= ids.len(),
    ensures
        0 <= first_index(ids, id, k) <= k,
        first_index(ids, id, k) < k ==> ids[first_index(ids, id, k)] == id,
        forall|j: int| 0 <= j < first_index(ids, id, k) ==> ids[j] != id,
    decreases k,
{
    if k > 0 {
        lemma_first_index(ids, id, k - 1);
    }
}

/// Once an element is found among the first `k`, it stays the first among
/// more of them.
pub proof fn lemma_first_index_stays(ids: Seq<Seq<char>>, id: Seq<char>, k: int, n: int)
    requires
        0 < k <= n <= ids.len(),
        first_index(ids, id, k) < k,
    ensures
        first_index(ids, id, n) == first_index(ids, id, k),
    decreases n - k,
{
    if k < n {
        lemma_first_index_stays(ids, id, k, n - 1);
    }
}

/// Where the focus stands in the tab order: at the focused element, or at
/// the first element where the focused one is not in the order.
pub open spec fn focus_index(view: FocusView) -> int {
    match view.focused {
        Some(id) => {
            let i = first_index(view.focusable, id, view.focusable.len() as int);
            if i < view.focusable.len() {
                i
            } else {
                0
            }
        },
        None => 0,
    }
}

/// Focus manager for form elements
#[derive(Debug, Clone)]
pub struct FocusManager {
    focused_element: Option<String>,
    focusable_elements: Vec<String>,
}

impl View for FocusManager {
    type V = FocusView;

    closed spec fn view(&self) -> FocusView {
        FocusView {
            focused: text_of(self.focused_element),
            focusable: crate::text::views(self.focusable_elements@),
        }
    }
}

impl FocusManager {
    /// Create new focus manager
    pub fn new() -> (manager: Self)
        ensures
            manager@.focused.is_none(),
            manager@.focusable == Seq::<Seq<char>>::empty(),
    {
        let manager = FocusManager { focused_element: None, focusable_elements: Vec::new() };
        assert(manager@.focusable =~= Seq::<Seq<char>>::empty());
        manager
    }

    /// The index of the first focusable element that is `id`.
    fn find(&self, id: &String) -> (index: usize)
        ensures
            index == first_index(self@.focusable, id@, self@.focusable.len() as int),
            index <= self@.focusable.len(),
            index < self@.focusable.len() <==> self@.focusable.contains(id@),
    {
        let mut i: usize = 0;
        while i < self.focusable_elements.len()
            invariant
                i <= self.focusable_elements@.len(),
                first_index(self@.focusable, id@, i as int) == i,
            decreases self.focusable_elements@.len() - i,
        {
            if self.focusable_elements[i] == *id {
                proof {
                    lemma_first_index_stays(
                        self@.focusable,
                        id@,
                        i as int + 1,
                        self@.focusable.len() as int,
                    );
                    assert(self@.focusable[i as int] == id@);
                }
                return i;
            }
            i = i + 1;
        }
        proof {
            lemma_first_index(self@.focusable, id@, self@.focusable.len() as int);
        }
        i
    }

    /// Register a focusable element, at the end of the tab order. An
    /// element that is registered already keeps its place.
    pub fn register_focusable(&mut self, element_id: String)
        ensures
            final(self)@.focused == old(self)@.focused,
            final(self)@.focusable == if old(self)@.focusable.contains(element_id@) {
                old(self)@.focusable
            } else {
                old(self)@.focusable.push(element_id@)
            },
    {
        let index = self.find(&element_id);
        if index >= self.focusable_elements.len() {
            self.focusable_elements.push(element_id);
            assert(self@.focusable =~= old(self)@.focusable.push(element_id@));
        }
    }

    /// Unregister a focusable element. It leaves the tab order, and the
    /// focus where it had it.
    pub fn unregister_focusable(&mut self, element_id: &str)
        ensures
            final(self)@.focusable == without_id(
                old(self)@.focusable,
                element_id@,
                old(self)@.focusable.len() as int,
            ),
            final(self)@.focused == if old(self)@.focused == Some(element_id@) {
                None
            } else {
                old(self)@.focused
            },
    {
        let id = String::from_str(element_id);
        let ghost given = self@.focusable;
        let mut kept: Vec<String> = Vec::new();
        let mut i: usize = 0;
        while i < self.focusable_elements.len()
            invariant
                i <= self.focusable_elements@.len(),
                id@ == element_id@,
                given == self@.focusable,
                self.focused_element == old(self).focused_element,
                crate::text::views(kept@) == without_id(given, element_id@, i as int),
            decreases self.focusable_elements@.len() - i,
        {
            if !(self.focusable_elements[i] == id) {
                let ghost before = crate::text::views(kept@);
                kept.push(self.focusable_elements[i].clone());
                assert(crate::text::views(kept@) =~= before.push(given[i as int]));
            }
            i = i + 1;
        }
        self.focusable_elements = kept;
        let drop_focus = match &self.focused_element {
            Some(current) => *current == id,
            None => false,
        };
        if drop_focus {
            self.focused_element = None;
        }
    }

    /// Set focus to an element. Says whether the element can take the
    /// focus; the focus stays where it is for one that cannot.
    pub fn focus(&mut self, element_id: String) -> (focused: bool)
        ensures
            focused == old(self)@.focusable.contains(element_id@),
            final(self)@.focusable == old(self)@.focusable,
            final(self)@.focused == if focused {
                Some(element_id@)
            } else {
                old(self)@.focused
            },
    {
        let index = self.find(&element_id);
        if index < self.focusable_elements.len() {
            self.focused_element = Some(element_id);
            true
        } else {
            false
        }
    }

    /// Clear focus
    pub fn blur(&mut self)
        ensures
            final(self)@.focused.is_none(),
            final(self)@.focusable == old(self)@.focusable,
    {
        self.focused_element = None;
    }

    /// Get currently focused element
    pub fn focused_element(&self) -> (focused: Option<&String>)
        ensures
            match focused {
                Some(id) => self@.focused == Some(id@),
                None => self@.focused.is_none(),
            },
    {
        self.focused_element.as_ref()
    }

    /// Move focus to next element (Tab key): to the element behind the
    /// focused one, to the first behind the last, and to the first where
    /// nothing has the focus. With no focusable element nothing happens.
    pub fn focus_next(&mut self) -> (focused: Option<&String>)
        ensures
            final(self)@.focusable == old(self)@.focusable,
            final(self)@.focused == if old(self)@.focusable.len() == 0 {
                old(self)@.focused
            } else if old(self)@.focused.is_none() {
                Some(old(self)@.focusable[0])
            } else {
                Some(
                    old(self)@.focusable[(focus_index(old(self)@) + 1) % (old(self)@.focusable.len() as int)],
                )
            },
            match focused {
                Some(id) => old(self)@.focusable.len() > 0 && final(self)@.focused == Some(id@),
                None => old(self)@.focusable.len() == 0,
            },
    {
        if self.focusable_elements.len() == 0 {
            return None;
        }
        let next_index: usize = match &self.focused_element {
            Some(current) => {
                let found = self.find(current);
                let current_index: usize = if found < self.focusable_elements.len() {
                    found
                } else {
                    0
                };
                (current_index + 1) % self.focusable_elements.len()
            },
            None => 0,
        };
        self.focused_element = Some(self.focusable_elements[next_index].clone());
        self.focused_element.as_ref()
    }

    /// Move focus to previous element (Shift+Tab): to the element before
    /// the focused one, to the last before the first, and to the last where
    /// nothing has the focus. With no focusable element nothing happens.
    pub fn focus_previous(&mut self) -> (focused: Option<&String>)
        ensures
            final(self)@.focusable == old(self)@.focusable,
            final(self)@.focused == if old(self)@.focusable.len() == 0 {
                old(self)@.focused
            } else if old(self)@.focused.is_none() || focus_index(old(self)@) == 0 {
                Some(old(self)@.focusable[old(self)@.focusable.len() - 1])
            } else {
                Some(old(self)@.focusable[focus_index(old(self)@) - 1])
            },
            match focused {
                Some(id) => old(self)@.focusable.len() > 0 && final(self)@.focused == Some(id@),
                None => old(self)@.focusable.len() == 0,
            },
    {
        if self.focusable_elements.len() == 0 {
            return None;
        }
        let prev_index: usize = match &self.focused_element {
            Some(current) => {
                let found = self.find(current);
                let current_index: usize = if found < self.focusable_elements.len() {
                    found
                } else {
                    0
                };
                if current_index == 0 {
                    self.focusable_elements.len() - 1
                } else {
                    current_index - 1
                }
            },
            None => self.focusable_elements.len() - 1,
        };
        self.focused_element = Some(self.focusable_elements[prev_index].clone());
        self.focused_element.as_ref()
    }
}

impl Default for FocusManager {
    fn default() -> (manager: Self)
        ensures
            manager@.focused.is_none(),
            manager@.focusable == Seq::<Seq<char>>::empty(),
    {
        FocusManager::new()
    }
}

} // verus!
