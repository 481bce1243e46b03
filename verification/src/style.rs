//! Styled nodes: a document node with the values of its properties, and
//! the cascade that gives them.

use vstd::prelude::*;
use crate::css::{
    specificity, specificity_of, Rule, Selector, SimpleSelector, Specificity, Stylesheet, Unit,
    Value,
};
use crate::dom::{ElementData, Node, NodeType};
use crate::layout::{BoxStyle, EdgeSizes};
use crate::string_map::StringMap;
use crate::text::str_eq;

verus! {

/// The values of the properties of one node, by property name.
pub type PropertyMap = StringMap<Value>;

/// A node with computed styles
#[derive(Debug)]
pub struct StyledNode<'a> {
    pub node: &'a Node,
    pub specified_values: PropertyMap,
    pub children: Vec<StyledNode<'a>>,
}

/// Represents CSS display property
#[derive(Debug, Clone, Copy, PartialEq, Eq, Structural)]
pub enum Display {
    Inline,
    Block,
    Flex,
    /// The node and everything below it is left out (`display: none`)
    Hidden,
}

/// What `display` a value stands for: `block`, `flex` (also for
/// `inline-flex`) and `none` by their keywords, `inline` for everything
/// else and where the property is not set.
pub open spec fn display_of(value: Option<Value>) -> Display {
    match value {
        Some(v) => if v.is_word("block"@) {
            Display::Block
        } else if v.is_word("flex"@) || v.is_word("inline-flex"@) {
            Display::Flex
        } else if v.is_word("none"@) {
            Display::Hidden
        } else {
            Display::Inline
        },
        None => Display::Inline,
    }
}

impl<'a> StyledNode<'a> {
    /// The value of the property `name`, where the node has one.
    pub open spec fn spec_value(self, name: Seq<char>) -> Option<Value> {
        if self.specified_values@.contains_key(name) {
            Some(self.specified_values@[name])
        } else {
            None
        }
    }

    /// The value of `name`, else that of `fallback_name`, else `default`.
    pub open spec fn spec_lookup(
        self,
        name: Seq<char>,
        fallback_name: Seq<char>,
        default: Value,
    ) -> Value {
        match self.spec_value(name) {
            Some(v) => v,
            None => match self.spec_value(fallback_name) {
                Some(v) => v,
                None => default,
            },
        }
    }

    /// The display of the node.
    pub open spec fn spec_display(self) -> Display {
        display_of(self.spec_value("display"@))
    }

    /// The length under `name`, else under `fallback_name`, else zero.
    pub open spec fn length(self, name: Seq<char>, fallback_name: Seq<char>) -> i64 {
        self.spec_lookup(name, fallback_name, Value::Length(0, Unit::Px)).px()
    }

    /// The width that is set: none where `width` is not set or is `auto`.
    pub open spec fn width(self) -> Option<i64> {
        match self.spec_value("width"@) {
            Some(v) => if v.is_word("auto"@) {
                None
            } else {
                Some(v.px())
            },
            None => None,
        }
    }

    /// The height that is set: the number of `height` where that is a pixel
    /// length.
    pub open spec fn height(self) -> Option<i64> {
        match self.spec_value("height"@) {
            Some(v) => v.pixel_length(),
            None => None,
        }
    }

    /// The numbers that block layout reads from the style: width, height,
    /// and margin, border and padding, each edge falling back to the
    /// shorthand of its kind and then to zero.
    pub open spec fn box_style(self) -> BoxStyle {
        BoxStyle {
            width: self.width(),
            height: self.height(),
            margin: EdgeSizes {
                left: self.length("margin-left"@, "margin"@),
                right: self.length("margin-right"@, "margin"@),
                top: self.length("margin-top"@, "margin"@),
                bottom: self.length("margin-bottom"@, "margin"@),
            },
            border: EdgeSizes {
                left: self.length("border-left-width"@, "border-width"@),
                right: self.length("border-right-width"@, "border-width"@),
                top: self.length("border-top-width"@, "border-width"@),
                bottom: self.length("border-bottom-width"@, "border-width"@),
            },
            padding: EdgeSizes {
                left: self.length("padding-left"@, "padding"@),
                right: self.length("padding-right"@, "padding"@),
                top: self.length("padding-top"@, "padding"@),
                bottom: self.length("padding-bottom"@, "padding"@),
            },
        }
    }

    /// Get the value of a specific CSS property
    pub fn value(&self, name: &str) -> (value: Option<&Value>)
        ensures
            match value {
                Some(v) => self.spec_value(name@) == Some(*v),
                None => self.spec_value(name@).is_none(),
            },
    {
        self.specified_values.get(name)
    }

    /// Get the lookup value or a default
    pub fn lookup(&self, name: &str, fallback_name: &str, default: &Value) -> (value: Value)
        ensures
            value == self.spec_lookup(name@, fallback_name@, *default),
    {
        match self.value(name) {
            Some(v) => v.clone(),
            None => match self.value(fallback_name) {
                Some(v) => v.clone(),
                None => default.clone(),
            },
        }
    }

    /// Get the display property
    pub fn display(&self) -> (d: Display)
        ensures
            d == self.spec_display(),
    {
        match self.value("display") {
            Some(v) => {
                if v.is_keyword("block") {
                    Display::Block
                } else if v.is_keyword("flex") || v.is_keyword("inline-flex") {
                    Display::Flex
                } else if v.is_keyword("none") {
                    Display::Hidden
                } else {
                    Display::Inline
                }
            },
            None => Display::Inline,
        }
    }
}

/// Whether a simple selector matches an element: the tag name is that of
/// the element, the id is its id, and each class is one of its classes, as
/// far as the selector names them.
pub open spec fn simple_selector_matches(elem: ElementData, selector: SimpleSelector) -> bool {
    &&& match selector.tag_name {
        Some(tag) => elem.tag_name@ == tag@,
        None => true,
    }
    &&& match selector.id {
        Some(id) => elem.attribute("id"@) == Some(id@),
        None => true,
    }
    &&& forall|i: int|
        0 <= i < selector.classes@.len() ==> elem.class_names().contains(
            (#[trigger] selector.classes@[i])@,
        )
}

/// Whether a selector matches an element.
pub open spec fn selector_matches(elem: ElementData, selector: Selector) -> bool {
    match selector {
        Selector::Simple(simple) => simple_selector_matches(elem, simple),
    }
}

/// The index of the first of the first `k` selectors that matches the
/// element; `k` where none of them does.
pub open spec fn first_matching(elem: ElementData, selectors: Seq<Selector>, k: int) -> int
    decreases k,
{
    if k <= 0 || k > selectors.len() {
        0
    } else {
        let before = first_matching(elem, selectors, k - 1);
        if before < k - 1 {
            before
        } else if selector_matches(elem, selectors[k - 1]) {
            k - 1
        } else {
            k
        }
    }
}

/// The first matching selector lies among the selectors or there is none.
pub proof fn lemma_first_matching(elem: ElementData, selectors: Seq<Selector>, k: int)
    requires
        0 <= k <= selectors.len(),
    ensures
        0 <= first_matching(elem, selectors, k) <= k,
        first_matching(elem, selectors, k) < k ==> selector_matches(
            elem,
            selectors[first_matching(elem, selectors, k)],
        ),
    decreases k,
{
    if k > 0 {
        lemma_first_matching(elem, selectors, k - 1);
    }
}

/// Once a selector among the first `k` matches, the first match stays the
/// same among more of them.
pub proof fn lemma_first_matching_stays(elem: ElementData, selectors: Seq<Selector>, k: int, n: int)
    requires
        0 < k <= n <= selectors.len(),
        first_matching(elem, selectors, k) < k,
    ensures
        first_matching(elem, selectors, n) == first_matching(elem, selectors, k),
    decreases n - k,
{
    if k < n {
        lemma_first_matching_stays(elem, selectors, k, n - 1);
    }
}

/// The specificity with which a rule applies to an element: that of the
/// first of its selectors that matches. None where no selector matches.
pub open spec fn rule_specificity(elem: ElementData, rule: Rule) -> Option<Specificity> {
    let i = first_matching(elem, rule.selectors@, rule.selectors@.len() as int);
    if i < rule.selectors@.len() {
        Some(specificity_of(rule.selectors@[i]))
    } else {
        None
    }
}

/// Whether declaration `d` of rule `r` sets the property `name` for the
/// element.
pub open spec fn declares(sheet: Stylesheet, elem: ElementData, name: Seq<char>, r: int, d: int) -> bool {
    &&& 0 <= r < sheet.rules@.len()
    &&& rule_specificity(elem, sheet.rules@[r]).is_some()
    &&& 0 <= d < sheet.rules@[r].declarations@.len()
    &&& sheet.rules@[r].declarations@[d].name@ == name
}

/// Whether the declaration at `(r1, d1)` gives way to the one at
/// `(r2, d2)`: its rule is less specific, or as specific and not later in
/// the sheet; within one rule the later declaration wins.
pub open spec fn gives_way(
    sheet: Stylesheet,
    elem: ElementData,
    r1: int,
    d1: int,
    r2: int,
    d2: int,
) -> bool {
    let s1 = rule_specificity(elem, sheet.rules@[r1]).unwrap();
    let s2 = rule_specificity(elem, sheet.rules@[r2]).unwrap();
    if s1 == s2 {
        r1 < r2 || (r1 == r2 && d1 <= d2)
    } else {
        s1.at_most(s2)
    }
}

/// Whether the declaration at `(r, d)` is the one that sets `name` for the
/// element: it declares the property, and every declaration that does so
/// gives way to it.
pub open spec fn prevails(sheet: Stylesheet, elem: ElementData, name: Seq<char>, r: int, d: int) -> bool {
    &&& declares(sheet, elem, name, r, d)
    &&& forall|r2: int, d2: int|
        #[trigger] declares(sheet, elem, name, r2, d2) ==> gives_way(sheet, elem, r2, d2, r, d)
}

/// Whether `values` are the values that a sheet specifies for an element:
/// they hold a property where a declaration of a matching rule sets it,
/// with the value of the declaration that prevails.
pub open spec fn is_cascade_of(
    values: Map<Seq<char>, Value>,
    sheet: Stylesheet,
    elem: ElementData,
) -> bool {
    &&& forall|name: Seq<char>|
        #[trigger] values.contains_key(name) <==> exists|r: int, d: int|
            #[trigger] declares(sheet, elem, name, r, d)
    &&& forall|name: Seq<char>, r: int, d: int|
        #[trigger] prevails(sheet, elem, name, r, d) ==> values.contains_key(name) && values[name]
            == sheet.rules@[r].declarations@[d].value
    &&& forall|name: Seq<char>|
        #[trigger] values.contains_key(name) ==> exists|r: int, d: int|
            #[trigger] prevails(sheet, elem, name, r, d)
}

/// Whether a styled tree is the tree of a document with the values that a
/// sheet specifies: node for node, with the values of the cascade for an
/// element and none for text and comments.
pub open spec fn is_styled_tree(styled: StyledNode, node: Node, sheet: Stylesheet) -> bool
    decreases styled,
{
    &&& *styled.node == node
    &&& match node.node_type {
        NodeType::Element(elem) => is_cascade_of(styled.specified_values@, sheet, elem),
        _ => styled.specified_values@ == Map::<Seq<char>, Value>::empty(),
    }
    &&& styled.children@.len() == node.children@.len()
    &&& forall|i: int|
        0 <= i < styled.children@.len() ==> is_styled_tree(
            #[trigger] styled.children@[i],
            node.children@[i],
            sheet,
        )
}

/// Apply a stylesheet to a DOM tree to create a styled tree
pub fn style_tree<'a>(root: &'a Node, stylesheet: &'a Stylesheet) -> (styled: StyledNode<'a>)
    ensures
        is_styled_tree(styled, *root, *stylesheet),
    decreases root,
{
    let values = match &root.node_type {
        NodeType::Element(elem) => specified_values(elem, stylesheet),
        _ => StringMap::new(),
    };
    let mut children: Vec<StyledNode<'a>> = Vec::new();
    let mut i: usize = 0;
    while i < root.children.len()
        invariant
            i <= root.children@.len(),
            children@.len() == i,
            forall|j: int|
                0 <= j < i ==> is_styled_tree(
                    #[trigger] children@[j],
                    root.children@[j],
                    *stylesheet,
                ),
        decreases root.children@.len() - i,
    {
        let child = style_tree(&root.children[i], stylesheet);
        children.push(child);
        i = i + 1;
    }
    StyledNode { node: root, specified_values: values, children }
}

/// Get the specified values for an element: for each property that a
/// matching rule declares, the value of the declaration that prevails.
pub fn specified_values(elem: &ElementData, stylesheet: &Stylesheet) -> (values: PropertyMap)
    ensures
        is_cascade_of(values@, *stylesheet, *elem),
{
    let mut values: PropertyMap = StringMap::new();
    let mut ranks: StringMap<Specificity> = StringMap::new();
    let ghost mut winner: Map<Seq<char>, (int, int)> = Map::empty();
    let ghost sheet = *stylesheet;
    let ghost el = *elem;
    let mut r: usize = 0;
    while r < stylesheet.rules.len()
        invariant
            r <= stylesheet.rules@.len(),
            sheet == *stylesheet,
            el == *elem,
            cascade_so_far(values@, ranks@, winner, sheet, el, r as int, 0),
        decreases stylesheet.rules@.len() - r,
    {
        let rule = &stylesheet.rules[r];
        match matched_specificity(elem, rule) {
            Some(rank) => {
                let mut d: usize = 0;
                while d < rule.declarations.len()
                    invariant
                        r < stylesheet.rules@.len(),
                        sheet == *stylesheet,
                        el == *elem,
                        *rule == stylesheet.rules@[r as int],
                        rule_specificity(el, *rule) == Some(rank),
                        d <= rule.declarations@.len(),
                        cascade_so_far(values@, ranks@, winner, sheet, el, r as int, d as int),
                    decreases rule.declarations@.len() - d,
                {
                    let declaration = &rule.declarations[d];
                    let ghost name = declaration.name@;
                    let replace = match ranks.get(declaration.name.as_str()) {
                        Some(held) => held.is_at_most(&rank),
                        None => true,
                    };
                    let ghost before_values = values@;
                    let ghost before_ranks = ranks@;
                    let ghost before_winner = winner;
                    if replace {
                        values.insert(declaration.name.clone(), declaration.value.clone());
                        ranks.insert(declaration.name.clone(), rank);
                        proof {
                            winner = winner.insert(name, (r as int, d as int));
                        }
                    }
                    proof {
                        lemma_cascade_step(
                            before_values,
                            before_ranks,
                            before_winner,
                            values@,
                            ranks@,
                            winner,
                            sheet,
                            el,
                            r as int,
                            d as int,
                            replace,
                        );
                    }
                    d = d + 1;
                }
                proof {
                    lemma_cascade_next_rule(values@, ranks@, winner, sheet, el, r as int);
                }
            },
            None => {
                proof {
                    lemma_cascade_skip_rule(values@, ranks@, winner, sheet, el, r as int);
                }
            },
        }
        r = r + 1;
    }
    proof {
        lemma_cascade_done(values@, ranks@, winner, sheet, el);
    }
    values
}

/// Whether the declaration at `(r2, d2)` stands before `(r, d)` in the
/// sheet.
pub open spec fn seen(r2: int, d2: int, r: int, d: int) -> bool {
    r2 < r || (r2 == r && d2 < d)
}

/// The state of the cascade when the declarations before `(r, d)` are
/// done: the values hold the properties that one of them sets, each with
/// the value and the specificity of the one among them that prevails.
pub open spec fn cascade_so_far(
    values: Map<Seq<char>, Value>,
    ranks: Map<Seq<char>, Specificity>,
    winner: Map<Seq<char>, (int, int)>,
    sheet: Stylesheet,
    elem: ElementData,
    r: int,
    d: int,
) -> bool {
    &&& forall|name: Seq<char>| #[trigger]
        values.contains_key(name) <==> winner.contains_key(name)
    &&& forall|name: Seq<char>| #[trigger]
        ranks.contains_key(name) <==> winner.contains_key(name)
    &&& forall|name: Seq<char>, r2: int, d2: int|
        #[trigger] declares(sheet, elem, name, r2, d2) && seen(r2, d2, r, d)
            ==> winner.contains_key(name) && gives_way(
            sheet,
            elem,
            r2,
            d2,
            winner[name].0,
            winner[name].1,
        )
    &&& forall|name: Seq<char>| #[trigger]
        winner.contains_key(name) ==> {
            let w = winner[name];
            &&& declares(sheet, elem, name, w.0, w.1)
            &&& seen(w.0, w.1, r, d)
            &&& values[name] == sheet.rules@[w.0].declarations@[w.1].value
            &&& Some(ranks[name]) == rule_specificity(elem, sheet.rules@[w.0])
        }
}

/// One declaration more is done.
pub proof fn lemma_cascade_step(
    values0: Map<Seq<char>, Value>,
    ranks0: Map<Seq<char>, Specificity>,
    winner0: Map<Seq<char>, (int, int)>,
    values: Map<Seq<char>, Value>,
    ranks: Map<Seq<char>, Specificity>,
    winner: Map<Seq<char>, (int, int)>,
    sheet: Stylesheet,
    elem: ElementData,
    r: int,
    d: int,
    replace: bool,
)
    requires
        cascade_so_far(values0, ranks0, winner0, sheet, elem, r, d),
        0 <= r < sheet.rules@.len(),
        0 <= d < sheet.rules@[r].declarations@.len(),
        rule_specificity(elem, sheet.rules@[r]).is_some(),
        ({
            let decl = sheet.rules@[r].declarations@[d];
            let rank = rule_specificity(elem, sheet.rules@[r]).unwrap();
            &&& replace == (!ranks0.contains_key(decl.name@) || ranks0[decl.name@].at_most(rank))
            &&& replace ==> values == values0.insert(decl.name@, decl.value) && ranks
                == ranks0.insert(decl.name@, rank) && winner == winner0.insert(decl.name@, (r, d))
            &&& !replace ==> values == values0 && ranks == ranks0 && winner == winner0
        }),
    ensures
        cascade_so_far(values, ranks, winner, sheet, elem, r, d + 1),
{
    let decl = sheet.rules@[r].declarations@[d];
    let here = decl.name@;
    let rank = rule_specificity(elem, sheet.rules@[r]).unwrap();
    assert(declares(sheet, elem, here, r, d));
    assert forall|name: Seq<char>, r2: int, d2: int|
        #[trigger] declares(sheet, elem, name, r2, d2) && seen(
            r2,
            d2,
            r,
            d + 1,
        ) implies winner.contains_key(name) && gives_way(
        sheet,
        elem,
        r2,
        d2,
        winner[name].0,
        winner[name].1,
    ) by {
        if r2 == r && d2 == d {
            assert(name == here);
            if !replace {
                assert(winner0.contains_key(here));
                let w = winner0[here];
                assert(Some(ranks0[here]) == rule_specificity(elem, sheet.rules@[w.0]));
            }
        } else {
            assert(seen(r2, d2, r, d));
            assert(winner0.contains_key(name));
            if name == here && replace {
                let w = winner0[here];
                assert(Some(ranks0[here]) == rule_specificity(elem, sheet.rules@[w.0]));
                assert(seen(w.0, w.1, r, d));
                assert(gives_way(sheet, elem, r2, d2, w.0, w.1));
            }
        }
    }
    assert forall|name: Seq<char>| #[trigger] winner.contains_key(name) implies ({
        let w = winner[name];
        &&& declares(sheet, elem, name, w.0, w.1)
        &&& seen(w.0, w.1, r, d + 1)
        &&& values[name] == sheet.rules@[w.0].declarations@[w.1].value
        &&& Some(ranks[name]) == rule_specificity(elem, sheet.rules@[w.0])
    }) by {
        if !(name == here && replace) {
            assert(winner0.contains_key(name));
            let w = winner0[name];
            assert(seen(w.0, w.1, r, d));
        }
    }
}

/// The declarations of a rule are done: the next rule starts.
pub proof fn lemma_cascade_next_rule(
    values: Map<Seq<char>, Value>,
    ranks: Map<Seq<char>, Specificity>,
    winner: Map<Seq<char>, (int, int)>,
    sheet: Stylesheet,
    elem: ElementData,
    r: int,
)
    requires
        0 <= r < sheet.rules@.len(),
        cascade_so_far(
            values,
            ranks,
            winner,
            sheet,
            elem,
            r,
            sheet.rules@[r].declarations@.len() as int,
        ),
    ensures
        cascade_so_far(values, ranks, winner, sheet, elem, r + 1, 0),
{
    let n = sheet.rules@[r].declarations@.len() as int;
    assert forall|name: Seq<char>, r2: int, d2: int|
        #[trigger] declares(sheet, elem, name, r2, d2) && seen(
            r2,
            d2,
            r + 1,
            0,
        ) implies winner.contains_key(name) && gives_way(
        sheet,
        elem,
        r2,
        d2,
        winner[name].0,
        winner[name].1,
    ) by {
        assert(seen(r2, d2, r, n));
    }
    assert forall|name: Seq<char>| #[trigger] winner.contains_key(name) implies seen(
        winner[name].0,
        winner[name].1,
        r + 1,
        0,
    ) by {
        assert(seen(winner[name].0, winner[name].1, r, n));
    }
}

/// A rule that does not match the element declares nothing for it.
pub proof fn lemma_cascade_skip_rule(
    values: Map<Seq<char>, Value>,
    ranks: Map<Seq<char>, Specificity>,
    winner: Map<Seq<char>, (int, int)>,
    sheet: Stylesheet,
    elem: ElementData,
    r: int,
)
    requires
        0 <= r < sheet.rules@.len(),
        rule_specificity(elem, sheet.rules@[r]).is_none(),
        cascade_so_far(values, ranks, winner, sheet, elem, r, 0),
    ensures
        cascade_so_far(values, ranks, winner, sheet, elem, r + 1, 0),
{
    assert forall|name: Seq<char>, r2: int, d2: int|
        #[trigger] declares(sheet, elem, name, r2, d2) && seen(
            r2,
            d2,
            r + 1,
            0,
        ) implies winner.contains_key(name) && gives_way(
        sheet,
        elem,
        r2,
        d2,
        winner[name].0,
        winner[name].1,
    ) by {
        assert(r2 != r);
        assert(seen(r2, d2, r, 0));
    }
    assert forall|name: Seq<char>| #[trigger] winner.contains_key(name) implies seen(
        winner[name].0,
        winner[name].1,
        r + 1,
        0,
    ) by {
        assert(seen(winner[name].0, winner[name].1, r, 0));
    }
}

/// When every rule is done, the values are those of the cascade.
pub proof fn lemma_cascade_done(
    values: Map<Seq<char>, Value>,
    ranks: Map<Seq<char>, Specificity>,
    winner: Map<Seq<char>, (int, int)>,
    sheet: Stylesheet,
    elem: ElementData,
)
    requires
        cascade_so_far(values, ranks, winner, sheet, elem, sheet.rules@.len() as int, 0),
    ensures
        is_cascade_of(values, sheet, elem),
{
    let n = sheet.rules@.len() as int;
    assert forall|name: Seq<char>| #[trigger] winner.contains_key(name) implies prevails(
        sheet,
        elem,
        name,
        winner[name].0,
        winner[name].1,
    ) by {
        let w = winner[name];
        assert forall|r2: int, d2: int| #[trigger]
            declares(sheet, elem, name, r2, d2) implies gives_way(sheet, elem, r2, d2, w.0, w.1) by {
            assert(seen(r2, d2, n, 0));
        }
    }
    assert forall|name: Seq<char>| #[trigger]
        values.contains_key(name) <==> exists|r: int, d: int| #[trigger]
            declares(sheet, elem, name, r, d) by {
        if values.contains_key(name) {
            assert(winner.contains_key(name));
            assert(declares(sheet, elem, name, winner[name].0, winner[name].1));
        }
        if exists|r: int, d: int| #[trigger] declares(sheet, elem, name, r, d) {
            let (r, d) = choose|r: int, d: int| #[trigger] declares(sheet, elem, name, r, d);
            assert(seen(r, d, n, 0));
        }
    }
    assert forall|name: Seq<char>, r: int, d: int| #[trigger]
        prevails(sheet, elem, name, r, d) implies values.contains_key(name) && values[name]
        == sheet.rules@[r].declarations@[d].value by {
        assert(declares(sheet, elem, name, r, d));
        assert(seen(r, d, n, 0));
        let w = winner[name];
        assert(prevails(sheet, elem, name, w.0, w.1));
        assert(gives_way(sheet, elem, r, d, w.0, w.1));
        assert(gives_way(sheet, elem, w.0, w.1, r, d));
    }
    assert forall|name: Seq<char>| #[trigger] values.contains_key(name) implies exists|
        r: int,
        d: int,
    | #[trigger] prevails(sheet, elem, name, r, d) by {
        assert(winner.contains_key(name));
        assert(prevails(sheet, elem, name, winner[name].0, winner[name].1));
    }
}

/// The specificity with which a rule applies to an element.
pub fn matched_specificity(elem: &ElementData, rule: &Rule) -> (rank: Option<Specificity>)
    ensures
        rank == rule_specificity(*elem, *rule),
{
    let mut i: usize = 0;
    while i < rule.selectors.len()
        invariant
            i <= rule.selectors@.len(),
            first_matching(*elem, rule.selectors@, i as int) == i,
        decreases rule.selectors@.len() - i,
    {
        if matches(elem, &rule.selectors[i]) {
            proof {
                lemma_first_matching_stays(
                    *elem,
                    rule.selectors@,
                    i as int + 1,
                    rule.selectors@.len() as int,
                );
            }
            return Some(specificity(&rule.selectors[i]));
        }
        i = i + 1;
    }
    None
}

/// Whether an entry holds rule `k` of the rules and the specificity with
/// which it applies to the element.
pub open spec fn is_matched_rule(
    entry: (Specificity, &Rule),
    elem: ElementData,
    rules: Seq<Rule>,
    k: int,
) -> bool {
    &&& 0 <= k < rules.len()
    &&& *entry.1 == rules[k]
    &&& Some(entry.0) == rule_specificity(elem, rules[k])
}

/// Find all CSS rules that match an element, in the order of the sheet,
/// each with the specificity with which it applies.
pub fn matching_rules<'a>(elem: &ElementData, stylesheet: &'a Stylesheet) -> (found: Vec<
    (Specificity, &'a Rule),
>)
    ensures
        found@.len() == matched(*elem, stylesheet.rules@, stylesheet.rules@.len() as int).len(),
        forall|i: int|
            0 <= i < found@.len() ==> is_matched_rule(
                #[trigger] found@[i],
                *elem,
                stylesheet.rules@,
                matched(*elem, stylesheet.rules@, stylesheet.rules@.len() as int)[i],
            ),
{
    let mut found: Vec<(Specificity, &'a Rule)> = Vec::new();
    let ghost mut indices: Seq<int> = Seq::empty();
    let mut r: usize = 0;
    while r < stylesheet.rules.len()
        invariant
            r <= stylesheet.rules@.len(),
            indices == matched(*elem, stylesheet.rules@, r as int),
            found@.len() == indices.len(),
            forall|i: int|
                0 <= i < found@.len() ==> is_matched_rule(
                    #[trigger] found@[i],
                    *elem,
                    stylesheet.rules@,
                    indices[i],
                ),
        decreases stylesheet.rules@.len() - r,
    {
        if let Some(rank) = matched_specificity(elem, &stylesheet.rules[r]) {
            found.push((rank, &stylesheet.rules[r]));
            proof {
                indices = indices.push(r as int);
            }
        }
        r = r + 1;
    }
    found
}

/// The indices of those of the first `k` rules that match the element.
pub open spec fn matched(elem: ElementData, rules: Seq<Rule>, k: int) -> Seq<int>
    decreases k,
{
    if k <= 0 || k > rules.len() {
        Seq::empty()
    } else if rule_specificity(elem, rules[k - 1]).is_some() {
        matched(elem, rules, k - 1).push(k - 1)
    } else {
        matched(elem, rules, k - 1)
    }
}

/// Check if a selector matches an element
pub fn matches(elem: &ElementData, selector: &Selector) -> (r: bool)
    ensures
        r == selector_matches(*elem, *selector),
{
    match selector {
        Selector::Simple(simple) => matches_simple_selector(elem, simple),
    }
}

/// Check if a simple selector matches an element
pub fn matches_simple_selector(elem: &ElementData, selector: &SimpleSelector) -> (r: bool)
    ensures
        r == simple_selector_matches(*elem, *selector),
{
    if let Some(tag) = &selector.tag_name {
        if !(elem.tag_name == *tag) {
            return false;
        }
    }
    if let Some(id) = &selector.id {
        match elem.id() {
            Some(own) => {
                if !str_eq(own, id.as_str()) {
                    return false;
                }
            },
            None => {
                return false;
            },
        }
    }
    let elem_classes = elem.classes();
    let ghost names = elem.class_names();
    let mut i: usize = 0;
    while i < selector.classes.len()
        invariant
            i <= selector.classes@.len(),
            names == elem.class_names(),
            elem_classes@.len() == names.len(),
            forall|j: int| 0 <= j < elem_classes@.len() ==> (#[trigger] elem_classes@[j])@ == names[j],
            forall|j: int| 0 <= j < i ==> names.contains((#[trigger] selector.classes@[j])@),
        decreases selector.classes@.len() - i,
    {
        let class = &selector.classes[i];
        let mut found = false;
        let mut k: usize = 0;
        while k < elem_classes.len() && !found
            invariant
                k <= elem_classes@.len(),
                elem_classes@.len() == names.len(),
                forall|j: int|
                    0 <= j < elem_classes@.len() ==> (#[trigger] elem_classes@[j])@ == names[j],
                found ==> names.contains(class@),
                !found ==> forall|j: int| 0 <= j < k ==> names[j] != class@,
            decreases elem_classes@.len() - k + if found {
                0int
            } else {
                1int
            },
        {
            if str_eq(elem_classes[k], class.as_str()) {
                assert(names[k as int] == class@);
                found = true;
            } else {
                k = k + 1;
            }
        }
        if !found {
            assert(!names.contains(class@));
            return false;
        }
        i = i + 1;
    }
    true
}

} // verus!
