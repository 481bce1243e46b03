//! The grammar of style sheets, over tokens: a sheet is a list of rules, a
//! rule a list of selectors before a block of declarations. The grammar
//! forgives: what is no rule is passed over up to the next block, and
//! what is no declaration is left out.

use vstd::prelude::*;
use crate::css::{
    hex_color, parse_hex_color, unit_of, Declaration, Rule, Selector, SimpleSelector, Stylesheet,
    Unit, Value,
};

verus! {

/// A token of a style sheet. Comments are no tokens; what stands in a
/// block in curly brackets is kept with the block, and what stands in
/// other brackets or in a function is left out.
#[derive(Debug)]
pub enum CssToken {
    /// An identifier
    Ident(String),
    /// A number sign before an identifier
    IDHash(String),
    /// A number sign before a name that is no identifier
    Hash(String),
    /// A single character that is no other token
    Delim(char),
    /// A number
    Number(i64),
    /// A number before a percent sign
    Percentage(i64),
    /// A number before a unit
    Dimension(i64, String),
    /// White space
    WhiteSpace,
    Colon,
    Semicolon,
    Comma,
    /// A block in curly brackets, with its tokens
    CurlyBracketBlock(Vec<CssToken>),
    /// Any other token
    Other,
}

/// A simple selector as a mathematical value.
pub struct SelectorView {
    pub tag_name: Option<String>,
    pub id: Option<String>,
    pub classes: Seq<String>,
}

/// A rule as a mathematical value.
pub struct RuleView {
    pub selectors: Seq<SelectorView>,
    pub declarations: Seq<Declaration>,
}

/// The selector as a mathematical value.
pub open spec fn selector_view(selector: Selector) -> SelectorView {
    match selector {
        Selector::Simple(simple) => SelectorView {
            tag_name: simple.tag_name,
            id: simple.id,
            classes: simple.classes@,
        },
    }
}

/// The selectors as mathematical values.
pub open spec fn selector_views(selectors: Seq<Selector>) -> Seq<SelectorView> {
    Seq::new(selectors.len(), |i: int| selector_view(selectors[i]))
}

/// The rule as a mathematical value.
pub open spec fn rule_view(rule: Rule) -> RuleView {
    RuleView { selectors: selector_views(rule.selectors@), declarations: rule.declarations@ }
}

/// The rules as mathematical values.
pub open spec fn rule_views(rules: Seq<Rule>) -> Seq<RuleView> {
    Seq::new(rules.len(), |i: int| rule_view(rules[i]))
}

/// The selector that selects by nothing.
pub open spec fn any_selector() -> SelectorView {
    SelectorView { tag_name: None, id: None, classes: Seq::empty() }
}

/// The place of the first token from `pos` on that is no white space, and
/// the number of tokens where there is none.
pub open spec fn skip_ws(tokens: Seq<CssToken>, pos: int) -> int
    decreases tokens.len() - pos,
{
    if pos < 0 || pos >= tokens.len() {
        tokens.len() as int
    } else if tokens[pos] is WhiteSpace {
        skip_ws(tokens, pos + 1)
    } else {
        pos
    }
}

/// The simple selector that is read from `pos` on into a selector begun,
/// and the place behind it. An identifier is the tag name, an identifier
/// behind a number sign the id, an identifier behind a dot a class, a
/// star nothing; the first other token ends the selector, and is passed.
pub open spec fn selector_from(tokens: Seq<CssToken>, pos: int, begun: SelectorView) -> (
    SelectorView,
    int,
)
    decreases tokens.len() - pos,
    via selector_from_ends
{
    if pos < 0 || pos >= tokens.len() {
        (begun, tokens.len() as int)
    } else {
        match tokens[pos] {
            CssToken::Ident(name) => selector_from(
                tokens,
                pos + 1,
                SelectorView { tag_name: Some(name), ..begun },
            ),
            CssToken::IDHash(id) => selector_from(
                tokens,
                pos + 1,
                SelectorView { id: Some(id), ..begun },
            ),
            CssToken::Delim(c) => if c == '.' {
                let at = skip_ws(tokens, pos + 1);
                if at >= tokens.len() {
                    (begun, at)
                } else {
                    match tokens[at] {
                        CssToken::Ident(class) => selector_from(
                            tokens,
                            at + 1,
                            SelectorView { classes: begun.classes.push(class), ..begun },
                        ),
                        _ => selector_from(tokens, at + 1, begun),
                    }
                }
            } else if c == '*' {
                selector_from(tokens, pos + 1, begun)
            } else {
                (begun, pos + 1)
            },
            _ => (begun, pos + 1),
        }
    }
}

/// The selectors that are read from `pos` on behind those that were read,
/// and the place behind them: simple selectors with commas between them.
pub open spec fn selectors_from(tokens: Seq<CssToken>, pos: int, read: Seq<SelectorView>) -> (
    Seq<SelectorView>,
    int,
)
    decreases tokens.len() - pos,
    via selectors_from_ends
{
    let (selector, behind) = selector_from(tokens, skip_ws(tokens, pos), any_selector());
    let next = skip_ws(tokens, behind);
    if pos < 0 || pos > tokens.len() {
        (read.push(selector), next)
    } else if next < tokens.len() && tokens[next] is Comma {
        selectors_from(tokens, next + 1, read.push(selector))
    } else {
        (read.push(selector), next)
    }
}

/// The value that stands at `pos`, white space passed, and the place
/// behind it: a keyword, a number, a percentage, a length in a unit that
/// the library knows, or a color in hexadecimal. One token is passed,
/// whether it is a value or not.
pub open spec fn value_at(tokens: Seq<CssToken>, pos: int) -> (Option<Value>, int) {
    let at = skip_ws(tokens, pos);
    if at >= tokens.len() {
        (None, at)
    } else {
        (
            match tokens[at] {
                CssToken::Ident(keyword) => Some(Value::Keyword(keyword)),
                CssToken::Number(n) => Some(Value::Number(n)),
                CssToken::Percentage(n) => Some(Value::Percentage(n)),
                CssToken::Dimension(n, unit) => match unit_of(unit@) {
                    Some(u) => Some(Value::Length(n, u)),
                    None => None,
                },
                CssToken::Hash(hex) => match hex_color(hex@) {
                    Some(c) => Some(Value::Color(c)),
                    None => None,
                },
                CssToken::IDHash(hex) => match hex_color(hex@) {
                    Some(c) => Some(Value::Color(c)),
                    None => None,
                },
                _ => None,
            },
            at + 1,
        )
    }
}

/// The declaration that stands at `pos`, white space passed, and the
/// place behind it: an identifier, a colon and a value. Where one of the
/// three is missing, what stands there is passed and nothing is read.
pub open spec fn declaration_at(tokens: Seq<CssToken>, pos: int) -> (Option<Declaration>, int) {
    let at = skip_ws(tokens, pos);
    if at >= tokens.len() {
        (None, at)
    } else {
        match tokens[at] {
            CssToken::Ident(name) => {
                let colon = skip_ws(tokens, at + 1);
                if colon >= tokens.len() {
                    (None, colon)
                } else if tokens[colon] is Colon {
                    match value_at(tokens, colon + 1).0 {
                        Some(value) => (
                            Some(Declaration { name, value }),
                            value_at(tokens, colon + 1).1,
                        ),
                        None => (None, value_at(tokens, colon + 1).1),
                    }
                } else {
                    (None, colon + 1)
                }
            },
            _ => (None, at + 1),
        }
    }
}

/// The declarations that are read from `pos` on behind those that were
/// read: declarations, each with a semicolon behind it or none.
pub open spec fn declarations_from(tokens: Seq<CssToken>, pos: int, read: Seq<Declaration>) -> Seq<
    Declaration,
>
    decreases tokens.len() - pos,
    via declarations_from_ends
{
    let at = skip_ws(tokens, pos);
    if pos < 0 || at >= tokens.len() {
        read
    } else {
        let (declaration, behind) = declaration_at(tokens, at);
        let kept = match declaration {
            Some(d) => read.push(d),
            None => read,
        };
        let semicolon = skip_ws(tokens, behind);
        let next = if 0 <= semicolon < tokens.len() && tokens[semicolon] is Semicolon {
            semicolon + 1
        } else {
            behind
        };
        declarations_from(tokens, next, kept)
    }
}

/// The rule that stands at `pos`, and the place behind it: selectors and
/// a block in curly brackets, whose tokens are its declarations. Where no
/// block stands behind the selectors, what stands there is passed and
/// nothing is read.
pub open spec fn rule_at(tokens: Seq<CssToken>, pos: int) -> (Option<RuleView>, int) {
    let (selectors, behind) = selectors_from(tokens, pos, Seq::empty());
    let at = skip_ws(tokens, behind);
    if at >= tokens.len() {
        (None, at)
    } else {
        match tokens[at] {
            CssToken::CurlyBracketBlock(content) => (
                Some(
                    RuleView {
                        selectors,
                        declarations: declarations_from(content@, 0, Seq::empty()),
                    },
                ),
                at + 1,
            ),
            _ => (None, at + 1),
        }
    }
}

/// The place behind the first block in curly brackets from `pos` on, and
/// the number of tokens where there is none.
pub open spec fn behind_block(tokens: Seq<CssToken>, pos: int) -> int
    decreases tokens.len() - pos,
    via behind_block_ends
{
    let at = skip_ws(tokens, pos);
    if pos < 0 || at < 0 || at >= tokens.len() {
        tokens.len() as int
    } else if tokens[at] is CurlyBracketBlock {
        at + 1
    } else {
        behind_block(tokens, at + 1)
    }
}

/// The rules that are read from `pos` on behind those that were read.
/// Where no rule stands, the tokens up to the next block in curly
/// brackets are passed over, the block with them.
pub open spec fn rules_from(tokens: Seq<CssToken>, pos: int, read: Seq<RuleView>) -> Seq<RuleView>
    decreases tokens.len() - pos,
    via rules_from_ends
{
    let at = skip_ws(tokens, pos);
    if pos < 0 || at >= tokens.len() {
        read
    } else {
        let (rule, behind) = rule_at(tokens, at);
        let next = match rule {
            Some(_) => behind,
            None => behind_block(tokens, behind),
        };
        let kept = match rule {
            Some(r) => read.push(r),
            None => read,
        };
        rules_from(tokens, next, kept)
    }
}

#[via_fn]
proof fn selector_from_ends(tokens: Seq<CssToken>, pos: int, begun: SelectorView) {
    if 0 <= pos < tokens.len() {
        lemma_skip_ws(tokens, pos + 1);
    }
}

#[via_fn]
proof fn selectors_from_ends(tokens: Seq<CssToken>, pos: int, read: Seq<SelectorView>) {
    if 0 <= pos <= tokens.len() {
        lemma_skip_ws(tokens, pos);
        lemma_selector_from(tokens, skip_ws(tokens, pos), any_selector());
        lemma_skip_ws(tokens, selector_from(tokens, skip_ws(tokens, pos), any_selector()).1);
    }
}

#[via_fn]
proof fn declarations_from_ends(tokens: Seq<CssToken>, pos: int, read: Seq<Declaration>) {
    if 0 <= pos <= tokens.len() {
        lemma_skip_ws(tokens, pos);
        let at = skip_ws(tokens, pos);
        lemma_declaration_at(tokens, at);
        lemma_skip_ws(tokens, declaration_at(tokens, at).1);
    }
}

#[via_fn]
proof fn behind_block_ends(tokens: Seq<CssToken>, pos: int) {
    if 0 <= pos <= tokens.len() {
        lemma_skip_ws(tokens, pos);
    }
}

#[via_fn]
proof fn rules_from_ends(tokens: Seq<CssToken>, pos: int, read: Seq<RuleView>) {
    if 0 <= pos <= tokens.len() {
        lemma_skip_ws(tokens, pos);
        let at = skip_ws(tokens, pos);
        lemma_rule_at(tokens, at);
        lemma_behind_block(tokens, rule_at(tokens, at).1);
    }
}

/// The style sheet that tokens stand for.
pub open spec fn sheet_of(tokens: Seq<CssToken>) -> Seq<RuleView> {
    rules_from(tokens, 0, Seq::empty())
}

/// White space is passed forwards, up to a token that is none.
pub proof fn lemma_skip_ws(tokens: Seq<CssToken>, pos: int)
    requires
        0 <= pos <= tokens.len(),
    ensures
        pos <= skip_ws(tokens, pos) <= tokens.len(),
        skip_ws(tokens, pos) < tokens.len() ==> !(tokens[skip_ws(tokens, pos)] is WhiteSpace),
        skip_ws(tokens, skip_ws(tokens, pos)) == skip_ws(tokens, pos),
    decreases tokens.len() - pos,
{
    if pos < tokens.len() && tokens[pos] is WhiteSpace {
        lemma_skip_ws(tokens, pos + 1);
    }
}

/// A selector ends behind the place at which it begins, unless no token
/// is left.
pub proof fn lemma_selector_from(tokens: Seq<CssToken>, pos: int, begun: SelectorView)
    requires
        0 <= pos <= tokens.len(),
    ensures
        pos <= selector_from(tokens, pos, begun).1 <= tokens.len(),
        pos < tokens.len() ==> pos < selector_from(tokens, pos, begun).1,
    decreases tokens.len() - pos,
{
    if pos < tokens.len() {
        match tokens[pos] {
            CssToken::Ident(name) => {
                lemma_selector_from(
                    tokens,
                    pos + 1,
                    SelectorView { tag_name: Some(name), ..begun },
                );
            },
            CssToken::IDHash(id) => {
                lemma_selector_from(tokens, pos + 1, SelectorView { id: Some(id), ..begun });
            },
            CssToken::Delim(c) => {
                if c == '.' {
                    lemma_skip_ws(tokens, pos + 1);
                    let at = skip_ws(tokens, pos + 1);
                    if at < tokens.len() {
                        match tokens[at] {
                            CssToken::Ident(class) => {
                                lemma_selector_from(
                                    tokens,
                                    at + 1,
                                    SelectorView { classes: begun.classes.push(class), ..begun },
                                );
                            },
                            _ => {
                                lemma_selector_from(tokens, at + 1, begun);
                            },
                        }
                    }
                } else if c == '*' {
                    lemma_selector_from(tokens, pos + 1, begun);
                }
            },
            _ => {},
        }
    }
}

/// Selectors end at or behind the place at which they begin, behind it
/// where a token that is no white space stands there; and at least one
/// is read.
pub proof fn lemma_selectors_from(tokens: Seq<CssToken>, pos: int, read: Seq<SelectorView>)
    requires
        0 <= pos <= tokens.len(),
    ensures
        pos <= selectors_from(tokens, pos, read).1 <= tokens.len(),
        skip_ws(tokens, pos) < tokens.len() ==> skip_ws(tokens, pos) < selectors_from(
            tokens,
            pos,
            read,
        ).1,
        selectors_from(tokens, pos, read).0.len() > read.len(),
    decreases tokens.len() - pos,
{
    lemma_skip_ws(tokens, pos);
    let start = skip_ws(tokens, pos);
    lemma_selector_from(tokens, start, any_selector());
    let (selector, behind) = selector_from(tokens, start, any_selector());
    lemma_skip_ws(tokens, behind);
    let next = skip_ws(tokens, behind);
    if next < tokens.len() && tokens[next] is Comma {
        lemma_selectors_from(tokens, next + 1, read.push(selector));
    }
}

/// A declaration ends behind the place at which it begins, unless no
/// token but white space is left.
pub proof fn lemma_declaration_at(tokens: Seq<CssToken>, pos: int)
    requires
        0 <= pos <= tokens.len(),
    ensures
        pos <= declaration_at(tokens, pos).1 <= tokens.len(),
        skip_ws(tokens, pos) < tokens.len() ==> skip_ws(tokens, pos) < declaration_at(
            tokens,
            pos,
        ).1,
{
    lemma_skip_ws(tokens, pos);
    let at = skip_ws(tokens, pos);
    if at < tokens.len() {
        lemma_skip_ws(tokens, at + 1);
        let colon = skip_ws(tokens, at + 1);
        if colon < tokens.len() {
            lemma_skip_ws(tokens, colon + 1);
        }
    }
}

/// A rule ends behind the place at which it begins, unless no token but
/// white space is left.
pub proof fn lemma_rule_at(tokens: Seq<CssToken>, pos: int)
    requires
        0 <= pos <= tokens.len(),
    ensures
        pos <= rule_at(tokens, pos).1 <= tokens.len(),
        skip_ws(tokens, pos) < tokens.len() ==> skip_ws(tokens, pos) < rule_at(tokens, pos).1,
        rule_at(tokens, pos).0 matches Some(rule) ==> rule.selectors.len() > 0,
{
    lemma_selectors_from(tokens, pos, Seq::empty());
    lemma_skip_ws(tokens, selectors_from(tokens, pos, Seq::empty()).1);
}

/// The place behind the next block lies at or behind the place from
/// which it is looked for.
pub proof fn lemma_behind_block(tokens: Seq<CssToken>, pos: int)
    requires
        0 <= pos <= tokens.len(),
    ensures
        pos <= behind_block(tokens, pos) <= tokens.len(),
    decreases tokens.len() - pos,
{
    lemma_skip_ws(tokens, pos);
    let at = skip_ws(tokens, pos);
    if at < tokens.len() && !(tokens[at] is CurlyBracketBlock) {
        lemma_behind_block(tokens, at + 1);
    }
}

/// Every rule of a style sheet has a selector.
pub proof fn lemma_rules_have_selectors(tokens: Seq<CssToken>, pos: int, read: Seq<RuleView>)
    requires
        0 <= pos <= tokens.len(),
        forall|i: int| 0 <= i < read.len() ==> (#[trigger] read[i]).selectors.len() > 0,
    ensures
        forall|i: int|
            0 <= i < rules_from(tokens, pos, read).len() ==> (#[trigger] rules_from(
                tokens,
                pos,
                read,
            )[i]).selectors.len() > 0,
    decreases tokens.len() - pos,
{
    lemma_skip_ws(tokens, pos);
    let at = skip_ws(tokens, pos);
    if at < tokens.len() {
        lemma_rule_at(tokens, at);
        let (rule, behind) = rule_at(tokens, at);
        lemma_behind_block(tokens, behind);
        match rule {
            Some(r) => {
                let kept = read.push(r);
                assert(r.selectors.len() > 0);
                assert forall|i: int| 0 <= i < kept.len() implies (#[trigger] kept[i]).selectors.len()
                    > 0 by {
                    if i < read.len() {
                        assert(kept[i] == read[i]);
                    }
                }
                lemma_rules_have_selectors(tokens, behind, kept);
                assert(rules_from(tokens, pos, read) == rules_from(tokens, behind, kept));
            },
            None => {
                lemma_rules_have_selectors(tokens, behind_block(tokens, behind), read);
                assert(rules_from(tokens, pos, read) == rules_from(
                    tokens,
                    behind_block(tokens, behind),
                    read,
                ));
            },
        }
    }
}

/// Passes white space.
fn skip_whitespace(tokens: &[CssToken], pos: usize) -> (at: usize)
    requires
        pos <= tokens@.len(),
    ensures
        at == skip_ws(tokens@, pos as int),
        pos <= at <= tokens@.len(),
{
    let mut at = pos;
    while at < tokens.len() && is_white_space(&tokens[at])
        invariant
            pos <= at <= tokens@.len(),
            skip_ws(tokens@, at as int) == skip_ws(tokens@, pos as int),
        decreases tokens@.len() - at,
    {
        at = at + 1;
    }
    at
}

/// Whether a token is white space.
fn is_white_space(token: &CssToken) -> (white: bool)
    ensures
        white == (*token is WhiteSpace),
{
    match token {
        CssToken::WhiteSpace => true,
        _ => false,
    }
}

/// Reads a simple selector.
fn parse_simple_selector(tokens: &[CssToken], pos: usize) -> (read: (SimpleSelector, usize))
    requires
        pos <= tokens@.len(),
    ensures
        selector_view(Selector::Simple(read.0)) == selector_from(
            tokens@,
            pos as int,
            any_selector(),
        ).0,
        read.1 == selector_from(tokens@, pos as int, any_selector()).1,
        pos <= read.1 <= tokens@.len(),
{
    let mut selector = SimpleSelector { tag_name: None, id: None, classes: Vec::new() };
    let mut at = pos;
    let mut ended = false;
    assert(selector.classes@ =~= Seq::<String>::empty());
    proof {
        lemma_selector_from(tokens@, pos as int, any_selector());
    }
    while !ended && at < tokens.len()
        invariant
            pos <= at <= tokens@.len(),
            !ended ==> selector_from(tokens@, at as int, selector_view(Selector::Simple(selector)))
                == selector_from(tokens@, pos as int, any_selector()),
            ended ==> (selector_view(Selector::Simple(selector)), at as int) == selector_from(
                tokens@,
                pos as int,
                any_selector(),
            ),
        decreases tokens@.len() - at + if ended { 0int } else { 1int },
    {
        let ghost begun = selector_view(Selector::Simple(selector));
        match &tokens[at] {
            CssToken::Ident(name) => {
                selector.tag_name = Some(name.clone());
                at = at + 1;
            },
            CssToken::IDHash(id) => {
                selector.id = Some(id.clone());
                at = at + 1;
            },
            CssToken::Delim(c) => {
                if *c == '.' {
                    let next = skip_whitespace(tokens, at + 1);
                    if next < tokens.len() {
                        match &tokens[next] {
                            CssToken::Ident(class) => {
                                selector.classes.push(class.clone());
                            },
                            _ => {},
                        }
                        at = next + 1;
                    } else {
                        at = next;
                        ended = true;
                    }
                } else if *c == '*' {
                    at = at + 1;
                } else {
                    at = at + 1;
                    ended = true;
                }
            },
            _ => {
                at = at + 1;
                ended = true;
            },
        }
    }
    (selector, at)
}

/// Reads selectors with commas between them.
fn parse_selectors(tokens: &[CssToken], pos: usize) -> (read: (Vec<Selector>, usize))
    requires
        pos <= tokens@.len(),
    ensures
        selector_views(read.0@) == selectors_from(tokens@, pos as int, Seq::empty()).0,
        read.1 == selectors_from(tokens@, pos as int, Seq::empty()).1,
        pos <= read.1 <= tokens@.len(),
{
    let mut selectors: Vec<Selector> = Vec::new();
    let mut at = pos;
    assert(selector_views(selectors@) =~= Seq::<SelectorView>::empty());
    loop
        invariant
            pos <= at <= tokens@.len(),
            selectors_from(tokens@, at as int, selector_views(selectors@)) == selectors_from(
                tokens@,
                pos as int,
                Seq::empty(),
            ),
        decreases tokens@.len() - at,
    {
        let ghost read = selector_views(selectors@);
        let start = skip_whitespace(tokens, at);
        let (selector, behind) = parse_simple_selector(tokens, start);
        selectors.push(Selector::Simple(selector));
        assert(selector_views(selectors@) =~= read.push(selector_view(Selector::Simple(selector))));
        let next = skip_whitespace(tokens, behind);
        proof {
            lemma_skip_ws(tokens@, at as int);
            lemma_selector_from(tokens@, start as int, any_selector());
        }
        if next < tokens.len() && is_comma(&tokens[next]) {
            at = next + 1;
        } else {
            return (selectors, next);
        }
    }
}

/// Whether a token is a comma.
fn is_comma(token: &CssToken) -> (comma: bool)
    ensures
        comma == (*token is Comma),
{
    match token {
        CssToken::Comma => true,
        _ => false,
    }
}

/// Whether a token is a semicolon.
fn is_semicolon(token: &CssToken) -> (semicolon: bool)
    ensures
        semicolon == (*token is Semicolon),
{
    match token {
        CssToken::Semicolon => true,
        _ => false,
    }
}

/// Whether a token is a colon.
fn is_colon(token: &CssToken) -> (colon: bool)
    ensures
        colon == (*token is Colon),
{
    match token {
        CssToken::Colon => true,
        _ => false,
    }
}

/// Reads a value.
fn parse_value(tokens: &[CssToken], pos: usize) -> (read: (Option<Value>, usize))
    requires
        pos <= tokens@.len(),
    ensures
        read.0 == value_at(tokens@, pos as int).0,
        read.1 == value_at(tokens@, pos as int).1,
        pos <= read.1 <= tokens@.len(),
{
    let at = skip_whitespace(tokens, pos);
    if at >= tokens.len() {
        return (None, at);
    }
    let value = match &tokens[at] {
        CssToken::Ident(keyword) => Some(Value::Keyword(keyword.clone())),
        CssToken::Number(n) => Some(Value::Number(*n)),
        CssToken::Percentage(n) => Some(Value::Percentage(*n)),
        CssToken::Dimension(n, unit) => match Unit::from_name(unit.as_str()) {
            Some(u) => Some(Value::Length(*n, u)),
            None => None,
        },
        CssToken::Hash(hex) => match parse_hex_color(hex.as_str()) {
            Ok(color) => Some(color),
            Err(_) => None,
        },
        CssToken::IDHash(hex) => match parse_hex_color(hex.as_str()) {
            Ok(color) => Some(color),
            Err(_) => None,
        },
        _ => None,
    };
    (value, at + 1)
}

/// Reads a declaration.
fn parse_declaration(tokens: &[CssToken], pos: usize) -> (read: (Option<Declaration>, usize))
    requires
        pos <= tokens@.len(),
    ensures
        read.0 == declaration_at(tokens@, pos as int).0,
        read.1 == declaration_at(tokens@, pos as int).1,
        pos <= read.1 <= tokens@.len(),
{
    let at = skip_whitespace(tokens, pos);
    if at >= tokens.len() {
        return (None, at);
    }
    match &tokens[at] {
        CssToken::Ident(name) => {
            let colon = skip_whitespace(tokens, at + 1);
            if colon >= tokens.len() {
                (None, colon)
            } else if is_colon(&tokens[colon]) {
                let (value, behind) = parse_value(tokens, colon + 1);
                match value {
                    Some(value) => (Some(Declaration { name: name.clone(), value }), behind),
                    None => (None, behind),
                }
            } else {
                (None, colon + 1)
            }
        },
        _ => (None, at + 1),
    }
}

/// Reads the declarations of a block.
fn parse_declarations(tokens: &[CssToken]) -> (declarations: Vec<Declaration>)
    ensures
        declarations@ == declarations_from(tokens@, 0, Seq::empty()),
{
    let mut declarations: Vec<Declaration> = Vec::new();
    let mut pos: usize = 0;
    loop
        invariant
            pos <= tokens@.len(),
            declarations_from(tokens@, pos as int, declarations@) == declarations_from(
                tokens@,
                0,
                Seq::empty(),
            ),
        decreases tokens@.len() - pos,
    {
        let at = skip_whitespace(tokens, pos);
        if at >= tokens.len() {
            return declarations;
        }
        let (declaration, behind) = parse_declaration(tokens, at);
        match declaration {
            Some(d) => {
                declarations.push(d);
            },
            None => {},
        }
        let semicolon = skip_whitespace(tokens, behind);
        let next = if semicolon < tokens.len() && is_semicolon(&tokens[semicolon]) {
            semicolon + 1
        } else {
            behind
        };
        proof {
            lemma_skip_ws(tokens@, pos as int);
            lemma_declaration_at(tokens@, at as int);
        }
        pos = next;
    }
}

/// Reads a rule.
fn parse_rule(tokens: &[CssToken], pos: usize) -> (read: (Option<Rule>, usize))
    requires
        pos <= tokens@.len(),
    ensures
        match read.0 {
            Some(rule) => rule_at(tokens@, pos as int).0 == Some(rule_view(rule)),
            None => rule_at(tokens@, pos as int).0.is_none(),
        },
        read.1 == rule_at(tokens@, pos as int).1,
        pos <= read.1 <= tokens@.len(),
{
    let (selectors, behind) = parse_selectors(tokens, pos);
    let at = skip_whitespace(tokens, behind);
    if at >= tokens.len() {
        return (None, at);
    }
    match &tokens[at] {
        CssToken::CurlyBracketBlock(content) => {
            let declarations = parse_declarations(content.as_slice());
            (Some(Rule { selectors, declarations }), at + 1)
        },
        _ => (None, at + 1),
    }
}

/// Passes the tokens up to the next block in curly brackets, and the
/// block.
fn skip_to_next_rule(tokens: &[CssToken], pos: usize) -> (at: usize)
    requires
        pos <= tokens@.len(),
    ensures
        at == behind_block(tokens@, pos as int),
        pos <= at <= tokens@.len(),
{
    let mut at = pos;
    loop
        invariant
            pos <= at <= tokens@.len(),
            behind_block(tokens@, at as int) == behind_block(tokens@, pos as int),
        decreases tokens@.len() - at,
    {
        let next = skip_whitespace(tokens, at);
        if next >= tokens.len() {
            return tokens.len();
        }
        match &tokens[next] {
            CssToken::CurlyBracketBlock(_) => {
                return next + 1;
            },
            _ => {},
        }
        at = next + 1;
    }
}

/// Parse the tokens of a CSS stylesheet.
pub fn parse_tokens(tokens: &[CssToken]) -> (sheet: Stylesheet)
    ensures
        rule_views(sheet.rules@) == sheet_of(tokens@),
{
    let mut rules: Vec<Rule> = Vec::new();
    let mut pos: usize = 0;
    assert(rule_views(rules@) =~= Seq::<RuleView>::empty());
    loop
        invariant
            pos <= tokens@.len(),
            rules_from(tokens@, pos as int, rule_views(rules@)) == sheet_of(tokens@),
        decreases tokens@.len() - pos,
    {
        let ghost read = rule_views(rules@);
        let at = skip_whitespace(tokens, pos);
        if at >= tokens.len() {
            return Stylesheet::new(rules);
        }
        let (rule, behind) = parse_rule(tokens, at);
        let next = match rule {
            Some(rule) => {
                rules.push(rule);
                assert(rule_views(rules@) =~= read.push(rule_view(rule)));
                behind
            },
            None => skip_to_next_rule(tokens, behind),
        };
        proof {
            lemma_skip_ws(tokens@, pos as int);
            lemma_rule_at(tokens@, at as int);
        }
        pos = next;
    }
}

} // verus!
