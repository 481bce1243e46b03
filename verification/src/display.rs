//! The display list: what to paint for a tree of boxes, in paint order.

use vstd::prelude::*;
use crate::css::{Color, Value};
use crate::layout::{
    lemma_models, lemma_within_reach_fits, magnitude, model_of, within_reach, BoxType, Dimensions,
    LayoutBox, Rect, REACH_LIMIT,
};
use crate::style::StyledNode;
use crate::text::{is_blank, is_blank_text, lowercase, str_eq, to_lowercase};
use crate::urls::{is_valid_url, parse_url};
use url::Url;

verus! {

/// Display list - a list of rendering commands
pub type DisplayList = Vec<DisplayCommand>;

/// A single rendering command
#[derive(Debug)]
pub enum DisplayCommand {
    /// Draw a solid colored rectangle
    SolidRect { color: Color, rect: Rect },
    /// Draw a border around a rectangle; widths are left, right, top and
    /// bottom
    Border { color: Color, rect: Rect, widths: (i64, i64, i64, i64) },
    /// Draw text
    Text { text: String, rect: Rect, color: Color },
    /// Draw an image
    Image { url: Url, rect: Rect },
}

/// A rendering command as a mathematical value. An image stands for its
/// rectangle; which URL it shows is not part of the value.
pub enum CommandView {
    SolidRect { color: Color, rect: Rect },
    Border { color: Color, rect: Rect, widths: (i64, i64, i64, i64) },
    Text { text: Seq<char>, rect: Rect, color: Color },
    Image { rect: Rect },
}

impl View for DisplayCommand {
    type V = CommandView;

    open spec fn view(&self) -> CommandView {
        match *self {
            DisplayCommand::SolidRect { color, rect } => CommandView::SolidRect { color, rect },
            DisplayCommand::Border { color, rect, widths } => CommandView::Border {
                color,
                rect,
                widths,
            },
            DisplayCommand::Text { text, rect, color } => CommandView::Text {
                text: text@,
                rect,
                color,
            },
            DisplayCommand::Image { url, rect } => CommandView::Image { rect },
        }
    }
}

impl CommandView {
    /// The rectangle that the command paints.
    pub open spec fn rect(self) -> Rect {
        match self {
            CommandView::SolidRect { rect, .. } => rect,
            CommandView::Border { rect, .. } => rect,
            CommandView::Text { rect, .. } => rect,
            CommandView::Image { rect } => rect,
        }
    }
}

/// The commands of a list as mathematical values.
pub open spec fn command_views(list: Seq<DisplayCommand>) -> Seq<CommandView> {
    Seq::new(list.len(), |i: int| list[i]@)
}

/// The styled node that a box stands for.
pub open spec fn styled_node_of<'a>(b: LayoutBox<'a>) -> Option<StyledNode<'a>> {
    match b.box_type {
        BoxType::BlockNode(node) => Some(*node),
        BoxType::InlineNode(node) => Some(*node),
        BoxType::AnonymousBlock => None,
    }
}

/// The color that the style of a box gives a property; none where the box
/// has no style or the property is no color.
pub open spec fn color_of(b: LayoutBox, property: Seq<char>) -> Option<Color> {
    match styled_node_of(b) {
        Some(node) => match node.spec_value(property) {
            Some(Value::Color(c)) => Some(c),
            _ => None,
        },
        None => None,
    }
}

/// What paints the background of a box: its border box in the background
/// color, where it has one.
pub open spec fn background_commands(b: LayoutBox) -> Seq<CommandView> {
    match color_of(b, "background-color"@) {
        Some(color) => seq![
            CommandView::SolidRect { color, rect: b.dimensions.spec_border_box() },
        ],
        None => Seq::empty(),
    }
}

/// Whether a box has a border to paint: one of its border widths is over
/// zero.
pub open spec fn has_border(d: Dimensions) -> bool {
    d.border.left > 0 || d.border.right > 0 || d.border.top > 0 || d.border.bottom > 0
}

/// What paints the border of a box: its border box with its border widths
/// in the border color, where it has a border and a color for it.
pub open spec fn border_commands(b: LayoutBox) -> Seq<CommandView> {
    match color_of(b, "border-color"@) {
        Some(color) => if has_border(b.dimensions) {
            seq![
                CommandView::Border {
                    color,
                    rect: b.dimensions.spec_border_box(),
                    widths: (
                        b.dimensions.border.left,
                        b.dimensions.border.right,
                        b.dimensions.border.top,
                        b.dimensions.border.bottom,
                    ),
                },
            ]
        } else {
            Seq::empty()
        },
        None => Seq::empty(),
    }
}

/// The source of the image that a box shows: the `src` attribute of its
/// element, where that is an `img` element, whatever the case of the tag.
pub open spec fn image_source(b: LayoutBox) -> Option<Seq<char>> {
    match styled_node_of(b) {
        Some(node) => match node.node.node_type {
            crate::dom::NodeType::Element(elem) => if lowercase(elem.tag_name@) == "img"@ {
                elem.attribute("src"@)
            } else {
                None
            },
            _ => None,
        },
        None => None,
    }
}

/// What paints the image of a box: the image in its content box, where the
/// box shows an image whose source is a URL.
pub open spec fn image_commands(b: LayoutBox) -> Seq<CommandView> {
    match image_source(b) {
        Some(src) => if is_valid_url(src) {
            seq![CommandView::Image { rect: b.dimensions.content }]
        } else {
            Seq::empty()
        },
        None => Seq::empty(),
    }
}

/// The text that a box shows: the text of its node, where that is a text
/// node.
pub open spec fn text_of_box(b: LayoutBox) -> Option<Seq<char>> {
    match styled_node_of(b) {
        Some(node) => match node.node.node_type {
            crate::dom::NodeType::Text(text) => Some(text@),
            _ => None,
        },
        None => None,
    }
}

/// What paints the text of a box: the text in its border box, in its color
/// or in black, where the box shows text that is not blank.
pub open spec fn text_commands(b: LayoutBox) -> Seq<CommandView> {
    match text_of_box(b) {
        Some(text) => if !is_blank_text(text) {
            seq![
                CommandView::Text {
                    text,
                    rect: b.dimensions.spec_border_box(),
                    color: match color_of(b, "color"@) {
                        Some(c) => c,
                        None => Color { r: 0, g: 0, b: 0, a: 255 },
                    },
                },
            ]
        } else {
            Seq::empty()
        },
        None => Seq::empty(),
    }
}

/// What paints a box itself: background, border, image and text, in that
/// order.
pub open spec fn own_commands(b: LayoutBox) -> Seq<CommandView> {
    background_commands(b) + border_commands(b) + image_commands(b) + text_commands(b)
}

/// What paints a tree of boxes: each box before its children, and the
/// children in order.
pub open spec fn tree_commands(b: LayoutBox) -> Seq<CommandView>
    decreases b, 0nat,
{
    own_commands(b) + children_commands(b.children@, b.children@.len() as int)
}

/// What paints the first `k` of a list of trees.
pub open spec fn children_commands(boxes: Seq<LayoutBox>, k: int) -> Seq<CommandView>
    decreases boxes, k,
{
    if k <= 0 || k > boxes.len() {
        Seq::empty()
    } else {
        children_commands(boxes, k - 1) + tree_commands(boxes[k - 1])
    }
}

/// Whether the rectangle of every command is in reach.
pub open spec fn all_in_reach(commands: Seq<CommandView>) -> bool {
    forall|i: int| 0 <= i < commands.len() ==> rect_in_reach((#[trigger] commands[i]).rect())
}

/// What paints a tree of boxes within reach paints rectangles in reach.
pub proof fn lemma_tree_commands_in_reach(b: LayoutBox)
    requires
        within_reach(b@),
    ensures
        all_in_reach(tree_commands(b)),
    decreases b, 0nat,
{
    lemma_models(b.children@, b.children@.len() as int);
    assert forall|j: int| 0 <= j < b.children@.len() implies within_reach(
        model_of(#[trigger] b.children@[j]),
    ) by {
        assert(b@.children[j] == model_of(b.children@[j]));
        assert(within_reach(b@.children[j]));
    }
    lemma_children_commands_in_reach(b.children@, b.children@.len() as int);
}

/// What paints the first `k` of a list of trees within reach paints
/// rectangles in reach.
pub proof fn lemma_children_commands_in_reach(boxes: Seq<LayoutBox>, k: int)
    requires
        0 <= k <= boxes.len(),
        forall|j: int| 0 <= j < boxes.len() ==> within_reach(model_of(#[trigger] boxes[j])),
    ensures
        all_in_reach(children_commands(boxes, k)),
    decreases boxes, k,
{
    if k > 0 {
        lemma_children_commands_in_reach(boxes, k - 1);
        lemma_tree_commands_in_reach(boxes[k - 1]);
    }
}

/// Build a display list from a layout tree
pub fn build_display_list(layout_root: &LayoutBox) -> (list: DisplayList)
    requires
        within_reach(layout_root@),
    ensures
        command_views(list@) == tree_commands(*layout_root),
        forall|i: int| 0 <= i < list@.len() ==> rect_in_reach((#[trigger] list@[i])@.rect()),
{
    let mut list: Vec<DisplayCommand> = Vec::new();
    render_layout_box(&mut list, layout_root);
    proof {
        assert(command_views(list@) =~= tree_commands(*layout_root));
        lemma_tree_commands_in_reach(*layout_root);
        assert forall|i: int| 0 <= i < list@.len() implies rect_in_reach(
            (#[trigger] list@[i])@.rect(),
        ) by {
            assert(command_views(list@)[i] == list@[i]@);
        }
    }
    list
}

/// Render a layout box and its children
fn render_layout_box(list: &mut DisplayList, layout_box: &LayoutBox)
    requires
        within_reach(layout_box@),
    ensures
        command_views(final(list)@) == command_views(old(list)@) + tree_commands(*layout_box),
    decreases layout_box,
{
    let ghost start = command_views(list@);
    proof {
        lemma_within_reach_fits(layout_box@);
        lemma_models(layout_box.children@, layout_box.children@.len() as int);
    }
    render_background(list, layout_box);
    render_borders(list, layout_box);
    render_image(list, layout_box);
    render_text(list, layout_box);
    assert(command_views(list@) =~= start + own_commands(*layout_box));
    let mut i: usize = 0;
    while i < layout_box.children.len()
        invariant
            i <= layout_box.children@.len(),
            within_reach(layout_box@),
            layout_box@.children.len() == layout_box.children@.len(),
            forall|j: int|
                0 <= j < layout_box.children@.len() ==> #[trigger] layout_box@.children[j]
                    == model_of(layout_box.children@[j]),
            command_views(list@) == start + own_commands(*layout_box) + children_commands(
                layout_box.children@,
                i as int,
            ),
        decreases layout_box.children@.len() - i,
    {
        assert(within_reach(layout_box@.children[i as int]));
        render_layout_box(list, &layout_box.children[i]);
        assert(command_views(list@) =~= start + own_commands(*layout_box) + children_commands(
            layout_box.children@,
            i as int + 1,
        ));
        i = i + 1;
    }
    assert(command_views(list@) =~= start + tree_commands(*layout_box));
}

/// Render the background of a layout box
fn render_background(list: &mut DisplayList, layout_box: &LayoutBox)
    requires
        layout_box.dimensions.boxes_fit(),
    ensures
        command_views(final(list)@) == command_views(old(list)@) + background_commands(
            *layout_box,
        ),
{
    if let Some(color) = get_color(layout_box, "background-color") {
        list.push(DisplayCommand::SolidRect { color, rect: layout_box.dimensions.border_box() });
    }
    assert(command_views(list@) =~= command_views(old(list)@) + background_commands(*layout_box));
}

/// Render the borders of a layout box
fn render_borders(list: &mut DisplayList, layout_box: &LayoutBox)
    requires
        layout_box.dimensions.boxes_fit(),
    ensures
        command_views(final(list)@) == command_views(old(list)@) + border_commands(*layout_box),
{
    let border = layout_box.dimensions.border;
    if border.left > 0 || border.right > 0 || border.top > 0 || border.bottom > 0 {
        if let Some(color) = get_color(layout_box, "border-color") {
            list.push(
                DisplayCommand::Border {
                    color,
                    rect: layout_box.dimensions.border_box(),
                    widths: (border.left, border.right, border.top, border.bottom),
                },
            );
        }
    }
    assert(command_views(list@) =~= command_views(old(list)@) + border_commands(*layout_box));
}

/// The styled node of a box.
fn styled_node<'a, 'b>(layout_box: &'b LayoutBox<'a>) -> (node: Option<&'a StyledNode<'a>>)
    ensures
        match node {
            Some(n) => styled_node_of(*layout_box) == Some(*n),
            None => styled_node_of(*layout_box).is_none(),
        },
{
    match &layout_box.box_type {
        BoxType::BlockNode(node) => Some(*node),
        BoxType::InlineNode(node) => Some(*node),
        BoxType::AnonymousBlock => None,
    }
}

/// Render image if this is an img element
fn render_image(list: &mut DisplayList, layout_box: &LayoutBox)
    ensures
        command_views(final(list)@) == command_views(old(list)@) + image_commands(*layout_box),
{
    if let Some(style_node) = styled_node(layout_box) {
        if let Some(elem) = style_node.node.element_data() {
            let tag = to_lowercase(elem.tag_name.as_str());
            if str_eq(tag.as_str(), "img") {
                if let Some(src) = elem.get_attribute("src") {
                    push_image(list, parse_url(src), layout_box.dimensions.content);
                }
            }
        }
    }
    assert(command_views(list@) =~= command_views(old(list)@) + image_commands(*layout_box));
}

/// Adds the command for an image whose source was read: one where the
/// source is a URL, none else.
pub fn push_image(list: &mut DisplayList, url: Option<Url>, rect: Rect)
    ensures
        command_views(final(list)@) == command_views(old(list)@) + match url {
            Some(_) => seq![CommandView::Image { rect }],
            None => Seq::empty(),
        },
{
    if let Some(url) = url {
        list.push(DisplayCommand::Image { url, rect });
        assert(command_views(list@) =~= command_views(old(list)@) + seq![
            CommandView::Image { rect },
        ]);
    } else {
        assert(command_views(list@) =~= command_views(old(list)@) + Seq::<CommandView>::empty());
    }
}

/// Render text content
fn render_text(list: &mut DisplayList, layout_box: &LayoutBox)
    requires
        layout_box.dimensions.boxes_fit(),
    ensures
        command_views(final(list)@) == command_views(old(list)@) + text_commands(*layout_box),
{
    if let Some(style_node) = styled_node(layout_box) {
        if let Some(text) = style_node.node.text_content() {
            if !is_blank(text) {
                let color = match get_color(layout_box, "color") {
                    Some(c) => c,
                    None => Color::new(0, 0, 0, 255),
                };
                list.push(
                    DisplayCommand::Text {
                        text: String::from_str(text),
                        rect: layout_box.dimensions.border_box(),
                        color,
                    },
                );
            }
        }
    }
    assert(command_views(list@) =~= command_views(old(list)@) + text_commands(*layout_box));
}

/// Get a color value from the styled node
fn get_color(layout_box: &LayoutBox, property: &str) -> (color: Option<Color>)
    ensures
        color == color_of(*layout_box, property@),
{
    match styled_node(layout_box) {
        Some(style_node) => match style_node.value(property) {
            Some(Value::Color(color)) => Some(*color),
            _ => None,
        },
        None => None,
    }
}

/// Optimize display list by merging adjacent rectangles, etc. Nothing is
/// merged: the list comes back as it is.
pub fn optimize_display_list(list: DisplayList) -> (optimized: DisplayList)
    ensures
        optimized == list,
{
    list
}

/// Whether two rectangles overlap in more than an edge.
pub open spec fn overlap(a: Rect, b: Rect) -> bool {
    a.x < b.x + b.width && a.x + a.width > b.x && a.y < b.y + b.height && a.y + a.height > b.y
}

/// Whether the coordinates and sizes of a rectangle are at most twice
/// `REACH_LIMIT` in magnitude.
pub open spec fn rect_in_reach(r: Rect) -> bool {
    &&& magnitude(r.x as int) <= 2 * REACH_LIMIT
    &&& magnitude(r.y as int) <= 2 * REACH_LIMIT
    &&& magnitude(r.width as int) <= 2 * REACH_LIMIT
    &&& magnitude(r.height as int) <= 2 * REACH_LIMIT
}

/// Those of the first `k` commands whose rectangle overlaps the viewport,
/// in order.
pub open spec fn culled(list: Seq<DisplayCommand>, viewport: Rect, k: int) -> Seq<DisplayCommand>
    decreases k,
{
    if k <= 0 || k > list.len() {
        Seq::empty()
    } else if overlap(list[k - 1]@.rect(), viewport) {
        culled(list, viewport, k - 1).push(list[k - 1])
    } else {
        culled(list, viewport, k - 1)
    }
}

/// Filter display list to only include items visible in viewport
pub fn cull_display_list(list: DisplayList, viewport: Rect) -> (visible: DisplayList)
    requires
        rect_in_reach(viewport),
        forall|i: int| 0 <= i < list@.len() ==> rect_in_reach((#[trigger] list@[i])@.rect()),
    ensures
        visible@ == culled(list@, viewport, list@.len() as int),
{
    let ghost given = list@;
    let mut rest = list;
    let mut reversed: Vec<DisplayCommand> = Vec::new();
    while rest.len() > 0
        invariant
            rest@.len() + reversed@.len() == given.len(),
            forall|j: int| 0 <= j < rest@.len() ==> #[trigger] rest@[j] == given[j],
            forall|j: int|
                0 <= j < reversed@.len() ==> #[trigger] reversed@[j] == given[given.len() - 1 - j],
        decreases rest@.len(),
    {
        let command = rest.pop().unwrap();
        reversed.push(command);
    }
    let mut visible: Vec<DisplayCommand> = Vec::new();
    let ghost mut i: int = 0;
    while reversed.len() > 0
        invariant
            reversed@.len() + i == given.len(),
            0 <= i,
            rect_in_reach(viewport),
            forall|j: int| 0 <= j < given.len() ==> rect_in_reach((#[trigger] given[j])@.rect()),
            forall|j: int|
                0 <= j < reversed@.len() ==> #[trigger] reversed@[j] == given[given.len() - 1 - j],
            visible@ == culled(given, viewport, i),
        decreases reversed@.len(),
    {
        let command = reversed.pop().unwrap();
        assert(command == given[i]);
        assert(rect_in_reach(given[i]@.rect()));
        let keep = {
            let rect = match &command {
                DisplayCommand::SolidRect { rect, .. } => rect,
                DisplayCommand::Border { rect, .. } => rect,
                DisplayCommand::Text { rect, .. } => rect,
                DisplayCommand::Image { rect, .. } => rect,
            };
            rectangles_intersect(rect, &viewport)
        };
        if keep {
            visible.push(command);
        }
        proof {
            i = i + 1;
        }
    }
    visible
}

/// Check if two rectangles intersect
pub fn rectangles_intersect(a: &Rect, b: &Rect) -> (r: bool)
    requires
        rect_in_reach(*a),
        rect_in_reach(*b),
    ensures
        r == overlap(*a, *b),
{
    a.x < b.x + b.width && a.x + a.width > b.x && a.y < b.y + b.height && a.y + a.height > b.y
}

} // verus!
