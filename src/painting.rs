use vstd::prelude::*;
use crate::boxmodel::{node_wf, prop, r64};
use crate::css::{Color, Value};
use crate::layout::{box_wf, Dimensions, LayoutBox, Rct};

verus! {

/// A drawing command.
pub enum DisplayCommand {
    SolidColor(Color, Rct),
}

pub type DisplayList = Vec<DisplayCommand>;

/// Pixels to draw on, row by row.
pub struct Canvas {
    pub pixels: Vec<Color>,
    pub width: usize,
    pub height: usize,
}

impl Canvas {
    /// A blank (white) canvas.
    pub fn new(width: usize, height: usize) -> (r: Canvas)
        requires
            width * height <= usize::MAX,
        ensures
            r.width == width,
            r.height == height,
            r.pixels@.len() == width * height,
            forall|i: int| 0 <= i < r.pixels@.len() ==> r.pixels@[i] == (Color { r: 255, g: 255, b: 255, a: 255 }),
    {
        let white = Color { r: 255, g: 255, b: 255, a: 255 };
        let n = width * height;
        let mut pixels: Vec<Color> = Vec::new();
        let mut i: usize = 0;
        while i < n
            invariant
                i <= n,
                pixels@.len() == i,
                forall|j: int| 0 <= j < i ==> pixels@[j] == white,
            decreases n - i,
        {
            pixels.push(white);
            i = i + 1;
        }
        Canvas { pixels, width, height }
    }
}

/// The border box of `d`: its content expanded by padding, then by border.
pub open spec fn border_box(d: Dimensions) -> Rct {
    Rct {
        x: (d.content.x - d.padding.left - d.border.left) as i64,
        y: (d.content.y - d.padding.top - d.border.top) as i64,
        width: (d.content.width + d.padding.left + d.padding.right + d.border.left + d.border.right) as i64,
        height: (d.content.height + d.padding.top + d.padding.bottom + d.border.top + d.border.bottom) as i64,
    }
}

/// The arithmetic of the border box and its strips stays within `i64`.
pub open spec fn box_fits(d: Dimensions) -> bool {
    &&& r64(d.content.x - d.padding.left)
    &&& r64(d.content.x - d.padding.left - d.border.left)
    &&& r64(d.content.y - d.padding.top)
    &&& r64(d.content.y - d.padding.top - d.border.top)
    &&& r64(d.content.width + d.padding.left)
    &&& r64(d.content.width + d.padding.left + d.padding.right)
    &&& r64(d.content.width + d.padding.left + d.padding.right + d.border.left)
    &&& r64(d.content.width + d.padding.left + d.padding.right + d.border.left + d.border.right)
    &&& r64(d.content.height + d.padding.top)
    &&& r64(d.content.height + d.padding.top + d.padding.bottom)
    &&& r64(d.content.height + d.padding.top + d.padding.bottom + d.border.top)
    &&& r64(d.content.height + d.padding.top + d.padding.bottom + d.border.top + d.border.bottom)
    &&& r64(border_box(d).x + border_box(d).width)
    &&& r64(border_box(d).x + border_box(d).width - d.border.right)
    &&& r64(border_box(d).y + border_box(d).height)
    &&& r64(border_box(d).y + border_box(d).height - d.border.bottom)
}

/// Every box of the tree has `box_fits` dimensions.
pub open spec fn paint_fits<'a>(b: LayoutBox<'a>) -> bool
    decreases b,
{
    &&& box_fits(b.dimensions)
    &&& forall|i: int| 0 <= i < b.children@.len() ==> paint_fits(#[trigger] b.children@[i])
}

/// The colour that property `name` gives the box, if it is a colour.
pub open spec fn color_of<'a>(b: LayoutBox<'a>, name: Seq<char>) -> Option<Color> {
    match prop(b, name) {
        Some(Value::ColorValue(c)) => Some(c),
        _ => None,
    }
}

/// The background of a box: its border box, in the `background` colour.
pub open spec fn bg_cmds<'a>(b: LayoutBox<'a>) -> Seq<DisplayCommand> {
    match color_of(b, "background"@) {
        Some(c) => seq![DisplayCommand::SolidColor(c, border_box(b.dimensions))],
        None => seq![],
    }
}

/// The four border strips (left, right, top, bottom) in `border-color`.
pub open spec fn border_cmds<'a>(b: LayoutBox<'a>) -> Seq<DisplayCommand> {
    let d = b.dimensions;
    let bx = border_box(d);
    match color_of(b, "border-color"@) {
        Some(c) => seq![
            DisplayCommand::SolidColor(c, Rct { x: bx.x, y: bx.y, width: d.border.left, height: bx.height }),
            DisplayCommand::SolidColor(c, Rct { x: (bx.x + bx.width - d.border.right) as i64, y: bx.y, width: d.border.right, height: bx.height }),
            DisplayCommand::SolidColor(c, Rct { x: bx.x, y: bx.y, width: bx.width, height: d.border.top }),
            DisplayCommand::SolidColor(c, Rct { x: bx.x, y: (bx.y + bx.height - d.border.bottom) as i64, width: bx.width, height: d.border.bottom }),
        ],
        None => seq![],
    }
}

/// The commands for a tree of boxes: each box's background and borders,
/// then those of its children in order.
pub open spec fn commands<'a>(b: LayoutBox<'a>) -> Seq<DisplayCommand>
    decreases b, b.children@.len() + 1,
{
    bg_cmds(b) + border_cmds(b) + child_cmds(b, b.children@.len() as int)
}

/// The commands for the first `k` children of `b`.
pub open spec fn child_cmds<'a>(b: LayoutBox<'a>, k: int) -> Seq<DisplayCommand>
    decreases b, k,
{
    if k <= 0 || k > b.children@.len() {
        seq![]
    } else {
        child_cmds(b, k - 1) + commands(b.children@[k - 1])
    }
}

impl Dimensions {
    /// The area covered by content, padding and border.
    pub fn border_box(&self) -> (r: Rct)
        requires
            box_fits(*self),
        ensures
            r == border_box(*self),
    {
        Rct {
            x: self.content.x - self.padding.left - self.border.left,
            y: self.content.y - self.padding.top - self.border.top,
            width: self.content.width + self.padding.left + self.padding.right + self.border.left + self.border.right,
            height: self.content.height + self.padding.top + self.padding.bottom + self.border.top + self.border.bottom,
        }
    }
}

/// The colour that property `nam` gives the box; anonymous boxes have none.
pub fn get_color(layout_box: &LayoutBox, nam: &str) -> (r: Option<Color>)
    requires
        node_wf(*layout_box),
    ensures
        r == color_of(*layout_box, nam@),
{
    match layout_box.prop_val(nam) {
        Some(Value::ColorValue(clr)) => Some(clr),
        _ => None,
    }
}

/// Paint the background, if the box has one.
pub fn render_bg(list: &mut DisplayList, layout_box: &LayoutBox)
    requires
        node_wf(*layout_box),
        box_fits(layout_box.dimensions),
    ensures
        final(list)@ == old(list)@ + bg_cmds(*layout_box),
{
    proof { reveal_strlit("background"); }
    match get_color(layout_box, "background") {
        Some(clr) => {
            list.push(DisplayCommand::SolidColor(clr, layout_box.dimensions.border_box()));
        },
        None => {},
    }
    assert(final(list)@ =~= old(list)@ + bg_cmds(*layout_box));
}

/// Paint the four border strips, if the box has a border colour.
pub fn render_borders(list: &mut DisplayList, layout_box: &LayoutBox)
    requires
        node_wf(*layout_box),
        box_fits(layout_box.dimensions),
    ensures
        final(list)@ == old(list)@ + border_cmds(*layout_box),
{
    let clr = match get_color(layout_box, "border-color") {
        Some(clr) => clr,
        None => {
            assert(final(list)@ =~= old(list)@ + border_cmds(*layout_box));
            return;
        },
    };
    let d = &layout_box.dimensions;
    let bx = d.border_box();
    list.push(DisplayCommand::SolidColor(clr, Rct { x: bx.x, y: bx.y, width: d.border.left, height: bx.height }));
    list.push(DisplayCommand::SolidColor(clr, Rct { x: bx.x + bx.width - d.border.right, y: bx.y, width: d.border.right, height: bx.height }));
    list.push(DisplayCommand::SolidColor(clr, Rct { x: bx.x, y: bx.y, width: bx.width, height: d.border.top }));
    list.push(DisplayCommand::SolidColor(clr, Rct { x: bx.x, y: bx.y + bx.height - d.border.bottom, width: bx.width, height: d.border.bottom }));
    assert(final(list)@ =~= old(list)@ + border_cmds(*layout_box));
}

/// Paint a box and then its descendants.
pub fn render_layout_box(list: &mut DisplayList, layout_box: &LayoutBox)
    requires
        box_wf(*layout_box),
        paint_fits(*layout_box),
    ensures
        final(list)@ == old(list)@ + commands(*layout_box),
    decreases layout_box,
{
    render_bg(list, layout_box);
    render_borders(list, layout_box);
    let ghost mid = list@;
    let n = layout_box.children.len();
    let mut i: usize = 0;
    assert(mid =~= mid + child_cmds(*layout_box, 0));
    while i < n
        invariant
            n == layout_box.children@.len(),
            i <= n,
            box_wf(*layout_box),
            paint_fits(*layout_box),
            list@ == mid + child_cmds(*layout_box, i as int),
        decreases n - i,
    {
        proof { vstd::std_specs::vec::axiom_vec_index_decreases(layout_box.children, i as int); }
        render_layout_box(list, &layout_box.children[i]);
        assert(list@ =~= mid + child_cmds(*layout_box, i + 1));
        i = i + 1;
    }
    assert(list@ =~= old(list)@ + commands(*layout_box));
}

/// The display list of a laid-out box tree.
pub fn build_display_list(layout_root: &LayoutBox) -> (r: DisplayList)
    requires
        box_wf(*layout_root),
        paint_fits(*layout_root),
    ensures
        r@ == commands(*layout_root),
{
    let mut list: DisplayList = Vec::new();
    render_layout_box(&mut list, layout_root);
    assert(list@ =~= commands(*layout_root));
    list
}

} // verus!
