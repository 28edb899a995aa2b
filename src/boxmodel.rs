use vstd::prelude::*;
use crate::css::Value;
use crate::layout::{box_wf, node_of, BoxType, Dimensions, EdgeSizes, LayoutBox, Rct};

verus! {

/// `x` fits in an `i64`.
pub open spec fn r64(x: int) -> bool {
    i64::MIN <= x <= i64::MAX
}

/// The resolved width and horizontal margins `(width, margin_left,
/// margin_right)` of a block in a containing block `cbw` px wide.
/// `w`, `l` and `r` are the pixel values of width and margins (zero when
/// `auto`), `rest` the sum of the horizontal borders and paddings.
/// An over-wide box drops its auto margins; then an auto width takes up the
/// remaining space (clamped at zero, the excess going to the right margin);
/// else one auto margin takes it, two auto margins share it, and with no
/// auto at all the right margin takes it.
pub open spec fn solve(w_auto: bool, w: int, l_auto: bool, l: int, r_auto: bool, r: int, rest: int, cbw: int) -> (int, int, int) {
    let total = w + l + r + rest;
    let over = !w_auto && total > cbw;
    let la = l_auto && !over;
    let ra = r_auto && !over;
    let u = cbw - total;
    if w_auto {
        if u >= 0 { (u, l, r) } else { (0, l, r + u) }
    } else if !la && !ra {
        (w, l, r + u)
    } else if !la && ra {
        (w, l, u)
    } else if la && !ra {
        (w, u, r)
    } else {
        (w, u / 2, u - u / 2)
    }
}

/// The arithmetic of `solve` stays within `i64`.
pub open spec fn solve_fits(w: int, l: int, r: int, rest: int, cbw: int) -> bool {
    &&& r64(w + l)
    &&& r64(w + l + r)
    &&& r64(w + l + r + rest)
    &&& r64(cbw - (w + l + r + rest))
    &&& r64(r + (cbw - (w + l + r + rest)))
}

/// Resolve width and horizontal margins, as `solve` states.
pub fn solve_width(
    w_auto: bool,
    w: i64,
    l_auto: bool,
    l: i64,
    r_auto: bool,
    r: i64,
    rest: i64,
    cbw: i64,
) -> (res: (i64, i64, i64))
    requires
        solve_fits(w as int, l as int, r as int, rest as int, cbw as int),
    ensures
        (res.0 as int, res.1 as int, res.2 as int) == solve(w_auto, w as int, l_auto, l as int, r_auto, r as int, rest as int, cbw as int),
{
    let total = w + l + r + rest;
    let over = !w_auto && total > cbw;
    let la = l_auto && !over;
    let ra = r_auto && !over;
    let u = cbw - total;
    if w_auto {
        if u >= 0 { (u, l, r) } else { (0, l, r + u) }
    } else if !la && !ra {
        (w, l, r + u)
    } else if !la && ra {
        (w, l, u)
    } else if la && !ra {
        (w, u, r)
    } else {
        (w, u / 2, u - u / 2)
    }
}

/// The declared value of `name` on the box's node; anonymous boxes have none.
pub open spec fn prop<'a>(b: LayoutBox<'a>, name: Seq<char>) -> Option<Value> {
    match node_of(b.box_type) {
        Some(s) => s.specified_values.get(name),
        None => None,
    }
}

/// `name`, or else the shorthand `fallback`.
pub open spec fn edge<'a>(b: LayoutBox<'a>, name: Seq<char>, fallback: Seq<char>) -> Option<Value> {
    match prop(b, name) {
        Some(v) => Some(v),
        None => prop(b, fallback),
    }
}

/// Pixel value of an edge property, zero when unset.
pub open spec fn edge_px<'a>(b: LayoutBox<'a>, name: Seq<char>, fallback: Seq<char>) -> int {
    match edge(b, name, fallback) {
        Some(v) => v.px(),
        None => 0,
    }
}

pub open spec fn edge_auto<'a>(b: LayoutBox<'a>, name: Seq<char>, fallback: Seq<char>) -> bool {
    match edge(b, name, fallback) {
        Some(v) => v.is_auto(),
        None => false,
    }
}

/// `width` is `auto`, or unset.
pub open spec fn width_auto<'a>(b: LayoutBox<'a>) -> bool {
    match prop(b, "width"@) {
        Some(v) => v.is_auto(),
        None => true,
    }
}

pub open spec fn width_px<'a>(b: LayoutBox<'a>) -> int {
    match prop(b, "width"@) {
        Some(v) => v.px(),
        None => 0,
    }
}

pub open spec fn ml<'a>(b: LayoutBox<'a>) -> int { edge_px(b, "margin-left"@, "margin"@) }
pub open spec fn mr<'a>(b: LayoutBox<'a>) -> int { edge_px(b, "margin-right"@, "margin"@) }
pub open spec fn mt<'a>(b: LayoutBox<'a>) -> int { edge_px(b, "margin-top"@, "margin"@) }
pub open spec fn mb<'a>(b: LayoutBox<'a>) -> int { edge_px(b, "margin-bottom"@, "margin"@) }
pub open spec fn bl<'a>(b: LayoutBox<'a>) -> int { edge_px(b, "border-left-width"@, "border-width"@) }
pub open spec fn br<'a>(b: LayoutBox<'a>) -> int { edge_px(b, "border-right-width"@, "border-width"@) }
pub open spec fn bt<'a>(b: LayoutBox<'a>) -> int { edge_px(b, "border-top-width"@, "border-width"@) }
pub open spec fn bb<'a>(b: LayoutBox<'a>) -> int { edge_px(b, "border-bottom-width"@, "border-width"@) }
pub open spec fn pl<'a>(b: LayoutBox<'a>) -> int { edge_px(b, "padding-left"@, "padding"@) }
pub open spec fn pr<'a>(b: LayoutBox<'a>) -> int { edge_px(b, "padding-right"@, "padding"@) }
pub open spec fn pt<'a>(b: LayoutBox<'a>) -> int { edge_px(b, "padding-top"@, "padding"@) }
pub open spec fn pb<'a>(b: LayoutBox<'a>) -> int { edge_px(b, "padding-bottom"@, "padding"@) }

/// The resolved (width, margin-left, margin-right) of block `b`.
pub open spec fn widths<'a>(b: LayoutBox<'a>, cbw: int) -> (int, int, int) {
    solve(
        width_auto(b),
        width_px(b),
        edge_auto(b, "margin-left"@, "margin"@),
        ml(b),
        edge_auto(b, "margin-right"@, "margin"@),
        mr(b),
        bl(b) + br(b) + pl(b) + pr(b),
        cbw,
    )
}

/// The explicit height of `b`, if `height` is a length.
pub open spec fn explicit_height<'a>(b: LayoutBox<'a>) -> Option<int> {
    match prop(b, "height"@) {
        Some(Value::Length(h, _)) => Some(h as int),
        _ => None,
    }
}

/// Height of the margin box of `d`.
pub open spec fn mbox_h(d: Dimensions) -> int {
    d.margin.top + d.border.top + d.padding.top + d.content.height + d.padding.bottom
        + d.border.bottom + d.margin.bottom
}

/// Every partial sum of `mbox_h(d)` fits in an `i64`.
pub open spec fn mbox_fits(d: Dimensions) -> bool {
    &&& r64(d.margin.top + d.border.top)
    &&& r64(d.margin.top + d.border.top + d.padding.top)
    &&& r64(d.margin.top + d.border.top + d.padding.top + d.content.height)
    &&& r64(d.margin.top + d.border.top + d.padding.top + d.content.height + d.padding.bottom)
    &&& r64(d.margin.top + d.border.top + d.padding.top + d.content.height + d.padding.bottom + d.border.bottom)
    &&& r64(mbox_h(d))
}

/// Margin-box height of `b` once laid out: a block's explicit height or the
/// sum of its children's, plus its vertical edges; other boxes keep theirs.
pub open spec fn mheight<'a>(b: LayoutBox<'a>) -> int
    decreases b, b.children@.len() + 2,
{
    if b.box_type is BlockNode {
        mt(b) + bt(b) + pt(b) + content_height(b) + pb(b) + bb(b) + mb(b)
    } else {
        mbox_h(b.dimensions)
    }
}

/// Content height of block `b` once laid out.
pub open spec fn content_height<'a>(b: LayoutBox<'a>) -> int
    decreases b, b.children@.len() + 1,
{
    match explicit_height(b) {
        Some(h) => h,
        None => stacked(b, b.children@.len() as int),
    }
}

/// Sum of the margin-box heights of the first `k` children of `b`.
pub open spec fn stacked<'a>(b: LayoutBox<'a>, k: int) -> int
    decreases b, k,
{
    if k <= 0 || k > b.children@.len() {
        0
    } else {
        stacked(b, k - 1) + mheight(b.children@[k - 1])
    }
}

/// The dimensions that block `b` gets in containing block `cb`.
pub open spec fn block_dims<'a>(b: LayoutBox<'a>, cb: Dimensions) -> Dimensions {
    let (w, l, r) = widths(b, cb.content.width as int);
    Dimensions {
        content: Rct {
            x: (cb.content.x + l + bl(b) + pl(b)) as i64,
            y: (cb.content.y + cb.content.height + mt(b) + bt(b) + pt(b)) as i64,
            width: w as i64,
            height: content_height(b) as i64,
        },
        padding: EdgeSizes { left: pl(b) as i64, right: pr(b) as i64, top: pt(b) as i64, bottom: pb(b) as i64 },
        border: EdgeSizes { left: bl(b) as i64, right: br(b) as i64, top: bt(b) as i64, bottom: bb(b) as i64 },
        margin: EdgeSizes { left: l as i64, right: r as i64, top: mt(b) as i64, bottom: mb(b) as i64 },
    }
}

/// The containing block of child `j` of block `b`: the box's own dimensions,
/// its content height being what the earlier children take up.
pub open spec fn child_cb<'a>(b: LayoutBox<'a>, cb: Dimensions, j: int) -> Dimensions {
    let d = block_dims(b, cb);
    Dimensions { content: Rct { height: stacked(b, j) as i64, ..d.content }, ..d }
}

/// The dimensions of `b` after layout in `cb`.
pub open spec fn laid_dims<'a>(b: LayoutBox<'a>, cb: Dimensions) -> Dimensions {
    if b.box_type is BlockNode { block_dims(b, cb) } else { b.dimensions }
}

/// All arithmetic of laying out `b` in `cb` stays within `i64`.
pub open spec fn fits<'a>(b: LayoutBox<'a>, cb: Dimensions) -> bool
    decreases b,
{
    b.box_type is BlockNode ==> {
        let (w, l, r) = widths(b, cb.content.width as int);
        &&& r64(bl(b) + br(b))
        &&& r64(bl(b) + br(b) + pl(b))
        &&& r64(bl(b) + br(b) + pl(b) + pr(b))
        &&& solve_fits(width_px(b), ml(b), mr(b), bl(b) + br(b) + pl(b) + pr(b), cb.content.width as int)
        &&& r64(cb.content.x + l)
        &&& r64(cb.content.x + l + bl(b))
        &&& r64(cb.content.x + l + bl(b) + pl(b))
        &&& r64(cb.content.y + cb.content.height)
        &&& r64(cb.content.y + cb.content.height + mt(b))
        &&& r64(cb.content.y + cb.content.height + mt(b) + bt(b))
        &&& r64(cb.content.y + cb.content.height + mt(b) + bt(b) + pt(b))
        &&& forall|j: int| 0 <= j <= b.children@.len() ==> r64(#[trigger] stacked(b, j))
        &&& forall|j: int|
            0 <= j < b.children@.len() ==> fits(#[trigger] b.children@[j], child_cb(b, cb, j))
                && mbox_fits(laid_dims(b.children@[j], child_cb(b, cb, j)))
    }
}

/// `new` is `old` laid out in containing block `cb`: a block box gets
/// `block_dims` and lays out its children one below the other; inline and
/// anonymous boxes are left as they are.
pub open spec fn laid_out<'a>(old: LayoutBox<'a>, new: LayoutBox<'a>, cb: Dimensions) -> bool
    decreases old,
{
    if old.box_type is BlockNode {
        &&& new.box_type == old.box_type
        &&& new.dimensions == block_dims(old, cb)
        &&& new.children@.len() == old.children@.len()
        &&& forall|j: int|
            0 <= j < old.children@.len() ==> laid_out(#[trigger] old.children@[j], new.children@[j], child_cb(old, cb, j))
    } else {
        new == old
    }
}

/// The styled node of a box, if any, has a well-formed property map.
pub open spec fn node_wf<'a>(b: LayoutBox<'a>) -> bool {
    node_of(b.box_type) matches Some(s) ==> s.specified_values.wf()
}

impl<'a> LayoutBox<'a> {
    /// The declared value of `name` on this box's node.
    pub fn prop_val(&self, name: &str) -> (r: Option<Value>)
        requires
            node_wf(*self),
        ensures
            r == prop(*self, name@),
    {
        match self.box_type {
            BoxType::BlockNode(s) => s.val(name),
            BoxType::InlineNode(s) => s.val(name),
            BoxType::AnonymousBlock => None,
        }
    }

    /// `name`, or else the shorthand `fallback`.
    pub fn lookup(&self, name: &str, fallback: &str) -> (r: Option<Value>)
        requires
            node_wf(*self),
        ensures
            r == edge(*self, name@, fallback@),
    {
        match self.prop_val(name) {
            Some(v) => Some(v),
            None => self.prop_val(fallback),
        }
    }

    pub fn lookup_px(&self, name: &str, fallback: &str) -> (r: i64)
        requires
            node_wf(*self),
        ensures
            r as int == edge_px(*self, name@, fallback@),
    {
        match self.lookup(name, fallback) {
            Some(v) => v.to_px(),
            None => 0,
        }
    }

    pub fn lookup_auto(&self, name: &str, fallback: &str) -> (r: bool)
        requires
            node_wf(*self),
        ensures
            r == edge_auto(*self, name@, fallback@),
    {
        match self.lookup(name, fallback) {
            Some(v) => v.auto(),
            None => false,
        }
    }

    /// Resolve (width, margin-left, margin-right) in a containing block
    /// `cbw` px wide.
    pub fn calc_width(&self, cbw: i64) -> (r: (i64, i64, i64))
        requires
            node_wf(*self),
            r64(bl(*self) + br(*self)),
            r64(bl(*self) + br(*self) + pl(*self)),
            r64(bl(*self) + br(*self) + pl(*self) + pr(*self)),
            solve_fits(width_px(*self), ml(*self), mr(*self), bl(*self) + br(*self) + pl(*self) + pr(*self), cbw as int),
        ensures
            (r.0 as int, r.1 as int, r.2 as int) == widths(*self, cbw as int),
    {
        let wv = self.prop_val("width");
        let w_auto = match &wv {
            Some(v) => v.auto(),
            None => true,
        };
        let w_px = match &wv {
            Some(v) => v.to_px(),
            None => 0,
        };
        let l_auto = self.lookup_auto("margin-left", "margin");
        let l = self.lookup_px("margin-left", "margin");
        let r_auto = self.lookup_auto("margin-right", "margin");
        let r = self.lookup_px("margin-right", "margin");
        let bl = self.lookup_px("border-left-width", "border-width");
        let br = self.lookup_px("border-right-width", "border-width");
        let pl = self.lookup_px("padding-left", "padding");
        let pr = self.lookup_px("padding-right", "padding");
        let rest = bl + br + pl + pr;
        solve_width(w_auto, w_px, l_auto, l, r_auto, r, rest, cbw)
    }
}

impl Dimensions {
    /// Height of the margin box.
    pub fn margin_box_height(&self) -> (r: i64)
        requires
            mbox_fits(*self),
        ensures
            r as int == mbox_h(*self),
    {
        self.margin.top + self.border.top + self.padding.top + self.content.height + self.padding.bottom
            + self.border.bottom + self.margin.bottom
    }
}

proof fn lemma_laid_height<'a>(old: LayoutBox<'a>, new: LayoutBox<'a>, cb: Dimensions)
    requires
        laid_out(old, new, cb),
        fits(old, cb),
    ensures
        new.dimensions == laid_dims(old, cb),
        mbox_h(new.dimensions) == mheight(old),
{
    if old.box_type is BlockNode {
        assert(r64(stacked(old, old.children@.len() as int)));
        let d = new.dimensions;
        assert(d.content.height as int == content_height(old));
    }
}

/// Lay out `b` in containing block `cb` and hand it back.
fn layout_owned<'a>(b: LayoutBox<'a>, cb: Dimensions) -> (r: LayoutBox<'a>)
    requires
        fits(b, cb),
        box_wf(b),
    ensures
        laid_out(b, r, cb),
        box_wf(r),
    decreases b,
{
    let is_block = match b.box_type {
        BoxType::BlockNode(_) => true,
        _ => false,
    };
    if !is_block {
        return b;
    }
    let ghost orig = b;
    let mut bx = b;
    let (w, l, r) = bx.calc_width(cb.content.width);
    let bl = bx.lookup_px("border-left-width", "border-width");
    let br = bx.lookup_px("border-right-width", "border-width");
    let bt = bx.lookup_px("border-top-width", "border-width");
    let bb = bx.lookup_px("border-bottom-width", "border-width");
    let pl = bx.lookup_px("padding-left", "padding");
    let pr = bx.lookup_px("padding-right", "padding");
    let pt = bx.lookup_px("padding-top", "padding");
    let pb = bx.lookup_px("padding-bottom", "padding");
    let mt = bx.lookup_px("margin-top", "margin");
    let mb = bx.lookup_px("margin-bottom", "margin");
    let x = cb.content.x + l + bl + pl;
    let y = cb.content.y + cb.content.height + mt + bt + pt;
    let mut dims = Dimensions {
        content: Rct { x, y, width: w, height: 0 },
        padding: EdgeSizes { left: pl, right: pr, top: pt, bottom: pb },
        border: EdgeSizes { left: bl, right: br, top: bt, bottom: bb },
        margin: EdgeSizes { left: l, right: r, top: mt, bottom: mb },
    };
    let height_val = bx.prop_val("height");
    let mut old_kids: Vec<LayoutBox<'a>> = Vec::new();
    std::mem::swap(&mut old_kids, &mut bx.children);
    let n = old_kids.len();
    let mut new_kids: Vec<LayoutBox<'a>> = Vec::new();
    let mut acc: i64 = 0;
    let mut i: usize = 0;
    while i < n
        invariant
            n == orig.children@.len(),
            orig == b,
            i <= n,
            old_kids@ == orig.children@.subrange(i as int, n as int),
            new_kids@.len() == i,
            acc as int == stacked(orig, i as int),
            fits(orig, cb),
            box_wf(orig),
            orig.box_type is BlockNode,
            dims.content.x == block_dims(orig, cb).content.x,
            dims.content.y == block_dims(orig, cb).content.y,
            dims.content.width == block_dims(orig, cb).content.width,
            dims.padding == block_dims(orig, cb).padding,
            dims.border == block_dims(orig, cb).border,
            dims.margin == block_dims(orig, cb).margin,
            forall|j: int|
                0 <= j < i ==> laid_out(#[trigger] orig.children@[j], new_kids@[j], child_cb(orig, cb, j)),
            forall|j: int| 0 <= j < i ==> box_wf(#[trigger] new_kids@[j]),
        decreases n - i,
    {
        let c = old_kids.remove(0);
        assert(c == orig.children@[i as int]);
        proof {
            vstd::std_specs::vec::axiom_vec_index_decreases(orig.children, i as int);
            assert(decreases_to!(orig => orig.children));
            assert(decreases_to!(orig => c));
        }
        let cbi = Dimensions { content: Rct { height: acc, ..dims.content }, ..dims };
        assert(cbi == child_cb(orig, cb, i as int));
        assert(fits(c, cbi) && mbox_fits(laid_dims(c, cbi)));
        assert(r64(stacked(orig, i + 1)));
        let c2 = layout_owned(c, cbi);
        proof { lemma_laid_height(c, c2, cbi); }
        acc = acc + c2.dimensions.margin_box_height();
        new_kids.push(c2);
        assert(old_kids@ =~= orig.children@.subrange(i + 1, n as int));
        i = i + 1;
    }
    let h = match height_val {
        Some(Value::Length(h, _)) => h,
        _ => acc,
    };
    assert(r64(stacked(orig, n as int)));
    dims.content.height = h;
    let r = LayoutBox { box_type: bx.box_type, dimensions: dims, children: new_kids };
    assert(box_wf(r));
    r
}

impl<'a> LayoutBox<'a> {
    /// Lay out this box and its descendants in the containing block
    /// `cntin_blck`. Block boxes get their width, position and height;
    /// inline and anonymous boxes are left as they are.
    pub fn layout(&mut self, cntin_blck: Dimensions)
        requires
            fits(*old(self), cntin_blck),
            box_wf(*old(self)),
        ensures
            laid_out(*old(self), *final(self), cntin_blck),
            box_wf(*final(self)),
    {
        let mut b = LayoutBox::new(BoxType::AnonymousBlock);
        std::mem::swap(&mut b, self);
        *self = layout_owned(b, cntin_blck);
    }
}

/// A laid-out block without an explicit height is exactly as tall as the
/// margin boxes of its children, one below the other; and each child sits
/// below the ones before it.
pub proof fn lemma_auto_height_stacks<'a>(old: LayoutBox<'a>, new: LayoutBox<'a>, cb: Dimensions)
    requires
        old.box_type is BlockNode,
        explicit_height(old) is None,
        fits(old, cb),
        laid_out(old, new, cb),
    ensures
        new.dimensions.content.height as int == stacked(old, old.children@.len() as int),
        forall|j: int|
            0 <= j < new.children@.len() ==> mbox_h(#[trigger] new.children@[j].dimensions) == mheight(old.children@[j]),
        forall|j: int|
            0 <= j < new.children@.len() ==> (#[trigger] child_cb(old, cb, j)).content.height as int == stacked(old, j),
{
    assert(r64(stacked(old, old.children@.len() as int)));
    assert forall|j: int| 0 <= j < new.children@.len() implies mbox_h(#[trigger] new.children@[j].dimensions) == mheight(old.children@[j]) by {
        lemma_laid_height(old.children@[j], new.children@[j], child_cb(old, cb, j));
    }
    assert forall|j: int| 0 <= j < new.children@.len() implies (#[trigger] child_cb(old, cb, j)).content.height as int == stacked(old, j) by {
        assert(r64(stacked(old, j)));
    }
}

} // verus!
