use vstd::prelude::*;
use crate::css::Value;
use crate::style::{styled_wf, PropertyMap, StyledNode};

verus! {

/// How a node takes part in the box tree.
#[derive(Clone, Copy, PartialEq, Eq, Structural, Debug)]
pub enum Display {
    Inline,
    Block,
    Hidden,
}

/// The display given by the `display` property, or `default` when unset.
pub open spec fn display_of(m: PropertyMap, default: Display) -> Display {
    match m.get("display"@) {
        Some(v) => if v.is_keyword("block"@) {
            Display::Block
        } else if v.is_keyword("none"@) {
            Display::Hidden
        } else {
            Display::Inline
        },
        None => default,
    }
}

impl<'a> StyledNode<'a> {
    /// The value of property `name`, if any.
    pub fn val(&self, name: &str) -> (r: Option<Value>)
        requires
            self.specified_values.wf(),
        ensures
            r == self.specified_values.get(name@),
    {
        self.specified_values.val(name)
    }

    /// The display of the node, `default` when it sets none.
    pub fn display_or(&self, default: Display) -> (r: Display)
        requires
            self.specified_values.wf(),
        ensures
            r == display_of(self.specified_values, default),
    {
        proof {
            reveal_strlit("display");
            reveal_strlit("block");
            reveal_strlit("none");
        }
        match self.val("display") {
            Some(v) => if v.keyword_is("block") {
                Display::Block
            } else if v.keyword_is("none") {
                Display::Hidden
            } else {
                Display::Inline
            },
            None => default,
        }
    }

    /// The display of the node; unset means inline.
    pub fn display(&self) -> (r: Display)
        requires
            self.specified_values.wf(),
        ensures
            r == display_of(self.specified_values, Display::Inline),
    {
        self.display_or(Display::Inline)
    }
}

/// A rectangle: position of the top-left corner, and size, in px.
#[derive(Clone, Copy, PartialEq, Eq, Structural, Debug)]
pub struct Rct {
    pub x: i64,
    pub y: i64,
    pub width: i64,
    pub height: i64,
}

/// Sizes of the four sides of an edge.
#[derive(Clone, Copy, PartialEq, Eq, Structural, Debug)]
pub struct EdgeSizes {
    pub left: i64,
    pub right: i64,
    pub top: i64,
    pub bottom: i64,
}

/// The box model of one box, in px.
#[derive(Clone, Copy, PartialEq, Eq, Structural, Debug)]
pub struct Dimensions {
    pub content: Rct,
    pub padding: EdgeSizes,
    pub border: EdgeSizes,
    pub margin: EdgeSizes,
}

pub open spec fn zero_dims() -> Dimensions {
    let z = EdgeSizes { left: 0, right: 0, top: 0, bottom: 0 };
    Dimensions { content: Rct { x: 0, y: 0, width: 0, height: 0 }, padding: z, border: z, margin: z }
}

impl Dimensions {
    /// All sizes zero.
    pub fn zero() -> (r: Dimensions)
        ensures
            r == zero_dims(),
    {
        let z = EdgeSizes { left: 0, right: 0, top: 0, bottom: 0 };
        Dimensions { content: Rct { x: 0, y: 0, width: 0, height: 0 }, padding: z, border: z, margin: z }
    }
}

/// A block box, an inline box, or an anonymous block that groups inline boxes.
pub enum BoxType<'a> {
    BlockNode(&'a StyledNode<'a>),
    InlineNode(&'a StyledNode<'a>),
    AnonymousBlock,
}

/// A node of the layout tree.
pub struct LayoutBox<'a> {
    pub box_type: BoxType<'a>,
    pub dimensions: Dimensions,
    pub children: Vec<LayoutBox<'a>>,
}

/// Every box that stands for a styled node has a well-formed property map.
pub open spec fn box_wf<'a>(b: LayoutBox<'a>) -> bool
    decreases b,
{
    &&& (node_of(b.box_type) matches Some(s) ==> s.specified_values.wf())
    &&& forall|i: int| 0 <= i < b.children@.len() ==> box_wf(#[trigger] b.children@[i])
}

/// Why no layout tree could be built.
#[derive(Clone, Copy, PartialEq, Eq, Structural, Debug)]
pub enum LayoutError {
    RootDisplayNone,
}

impl<'a> LayoutBox<'a> {
    pub fn new(box_type: BoxType<'a>) -> (r: LayoutBox<'a>)
        ensures
            r.box_type == box_type,
            r.dimensions == zero_dims(),
            r.children@.len() == 0,
    {
        LayoutBox { box_type, dimensions: Dimensions::zero(), children: Vec::new() }
    }

    pub fn is_anonymous(&self) -> (r: bool)
        ensures
            r == (self.box_type is AnonymousBlock),
    {
        match self.box_type {
            BoxType::AnonymousBlock => true,
            _ => false,
        }
    }
}

/// A styled node that gets a box.
pub open spec fn survives(s: StyledNode) -> bool {
    display_of(s.specified_values, Display::Inline) != Display::Hidden
}

/// How many of `cs` get a box.
pub open spec fn count_survivors(cs: Seq<StyledNode>) -> nat
    decreases cs.len(),
{
    if cs.len() == 0 {
        0
    } else {
        count_survivors(cs.drop_last()) + if survives(cs.last()) { 1nat } else { 0nat }
    }
}

/// Some shown child among the first `n` of `cs` has its box at `k`.
pub open spec fn ranked(cs: Seq<StyledNode>, n: int, k: int) -> bool {
    exists|i: int| 0 <= i < n && survives(cs[i]) && #[trigger] rank(cs, i) == k
}

/// The position, among the boxes of the children, of the box of child `i`.
pub open spec fn rank(cs: Seq<StyledNode>, i: int) -> nat {
    count_survivors(cs.subrange(0, i))
}

/// The boxes in `bs`, with each anonymous block replaced by its children.
#[verifier::opaque]
pub open spec fn flat<'a>(bs: Seq<LayoutBox<'a>>) -> Seq<LayoutBox<'a>>
    decreases bs.len(),
{
    if bs.len() == 0 {
        Seq::empty()
    } else {
        flat(bs.drop_last()) + if bs.last().box_type is AnonymousBlock {
            bs.last().children@
        } else {
            seq![bs.last()]
        }
    }
}

/// The children of a block box: block boxes, and anonymous blocks that each
/// hold a nonempty run of inline boxes, no two anonymous blocks adjacent.
pub open spec fn block_shape<'a>(bs: Seq<LayoutBox<'a>>) -> bool {
    &&& forall|i: int| 0 <= i < bs.len() ==> !((#[trigger] bs[i]).box_type is InlineNode)
    &&& forall|i: int|
        0 <= i < bs.len() && (#[trigger] bs[i]).box_type is AnonymousBlock ==> {
            &&& bs[i].children@.len() > 0
            &&& bs[i].dimensions == zero_dims()
            &&& forall|k: int| 0 <= k < bs[i].children@.len() ==> (#[trigger] bs[i].children@[k]).box_type is InlineNode
        }
    &&& forall|i: int|
        0 <= i < bs.len() - 1 ==> !((#[trigger] bs[i]).box_type is AnonymousBlock && bs[i
            + 1].box_type is AnonymousBlock)
}

/// The boxes that stand for the children of a box of display `d`.
pub open spec fn kids<'a>(b: LayoutBox<'a>, d: Display) -> Seq<LayoutBox<'a>> {
    if d == Display::Block {
        flat(b.children@)
    } else {
        b.children@
    }
}

/// The box kind that node `s` gets with display `d`.
pub open spec fn stands_for<'a>(t: BoxType<'a>, s: StyledNode<'a>, d: Display) -> bool {
    match t {
        BoxType::BlockNode(r) => d == Display::Block && *r == s,
        BoxType::InlineNode(r) => d == Display::Inline && *r == s,
        BoxType::AnonymousBlock => false,
    }
}

/// `b` is the box tree built for `s` shown with display `d`.
#[verifier::opaque]
pub open spec fn builds<'a>(b: LayoutBox<'a>, s: StyledNode<'a>, d: Display) -> bool
    decreases s,
{
    &&& stands_for(b.box_type, s, d)
    &&& b.dimensions == zero_dims()
    &&& (d == Display::Block ==> block_shape(b.children@))
    &&& kids(b, d).len() == count_survivors(s.children@)
    &&& forall|k: int| 0 <= k < kids(b, d).len() ==> #[trigger] ranked(s.children@, s.children@.len() as int, k)
    &&& forall|i: int|
        0 <= i < s.children@.len() && survives(#[trigger] s.children@[i]) ==> builds(
            kids(b, d)[rank(s.children@, i) as int],
            s.children@[i],
            display_of(s.children@[i].specified_values, Display::Inline),
        )
}

proof fn lemma_flat_push<'a>(bs: Seq<LayoutBox<'a>>, x: LayoutBox<'a>)
    requires
        !(x.box_type is AnonymousBlock),
    ensures
        flat(bs.push(x)) == flat(bs).push(x),
{
    reveal_with_fuel(flat, 2);
    assert(bs.push(x).drop_last() =~= bs);
    assert(flat(bs) + seq![x] =~= flat(bs).push(x));
}

proof fn lemma_flat_extend<'a>(bs: Seq<LayoutBox<'a>>, a: LayoutBox<'a>, x: LayoutBox<'a>)
    requires
        bs.len() > 0,
        bs.last().box_type is AnonymousBlock,
        a.box_type is AnonymousBlock,
        a.children@ == bs.last().children@.push(x),
    ensures
        flat(bs.drop_last().push(a)) == flat(bs).push(x),
{
    reveal_with_fuel(flat, 2);
    assert(bs.drop_last().push(a).drop_last() =~= bs.drop_last());
    assert(flat(bs.drop_last()) + a.children@ =~= (flat(bs.drop_last()) + bs.last().children@).push(x));
}

proof fn lemma_flat_new_group<'a>(bs: Seq<LayoutBox<'a>>, a: LayoutBox<'a>, x: LayoutBox<'a>)
    requires
        a.box_type is AnonymousBlock,
        a.children@ == seq![x],
    ensures
        flat(bs.push(a)) == flat(bs).push(x),
{
    reveal_with_fuel(flat, 2);
    assert(bs.push(a).drop_last() =~= bs);
    assert(flat(bs) + seq![x] =~= flat(bs).push(x));
}

proof fn lemma_rank_lt(cs: Seq<StyledNode>, j: int, i: int)
    requires
        0 <= j < i <= cs.len(),
        survives(cs[j]),
    ensures
        rank(cs, j) < count_survivors(cs.subrange(0, i)),
    decreases i - j,
{
    assert(cs.subrange(0, i).drop_last() =~= cs.subrange(0, i - 1));
    if i - 1 > j {
        lemma_rank_lt(cs, j, i - 1);
    } else {
        assert(cs.subrange(0, i).last() == cs[j]);
    }
}

proof fn lemma_shape_push<'a>(bs: Seq<LayoutBox<'a>>, x: LayoutBox<'a>)
    requires
        block_shape(bs),
        x.box_type is BlockNode,
    ensures
        block_shape(bs.push(x)),
{
    reveal(block_shape);
    let r = bs.push(x);
    assert forall|i: int| 0 <= i < r.len() - 1 implies !((#[trigger] r[i]).box_type is AnonymousBlock
        && r[i + 1].box_type is AnonymousBlock) by {
        if i < bs.len() - 1 {
            assert(r[i] == bs[i] && r[i + 1] == bs[i + 1]);
        }
    }
}

proof fn lemma_shape_extend<'a>(bs: Seq<LayoutBox<'a>>, a: LayoutBox<'a>, x: LayoutBox<'a>)
    requires
        block_shape(bs),
        bs.len() > 0,
        bs.last().box_type is AnonymousBlock,
        a.box_type is AnonymousBlock,
        a.dimensions == zero_dims(),
        a.children@ == bs.last().children@.push(x),
        x.box_type is InlineNode,
    ensures
        block_shape(bs.drop_last().push(a)),
{
    reveal(block_shape);
    let r = bs.drop_last().push(a);
    let l = bs.len() - 1;
    assert(bs[l].box_type is AnonymousBlock);
    assert forall|i: int|
        0 <= i < r.len() && (#[trigger] r[i]).box_type is AnonymousBlock implies {
            &&& r[i].children@.len() > 0
            &&& r[i].dimensions == zero_dims()
            &&& forall|k: int| 0 <= k < r[i].children@.len() ==> (#[trigger] r[i].children@[k]).box_type is InlineNode
        } by {
        if i < l {
            assert(r[i] == bs[i]);
        } else {
            assert forall|k: int| 0 <= k < r[i].children@.len() implies (#[trigger] r[i].children@[k]).box_type is InlineNode by {
                if k < bs[l].children@.len() {
                    assert(r[i].children@[k] == bs[l].children@[k]);
                }
            }
        }
    }
    assert forall|i: int| 0 <= i < r.len() - 1 implies !((#[trigger] r[i]).box_type is AnonymousBlock
        && r[i + 1].box_type is AnonymousBlock) by {
        assert(r[i] == bs[i]);
        assert(bs[i + 1].box_type is AnonymousBlock ==> r[i + 1].box_type is AnonymousBlock);
    }
    assert forall|i: int| 0 <= i < r.len() implies !((#[trigger] r[i]).box_type is InlineNode) by {
        if i < l {
            assert(r[i] == bs[i]);
        }
    }
}

proof fn lemma_shape_new_group<'a>(bs: Seq<LayoutBox<'a>>, a: LayoutBox<'a>, x: LayoutBox<'a>)
    requires
        block_shape(bs),
        bs.len() > 0 ==> !(bs.last().box_type is AnonymousBlock),
        a.box_type is AnonymousBlock,
        a.dimensions == zero_dims(),
        a.children@ == seq![x],
        x.box_type is InlineNode,
    ensures
        block_shape(bs.push(a)),
{
    reveal(block_shape);
    let r = bs.push(a);
    assert forall|i: int|
        0 <= i < r.len() && (#[trigger] r[i]).box_type is AnonymousBlock implies {
            &&& r[i].children@.len() > 0
            &&& r[i].dimensions == zero_dims()
            &&& forall|k: int| 0 <= k < r[i].children@.len() ==> (#[trigger] r[i].children@[k]).box_type is InlineNode
        } by {
        if i < bs.len() {
            assert(r[i] == bs[i]);
        }
    }
    assert forall|i: int| 0 <= i < r.len() - 1 implies !((#[trigger] r[i]).box_type is AnonymousBlock
        && r[i + 1].box_type is AnonymousBlock) by {
        assert(r[i] == bs[i]);
        if i < bs.len() - 1 {
            assert(r[i + 1] == bs[i + 1]);
        }
    }
}

/// Build the box of `s`, shown with display `d`, and the boxes below it.
#[verifier::rlimit(60)]
fn build_box<'a>(s: &'a StyledNode<'a>, d: Display) -> (b: LayoutBox<'a>)
    requires
        d != Display::Hidden,
        styled_wf(*s),
    ensures
        builds(b, *s, d),
        stands_for(b.box_type, *s, d),
        b.dimensions == zero_dims(),
        box_wf(b),
    decreases s,
{
    let mut root = LayoutBox::new(
        if d == Display::Block {
            BoxType::BlockNode(s)
        } else {
            BoxType::InlineNode(s)
        },
    );
    let ghost cs = s.children@;
    assert(flat(root.children@).len() == 0) by {
        reveal_with_fuel(flat, 1);
    }
    assert(block_shape(root.children@)) by {
        reveal(block_shape);
    }
    let n = s.children.len();
    let mut i: usize = 0;
    while i < n
        invariant
            cs == s.children@,
            n == cs.len(),
            i <= n,
            d != Display::Hidden,
            styled_wf(*s),
            stands_for(root.box_type, *s, d),
            root.dimensions == zero_dims(),
            forall|t: int| 0 <= t < root.children@.len() ==> box_wf(#[trigger] root.children@[t]),
            d == Display::Block ==> block_shape(root.children@),
            kids(root, d).len() == count_survivors(cs.subrange(0, i as int)),
            forall|k: int| 0 <= k < kids(root, d).len() ==> #[trigger] ranked(cs, i as int, k),
            forall|j: int|
                0 <= j < i && survives(#[trigger] cs[j]) ==> builds(
                    kids(root, d)[rank(cs, j) as int],
                    cs[j],
                    display_of(cs[j].specified_values, Display::Inline),
                ),
        decreases n - i,
    {
        assert(cs.subrange(0, i + 1).drop_last() =~= cs.subrange(0, i as int));
        assert(cs.subrange(0, i + 1).last() == cs[i as int]);
        proof { vstd::std_specs::vec::axiom_vec_index_decreases(s.children, i as int); }
        let child = &s.children[i];
        assert(styled_wf(*child));
        let cd = child.display();
        if cd != Display::Hidden {
            let ghost old_kids = kids(root, d);
            let ghost old_children = root.children@;
            let cb = build_box(child, cd);
            if d == Display::Inline || cd == Display::Block {
                root.children.push(cb);
                proof {
                    if d == Display::Block {
                        lemma_flat_push(old_children, cb);
                        lemma_shape_push(old_children, cb);
                    }
                }
            } else {
                let k = root.children.len();
                if k > 0 && root.children[k - 1].is_anonymous() {
                    let mut a = root.children.pop().unwrap();
                    assert(box_wf(a));
                    a.children.push(cb);
                    assert(box_wf(a)) by {
                        assert forall|t: int| 0 <= t < a.children@.len() implies box_wf(#[trigger] a.children@[t]) by {
                            if t < a.children@.len() - 1 {
                                assert(a.children@[t] == old_children.last().children@[t]);
                            }
                        }
                    }
                    root.children.push(a);
                    proof {
                        lemma_flat_extend(old_children, a, cb);
                        lemma_shape_extend(old_children, a, cb);
                    }
                } else {
                    let mut a = LayoutBox::new(BoxType::AnonymousBlock);
                    a.children.push(cb);
                    assert(a.children@ =~= seq![cb]);
                    assert(box_wf(a));
                    root.children.push(a);
                    proof {
                        lemma_flat_new_group(old_children, a, cb);
                        lemma_shape_new_group(old_children, a, cb);
                    }
                }
            }
            assert(kids(root, d) == old_kids.push(cb));
            assert(rank(cs, i as int) == old_kids.len());
            assert forall|k: int| 0 <= k < kids(root, d).len() implies #[trigger] ranked(cs, i + 1, k) by {
                if k == old_kids.len() {
                    assert(rank(cs, i as int) == k);
                } else {
                    assert(ranked(cs, i as int, k));
                    let j = choose|j: int| 0 <= j < i && survives(cs[j]) && #[trigger] rank(cs, j) == k;
                    assert(rank(cs, j) == k);
                }
            }
            assert forall|j: int|
                0 <= j <= i && survives(#[trigger] cs[j]) implies builds(
                    kids(root, d)[rank(cs, j) as int],
                    cs[j],
                    display_of(cs[j].specified_values, Display::Inline),
                ) by {
                if j < i {
                    lemma_rank_lt(cs, j, i as int);
                    assert(kids(root, d)[rank(cs, j) as int] == old_kids[rank(cs, j) as int]);
                }
            }
        } else {
            assert forall|k: int| 0 <= k < kids(root, d).len() implies #[trigger] ranked(cs, i + 1, k) by {
                assert(ranked(cs, i as int, k));
                let j = choose|j: int| 0 <= j < i && survives(cs[j]) && #[trigger] rank(cs, j) == k;
                assert(0 <= j < i + 1 && survives(cs[j]) && rank(cs, j) == k);
            }
        }
        i = i + 1;
    }
    assert(cs.subrange(0, n as int) =~= cs);
    proof { reveal_with_fuel(builds, 1); }
    assert(box_wf(root));
    root
}

/// Build the tree of layout boxes for a style tree, without computing any
/// geometry. The root is a block unless its `display` says otherwise; a root
/// with `display: none` has no box at all, which is an error.
pub fn build_layout_tree<'a>(style_node: &'a StyledNode<'a>) -> (r: Result<LayoutBox<'a>, LayoutError>)
    requires
        styled_wf(*style_node),
    ensures
        r is Err <==> display_of(style_node.specified_values, Display::Block) == Display::Hidden,
        r is Err ==> r == Err::<LayoutBox<'a>, LayoutError>(LayoutError::RootDisplayNone),
        r matches Ok(b) ==> builds(b, *style_node, display_of(style_node.specified_values, Display::Block)),
        r matches Ok(b) ==> box_wf(b),
{
    let d = style_node.display_or(Display::Block);
    if d == Display::Hidden {
        Err(LayoutError::RootDisplayNone)
    } else {
        Ok(build_box(style_node, d))
    }
}

/// The styled node that a box stands for; none for an anonymous block.
pub open spec fn node_of<'a>(t: BoxType<'a>) -> Option<StyledNode<'a>> {
    match t {
        BoxType::BlockNode(r) => Some(*r),
        BoxType::InlineNode(r) => Some(*r),
        BoxType::AnonymousBlock => None,
    }
}

/// `x` stands for a child of `s` that is shown.
pub open spec fn shown_child_box<'a>(x: LayoutBox<'a>, s: StyledNode<'a>) -> bool {
    match node_of(x.box_type) {
        Some(c) => survives(c) && s.children@.contains(c),
        None => false,
    }
}

/// A child with `display: none` gets no box, nor does anything below it:
/// each box that stands for a child of `s` stands for a child that is shown,
/// and there are as many of them as shown children.
pub proof fn lemma_hidden_pruned<'a>(b: LayoutBox<'a>, s: StyledNode<'a>, d: Display)
    requires
        d != Display::Hidden,
        builds(b, s, d),
    ensures
        kids(b, d).len() == count_survivors(s.children@),
        forall|k: int|
            0 <= k < kids(b, d).len() ==> shown_child_box(#[trigger] kids(b, d)[k], s),
{
    reveal_with_fuel(builds, 2);
    assert forall|k: int|
        0 <= k < kids(b, d).len() implies shown_child_box(#[trigger] kids(b, d)[k], s) by {
        assert(ranked(s.children@, s.children@.len() as int, k));
        let i = choose|i: int| 0 <= i < s.children@.len() && survives(s.children@[i]) && #[trigger] rank(s.children@, i) == k;
        let c = s.children@[i];
        assert(builds(kids(b, d)[rank(s.children@, i) as int], c, display_of(c.specified_values, Display::Inline)));
        assert(node_of(kids(b, d)[k].box_type) == Some(c));
        assert(s.children@[i] == c);
    }
}

/// Inside a block box, inline content never sits beside block content: the
/// children are block boxes and anonymous blocks, each anonymous block holds a
/// nonempty run of inline boxes, no two anonymous blocks are adjacent (so a
/// run of consecutive inline children gets exactly one wrapper), and taking
/// the wrappers away leaves the boxes of the shown children in their order.
pub proof fn lemma_block_children_grouped<'a>(b: LayoutBox<'a>, s: StyledNode<'a>)
    requires
        builds(b, s, Display::Block),
    ensures
        block_shape(b.children@),
        flat(b.children@).len() == count_survivors(s.children@),
        forall|i: int|
            0 <= i < s.children@.len() && survives(#[trigger] s.children@[i]) ==> builds(
                flat(b.children@)[rank(s.children@, i) as int],
                s.children@[i],
                display_of(s.children@[i].specified_values, Display::Inline),
            ),
{
    reveal_with_fuel(builds, 1);
}

} // verus!
