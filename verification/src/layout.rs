//! Block layout: the box tree (block, inline and anonymous boxes), the box
//! model geometry (content, padding, border and margin rectangles), and the
//! block width/position/height solver.
//!
//! Pixel coordinates are whole `i64` pixels. Arithmetic saturates at the
//! extreme representable magnitudes — exact for any realistic page — so every
//! layout computation is total and panic-free.

use vstd::prelude::*;

use crate::css::Px;
use crate::css::Unit;
use crate::css::Value;
use crate::css::ValueV;
use crate::css::spec_to_px;
use crate::style::Display;
use crate::style::PropertyMap;
use crate::style::StyleNode;
use crate::style::StyleNodeV;
use crate::style::spec_display;
use crate::style::spec_lookup;
use crate::style::style_node_view;

verus! {

// --- saturating pixel arithmetic --------------------------------------------

/// Clamps a mathematical integer into the representable pixel range.
pub open spec fn sat64(x: int) -> Px {
    if x > i64::MAX as int {
        i64::MAX
    } else if x < i64::MIN as int {
        i64::MIN
    } else {
        x as i64
    }
}

/// Saturating pixel addition.
pub fn sat_add(a: Px, b: Px) -> (r: Px)
    ensures
        r == sat64(a + b),
{
    if b >= 0 {
        if a > i64::MAX - b {
            i64::MAX
        } else {
            a + b
        }
    } else {
        if a < i64::MIN - b {
            i64::MIN
        } else {
            a + b
        }
    }
}

/// Saturating pixel subtraction.
pub fn sat_sub(a: Px, b: Px) -> (r: Px)
    ensures
        r == sat64(a - b),
{
    if b <= 0 {
        if a > i64::MAX + b {
            i64::MAX
        } else {
            a - b
        }
    } else {
        if a < i64::MIN + b {
            i64::MIN
        } else {
            a - b
        }
    }
}

/// Half of a pixel count, rounded toward zero.
pub open spec fn spec_half(x: int) -> int {
    if x >= 0 {
        x / 2
    } else {
        0 - ((0 - x) / 2)
    }
}

/// Halves a pixel count, rounding toward zero.
pub fn half_px(x: Px) -> (r: Px)
    ensures
        r == spec_half(x as int),
{
    if x >= 0 {
        let h = (x as u64) / 2;
        h as i64
    } else if x == i64::MIN {
        -4611686018427387904
    } else {
        let h = ((-x) as u64) / 2;
        -(h as i64)
    }
}

// --- geometry ---------------------------------------------------------------

/// An axis-aligned rectangle: origin and extent, in pixels.
#[derive(Clone, Copy, PartialEq, Eq, Structural, Debug)]
pub struct Rect {
    pub x: Px,
    pub y: Px,
    pub height: Px,
    pub width: Px,
}

/// Widths of the four edges of one box-model ring.
#[derive(Clone, Copy, PartialEq, Eq, Structural, Debug)]
pub struct EdgeSizes {
    pub left: Px,
    pub right: Px,
    pub top: Px,
    pub bottom: Px,
}

/// A box's content rectangle and its padding, border and margin edge widths.
#[derive(Clone, Copy, PartialEq, Eq, Structural, Debug)]
pub struct Dimensions {
    pub content: Rect,
    pub padding: EdgeSizes,
    pub border: EdgeSizes,
    pub margin: EdgeSizes,
}

/// The all-zero rectangle.
pub open spec fn spec_zero_rect() -> Rect {
    Rect { x: 0, y: 0, height: 0, width: 0 }
}

/// All-zero edge widths.
pub open spec fn spec_zero_edges() -> EdgeSizes {
    EdgeSizes { left: 0, right: 0, top: 0, bottom: 0 }
}

/// The all-zero dimensions every box starts from before layout.
pub open spec fn spec_zero_dimensions() -> Dimensions {
    Dimensions {
        content: spec_zero_rect(),
        padding: spec_zero_edges(),
        border: spec_zero_edges(),
        margin: spec_zero_edges(),
    }
}

impl Default for Rect {
    /// The all-zero rectangle.
    fn default() -> (r: Rect)
        ensures
            r == spec_zero_rect(),
    {
        Rect { x: 0, y: 0, height: 0, width: 0 }
    }
}

impl Default for EdgeSizes {
    /// All-zero edge widths.
    fn default() -> (r: EdgeSizes)
        ensures
            r == spec_zero_edges(),
    {
        EdgeSizes { left: 0, right: 0, top: 0, bottom: 0 }
    }
}

impl Default for Dimensions {
    /// The all-zero dimensions.
    fn default() -> (r: Dimensions)
        ensures
            r == spec_zero_dimensions(),
    {
        Dimensions {
            content: Rect::default(),
            padding: EdgeSizes::default(),
            border: EdgeSizes::default(),
            margin: EdgeSizes::default(),
        }
    }
}

/// The rectangle grown by one ring of edges: the origin shifts up and left,
/// the extent grows by both edges, saturating at the representable range.
pub open spec fn spec_expanded_by(r: Rect, edge: EdgeSizes) -> Rect {
    Rect {
        x: sat64(r.x - edge.left),
        y: sat64(r.y - edge.top),
        width: sat64(sat64(r.width + edge.left) + edge.right),
        height: sat64(sat64(r.height + edge.top) + edge.bottom),
    }
}

impl Rect {
    /// Grows the rectangle by one ring of edge widths.
    pub fn expanded_by(self, edge: EdgeSizes) -> (r: Rect)
        ensures
            r == spec_expanded_by(self, edge),
    {
        Rect {
            x: sat_sub(self.x, edge.left),
            y: sat_sub(self.y, edge.top),
            width: sat_add(sat_add(self.width, edge.left), edge.right),
            height: sat_add(sat_add(self.height, edge.top), edge.bottom),
        }
    }
}

/// The content rectangle plus its padding.
pub open spec fn spec_padding_box(d: Dimensions) -> Rect {
    spec_expanded_by(d.content, d.padding)
}

/// The padding box plus the borders.
pub open spec fn spec_border_box(d: Dimensions) -> Rect {
    spec_expanded_by(spec_padding_box(d), d.border)
}

/// The border box plus the margins.
pub open spec fn spec_margin_box(d: Dimensions) -> Rect {
    spec_expanded_by(spec_border_box(d), d.margin)
}

impl Dimensions {
    /// The area covered by the content area plus its padding.
    pub fn padding_box(self) -> (r: Rect)
        ensures
            r == spec_padding_box(self),
    {
        self.content.expanded_by(self.padding)
    }

    /// The area covered by the content area plus padding and borders.
    pub fn border_box(self) -> (r: Rect)
        ensures
            r == spec_border_box(self),
    {
        self.padding_box().expanded_by(self.border)
    }

    /// The area covered by the content area plus padding, borders and margin.
    pub fn margin_box(self) -> (r: Rect)
        ensures
            r == spec_margin_box(self),
    {
        self.border_box().expanded_by(self.margin)
    }
}

// --- the box tree -----------------------------------------------------------

/// The kind of a layout box. Block and inline boxes own the resolved
/// property mapping of their styled node; anonymous blocks have no styles.
pub enum BoxType {
    BlockNode(PropertyMap),
    InlineNode(PropertyMap),
    AnonymousBlock,
}

/// A box in the layout tree: its dimensions, kind, and child boxes.
pub struct LayoutBox {
    pub dimensions: Dimensions,
    pub box_type: BoxType,
    pub children: Vec<LayoutBox>,
}

/// View of a `BoxType`.
pub enum BoxTypeV {
    BlockNode(Map<Seq<char>, ValueV>),
    InlineNode(Map<Seq<char>, ValueV>),
    AnonymousBlock,
}

/// View of a `LayoutBox`.
#[verifier::ext_equal]
pub struct LayoutBoxV {
    pub dimensions: Dimensions,
    pub box_type: BoxTypeV,
    pub children: Seq<LayoutBoxV>,
}

impl View for BoxType {
    type V = BoxTypeV;

    open spec fn view(&self) -> BoxTypeV {
        match self {
            BoxType::BlockNode(m) => BoxTypeV::BlockNode(m@),
            BoxType::InlineNode(m) => BoxTypeV::InlineNode(m@),
            BoxType::AnonymousBlock => BoxTypeV::AnonymousBlock,
        }
    }
}

/// View of a layout box, taken recursively over its children.
pub open spec fn box_view(b: LayoutBox) -> LayoutBoxV
    decreases b,
{
    LayoutBoxV {
        dimensions: b.dimensions,
        box_type: b.box_type@,
        children: boxes_view(b.children@),
    }
}

/// Views of a sequence of layout boxes, element by element.
pub open spec fn boxes_view(s: Seq<LayoutBox>) -> Seq<LayoutBoxV>
    decreases s,
{
    if s.len() == 0 {
        Seq::empty()
    } else {
        seq![box_view(s[0])] + boxes_view(s.skip(1))
    }
}

/// `boxes_view` maps `box_view` over the sequence.
pub proof fn lemma_boxes_view_index(s: Seq<LayoutBox>)
    ensures
        boxes_view(s).len() == s.len(),
        forall|i: int| 0 <= i < s.len() ==> boxes_view(s)[i] == box_view(s[i]),
    decreases s.len(),
{
    if s.len() > 0 {
        lemma_boxes_view_index(s.skip(1));
    }
}

impl View for LayoutBox {
    type V = LayoutBoxV;

    open spec fn view(&self) -> LayoutBoxV {
        box_view(*self)
    }
}

impl LayoutBox {
    /// A fresh box of the given kind, with zero dimensions and no children.
    pub fn new(box_type: BoxType) -> (r: LayoutBox)
        ensures
            r@ == (LayoutBoxV {
                dimensions: spec_zero_dimensions(),
                box_type: box_type@,
                children: Seq::empty(),
            }),
    {
        let r = LayoutBox {
            box_type,
            dimensions: Dimensions::default(),
            children: Vec::new(),
        };
        proof {
            assert(boxes_view(r.children@) =~= Seq::<LayoutBoxV>::empty());
        }
        r
    }

    /// The property mapping of a block or inline box; anonymous boxes have
    /// none, so callers must not ask for one.
    pub fn get_style_node(&self) -> (r: &PropertyMap)
        requires
            !(self.box_type is AnonymousBlock),
        ensures
            self@.box_type matches BoxTypeV::BlockNode(m) ==> r@ == m,
            self@.box_type matches BoxTypeV::InlineNode(m) ==> r@ == m,
    {
        match &self.box_type {
            BoxType::BlockNode(m) => m,
            BoxType::InlineNode(m) => m,
            BoxType::AnonymousBlock => unreached(),
        }
    }
}

// --- building the box tree --------------------------------------------------

/// The error a box-tree build can surface.
#[derive(Clone, Copy, PartialEq, Eq, Structural, Debug)]
pub enum LayoutError {
    /// The root styled node computes to `display: none`: nothing can render.
    RootDisplayNone,
}

/// Appends the box of one styled child to a parent's child list. Block
/// children append directly. Inline children append directly into inline or
/// anonymous parents; inside a block parent they go to the trailing anonymous
/// block, freshly created unless the last child already is one.
pub open spec fn spec_add_child(
    parent_is_block: bool,
    acc: Seq<LayoutBoxV>,
    child: StyleNodeV,
) -> Seq<LayoutBoxV>
    decreases child, 1int,
{
    match spec_display(child.specified_values) {
        Display::NoBox => acc,
        Display::Block => acc.push(spec_build_box(child)),
        Display::Inline => if !parent_is_block {
            acc.push(spec_build_box(child))
        } else if acc.len() > 0 && acc.last().box_type is AnonymousBlock {
            acc.update(
                acc.len() - 1,
                LayoutBoxV {
                    dimensions: acc.last().dimensions,
                    box_type: acc.last().box_type,
                    children: acc.last().children.push(spec_build_box(child)),
                },
            )
        } else {
            acc.push(
                LayoutBoxV {
                    dimensions: spec_zero_dimensions(),
                    box_type: BoxTypeV::AnonymousBlock,
                    children: seq![spec_build_box(child)],
                },
            )
        },
    }
}

/// Folds `spec_add_child` over the styled children in order.
pub open spec fn spec_build_children(
    parent_is_block: bool,
    acc: Seq<LayoutBoxV>,
    rest: Seq<StyleNodeV>,
) -> Seq<LayoutBoxV>
    decreases rest, 2int,
{
    if rest.len() == 0 {
        acc
    } else {
        spec_build_children(parent_is_block, spec_add_child(parent_is_block, acc, rest[0]), rest.skip(1))
    }
}

/// The box of one styled node whose display is not `none`: a block or inline
/// box owning the node's property mapping, with child boxes folded in.
pub open spec fn spec_build_box(sn: StyleNodeV) -> LayoutBoxV
    decreases sn, 0int,
{
    let is_block = spec_display(sn.specified_values) is Block;
    LayoutBoxV {
        dimensions: spec_zero_dimensions(),
        box_type: if is_block {
            BoxTypeV::BlockNode(sn.specified_values)
        } else {
            BoxTypeV::InlineNode(sn.specified_values)
        },
        children: spec_build_children(is_block, Seq::empty(), sn.children),
    }
}

/// Builds the box of a styled node known not to be `display: none`.
fn build_box(style_node: &StyleNode) -> (r: LayoutBox)
    requires
        spec_display(style_node@.specified_values) != Display::NoBox,
    ensures
        r@ == spec_build_box(style_node@),
    decreases *style_node,
{
    let display = style_node.display();
    let is_block = match display {
        Display::Block => true,
        _ => false,
    };
    let box_type = if is_block {
        BoxType::BlockNode(clone_property_map(&style_node.specified_values))
    } else {
        BoxType::InlineNode(clone_property_map(&style_node.specified_values))
    };
    let mut root = LayoutBox::new(box_type);
    let ghost sn = style_node@;
    let n = style_node.children.len();
    let mut i: usize = 0;
    proof {
        crate::style::lemma_style_nodes_view_index(style_node.children@);
        assert(boxes_view(root.children@) =~= Seq::<LayoutBoxV>::empty());
        assert(sn.children.skip(0) =~= sn.children);
    }
    while i < n
        invariant
            n == style_node.children@.len(),
            sn == style_node@,
            sn.children.len() == n,
            i <= n,
            forall|k: int|
                0 <= k < n ==> #[trigger] sn.children[k] == style_node_view(
                    style_node.children@[k],
                ),
            root.box_type@ == (if spec_display(sn.specified_values) is Block {
                BoxTypeV::BlockNode(sn.specified_values)
            } else {
                BoxTypeV::InlineNode(sn.specified_values)
            }),
            is_block == spec_display(sn.specified_values) is Block,
            root.dimensions == spec_zero_dimensions(),
            spec_build_children(is_block, boxes_view(root.children@), sn.children.skip(i as int))
                == spec_build_children(is_block, Seq::empty(), sn.children),
        decreases n - i,
    {
        let ghost csn = sn.children[i as int];
        let ghost acc0 = boxes_view(root.children@);
        proof {
            assert(sn.children.skip(i as int)[0] == csn);
            assert(sn.children.skip(i as int).skip(1) =~= sn.children.skip(i + 1));
            assert(spec_build_children(is_block, acc0, sn.children.skip(i as int))
                == spec_build_children(
                is_block,
                spec_add_child(is_block, acc0, csn),
                sn.children.skip(i + 1),
            ));
        }
        let child = &style_node.children[i];
        proof {
            assert(child@ == csn);
        }
        let child_display = child.display();
        match child_display {
            Display::NoBox => {
                proof {
                    assert(spec_add_child(is_block, acc0, csn) == acc0);
                }
            },
            Display::Block => {
                proof {
                    assert(decreases_to!(*style_node => style_node.children));
                    assert(decreases_to!(style_node.children => style_node.children@));
                    assert(decreases_to!(style_node.children@ => style_node.children@[
                        i as int
                    ]));
                }
                let built = build_box(child);
                let ghost prev = root.children@;
                root.children.push(built);
                proof {
                    lemma_boxes_view_push(root.children@);
                    assert(root.children@.drop_last() =~= prev);
                    assert(boxes_view(root.children@) == acc0.push(spec_build_box(csn)));
                    assert(spec_add_child(is_block, acc0, csn) == acc0.push(
                        spec_build_box(csn),
                    ));
                }
            },
            Display::Inline => {
                proof {
                    assert(decreases_to!(*style_node => style_node.children));
                    assert(decreases_to!(style_node.children => style_node.children@));
                    assert(decreases_to!(style_node.children@ => style_node.children@[
                        i as int
                    ]));
                }
                let built = build_box(child);
                push_inline(&mut root, is_block, built);
                proof {
                    assert(boxes_view(root.children@) == spec_add_child_inline(
                        is_block,
                        acc0,
                        spec_build_box(csn),
                    ));
                    assert(spec_add_child(is_block, acc0, csn) == spec_add_child_inline(
                        is_block,
                        acc0,
                        spec_build_box(csn),
                    ));
                }
            },
        }
        i = i + 1;
    }
    proof {
        assert(sn.children.skip(n as int) =~= Seq::<StyleNodeV>::empty());
    }
    root
}

/// Appends an inline child box per the inline-container rule.
fn push_inline(parent: &mut LayoutBox, parent_is_block: bool, child: LayoutBox)
    requires
        parent_is_block == old(parent).box_type@ is BlockNode,
    ensures
        final(parent).box_type == old(parent).box_type,
        final(parent).dimensions == old(parent).dimensions,
        boxes_view(final(parent).children@) == spec_add_child_inline(
            parent_is_block,
            boxes_view(old(parent).children@),
            box_view(child),
        ),
{
    let ghost acc = boxes_view(old(parent).children@);
    let ghost cv = box_view(child);
    if !parent_is_block {
        let ghost prev = parent.children@;
        parent.children.push(child);
        proof {
            lemma_boxes_view_push(parent.children@);
            assert(parent.children@.drop_last() =~= prev);
        }
        return ;
    }
    let nc = parent.children.len();
    let is_anon = if nc > 0 {
        match &parent.children[nc - 1].box_type {
            BoxType::AnonymousBlock => true,
            _ => false,
        }
    } else {
        false
    };
    proof {
        lemma_boxes_view_index(parent.children@);
        if nc > 0 {
            assert(acc.last() == box_view(parent.children@[nc - 1]));
        }
    }
    if is_anon {
        let ghost prev = parent.children@;
        let popped = parent.children.pop();
        let mut last_box = match popped {
            Some(b) => b,
            None => unreached(),
        };
        let ghost inner_prev = last_box.children@;
        last_box.children.push(child);
        proof {
            lemma_boxes_view_push(last_box.children@);
            assert(last_box.children@.drop_last() =~= inner_prev);
            assert(box_view(last_box) == (LayoutBoxV {
                dimensions: acc.last().dimensions,
                box_type: acc.last().box_type,
                children: acc.last().children.push(cv),
            }));
        }
        let ghost base = parent.children@;
        parent.children.push(last_box);
        proof {
            lemma_boxes_view_push(parent.children@);
            assert(parent.children@.drop_last() =~= base);
            lemma_boxes_view_index(base);
            lemma_boxes_view_index(prev);
            assert(base =~= prev.drop_last());
            assert forall|j: int| 0 <= j < base.len() implies #[trigger] boxes_view(base)[j]
                == acc[j] by {
                assert(base[j] == prev[j]);
            }
            assert(boxes_view(parent.children@) =~= acc.update(
                acc.len() - 1,
                box_view(last_box),
            ));
        }
    } else {
        let mut anon = LayoutBox::new(BoxType::AnonymousBlock);
        anon.children.push(child);
        proof {
            lemma_boxes_view_push(anon.children@);
            assert(anon.children@.drop_last() =~= Seq::<LayoutBox>::empty());
            assert(boxes_view(anon.children@.drop_last()) =~= Seq::<LayoutBoxV>::empty());
            assert(boxes_view(anon.children@) =~= seq![cv]);
            assert(box_view(anon) == (LayoutBoxV {
                dimensions: spec_zero_dimensions(),
                box_type: BoxTypeV::AnonymousBlock,
                children: seq![cv],
            }));
        }
        let ghost prev = parent.children@;
        parent.children.push(anon);
        proof {
            lemma_boxes_view_push(parent.children@);
            assert(parent.children@.drop_last() =~= prev);
        }
    }
}

/// `spec_add_child` restricted to an inline child already built: the shape
/// `push_inline` establishes.
pub open spec fn spec_add_child_inline(
    parent_is_block: bool,
    acc: Seq<LayoutBoxV>,
    built: LayoutBoxV,
) -> Seq<LayoutBoxV> {
    if !parent_is_block {
        acc.push(built)
    } else if acc.len() > 0 && acc.last().box_type is AnonymousBlock {
        acc.update(
            acc.len() - 1,
            LayoutBoxV {
                dimensions: acc.last().dimensions,
                box_type: acc.last().box_type,
                children: acc.last().children.push(built),
            },
        )
    } else {
        acc.push(
            LayoutBoxV {
                dimensions: spec_zero_dimensions(),
                box_type: BoxTypeV::AnonymousBlock,
                children: seq![built],
            },
        )
    }
}

/// Pushing onto a box vector appends its view.
proof fn lemma_boxes_view_push(s: Seq<LayoutBox>)
    requires
        s.len() > 0,
    ensures
        boxes_view(s) == boxes_view(s.drop_last()).push(box_view(s.last())),
{
    lemma_boxes_view_index(s);
    lemma_boxes_view_index(s.drop_last());
    assert(boxes_view(s) =~= boxes_view(s.drop_last()).push(box_view(s.last())));
}

/// Clones a property mapping, preserving its view.
fn clone_property_map(m: &PropertyMap) -> (r: PropertyMap)
    ensures
        r@ == m@,
{
    m.clone_dict()
}

// --- block layout -----------------------------------------------------------

/// The zero-pixel length.
pub open spec fn spec_zero_len() -> ValueV {
    ValueV::Length(0, Unit::Px)
}

/// The `auto` keyword.
pub open spec fn spec_auto() -> ValueV {
    ValueV::Keyword("auto"@)
}

/// The pixel magnitude of a property with a fallback property and default 0.
pub open spec fn spec_px_lookup(
    m: Map<Seq<char>, ValueV>,
    name: Seq<char>,
    fallback: Seq<char>,
) -> Px {
    spec_to_px(spec_lookup(m, name, fallback, spec_zero_len()))
}

/// The specified `width`, defaulting to `auto`.
pub open spec fn spec_width_value(m: Map<Seq<char>, ValueV>) -> ValueV {
    if m.contains_key("width"@) {
        m["width"@]
    } else {
        spec_auto()
    }
}

/// The resolved `(width, margin-left, margin-right)` of a block box against
/// its containing block's content width: the box-width constraint solver.
/// With `total` the sum of the six horizontal values plus the width (`auto`
/// counted as 0) and `underflow` the containing width minus `total`:
/// - nothing `auto`: over-constrained, `margin-right` absorbs the underflow;
/// - only one margin `auto`: that margin becomes the underflow;
/// - `width: auto`: any `auto` margin becomes 0; a non-negative underflow
///   becomes the width, a negative one leaves width 0 and falls into
///   `margin-right`;
/// - both margins `auto` with a set width: the underflow is split evenly,
///   an odd pixel going to the right margin.
pub open spec fn spec_solve_width(m: Map<Seq<char>, ValueV>, cbw: Px) -> (Px, Px, Px) {
    let auto = spec_auto();
    let w0 = spec_width_value(m);
    let ml0 = spec_lookup(m, "margin-left"@, "margin"@, spec_zero_len());
    let mr0 = spec_lookup(m, "margin-right"@, "margin"@, spec_zero_len());
    let bl = spec_px_lookup(m, "border-left-width"@, "border-width"@);
    let br = spec_px_lookup(m, "border-right-width"@, "border-width"@);
    let pl = spec_px_lookup(m, "padding-left"@, "padding"@);
    let pr = spec_px_lookup(m, "padding-right"@, "padding"@);
    let total = sat64(
        sat64(
            sat64(
                sat64(sat64(sat64(spec_to_px(ml0) + spec_to_px(mr0)) + bl) + br) + pl,
            ) + pr,
        ) + spec_to_px(w0),
    );
    let force = w0 != auto && total > cbw;
    let ml1 = if force && ml0 == auto {
        spec_zero_len()
    } else {
        ml0
    };
    let mr1 = if force && mr0 == auto {
        spec_zero_len()
    } else {
        mr0
    };
    let underflow = sat64(cbw - total);
    if w0 != auto && ml1 != auto && mr1 != auto {
        (spec_to_px(w0), spec_to_px(ml1), sat64(spec_to_px(mr1) + underflow))
    } else if w0 != auto && ml1 != auto && mr1 == auto {
        (spec_to_px(w0), spec_to_px(ml1), underflow)
    } else if w0 != auto && ml1 == auto && mr1 != auto {
        (spec_to_px(w0), underflow, spec_to_px(mr1))
    } else if w0 == auto {
        let mla = if ml1 == auto {
            0
        } else {
            spec_to_px(ml1)
        };
        let mra = if mr1 == auto {
            0
        } else {
            spec_to_px(mr1)
        };
        if underflow >= 0 {
            (underflow, mla, mra)
        } else {
            (0, mla, sat64(mra + underflow))
        }
    } else {
        let h = sat64(spec_half(underflow as int));
        (spec_to_px(w0), h, sat64(underflow - h))
    }
}

/// The dimensions after the width phase: the resolved width and horizontal
/// margins, and the specified horizontal borders and paddings.
pub open spec fn spec_width_phase(d: Dimensions, m: Map<Seq<char>, ValueV>, cbw: Px) -> Dimensions {
    let (w, ml, mr) = spec_solve_width(m, cbw);
    Dimensions {
        content: Rect { width: w, ..d.content },
        padding: EdgeSizes {
            left: spec_px_lookup(m, "padding-left"@, "padding"@),
            right: spec_px_lookup(m, "padding-right"@, "padding"@),
            ..d.padding
        },
        border: EdgeSizes {
            left: spec_px_lookup(m, "border-left-width"@, "border-width"@),
            right: spec_px_lookup(m, "border-right-width"@, "border-width"@),
            ..d.border
        },
        margin: EdgeSizes { left: ml, right: mr, ..d.margin },
    }
}

/// The dimensions after the position phase: vertical margins, borders and
/// paddings (an `auto` top or bottom margin falls back to 0), and the content
/// origin. The box starts below the containing block's accumulated content
/// height, so siblings stack top to bottom.
pub open spec fn spec_position_phase(
    d: Dimensions,
    m: Map<Seq<char>, ValueV>,
    cb: Dimensions,
) -> Dimensions {
    let mt = spec_px_lookup(m, "margin-top"@, "margin"@);
    let mb = spec_px_lookup(m, "margin-bottom"@, "margin"@);
    let bt = spec_px_lookup(m, "border-top-width"@, "border-width"@);
    let bb = spec_px_lookup(m, "border-bottom-width"@, "border-width"@);
    let pt = spec_px_lookup(m, "padding-top"@, "padding"@);
    let pb = spec_px_lookup(m, "padding-bottom"@, "padding"@);
    let x = sat64(sat64(sat64(cb.content.x + d.margin.left) + d.border.left) + d.padding.left);
    let y = sat64(sat64(sat64(sat64(cb.content.height + cb.content.y) + mt) + bt) + pt);
    Dimensions {
        content: Rect { x, y, ..d.content },
        padding: EdgeSizes { top: pt, bottom: pb, ..d.padding },
        border: EdgeSizes { top: bt, bottom: bb, ..d.border },
        margin: EdgeSizes { top: mt, bottom: mb, ..d.margin },
    }
}

/// The accumulated content height, overridden by an explicit pixel `height`.
pub open spec fn spec_height_override(m: Map<Seq<char>, ValueV>, h: Px) -> Px {
    if m.contains_key("height"@) {
        match m["height"@] {
            ValueV::Length(hh, Unit::Px) => hh,
            _ => h,
        }
    } else {
        h
    }
}

/// The property mapping a box is laid out against.
pub open spec fn spec_box_styles(b: BoxTypeV) -> Map<Seq<char>, ValueV> {
    match b {
        BoxTypeV::BlockNode(m) => m,
        BoxTypeV::InlineNode(m) => m,
        BoxTypeV::AnonymousBlock => Map::empty(),
    }
}

/// Lays out one box against its containing block. Only block boxes are laid
/// out; inline and anonymous boxes pass through unchanged.
pub open spec fn spec_layout(b: LayoutBoxV, cb: Dimensions) -> LayoutBoxV
    decreases b, 1int,
{
    if b.box_type is BlockNode {
        spec_layout_block(b, cb)
    } else {
        b
    }
}

/// Lays out a block box: width phase, position phase, children laid out in
/// order against the growing content height, then the height phase.
pub open spec fn spec_layout_block(b: LayoutBoxV, cb: Dimensions) -> LayoutBoxV
    decreases b, 0int,
{
    let m = spec_box_styles(b.box_type);
    let d1 = spec_width_phase(b.dimensions, m, cb.content.width);
    let d2 = spec_position_phase(d1, m, cb);
    let d3 = Dimensions { content: Rect { height: 0, ..d2.content }, ..d2 };
    let (children, h) = spec_layout_children(d3, b.children);
    LayoutBoxV {
        dimensions: Dimensions {
            content: Rect { height: spec_height_override(m, h), ..d3.content },
            ..d3
        },
        box_type: b.box_type,
        children,
    }
}

/// Lays out children in order. Each child sees the parent's dimensions with
/// the content height accumulated so far, and contributes its margin-box
/// height; the result is the laid-out children and the final accumulated
/// height.
pub open spec fn spec_layout_children(d: Dimensions, rest: Seq<LayoutBoxV>) -> (
    Seq<LayoutBoxV>,
    Px,
)
    decreases rest, 2int,
{
    if rest.len() == 0 {
        (Seq::empty(), d.content.height)
    } else {
        let c = spec_layout(rest[0], d);
        let d2 = Dimensions {
            content: Rect {
                height: sat64(d.content.height + spec_margin_box(c.dimensions).height),
                ..d.content
            },
            ..d
        };
        let (cs, h) = spec_layout_children(d2, rest.skip(1));
        (seq![c] + cs, h)
    }
}

/// The specified value of a property in a mapping, if any.
fn map_value(m: &PropertyMap, name: &str) -> (r: Option<Value>)
    ensures
        r is Some <==> m@.contains_key(name@),
        r matches Some(v) ==> v@ == m@[name@],
{
    match m.get(name) {
        Some(v) => Some(v.clone()),
        None => None,
    }
}

/// The specified value of `name`, or of `fallback`, or the default.
fn map_lookup(m: &PropertyMap, name: &str, fallback: &str, default: &Value) -> (r: Value)
    ensures
        r@ == spec_lookup(m@, name@, fallback@, default@),
{
    match map_value(m, name) {
        Some(v) => v,
        None => match map_value(m, fallback) {
            Some(v) => v,
            None => default.clone(),
        },
    }
}

/// The pixel magnitude of a property with a fallback and default 0.
fn px_lookup(m: &PropertyMap, name: &str, fallback: &str) -> (r: Px)
    ensures
        r == spec_px_lookup(m@, name@, fallback@),
{
    let zero = Value::Length(0, Unit::Px);
    map_lookup(m, name, fallback, &zero).to_px()
}

impl LayoutBox {
    /// Width phase: solves the box's width and horizontal margins against
    /// the containing block's content width and records the horizontal
    /// borders and paddings.
    fn calculate_block_width(&mut self, containing_block: Dimensions)
        requires
            old(self).box_type is BlockNode,
        ensures
            final(self).box_type == old(self).box_type,
            final(self).children == old(self).children,
            final(self).dimensions == spec_width_phase(
                old(self).dimensions,
                spec_box_styles(old(self).box_type@),
                containing_block.content.width,
            ),
    {
        let style = self.get_style_node();
        let ghost m = style@;
        let auto = Value::Keyword(String::from_str("auto"));
        let zero = Value::Length(0, Unit::Px);
        let width0 = match map_value(style, "width") {
            Some(v) => v,
            None => auto,
        };
        let mut margin_left = map_lookup(style, "margin-left", "margin", &zero);
        let mut margin_right = map_lookup(style, "margin-right", "margin", &zero);
        let border_left = map_lookup(style, "border-left-width", "border-width", &zero);
        let border_right = map_lookup(style, "border-right-width", "border-width", &zero);
        let padding_left = map_lookup(style, "padding-left", "padding", &zero);
        let padding_right = map_lookup(style, "padding-right", "padding", &zero);
        let total = sat_add(
            sat_add(
                sat_add(
                    sat_add(
                        sat_add(
                            sat_add(margin_left.to_px(), margin_right.to_px()),
                            border_left.to_px(),
                        ),
                        border_right.to_px(),
                    ),
                    padding_left.to_px(),
                ),
                padding_right.to_px(),
            ),
            width0.to_px(),
        );
        let w_auto = width0.is_auto();
        let mut ml_auto = margin_left.is_auto();
        let mut mr_auto = margin_right.is_auto();
        if !w_auto && total > containing_block.content.width {
            if ml_auto {
                margin_left = Value::Length(0, Unit::Px);
                ml_auto = false;
            }
            if mr_auto {
                margin_right = Value::Length(0, Unit::Px);
                mr_auto = false;
            }
        }
        let underflow = sat_sub(containing_block.content.width, total);
        let w_px: Px;
        let ml_px: Px;
        let mr_px: Px;
        if !w_auto && !ml_auto && !mr_auto {
            w_px = width0.to_px();
            ml_px = margin_left.to_px();
            mr_px = sat_add(margin_right.to_px(), underflow);
        } else if !w_auto && !ml_auto && mr_auto {
            w_px = width0.to_px();
            ml_px = margin_left.to_px();
            mr_px = underflow;
        } else if !w_auto && ml_auto && !mr_auto {
            w_px = width0.to_px();
            ml_px = underflow;
            mr_px = margin_right.to_px();
        } else if w_auto {
            let mla: Px = if ml_auto {
                0
            } else {
                margin_left.to_px()
            };
            let mra: Px = if mr_auto {
                0
            } else {
                margin_right.to_px()
            };
            if underflow >= 0 {
                w_px = underflow;
                ml_px = mla;
                mr_px = mra;
            } else {
                w_px = 0;
                ml_px = mla;
                mr_px = sat_add(mra, underflow);
            }
        } else {
            let h = half_px(underflow);
            w_px = width0.to_px();
            ml_px = h;
            mr_px = sat_sub(underflow, h);
        }
        let bl = border_left.to_px();
        let br = border_right.to_px();
        let pl = padding_left.to_px();
        let pr = padding_right.to_px();
        self.dimensions.content.width = w_px;
        self.dimensions.margin.left = ml_px;
        self.dimensions.margin.right = mr_px;
        self.dimensions.border.left = bl;
        self.dimensions.border.right = br;
        self.dimensions.padding.left = pl;
        self.dimensions.padding.right = pr;
    }

    /// Position phase: records the vertical margins, borders and paddings
    /// (an `auto` top or bottom margin falls back to 0) and positions the
    /// content origin below all previously laid-out siblings.
    pub fn calculate_block_position(&mut self, containing_block: Dimensions)
        requires
            old(self).box_type is BlockNode,
        ensures
            final(self).box_type == old(self).box_type,
            final(self).children == old(self).children,
            final(self).dimensions == spec_position_phase(
                old(self).dimensions,
                spec_box_styles(old(self).box_type@),
                containing_block,
            ),
    {
        let style = self.get_style_node();
        let mt = px_lookup(style, "margin-top", "margin");
        let mb = px_lookup(style, "margin-bottom", "margin");
        let bt = px_lookup(style, "border-top-width", "border-width");
        let bb = px_lookup(style, "border-bottom-width", "border-width");
        let pt = px_lookup(style, "padding-top", "padding");
        let pb = px_lookup(style, "padding-bottom", "padding");
        let x = sat_add(
            sat_add(
                sat_add(containing_block.content.x, self.dimensions.margin.left),
                self.dimensions.border.left,
            ),
            self.dimensions.padding.left,
        );
        let y = sat_add(
            sat_add(
                sat_add(
                    sat_add(containing_block.content.height, containing_block.content.y),
                    mt,
                ),
                bt,
            ),
            pt,
        );
        self.dimensions.margin.top = mt;
        self.dimensions.margin.bottom = mb;
        self.dimensions.border.top = bt;
        self.dimensions.border.bottom = bb;
        self.dimensions.padding.top = pt;
        self.dimensions.padding.bottom = pb;
        self.dimensions.content.x = x;
        self.dimensions.content.y = y;
    }

    /// Lays out this box against its containing block, returning the
    /// laid-out tree. Only block boxes are laid out; inline and anonymous
    /// boxes pass through unchanged.
    pub fn layout(&self, containing_block: Dimensions) -> (r: LayoutBox)
        ensures
            r@ == spec_layout(self@, containing_block),
        decreases *self, 1int,
    {
        let is_block = matches!(&self.box_type, BoxType::BlockNode(_));
        if is_block {
            self.layout_block(containing_block)
        } else {
            clone_layout_box(self)
        }
    }

    /// Lays out a block box: width, position, children in order (each
    /// stacking below the accumulated content height), then height.
    fn layout_block(&self, containing_block: Dimensions) -> (r: LayoutBox)
        requires
            self.box_type is BlockNode,
        ensures
            r@ == spec_layout_block(self@, containing_block),
        decreases *self, 0int,
    {
        let ghost b0 = box_view(*self);
        let mut out = LayoutBox {
            dimensions: self.dimensions,
            box_type: clone_box_type(&self.box_type),
            children: Vec::new(),
        };
        out.calculate_block_width(containing_block);
        out.calculate_block_position(containing_block);
        out.dimensions.content.height = 0;
        let mut d = out.dimensions;
        let ghost d3 = d;
        let ghost kid_views = boxes_view(self.children@);
        proof {
            assert(kid_views == b0.children);
            assert(kid_views.skip(0) =~= kid_views);
            assert(boxes_view(out.children@) =~= Seq::<LayoutBoxV>::empty());
            assert(Seq::<LayoutBoxV>::empty() + spec_layout_children(d, kid_views).0
                =~= spec_layout_children(d, kid_views).0);
            crate::layout::lemma_boxes_view_index(self.children@);
        }
        let n = self.children.len();
        let mut i: usize = 0;
        while i < n
            invariant
                n == self.children@.len(),
                kid_views == boxes_view(self.children@),
                kid_views.len() == n,
                i <= n,
                out.box_type@ == b0.box_type,
                d.content.x == d3.content.x,
                d.content.y == d3.content.y,
                d.content.width == d3.content.width,
                d.padding == d3.padding,
                d.border == d3.border,
                d.margin == d3.margin,
                spec_layout_children(d3, kid_views) == (
                    boxes_view(out.children@) + spec_layout_children(
                        d,
                        kid_views.skip(i as int),
                    ).0,
                    spec_layout_children(d, kid_views.skip(i as int)).1,
                ),
            decreases n - i,
        {
            let ghost dprev = d;
            proof {
                lemma_boxes_view_index(self.children@);
                assert(kid_views.skip(i as int)[0] == kid_views[i as int]);
                assert(kid_views[i as int] == box_view(self.children@[i as int]));
                assert(kid_views.skip(i as int).skip(1) =~= kid_views.skip(i + 1));
                assert(decreases_to!(*self => self.children));
                assert(decreases_to!(self.children => self.children@));
                assert(decreases_to!(self.children@ => self.children@[i as int]));
            }
            let child = self.children[i].layout(d);
            let mbh = child.dimensions.margin_box().height;
            d.content.height = sat_add(d.content.height, mbh);
            let ghost prev_new = out.children@;
            out.children.push(child);
            proof {
                lemma_boxes_view_push(out.children@);
                assert(out.children@.drop_last() =~= prev_new);
                assert(d == (Dimensions {
                    content: Rect {
                        height: sat64(
                            dprev.content.height + spec_margin_box(
                                spec_layout(kid_views[i as int], dprev).dimensions,
                            ).height,
                        ),
                        ..dprev.content
                    },
                    ..dprev
                }));
                assert(spec_layout_children(dprev, kid_views.skip(i as int)) == (
                    seq![spec_layout(kid_views[i as int], dprev)] + spec_layout_children(
                        d,
                        kid_views.skip(i + 1),
                    ).0,
                    spec_layout_children(d, kid_views.skip(i + 1)).1,
                ));
                assert(boxes_view(out.children@) + spec_layout_children(
                    d,
                    kid_views.skip(i + 1),
                ).0 =~= boxes_view(prev_new) + (seq![spec_layout(kid_views[i as int], dprev)]
                    + spec_layout_children(d, kid_views.skip(i + 1)).0));
            }
            i = i + 1;
        }
        proof {
            assert(kid_views.skip(n as int) =~= Seq::<LayoutBoxV>::empty());
            assert(spec_layout_children(d, kid_views.skip(n as int)) == (
                Seq::<LayoutBoxV>::empty(),
                d.content.height,
            ));
            assert(boxes_view(out.children@) + Seq::<LayoutBoxV>::empty() =~= boxes_view(
                out.children@,
            ));
        }
        let style = match &self.box_type {
            BoxType::BlockNode(map) => map,
            _ => unreached(),
        };
        match map_value(style, "height") {
            Some(Value::Length(h, Unit::Px)) => {
                d.content.height = h;
            },
            _ => {},
        }
        out.dimensions = d;
        proof {
            assert(out@ =~= spec_layout_block(b0, containing_block));
        }
        out
    }
}

/// Clones a box kind, preserving its view and variant.
fn clone_box_type(b: &BoxType) -> (r: BoxType)
    ensures
        r@ == b@,
        r is BlockNode <==> b is BlockNode,
        r is InlineNode <==> b is InlineNode,
        r is AnonymousBlock <==> b is AnonymousBlock,
{
    match b {
        BoxType::BlockNode(m) => BoxType::BlockNode(clone_property_map(m)),
        BoxType::InlineNode(m) => BoxType::InlineNode(clone_property_map(m)),
        BoxType::AnonymousBlock => BoxType::AnonymousBlock,
    }
}

/// Clones a layout box and its subtree, preserving the view.
fn clone_layout_box(b: &LayoutBox) -> (r: LayoutBox)
    ensures
        r@ == b@,
    decreases *b,
{
    let mut children: Vec<LayoutBox> = Vec::new();
    let n = b.children.len();
    let mut i: usize = 0;
    while i < n
        invariant
            n == b.children@.len(),
            i <= n,
            children@.len() == i,
            forall|k: int|
                0 <= k < i ==> box_view(#[trigger] children@[k]) == box_view(b.children@[k]),
        decreases n - i,
    {
        proof {
            assert(decreases_to!(*b => b.children));
            assert(decreases_to!(b.children => b.children@));
            assert(decreases_to!(b.children@ => b.children@[i as int]));
        }
        let c = clone_layout_box(&b.children[i]);
        children.push(c);
        i = i + 1;
    }
    let r = LayoutBox {
        dimensions: b.dimensions,
        box_type: clone_box_type(&b.box_type),
        children,
    };
    proof {
        lemma_boxes_view_index(r.children@);
        lemma_boxes_view_index(b.children@);
        assert(boxes_view(r.children@) =~= boxes_view(b.children@));
    }
    r
}

/// Box-tree well-formedness: no inline box is a direct child of a block
/// box, and an anonymous block's children are all inline boxes.
pub open spec fn spec_box_wf(b: LayoutBoxV) -> bool
    decreases b, 1int,
{
    &&& (b.box_type is BlockNode ==> forall|i: int|
        0 <= i < b.children.len() ==> !((#[trigger] b.children[i]).box_type is InlineNode))
    &&& (b.box_type is AnonymousBlock ==> forall|i: int|
        0 <= i < b.children.len() ==> (#[trigger] b.children[i]).box_type is InlineNode)
    &&& boxes_wf(b.children)
}

/// Well-formedness of every box in a sequence.
pub open spec fn boxes_wf(s: Seq<LayoutBoxV>) -> bool
    decreases s, 0int,
{
    s.len() == 0 || (spec_box_wf(s[0]) && boxes_wf(s.skip(1)))
}

/// `boxes_wf` holds exactly when every element is well-formed.
pub proof fn lemma_boxes_wf_index(s: Seq<LayoutBoxV>)
    ensures
        boxes_wf(s) <==> (forall|i: int| 0 <= i < s.len() ==> spec_box_wf(#[trigger] s[i])),
    decreases s.len(),
{
    if s.len() > 0 {
        lemma_boxes_wf_index(s.skip(1));
        if spec_box_wf(s[0]) && (forall|i: int|
            0 <= i < s.skip(1).len() ==> spec_box_wf(#[trigger] s.skip(1)[i])) {
            assert forall|i: int| 0 <= i < s.len() implies spec_box_wf(#[trigger] s[i]) by {
                if i > 0 {
                    assert(s[i] == s.skip(1)[i - 1]);
                }
            }
        }
    }
}

/// Folding children into a parent's child list keeps every box
/// well-formed, and puts no inline box directly under a block parent.
proof fn lemma_build_children_wf(pb: bool, acc: Seq<LayoutBoxV>, rest: Seq<StyleNodeV>)
    requires
        forall|k: int| 0 <= k < acc.len() ==> spec_box_wf(#[trigger] acc[k]),
        pb ==> forall|k: int|
            0 <= k < acc.len() ==> !((#[trigger] acc[k]).box_type is InlineNode),
    ensures
        forall|k: int|
            0 <= k < spec_build_children(pb, acc, rest).len() ==> spec_box_wf(
                #[trigger] spec_build_children(pb, acc, rest)[k],
            ),
        pb ==> forall|k: int|
            0 <= k < spec_build_children(pb, acc, rest).len() ==> !((#[trigger]
            spec_build_children(pb, acc, rest)[k]).box_type is InlineNode),
    decreases rest, 3int,
{
    if rest.len() > 0 {
        let child = rest[0];
        let acc2 = spec_add_child(pb, acc, child);
        match spec_display(child.specified_values) {
            Display::NoBox => {
                assert(acc2 == acc);
            },
            Display::Block => {
                lemma_build_box_wf(child);
                assert(acc2 == acc.push(spec_build_box(child)));
            },
            Display::Inline => {
                lemma_build_box_wf(child);
                let built = spec_build_box(child);
                assert(built.box_type is InlineNode);
                if !pb {
                    assert(acc2 == acc.push(built));
                } else if acc.len() > 0 && acc.last().box_type is AnonymousBlock {
                    let last0 = acc.last();
                    let last1 = LayoutBoxV {
                        dimensions: last0.dimensions,
                        box_type: last0.box_type,
                        children: last0.children.push(built),
                    };
                    assert(spec_box_wf(last0));
                    lemma_boxes_wf_index(last0.children);
                    lemma_boxes_wf_index(last1.children);
                    assert forall|i: int| 0 <= i < last1.children.len() implies (#[trigger]
                    last1.children[i]).box_type is InlineNode by {
                        if i < last0.children.len() {
                            assert(last1.children[i] == last0.children[i]);
                        }
                    }
                    assert(spec_box_wf(last1));
                    assert(acc2 == acc.update(acc.len() - 1, last1));
                } else {
                    let anon = LayoutBoxV {
                        dimensions: spec_zero_dimensions(),
                        box_type: BoxTypeV::AnonymousBlock,
                        children: seq![built],
                    };
                    lemma_boxes_wf_index(anon.children);
                    assert(spec_box_wf(anon));
                    assert(acc2 == acc.push(anon));
                }
            },
        }
        lemma_build_children_wf(pb, acc2, rest.skip(1));
        assert(spec_build_children(pb, acc, rest) == spec_build_children(
            pb,
            acc2,
            rest.skip(1),
        ));
    } else {
        assert(spec_build_children(pb, acc, rest) == acc);
    }
}

/// The box tree built from a styled node is well-formed: anonymous-block
/// synthesis keeps inline boxes out of block boxes' direct children, and
/// anonymous blocks hold only inline boxes.
pub proof fn lemma_build_box_wf(sn: StyleNodeV)
    ensures
        spec_box_wf(spec_build_box(sn)),
    decreases sn, 2int,
{
    let is_block = spec_display(sn.specified_values) is Block;
    lemma_build_children_wf(is_block, Seq::empty(), sn.children);
    let b = spec_build_box(sn);
    assert(b.children == spec_build_children(is_block, Seq::empty(), sn.children));
    assert(b.box_type is BlockNode <==> is_block);
    assert(!(b.box_type is AnonymousBlock));
    lemma_boxes_wf_index(b.children);
}

/// One rectangle lying inside another.
pub open spec fn rect_contains(outer: Rect, inner: Rect) -> bool {
    &&& outer.x <= inner.x
    &&& outer.y <= inner.y
    &&& inner.x + inner.width <= outer.x + outer.width
    &&& inner.y + inner.height <= outer.y + outer.height
}

/// A magnitude bound under which the box-model expansions stay exact: no
/// chain of four expansions can reach the saturating range.
pub open spec fn moderate(v: Px) -> bool {
    -0x1000_0000_0000_0000 <= v && v <= 0x1000_0000_0000_0000
}

/// All coordinates and edges of a `Dimensions` are of moderate magnitude.
pub open spec fn moderate_dims(d: Dimensions) -> bool {
    &&& moderate(d.content.x) && moderate(d.content.y) && moderate(d.content.width)
        && moderate(d.content.height)
    &&& moderate(d.padding.left) && moderate(d.padding.right) && moderate(d.padding.top)
        && moderate(d.padding.bottom)
    &&& moderate(d.border.left) && moderate(d.border.right) && moderate(d.border.top)
        && moderate(d.border.bottom)
    &&& moderate(d.margin.left) && moderate(d.margin.right) && moderate(d.margin.top)
        && moderate(d.margin.bottom)
}

/// All edge widths of a `Dimensions` are non-negative.
pub open spec fn nonneg_edges(d: Dimensions) -> bool {
    &&& d.padding.left >= 0 && d.padding.right >= 0 && d.padding.top >= 0 && d.padding.bottom
        >= 0
    &&& d.border.left >= 0 && d.border.right >= 0 && d.border.top >= 0 && d.border.bottom >= 0
    &&& d.margin.left >= 0 && d.margin.right >= 0 && d.margin.top >= 0 && d.margin.bottom >= 0
}

/// Box-model containment: with non-negative edge widths and moderate
/// magnitudes, every box's content lies inside its padding box, the padding
/// box inside the border box, and the border box inside the margin box.
/// A negative edge width, or a coordinate pushed into the saturating range,
/// can break the nesting and is excluded.
pub proof fn lemma_box_containment(d: Dimensions)
    requires
        nonneg_edges(d),
        moderate_dims(d),
    ensures
        rect_contains(spec_padding_box(d), d.content),
        rect_contains(spec_border_box(d), spec_padding_box(d)),
        rect_contains(spec_margin_box(d), spec_border_box(d)),
{
}

/// Laying out an already laid-out tree against the same containing block
/// changes nothing: layout reads only the box kinds, styles and structure,
/// never the dimensions it previously wrote.
pub proof fn lemma_layout_idempotent(b: LayoutBoxV, cb: Dimensions)
    ensures
        spec_layout(spec_layout(b, cb), cb) == spec_layout(b, cb),
    decreases b, 1int,
{
    if b.box_type is BlockNode {
        let r = spec_layout_block(b, cb);
        let m = spec_box_styles(b.box_type);
        lemma_layout_children_idempotent(
            Dimensions {
                content: Rect {
                    height: 0,
                    ..spec_position_phase(
                        spec_width_phase(b.dimensions, m, cb.content.width),
                        m,
                        cb,
                    ).content
                },
                ..spec_position_phase(spec_width_phase(b.dimensions, m, cb.content.width), m, cb)
            },
            b.children,
        );
        assert(spec_layout_block(r, cb) =~= r);
    }
}

/// Laying out already laid-out children against the same starting
/// dimensions reproduces them, and the same accumulated height.
pub proof fn lemma_layout_children_idempotent(d: Dimensions, rest: Seq<LayoutBoxV>)
    ensures
        spec_layout_children(d, spec_layout_children(d, rest).0) == spec_layout_children(
            d,
            rest,
        ),
    decreases rest, 2int,
{
    if rest.len() == 0 {
        assert(spec_layout_children(d, rest).0 =~= Seq::<LayoutBoxV>::empty());
    } else {
        let c = spec_layout(rest[0], d);
        lemma_layout_idempotent(rest[0], d);
        let d2 = Dimensions {
            content: Rect {
                height: sat64(d.content.height + spec_margin_box(c.dimensions).height),
                ..d.content
            },
            ..d
        };
        lemma_layout_children_idempotent(d2, rest.skip(1));
        let cs = spec_layout_children(d2, rest.skip(1)).0;
        let out = seq![c] + cs;
        assert(out[0] == c);
        assert(out.skip(1) =~= cs);
        assert(spec_layout_children(d, out) =~= spec_layout_children(d, rest));
    }
}

/// The pixel sum of a box's top margin, border and padding: what separates
/// its content top from its margin-box top.
pub open spec fn spec_top_edges(m: Map<Seq<char>, ValueV>) -> int {
    spec_px_lookup(m, "margin-top"@, "margin"@) + spec_px_lookup(
        m,
        "border-top-width"@,
        "border-width"@,
    ) + spec_px_lookup(m, "padding-top"@, "padding"@)
}

/// Vertical stacking: when two block boxes are laid out in order inside one
/// parent, the later one's content top is at or below the earlier one's
/// margin-box bottom. `d` is the parent's dimensions before the first child;
/// the second child sees the accumulated content height, exactly as the
/// children phase passes it. The earlier child's top edges must not exceed
/// the later one's — a larger top margin on the earlier child lowers its
/// content without lowering its margin box, and breaks the stated
/// inequality — and all magnitudes must stay out of the saturating range.
pub proof fn lemma_vertical_stacking(d: Dimensions, c0: LayoutBoxV, c1: LayoutBoxV)
    requires
        c0.box_type is BlockNode,
        c1.box_type is BlockNode,
        moderate(d.content.y),
        moderate(d.content.height),
        moderate(spec_margin_box(spec_layout(c0, d).dimensions).height),
        moderate(spec_px_lookup(spec_box_styles(c0.box_type), "margin-top"@, "margin"@)),
        moderate(
            spec_px_lookup(spec_box_styles(c0.box_type), "border-top-width"@, "border-width"@),
        ),
        moderate(spec_px_lookup(spec_box_styles(c0.box_type), "padding-top"@, "padding"@)),
        moderate(spec_px_lookup(spec_box_styles(c1.box_type), "margin-top"@, "margin"@)),
        moderate(
            spec_px_lookup(spec_box_styles(c1.box_type), "border-top-width"@, "border-width"@),
        ),
        moderate(spec_px_lookup(spec_box_styles(c1.box_type), "padding-top"@, "padding"@)),
        spec_top_edges(spec_box_styles(c0.box_type)) <= spec_top_edges(
            spec_box_styles(c1.box_type),
        ),
    ensures
        spec_layout(
            c1,
            Dimensions {
                content: Rect {
                    height: sat64(
                        d.content.height + spec_margin_box(
                            spec_layout(c0, d).dimensions,
                        ).height,
                    ),
                    ..d.content
                },
                ..d
            },
        ).dimensions.content.y >= spec_layout(c0, d).dimensions.content.y + spec_margin_box(
            spec_layout(c0, d).dimensions,
        ).height,
{
    let l0 = spec_layout(c0, d);
    let h0 = spec_margin_box(l0.dimensions).height;
    let d1 = Dimensions {
        content: Rect { height: sat64(d.content.height + h0), ..d.content },
        ..d
    };
    let m0 = spec_box_styles(c0.box_type);
    let m1 = spec_box_styles(c1.box_type);
    assert(spec_layout(c0, d) == spec_layout_block(c0, d));
    assert(spec_layout(c1, d1) == spec_layout_block(c1, d1));
    assert(l0.dimensions.content.y == sat64(
        sat64(
            sat64(
                sat64(d.content.height + d.content.y) + spec_px_lookup(
                    m0,
                    "margin-top"@,
                    "margin"@,
                ),
            ) + spec_px_lookup(m0, "border-top-width"@, "border-width"@),
        ) + spec_px_lookup(m0, "padding-top"@, "padding"@),
    ));
    assert(spec_layout(c1, d1).dimensions.content.y == sat64(
        sat64(
            sat64(
                sat64(d1.content.height + d1.content.y) + spec_px_lookup(
                    m1,
                    "margin-top"@,
                    "margin"@,
                ),
            ) + spec_px_lookup(m1, "border-top-width"@, "border-width"@),
        ) + spec_px_lookup(m1, "padding-top"@, "padding"@),
    ));
}

/// Builds and lays out the whole box tree of a styled tree against the
/// initial containing block; its accumulated content height starts at zero.
pub fn layout_tree(node: &StyleNode, containing_block: Dimensions) -> (r: Result<
    LayoutBox,
    LayoutError,
>)
    ensures
        r is Ok <==> spec_display(node@.specified_values) != Display::NoBox,
        r matches Ok(b) ==> b@ == spec_layout(
            spec_build_box(node@),
            Dimensions {
                content: Rect { height: 0, ..containing_block.content },
                ..containing_block
            },
        ),
        r matches Err(e) ==> e == LayoutError::RootDisplayNone,
{
    let mut cb = containing_block;
    cb.content.height = 0;
    match build_layout_tree(node) {
        Ok(root) => Ok(root.layout(cb)),
        Err(e) => Err(e),
    }
}

/// Builds the layout tree of a styled tree: block and inline boxes mirror the
/// styled nodes, `display: none` subtrees are skipped entirely, and anonymous
/// blocks keep inline boxes from sitting directly inside block boxes. A root
/// that computes to `display: none` is rejected.
pub fn build_layout_tree(style_node: &StyleNode) -> (r: Result<LayoutBox, LayoutError>)
    ensures
        r is Ok <==> spec_display(style_node@.specified_values) != Display::NoBox,
        r matches Ok(b) ==> b@ == spec_build_box(style_node@),
        r matches Ok(b) ==> spec_box_wf(b@),
        r matches Err(e) ==> e == LayoutError::RootDisplayNone,
{
    proof {
        lemma_build_box_wf(style_node@);
    }
    match style_node.display() {
        Display::NoBox => Err(LayoutError::RootDisplayNone),
        _ => Ok(build_box(style_node)),
    }
}

} // verus!
