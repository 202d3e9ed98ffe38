//! Block-level box layout: geometry primitives, the box tree, and the
//! width, position and height resolution pass.
//!
//! Every stored coordinate is a whole pixel count held in an `i64`;
//! each derived quantity is computed exactly and clipped into the
//! representable range once when stored, which the `clip` function
//! mirrors in the model.

use vstd::prelude::*;

use crate::css::{Unit, Value, ValueV};
use crate::strutil::str_eq;
use crate::style::{spec_display, spec_lookup, spec_value, styled_view, PropertyMap, StyledNode, StyledV};

verus! {

/// How a styled node takes part in layout. `NoBox` is the `none`
/// display value: the node generates no box at all.
#[derive(Clone, Copy, PartialEq, Eq, Structural, Debug)]
pub enum Display {
    Block,
    Inline,
    NoBox,
}

#[derive(Clone, Copy)]
pub struct Rect {
    pub x: i64,
    pub y: i64,
    pub width: i64,
    pub height: i64,
}

#[derive(Clone, Copy)]
pub struct EdgeSizes {
    pub left: i64,
    pub right: i64,
    pub top: i64,
    pub bottom: i64,
}

#[derive(Clone, Copy)]
pub struct Dimensions {
    pub content: Rect,
    pub padding: EdgeSizes,
    pub border: EdgeSizes,
    pub margin: EdgeSizes,
}

#[verifier::ext_equal]
pub struct RectV {
    pub x: int,
    pub y: int,
    pub width: int,
    pub height: int,
}

#[verifier::ext_equal]
pub struct EdgeV {
    pub left: int,
    pub right: int,
    pub top: int,
    pub bottom: int,
}

#[verifier::ext_equal]
pub struct DimsV {
    pub content: RectV,
    pub padding: EdgeV,
    pub border: EdgeV,
    pub margin: EdgeV,
}

impl View for Rect {
    type V = RectV;

    open spec fn view(&self) -> RectV {
        RectV {
            x: self.x as int,
            y: self.y as int,
            width: self.width as int,
            height: self.height as int,
        }
    }
}

impl View for EdgeSizes {
    type V = EdgeV;

    open spec fn view(&self) -> EdgeV {
        EdgeV {
            left: self.left as int,
            right: self.right as int,
            top: self.top as int,
            bottom: self.bottom as int,
        }
    }
}

impl View for Dimensions {
    type V = DimsV;

    open spec fn view(&self) -> DimsV {
        DimsV {
            content: self.content@,
            padding: self.padding@,
            border: self.border@,
            margin: self.margin@,
        }
    }
}

/// A value forced into the range a pixel count can hold.
pub open spec fn clip(v: int) -> int {
    if v < i64::MIN as int {
        i64::MIN as int
    } else if v > i64::MAX as int {
        i64::MAX as int
    } else {
        v
    }
}

/// Saturates an exact intermediate result into a pixel count.
fn clamp_px(v: i128) -> (r: i64)
    ensures
        r as int == clip(v as int),
{
    if v < i64::MIN as i128 {
        i64::MIN
    } else if v > i64::MAX as i128 {
        i64::MAX
    } else {
        v as i64
    }
}

pub open spec fn spec_zero_rect() -> RectV {
    RectV { x: 0, y: 0, width: 0, height: 0 }
}

pub open spec fn spec_zero_edges() -> EdgeV {
    EdgeV { left: 0, right: 0, top: 0, bottom: 0 }
}

pub open spec fn spec_zero_dims() -> DimsV {
    DimsV {
        content: spec_zero_rect(),
        padding: spec_zero_edges(),
        border: spec_zero_edges(),
        margin: spec_zero_edges(),
    }
}

impl Default for Rect {
    /// The zero rectangle.
    fn default() -> (r: Rect)
        ensures
            r@ == spec_zero_rect(),
    {
        Rect { x: 0, y: 0, width: 0, height: 0 }
    }
}

impl Default for EdgeSizes {
    /// Zero on every side.
    fn default() -> (r: EdgeSizes)
        ensures
            r@ == spec_zero_edges(),
    {
        EdgeSizes { left: 0, right: 0, top: 0, bottom: 0 }
    }
}

impl Default for Dimensions {
    /// Zero content and zero edges.
    fn default() -> (r: Dimensions)
        ensures
            r@ == spec_zero_dims(),
    {
        Dimensions {
            content: Rect::default(),
            padding: EdgeSizes::default(),
            border: EdgeSizes::default(),
            margin: EdgeSizes::default(),
        }
    }
}

/// The rectangle grown outward by the given edges, each new coordinate
/// clipped into pixel range.
pub open spec fn spec_expanded(r: RectV, e: EdgeV) -> RectV {
    RectV {
        x: clip(r.x - e.left),
        y: clip(r.y - e.top),
        width: clip(r.width + e.left + e.right),
        height: clip(r.height + e.top + e.bottom),
    }
}

pub open spec fn spec_padding_box(d: DimsV) -> RectV {
    spec_expanded(d.content, d.padding)
}

pub open spec fn spec_border_box(d: DimsV) -> RectV {
    spec_expanded(spec_padding_box(d), d.border)
}

pub open spec fn spec_margin_box(d: DimsV) -> RectV {
    spec_expanded(spec_border_box(d), d.margin)
}

impl Rect {
    pub fn expanded_by(self, edge: EdgeSizes) -> (r: Rect)
        ensures
            r@ == spec_expanded(self@, edge@),
    {
        Rect {
            x: clamp_px(self.x as i128 - edge.left as i128),
            y: clamp_px(self.y as i128 - edge.top as i128),
            width: clamp_px(self.width as i128 + edge.left as i128 + edge.right as i128),
            height: clamp_px(self.height as i128 + edge.top as i128 + edge.bottom as i128),
        }
    }
}

impl Dimensions {
    /// The area covered by the content area plus its padding.
    pub fn padding_box(self) -> (r: Rect)
        ensures
            r@ == spec_padding_box(self@),
    {
        self.content.expanded_by(self.padding)
    }

    /// The area covered by the content area plus padding and borders.
    pub fn border_box(self) -> (r: Rect)
        ensures
            r@ == spec_border_box(self@),
    {
        self.padding_box().expanded_by(self.border)
    }

    /// The area covered by the content area plus padding, borders, and
    /// margin.
    pub fn margin_box(self) -> (r: Rect)
        ensures
            r@ == spec_margin_box(self@),
    {
        self.border_box().expanded_by(self.margin)
    }
}

/// A layout box: a block or inline box carrying the properties of the
/// styled node it came from, or an anonymous block synthesized to host
/// inline content.
pub enum BoxType {
    BlockNode(PropertyMap),
    InlineNode(PropertyMap),
    AnonymousBlock,
}

pub struct LayoutBox {
    pub dimensions: Dimensions,
    pub box_type: BoxType,
    pub children: Vec<LayoutBox>,
}

#[verifier::ext_equal]
pub enum BoxKindV {
    Block(Map<Seq<char>, ValueV>),
    Inline(Map<Seq<char>, ValueV>),
    Anonymous,
}

impl View for BoxType {
    type V = BoxKindV;

    open spec fn view(&self) -> BoxKindV {
        match self {
            BoxType::BlockNode(m) => BoxKindV::Block(m@),
            BoxType::InlineNode(m) => BoxKindV::Inline(m@),
            BoxType::AnonymousBlock => BoxKindV::Anonymous,
        }
    }
}

/// Model of a layout box.
#[verifier::ext_equal]
pub struct BoxV {
    pub dimensions: DimsV,
    pub box_type: BoxKindV,
    pub children: Seq<BoxV>,
}

/// Model of a box tree, box by box.
pub open spec fn box_view(b: LayoutBox) -> BoxV
    decreases b,
{
    BoxV {
        dimensions: b.dimensions@,
        box_type: b.box_type@,
        children: Seq::new(
            b.children@.len(),
            |i: int|
                if 0 <= i < b.children@.len() {
                    box_view(b.children@[i])
                } else {
                    arbitrary()
                },
        ),
    }
}

impl View for LayoutBox {
    type V = BoxV;

    open spec fn view(&self) -> BoxV {
        box_view(*self)
    }
}

impl DeepView for LayoutBox {
    type V = BoxV;

    open spec fn deep_view(&self) -> BoxV {
        box_view(*self)
    }
}

/// The properties a block or inline box carries; an anonymous box
/// carries none.
pub open spec fn spec_box_props(k: BoxKindV) -> Map<Seq<char>, ValueV> {
    match k {
        BoxKindV::Block(m) => m,
        BoxKindV::Inline(m) => m,
        BoxKindV::Anonymous => Map::empty(),
    }
}

impl LayoutBox {
    /// A fresh box of the given type, with zero geometry and no
    /// children.
    pub fn new(box_type: BoxType) -> (r: LayoutBox)
        ensures
            r@ == (BoxV {
                dimensions: spec_zero_dims(),
                box_type: box_type@,
                children: Seq::<BoxV>::empty(),
            }),
    {
        let r = LayoutBox {
            box_type,
            dimensions: Dimensions::default(),
            children: Vec::new(),
        };
        proof {
            assert(r@.children =~= Seq::<BoxV>::empty());
            assert(r@ =~= BoxV {
                dimensions: spec_zero_dims(),
                box_type: r.box_type@,
                children: Seq::<BoxV>::empty(),
            });
        }
        r
    }

    /// The style properties of the node this box came from. An
    /// anonymous block has none, so it is ruled out by the caller.
    pub fn get_style_node(&self) -> (r: &PropertyMap)
        requires
            !(self@.box_type is Anonymous),
        ensures
            r@ == spec_box_props(self@.box_type),
    {
        match &self.box_type {
            BoxType::BlockNode(m) => m,
            BoxType::InlineNode(m) => m,
            BoxType::AnonymousBlock => unreached(),
        }
    }
}

/// The `auto` keyword.
pub open spec fn spec_auto() -> ValueV {
    ValueV::Keyword("auto"@)
}

/// A zero-pixel length.
pub open spec fn spec_zero_len() -> ValueV {
    ValueV::Length(0)
}

/// Whether the value is the keyword `auto`.
fn is_auto(v: &Value) -> (r: bool)
    ensures
        r == (v@ == spec_auto()),
{
    match v {
        Value::Keyword(s) => str_eq(s.as_str(), "auto"),
        _ => false,
    }
}

/// Half of `underflow`, rounded toward zero.
pub open spec fn spec_half(u: int) -> int {
    if u >= 0 {
        u / 2
    } else {
        -((-u) / 2)
    }
}

fn half_px(u: i128) -> (r: i128)
    requires
        u > i128::MIN,
    ensures
        r as int == spec_half(u as int),
{
    if u >= 0 {
        u / 2
    } else {
        -((-u) / 2)
    }
}

/// The resolved horizontal components of a block box, before clipping:
/// width, margins, borders and paddings in exact pixels.
#[verifier::ext_equal]
pub struct WidthsV {
    pub width: int,
    pub margin_left: int,
    pub margin_right: int,
    pub border_left: int,
    pub border_right: int,
    pub padding_left: int,
    pub padding_right: int,
}

/// Width resolution, exactly: compute the total of the seven
/// horizontal components (`auto` counting as zero), and distribute the
/// remaining `underflow` by case on which of width and the margins are
/// `auto`. When nothing is auto the right margin absorbs the
/// difference; a single auto margin takes it exactly; an auto width
/// expands to fill it, but never below zero, pushing any deficit onto
/// the right margin; two auto margins split it evenly, the right one
/// taking the odd pixel.
pub open spec fn spec_widths_raw(m: Map<Seq<char>, ValueV>, cb_width: int) -> WidthsV {
    let width0 = match spec_value(m, "width"@) {
        Option::Some(v) => v,
        Option::None => spec_auto(),
    };
    let ml0 = spec_lookup(m, "margin-left"@, "margin"@, spec_zero_len());
    let mr0 = spec_lookup(m, "margin-right"@, "margin"@, spec_zero_len());
    let bl = Value::spec_to_px(spec_lookup(m, "border-left-width"@, "border-width"@, spec_zero_len()));
    let br = Value::spec_to_px(spec_lookup(m, "border-right-width"@, "border-width"@, spec_zero_len()));
    let pl = Value::spec_to_px(spec_lookup(m, "padding-left"@, "padding"@, spec_zero_len()));
    let pr = Value::spec_to_px(spec_lookup(m, "padding-right"@, "padding"@, spec_zero_len()));
    let total = Value::spec_to_px(ml0) + Value::spec_to_px(mr0) + bl + br + pl + pr
        + Value::spec_to_px(width0);
    let adjust = width0 != spec_auto() && total > cb_width;
    let ml1 = if adjust && ml0 == spec_auto() {
        spec_zero_len()
    } else {
        ml0
    };
    let mr1 = if adjust && mr0 == spec_auto() {
        spec_zero_len()
    } else {
        mr0
    };
    let underflow = cb_width - total;
    let wa = width0 == spec_auto();
    let mla = ml1 == spec_auto();
    let mra = mr1 == spec_auto();
    if !wa && !mla && !mra {
        WidthsV {
            width: Value::spec_to_px(width0),
            margin_left: Value::spec_to_px(ml1),
            margin_right: Value::spec_to_px(mr1) + underflow,
            border_left: bl,
            border_right: br,
            padding_left: pl,
            padding_right: pr,
        }
    } else if !wa && !mla && mra {
        WidthsV {
            width: Value::spec_to_px(width0),
            margin_left: Value::spec_to_px(ml1),
            margin_right: underflow,
            border_left: bl,
            border_right: br,
            padding_left: pl,
            padding_right: pr,
        }
    } else if !wa && mla && !mra {
        WidthsV {
            width: Value::spec_to_px(width0),
            margin_left: underflow,
            margin_right: Value::spec_to_px(mr1),
            border_left: bl,
            border_right: br,
            padding_left: pl,
            padding_right: pr,
        }
    } else if wa {
        let ml2 = if mla {
            0int
        } else {
            Value::spec_to_px(ml1)
        };
        let mr2 = if mra {
            0int
        } else {
            Value::spec_to_px(mr1)
        };
        if underflow >= 0 {
            WidthsV {
                width: underflow,
                margin_left: ml2,
                margin_right: mr2,
                border_left: bl,
                border_right: br,
                padding_left: pl,
                padding_right: pr,
            }
        } else {
            WidthsV {
                width: 0,
                margin_left: ml2,
                margin_right: mr2 + underflow,
                border_left: bl,
                border_right: br,
                padding_left: pl,
                padding_right: pr,
            }
        }
    } else {
        WidthsV {
            width: Value::spec_to_px(width0),
            margin_left: spec_half(underflow),
            margin_right: underflow - spec_half(underflow),
            border_left: bl,
            border_right: br,
            padding_left: pl,
            padding_right: pr,
        }
    }
}

/// The resolved components, each clipped into pixel range.
pub open spec fn spec_widths(m: Map<Seq<char>, ValueV>, cb_width: int) -> WidthsV {
    let w = spec_widths_raw(m, cb_width);
    WidthsV {
        width: clip(w.width),
        margin_left: clip(w.margin_left),
        margin_right: clip(w.margin_right),
        border_left: clip(w.border_left),
        border_right: clip(w.border_right),
        padding_left: clip(w.padding_left),
        padding_right: clip(w.padding_right),
    }
}

/// The dimensions with the resolved horizontal components stored.
pub open spec fn spec_apply_widths(d: DimsV, w: WidthsV) -> DimsV {
    DimsV {
        content: RectV { x: d.content.x, y: d.content.y, width: w.width, height: d.content.height },
        padding: EdgeV {
            left: w.padding_left,
            right: w.padding_right,
            top: d.padding.top,
            bottom: d.padding.bottom,
        },
        border: EdgeV {
            left: w.border_left,
            right: w.border_right,
            top: d.border.top,
            bottom: d.border.bottom,
        },
        margin: EdgeV {
            left: w.margin_left,
            right: w.margin_right,
            top: d.margin.top,
            bottom: d.margin.bottom,
        },
    }
}

impl LayoutBox {
    /// Resolves the box's content width and horizontal edges against
    /// the containing block, per the width resolution cases.
    #[verifier::rlimit(60)]
    pub fn calculate_block_width(&mut self, containing_block: Dimensions)
        requires
            old(self)@.box_type is Block,
        ensures
            final(self).box_type == old(self).box_type,
            final(self).children == old(self).children,
            final(self).dimensions@ == spec_apply_widths(
                old(self).dimensions@,
                spec_widths(spec_box_props(old(self)@.box_type), containing_block@.content.width),
            ),
    {
        let ghost m = spec_box_props(old(self)@.box_type);
        let ghost cbw = containing_block@.content.width;
        let style = self.get_style_node();

        // `width` has initial value `auto`.
        let mut width = match style.value("width") {
            Option::Some(v) => v,
            Option::None => Value::Keyword(String::from_str("auto")),
        };

        // margin, border, and padding have initial value 0.
        let zero = Value::Length(0, Unit::Px);

        let mut margin_left = style.lookup("margin-left", "margin", &zero);
        let mut margin_right = style.lookup("margin-right", "margin", &zero);

        let border_left = style.lookup("border-left-width", "border-width", &zero);
        let border_right = style.lookup("border-right-width", "border-width", &zero);

        let padding_left = style.lookup("padding-left", "padding", &zero);
        let padding_right = style.lookup("padding-right", "padding", &zero);

        let total: i128 = margin_left.to_px() as i128 + margin_right.to_px() as i128
            + border_left.to_px() as i128 + border_right.to_px() as i128
            + padding_left.to_px() as i128 + padding_right.to_px() as i128
            + width.to_px() as i128;

        // If width is not auto and the total is wider than the
        // container, treat auto margins as 0.
        if !is_auto(&width) && total > containing_block.content.width as i128 {
            if is_auto(&margin_left) {
                margin_left = Value::Length(0, Unit::Px);
            }
            if is_auto(&margin_right) {
                margin_right = Value::Length(0, Unit::Px);
            }
        }

        // Adjust used values so that the above sum equals the
        // containing block's width: each case increases the total by
        // exactly `underflow`, and afterward no `auto` remains.
        let underflow: i128 = containing_block.content.width as i128 - total;

        let wa = is_auto(&width);
        let mla = is_auto(&margin_left);
        let mra = is_auto(&margin_right);
        if !wa && !mla && !mra {
            // Overconstrained: the right margin absorbs the difference.
            margin_right = Value::Length(
                clamp_px(margin_right.to_px() as i128 + underflow),
                Unit::Px,
            );
        } else if !wa && !mla && mra {
            margin_right = Value::Length(clamp_px(underflow), Unit::Px);
        } else if !wa && mla && !mra {
            margin_left = Value::Length(clamp_px(underflow), Unit::Px);
        } else if wa {
            // Width is auto: any auto margin becomes 0, and the width
            // fills the underflow, but never drops below zero; a
            // deficit goes onto the right margin instead.
            if mla {
                margin_left = Value::Length(0, Unit::Px);
            }
            if mra {
                margin_right = Value::Length(0, Unit::Px);
            }
            if underflow >= 0 {
                width = Value::Length(clamp_px(underflow), Unit::Px);
            } else {
                width = Value::Length(0, Unit::Px);
                margin_right = Value::Length(
                    clamp_px(margin_right.to_px() as i128 + underflow),
                    Unit::Px,
                );
            }
        } else {
            // Both margins auto: split the underflow evenly, the right
            // margin taking the odd pixel.
            let half = half_px(underflow);
            margin_left = Value::Length(clamp_px(half), Unit::Px);
            margin_right = Value::Length(clamp_px(underflow - half), Unit::Px);
        }

        let d = &mut self.dimensions;
        d.content.width = width.to_px();

        d.padding.left = padding_left.to_px();
        d.padding.right = padding_right.to_px();

        d.border.left = border_left.to_px();
        d.border.right = border_right.to_px();

        d.margin.left = margin_left.to_px();
        d.margin.right = margin_right.to_px();

        proof {
            assert(final(self).dimensions@ =~= spec_apply_widths(
                old(self).dimensions@,
                spec_widths(m, cbw),
            ));
        }
    }
}

/// Position resolution: the vertical edges come from the style (auto
/// vertical margins resolve to zero), the content x offsets the
/// containing block's left content edge by the resolved left edges, and
/// the content y stacks the box below everything already laid out in
/// the containing block.
pub open spec fn spec_block_position(m: Map<Seq<char>, ValueV>, cb: DimsV, d: DimsV) -> DimsV {
    let mt = Value::spec_to_px(spec_lookup(m, "margin-top"@, "margin"@, spec_zero_len()));
    let mb = Value::spec_to_px(spec_lookup(m, "margin-bottom"@, "margin"@, spec_zero_len()));
    let bt = Value::spec_to_px(spec_lookup(m, "border-top-width"@, "border-width"@, spec_zero_len()));
    let bb = Value::spec_to_px(
        spec_lookup(m, "border-bottom-width"@, "border-width"@, spec_zero_len()),
    );
    let pt = Value::spec_to_px(spec_lookup(m, "padding-top"@, "padding"@, spec_zero_len()));
    let pb = Value::spec_to_px(spec_lookup(m, "padding-bottom"@, "padding"@, spec_zero_len()));
    DimsV {
        content: RectV {
            x: clip(cb.content.x + d.margin.left + d.border.left + d.padding.left),
            y: clip(cb.content.height + cb.content.y + mt + bt + pt),
            width: d.content.width,
            height: d.content.height,
        },
        padding: EdgeV { left: d.padding.left, right: d.padding.right, top: pt, bottom: pb },
        border: EdgeV { left: d.border.left, right: d.border.right, top: bt, bottom: bb },
        margin: EdgeV { left: d.margin.left, right: d.margin.right, top: mt, bottom: mb },
    }
}

/// Height resolution: an explicit pixel `height` overrides whatever
/// accumulated from the children; otherwise the accumulated value
/// stands.
pub open spec fn spec_block_height(m: Map<Seq<char>, ValueV>, d: DimsV) -> DimsV {
    match spec_value(m, "height"@) {
        Option::Some(ValueV::Length(h)) => DimsV {
            content: RectV { x: d.content.x, y: d.content.y, width: d.content.width, height: h },
            padding: d.padding,
            border: d.border,
            margin: d.margin,
        },
        _ => d,
    }
}

impl LayoutBox {
    /// Finishes the box's edge sizes and positions it within its
    /// containing block, directly below the boxes already laid out.
    pub fn calculate_block_position(&mut self, containing_block: Dimensions)
        requires
            old(self)@.box_type is Block,
        ensures
            final(self).box_type == old(self).box_type,
            final(self).children == old(self).children,
            final(self).dimensions@ == spec_block_position(
                spec_box_props(old(self)@.box_type),
                containing_block@,
                old(self).dimensions@,
            ),
    {
        let ghost m = spec_box_props(old(self)@.box_type);
        let style = self.get_style_node();

        // margin, border, and padding have initial value 0; an auto
        // vertical margin resolves to zero through `to_px`.
        let zero = Value::Length(0, Unit::Px);

        let margin_top = style.lookup("margin-top", "margin", &zero).to_px();
        let margin_bottom = style.lookup("margin-bottom", "margin", &zero).to_px();
        let border_top = style.lookup("border-top-width", "border-width", &zero).to_px();
        let border_bottom = style.lookup("border-bottom-width", "border-width", &zero).to_px();
        let padding_top = style.lookup("padding-top", "padding", &zero).to_px();
        let padding_bottom = style.lookup("padding-bottom", "padding", &zero).to_px();

        let d = &mut self.dimensions;
        d.margin.top = margin_top;
        d.margin.bottom = margin_bottom;
        d.border.top = border_top;
        d.border.bottom = border_bottom;
        d.padding.top = padding_top;
        d.padding.bottom = padding_bottom;

        d.content.x = clamp_px(
            containing_block.content.x as i128 + d.margin.left as i128 + d.border.left as i128
                + d.padding.left as i128,
        );

        // Position the box below all the previous boxes in the
        // container.
        d.content.y = clamp_px(
            containing_block.content.height as i128 + containing_block.content.y as i128
                + d.margin.top as i128 + d.border.top as i128 + d.padding.top as i128,
        );

        proof {
            assert(final(self).dimensions@ =~= spec_block_position(
                m,
                containing_block@,
                old(self).dimensions@,
            ));
        }
    }

    /// Applies an explicit `height` if the style gives one.
    pub fn calculate_block_height(&mut self)
        requires
            old(self)@.box_type is Block,
        ensures
            final(self).box_type == old(self).box_type,
            final(self).children == old(self).children,
            final(self).dimensions@ == spec_block_height(
                spec_box_props(old(self)@.box_type),
                old(self).dimensions@,
            ),
    {
        let ghost m = spec_box_props(old(self)@.box_type);
        let h = self.get_style_node().value("height");
        match h {
            Option::Some(Value::Length(px, Unit::Px)) => {
                self.dimensions.content.height = px;
            },
            _ => {},
        }
        proof {
            assert(final(self).dimensions@ =~= spec_block_height(m, old(self).dimensions@));
        }
    }
}

/// The layout specification of a box: a block box resolves its width,
/// its position, its children in document order, then its height;
/// inline and anonymous boxes are left untouched, inline-level visual
/// formatting being out of scope.
pub open spec fn spec_layout(b: BoxV, cb: DimsV) -> BoxV
    decreases b, 2int,
{
    if b.box_type is Block {
        spec_layout_block(b, cb)
    } else {
        b
    }
}

/// The block layout algorithm, box by box: widths top-down, heights
/// bottom-up.
pub open spec fn spec_layout_block(b: BoxV, cb: DimsV) -> BoxV
    decreases b, 1int,
{
    let m = spec_box_props(b.box_type);
    let d1 = spec_apply_widths(b.dimensions, spec_widths(m, cb.content.width));
    let d2 = spec_block_position(m, cb, d1);
    let run = spec_run_children(b.children, d2);
    let d3 = spec_block_height(m, run.1);
    BoxV { dimensions: d3, box_type: b.box_type, children: run.0 }
}

/// Lays the children out in document order, each against the box's own
/// dimensions so far, accumulating each child's margin-box height into
/// the content height: a later sibling's position depends on every
/// earlier one.
pub open spec fn spec_run_children(cs: Seq<BoxV>, d: DimsV) -> (Seq<BoxV>, DimsV)
    decreases cs, 2int,
{
    if cs.len() == 0 {
        (Seq::<BoxV>::empty(), d)
    } else {
        let c1 = spec_layout(cs[0], d);
        let d1 = DimsV {
            content: RectV {
                x: d.content.x,
                y: d.content.y,
                width: d.content.width,
                height: clip(d.content.height + spec_margin_box(c1.dimensions).height),
            },
            padding: d.padding,
            border: d.border,
            margin: d.margin,
        };
        let rest = spec_run_children(cs.drop_first(), d1);
        (seq![c1] + rest.0, rest.1)
    }
}

/// Lays out the children against `d`, returning them laid out in order
/// and accumulating each child's margin-box height into `d`'s content
/// height.
pub fn layout_block_children(d: &mut Dimensions, children: Vec<LayoutBox>) -> (r: Vec<LayoutBox>)
    ensures
        r.deep_view() == spec_run_children(children.deep_view(), old(d)@).0,
        final(d)@ == spec_run_children(children.deep_view(), old(d)@).1,
    decreases children, 2int,
{
    let mut out: Vec<LayoutBox> = Vec::new();
    let mut rest = children;
    let ghost cs0 = children.deep_view();
    let ghost d0 = old(d)@;
    let ghost mut i: int = 0;
    proof {
        assert(rest@ =~= children@.subrange(0, children@.len() as int));
        assert(out.deep_view() =~= Seq::<BoxV>::empty());
        assert(out.deep_view() + spec_run_children(rest.deep_view(), d@).0 =~= spec_run_children(
            rest.deep_view(),
            d@,
        ).0);
        assert(rest.deep_view() =~= cs0);
    }
    while rest.len() > 0
        invariant
            cs0 == children.deep_view(),
            d0 == old(d)@,
            0 <= i,
            i + rest@.len() == children@.len(),
            rest@ =~= children@.subrange(i, children@.len() as int),
            spec_run_children(cs0, d0).0 == out.deep_view() + spec_run_children(
                rest.deep_view(),
                d@,
            ).0,
            spec_run_children(cs0, d0).1 == spec_run_children(rest.deep_view(), d@).1,
        decreases rest@.len(),
    {
        let ghost rest_v = rest.deep_view();
        let ghost d_prev = d@;
        let ghost out_prev = out.deep_view();
        let child = rest.remove(0);
        proof {
            assert(child == children@[i]);
            assert(rest_v[0] == box_view(child));
            assert(rest.deep_view() =~= rest_v.drop_first());
        }
        let laid = child.layout(*d);
        let mbh = laid.dimensions.margin_box().height;
        d.content.height = clamp_px(d.content.height as i128 + mbh as i128);
        out.push(laid);
        proof {
            i = i + 1;
            let c1 = spec_layout(rest_v[0], d_prev);
            assert(c1 == box_view(laid));
            assert(d@ =~= DimsV {
                content: RectV {
                    x: d_prev.content.x,
                    y: d_prev.content.y,
                    width: d_prev.content.width,
                    height: clip(
                        d_prev.content.height + spec_margin_box(c1.dimensions).height,
                    ),
                },
                padding: d_prev.padding,
                border: d_prev.border,
                margin: d_prev.margin,
            });
            assert(spec_run_children(rest_v, d_prev).0 == seq![c1] + spec_run_children(
                rest.deep_view(),
                d@,
            ).0);
            assert(spec_run_children(rest_v, d_prev).1 == spec_run_children(
                rest.deep_view(),
                d@,
            ).1);
            assert(out.deep_view() =~= out_prev.push(c1));
            assert(out_prev + (seq![c1] + spec_run_children(rest.deep_view(), d@).0)
                =~= out_prev.push(c1) + spec_run_children(rest.deep_view(), d@).0);
        }
    }
    proof {
        assert(rest.deep_view() =~= Seq::<BoxV>::empty());
        assert(spec_run_children(rest.deep_view(), d@).0 =~= Seq::<BoxV>::empty());
        assert(out.deep_view() + Seq::<BoxV>::empty() =~= out.deep_view());
    }
    out
}

impl LayoutBox {
    /// Lays out this box and its descendants against the containing
    /// block. Only a block box acquires geometry: inline and anonymous
    /// boxes are deliberately left untouched, a documented scope
    /// boundary rather than an error.
    pub fn layout(self, containing_block: Dimensions) -> (r: LayoutBox)
        ensures
            box_view(r) == spec_layout(box_view(self), containing_block@),
        decreases self, 2int,
    {
        let is_block = matches!(&self.box_type, BoxType::BlockNode(_));
        if is_block {
            self.layout_block(containing_block)
        } else {
            self
        }
    }

    /// Lays out a block-level box: width before children (a child's
    /// width depends on the parent), heights after them (the parent's
    /// height depends on the children).
    pub fn layout_block(self, containing_block: Dimensions) -> (r: LayoutBox)
        requires
            box_view(self).box_type is Block,
        ensures
            box_view(r) == spec_layout_block(box_view(self), containing_block@),
        decreases self, 1int,
    {
        let mut b = self;
        // Child width can depend on parent width, so the box's width is
        // resolved before laying out its children.
        b.calculate_block_width(containing_block);
        // Determine where the box is located within its container.
        b.calculate_block_position(containing_block);
        // Recursively lay out the children of this box.
        let LayoutBox { dimensions, box_type, children } = b;
        proof {
            assert(children == self.children);
        }
        let mut d = dimensions;
        let new_children = layout_block_children(&mut d, children);
        let mut result = LayoutBox { dimensions: d, box_type, children: new_children };
        // Parent height can depend on child height, so the height is
        // resolved after the children are laid out.
        result.calculate_block_height();
        proof {
            let bv = box_view(self);
            let m = spec_box_props(bv.box_type);
            let d1 = spec_apply_widths(bv.dimensions, spec_widths(m, containing_block@.content.width));
            let d2 = spec_block_position(m, containing_block@, d1);
            let run = spec_run_children(bv.children, d2);
            assert(children.deep_view() =~= bv.children);
            assert(box_view(result).children.len() == new_children.deep_view().len());
            assert forall|j: int| 0 <= j < box_view(result).children.len() implies box_view(
                result,
            ).children[j] == run.0[j] by {
                assert(box_view(result).children[j] == box_view(result.children@[j]));
                assert(new_children.deep_view()[j] == box_view(new_children@[j]));
            }
            assert(box_view(result).children =~= run.0);
            assert(box_view(result) =~= spec_layout_block(bv, containing_block@));
        }
        result
    }
}

/// Where a new inline box goes under this box: an inline or anonymous
/// box hosts it directly; a block box hosts it in its trailing
/// anonymous block, reused if the last child already is one, freshly
/// appended otherwise.
pub open spec fn spec_push_inline(b: BoxV, c: BoxV) -> BoxV {
    match b.box_type {
        BoxKindV::Block(_) => {
            if b.children.len() > 0 && b.children.last().box_type is Anonymous {
                let anon = b.children.last();
                let anon2 = BoxV {
                    dimensions: anon.dimensions,
                    box_type: anon.box_type,
                    children: anon.children.push(c),
                };
                BoxV {
                    dimensions: b.dimensions,
                    box_type: b.box_type,
                    children: b.children.update(b.children.len() - 1, anon2),
                }
            } else {
                let anon = BoxV {
                    dimensions: spec_zero_dims(),
                    box_type: BoxKindV::Anonymous,
                    children: seq![c],
                };
                BoxV {
                    dimensions: b.dimensions,
                    box_type: b.box_type,
                    children: b.children.push(anon),
                }
            }
        },
        _ => BoxV { dimensions: b.dimensions, box_type: b.box_type, children: b.children.push(c) },
    }
}

impl LayoutBox {
    /// Appends an inline box where it legally belongs under this box,
    /// creating or reusing a trailing anonymous block under a block
    /// parent.
    pub fn push_into_inline_container(&mut self, child: LayoutBox)
        ensures
            box_view(*final(self)) == spec_push_inline(box_view(*old(self)), box_view(child)),
    {
        let ghost b0 = box_view(*old(self));
        let ghost cv = box_view(child);
        let is_block = matches!(&self.box_type, BoxType::BlockNode(_));
        if !is_block {
            let ghost ch0 = self.children.deep_view();
            self.children.push(child);
            proof {
                assert(box_view(*self).children =~= b0.children.push(cv)) by {
                    assert forall|j: int| 0 <= j < self.children@.len() implies box_view(
                        *self,
                    ).children[j] == b0.children.push(cv)[j] by {
                        assert(box_view(*self).children[j] == box_view(self.children@[j]));
                    }
                }
                assert(box_view(*self) =~= spec_push_inline(b0, cv));
            }
            return ;
        }
        let len = self.children.len();
        let mut reuse = false;
        if len > 0 {
            reuse = matches!(&self.children[len - 1].box_type, BoxType::AnonymousBlock);
            proof {
                assert(b0.children[len - 1] == box_view(self.children@[len - 1]));
            }
        }
        if reuse {
            match self.children.pop() {
                Option::Some(anon) => {
                    let mut anon = anon;
                    let ghost av = box_view(anon);
                    proof {
                        assert(av == b0.children.last());
                    }
                    anon.children.push(child);
                    proof {
                        assert(box_view(anon).children =~= av.children.push(cv)) by {
                            assert forall|j: int| 0 <= j < anon.children@.len() implies box_view(
                                anon,
                            ).children[j] == av.children.push(cv)[j] by {
                                assert(box_view(anon).children[j] == box_view(anon.children@[j]));
                            }
                        }
                    }
                    let ghost av2 = box_view(anon);
                    self.children.push(anon);
                    proof {
                        assert(box_view(*self).children =~= b0.children.update(
                            b0.children.len() - 1,
                            av2,
                        )) by {
                            assert forall|j: int| 0 <= j < self.children@.len() implies box_view(
                                *self,
                            ).children[j] == b0.children.update(b0.children.len() - 1, av2)[j] by {
                                assert(box_view(*self).children[j] == box_view(self.children@[j]));
                                if j < self.children@.len() - 1 {
                                    assert(self.children@[j] == old(self).children@[j]);
                                }
                            }
                        }
                        assert(box_view(*self) =~= spec_push_inline(b0, cv));
                    }
                },
                Option::None => unreached(),
            }
        } else {
            let mut anon = LayoutBox::new(BoxType::AnonymousBlock);
            anon.children.push(child);
            proof {
                assert(box_view(anon).children =~= seq![cv]) by {
                    assert(box_view(anon).children[0] == box_view(anon.children@[0]));
                }
            }
            let ghost av = box_view(anon);
            self.children.push(anon);
            proof {
                assert(av =~= BoxV {
                    dimensions: spec_zero_dims(),
                    box_type: BoxKindV::Anonymous,
                    children: seq![cv],
                });
                assert(box_view(*self).children =~= b0.children.push(av)) by {
                    assert forall|j: int| 0 <= j < self.children@.len() implies box_view(
                        *self,
                    ).children[j] == b0.children.push(av)[j] by {
                        assert(box_view(*self).children[j] == box_view(self.children@[j]));
                        if j < self.children@.len() - 1 {
                            assert(self.children@[j] == old(self).children@[j]);
                        }
                    }
                }
                assert(box_view(*self) =~= spec_push_inline(b0, cv));
            }
        }
    }
}

/// A rejected layout request.
#[derive(Clone, Copy, PartialEq, Eq, Structural, Debug)]
pub enum LayoutError {
    /// The style root's display resolved to `none`: there is nothing to
    /// lay out, and the whole request is rejected rather than answered
    /// with an empty tree.
    RootDisplayNone,
}

/// The unpositioned box a styled node maps to: a block or inline box
/// per its display, its children attached in document order, the
/// inline ones inside anonymous blocks where the parent is a block.
pub open spec fn spec_build(s: StyledV) -> BoxV
    decreases s, 1int,
{
    let kind = if spec_display(s.specified_values) == Display::Block {
        BoxKindV::Block(s.specified_values)
    } else {
        BoxKindV::Inline(s.specified_values)
    };
    spec_build_children(
        s.children,
        BoxV { dimensions: spec_zero_dims(), box_type: kind, children: Seq::<BoxV>::empty() },
    )
}

/// Attaches each styled child to the box being built: block children
/// become direct children, inline children go to the inline container,
/// and `none` children are dropped entirely.
pub open spec fn spec_build_children(cs: Seq<StyledV>, b: BoxV) -> BoxV
    decreases cs, 2int,
{
    if cs.len() == 0 {
        b
    } else {
        let d = spec_display(cs[0].specified_values);
        let b2 = if d == Display::Block {
            BoxV {
                dimensions: b.dimensions,
                box_type: b.box_type,
                children: b.children.push(spec_build(cs[0])),
            }
        } else if d == Display::Inline {
            spec_push_inline(b, spec_build(cs[0]))
        } else {
            b
        };
        spec_build_children(cs.drop_first(), b2)
    }
}

/// Builds the unpositioned box tree for a styled tree. A root whose
/// display resolves to `none` is a rejected configuration.
pub fn build_layout_tree(style_node: StyledNode) -> (r: Result<LayoutBox, LayoutError>)
    ensures
        match r {
            Result::Ok(b) => spec_display(styled_view(style_node).specified_values)
                != Display::NoBox && box_view(b) == spec_build(styled_view(style_node)),
            Result::Err(e) => spec_display(styled_view(style_node).specified_values)
                == Display::NoBox && e == LayoutError::RootDisplayNone,
        },
    decreases style_node,
{
    let ghost s = styled_view(style_node);
    let disp = style_node.display();
    let StyledNode { specified_values, children } = style_node;
    let box_type = match disp {
        Display::Block => BoxType::BlockNode(specified_values),
        Display::Inline => BoxType::InlineNode(specified_values),
        Display::NoBox => {
            return Result::Err(LayoutError::RootDisplayNone);
        },
    };
    let mut root = LayoutBox::new(box_type);
    proof {
        assert(box_view(root) == BoxV {
            dimensions: spec_zero_dims(),
            box_type: if spec_display(s.specified_values) == Display::Block {
                BoxKindV::Block(s.specified_values)
            } else {
                BoxKindV::Inline(s.specified_values)
            },
            children: Seq::<BoxV>::empty(),
        });
        assert(s.children.subrange(0, s.children.len() as int) =~= s.children);
    }
    let mut rest = children;
    let ghost mut i: int = 0;
    proof {
        assert(rest@ =~= style_node.children@.subrange(0, style_node.children@.len() as int));
    }
    while rest.len() > 0
        invariant
            s == styled_view(style_node),
            0 <= i,
            i + rest@.len() == style_node.children@.len(),
            s.children.len() == style_node.children@.len(),
            rest@ =~= style_node.children@.subrange(i, style_node.children@.len() as int),
            spec_build(s) == spec_build_children(
                s.children.subrange(i, s.children.len() as int),
                box_view(root),
            ),
        decreases rest@.len(),
    {
        let ghost b_prev = box_view(root);
        let ghost suffix = s.children.subrange(i, s.children.len() as int);
        let child = rest.remove(0);
        proof {
            assert(child == style_node.children@[i]);
            assert(styled_view(child) == s.children[i]);
            assert(suffix[0] == s.children[i]);
            assert(suffix.drop_first() =~= s.children.subrange(
                i + 1,
                s.children.len() as int,
            ));
        }
        let cd = child.display();
        match cd {
            Display::Block => {
                let built = match build_layout_tree(child) {
                    Result::Ok(bb) => bb,
                    Result::Err(e) => {
                        proof {
                            assert(false);
                        }
                        return Result::Err(e);
                    },
                };
                let ghost bv = box_view(built);
                root.children.push(built);
                proof {
                    assert(box_view(root).children =~= b_prev.children.push(bv)) by {
                        assert forall|j: int| 0 <= j < root.children@.len() implies box_view(
                            root,
                        ).children[j] == b_prev.children.push(bv)[j] by {
                            assert(box_view(root).children[j] == box_view(root.children@[j]));
                        }
                    }
                    assert(box_view(root) =~= BoxV {
                        dimensions: b_prev.dimensions,
                        box_type: b_prev.box_type,
                        children: b_prev.children.push(spec_build(suffix[0])),
                    });
                }
            },
            Display::Inline => {
                let built = match build_layout_tree(child) {
                    Result::Ok(bb) => bb,
                    Result::Err(e) => {
                        proof {
                            assert(false);
                        }
                        return Result::Err(e);
                    },
                };
                root.push_into_inline_container(built);
                proof {
                    assert(box_view(root) == spec_push_inline(b_prev, spec_build(suffix[0])));
                }
            },
            Display::NoBox => {},
        }
        proof {
            i = i + 1;
        }
    }
    proof {
        assert(s.children.subrange(i, s.children.len() as int) =~= Seq::<StyledV>::empty());
    }
    Result::Ok(root)
}

/// The containing block as the layout pass first sees it: its content
/// height reset to zero, heights accumulating as children are laid out.
pub open spec fn spec_initial_cb(d: DimsV) -> DimsV {
    DimsV {
        content: RectV { x: d.content.x, y: d.content.y, width: d.content.width, height: 0 },
        padding: d.padding,
        border: d.border,
        margin: d.margin,
    }
}

/// Builds and lays out the whole box tree for a styled tree against an
/// initial containing block. The request is rejected when the root's
/// display resolves to `none`.
pub fn layout_tree(node: StyledNode, containing_block: Dimensions) -> (r: Result<
    LayoutBox,
    LayoutError,
>)
    ensures
        match r {
            Result::Ok(b) => spec_display(styled_view(node).specified_values) != Display::NoBox
                && box_view(b) == spec_layout(
                spec_build(styled_view(node)),
                spec_initial_cb(containing_block@),
            ),
            Result::Err(e) => spec_display(styled_view(node).specified_values) == Display::NoBox
                && e == LayoutError::RootDisplayNone,
        },
{
    let mut cb = containing_block;
    // The layout algorithm expects the container height to start at 0.
    cb.content.height = 0;
    proof {
        assert(cb@ =~= spec_initial_cb(containing_block@));
    }
    let root_box = match build_layout_tree(node) {
        Result::Ok(b) => b,
        Result::Err(e) => {
            return Result::Err(e);
        },
    };
    Result::Ok(root_box.layout(cb))
}

/// Whether a value fits in a pixel count unclipped.
pub open spec fn in_px_range(v: int) -> bool {
    i64::MIN as int <= v <= i64::MAX as int
}

/// Width balance: after width resolution with a width that is not
/// auto, the margins, borders, paddings and width add up exactly to the
/// containing block's content width, provided no component had to be
/// clipped into pixel range.
pub proof fn lemma_width_balance(m: Map<Seq<char>, ValueV>, cb_width: int)
    requires
        (match spec_value(m, "width"@) {
            Option::Some(v) => v,
            Option::None => spec_auto(),
        }) != spec_auto(),
        in_px_range(spec_widths_raw(m, cb_width).width),
        in_px_range(spec_widths_raw(m, cb_width).margin_left),
        in_px_range(spec_widths_raw(m, cb_width).margin_right),
        in_px_range(spec_widths_raw(m, cb_width).border_left),
        in_px_range(spec_widths_raw(m, cb_width).border_right),
        in_px_range(spec_widths_raw(m, cb_width).padding_left),
        in_px_range(spec_widths_raw(m, cb_width).padding_right),
    ensures
        spec_widths(m, cb_width).margin_left + spec_widths(m, cb_width).border_left + spec_widths(
            m,
            cb_width,
        ).padding_left + spec_widths(m, cb_width).width + spec_widths(m, cb_width).padding_right
            + spec_widths(m, cb_width).border_right + spec_widths(m, cb_width).margin_right
            == cb_width,
{
    let u = cb_width - (Value::spec_to_px(
        spec_lookup(m, "margin-left"@, "margin"@, spec_zero_len()),
    ) + Value::spec_to_px(spec_lookup(m, "margin-right"@, "margin"@, spec_zero_len()))
        + Value::spec_to_px(spec_lookup(m, "border-left-width"@, "border-width"@, spec_zero_len()))
        + Value::spec_to_px(spec_lookup(m, "border-right-width"@, "border-width"@, spec_zero_len()))
        + Value::spec_to_px(spec_lookup(m, "padding-left"@, "padding"@, spec_zero_len()))
        + Value::spec_to_px(spec_lookup(m, "padding-right"@, "padding"@, spec_zero_len()))
        + Value::spec_to_px(
        match spec_value(m, "width"@) {
            Option::Some(v) => v,
            Option::None => spec_auto(),
        },
    ));
    assert(spec_half(u) + (u - spec_half(u)) == u);
}

/// The margin-box heights of a row of boxes, added up.
pub open spec fn sum_margin_heights(cs: Seq<BoxV>) -> int
    decreases cs.len(),
{
    if cs.len() == 0 {
        0
    } else {
        spec_margin_box(cs[0].dimensions).height + sum_margin_heights(cs.drop_first())
    }
}

/// Whether laying these children out against `d` accumulates heights
/// without ever clipping.
pub open spec fn spec_no_height_clip(cs: Seq<BoxV>, d: DimsV) -> bool
    decreases cs, 3int,
{
    if cs.len() == 0 {
        true
    } else {
        let c1 = spec_layout(cs[0], d);
        let h1 = d.content.height + spec_margin_box(c1.dimensions).height;
        let d1 = DimsV {
            content: RectV {
                x: d.content.x,
                y: d.content.y,
                width: d.content.width,
                height: clip(h1),
            },
            padding: d.padding,
            border: d.border,
            margin: d.margin,
        };
        in_px_range(h1) && spec_no_height_clip(cs.drop_first(), d1)
    }
}

/// Laying children out adds exactly their laid-out margin-box heights
/// to the accumulated content height, as long as nothing clips.
pub proof fn lemma_run_children_height(cs: Seq<BoxV>, d: DimsV)
    requires
        spec_no_height_clip(cs, d),
    ensures
        spec_run_children(cs, d).1.content.height == d.content.height + sum_margin_heights(
            spec_run_children(cs, d).0,
        ),
    decreases cs.len(),
{
    if cs.len() > 0 {
        let c1 = spec_layout(cs[0], d);
        let h1 = d.content.height + spec_margin_box(c1.dimensions).height;
        let d1 = DimsV {
            content: RectV {
                x: d.content.x,
                y: d.content.y,
                width: d.content.width,
                height: clip(h1),
            },
            padding: d.padding,
            border: d.border,
            margin: d.margin,
        };
        assert(clip(h1) == h1);
        lemma_run_children_height(cs.drop_first(), d1);
        let rest = spec_run_children(cs.drop_first(), d1);
        assert(spec_run_children(cs, d).0 == seq![c1] + rest.0);
        assert((seq![c1] + rest.0)[0] == c1);
        assert((seq![c1] + rest.0).drop_first() =~= rest.0);
    }
}

/// The box's dimensions after width and position resolution, before
/// its children are laid out.
pub open spec fn spec_dims_after_position(b: BoxV, cb: DimsV) -> DimsV {
    let m = spec_box_props(b.box_type);
    spec_block_position(m, cb, spec_apply_widths(b.dimensions, spec_widths(m, cb.content.width)))
}

/// Height accumulation: for a block box without an explicit pixel
/// height, the laid-out content height is the box's initial content
/// height plus the margin-box heights of its laid-out children, in
/// order, as long as no accumulation step clips.
pub proof fn lemma_height_accumulation(b: BoxV, cb: DimsV)
    requires
        b.box_type is Block,
        !(spec_value(spec_box_props(b.box_type), "height"@) matches Option::Some(
            ValueV::Length(_),
        )),
        spec_no_height_clip(b.children, spec_dims_after_position(b, cb)),
    ensures
        spec_layout(b, cb).dimensions.content.height == b.dimensions.content.height
            + sum_margin_heights(spec_layout(b, cb).children),
{
    let m = spec_box_props(b.box_type);
    let d2 = spec_dims_after_position(b, cb);
    lemma_run_children_height(b.children, d2);
    assert(d2.content.height == b.dimensions.content.height);
    let run = spec_run_children(b.children, d2);
    assert(spec_layout(b, cb).dimensions == spec_block_height(m, run.1));
    assert(spec_block_height(m, run.1) == run.1);
}

/// Anonymous block merging: a block parent with two consecutive
/// inline-display children yields exactly one anonymous block box
/// holding both built inline boxes, not one anonymous box each.
pub proof fn lemma_anonymous_block_merging(s: StyledV, c1: StyledV, c2: StyledV)
    requires
        spec_display(s.specified_values) == Display::Block,
        s.children == seq![c1, c2],
        spec_display(c1.specified_values) == Display::Inline,
        spec_display(c2.specified_values) == Display::Inline,
    ensures
        spec_build(s).children.len() == 1,
        spec_build(s).children[0].box_type is Anonymous,
        spec_build(s).children[0].children == seq![spec_build(c1), spec_build(c2)],
{
    let b0 = BoxV {
        dimensions: spec_zero_dims(),
        box_type: BoxKindV::Block(s.specified_values),
        children: Seq::<BoxV>::empty(),
    };
    assert(spec_build(s) == spec_build_children(seq![c1, c2], b0));
    assert(seq![c1, c2][0] == c1);
    assert(seq![c1, c2].drop_first() =~= seq![c2]);
    let b1 = spec_push_inline(b0, spec_build(c1));
    assert(b1.children == Seq::<BoxV>::empty().push(
        BoxV {
            dimensions: spec_zero_dims(),
            box_type: BoxKindV::Anonymous,
            children: seq![spec_build(c1)],
        },
    ));
    assert(b1.children.len() == 1);
    assert(b1.children.last().box_type is Anonymous);
    assert(seq![c2][0] == c2);
    assert(seq![c2].drop_first() =~= Seq::<StyledV>::empty());
    let b2 = spec_push_inline(b1, spec_build(c2));
    assert(spec_build_children(Seq::<StyledV>::empty(), b2) == b2);
    assert(spec_build_children(seq![c2], b1) == spec_build_children(
        seq![c2].drop_first(),
        spec_push_inline(b1, spec_build(c2)),
    ));
    assert(spec_build_children(seq![c2], b1) == b2);
    assert(spec_build(s) == b2);
    assert(b2.children.len() == 1);
    assert(b2.children[0].box_type is Anonymous);
    assert(b2.children[0].children =~= seq![spec_build(c1), spec_build(c2)]);
}

/// No two anonymous blocks stand side by side: a run of inline
/// children always reuses the trailing anonymous block instead of
/// opening a second one.
pub open spec fn no_adjacent_anonymous(cs: Seq<BoxV>) -> bool {
    forall|i: int|
        0 <= i < cs.len() - 1 ==> !((#[trigger] cs[i].box_type) is Anonymous && cs[i
            + 1].box_type is Anonymous)
}

proof fn lemma_push_inline_no_adjacent(b: BoxV, c: BoxV)
    requires
        no_adjacent_anonymous(b.children),
        !(c.box_type is Anonymous),
    ensures
        no_adjacent_anonymous(spec_push_inline(b, c).children),
{
    let r = spec_push_inline(b, c).children;
    match b.box_type {
        BoxKindV::Block(_) => {
            if b.children.len() > 0 && b.children.last().box_type is Anonymous {
                assert forall|i: int| 0 <= i < r.len() - 1 implies !((#[trigger] r[i].box_type)
                    is Anonymous && r[i + 1].box_type is Anonymous) by {
                    assert(r[i].box_type == b.children[i].box_type);
                    assert(r[i + 1].box_type == b.children[i + 1].box_type);
                }
            } else {
                assert forall|i: int| 0 <= i < r.len() - 1 implies !((#[trigger] r[i].box_type)
                    is Anonymous && r[i + 1].box_type is Anonymous) by {
                    if i + 1 < r.len() - 1 {
                        assert(r[i] == b.children[i]);
                        assert(r[i + 1] == b.children[i + 1]);
                    } else if b.children.len() > 0 {
                        assert(r[i] == b.children[i]);
                        assert(!(b.children.last().box_type is Anonymous));
                    }
                }
            }
        },
        _ => {
            assert forall|i: int| 0 <= i < r.len() - 1 implies !((#[trigger] r[i].box_type)
                is Anonymous && r[i + 1].box_type is Anonymous) by {
                assert(r[i] == b.children.push(c)[i]);
                assert(r[i + 1] == b.children.push(c)[i + 1]);
            }
        },
    }
}

/// A built box never carries an anonymous kind itself.
proof fn lemma_build_not_anonymous(s: StyledV)
    ensures
        !(spec_build(s).box_type is Anonymous),
    decreases s, 2int,
{
    let kind = if spec_display(s.specified_values) == Display::Block {
        BoxKindV::Block(s.specified_values)
    } else {
        BoxKindV::Inline(s.specified_values)
    };
    let b0 = BoxV { dimensions: spec_zero_dims(), box_type: kind, children: Seq::<BoxV>::empty() };
    lemma_build_children_keeps_kind(s.children, b0);
}

/// Attaching children never changes the box's own kind.
proof fn lemma_build_children_keeps_kind(cs: Seq<StyledV>, b: BoxV)
    ensures
        spec_build_children(cs, b).box_type == b.box_type,
    decreases cs, 3int,
{
    if cs.len() > 0 {
        let d = spec_display(cs[0].specified_values);
        if d == Display::Block {
            let b2 = BoxV {
                dimensions: b.dimensions,
                box_type: b.box_type,
                children: b.children.push(spec_build(cs[0])),
            };
            lemma_build_children_keeps_kind(cs.drop_first(), b2);
        } else if d == Display::Inline {
            lemma_build_children_keeps_kind(cs.drop_first(), spec_push_inline(b, spec_build(cs[0])));
        } else {
            lemma_build_children_keeps_kind(cs.drop_first(), b);
        }
    }
}

proof fn lemma_build_children_no_adjacent(cs: Seq<StyledV>, b: BoxV)
    requires
        no_adjacent_anonymous(b.children),
    ensures
        no_adjacent_anonymous(spec_build_children(cs, b).children),
    decreases cs, 3int,
{
    if cs.len() > 0 {
        let d = spec_display(cs[0].specified_values);
        if d == Display::Block {
            let built = spec_build(cs[0]);
            lemma_build_not_anonymous(cs[0]);
            let b2 = BoxV {
                dimensions: b.dimensions,
                box_type: b.box_type,
                children: b.children.push(built),
            };
            assert forall|i: int| 0 <= i < b2.children.len() - 1 implies !((
            #[trigger] b2.children[i].box_type) is Anonymous && b2.children[i + 1].box_type
                is Anonymous) by {
                assert(b2.children[i] == b.children.push(built)[i]);
                assert(b2.children[i + 1] == b.children.push(built)[i + 1]);
            }
            lemma_build_children_no_adjacent(cs.drop_first(), b2);
        } else if d == Display::Inline {
            lemma_build_not_anonymous(cs[0]);
            lemma_push_inline_no_adjacent(b, spec_build(cs[0]));
            lemma_build_children_no_adjacent(cs.drop_first(), spec_push_inline(b, spec_build(cs[0])));
        } else {
            lemma_build_children_no_adjacent(cs.drop_first(), b);
        }
    }
}

/// Anonymous blocks never stand side by side among a built box's
/// children: consecutive inline content shares one anonymous block.
pub proof fn lemma_no_adjacent_anonymous_blocks(s: StyledV)
    ensures
        no_adjacent_anonymous(spec_build(s).children),
{
    let kind = if spec_display(s.specified_values) == Display::Block {
        BoxKindV::Block(s.specified_values)
    } else {
        BoxKindV::Inline(s.specified_values)
    };
    let b0 = BoxV { dimensions: spec_zero_dims(), box_type: kind, children: Seq::<BoxV>::empty() };
    lemma_build_children_no_adjacent(s.children, b0);
}

} // verus!
