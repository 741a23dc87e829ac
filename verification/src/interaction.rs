//! Plain data shared with the interactive canvas glue: geometric helper
//! types, resize handles, flip state, and chat messages.

use vstd::prelude::*;

verus! {

use crate::fixed::{fx_ok, fx_clamp, fx_add, fx_half};

/// A 2D point, in fixed-point coordinates.
#[derive(Clone, Copy, Debug, PartialEq, Eq, Structural)]
pub struct Point {
    pub x: i64,
    pub y: i64,
}

impl Point {
    pub fn new(x: i64, y: i64) -> (p: Point)
        ensures
            p == (Point { x, y }),
    {
        Point { x, y }
    }

    pub fn zero() -> (p: Point)
        ensures
            p == (Point { x: 0, y: 0 }),
    {
        Point { x: 0, y: 0 }
    }
}

/// A width and height, in fixed-point coordinates.
#[derive(Clone, Copy, Debug, PartialEq, Eq, Structural)]
pub struct Dimensions {
    pub width: i64,
    pub height: i64,
}

impl Dimensions {
    pub fn new(width: i64, height: i64) -> (d: Dimensions)
        ensures
            d == (Dimensions { width, height }),
    {
        Dimensions { width, height }
    }
}

/// An axis-aligned box given by its corner and size.
#[derive(Clone, Copy, Debug, PartialEq, Eq, Structural)]
pub struct BoundingBox {
    pub x: i64,
    pub y: i64,
    pub width: i64,
    pub height: i64,
}

/// All fields of a bounding box are representable and its size is
/// nonnegative.
pub open spec fn bounding_box_ok(b: BoundingBox) -> bool {
    fx_ok(b.x as int) && fx_ok(b.y as int) && 0 <= b.width <= crate::fixed::FX_MAX && 0 <= b.height
        <= crate::fixed::FX_MAX
}

impl BoundingBox {
    pub fn new(x: i64, y: i64, width: i64, height: i64) -> (b: BoundingBox)
        ensures
            b == (BoundingBox { x, y, width, height }),
    {
        BoundingBox { x, y, width, height }
    }

    pub fn from_points_and_dimensions(point: Point, dimensions: Dimensions) -> (b: BoundingBox)
        ensures
            b == (BoundingBox {
                x: point.x,
                y: point.y,
                width: dimensions.width,
                height: dimensions.height,
            }),
    {
        BoundingBox { x: point.x, y: point.y, width: dimensions.width, height: dimensions.height }
    }
}

/// The direction of a snap guideline.
#[derive(Clone, Copy, Debug, PartialEq, Eq, Structural)]
pub enum GuidelineType {
    Vertical,
    Horizontal,
}

/// A snap guideline: a line at `pos` spanning `start..end` on the other
/// axis.
#[derive(Clone, Copy, Debug, PartialEq, Eq, Structural)]
pub struct Guideline {
    pub guideline_type: GuidelineType,
    pub pos: i64,
    pub start: i64,
    pub end: i64,
}

impl Guideline {
    pub fn new(guideline_type: GuidelineType, pos: i64, start: i64, end: i64) -> (g: Guideline)
        ensures
            g == (Guideline { guideline_type, pos, start, end }),
    {
        Guideline { guideline_type, pos, start, end }
    }
}

/// A pending resize: new size and the fixed anchor point.
#[derive(Clone, Copy, Debug, PartialEq, Eq, Structural)]
pub struct ResizeTransform {
    pub width: i64,
    pub height: i64,
    pub anchor_x: i64,
    pub anchor_y: i64,
}

/// A marquee selection being dragged out.
#[derive(Clone, Copy, Debug, PartialEq, Eq, Structural)]
pub struct SelectionRect {
    pub start: Point,
    pub current: Point,
}

impl SelectionRect {
    pub fn new(start: Point, current: Point) -> (r: SelectionRect)
        ensures
            r == (SelectionRect { start, current }),
    {
        SelectionRect { start, current }
    }

    /// The dragged rectangle as a corner-and-size box, whatever the drag
    /// direction.
    pub fn to_bounding_box(&self) -> (b: BoundingBox)
        requires
            fx_ok(self.start.x as int),
            fx_ok(self.start.y as int),
            fx_ok(self.current.x as int),
            fx_ok(self.current.y as int),
        ensures
            b.x == if self.start.x <= self.current.x {
                self.start.x as int
            } else {
                self.current.x as int
            },
            b.y == if self.start.y <= self.current.y {
                self.start.y as int
            } else {
                self.current.y as int
            },
            b.width == fx_clamp(if self.current.x >= self.start.x {
                self.current.x - self.start.x
            } else {
                self.start.x - self.current.x
            }),
            b.height == fx_clamp(if self.current.y >= self.start.y {
                self.current.y - self.start.y
            } else {
                self.start.y - self.current.y
            }),
    {
        let x = crate::fixed::fx_min(self.start.x, self.current.x);
        let y = crate::fixed::fx_min(self.start.y, self.current.y);
        let width = if self.current.x >= self.start.x {
            crate::fixed::fx_sub(self.current.x, self.start.x)
        } else {
            crate::fixed::fx_sub(self.start.x, self.current.x)
        };
        let height = if self.current.y >= self.start.y {
            crate::fixed::fx_sub(self.current.y, self.start.y)
        } else {
            crate::fixed::fx_sub(self.start.y, self.current.y)
        };
        BoundingBox { x, y, width, height }
    }
}

/// One of the eight resize handles around a selection.
#[derive(Clone, Copy, Debug, PartialEq, Eq, Structural)]
pub enum HandleName {
    Right,
    Bottom,
    Left,
    Top,
    BottomRight,
    BottomLeft,
    TopRight,
    TopLeft,
}

impl HandleName {
    /// The handle's name in kebab case, for style hooks.
    pub fn to_kebab_case(&self) -> (r: &'static str)
        ensures
            r@ == match *self {
                HandleName::Right => "right"@,
                HandleName::Bottom => "bottom"@,
                HandleName::Left => "left"@,
                HandleName::Top => "top"@,
                HandleName::BottomRight => "bottom-right"@,
                HandleName::BottomLeft => "bottom-left"@,
                HandleName::TopRight => "top-right"@,
                HandleName::TopLeft => "top-left"@,
            },
    {
        match self {
            HandleName::Right => "right",
            HandleName::Bottom => "bottom",
            HandleName::Left => "left",
            HandleName::Top => "top",
            HandleName::BottomRight => "bottom-right",
            HandleName::BottomLeft => "bottom-left",
            HandleName::TopRight => "top-right",
            HandleName::TopLeft => "top-left",
        }
    }

    /// The mouse cursor to show over the handle.
    pub fn cursor(&self) -> (r: &'static str)
        ensures
            r@ == match *self {
                HandleName::Right | HandleName::Left => "ew-resize"@,
                HandleName::Top | HandleName::Bottom => "ns-resize"@,
                HandleName::TopLeft | HandleName::BottomRight => "nwse-resize"@,
                HandleName::TopRight | HandleName::BottomLeft => "nesw-resize"@,
            },
    {
        match self {
            HandleName::Right => "ew-resize",
            HandleName::Left => "ew-resize",
            HandleName::Top => "ns-resize",
            HandleName::Bottom => "ns-resize",
            HandleName::TopLeft => "nwse-resize",
            HandleName::BottomRight => "nwse-resize",
            HandleName::TopRight => "nesw-resize",
            HandleName::BottomLeft => "nesw-resize",
        }
    }

    /// Whether the handle sits on a corner.
    pub fn is_corner(&self) -> (r: bool)
        ensures
            r == (*self is TopLeft || *self is TopRight || *self is BottomLeft
                || *self is BottomRight),
    {
        match self {
            HandleName::TopLeft | HandleName::TopRight | HandleName::BottomLeft
                | HandleName::BottomRight => true,
            _ => false,
        }
    }

    /// Where the handle sits on a bounding box.
    pub fn calc_position(&self, bbox: &BoundingBox) -> (p: Point)
        requires
            bounding_box_ok(*bbox),
        ensures
            p.x == match *self {
                HandleName::Left | HandleName::TopLeft | HandleName::BottomLeft => bbox.x as int,
                HandleName::Top | HandleName::Bottom => fx_clamp(bbox.x + bbox.width / 2),
                _ => fx_clamp(bbox.x + bbox.width),
            },
            p.y == match *self {
                HandleName::Top | HandleName::TopLeft | HandleName::TopRight => bbox.y as int,
                HandleName::Left | HandleName::Right => fx_clamp(bbox.y + bbox.height / 2),
                _ => fx_clamp(bbox.y + bbox.height),
            },
    {
        let right = fx_add(bbox.x, bbox.width);
        let bottom = fx_add(bbox.y, bbox.height);
        let cx = fx_add(bbox.x, fx_half(bbox.width));
        let cy = fx_add(bbox.y, fx_half(bbox.height));
        match self {
            HandleName::Right => Point { x: right, y: cy },
            HandleName::Left => Point { x: bbox.x, y: cy },
            HandleName::Top => Point { x: cx, y: bbox.y },
            HandleName::Bottom => Point { x: cx, y: bottom },
            HandleName::TopLeft => Point { x: bbox.x, y: bbox.y },
            HandleName::TopRight => Point { x: right, y: bbox.y },
            HandleName::BottomLeft => Point { x: bbox.x, y: bottom },
            HandleName::BottomRight => Point { x: right, y: bottom },
        }
    }
}

/// Whether a selection has been mirrored on either axis while resizing.
#[derive(Clone, Copy, Debug, PartialEq, Eq, Structural)]
pub struct FlipState {
    pub x: bool,
    pub y: bool,
}

impl FlipState {
    pub fn new(x: bool, y: bool) -> (f: FlipState)
        ensures
            f == (FlipState { x, y }),
    {
        FlipState { x, y }
    }

    /// No mirroring on either axis.
    pub fn none() -> (f: FlipState)
        ensures
            f == (FlipState { x: false, y: false }),
    {
        FlipState { x: false, y: false }
    }
}

/// One chat message: who said it and what was said.
#[derive(Clone, Debug, PartialEq)]
pub struct Message {
    pub role: String,
    pub content: String,
}

impl Message {
    pub fn new(role: String, content: String) -> (m: Message)
        ensures
            m.role@ == role@,
            m.content@ == content@,
    {
        Message { role, content }
    }

    /// A message from the person at the keyboard.
    pub fn user(content: String) -> (m: Message)
        ensures
            m.role@ == "user"@,
            m.content@ == content@,
    {
        let mut role = String::new();
        crate::text::push_char(&mut role, 'u');
        crate::text::push_char(&mut role, 's');
        crate::text::push_char(&mut role, 'e');
        crate::text::push_char(&mut role, 'r');
        proof {
            reveal_strlit("user");
            assert(role@ =~= "user"@);
        }
        Message { role, content }
    }

    /// A message from the assistant on the other side of the chat.
    pub fn assistant(content: String) -> (m: Message)
        ensures
            m.role@ == "assistant"@,
            m.content@ == content@,
    {
        let mut role = String::new();
        crate::text::push_char(&mut role, 'a');
        crate::text::push_char(&mut role, 's');
        crate::text::push_char(&mut role, 's');
        crate::text::push_char(&mut role, 'i');
        crate::text::push_char(&mut role, 's');
        crate::text::push_char(&mut role, 't');
        crate::text::push_char(&mut role, 'a');
        crate::text::push_char(&mut role, 'n');
        crate::text::push_char(&mut role, 't');
        proof {
            reveal_strlit("assistant");
            assert(role@ =~= "assistant"@);
        }
        Message { role, content }
    }
}

/// Which side panel is showing.
#[derive(Clone, Copy, Debug, PartialEq, Eq, Structural)]
pub enum ActiveTab {
    Design,
    Chat,
}

} // verus!
