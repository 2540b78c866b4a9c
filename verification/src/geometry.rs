use vstd::prelude::*;

verus! {

/// An integer rectangle in screen pixels: origin, width and height.
#[derive(Clone, Copy, Debug, PartialEq, Eq, Structural)]
pub struct PixelRect {
    pub x: i32,
    pub y: i32,
    pub width: i32,
    pub height: i32,
}

impl PixelRect {
    /// The right edge, as a mathematical integer.
    pub open spec fn right_spec(self) -> int {
        self.x + self.width
    }

    /// The bottom edge, as a mathematical integer.
    pub open spec fn bottom_spec(self) -> int {
        self.y + self.height
    }

    pub open spec fn is_empty_spec(self) -> bool {
        self.width <= 0 || self.height <= 0
    }

    pub fn new(x: i32, y: i32, width: i32, height: i32) -> (r: PixelRect)
        ensures
            r == (PixelRect { x, y, width, height }),
    {
        PixelRect { x, y, width, height }
    }

    pub fn x(&self) -> (r: i32)
        ensures
            r == self.x,
    {
        self.x
    }

    pub fn y(&self) -> (r: i32)
        ensures
            r == self.y,
    {
        self.y
    }

    pub fn width(&self) -> (r: i32)
        ensures
            r == self.width,
    {
        self.width
    }

    pub fn height(&self) -> (r: i32)
        ensures
            r == self.height,
    {
        self.height
    }

    /// The right edge `x + width`, widened so that it never overflows.
    pub fn right(&self) -> (r: i64)
        ensures
            r == self.right_spec(),
    {
        self.x as i64 + self.width as i64
    }

    /// The bottom edge `y + height`, widened so that it never overflows.
    pub fn bottom(&self) -> (r: i64)
        ensures
            r == self.bottom_spec(),
    {
        self.y as i64 + self.height as i64
    }

    /// A rectangle with no area.
    pub fn is_empty(&self) -> (r: bool)
        ensures
            r == self.is_empty_spec(),
    {
        self.width <= 0 || self.height <= 0
    }
}

pub open spec fn max_int(a: int, b: int) -> int {
    if a >= b { a } else { b }
}

pub open spec fn min_int(a: int, b: int) -> int {
    if a <= b { a } else { b }
}

/// Whether `rect` lies wholly outside `bounds` (touching edges count as outside).
pub open spec fn disjoint_spec(rect: PixelRect, bounds: PixelRect) -> bool {
    ||| rect.x >= bounds.right_spec()
    ||| rect.y >= bounds.bottom_spec()
    ||| rect.right_spec() <= bounds.x
    ||| rect.bottom_spec() <= bounds.y
}

/// The part of `rect` inside `bounds`, or `None` when nothing of it is inside.
pub open spec fn clip_spec(rect: PixelRect, bounds: PixelRect) -> Option<PixelRect> {
    if disjoint_spec(rect, bounds) {
        None
    } else {
        let x = max_int(rect.x as int, bounds.x as int);
        let y = max_int(rect.y as int, bounds.y as int);
        let right = min_int(rect.right_spec(), bounds.right_spec());
        let bottom = min_int(rect.bottom_spec(), bounds.bottom_spec());
        Some(
            PixelRect {
                x: x as i32,
                y: y as i32,
                width: (right - x) as i32,
                height: (bottom - y) as i32,
            },
        )
    }
}

/// Clip `rect` to `bounds`. Returns `None` if `rect` is fully outside.
pub fn clip_to_bounds(rect: PixelRect, bounds: PixelRect) -> (r: Option<PixelRect>)
    ensures
        r == clip_spec(rect, bounds),
{
    if rect.x() as i64 >= bounds.right() || rect.y() as i64 >= bounds.bottom() || rect.right()
        <= bounds.x() as i64 || rect.bottom() <= bounds.y() as i64 {
        return None;
    }
    let x: i32 = if rect.x >= bounds.x {
        rect.x
    } else {
        bounds.x
    };
    let y: i32 = if rect.y >= bounds.y {
        rect.y
    } else {
        bounds.y
    };
    let right: i64 = if rect.right() <= bounds.right() {
        rect.right()
    } else {
        bounds.right()
    };
    let bottom: i64 = if rect.bottom() <= bounds.bottom() {
        rect.bottom()
    } else {
        bounds.bottom()
    };
    let width: i64 = right - x as i64;
    let height: i64 = bottom - y as i64;
    assert(i32::MIN <= width <= i32::MAX);
    assert(i32::MIN <= height <= i32::MAX);
    Some(PixelRect { x, y, width: width as i32, height: height as i32 })
}

/// The area two rectangles have in common, zero when they do not overlap.
pub open spec fn overlap_area_spec(a: PixelRect, b: PixelRect) -> int {
    let w = min_int(a.right_spec(), b.right_spec()) - max_int(a.x as int, b.x as int);
    let h = min_int(a.bottom_spec(), b.bottom_spec()) - max_int(a.y as int, b.y as int);
    max_int(w, 0) * max_int(h, 0)
}

/// The area `a` and `b` have in common.
pub fn overlap_area(a: PixelRect, b: PixelRect) -> (r: i128)
    ensures
        r == overlap_area_spec(a, b),
        r >= 0,
{
    let x1: i64 = if a.x >= b.x { a.x as i64 } else { b.x as i64 };
    let y1: i64 = if a.y >= b.y { a.y as i64 } else { b.y as i64 };
    let x2: i64 = if a.right() <= b.right() { a.right() } else { b.right() };
    let y2: i64 = if a.bottom() <= b.bottom() { a.bottom() } else { b.bottom() };
    let w: i64 = if x2 - x1 > 0 { x2 - x1 } else { 0 };
    let h: i64 = if y2 - y1 > 0 { y2 - y1 } else { 0 };
    assert(0 <= w <= 0x2_0000_0000);
    assert(0 <= h <= 0x2_0000_0000);
    assert(0 <= w * h <= 0x4_0000_0000_0000_0000) by (nonlinear_arith)
        requires
            0 <= w <= 0x2_0000_0000,
            0 <= h <= 0x2_0000_0000,
    ;
    (w as i128) * (h as i128)
}

/// The top strip, `tab_bar_height` tall, of a tabbed container's frame,
/// where its tab bar is drawn.
pub fn tab_bar_dimension(container_frame: PixelRect, tab_bar_height: i32) -> (r: PixelRect)
    ensures
        r == (PixelRect {
            x: container_frame.x,
            y: container_frame.y,
            width: container_frame.width,
            height: tab_bar_height,
        }),
{
    PixelRect {
        x: container_frame.x,
        y: container_frame.y,
        width: container_frame.width,
        height: tab_bar_height,
    }
}

/// Whether `dim` lies entirely outside `screen`: wholly to one side of it,
/// touching edges included.
pub open spec fn completely_offscreen_spec(dim: PixelRect, screen: PixelRect) -> bool {
    ||| dim.right_spec() <= screen.x
    ||| dim.x >= screen.right_spec()
    ||| dim.bottom_spec() <= screen.y
    ||| dim.y >= screen.bottom_spec()
}

/// Whether a window at `dim` cannot be seen at all on `screen`.
pub fn is_completely_offscreen(dim: PixelRect, screen: PixelRect) -> (r: bool)
    ensures
        r == completely_offscreen_spec(dim, screen),
{
    dim.right() <= screen.x as i64 || dim.x as i64 >= screen.right() || dim.bottom() <= screen.y as i64
        || dim.y as i64 >= screen.bottom()
}

/// Clipping keeps a rectangle inside the bounds: for non-empty rectangles,
/// every clip is non-empty and lies within both `bounds` and `rect`, and
/// there is no clip exactly when the two do not overlap.
pub proof fn lemma_clip_within(rect: PixelRect, bounds: PixelRect)
    requires
        !rect.is_empty_spec(),
        !bounds.is_empty_spec(),
    ensures
        clip_spec(rect, bounds) matches Some(c) ==> {
            &&& bounds.x <= c.x
            &&& bounds.y <= c.y
            &&& c.right_spec() <= bounds.right_spec()
            &&& c.bottom_spec() <= bounds.bottom_spec()
            &&& rect.x <= c.x
            &&& rect.y <= c.y
            &&& c.right_spec() <= rect.right_spec()
            &&& c.bottom_spec() <= rect.bottom_spec()
            &&& c.width > 0
            &&& c.height > 0
        },
        clip_spec(rect, bounds) is None <==> disjoint_spec(rect, bounds),
{
    lemma_clip_fields(rect, bounds);
}

/// The fields of a clip, before narrowing, already fit in `i32`.
proof fn lemma_clip_fields(rect: PixelRect, bounds: PixelRect)
    ensures
        !disjoint_spec(rect, bounds) ==> {
            let x = max_int(rect.x as int, bounds.x as int);
            let y = max_int(rect.y as int, bounds.y as int);
            let right = min_int(rect.right_spec(), bounds.right_spec());
            let bottom = min_int(rect.bottom_spec(), bounds.bottom_spec());
            &&& i32::MIN <= right - x <= i32::MAX
            &&& i32::MIN <= bottom - y <= i32::MAX
            &&& (rect.width > 0 && bounds.width > 0 ==> right - x > 0)
            &&& (rect.height > 0 && bounds.height > 0 ==> bottom - y > 0)
            &&& clip_spec(rect, bounds) == Some(
                PixelRect {
                    x: x as i32,
                    y: y as i32,
                    width: (right - x) as i32,
                    height: (bottom - y) as i32,
                },
            )
            &&& clip_spec(rect, bounds).unwrap().x == x
            &&& clip_spec(rect, bounds).unwrap().y == y
            &&& clip_spec(rect, bounds).unwrap().width == right - x
            &&& clip_spec(rect, bounds).unwrap().height == bottom - y
        },
{
}

/// Clipping twice to the same bounds changes nothing more than clipping once.
pub proof fn lemma_clip_idempotent(rect: PixelRect, bounds: PixelRect)
    requires
        !rect.is_empty_spec(),
        !bounds.is_empty_spec(),
    ensures
        clip_spec(rect, bounds) matches Some(c) ==> clip_spec(c, bounds) == Some(c),
{
    lemma_clip_fields(rect, bounds);
    if let Some(c) = clip_spec(rect, bounds) {
        lemma_clip_fields(c, bounds);
    }
}

/// A rectangle already inside the bounds comes back unchanged.
pub proof fn lemma_clip_inside_is_identity(rect: PixelRect, bounds: PixelRect)
    requires
        bounds.x <= rect.x,
        bounds.y <= rect.y,
        rect.right_spec() <= bounds.right_spec(),
        rect.bottom_spec() <= bounds.bottom_spec(),
        !rect.is_empty_spec(),
    ensures
        clip_spec(rect, bounds) == Some(rect),
{
    lemma_clip_fields(rect, bounds);
}

/// A window is completely offscreen exactly when clipping it to the screen
/// leaves nothing of it.
pub proof fn law_offscreen_means_nothing_to_clip(dim: PixelRect, screen: PixelRect)
    ensures
        completely_offscreen_spec(dim, screen) <==> clip_spec(dim, screen) is None,
{
}

} // verus!
