//! When the pointer leaves the screen for the peer's.
use crate::proto::{Edge, ScreenInfo};
use vstd::prelude::*;

verus! {

/// The width of the dead zone at the corners unless another is set.
pub const DEAD_ZONE_PX: u32 = 50;

/// A 32-bit number read as a signed one.
pub open spec fn signed(v: u32) -> int {
    if v <= i32::MAX {
        v as int
    } else {
        v - 0x1_0000_0000
    }
}

/// Reads a 32-bit number as a signed one.
pub fn to_signed(v: u32) -> (r: i32)
    ensures
        r == signed(v),
{
    if v <= 0x7fff_ffff {
        v as i32
    } else {
        (v - 0x8000_0000) as i32 + i32::MIN
    }
}

/// Whether a number fits in 32 bits with a sign.
pub open spec fn fits_i32(v: int) -> bool {
    i32::MIN <= v <= i32::MAX
}

#[derive(Debug, Clone, Copy)]
pub struct EdgeDetector {
    screen: ScreenInfo,
    target_edge: Edge,
    dead_zone: u32,
}

#[derive(Debug, Clone, Copy, PartialEq, Eq, Structural)]
pub enum EdgeHit {
    Miss,
    Triggered(Edge),
}

/// Whether a point lies in one of the four corners of a screen of the given
/// size, that is within `dz` of two of its sides.
pub open spec fn corner(w: int, h: int, dz: int, x: int, y: int) -> bool {
    (y < dz || y > h - dz) && (x < dz || x > w - dz)
}

/// Whether a point lies on (or past) the given side of the screen.
pub open spec fn on_side(w: int, h: int, edge: Edge, x: int, y: int) -> bool {
    match edge {
        Edge::Right => x >= w - 1,
        Edge::Left => x <= 0,
        Edge::Top => y <= 0,
        Edge::Bottom => y >= h - 1,
    }
}

impl EdgeDetector {
    pub closed spec fn screen(&self) -> ScreenInfo {
        self.screen
    }

    pub closed spec fn target(&self) -> Edge {
        self.target_edge
    }

    pub closed spec fn zone(&self) -> u32 {
        self.dead_zone
    }

    /// Whether a point lies in a corner, where nothing triggers.
    pub open spec fn corner_at(&self, x: i32, y: i32) -> bool {
        corner(
            signed(self.screen().width),
            signed(self.screen().height),
            signed(self.zone()),
            x as int,
            y as int,
        )
    }

    /// Whether a point is where the focus passes to the peer.
    pub open spec fn triggers(&self, x: i32, y: i32) -> bool {
        !self.corner_at(x, y) && on_side(
            signed(self.screen().width),
            signed(self.screen().height),
            self.target(),
            x as int,
            y as int,
        )
    }

    /// Whether the borders of the dead zones can be computed in 32 bits.
    pub open spec fn zone_fits(&self) -> bool {
        &&& fits_i32(signed(self.screen().width) - signed(self.zone()))
        &&& fits_i32(signed(self.screen().height) - signed(self.zone()))
    }

    /// Whether a point can be checked with 32-bit arithmetic.
    pub open spec fn check_fits(&self, x: i32, y: i32) -> bool {
        &&& self.zone_fits()
        &&& !self.corner_at(x, y) && self.target() is Right ==> fits_i32(
            signed(self.screen().width) - 1,
        )
        &&& !self.corner_at(x, y) && self.target() is Bottom ==> fits_i32(
            signed(self.screen().height) - 1,
        )
    }

    pub fn new(screen: ScreenInfo, target_edge: Edge) -> (r: Self)
        ensures
            r.screen() == screen,
            r.target() == target_edge,
            r.zone() == DEAD_ZONE_PX,
    {
        EdgeDetector { screen, target_edge, dead_zone: DEAD_ZONE_PX }
    }

    pub fn with_dead_zone(self, px: u32) -> (r: Self)
        ensures
            r.screen() == self.screen(),
            r.target() == self.target(),
            r.zone() == px,
    {
        EdgeDetector { screen: self.screen, target_edge: self.target_edge, dead_zone: px }
    }

    /// The screen that the detector watches.
    pub fn screen_info(&self) -> (r: ScreenInfo)
        ensures
            r == self.screen(),
    {
        self.screen
    }

    /// Whether the borders of the dead zones can be computed.
    pub fn can_check(&self) -> (r: bool)
        ensures
            r == self.zone_fits(),
    {
        let dz = to_signed(self.dead_zone);
        to_signed(self.screen.width).checked_sub(dz).is_some() && to_signed(
            self.screen.height,
        ).checked_sub(dz).is_some()
    }

    /// Whether the pointer at the given point passes to the peer.
    pub fn check(&self, x: i32, y: i32) -> (r: EdgeHit)
        requires
            self.check_fits(x, y),
        ensures
            r == (if self.triggers(x, y) {
                EdgeHit::Triggered(self.target())
            } else {
                EdgeHit::Miss
            }),
    {
        // No trigger in the corners.
        if self.in_corner(x, y) {
            return EdgeHit::Miss;
        }
        let hit = match self.target_edge {
            Edge::Right => x >= to_signed(self.screen.width) - 1,
            Edge::Left => x <= 0,
            Edge::Top => y <= 0,
            Edge::Bottom => y >= to_signed(self.screen.height) - 1,
        };
        if hit {
            EdgeHit::Triggered(self.target_edge)
        } else {
            EdgeHit::Miss
        }
    }

    fn in_corner(&self, x: i32, y: i32) -> (r: bool)
        requires
            self.zone_fits(),
        ensures
            r == self.corner_at(x, y),
    {
        let w = to_signed(self.screen.width);
        let h = to_signed(self.screen.height);
        let dz = to_signed(self.dead_zone);

        let in_top = y < dz;
        let in_bottom = y > h - dz;
        let in_left = x < dz;
        let in_right = x > w - dz;

        (in_top || in_bottom) && (in_left || in_right)
    }
}

/// Nothing triggers in a corner, whichever edge leads to the peer.
pub proof fn corners_never_trigger(d: EdgeDetector, x: i32, y: i32)
    requires
        d.corner_at(x, y),
    ensures
        !d.triggers(x, y),
{
}

/// A trigger on a screen point lies on the border of the screen.
pub proof fn triggers_lie_on_the_border(d: EdgeDetector, x: i32, y: i32)
    requires
        0 <= x < signed(d.screen().width),
        0 <= y < signed(d.screen().height),
        d.triggers(x, y),
    ensures
        x == 0 || y == 0 || x == signed(d.screen().width) - 1 || y == signed(d.screen().height) - 1,
{
}

/// Reading a number as a signed one keeps its bits: it differs by a multiple of
/// `2^32`, and fits.
pub proof fn signed_keeps_the_bits(v: u32)
    ensures
        fits_i32(signed(v)),
        signed(v) == v || signed(v) == v - 0x1_0000_0000,
        v < 0x8000_0000 ==> signed(v) == v,
        v >= 0x8000_0000 ==> signed(v) < 0,
{
}

/// What fits in 32 bits with a sign are the numbers from `-2^31` to `2^31 - 1`.
pub proof fn fitting_numbers(v: int)
    ensures
        fits_i32(v) <==> -0x8000_0000 <= v <= 0x7fff_ffff,
{
}

/// On the screen, the focus passes on the border at the peer's edge, and nowhere
/// else, but for its ends: those that lie within the dead zones of the two sides
/// that meet there.
pub proof fn each_edge_triggers_between_its_corners(d: EdgeDetector, x: i32, y: i32)
    requires
        0 <= x < signed(d.screen().width),
        0 <= y < signed(d.screen().height),
        2 <= signed(d.zone()),
    ensures
        ({
            let w = signed(d.screen().width);
            let h = signed(d.screen().height);
            let dz = signed(d.zone());
            d.triggers(x, y) <==> match d.target() {
                Edge::Left => x == 0 && dz <= y <= h - dz,
                Edge::Right => x == w - 1 && dz <= y <= h - dz,
                Edge::Top => y == 0 && dz <= x <= w - dz,
                Edge::Bottom => y == h - 1 && dz <= x <= w - dz,
            }
        }),
{
}

/// A point near one side only, or near none, is in no corner; one near two sides
/// that meet is.
pub proof fn corners_are_where_sides_meet(w: int, h: int, dz: int, x: int, y: int)
    ensures
        dz <= x <= w - dz ==> !corner(w, h, dz, x, y),
        dz <= y <= h - dz ==> !corner(w, h, dz, x, y),
        x < dz && y < dz ==> corner(w, h, dz, x, y),
        x < dz && y > h - dz ==> corner(w, h, dz, x, y),
        x > w - dz && y < dz ==> corner(w, h, dz, x, y),
        x > w - dz && y > h - dz ==> corner(w, h, dz, x, y),
{
}

/// Every point can be checked on a screen that has points and a dead zone that is
/// no wider than the numbers.
pub proof fn usable_screens_can_be_checked(d: EdgeDetector, x: i32, y: i32)
    requires
        1 <= d.screen().width <= 0x7fff_ffff,
        1 <= d.screen().height <= 0x7fff_ffff,
        d.zone() <= 0x7fff_ffff,
    ensures
        d.zone_fits(),
        d.check_fits(x, y),
{
}

/// A point is on a side if it is no point of the screen or the last one before it,
/// going that way; going on does not leave the side, nor does going along it.
pub proof fn sides_begin_at_the_last_point(w: int, h: int, x: int, y: int, n: nat, along: int)
    ensures
        on_side(w, h, Edge::Right, x, y) <==> x + 1 >= w,
        on_side(w, h, Edge::Left, x, y) <==> x - 1 < 0,
        on_side(w, h, Edge::Bottom, x, y) <==> y + 1 >= h,
        on_side(w, h, Edge::Top, x, y) <==> y - 1 < 0,
        on_side(w, h, Edge::Right, x, y) ==> on_side(w, h, Edge::Right, x + n, along),
        on_side(w, h, Edge::Left, x, y) ==> on_side(w, h, Edge::Left, x - n, along),
        on_side(w, h, Edge::Bottom, x, y) ==> on_side(w, h, Edge::Bottom, along, y + n),
        on_side(w, h, Edge::Top, x, y) ==> on_side(w, h, Edge::Top, along, y - n),
{
}

/// Mirrored left to right, a point is on the other side of the two.
pub proof fn sides_are_mirrored(w: int, h: int, x: int, y: int)
    ensures
        on_side(w, h, Edge::Left, x, y) <==> on_side(w, h, Edge::Right, w - 1 - x, y),
        on_side(w, h, Edge::Top, x, y) <==> on_side(w, h, Edge::Bottom, x, h - 1 - y),
        on_side(w, h, Edge::Left, x, y) <==> on_side(h, w, Edge::Top, y, x),
        on_side(w, h, Edge::Right, x, y) <==> on_side(h, w, Edge::Bottom, y, x),
{
}

/// Where the borders of the dead zones can be computed, every point can be checked,
/// unless the last point of the peer's side cannot: that is where the number of
/// points is `2^31`, and the corners do not decide.
pub proof fn points_that_can_be_checked(d: EdgeDetector, x: i32, y: i32)
    requires
        d.zone_fits(),
    ensures
        !d.check_fits(x, y) <==> !d.corner_at(x, y) && ((d.target() is Right && d.screen().width
            == 0x8000_0000) || (d.target() is Bottom && d.screen().height == 0x8000_0000)),
{
}

/// The borders of the dead zones can be computed exactly if both differences fit.
pub proof fn dead_zones_that_can_be_computed(d: EdgeDetector)
    ensures
        d.zone_fits() <==> -0x8000_0000 <= signed(d.screen().width) - signed(d.zone())
            <= 0x7fff_ffff && -0x8000_0000 <= signed(d.screen().height) - signed(d.zone())
            <= 0x7fff_ffff,
        DEAD_ZONE_PX == 50,
{
}

/// The focus passes on the peer's side outside the corners, wherever the point is.
pub proof fn triggers_are_on_the_side_of_the_peer(d: EdgeDetector, x: i32, y: i32)
    ensures
        d.triggers(x, y) ==> on_side(
            signed(d.screen().width),
            signed(d.screen().height),
            d.target(),
            x as int,
            y as int,
        ),
        !d.corner_at(x, y) && on_side(
            signed(d.screen().width),
            signed(d.screen().height),
            d.target(),
            x as int,
            y as int,
        ) ==> d.triggers(x, y),
        d.corner_at(x, y) <==> corner(
            signed(d.screen().width),
            signed(d.screen().height),
            signed(d.zone()),
            x as int,
            y as int,
        ),
{
}

} // verus!
