//! The messages that two machines exchange, and the values they are made of.
use vstd::prelude::*;

verus! {

pub const PROTOCOL_VERSION: u32 = 1;

pub const DEFAULT_PORT: u16 = 4242;

pub const MAX_FRAME_SIZE: usize = 1200;

pub const MDNS_SERVICE_TYPE: &'static str = "_kmflow._udp.local.";

/// The number of parts that a pixel or wheel step is divided into.
pub const DELTA_UNIT: i128 = 0x1_0000_0000;

/// The number nearest to `v` between `lo` and `hi`.
pub open spec fn clamped(v: int, lo: int, hi: int) -> int {
    if v < lo {
        lo
    } else if v > hi {
        hi
    } else {
        v
    }
}

/// The distance between neighbouring numbers of 53 significant bits where `v`
/// lies, for a whole number `v`.
pub open spec fn spacing(v: int) -> int
    decreases v,
{
    if v < 0x20_0000_0000_0000 {
        1
    } else {
        2 * spacing(v / 2)
    }
}

/// The number of 53 significant bits that is nearest to `v`, which is not
/// negative; between two that are equally near, the even one.
pub open spec fn nearest_double(v: int) -> int {
    let step = spacing(v);
    let below = v / step;
    let rest = v % step;
    if 2 * rest < step || (2 * rest == step && below % 2 == 0) {
        below * step
    } else {
        (below + 1) * step
    }
}

/// [`nearest_double`] for numbers of either sign.
pub open spec fn rounded(v: int) -> int {
    if v < 0 {
        -nearest_double(-v)
    } else {
        nearest_double(v)
    }
}

proof fn spacing_halves(v: int, step: int, rest: int)
    requires
        v >= 0,
        step > 0,
        step * spacing(rest) == spacing(v),
        rest >= 0x20_0000_0000_0000,
    ensures
        (2 * step) * spacing(rest / 2) == spacing(v),
{
    let s = spacing(rest / 2);
    assert((2 * step) * s == step * (2 * s)) by (nonlinear_arith);
}

/// The number of 53 significant bits nearest to a number, which is not too large
/// for its neighbours to be held.
fn round_to_double(v: u128) -> (r: u128)
    requires
        v <= 0x10_0000_0000_0000_0000_0000_0000,
    ensures
        r == nearest_double(v as int),
        r <= 2 * v,
{
    let mut step: u128 = 1;
    let mut rest: u128 = v;
    while rest >= 0x20_0000_0000_0000
        invariant
            v <= 0x10_0000_0000_0000_0000_0000_0000,
            step > 0,
            step * spacing(rest as int) == spacing(v as int),
            step * rest <= v,
        decreases rest,
    {
        proof {
            spacing_halves(v as int, step as int, rest as int);
            assert((2 * step) * (rest as int / 2) <= step * rest) by (nonlinear_arith)
                requires
                    step > 0,
            ;
            assert(step <= step * rest) by (nonlinear_arith)
                requires
                    step > 0,
                    rest >= 1,
            ;
        }
        step = step * 2;
        rest = rest / 2;
    }
    assert(step == spacing(v as int));
    let below = v / step;
    let over = v % step;
    proof {
        spacing_fits(v as int);
        vstd::arithmetic::div_mod::lemma_fundamental_div_mod(v as int, step as int);
        assert(below * step <= v) by (nonlinear_arith)
            requires
                v == step * below + over,
                over >= 0,
        ;
        assert((below + 1) * step == below * step + step) by (nonlinear_arith);
    }
    if 2 * over < step || (2 * over == step && below % 2 == 0) {
        below * step
    } else {
        (below + 1) * step
    }
}

/// Rounds a number of either sign to 53 significant bits.
pub fn round(v: i128) -> (r: i128)
    requires
        -0x10_0000_0000_0000_0000_0000_0000 <= v <= 0x10_0000_0000_0000_0000_0000_0000,
    ensures
        r == rounded(v as int),
{
    if v < 0 {
        -(round_to_double((-v) as u128) as i128)
    } else {
        round_to_double(v as u128) as i128
    }
}

proof fn spacing_fits(v: int)
    requires
        v >= 0,
    ensures
        spacing(v) >= 1,
        v >= 1 ==> spacing(v) <= v,
        v >= 0x10_0000_0000_0000 ==> spacing(v) * 0x10_0000_0000_0000 <= v,
        v < spacing(v) * 0x20_0000_0000_0000,
    decreases v,
{
    if v >= 0x20_0000_0000_0000 {
        spacing_fits(v / 2);
    }
}

proof fn spacing_grows(a: int, b: int)
    requires
        0 <= a <= b,
    ensures
        spacing(a) <= spacing(b),
    decreases b,
{
    if a >= 0x20_0000_0000_0000 {
        spacing_grows(a / 2, b / 2);
    } else {
        spacing_fits(b);
    }
}

/// Where neighbouring numbers of 53 significant bits are so far apart that adding
/// a number of 32 bits changes nothing any more.
pub const LARGEST_SUM: i128 = 0x20_0000_0000_0000_0000_0000;

/// Adding a number of 32 bits over and over, rounding each time, never leads
/// beyond [`LARGEST_SUM`].
pub proof fn sums_stay_bounded(sum: int, v: int)
    requires
        -LARGEST_SUM <= sum <= LARGEST_SUM,
        i32::MIN <= v <= i32::MAX,
    ensures
        -LARGEST_SUM <= rounded(sum + v) <= LARGEST_SUM,
{
    let n = if sum + v < 0 {
        -(sum + v)
    } else {
        sum + v
    };
    let step = spacing(n);
    let below = n / step;
    spacing_fits(n);
    vstd::arithmetic::div_mod::lemma_fundamental_div_mod(n, step);
    vstd::arithmetic::div_mod::lemma_mod_bound(n, step);
    assert(below * step <= n < (below + 1) * step) by (nonlinear_arith)
        requires
            n == step * below + n % step,
            0 <= n % step < step,
    ;
    reveal_with_fuel(spacing, 35);
    if n < LARGEST_SUM {
        spacing_grows(n, LARGEST_SUM - 1);
        assert(spacing(LARGEST_SUM - 1) == 0x1_0000_0000);
        assert(below < 0x20_0000_0000_0000) by (nonlinear_arith)
            requires
                below * step <= n,
                n < step * 0x20_0000_0000_0000,
                step > 0,
        ;
        assert((below + 1) * step <= 0x20_0000_0000_0000 * 0x1_0000_0000) by (nonlinear_arith)
            requires
                0 < step <= 0x1_0000_0000,
                below + 1 <= 0x20_0000_0000_0000,
        ;
        assert(below * step <= (below + 1) * step) by (nonlinear_arith)
            requires
                step > 0,
        ;
        assert(below * step >= 0) by (nonlinear_arith)
            requires
                step > 0,
                (below + 1) * step > 0,
        ;
    } else {
        spacing_grows(LARGEST_SUM as int, n);
        spacing_grows(n, 2 * LARGEST_SUM - 1);
        assert(spacing(LARGEST_SUM as int) == 0x2_0000_0000);
        assert(spacing(2 * LARGEST_SUM - 1) == 0x2_0000_0000);
        assert(step == 0x2_0000_0000);
        assert(below * 0x2_0000_0000 <= n < (below + 1) * 0x2_0000_0000);
        assert(below == 0x10_0000_0000_0000);
    }
}

/// A displacement of the pointer or the wheel, in parts of a pixel or step.
///
/// Devices report whole steps or fixed-point numbers with 32 fractional bits;
/// both are held to the precision of a double-precision number.
#[derive(Debug, Clone, Copy, PartialEq, Eq, Structural)]
pub struct Delta {
    pub raw: i128,
}

impl Delta {
    /// The whole part of the displacement, rounded towards zero.
    pub open spec fn whole(self) -> int {
        if self.raw >= 0 {
            self.raw as int / DELTA_UNIT as int
        } else {
            -((-self.raw) / DELTA_UNIT as int)
        }
    }

    /// No displacement.
    pub fn zero() -> (r: Delta)
        ensures
            r.raw == 0,
    {
        Delta { raw: 0 }
    }

    /// A displacement of a whole number of steps.
    pub fn from_whole(v: i128) -> (r: Delta)
        requires
            -LARGEST_SUM <= v <= LARGEST_SUM,
        ensures
            r.raw == v * DELTA_UNIT,
            r.whole() == v,
    {
        Delta { raw: v * DELTA_UNIT }
    }

    /// A displacement given as a fixed-point number: `integral` steps and
    /// `frac` parts of a step, rounded to double precision.
    pub fn from_fixed(integral: i32, frac: u32) -> (r: Delta)
        ensures
            r.raw == rounded(integral * DELTA_UNIT + frac),
    {
        Delta { raw: round(integral as i128 * DELTA_UNIT + frac as i128) }
    }

    /// Whether there is no displacement at all.
    pub fn is_zero(&self) -> (r: bool)
        ensures
            r == (self.raw == 0),
    {
        self.raw == 0
    }

    /// The whole part of the displacement, rounded towards zero.
    pub fn to_whole(&self) -> (r: i128)
        ensures
            r == self.whole(),
            -0x8000_0000_0000_0000_0000_0000 <= r <= 0x8000_0000_0000_0000_0000_0000,
    {
        if self.raw >= 0 {
            self.raw / DELTA_UNIT
        } else if self.raw == i128::MIN {
            -0x8000_0000_0000_0000_0000_0000
        } else {
            -((-self.raw) / DELTA_UNIT)
        }
    }

    /// The whole part, or the nearest number that fits in 32 bits.
    pub fn to_i32(&self) -> (r: i32)
        ensures
            r == clamped(self.whole(), i32::MIN as int, i32::MAX as int),
    {
        let w = self.to_whole();
        if w < i32::MIN as i128 {
            i32::MIN
        } else if w > i32::MAX as i128 {
            i32::MAX
        } else {
            w as i32
        }
    }

    /// The whole part of the displacement the other way, or the nearest number
    /// that fits in 32 bits.
    pub fn to_i32_reversed(&self) -> (r: i32)
        ensures
            r == clamped(-self.whole(), i32::MIN as int, i32::MAX as int),
    {
        let w = -self.to_whole();
        if w < i32::MIN as i128 {
            i32::MIN
        } else if w > i32::MAX as i128 {
            i32::MAX
        } else {
            w as i32
        }
    }

    /// The whole part, or the nearest number that fits in 16 bits.
    pub fn to_i16(&self) -> (r: i16)
        ensures
            r == clamped(self.whole(), i16::MIN as int, i16::MAX as int),
    {
        let w = self.to_whole();
        if w < i16::MIN as i128 {
            i16::MIN
        } else if w > i16::MAX as i128 {
            i16::MAX
        } else {
            w as i16
        }
    }
}

/// A number that is carried and shown, never computed with: a double-precision
/// number as its 64 bits.
#[derive(Debug, Clone, Copy, PartialEq, Eq, Structural)]
pub struct Double {
    pub bits: u64,
}

/// The bits of the double-precision number one.
pub const ONE_BITS: u64 = 0x3ff0_0000_0000_0000;

/// The bits of positive infinity, the largest bits of a positive number.
pub const INFINITY_BITS: u64 = 0x7ff0_0000_0000_0000;

#[derive(Debug, Clone)]
pub struct EventFrame {
    pub seq: u32,
    pub timestamp_us: u64,
    pub events: Vec<InputEvent>,
}

#[derive(Debug, Clone, Copy, PartialEq, Eq, Structural)]
#[allow(inconsistent_fields)]
pub enum InputEvent {
    MouseMove { dx: Delta, dy: Delta },
    MouseButton { button: MouseButton, state: ButtonState },
    Scroll { dx: Delta, dy: Delta },
    Key { scancode: u32, state: KeyState },
}

#[derive(Debug, Clone, Copy, PartialEq, Eq, Structural, Hash)]
pub enum MouseButton {
    Left,
    Right,
    Middle,
    Back,
    Forward,
}

#[derive(Debug, Clone, Copy, PartialEq, Eq, Structural)]
pub enum ButtonState {
    Pressed,
    Released,
}

#[derive(Debug, Clone, Copy, PartialEq, Eq, Structural)]
pub enum KeyState {
    Pressed,
    Released,
}

#[derive(Debug, Clone, Copy, PartialEq, Eq, Structural)]
pub struct ScreenInfo {
    pub width: u32,
    pub height: u32,
    pub scale_factor: Double,
    pub position: ScreenPosition,
}

#[derive(Debug, Clone, Copy, PartialEq, Eq, Structural)]
pub struct ScreenPosition {
    pub edge: Edge,
    pub monitor_id: u32,
}

#[derive(Debug, Clone, Copy, PartialEq, Eq, Structural)]
pub enum Edge {
    Left,
    Right,
    Top,
    Bottom,
}

#[derive(Debug, Clone, PartialEq, Eq)]
pub enum ControlCommand {
    Ping { timestamp_us: u64 },
    Pong { echo_timestamp_us: u64 },
    Handshake {
        protocol_version: u32,
        hostname: String,
        screen_info: ScreenInfo,
        edge: Option<Edge>,
    },
    HandshakeAck {
        protocol_version: u32,
        hostname: String,
        screen_info: ScreenInfo,
        edge: Option<Edge>,
    },
    SwitchFocus { to_peer: String },
    ReleaseFocus,
    PeerDisconnecting,
}

#[derive(Debug, Clone, PartialEq, Eq)]
pub enum ClipboardContent {
    Text(String),
    Image { mime: String, data: Vec<u8> },
    FileUri(Vec<String>),
}

#[derive(Debug, Clone, PartialEq, Eq)]
pub struct ClipboardPayload {
    pub origin_peer_id: String,
    pub content: ClipboardContent,
}

#[derive(Debug, Clone, PartialEq, Eq)]
pub struct PeerIdentity {
    pub fingerprint: String,
    pub hostname: String,
    pub last_seen: u64,
}

#[derive(Debug, Clone, PartialEq, Eq)]
pub struct KmflowConfig {
    pub port: u16,
    pub hostname: Option<String>,
    pub layout: Vec<LayoutEntry>,
    pub known_peers: Vec<PeerIdentity>,
    pub scale_override: Option<Double>,
}

#[derive(Debug, Clone, PartialEq, Eq)]
pub struct LayoutEntry {
    pub peer_hostname: String,
    pub edge: Edge,
}

impl Default for KmflowConfig {
    fn default() -> (r: Self)
        ensures
            r.port == DEFAULT_PORT,
            r.hostname is None,
            r.layout@.len() == 0,
            r.known_peers@.len() == 0,
            r.scale_override is None,
    {
        KmflowConfig {
            port: DEFAULT_PORT,
            hostname: None,
            layout: Vec::new(),
            known_peers: Vec::new(),
            scale_override: None,
        }
    }
}

/// The edge across from the given one.
pub open spec fn opposite(edge: Edge) -> Edge {
    match edge {
        Edge::Right => Edge::Left,
        Edge::Left => Edge::Right,
        Edge::Top => Edge::Bottom,
        Edge::Bottom => Edge::Top,
    }
}

/// The edge across from the given one: where the peer sits to our right, we sit
/// to its left.
pub fn opposite_edge(edge: Edge) -> (r: Edge)
    ensures
        r == opposite(edge),
{
    match edge {
        Edge::Right => Edge::Left,
        Edge::Left => Edge::Right,
        Edge::Top => Edge::Bottom,
        Edge::Bottom => Edge::Top,
    }
}

/// Going across twice leads back, and never stays.
pub proof fn opposite_twice(edge: Edge)
    ensures
        opposite(opposite(edge)) == edge,
        opposite(edge) != edge,
{
}

/// A clamped number lies between the bounds, and none between them is nearer.
pub proof fn clamped_is_nearest(v: int, lo: int, hi: int, w: int)
    requires
        lo <= w <= hi,
    ensures
        lo <= clamped(v, lo, hi) <= hi,
        clamped(v, lo, hi) <= v ==> v - clamped(v, lo, hi) <= v - w || w > v,
        clamped(v, lo, hi) >= v ==> clamped(v, lo, hi) - v <= w - v || w < v,
        lo <= v <= hi ==> clamped(v, lo, hi) == v,
        v < lo ==> clamped(v, lo, hi) == lo,
        v > hi ==> clamped(v, lo, hi) == hi,
{
}

/// The whole part of a displacement has its direction, and less than a step is
/// lost.
pub proof fn whole_part_is_truncated(d: Delta)
    ensures
        d.raw >= 0 ==> d.whole() * 0x1_0000_0000 <= d.raw < (d.whole() + 1) * 0x1_0000_0000,
        d.raw <= 0 ==> (d.whole() - 1) * 0x1_0000_0000 < d.raw <= d.whole() * 0x1_0000_0000,
        d.raw >= 0 ==> d.whole() >= 0,
        d.raw <= 0 ==> d.whole() <= 0,
{
}

/// The distance between numbers of 53 significant bits around a number: such a
/// number is at least `2^52` and less than `2^53` of these distances, and where
/// whole numbers have no more bits the distance is one.
pub proof fn spacing_keeps_53_bits(v: int)
    requires
        v >= 0,
    ensures
        v < 0x20_0000_0000_0000 ==> spacing(v) == 1,
        v >= 0x10_0000_0000_0000 ==> spacing(v) * 0x10_0000_0000_0000 <= v,
        v < spacing(v) * 0x20_0000_0000_0000,
        v >= 0x20_0000_0000_0000 ==> spacing(v) % 2 == 0 && spacing(v) / 2 == spacing(v / 2),
{
    spacing_fits(v);
}

/// A rounded number is a multiple of the distance, none of whose multiples is
/// nearer; halfway between two it is the even one. Numbers of 53 bits stay, and
/// the sign does not matter.
pub proof fn rounding_is_to_the_nearest(v: int)
    ensures
        rounded(-v) == -rounded(v),
        -0x20_0000_0000_0000 <= v <= 0x20_0000_0000_0000 ==> rounded(v) == v,
        v >= 0 ==> rounded(v) % spacing(v) == 0,
        v >= 0 ==> -spacing(v) <= 2 * (rounded(v) - v) <= spacing(v),
        v >= 0 && (2 * (rounded(v) - v) == spacing(v) || 2 * (v - rounded(v)) == spacing(v))
            ==> rounded(v) / spacing(v) % 2 == 0,
{
    let n = if v < 0 {
        -v
    } else {
        v
    };
    let step = spacing(n);
    spacing_fits(n);
    let below = n / step;
    let rest = n % step;
    vstd::arithmetic::div_mod::lemma_fundamental_div_mod(n, step);
    vstd::arithmetic::div_mod::lemma_mod_bound(n, step);
    assert(n == below * step + rest) by (nonlinear_arith)
        requires
            n == step * below + rest,
    ;
    assert((below + 1) * step == below * step + step) by (nonlinear_arith);
    vstd::arithmetic::div_mod::lemma_mod_multiples_basic(below, step);
    vstd::arithmetic::div_mod::lemma_mod_multiples_basic(below + 1, step);
    vstd::arithmetic::div_mod::lemma_div_multiples_vanish(below, step);
    vstd::arithmetic::div_mod::lemma_div_multiples_vanish(below + 1, step);
    assert(step * below == below * step) by (nonlinear_arith);
    assert(step * (below + 1) == (below + 1) * step) by (nonlinear_arith);
    if n == 0x20_0000_0000_0000 {
        reveal_with_fuel(spacing, 2);
        assert(step == 2);
    }
}

/// Opposite edges lie across: left and right, top and bottom.
pub proof fn opposite_stays_on_its_axis(edge: Edge)
    ensures
        (edge is Left || edge is Right) <==> (opposite(edge) is Left || opposite(edge) is Right),
        edge is Left <==> opposite(edge) is Right,
        edge is Top <==> opposite(edge) is Bottom,
{
}

/// The numbers of the protocol.
pub proof fn protocol_numbers()
    ensures
        PROTOCOL_VERSION == 1,
        DEFAULT_PORT == 4242,
        MAX_FRAME_SIZE == 1200,
        MDNS_SERVICE_TYPE@ == "_kmflow._udp.local."@,
        DELTA_UNIT == 0x1_0000_0000,
        ONE_BITS == 1023 * 0x10_0000_0000_0000,
        INFINITY_BITS == 2047 * 0x10_0000_0000_0000,
{
}

} // verus!
