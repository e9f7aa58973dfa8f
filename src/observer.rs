//! The observer's travel speed and the movement axes of its directional keys.
//!
//! Speed is held in thousandths of a world unit per second; scroll deltas are
//! given in thousandths of their unit.
use vstd::prelude::*;

verus! {

/// Speed given on first use.
pub const INITIAL_SPEED: i64 = 50_000;

/// The speed never falls below this.
pub const MIN_SPEED: i64 = 1_000;

/// The unit a scroll delta is measured in.
#[derive(Clone, Copy, Debug, PartialEq, Eq, Structural)]
pub enum ScrollUnit {
    Line,
    Pixel,
}

/// One accumulated scroll input.
#[derive(Clone, Copy, Debug, PartialEq, Eq, Structural)]
pub struct Scroll {
    pub unit: ScrollUnit,
    pub delta: i32,
}

/// The change of speed for a scroll: five per line, a quarter per pixel
/// (rounded toward zero).
pub open spec fn scroll_step(s: Scroll) -> int {
    match s.unit {
        ScrollUnit::Line => 5 * s.delta,
        ScrollUnit::Pixel => if s.delta >= 0 {
            s.delta as int / 4
        } else {
            -((-s.delta) / 4)
        },
    }
}

/// The speed after one scroll: unset (zero) speed starts at the initial one,
/// then the step is added and the result held to `[MIN_SPEED, i64::MAX]`.
pub open spec fn next_speed(speed: int, s: Scroll) -> int {
    let base = if speed == 0 {
        INITIAL_SPEED as int
    } else {
        speed
    };
    let v = base + scroll_step(s);
    if v < MIN_SPEED {
        MIN_SPEED as int
    } else if v > i64::MAX {
        i64::MAX as int
    } else {
        v
    }
}

/// The speed after a run of scrolls, applied in order.
pub open spec fn speed_after(speed: int, scrolls: Seq<Scroll>) -> int
    decreases scrolls.len(),
{
    if scrolls.len() == 0 {
        speed
    } else {
        next_speed(speed_after(speed, scrolls.drop_last()), scrolls.last())
    }
}

/// The observer's travel speed; zero until first used.
pub struct TravelSpeed {
    milli: i64,
}

impl TravelSpeed {
    pub closed spec fn view(&self) -> int {
        self.milli as int
    }

    pub fn new() -> (r: TravelSpeed)
        ensures
            r@ == 0,
    {
        TravelSpeed { milli: 0 }
    }

    /// The current speed, in thousandths of a world unit per second.
    pub fn get(&self) -> (r: i64)
        ensures
            r == self@,
    {
        self.milli
    }

    /// Applies one frame's scroll and returns the new speed.
    pub fn apply_scroll(&mut self, s: Scroll) -> (r: i64)
        ensures
            final(self)@ == next_speed(old(self)@, s),
            r == final(self)@,
            r >= MIN_SPEED,
    {
        let base: i128 = if self.milli == 0 {
            INITIAL_SPEED as i128
        } else {
            self.milli as i128
        };
        let step: i128 = match s.unit {
            ScrollUnit::Line => 5 * (s.delta as i128),
            ScrollUnit::Pixel => if s.delta >= 0 {
                (s.delta as i128) / 4
            } else {
                -((-(s.delta as i128)) / 4)
            },
        };
        let v = base + step;
        let r: i64 = if v < MIN_SPEED as i128 {
            MIN_SPEED
        } else if v > i64::MAX as i128 {
            i64::MAX
        } else {
            v as i64
        };
        self.milli = r;
        r
    }
}

/// However many scrolls come, and however negative, the speed after at least
/// one of them is never below the minimum.
pub proof fn lemma_speed_floor(speed: int, scrolls: Seq<Scroll>)
    requires
        scrolls.len() > 0,
    ensures
        speed_after(speed, scrolls) >= MIN_SPEED,
{
}

/// Which directional keys are held.
#[derive(Clone, Copy, Debug, PartialEq, Eq, Structural)]
pub struct MoveKeys {
    pub forward: bool,
    pub back: bool,
    pub left: bool,
    pub right: bool,
    pub down: bool,
    pub up: bool,
}

pub open spec fn key_axis(neg: bool, pos: bool) -> int {
    (if pos {
        1int
    } else {
        0int
    }) - (if neg {
        1int
    } else {
        0int
    })
}

/// The unnormalised movement direction in the observer's frame: `x` to the
/// right, `y` up, `z` backwards; opposite keys cancel.
pub fn move_axes(k: MoveKeys) -> (r: (i8, i8, i8))
    ensures
        r.0 == key_axis(k.left, k.right),
        r.1 == key_axis(k.down, k.up),
        r.2 == key_axis(k.forward, k.back),
{
    let mut x: i8 = 0;
    let mut y: i8 = 0;
    let mut z: i8 = 0;
    if k.forward {
        z = z - 1;
    }
    if k.back {
        z = z + 1;
    }
    if k.left {
        x = x - 1;
    }
    if k.right {
        x = x + 1;
    }
    if k.down {
        y = y - 1;
    }
    if k.up {
        y = y + 1;
    }
    (x, y, z)
}

} // verus!
