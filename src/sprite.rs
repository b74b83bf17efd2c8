use vstd::prelude::*;
use vstd::math::abs;

verus! {

/// Pixels covered by one animation tick: a fifth of `crate::grid::TILE_SIZE`.
pub const STEP: i32 = 10;

/// A sprite at pixel `(x, y)` with a pending displacement `(dx, dy)` that is
/// still to be walked.
pub struct Sprite {
    pub x: i32,
    pub y: i32,
    pub dx: i32,
    pub dy: i32,
}

/// One tick along one axis: position and pending distance move one `STEP`
/// towards each other, nothing happens when nothing is pending.
pub open spec fn axis_step(pos: int, d: int) -> (int, int) {
    if d > 0 {
        (pos + (STEP as int), d - (STEP as int))
    } else if d < 0 {
        (pos - (STEP as int), d + (STEP as int))
    } else {
        (pos, d)
    }
}

/// `n` ticks along one axis.
pub open spec fn axis_run(pos: int, d: int, n: nat) -> (int, int)
    decreases n,
{
    if n == 0 {
        (pos, d)
    } else {
        let s = axis_step(pos, d);
        axis_run(s.0, s.1, (n - 1) as nat)
    }
}

/// A tick along one axis keeps the position inside `i32`.
pub open spec fn axis_step_fits(pos: int, d: int) -> bool {
    &&& d > 0 ==> pos + (STEP as int) <= i32::MAX
    &&& d < 0 ==> pos - (STEP as int) >= i32::MIN
}

/// The sprite after one animation tick.
pub open spec fn advanced(p: Sprite) -> Sprite {
    Sprite {
        x: axis_step(p.x as int, p.dx as int).0 as i32,
        y: axis_step(p.y as int, p.dy as int).0 as i32,
        dx: axis_step(p.x as int, p.dx as int).1 as i32,
        dy: axis_step(p.y as int, p.dy as int).1 as i32,
    }
}

impl Sprite {
    /// Neither axis has a step in flight.
    pub open spec fn idle(&self) -> bool {
        self.dx == 0 && self.dy == 0
    }

    /// Advances the sprite by one animation tick on each axis with a pending
    /// displacement.
    pub fn d_move(&mut self)
        requires
            axis_step_fits(old(self).x as int, old(self).dx as int),
            axis_step_fits(old(self).y as int, old(self).dy as int),
        ensures
            (final(self).x as int, final(self).dx as int) == axis_step(
                old(self).x as int,
                old(self).dx as int,
            ),
            (final(self).y as int, final(self).dy as int) == axis_step(
                old(self).y as int,
                old(self).dy as int,
            ),
            *final(self) == advanced(*old(self)),
    {
        let d = STEP;
        if self.dx > 0 {
            self.x = self.x + d;
            self.dx = self.dx - d;
        } else if self.dx < 0 {
            self.x = self.x - d;
            self.dx = self.dx + d;
        }
        if self.dy > 0 {
            self.y = self.y + d;
            self.dy = self.dy - d;
        } else if self.dy < 0 {
            self.y = self.y - d;
            self.dy = self.dy + d;
        }
    }
}

/// A pending distance that is a whole number of steps is walked off in exactly
/// `|d| / STEP` ticks: the position then has moved by `d`, and on the way the
/// pending distance shrinks towards zero without ever changing sign.
pub proof fn lemma_step_drains(pos: int, d: int, k: nat)
    requires
        d % (STEP as int) == 0,
        k <= (abs(d) as int) / (STEP as int),
    ensures
        axis_run(pos, d, k) == (
            if d >= 0 { pos + k * (STEP as int) } else { pos - k * (STEP as int) },
            if d >= 0 { d - k * (STEP as int) } else { d + k * (STEP as int) },
        ),
        d >= 0 ==> axis_run(pos, d, k).1 >= 0,
        d <= 0 ==> axis_run(pos, d, k).1 <= 0,
        k == (abs(d) as int) / (STEP as int) ==> axis_run(pos, d, k) == (pos + d, 0int),
    decreases k,
{
    if k > 0 {
        let s = axis_step(pos, d);
        assert(d != 0);
        assert(s.1 % (STEP as int) == 0);
        assert(k - 1 <= (abs(s.1) as int) / (STEP as int));
        lemma_step_drains(s.0, s.1, (k - 1) as nat);
    }
}


/// No single tick carries a whole-step pending distance past zero: it shrinks
/// by one `STEP` towards zero, or stays zero.
pub proof fn lemma_tick_no_overshoot(pos: int, d: int)
    requires
        d % (STEP as int) == 0,
    ensures
        d > 0 ==> 0 <= axis_step(pos, d).1 == d - (STEP as int),
        d < 0 ==> 0 >= axis_step(pos, d).1 == d + (STEP as int),
        d == 0 ==> axis_step(pos, d) == (pos, d),
        axis_step(pos, d).1 % (STEP as int) == 0,
{
}

} // verus!
