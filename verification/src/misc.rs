//! Wall-clock extrapolation of a coarsely updating playback position, a
//! switchable time base, and quad-plane index generation.
//!
//! An audio sink reports its playback position only at coarse boundaries, so
//! reading it every frame produces visible stepping. [`SinkExtrapolator`]
//! smooths that clock: whenever the reported position changes it
//! resynchronizes an assumed start time, and between changes it advances at
//! wall-clock rate. The sink and the wall clock themselves are outside
//! collaborators; the caller polls them once per frame and passes both
//! readings (as nanosecond counts) into [`SinkExtrapolator::get_pos`], which
//! makes every decision on them here. [`generate_quad_plane_indices`] builds
//! the triangle index list of a grid of quads; the floating-point vertex
//! positions of such a plane are a renderer concern and stay outside.

use vstd::prelude::*;
use vstd::arithmetic::div_mod::lemma_fundamental_div_mod;

verus! {

/// Extrapolates a coarsely updating playback position into a continuous
/// wall-clock-tracked time. All times are nanosecond counts: `now` readings
/// come from a monotonic wall clock, `position` readings from the playback
/// source.
#[derive(Clone, Copy, PartialEq, Eq, Structural, Debug)]
pub struct SinkExtrapolator {
    last_returned_duration: u64,
    assumed_start: u64,
}

impl SinkExtrapolator {
    /// The most recently observed source position.
    pub closed spec fn last_observed(self) -> u64 {
        self.last_returned_duration
    }

    /// The assumed wall-clock start of playback; the extrapolated position
    /// at wall time `now` is `now - start()`.
    pub closed spec fn start(self) -> u64 {
        self.assumed_start
    }

    /// The assumed start after a poll reading wall time `now` and source
    /// position `position`: resynchronized to `now - position` when the
    /// position changed, unchanged otherwise.
    pub open spec fn next_start(self, now: u64, position: u64) -> int {
        if position != self.last_observed() {
            now - position
        } else {
            self.start() as int
        }
    }

    /// The position returned by a poll reading `now` and `position`.
    pub open spec fn output(self, now: u64, position: u64) -> int {
        now - self.next_start(now, position)
    }

    /// Start extrapolating from an initial source position read at wall
    /// time `now`.
    pub fn new(now: u64, position: u64) -> (r: SinkExtrapolator)
        requires
            position <= now,
        ensures
            r.last_observed() == position,
            r.start() == now - position,
    {
        SinkExtrapolator { last_returned_duration: position, assumed_start: now - position }
    }

    /// Poll: resynchronize on a changed source position, then return the
    /// extrapolated position `now - start()`. At a resynchronization the
    /// result is exactly the freshly observed position.
    pub fn get_pos(&mut self, now: u64, position: u64) -> (r: u64)
        requires
            position <= now,
            old(self).start() <= now,
        ensures
            final(self).last_observed() == position,
            final(self).start() == old(self).next_start(now, position),
            r == old(self).output(now, position),
            position != old(self).last_observed() ==> r == position,
    {
        if position != self.last_returned_duration {
            self.assumed_start = now - position;
            self.last_returned_duration = position;
        }
        now - self.assumed_start
    }
}

/// Extrapolator resynchronization law: the poll that first observes source
/// position `p` at wall time `w` returns exactly `p`, and while the source
/// then stalls at `p`, a later poll at wall time `now` returns exactly
/// `p + (now - w)` — time advances at wall-clock rate from the resync.
pub proof fn lemma_resync(s0: SinkExtrapolator, s1: SinkExtrapolator, w: u64, p: u64, now: u64)
    requires
        p != s0.last_observed(),
        p <= w <= now,
        s1.last_observed() == p,
        s1.start() == s0.next_start(w, p),
    ensures
        s0.output(w, p) == p,
        s1.output(now, p) == p + (now - w),
{
}

/// Extrapolator monotonicity law: across two successive polls at
/// non-decreasing wall times, the returned position does not decrease,
/// provided the second reading either repeats the first (a stalled source)
/// or is at least the position already returned (the resynchronization does
/// not undershoot what was reported). A source that stalls for a while and
/// then advances by less than the elapsed wall time can make the returned
/// position jump backwards; that case is excluded here.
pub proof fn lemma_monotonic(
    s0: SinkExtrapolator,
    s1: SinkExtrapolator,
    now1: u64,
    p1: u64,
    now2: u64,
    p2: u64,
)
    requires
        p1 <= now1 <= now2,
        s0.start() <= now1,
        s1.last_observed() == p1,
        s1.start() == s0.next_start(now1, p1),
        p2 == p1 || p2 >= s0.output(now1, p1),
    ensures
        s1.output(now2, p2) >= s0.output(now1, p1),
{
}

/// The time source an animation runs on: either a real-time counter that
/// the frame loop advances by each frame's delta, or an extrapolated audio
/// playback position.
#[derive(Clone, Copy, PartialEq, Eq, Structural, Debug)]
pub enum TimeBase {
    RealTime(u64),
    Audio(SinkExtrapolator),
}

impl TimeBase {
    /// Advance a real-time base by a frame delta; an audio base is driven
    /// by its source instead and is left unchanged.
    pub fn rt_step(&mut self, delta: u64)
        requires
            *old(self) matches TimeBase::RealTime(s) ==> s + delta <= u64::MAX,
        ensures
            match *old(self) {
                TimeBase::RealTime(s) => *final(self) == TimeBase::RealTime((s + delta) as u64),
                TimeBase::Audio(_) => *final(self) == *old(self),
            },
    {
        match *self {
            TimeBase::RealTime(s) => {
                *self = TimeBase::RealTime(s + delta);
            },
            TimeBase::Audio(_) => {
            },
        }
    }

    /// The current position of the time base. For an audio base the caller
    /// passes the wall clock and the freshly polled source position, and the
    /// extrapolator decides; for a real-time base both readings are ignored.
    pub fn get_pos(&mut self, now: u64, position: u64) -> (r: u64)
        requires
            *old(self) matches TimeBase::Audio(e) ==> position <= now && e.start() <= now,
        ensures
            match *old(self) {
                TimeBase::RealTime(s) => r == s && *final(self) == *old(self),
                TimeBase::Audio(e) => {
                    &&& *final(self) matches TimeBase::Audio(e2)
                    &&& e2.last_observed() == position
                    &&& e2.start() == e.next_start(now, position)
                    &&& r == e.output(now, position)
                },
            },
    {
        match *self {
            TimeBase::RealTime(s) => s,
            TimeBase::Audio(mut e) => {
                let r = e.get_pos(now, position);
                *self = TimeBase::Audio(e);
                r
            },
        }
    }
}

/// The index of corner `c` (six corners, two triangles) of the quad at
/// cell `(x, y)` of a quad plane whose vertices form a `(width + 1)` by
/// `(depth + 1)` grid, row-major.
pub open spec fn quad_corner(width: int, x: int, y: int, c: int) -> int {
    let base = x + y * (width + 1);
    if c == 0 {
        base
    } else if c == 1 {
        base + 1
    } else if c == 2 {
        base + width + 1
    } else if c == 3 {
        base + width + 2
    } else if c == 4 {
        base + width + 1
    } else {
        base + 1
    }
}

/// The triangle index list of a `width` by `depth` plane of quads: six
/// indices per quad (two triangles), quad by quad in row-major order. The
/// vertex-position half of plane generation is a renderer concern and is
/// left to the caller.
pub fn generate_quad_plane_indices(width: u32, depth: u32) -> (r: Vec<u32>)
    requires
        (width + 1) * (depth + 1) <= u32::MAX,
    ensures
        r@.len() == 6 * width * depth,
        forall|q: int, c: int|
            0 <= q < width * depth && 0 <= c < 6 ==> #[trigger] r@[6 * q + c] == quad_corner(
                width as int,
                q % (width as int),
                q / (width as int),
                c,
            ),
{
    let mut out: Vec<u32> = Vec::new();
    if width == 0 || depth == 0 {
        return out;
    }
    proof {
        assert(width * depth <= (width + 1) * (depth + 1)) by (nonlinear_arith)
            requires
                1 <= width,
                1 <= depth,
        ;
    }
    let n: u32 = width * depth;
    let mut i: u32 = 0;
    while i < n
        invariant
            0 <= i <= n,
            1 <= width,
            1 <= depth,
            n == width * depth,
            (width + 1) * (depth + 1) <= u32::MAX,
            out@.len() == 6 * i,
            forall|q: int, c: int|
                0 <= q < i && 0 <= c < 6 ==> #[trigger] out@[6 * q + c] == quad_corner(
                    width as int,
                    q % (width as int),
                    q / (width as int),
                    c,
                ),
        decreases n - i,
    {
        let x: u32 = i % width;
        let y: u32 = i / width;
        proof {
            lemma_fundamental_div_mod(i as int, width as int);
            assert(y < depth) by (nonlinear_arith)
                requires
                    i as int == width as int * (y as int) + x as int,
                    0 <= x as int,
                    (i as int) < (width as int) * (depth as int),
                    1 <= width as int,
            ;
            assert(x as int + (y as int) * (width as int + 1) + width as int + 2 <= (width as int
                + 1) * (depth as int + 1)) by (nonlinear_arith)
                requires
                    x as int <= width as int - 1,
                    y as int <= depth as int - 1,
                    1 <= width as int,
                    1 <= depth as int,
            ;
        }
        let base: u32 = x + y * (width + 1);
        out.push(base);
        out.push(base + 1);
        out.push(base + width + 1);
        out.push(base + width + 2);
        out.push(base + width + 1);
        out.push(base + 1);
        proof {
            assert forall|q: int, c: int|
                0 <= q < i + 1 && 0 <= c < 6 implies #[trigger] out@[6 * q + c] == quad_corner(
                width as int,
                q % (width as int),
                q / (width as int),
                c,
            ) by {
                if q == i as int {
                    assert(q % (width as int) == x as int && q / (width as int) == y as int);
                    assert(out@[6 * q] == base);
                    assert(out@[6 * q + 1] == base + 1);
                    assert(out@[6 * q + 2] == base + width + 1);
                    assert(out@[6 * q + 3] == base + width + 2);
                    assert(out@[6 * q + 4] == base + width + 1);
                    assert(out@[6 * q + 5] == base + 1);
                }
            }
        }
        i = i + 1;
    }
    proof {
        assert(6 * ((width as int) * (depth as int)) == 6 * (width as int) * (depth as int))
            by (nonlinear_arith)
        ;
    }
    out
}

} // verus!
