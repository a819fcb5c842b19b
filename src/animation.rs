use vstd::prelude::*;

use vstd::arithmetic::div_mod::lemma_mod_add_multiples_vanish;

use crate::palette::{rotated, Palettes};
use crate::random::draw_in_range;
use crate::sweep::{frame_count, lemma_pass_of_height, sweep_time, sweep_times, STEP};

verus! {

/// Where the animation goes after a frame at position `pos` of a pass of
/// `len` sweep times: `(next position, stopped)`.
///
/// A quit key stops it at once. Otherwise it moves to the next sweep time;
/// after the last one it starts the pass again when running forever, and
/// stops when not.
pub open spec fn advance(len: nat, pos: nat, forever: bool, quit: bool) -> (nat, bool) {
    if quit {
        (pos, true)
    } else if pos + 1 < len {
        ((pos + 1) as nat, false)
    } else if forever {
        (0, false)
    } else {
        (pos, true)
    }
}

/// The sweep times drawn from position `pos` on, over at most `fuel`
/// frames, when no stop is ever requested.
pub open spec fn quiet_run(times: Seq<i32>, forever: bool, pos: nat, fuel: nat) -> Seq<i32>
    decreases fuel,
{
    if fuel == 0 || pos >= times.len() {
        seq![]
    } else {
        let (next, stop) = advance(times.len(), pos, forever, false);
        seq![times[pos as int]] + if stop {
            seq![]
        } else {
            quiet_run(times, forever, next, (fuel - 1) as nat)
        }
    }
}

/// The state of a running animation: the sweep times of one pass, the
/// position in it, the palettes, and whether it has stopped.
pub struct Animation {
    pub times: Vec<i32>,
    pub pos: usize,
    pub forever: bool,
    pub stopped: bool,
    pub palettes: Palettes,
}

impl Animation {
    pub open spec fn wf(&self) -> bool {
        &&& self.palettes.wf()
        &&& 0 <= self.pos < self.times@.len()
        &&& forall|k: int| 0 <= k < self.times@.len() ==> #[trigger] self.times@[k] > i32::MIN
    }

    /// The animation of an image `height` lines tall, before its first frame.
    pub fn new(height: usize, forever: bool) -> (r: Animation)
        requires
            height * STEP <= i32::MAX,
        ensures
            r.wf(),
            r.times@.len() == 2 * height + 1,
            forall|k: int|
                0 <= k < r.times@.len() ==> #[trigger] r.times@[k] as int == sweep_time(
                    height * STEP,
                    STEP as int,
                    k,
                ),
            r.pos == 0,
            r.forever == forever,
            !r.stopped,
            r.palettes.incoming@ == Palettes::initial_incoming(),
            r.palettes.outgoing@ == Palettes::initial_outgoing(),
    {
        let frames = frame_count(height, STEP);
        let times = sweep_times(frames, STEP);
        proof {
            lemma_pass_of_height(height as int, STEP as int);
            assert forall|k: int| 0 <= k < times@.len() implies #[trigger] times@[k] > i32::MIN by {
                assert(times@[k] as int == sweep_time(frames as int, STEP as int, k));
                assert(sweep_time(frames as int, STEP as int, k) >= -(frames as int)) by (
                nonlinear_arith)
                    requires
                        k >= 0,
                ;
            }
        }
        Animation { times, pos: 0, forever, stopped: false, palettes: Palettes::new() }
    }

    /// The sweep time of the frame to draw next, or `None` once the animation
    /// has stopped. A stop request stops it for good.
    pub fn next_frame(&mut self, stop_requested: bool) -> (r: Option<i32>)
        requires
            old(self).wf(),
        ensures
            final(self).wf(),
            final(self).times@ == old(self).times@,
            final(self).pos == old(self).pos,
            final(self).forever == old(self).forever,
            final(self).palettes == old(self).palettes,
            (stop_requested || old(self).stopped) ==> r is None && final(self).stopped,
            !(stop_requested || old(self).stopped) ==> r == Some(old(self).times@[old(self).pos as int])
                && !final(self).stopped,
    {
        if stop_requested || self.stopped {
            self.stopped = true;
            None
        } else {
            Some(self.times[self.pos])
        }
    }

    /// Ends the frame just drawn. After the frame at sweep time zero the
    /// incoming palette rotates at `rotation`; then the animation moves on as
    /// `advance` says. Nothing changes once it has stopped.
    pub fn finish_frame_with(&mut self, quit_pressed: bool, rotation: usize)
        requires
            old(self).wf(),
            1 <= rotation <= 3,
        ensures
            final(self).wf(),
            final(self).times@ == old(self).times@,
            final(self).forever == old(self).forever,
            final(self).palettes.outgoing@ == old(self).palettes.outgoing@,
            old(self).stopped ==> final(self).stopped && final(self).pos == old(self).pos
                && final(self).palettes.incoming@ == old(self).palettes.incoming@,
            !old(self).stopped ==> (final(self).pos as nat, final(self).stopped) == advance(
                old(self).times@.len(),
                old(self).pos as nat,
                old(self).forever,
                quit_pressed,
            ) && final(self).palettes.incoming@ == (if old(self).times@[old(self).pos as int]
                == 0 {
                rotated(old(self).palettes.incoming@, rotation as int)
            } else {
                old(self).palettes.incoming@
            }),
    {
        if self.stopped {
            return ;
        }
        if self.times[self.pos] == 0 {
            self.palettes.rotate(rotation);
        }
        if quit_pressed {
            self.stopped = true;
        } else if self.pos < self.times.len() - 1 {
            self.pos = self.pos + 1;
        } else if self.forever {
            self.pos = 0;
        } else {
            self.stopped = true;
        }
    }

    /// Ends the frame just drawn, as `finish_frame_with` does, rotating at
    /// an index drawn at random from 1 to 3 when a rotation is due.
    pub fn finish_frame(&mut self, quit_pressed: bool)
        requires
            old(self).wf(),
        ensures
            exists|rotation: int|
                1 <= rotation <= 3 && (!old(self).stopped && old(self).times@[old(self).pos as int]
                    == 0 ==> final(self).palettes.incoming@ == #[trigger] rotated(
                    old(self).palettes.incoming@,
                    rotation,
                )),
            !(!old(self).stopped && old(self).times@[old(self).pos as int] == 0)
                ==> final(self).palettes.incoming@ == old(self).palettes.incoming@,
            final(self).wf(),
            final(self).times@ == old(self).times@,
            final(self).forever == old(self).forever,
            final(self).palettes.outgoing@ == old(self).palettes.outgoing@,
            old(self).stopped ==> final(self).stopped && final(self).pos == old(self).pos,
            !old(self).stopped ==> (final(self).pos as nat, final(self).stopped) == advance(
                old(self).times@.len(),
                old(self).pos as nat,
                old(self).forever,
                quit_pressed,
            ),
    {
        let rotation: u32 = if !self.stopped && self.times[self.pos] == 0 {
            draw_in_range(1, 3)
        } else {
            1
        };
        let ghost before = self.palettes.incoming@;
        self.finish_frame_with(quit_pressed, rotation as usize);
        // `rotation` is the witness of the rotation index.
        assert(rotated(before, rotation as int) == rotated(before, rotation as int));
    }
}

/// Without a stop request, a pass that does not repeat draws each sweep time
/// once, in order, from the current position to the end, and then stops.
pub proof fn lemma_single_pass(times: Seq<i32>, pos: nat, fuel: nat)
    requires
        pos <= times.len(),
        fuel >= times.len() - pos,
    ensures
        quiet_run(times, false, pos, fuel) == times.subrange(pos as int, times.len() as int),
    decreases fuel,
{
    if pos < times.len() {
        if pos + 1 < times.len() {
            lemma_single_pass(times, (pos + 1) as nat, (fuel - 1) as nat);
        }
    }
    assert(quiet_run(times, false, pos, fuel) =~= times.subrange(pos as int, times.len() as int));
}

/// Without a stop request, an animation that repeats draws a frame at every
/// step, and starts again from the first sweep time after the last: the
/// `k`-th frame from position `pos` shows sweep time `(pos + k) % len`.
pub proof fn lemma_forever_restarts(times: Seq<i32>, pos: nat, fuel: nat)
    requires
        pos < times.len(),
    ensures
        quiet_run(times, true, pos, fuel).len() == fuel,
        forall|k: int|
            0 <= k < fuel ==> #[trigger] quiet_run(times, true, pos, fuel)[k] == times[(pos + k)
                % (times.len() as int)],
    decreases fuel,
{
    let len = times.len() as int;
    if fuel > 0 {
        let next: nat = if pos + 1 < len {
            (pos + 1) as nat
        } else {
            0
        };
        lemma_forever_restarts(times, next, (fuel - 1) as nat);
        let run = quiet_run(times, true, pos, fuel);
        let rest = quiet_run(times, true, next, (fuel - 1) as nat);
        assert(run == seq![times[pos as int]] + rest);
        assert forall|k: int| 0 <= k < fuel implies #[trigger] run[k] == times[(pos + k) % len] by {
            if k == 0 {
                assert((pos as int + 0) % len == pos) by {
                    vstd::arithmetic::div_mod::lemma_small_mod(pos, len as nat);
                }
            } else {
                assert(run[k] == rest[k - 1]);
                if pos + 1 < len {
                    assert(next + (k - 1) == pos + k);
                } else {
                    lemma_mod_add_multiples_vanish(k - 1, len);
                    assert(next + (k - 1) + len == pos + k);
                }
            }
        }
    }
}

/// A single pass over an image `height` lines tall draws `2 * height + 1`
/// frames, from `-frames` up to `frames`, and exactly one of them, the
/// middle one, at sweep time zero: the palettes rotate once.
pub proof fn lemma_single_pass_rotates_once(times: Seq<i32>, height: int, fuel: nat)
    requires
        height >= 0,
        times.len() == 2 * height + 1,
        forall|k: int|
            0 <= k < times.len() ==> #[trigger] times[k] as int == sweep_time(
                height * STEP,
                STEP as int,
                k,
            ),
        fuel >= 2 * height + 1,
    ensures
        quiet_run(times, false, 0, fuel) == times,
        quiet_run(times, false, 0, fuel)[0] == -(height * STEP),
        quiet_run(times, false, 0, fuel)[2 * height] == height * STEP,
        quiet_run(times, false, 0, fuel)[height as int] == 0,
        forall|k: int|
            0 <= k < 2 * height + 1 && k != height ==> #[trigger] quiet_run(
                times,
                false,
                0,
                fuel,
            )[k] != 0,
{
    lemma_single_pass(times, 0, fuel);
    assert(times.subrange(0, times.len() as int) =~= times);
    lemma_pass_of_height(height as int, STEP as int);
    assert forall|k: int| 0 <= k < 2 * height + 1 && k != height implies #[trigger] quiet_run(
        times,
        false,
        0,
        fuel,
    )[k] != 0 by {
        assert(times[k] as int == sweep_time(height * STEP, STEP as int, k));
    }
    assert(times[0] as int == sweep_time(height * STEP, STEP as int, 0));
    assert(times[2 * height] as int == sweep_time(height * STEP, STEP as int, 2 * height));
    assert(times[height as int] as int == sweep_time(height * STEP, STEP as int, height as int));
}

} // verus!
