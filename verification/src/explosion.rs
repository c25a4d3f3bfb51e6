use vstd::prelude::*;

verus! {

/// The index of the last frame of the explosion animation.
pub const LAST_FRAME: u32 = 6;

/// The frame and the end flag after one update (see `Explosion::advance`).
pub open spec fn next_frame(frame: u32, end: bool, frame_due: bool) -> (u32, bool) {
    if frame_due && frame < LAST_FRAME {
        ((frame + 1) as u32, end)
    } else if frame_due {
        (frame, true)
    } else {
        (frame, end)
    }
}

/// One update keeps the animation on its frames: the frame stays at most
/// `LAST_FRAME`, only the last frame ends it, an ended animation stays as it
/// is, and a due frame either moves on by one or (on the last frame) ends
/// the animation; without a due frame nothing changes.
pub proof fn explosion_update_keeps_its_frames(frame: u32, end: bool, frame_due: bool)
    requires
        frame <= LAST_FRAME,
        end ==> frame == LAST_FRAME,
    ensures
        ({
            let (f, e) = next_frame(frame, end, frame_due);
            &&& f <= LAST_FRAME
            &&& e ==> f == LAST_FRAME
            &&& end ==> e && f == frame
            &&& frame_due && frame == LAST_FRAME ==> e
            &&& frame_due && frame < LAST_FRAME ==> f == frame + 1 && e == end
            &&& !frame_due ==> f == frame && e == end
        }),
{
}

/// The frame and the end flag of a new explosion after the updates `dues`
/// (whether each update found the frame's time up).
pub open spec fn run_frames(dues: Seq<bool>) -> (u32, bool)
    decreases dues.len(),
{
    if dues.len() == 0 {
        (0, false)
    } else {
        let before = run_frames(dues.drop_last());
        next_frame(before.0, before.1, dues.last())
    }
}

/// How many of the updates found the frame's time up.
pub open spec fn due_count(dues: Seq<bool>) -> nat
    decreases dues.len(),
{
    if dues.len() == 0 {
        0
    } else {
        due_count(dues.drop_last()) + if dues.last() {
            1nat
        } else {
            0nat
        }
    }
}

/// An explosion shows every frame in order for one due update each and ends
/// with the next: after `k` due updates it shows frame `min(k, LAST_FRAME)`,
/// and it is over exactly when `k` exceeds `LAST_FRAME`.
pub proof fn explosion_plays_every_frame(dues: Seq<bool>)
    ensures
        run_frames(dues).0 == if due_count(dues) < LAST_FRAME {
            due_count(dues)
        } else {
            LAST_FRAME as nat
        },
        run_frames(dues).1 == (due_count(dues) > LAST_FRAME),
    decreases dues.len(),
{
    if dues.len() > 0 {
        explosion_plays_every_frame(dues.drop_last());
    }
}

/// The animation state of an explosion: which of its frames shows, and
/// whether it is over.
pub struct Explosion {
    start: bool,
    end: bool,
    i: u32,
}

impl Explosion {
    /// The frame that shows.
    pub closed spec fn spec_frame(&self) -> u32 {
        self.i
    }

    /// Whether the animation is over.
    pub closed spec fn spec_end(&self) -> bool {
        self.end
    }

    /// Whether the explosion has not yet been advanced.
    pub closed spec fn spec_start(&self) -> bool {
        self.start
    }

    /// The frame is one of the animation's, and only the last frame ends it.
    pub open spec fn wf(&self) -> bool {
        &&& self.spec_frame() <= LAST_FRAME
        &&& self.spec_end() ==> self.spec_frame() == LAST_FRAME
    }

    #[verifier::type_invariant]
    spec fn inv(&self) -> bool {
        &&& self.i <= LAST_FRAME
        &&& self.end ==> self.i == LAST_FRAME
    }

    /// A new explosion on its first frame.
    pub fn new() -> (r: Self)
        ensures
            r.wf(),
            r.spec_frame() == 0,
            !r.spec_end(),
            r.spec_start(),
    {
        Explosion { start: true, end: false, i: 0 }
    }

    /// The frame that shows.
    pub fn frame(&self) -> (r: u32)
        ensures
            r == self.spec_frame(),
            self.wf(),
    {
        proof {
            use_type_invariant(self);
        }
        self.i
    }

    /// Whether the animation is over.
    pub fn end(&self) -> (r: bool)
        ensures
            r == self.spec_end(),
    {
        self.end
    }

    /// Advances the animation by one update: when the frame's time is up
    /// (`frame_due`), the next frame shows, or the animation ends after the
    /// last one. Returns whether the frame timer restarts.
    pub fn advance(&mut self, frame_due: bool) -> (restart: bool)
        ensures
            old(self).wf(),
            final(self).wf(),
            !final(self).spec_start(),
            restart == (frame_due && old(self).spec_frame() < LAST_FRAME),
            (final(self).spec_frame(), final(self).spec_end()) == next_frame(
                old(self).spec_frame(),
                old(self).spec_end(),
                frame_due,
            ),
    {
        proof {
            use_type_invariant(&*self);
        }
        if self.start {
            self.start = false;
        }
        if frame_due {
            if self.i == 6 {
                self.end = true;
                false
            } else {
                self.i = self.i + 1;
                true
            }
        } else {
            false
        }
    }
}

} // verus!
