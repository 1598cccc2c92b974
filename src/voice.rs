use vstd::prelude::*;

use crate::sample::{Sample, MAX_FRAMES};

verus! {

/// Fractional bits of a playback position.
pub const POSITION_ONE: u64 = 65536;

/// The amplitude that stands for full scale (1.0).
pub const FULL_SCALE: i32 = 8388608;

/// The volume that stands for unity gain (1.0).
pub const VOLUME_ONE: i64 = 16777216;

/// The largest per-sample advance a voice may have (65536 frames per frame).
pub const MAX_DELTA: u64 = 4294967296;

/// The largest magnitude of one voice's contribution to one output sample.
pub const CONTRIBUTION_MAX: i64 = 140737488355328;

/// The lifecycle of a voice.
#[derive(PartialEq, Eq, Structural, Clone, Copy, Debug)]
pub enum KeyState {
    Play,
    Done,
    Release,
}

impl KeyState {
    /// A voice is active until it is done.
    pub fn is_active(&self) -> (r: bool)
        ensures
            r == (*self != KeyState::Done),
    {
        match self {
            KeyState::Play => true,
            KeyState::Release => true,
            KeyState::Done => false,
        }
    }
}


/// How a voice reacts to the end of its note.
#[derive(PartialEq, Eq, Structural, Clone, Copy, Debug)]
pub enum LoopMode {
    /// Played once; a note-off starts the release.
    NoLoop,
    /// Played once to its end; a note-off has no effect.
    OneShot,
    /// Loop points are not supported: behaves as `NoLoop`.
    LoopContinuous,
    /// Loop points are not supported: behaves as `NoLoop`.
    LoopSustain,
}

/// One sounding instance of a region.
#[derive(Clone, Copy, Debug)]
pub struct Voice {
    /// Handle of the sample in the instrument's sample arena.
    pub sample: usize,
    /// Playback position, in 1/65536 of a frame.
    pub position: u64,
    /// Advance per output sample, in 1/65536 of a frame.
    pub position_delta: u64,
    pub loop_mode: LoopMode,
    pub state: KeyState,
    /// Current gain, in 1/2^24.
    pub volume: i64,
    /// Gain lost per output sample while releasing.
    pub release_step: i64,
}

/// The amplitude at index `i`, silence outside the sequence.
pub open spec fn amp_at(data: Seq<i32>, i: int) -> int {
    if 0 <= i < data.len() {
        data[i] as int
    } else {
        0
    }
}

/// Division by `d` rounding toward zero.
pub open spec fn div_toward_zero(x: int, d: int) -> int {
    if x >= 0 {
        x / d
    } else {
        -((-x) / d)
    }
}

/// Linear interpolation from `a` toward `b` by `frac / POSITION_ONE`.
pub open spec fn lerp(a: int, b: int, frac: int) -> int {
    a + div_toward_zero((b - a) * frac, POSITION_ONE as int)
}

/// Interpolated amplitude at fractional position `idx + frac / POSITION_ONE`.
pub open spec fn interpolated(data: Seq<i32>, idx: int, frac: int) -> int {
    lerp(amp_at(data, idx), amp_at(data, idx + 1), frac)
}

/// An interpolated value lies between its two end points.
pub proof fn lemma_lerp_between(a: int, b: int, frac: int)
    requires
        0 <= frac < POSITION_ONE,
    ensures
        (a <= b ==> a <= lerp(a, b, frac) <= b),
        (b <= a ==> b <= lerp(a, b, frac) <= a),
{
    let d = POSITION_ONE as int;
    if b >= a {
        assert((b - a) * frac <= (b - a) * d) by (nonlinear_arith)
            requires b - a >= 0, frac < d;
        assert(0 <= (b - a) * frac) by (nonlinear_arith)
            requires b - a >= 0, frac >= 0;
        assert(((b - a) * d) / d == b - a) by (nonlinear_arith)
            requires d > 0;
        vstd::arithmetic::div_mod::lemma_div_is_ordered((b - a) * frac, (b - a) * d, d);
    } else {
        assert((a - b) * frac <= (a - b) * d) by (nonlinear_arith)
            requires a - b >= 0, frac < d;
        assert(0 <= (a - b) * frac) by (nonlinear_arith)
            requires a - b >= 0, frac >= 0;
        assert(((a - b) * d) / d == a - b) by (nonlinear_arith)
            requires d > 0;
        assert(-((b - a) * frac) == (a - b) * frac) by (nonlinear_arith);
        vstd::arithmetic::div_mod::lemma_div_is_ordered((a - b) * frac, (a - b) * d, d);
    }
}

/// Interpolating a constant sequence gives that constant, wherever both
/// neighbouring frames lie inside the sequence (or the position is whole).
pub proof fn lemma_interpolate_constant(data: Seq<i32>, c: i32, idx: int, frac: int)
    requires
        forall|i: int| 0 <= i < data.len() ==> data[i] == c,
        0 <= idx < data.len(),
        0 <= frac < POSITION_ONE,
        idx + 1 < data.len() || frac == 0,
    ensures
        interpolated(data, idx, frac) == c as int,
{
    let a = amp_at(data, idx);
    let b = amp_at(data, idx + 1);
    assert(a == c as int);
    if frac == 0 {
        assert((b - a) * frac == 0) by (nonlinear_arith)
            requires frac == 0;
    } else {
        assert(b == c as int);
        assert((b - a) * frac == 0) by (nonlinear_arith)
            requires b == a;
    }
    assert(div_toward_zero(0, POSITION_ONE as int) == 0);
}

/// Linear interpolation between frames `idx` and `idx + 1` of `data`.
pub fn interpolate(data: &Vec<i32>, idx: usize, frac: u64) -> (r: i64)
    requires
        frac < POSITION_ONE,
    ensures
        r as int == interpolated(data@, idx as int, frac as int),
{
    let a: i64 = if idx < data.len() { data[idx] as i64 } else { 0 };
    let b: i64 = if idx < data.len() && idx + 1 < data.len() { data[idx + 1] as i64 } else { 0 };
    proof {
        lemma_lerp_between(a as int, b as int, frac as int);
    }
    let d: i64 = b - a;
    if d >= 0 {
        let up: u64 = d as u64;
        assert(up * frac <= 4294967296u64 * 65536) by (nonlinear_arith)
            requires up <= 4294967296u64, frac < 65536;
        let m: u64 = up * frac / POSITION_ONE;
        a + m as i64
    } else {
        let down: u64 = (-d) as u64;
        assert(down * frac <= 4294967296u64 * 65536) by (nonlinear_arith)
            requires down <= 4294967296u64, frac < 65536;
        assert((d as int) * (frac as int) == -((down as int) * (frac as int))) by (nonlinear_arith)
            requires down as int == -(d as int);
        let m: u64 = down * frac / POSITION_ONE;
        a - m as i64
    }
}


impl Voice {
    /// The bounds that keep a voice's arithmetic in range.
    pub open spec fn wf(&self) -> bool {
        &&& -VOLUME_ONE <= self.volume <= VOLUME_ONE
        &&& 0 <= self.release_step <= VOLUME_ONE
        &&& self.position_delta <= MAX_DELTA
        &&& self.position <= MAX_FRAMES * POSITION_ONE + MAX_DELTA
    }

    /// The voice that follows a note-off: a playing voice starts to release,
    /// unless it plays one-shot.
    pub open spec fn released(self) -> Voice {
        if self.state == KeyState::Play && self.loop_mode != LoopMode::OneShot {
            Voice { state: KeyState::Release, ..self }
        } else {
            self
        }
    }

    /// One output sample of this voice on `sample`: the voice afterwards,
    /// and its left and right contributions.
    pub open spec fn step(self, sample: Sample) -> (Voice, int, int) {
        let idx = self.position / POSITION_ONE;
        let frac = self.position % POSITION_ONE;
        if self.state == KeyState::Done {
            (self, 0, 0)
        } else if idx >= sample.left@.len() || (self.state == KeyState::Release && self.volume
            <= 0) {
            (Voice { state: KeyState::Done, ..self }, 0, 0)
        } else {
            let l = self.volume * interpolated(sample.left@, idx as int, frac as int);
            let r = self.volume * interpolated(sample.right@, idx as int, frac as int);
            let volume = if self.state == KeyState::Release {
                self.volume - self.release_step
            } else {
                self.volume as int
            };
            let state = if self.state == KeyState::Release && volume <= 0 {
                KeyState::Done
            } else {
                self.state
            };
            (
                Voice {
                    position: (self.position + self.position_delta) as u64,
                    volume: volume as i64,
                    state,
                    ..self
                },
                l,
                r,
            )
        }
    }

    /// Applies a note-off to this voice.
    pub fn release(&mut self)
        ensures
            *final(self) == old(self).released(),
    {
        if self.state == KeyState::Play {
            match self.loop_mode {
                LoopMode::OneShot => {},
                _ => {
                    self.state = KeyState::Release;
                },
            }
        }
    }

    /// Produces this voice's contribution to one output sample and advances
    /// it: silence once its position passes the end of the sample or its
    /// release has faded out.
    pub fn render_one(&mut self, sample: &Sample) -> (r: (i64, i64))
        requires
            old(self).wf(),
            sample.wf(),
        ensures
            final(self).wf(),
            (*final(self), r.0 as int, r.1 as int) == old(self).step(*sample),
            -CONTRIBUTION_MAX <= r.0 <= CONTRIBUTION_MAX,
            -CONTRIBUTION_MAX <= r.1 <= CONTRIBUTION_MAX,
    {
        if self.state == KeyState::Done {
            return (0, 0);
        }
        let idx: u64 = self.position / POSITION_ONE;
        let frac: u64 = self.position % POSITION_ONE;
        if idx >= sample.left.len() as u64 || (self.state == KeyState::Release && self.volume
            <= 0) {
            self.state = KeyState::Done;
            return (0, 0);
        }
        let a = interpolate(&sample.left, idx as usize, frac);
        let b = interpolate(&sample.right, idx as usize, frac);
        proof {
            let i = idx as int;
            lemma_lerp_between(amp_at(sample.left@, i), amp_at(sample.left@, i + 1), frac as int);
            lemma_lerp_between(amp_at(sample.right@, i), amp_at(sample.right@, i + 1), frac as int);
            if i + 1 < sample.left@.len() {
                assert(-FULL_SCALE <= sample.left@[i + 1] <= FULL_SCALE);
                assert(-FULL_SCALE <= sample.right@[i + 1] <= FULL_SCALE);
            }
            assert(-FULL_SCALE <= sample.left@[i] <= FULL_SCALE);
            assert(-FULL_SCALE <= sample.right@[i] <= FULL_SCALE);
        }
        let v = self.volume;
        assert(-CONTRIBUTION_MAX <= v * a <= CONTRIBUTION_MAX) by (nonlinear_arith)
            requires -16777216 <= v <= 16777216, -8388608 <= a <= 8388608;
        assert(-CONTRIBUTION_MAX <= v * b <= CONTRIBUTION_MAX) by (nonlinear_arith)
            requires -16777216 <= v <= 16777216, -8388608 <= b <= 8388608;
        let l = v * a;
        let r = v * b;
        if self.state == KeyState::Release {
            self.volume = self.volume - self.release_step;
            if self.volume <= 0 {
                self.state = KeyState::Done;
            }
        }
        self.position = self.position + self.position_delta;
        (l, r)
    }
}


/// The most voices one note may hold at a time.
pub const VOICES_PER_NOTE: usize = 8;

#[verifier::external_type_specification]
#[verifier::external_body]
#[verifier::reject_recursive_types(T)]
pub struct ExArrayVec<T, const CAP: usize>(arrayvec::ArrayVec<T, CAP>);

/// The voices held by a note's bounded voice list, oldest first.
pub uninterp spec fn voices_of(v: arrayvec::ArrayVec<Voice, VOICES_PER_NOTE>) -> Seq<Voice>;

/// Relies on `ArrayVec::new`: an empty list.
#[verifier::external_body]
pub(crate) fn voice_list_new() -> (r: arrayvec::ArrayVec<Voice, VOICES_PER_NOTE>)
    ensures
        voices_of(r) == Seq::<Voice>::empty(),
{
    arrayvec::ArrayVec::new()
}

/// Relies on `ArrayVec::len`: the number of held elements, never above the
/// capacity.
#[verifier::external_body]
pub(crate) fn voice_list_len(v: &arrayvec::ArrayVec<Voice, VOICES_PER_NOTE>) -> (r: usize)
    ensures
        r == voices_of(*v).len(),
        r <= VOICES_PER_NOTE,
{
    v.len()
}

/// Relies on indexing through `ArrayVec`'s slice view: the element at `i`.
#[verifier::external_body]
pub(crate) fn voice_list_get(v: &arrayvec::ArrayVec<Voice, VOICES_PER_NOTE>, i: usize) -> (r: Voice)
    requires
        i < voices_of(*v).len(),
    ensures
        r == voices_of(*v)[i as int],
{
    v[i]
}

/// Relies on mutable indexing through `ArrayVec`'s slice view: the element
/// at `i` is replaced, the others stay.
#[verifier::external_body]
pub(crate) fn voice_list_set(v: &mut arrayvec::ArrayVec<Voice, VOICES_PER_NOTE>, i: usize, x: Voice)
    requires
        i < voices_of(*old(v)).len(),
    ensures
        voices_of(*final(v)) == voices_of(*old(v)).update(i as int, x),
{
    v[i] = x;
}

/// Relies on `ArrayVec::push`: appends at the end; it panics only when full.
#[verifier::external_body]
pub(crate) fn voice_list_push(v: &mut arrayvec::ArrayVec<Voice, VOICES_PER_NOTE>, x: Voice)
    requires
        voices_of(*old(v)).len() < VOICES_PER_NOTE,
    ensures
        voices_of(*final(v)) == voices_of(*old(v)).push(x),
{
    v.push(x)
}

/// Relies on `ArrayVec::remove`: takes out the element at `i` and shifts the
/// later ones down; it panics only when `i` is out of bounds.
#[verifier::external_body]
pub(crate) fn voice_list_remove(v: &mut arrayvec::ArrayVec<Voice, VOICES_PER_NOTE>, i: usize) -> (r: Voice)
    requires
        i < voices_of(*old(v)).len(),
    ensures
        r == voices_of(*old(v))[i as int],
        voices_of(*final(v)) == voices_of(*old(v)).remove(i as int),
{
    v.remove(i)
}

} // verus!
