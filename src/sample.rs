use vstd::prelude::*;

use crate::voice::FULL_SCALE;

verus! {

/// The largest number of frames a sample may hold.
pub const MAX_FRAMES: u64 = 4294967296;

/// Decoded audio: two channels of 24-bit amplitudes and the identity of
/// their source.
#[derive(Debug)]
pub struct Sample {
    pub path: String,
    pub left: Vec<i32>,
    pub right: Vec<i32>,
}

/// Every amplitude of `data` lies within full scale.
pub open spec fn amplitudes_in_range(data: Seq<i32>) -> bool {
    forall|i: int| 0 <= i < data.len() ==> -FULL_SCALE <= #[trigger] data[i] <= FULL_SCALE
}

impl Sample {
    /// Both channels have the same length, within `MAX_FRAMES`, and hold
    /// amplitudes within full scale.
    pub open spec fn wf(&self) -> bool {
        &&& self.left@.len() == self.right@.len()
        &&& self.left@.len() <= MAX_FRAMES
        &&& amplitudes_in_range(self.left@)
        &&& amplitudes_in_range(self.right@)
    }
}


/// True iff every amplitude of `data` lies within full scale.
fn check_amplitudes(data: &Vec<i32>) -> (r: bool)
    ensures
        r == amplitudes_in_range(data@),
{
    let mut i: usize = 0;
    while i < data.len()
        invariant
            i <= data@.len(),
            forall|k: int| 0 <= k < i ==> -FULL_SCALE <= #[trigger] data@[k] <= FULL_SCALE,
        decreases data.len() - i,
    {
        if data[i] < -FULL_SCALE || data[i] > FULL_SCALE {
            return false;
        }
        i = i + 1;
    }
    true
}

impl Sample {
    /// True iff the sample is well formed (see `wf`).
    pub fn is_valid(&self) -> (r: bool)
        ensures
            r == self.wf(),
    {
        self.left.len() == self.right.len() && self.left.len() as u64 <= MAX_FRAMES
            && check_amplitudes(&self.left) && check_amplitudes(&self.right)
    }
}

/// The reason a sample was not registered.
#[derive(PartialEq, Eq, Structural, Clone, Copy, Debug)]
pub enum AddError {
    /// A sample with the same identity is already in the store.
    AlreadyLoaded,
}

/// The identities in a sample sequence, in order.
pub open spec fn identities(samples: Seq<Sample>) -> Seq<Seq<char>> {
    samples.map_values(|s: Sample| s.path@)
}

/// The identities after registering `id` on a store holding `ids`: `None`
/// when `id` is already there.
pub open spec fn registered(ids: Seq<Seq<char>>, id: Seq<char>) -> Option<Seq<Seq<char>>> {
    if ids.contains(id) {
        None
    } else {
        Some(ids.push(id))
    }
}

/// No identity occurs twice.
pub open spec fn distinct(ids: Seq<Seq<char>>) -> bool {
    forall|i: int, j: int| 0 <= i < ids.len() && 0 <= j < ids.len() && i != j ==> ids[i] != ids[j]
}

/// Decoded samples, at most one per identity, addressed by a stable handle
/// (their position).
#[derive(Debug)]
pub struct SampleManager {
    samples: Vec<Sample>,
}

impl SampleManager {
    pub closed spec fn spec_samples(&self) -> Seq<Sample> {
        self.samples@
    }

    pub open spec fn spec_ids(&self) -> Seq<Seq<char>> {
        identities(self.spec_samples())
    }

    pub open spec fn wf(&self) -> bool {
        distinct(self.spec_ids())
    }

    /// An empty store.
    pub fn new() -> (r: SampleManager)
        ensures
            r.spec_samples() == Seq::<Sample>::empty(),
            r.wf(),
    {
        SampleManager { samples: Vec::new() }
    }

    /// The number of samples held.
    pub fn len(&self) -> (r: usize)
        ensures
            r == self.spec_samples().len(),
    {
        self.samples.len()
    }

    /// True iff a sample with identity `path` is held.
    pub fn is_loaded(&self, path: &String) -> (r: bool)
        ensures
            r == self.spec_ids().contains(path@),
    {
        let mut i: usize = 0;
        while i < self.samples.len()
            invariant
                i <= self.samples@.len(),
                forall|k: int| 0 <= k < i ==> self.spec_ids()[k] != path@,
            decreases self.samples.len() - i,
        {
            if self.samples[i].path == *path {
                assert(self.spec_ids()[i as int] == path@);
                return true;
            }
            i = i + 1;
        }
        proof {
            if self.spec_ids().contains(path@) {
                let k = choose|k: int| 0 <= k < self.spec_ids().len() && self.spec_ids()[k] == path@;
                assert(self.spec_ids()[k] == path@);
            }
        }
        false
    }

    /// Registers a decoded sample. On success it returns the sample's
    /// handle; a second sample with an identity that is already held is
    /// refused and the store is left as it was.
    pub fn add(&mut self, sample: Sample) -> (r: Result<usize, AddError>)
        requires
            old(self).wf(),
        ensures
            final(self).wf(),
            r is Ok <==> !old(self).spec_ids().contains(sample.path@),
            r is Ok ==> r->Ok_0 == old(self).spec_samples().len()
                && final(self).spec_samples() == old(self).spec_samples().push(sample),
            r is Err ==> r == Err::<usize, AddError>(AddError::AlreadyLoaded)
                && final(self).spec_samples() == old(self).spec_samples(),
            registered(old(self).spec_ids(), sample.path@) == if r is Ok {
                Some(final(self).spec_ids())
            } else {
                None::<Seq<Seq<char>>>
            },
    {
        if self.is_loaded(&sample.path) {
            return Err(AddError::AlreadyLoaded);
        }
        let handle = self.samples.len();
        let ghost ids = self.spec_ids();
        let ghost path = sample.path@;
        self.samples.push(sample);
        assert(self.spec_ids() =~= ids.push(path));
        Ok(handle)
    }

    /// Hands the samples over, in handle order.
    pub fn into_samples(self) -> (r: Vec<Sample>)
        ensures
            r@ == self.spec_samples(),
    {
        self.samples
    }
}

/// Registering one identity twice: the first registration succeeds, the
/// second is refused, and the store then holds that identity exactly once.
pub proof fn lemma_register_twice(ids: Seq<Seq<char>>, id: Seq<char>)
    requires
        distinct(ids),
        !ids.contains(id),
    ensures
        registered(ids, id) == Some(ids.push(id)),
        registered(ids.push(id), id) == None::<Seq<Seq<char>>>,
        distinct(ids.push(id)),
        forall|i: int| 0 <= i < ids.len() + 1 && #[trigger] ids.push(id)[i] == id ==> i == ids.len(),
{
    let s = ids.push(id);
    assert(s[ids.len() as int] == id);
    assert(s.contains(id));
    assert forall|i: int| 0 <= i < ids.len() + 1 && #[trigger] s[i] == id implies i == ids.len() by {
        if i < ids.len() {
            assert(ids[i] == s[i]);
        }
    }
}


/// The bit depth that amplitudes are held at.
pub const HELD_BITS: u16 = 24;

/// The deepest integer samples that can be read.
pub const MAX_BITS: u16 = 32;

/// Why decoded audio could not become a sample.
#[derive(PartialEq, Eq, Structural, Clone, Copy, Debug)]
pub enum DecodeError {
    /// Only two channels are supported.
    UnsupportedChannels,
    /// Only integer depths from 1 to 32 bits are supported.
    UnsupportedBitDepth,
    /// A value lies outside the range of its bit depth.
    OutOfRange,
    /// More frames than `MAX_FRAMES`.
    TooLong,
}

/// A `bits`-deep amplitude brought to 24 bits: shallower depths are scaled
/// up exactly, deeper ones are scaled down rounding toward negative
/// infinity.
pub open spec fn to_held_depth(x: int, bits: int) -> int {
    if bits <= HELD_BITS {
        x * vstd::arithmetic::power2::pow2((HELD_BITS - bits) as nat)
    } else {
        x / (vstd::arithmetic::power2::pow2((bits - HELD_BITS) as nat) as int)
    }
}

/// Every value of the first `n` entries of `data` fits full scale at 24 bits.
pub open spec fn depth_fits(data: Seq<i32>, n: int, bits: int) -> bool {
    forall|i: int| 0 <= i < n ==> -FULL_SCALE <= #[trigger] to_held_depth(data[i] as int, bits) <= FULL_SCALE
}

/// Brings `x` to 24 bits, given `up == 2^(24 - bits)` for shallow depths and
/// `down == 2^(bits - 24)`, `offset * down == 2^31` for deep ones.
fn held_depth(x: i32, bits: u16, up: i64, down: i64, offset: i64) -> (r: i64)
    requires
        1 <= bits <= MAX_BITS,
        bits <= HELD_BITS ==> up as int == vstd::arithmetic::power2::pow2((HELD_BITS - bits) as nat) && 1 <= up <= 8388608,
        bits > HELD_BITS ==> down as int == vstd::arithmetic::power2::pow2((bits - HELD_BITS) as nat)
            && 2 <= down <= 256 && offset * down == 2147483648,
    ensures
        r as int == to_held_depth(x as int, bits as int),
{
    if bits <= HELD_BITS {
        let a: i64 = x as i64;
        assert(-2147483648 * 8388608 <= a * up <= 2147483647 * 8388608) by (nonlinear_arith)
            requires -2147483648 <= a <= 2147483647, 1 <= up <= 8388608;
        a * up
    } else {
        let u: u64 = (x as i64 + 2147483648) as u64;
        let d: u64 = down as u64;
        let q: u64 = u / d;
        let m: u64 = u % d;
        proof {
            vstd::arithmetic::div_mod::lemma_fundamental_div_mod(u as int, d as int);
            vstd::arithmetic::div_mod::lemma_mod_pos_bound(u as int, d as int);
            vstd::arithmetic::div_mod::lemma_div_is_ordered(u as int, 4294967296, d as int);
            vstd::arithmetic::div_mod::lemma_div_is_ordered_by_denominator(4294967296, 1, d as int);
            assert((q as int - offset) * d == q * d - offset * d) by (nonlinear_arith);
            assert(d * q == q * d) by (nonlinear_arith);
            assert(u as int == x as int + offset * d);
            assert(x as int == (q as int - offset) * d + m);
            assert(0 < offset <= 1073741824) by (nonlinear_arith)
                requires offset * d == 2147483648, d >= 2;
            vstd::arithmetic::div_mod::lemma_fundamental_div_mod_converse(
                x as int, d as int, q as int - offset, m as int);
        }
        q as i64 - offset
    }
}

impl Sample {
    /// Builds a sample from interleaved stereo frames (left, right, left,
    /// ...) of `bits_per_sample`-deep integers brought to 24 bits (see
    /// `to_held_depth`). A trailing half frame is dropped.
    pub fn from_interleaved(path: String, channels: u16, bits_per_sample: u16, data: &Vec<i32>) -> (r: Result<Sample, DecodeError>)
        ensures
            channels != 2 ==> r == Err::<Sample, DecodeError>(DecodeError::UnsupportedChannels),
            channels == 2 && !(1 <= bits_per_sample <= MAX_BITS) ==> r == Err::<Sample, DecodeError>(DecodeError::UnsupportedBitDepth),
            channels == 2 && 1 <= bits_per_sample <= MAX_BITS ==> {
                let frames = data@.len() / 2;
                let fits = depth_fits(data@, frames * 2 as int, bits_per_sample as int);
                &&& (frames > MAX_FRAMES ==> r == Err::<Sample, DecodeError>(DecodeError::TooLong))
                &&& (frames <= MAX_FRAMES && !fits ==> r == Err::<Sample, DecodeError>(DecodeError::OutOfRange))
                &&& (frames <= MAX_FRAMES && fits ==> r is Ok)
                &&& (r is Ok ==> {
                    let s = r->Ok_0;
                    &&& s.wf()
                    &&& s.path@ == path@
                    &&& s.left@.len() == frames
                    &&& forall|i: int| 0 <= i < frames ==> #[trigger] s.left@[i] == to_held_depth(data@[2 * i] as int, bits_per_sample as int)
                    &&& forall|i: int| 0 <= i < frames ==> #[trigger] s.right@[i] == to_held_depth(data@[2 * i + 1] as int, bits_per_sample as int)
                })
            },
    {
        if channels != 2 {
            return Err(DecodeError::UnsupportedChannels);
        }
        if bits_per_sample < 1 || bits_per_sample > MAX_BITS {
            return Err(DecodeError::UnsupportedBitDepth);
        }
        let frames: usize = data.len() / 2;
        if frames as u64 > MAX_FRAMES {
            return Err(DecodeError::TooLong);
        }
        let bits = bits_per_sample;
        let mut up: i64 = 1;
        proof {
            vstd::arithmetic::power2::lemma2_to64();
        }
        if bits <= HELD_BITS {
            let mut b: u16 = bits;
            while b < HELD_BITS
                invariant
                    1 <= bits <= b <= HELD_BITS,
                    up as int == vstd::arithmetic::power2::pow2((b - bits) as nat),
                    1 <= up <= 8388608,
                decreases HELD_BITS - b,
            {
                proof {
                    vstd::arithmetic::power2::lemma_pow2_adds((b - bits) as nat, 1);
                    vstd::arithmetic::power2::lemma_pow2_strictly_increases((b - bits) as nat, 23);
                    vstd::arithmetic::power2::lemma2_to64();
                }
                up = up * 2;
                b = b + 1;
            }
        }
        let (down, offset) = if bits > HELD_BITS {
            deep_divisor(bits)
        } else {
            (1i64, 2147483648i64)
        };
        let ghost bi = bits as int;
        assert(2 * frames <= data@.len()) by {
            vstd::arithmetic::div_mod::lemma_fundamental_div_mod(data@.len() as int, 2);
        }
        let mut left: Vec<i32> = Vec::new();
        let mut right: Vec<i32> = Vec::new();
        let mut i: usize = 0;
        while i < frames
            invariant
                channels == 2,
                bits == bits_per_sample,
                bi == bits as int,
                1 <= bits <= MAX_BITS,
                bits <= HELD_BITS ==> up as int == vstd::arithmetic::power2::pow2((HELD_BITS - bits) as nat) && 1 <= up <= 8388608,
                bits > HELD_BITS ==> down as int == vstd::arithmetic::power2::pow2((bits - HELD_BITS) as nat)
                    && 2 <= down <= 256 && offset * down == 2147483648,
                frames == data@.len() / 2,
                2 * frames <= data@.len(),
                frames <= MAX_FRAMES,
                i <= frames,
                left@.len() == i,
                right@.len() == i,
                depth_fits(data@, 2 * i as int, bi),
                forall|k: int| 0 <= k < i ==> #[trigger] left@[k] == to_held_depth(data@[2 * k] as int, bi),
                forall|k: int| 0 <= k < i ==> #[trigger] right@[k] == to_held_depth(data@[2 * k + 1] as int, bi),
            decreases frames - i,
        {
            assert(2 * i + 1 < data.len());
            let at: usize = i + i;
            let x = held_depth(data[at], bits, up, down, offset);
            let y = held_depth(data[at + 1], bits, up, down, offset);
            if x < -(FULL_SCALE as i64) || x > FULL_SCALE as i64 || y < -(FULL_SCALE as i64) || y > FULL_SCALE as i64 {
                proof {
                    let k = if x < -(FULL_SCALE as i64) || x > FULL_SCALE as i64 { 2 * i as int } else { 2 * i + 1 };
                    assert(!(-FULL_SCALE <= to_held_depth(data@[k] as int, bi) <= FULL_SCALE));
                    assert(0 <= k < frames * 2);
                }
                return Err(DecodeError::OutOfRange);
            }
            left.push(x as i32);
            right.push(y as i32);
            i = i + 1;
            assert(depth_fits(data@, 2 * i as int, bi)) by {
                assert forall|k: int| 0 <= k < 2 * i implies -FULL_SCALE <= #[trigger] to_held_depth(data@[k] as int, bi) <= FULL_SCALE by {
                    if k >= 2 * i - 2 {
                        assert(k == 2 * i - 2 || k == 2 * i - 1);
                    }
                }
            }
        }
        let s = Sample { path, left, right };
        assert(s.wf()) by {
            assert forall|k: int| 0 <= k < s.left@.len() implies -FULL_SCALE <= #[trigger] s.left@[k] <= FULL_SCALE by {
                assert(to_held_depth(data@[2 * k] as int, bi) == s.left@[k]);
            }
            assert forall|k: int| 0 <= k < s.right@.len() implies -FULL_SCALE <= #[trigger] s.right@[k] <= FULL_SCALE by {
                assert(to_held_depth(data@[2 * k + 1] as int, bi) == s.right@[k]);
            }
        }
        Ok(s)
    }
}

/// `2^(bits - 24)` and `2^31` divided by it, for depths above 24 bits.
fn deep_divisor(bits: u16) -> (r: (i64, i64))
    requires
        HELD_BITS < bits <= MAX_BITS,
    ensures
        r.0 as int == vstd::arithmetic::power2::pow2((bits - HELD_BITS) as nat),
        2 <= r.0 <= 256,
        r.1 * r.0 == 2147483648,
{
    proof {
        vstd::arithmetic::power2::lemma2_to64();
    }
    match bits {
        25 => (2, 1073741824),
        26 => (4, 536870912),
        27 => (8, 268435456),
        28 => (16, 134217728),
        29 => (32, 67108864),
        30 => (64, 33554432),
        31 => (128, 16777216),
        _ => (256, 8388608),
    }
}

} // verus!
