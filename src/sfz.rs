use vstd::prelude::*;

use crate::sample::Sample;
use crate::voice::{
    voice_list_get, voice_list_len, voice_list_new, voice_list_push, voice_list_remove,
    voice_list_set, voices_of, KeyState, LoopMode, Voice, CONTRIBUTION_MAX, MAX_DELTA, POSITION_ONE,
    VOICES_PER_NOTE,
};

verus! {

/// The render rate, in frames per second.
pub const SAMPLE_RATE: u64 = 44100;

/// The gain a pressed voice starts with (0.4 of unity); velocity does not
/// scale it.
pub const PRESS_VOLUME: i64 = 6710886;

/// The highest MIDI key and velocity.
pub const MAX_KEY: u8 = 127;

/// `2^(k/12)` in 1/65536, for a semitone offset `k` within an octave.
pub open spec fn semitone_ratio(k: int) -> int {
    if k == 0 { 65536 }
    else if k == 1 { 69433 }
    else if k == 2 { 73562 }
    else if k == 3 { 77936 }
    else if k == 4 { 82570 }
    else if k == 5 { 87480 }
    else if k == 6 { 92682 }
    else if k == 7 { 98193 }
    else if k == 8 { 104032 }
    else if k == 9 { 110218 }
    else if k == 10 { 116772 }
    else { 123715 }
}

/// The playback-rate ratio `2^(d/12)`, in 1/65536, for a shift of `d`
/// semitones (equal temperament): the octave part is exact, the semitone
/// part comes from `semitone_ratio`, and shifts below the reference round
/// down.
pub open spec fn pitch_ratio(d: int) -> int {
    let e = d + 132;
    semitone_ratio(e % 12) * vstd::arithmetic::power2::pow2((e / 12) as nat) / 2048
}

/// Frames of release for a release time in microseconds: the time at
/// `SAMPLE_RATE`, rounded up, and at least one frame.
pub open spec fn release_samples(micros: int) -> int {
    let n = (micros * SAMPLE_RATE + 999999) / 1000000;
    if n < 1 { 1 } else { n }
}

/// The gain lost per frame so that `PRESS_VOLUME` fades out within `n` frames.
pub open spec fn release_step_for(n: int) -> int {
    (PRESS_VOLUME + n - 1) / n
}

/// A zone of keys and velocities bound to a sample.
#[derive(Clone, Copy, Debug)]
pub struct Region {
    /// Handle of the sample in the instrument's sample arena.
    pub sample: usize,
    /// The key at which the sample plays at its recorded pitch.
    pub pitch_keycenter: u8,
    pub low_key: u8,
    pub high_key: u8,
    pub low_velocity: u8,
    pub high_velocity: u8,
    /// The amplitude release time, in microseconds.
    pub release_micros: u32,
    pub loop_mode: LoopMode,
}

impl Region {
    /// True iff `note` lies in the region's inclusive key range.
    pub open spec fn spec_note_is_relevant(&self, note: u8) -> bool {
        self.low_key <= note <= self.high_key
    }

    /// True iff `note` and `velocity` lie in the region's inclusive ranges.
    pub open spec fn spec_is_relevant(&self, note: u8, velocity: u8) -> bool {
        &&& self.low_key <= note <= self.high_key
        &&& self.low_velocity <= velocity <= self.high_velocity
    }

    /// The voice that a press of `note` creates.
    pub open spec fn spec_press(&self, note: u8) -> Voice {
        Voice {
            sample: self.sample,
            position: 0,
            position_delta: pitch_ratio(note - self.pitch_keycenter) as u64,
            loop_mode: self.loop_mode,
            state: KeyState::Play,
            volume: PRESS_VOLUME,
            release_step: release_step_for(release_samples(self.release_micros as int)) as i64,
        }
    }

    pub fn note_is_relevant(&self, note: u8) -> (r: bool)
        ensures
            r == self.spec_note_is_relevant(note),
    {
        if note < self.low_key || note > self.high_key {
            return false;
        }
        true
    }

    pub fn is_relevant(&self, note: u8, velocity: u8) -> (r: bool)
        ensures
            r == self.spec_is_relevant(note, velocity),
    {
        if !self.note_is_relevant(note) {
            return false;
        }
        if velocity < self.low_velocity || velocity > self.high_velocity {
            return false;
        }
        true
    }

    /// Starts a voice for `note`; the velocity does not change its volume.
    pub fn press(&self, note: u8, velocity: u8) -> (r: Voice)
        requires
            note <= MAX_KEY,
            self.pitch_keycenter <= MAX_KEY,
        ensures
            r == self.spec_press(note),
            r.wf(),
    {
        let delta = shift_ratio(note, self.pitch_keycenter);
        let samples = release_frames(self.release_micros);
        let step: i64 = (PRESS_VOLUME + samples as i64 - 1) / samples as i64;
        proof {
            lemma_release_step_bounds(samples as int);
        }
        Voice {
            sample: self.sample,
            position: 0,
            position_delta: delta,
            loop_mode: self.loop_mode,
            state: KeyState::Play,
            volume: PRESS_VOLUME,
            release_step: step,
        }
    }
}

/// One attribute of a region definition.
#[derive(Clone, Copy, Debug)]
pub enum RegionAttribute {
    /// Handle of the region's sample in the sample store.
    Sample(usize),
    LoopMode(LoopMode),
    LowKey(u8),
    HighKey(u8),
    LowVelocity(u8),
    HighVelocity(u8),
    PitchKeycenter(u8),
    /// Amplitude release time, in microseconds.
    AmpegRelease(u32),
    /// An attribute the engine does not support; it is ignored.
    Unsupported,
}

/// Why a region definition was refused.
#[derive(PartialEq, Eq, Structural, Clone, Copy, Debug)]
pub enum RegionError {
    /// The definition names no sample.
    MissingSample,
}

/// Some attribute names the region's sample.
pub open spec fn names_sample(attrs: Seq<RegionAttribute>) -> bool {
    exists|t: int| 0 <= t < attrs.len() && #[trigger] attrs[t] is Sample
}

/// The region that results from applying `attrs[0..k]`, in order, to the
/// default region.
pub open spec fn region_from(attrs: Seq<RegionAttribute>, k: int) -> Region
    decreases k,
{
    if k <= 0 {
        Region::spec_default()
    } else {
        let r = region_from(attrs, k - 1);
        match attrs[k - 1] {
            RegionAttribute::Sample(s) => Region { sample: s, ..r },
            RegionAttribute::LoopMode(m) => Region { loop_mode: m, ..r },
            RegionAttribute::LowKey(v) => Region { low_key: v, ..r },
            RegionAttribute::HighKey(v) => Region { high_key: v, ..r },
            RegionAttribute::LowVelocity(v) => Region { low_velocity: v, ..r },
            RegionAttribute::HighVelocity(v) => Region { high_velocity: v, ..r },
            RegionAttribute::PitchKeycenter(v) => Region { pitch_keycenter: v, ..r },
            RegionAttribute::AmpegRelease(v) => Region { release_micros: v, ..r },
            RegionAttribute::Unsupported => r,
        }
    }
}

impl Region {
    /// Sample 0, all ranges at key and velocity 0, key center 60, no
    /// release time, no loop.
    pub open spec fn spec_default() -> Region {
        Region {
            sample: 0,
            pitch_keycenter: 60,
            low_key: 0,
            high_key: 0,
            low_velocity: 0,
            high_velocity: 0,
            release_micros: 0,
            loop_mode: LoopMode::NoLoop,
        }
    }

    /// The region that a definition describes: each attribute sets its
    /// field, a later one overriding an earlier one; unsupported ones are
    /// ignored. A definition without a sample is refused.
    pub fn from_attributes(attrs: &Vec<RegionAttribute>) -> (r: Result<Region, RegionError>)
        ensures
            r is Ok <==> names_sample(attrs@),
            r is Ok ==> r->Ok_0 == region_from(attrs@, attrs@.len() as int),
            r is Err ==> r == Err::<Region, RegionError>(RegionError::MissingSample),
    {
        let mut found = false;
        let mut r = Region {
            sample: 0,
            pitch_keycenter: 60,
            low_key: 0,
            high_key: 0,
            low_velocity: 0,
            high_velocity: 0,
            release_micros: 0,
            loop_mode: LoopMode::NoLoop,
        };
        let mut k: usize = 0;
        while k < attrs.len()
            invariant
                k <= attrs@.len(),
                r == region_from(attrs@, k as int),
                found == exists|t: int| 0 <= t < k && #[trigger] attrs@[t] is Sample,
            decreases attrs.len() - k,
        {
            match attrs[k] {
                RegionAttribute::Sample(s) => {
                    r.sample = s;
                    found = true;
                },
                RegionAttribute::LoopMode(m) => r.loop_mode = m,
                RegionAttribute::LowKey(v) => r.low_key = v,
                RegionAttribute::HighKey(v) => r.high_key = v,
                RegionAttribute::LowVelocity(v) => r.low_velocity = v,
                RegionAttribute::HighVelocity(v) => r.high_velocity = v,
                RegionAttribute::PitchKeycenter(v) => r.pitch_keycenter = v,
                RegionAttribute::AmpegRelease(v) => r.release_micros = v,
                RegionAttribute::Unsupported => {},
            }
            k = k + 1;
        }
        if found {
            Ok(r)
        } else {
            Err(RegionError::MissingSample)
        }
    }
}

/// Frames of release for `micros` microseconds.
fn release_frames(micros: u32) -> (r: u64)
    ensures
        r as int == release_samples(micros as int),
        1 <= r <= 4294967296u64,
{
    let m: u64 = micros as u64;
    assert(m * 44100 <= 4294967295u64 * 44100) by (nonlinear_arith)
        requires m <= 4294967295u64;
    let n: u64 = (m * SAMPLE_RATE + 999999) / 1000000;
    assert(n <= 4294967296u64) by (nonlinear_arith)
        requires n == (m * 44100 + 999999) / 1000000, m <= 4294967295u64;
    if n < 1 { 1 } else { n }
}

/// `semitone_ratio(k)` for `k < 12`.
fn semitone(k: u64) -> (r: u64)
    requires
        k < 12,
    ensures
        r as int == semitone_ratio(k as int),
        65536 <= r <= 123715,
{
    match k {
        0 => 65536,
        1 => 69433,
        2 => 73562,
        3 => 77936,
        4 => 82570,
        5 => 87480,
        6 => 92682,
        7 => 98193,
        8 => 104032,
        9 => 110218,
        10 => 116772,
        _ => 123715,
    }
}

/// The playback-rate ratio of `note` against `center`.
fn shift_ratio(note: u8, center: u8) -> (r: u64)
    requires
        note <= MAX_KEY,
        center <= MAX_KEY,
    ensures
        r as int == pitch_ratio(note - center),
        r <= MAX_DELTA,
{
    let e: u64 = note as u64 + 132 - center as u64;
    let k: u64 = e % 12;
    let octaves: u64 = e / 12;
    let mut p: u64 = 1;
    let mut i: u64 = 0;
    proof {
        vstd::arithmetic::power2::lemma2_to64();
    }
    while i < octaves
        invariant
            octaves <= 21,
            i <= octaves,
            p as int == vstd::arithmetic::power2::pow2(i as nat),
            p <= 2097152,
        decreases octaves - i,
    {
        proof {
            vstd::arithmetic::power2::lemma_pow2_adds(i as nat, 1);
            vstd::arithmetic::power2::lemma_pow2_strictly_increases(i as nat, 21);
            vstd::arithmetic::power2::lemma2_to64();
        }
        p = p * 2;
        i = i + 1;
    }
    let s = semitone(k);
    assert(s * p <= 123715 * 2097152) by (nonlinear_arith)
        requires s <= 123715, p <= 2097152;
    let r = s * p / 2048;
    proof {
        vstd::arithmetic::div_mod::lemma_div_is_ordered((s * p) as int, 123715int * 2097152int, 2048int);
    }
    r
}


/// The number of MIDI keys.
pub const KEY_COUNT: usize = 128;

/// A decoded event as the engine sees it.
#[derive(PartialEq, Eq, Structural, Clone, Copy, Debug)]
pub enum MidiEvent {
    NoteOn { note: u8, velocity: u8 },
    NoteOff { note: u8, velocity: u8 },
    /// Any other well-formed message; the engine ignores it.
    Other,
}

/// Raw MIDI bytes at a frame offset within a block.
#[derive(Clone, Debug)]
pub struct TimedMidi {
    pub offset: usize,
    pub bytes: Vec<u8>,
}

/// A complete note-on or note-off message: a status byte `0x8n` or `0x9n`
/// followed by two data bytes.
pub open spec fn is_note_message(b: Seq<u8>) -> bool {
    &&& b.len() >= 3
    &&& (b[0] / 16 == 8 || b[0] / 16 == 9)
    &&& b[1] < 128
    &&& b[2] < 128
}

/// The event that raw bytes stand for; a note-on of velocity zero is a
/// note-off.
pub open spec fn event_of(b: Seq<u8>) -> MidiEvent {
    if is_note_message(b) {
        if b[0] / 16 == 9 && b[2] != 0 {
            MidiEvent::NoteOn { note: b[1], velocity: b[2] }
        } else {
            MidiEvent::NoteOff { note: b[1], velocity: b[2] }
        }
    } else {
        MidiEvent::Other
    }
}

/// Relies on `wmidi::MidiMessage::try_from`: note messages come out as note
/// events, every other input as another message or an error.
#[verifier::external_body]
fn parse_midi(bytes: &Vec<u8>) -> (r: Option<MidiEvent>)
    ensures
        is_note_message(bytes@) ==> r == Some(event_of(bytes@)),
        !is_note_message(bytes@) ==> (r == None::<MidiEvent> || r == Some(MidiEvent::Other)),
{
    match wmidi::MidiMessage::try_from(bytes.as_slice()) {
        Ok(wmidi::MidiMessage::NoteOn(_, n, v)) => Some(
            MidiEvent::NoteOn { note: n as u8, velocity: u8::from(v) },
        ),
        Ok(wmidi::MidiMessage::NoteOff(_, n, v)) => Some(
            MidiEvent::NoteOff { note: n as u8, velocity: u8::from(v) },
        ),
        Ok(_) => Some(MidiEvent::Other),
        Err(_) => None,
    }
}

/// Appends `v`; a full list first gives up its oldest voice.
pub open spec fn push_stealing(vs: Seq<Voice>, v: Voice) -> Seq<Voice> {
    if vs.len() >= VOICES_PER_NOTE {
        vs.drop_first().push(v)
    } else {
        vs.push(v)
    }
}

/// The voices of a key after the first `k` regions have seen a note-on.
pub open spec fn strike(vs: Seq<Voice>, regions: Seq<Region>, k: int, note: u8, velocity: u8) -> Seq<
    Voice,
>
    decreases k,
{
    if k <= 0 {
        vs
    } else {
        let prev = strike(vs, regions, k - 1, note, velocity);
        if regions[k - 1].spec_is_relevant(note, velocity) {
            push_stealing(prev, regions[k - 1].spec_press(note))
        } else {
            prev
        }
    }
}

/// The voices of a key after a note-off.
pub open spec fn release_all(vs: Seq<Voice>) -> Seq<Voice> {
    vs.map_values(|v: Voice| v.released())
}

/// The voice lists, one per key, after `ev`.
pub open spec fn apply_event(lists: Seq<Seq<Voice>>, regions: Seq<Region>, ev: MidiEvent) -> Seq<
    Seq<Voice>,
> {
    match ev {
        MidiEvent::NoteOn { note, velocity } => if note < lists.len() {
            lists.update(note as int, strike(lists[note as int], regions, regions.len() as int, note, velocity))
        } else {
            lists
        },
        MidiEvent::NoteOff { note, velocity } => if note < lists.len() {
            lists.update(note as int, release_all(lists[note as int]))
        } else {
            lists
        },
        MidiEvent::Other => lists,
    }
}

/// Steps the first `j` voices of `vs` once: the voices afterwards and the
/// sums of their left and right contributions.
pub open spec fn mix_list(vs: Seq<Voice>, samples: Seq<Sample>, j: int) -> (Seq<Voice>, int, int)
    decreases j,
{
    if j <= 0 {
        (vs, 0, 0)
    } else {
        let prev = mix_list(vs, samples, j - 1);
        let v = prev.0[j - 1];
        let s = v.step(samples[v.sample as int]);
        (prev.0.update(j - 1, s.0), prev.1 + s.1, prev.2 + s.2)
    }
}


proof fn lemma_mix_list_len(vs: Seq<Voice>, samples: Seq<Sample>, j: int)
    requires
        j <= vs.len(),
    ensures
        mix_list(vs, samples, j).0.len() == vs.len(),
    decreases j,
{
    if j > 0 {
        lemma_mix_list_len(vs, samples, j - 1);
    }
}

/// Steps every voice of the first `n` keys once, summing the contributions.
pub open spec fn mix_lists(lists: Seq<Seq<Voice>>, samples: Seq<Sample>, n: int) -> (
    Seq<Seq<Voice>>,
    int,
    int,
)
    decreases n,
{
    if n <= 0 {
        (lists, 0, 0)
    } else {
        let prev = mix_lists(lists, samples, n - 1);
        let m = mix_list(prev.0[n - 1], samples, prev.0[n - 1].len() as int);
        (prev.0.update(n - 1, m.0), prev.1 + m.1, prev.2 + m.2)
    }
}

/// Applies, from event `j` on, every event whose offset has been reached at
/// frame `i`: the voice lists afterwards and the next pending event.
pub open spec fn dispatch(
    lists: Seq<Seq<Voice>>,
    regions: Seq<Region>,
    events: Seq<TimedMidi>,
    j: int,
    i: int,
) -> (Seq<Seq<Voice>>, int)
    decreases events.len() - j,
{
    if 0 <= j < events.len() && events[j].offset <= i {
        dispatch(apply_event(lists, regions, event_of(events[j].bytes@)), regions, events, j + 1, i)
    } else {
        (lists, j)
    }
}

/// Frames `i` up to `n` of a block: left and right output and the voice
/// lists at its end.
pub open spec fn render_block(
    lists: Seq<Seq<Voice>>,
    regions: Seq<Region>,
    samples: Seq<Sample>,
    events: Seq<TimedMidi>,
    j: int,
    i: int,
    n: int,
) -> (Seq<i64>, Seq<i64>, Seq<Seq<Voice>>)
    decreases n - i,
{
    if i >= n {
        (Seq::empty(), Seq::empty(), lists)
    } else {
        let d = dispatch(lists, regions, events, j, i);
        let m = mix_lists(d.0, samples, d.0.len() as int);
        let rest = render_block(m.0, regions, samples, events, d.1, i + 1, n);
        (seq![m.1 as i64] + rest.0, seq![m.2 as i64] + rest.1, rest.2)
    }
}

/// The voices of `vs` that are not done, in order.
pub open spec fn retain_active(vs: Seq<Voice>) -> Seq<Voice>
    decreases vs.len(),
{
    if vs.len() == 0 {
        vs
    } else {
        let prev = retain_active(vs.drop_last());
        if vs.last().state != KeyState::Done {
            prev.push(vs.last())
        } else {
            prev
        }
    }
}

/// Every voice list without its finished voices.
pub open spec fn collect_done(lists: Seq<Seq<Voice>>) -> Seq<Seq<Voice>> {
    lists.map_values(|vs: Seq<Voice>| retain_active(vs))
}

/// One list per key, each within the per-note bound, of voices that are
/// within bounds and name one of `n_samples` samples.
pub open spec fn lists_wf(lists: Seq<Seq<Voice>>, n_samples: int) -> bool {
    &&& lists.len() == KEY_COUNT
    &&& forall|k: int| 0 <= k < lists.len() ==> #[trigger] lists[k].len() <= VOICES_PER_NOTE
    &&& forall|k: int, j: int|
        0 <= k < lists.len() && 0 <= j < lists[k].len() ==> (#[trigger] lists[k][j]).wf()
            && lists[k][j].sample < n_samples
}

/// A region that names one of `n_samples` samples and a valid key center.
pub open spec fn region_wf(r: Region, n_samples: int) -> bool {
    r.sample < n_samples && r.pitch_keycenter <= MAX_KEY
}

/// Why an instrument could not be built.
#[derive(PartialEq, Eq, Structural, Clone, Copy, Debug)]
pub enum InstrumentError {
    /// The sample at `index` is malformed.
    InvalidSample { index: usize },
    /// The region at `index` names no sample of the arena, or its key
    /// center is above the highest key.
    InvalidRegion { index: usize },
}

/// One voice list per key, none above the per-note bound.
pub open spec fn voices_bounded(lists: Seq<Seq<Voice>>) -> bool {
    &&& lists.len() == KEY_COUNT
    &&& forall|k: int| 0 <= k < lists.len() ==> (#[trigger] lists[k]).len() <= VOICES_PER_NOTE
}

/// Regions bound to samples, and the voices that they are playing.
pub struct Instrument {
    samples: Vec<Sample>,
    regions: Vec<Region>,
    /// The live voices of each key, indexed by key.
    voices: Vec<arrayvec::ArrayVec<Voice, VOICES_PER_NOTE>>,
}

impl Instrument {
    pub closed spec fn spec_samples(&self) -> Seq<Sample> {
        self.samples@
    }

    pub closed spec fn spec_regions(&self) -> Seq<Region> {
        self.regions@
    }

    /// The live voices of each key, oldest first.
    pub closed spec fn spec_voices(&self) -> Seq<Seq<Voice>> {
        self.voices@.map_values(|a: arrayvec::ArrayVec<Voice, VOICES_PER_NOTE>| voices_of(a))
    }

    pub closed spec fn wf(&self) -> bool {
        &&& forall|i: int| 0 <= i < self.samples@.len() ==> (#[trigger] self.samples@[i]).wf()
        &&& forall|i: int|
            0 <= i < self.regions@.len() ==> region_wf(#[trigger] self.regions@[i], self.samples@.len() as int)
        &&& lists_wf(self.spec_voices(), self.samples@.len() as int)
    }

    /// Builds an instrument over a sample arena and regions, with no voice
    /// sounding. It refuses the first malformed sample, else the first
    /// region whose sample handle or key center is out of range.
    pub fn new(samples: Vec<Sample>, regions: Vec<Region>) -> (r: Result<Instrument, InstrumentError>)
        ensures
            r is Ok <==> (forall|i: int| 0 <= i < samples@.len() ==> (#[trigger] samples@[i]).wf())
                && (forall|i: int| 0 <= i < regions@.len() ==> region_wf(#[trigger] regions@[i], samples@.len() as int)),
            r is Ok ==> ({
                let ins = r->Ok_0;
                &&& ins.wf()
                &&& ins.spec_samples() == samples@
                &&& ins.spec_regions() == regions@
                &&& ins.spec_voices() == Seq::new(KEY_COUNT as nat, |k: int| Seq::<Voice>::empty())
                &&& voices_bounded(ins.spec_voices())
            }),
            (r matches Err(InstrumentError::InvalidSample { index }) ==> ({
                &&& index < samples@.len()
                &&& !samples@[index as int].wf()
                &&& forall|i: int| 0 <= i < index ==> (#[trigger] samples@[i]).wf()
            })),
            (r matches Err(InstrumentError::InvalidRegion { index }) ==> ({
                &&& index < regions@.len()
                &&& !region_wf(regions@[index as int], samples@.len() as int)
                &&& forall|i: int| 0 <= i < samples@.len() ==> (#[trigger] samples@[i]).wf()
                &&& forall|i: int| 0 <= i < index ==> region_wf(#[trigger] regions@[i], samples@.len() as int)
            })),
    {
        let mut i: usize = 0;
        while i < samples.len()
            invariant
                i <= samples@.len(),
                forall|k: int| 0 <= k < i ==> (#[trigger] samples@[k]).wf(),
            decreases samples.len() - i,
        {
            if !samples[i].is_valid() {
                return Err(InstrumentError::InvalidSample { index: i });
            }
            i = i + 1;
        }
        let mut i: usize = 0;
        while i < regions.len()
            invariant
                i <= regions@.len(),
                forall|k: int| 0 <= k < samples@.len() ==> (#[trigger] samples@[k]).wf(),
                forall|k: int| 0 <= k < i ==> region_wf(#[trigger] regions@[k], samples@.len() as int),
            decreases regions.len() - i,
        {
            if regions[i].sample >= samples.len() || regions[i].pitch_keycenter > MAX_KEY {
                return Err(InstrumentError::InvalidRegion { index: i });
            }
            i = i + 1;
        }
        let mut voices: Vec<arrayvec::ArrayVec<Voice, VOICES_PER_NOTE>> = Vec::new();
        let mut n: usize = 0;
        while n < KEY_COUNT
            invariant
                n <= KEY_COUNT,
                voices@.len() == n,
                forall|k: int| 0 <= k < n ==> voices_of(#[trigger] voices@[k]) == Seq::<Voice>::empty(),
            decreases KEY_COUNT - n,
        {
            voices.push(voice_list_new());
            n = n + 1;
        }
        let ins = Instrument { samples, regions, voices };
        assert(ins.spec_voices() =~= Seq::new(KEY_COUNT as nat, |k: int| Seq::<Voice>::empty()));
        Ok(ins)
    }

    /// The number of regions.
    pub fn region_count(&self) -> (r: usize)
        ensures
            r == self.spec_regions().len(),
    {
        self.regions.len()
    }

    /// The number of live voices held for `note`.
    pub fn voice_count(&self, note: u8) -> (r: usize)
        requires
            self.wf(),
            note <= MAX_KEY,
        ensures
            r == self.spec_voices()[note as int].len(),
    {
        voice_list_len(&self.voices[note as usize])
    }

    /// Applies one event: a note-on presses every matching region, in
    /// order, into the key's voice list, retiring the key's oldest voice
    /// when the list is full; a note-off releases the key's voices; other
    /// events change nothing.
    pub fn handle_midi(&mut self, ev: MidiEvent)
        requires
            old(self).wf(),
        ensures
            final(self).wf(),
            final(self).spec_samples() == old(self).spec_samples(),
            final(self).spec_regions() == old(self).spec_regions(),
            final(self).spec_voices() == apply_event(old(self).spec_voices(), old(self).spec_regions(), ev),
            voices_bounded(final(self).spec_voices()),
    {
        match ev {
            MidiEvent::NoteOff { note, velocity } => {
                if (note as usize) < self.voices.len() {
                    let n = note as usize;
                    let len = voice_list_len(&self.voices[n]);
                    let ghost start = self.spec_voices();
                    let mut j: usize = 0;
                    while j < len
                        invariant
                            self.samples == old(self).samples,
                            self.regions == old(self).regions,
                            start == old(self).spec_voices(),
                            old(self).wf(),
                            n < KEY_COUNT,
                            self.voices@.len() == KEY_COUNT,
                            len == start[n as int].len(),
                            j <= len,
                            forall|k: int| 0 <= k < KEY_COUNT && k != n ==> #[trigger] self.spec_voices()[k] == start[k],
                            self.spec_voices()[n as int].len() == len,
                            forall|t: int| 0 <= t < len ==> #[trigger] self.spec_voices()[n as int][t] == if t < j {
                                start[n as int][t].released()
                            } else {
                                start[n as int][t]
                            },
                        decreases len - j,
                    {
                        let ghost before = self.spec_voices();
                        let mut v = voice_list_get(&self.voices[n], j);
                        v.release();
                        voice_list_set(&mut self.voices[n], j, v);
                        assert(self.spec_voices() =~= before.update(n as int, voices_of(self.voices@[n as int])));
                        j = j + 1;
                    }
                    assert(self.spec_voices()[n as int] =~= release_all(start[n as int]));
                    assert(self.spec_voices() =~= apply_event(start, self.regions@, ev));
                }
            },
            MidiEvent::NoteOn { note, velocity } => {
                if (note as usize) < self.voices.len() {
                    let n = note as usize;
                    let ghost start = self.spec_voices();
                    let mut k: usize = 0;
                    while k < self.regions.len()
                        invariant
                            self.samples == old(self).samples,
                            self.regions == old(self).regions,
                            start == old(self).spec_voices(),
                            old(self).wf(),
                            n < KEY_COUNT,
                            note == n,
                            self.voices@.len() == KEY_COUNT,
                            k <= self.regions@.len(),
                            forall|m: int| 0 <= m < KEY_COUNT && m != n ==> #[trigger] self.spec_voices()[m] == start[m],
                            self.spec_voices()[n as int] == strike(start[n as int], self.regions@, k as int, note, velocity),
                            self.wf(),
                        decreases self.regions.len() - k,
                    {
                        let region = self.regions[k];
                        let ghost before = self.spec_voices();
                        if region.is_relevant(note, velocity) {
                            let v = region.press(note, velocity);
                            if voice_list_len(&self.voices[n]) >= VOICES_PER_NOTE {
                                let _ = voice_list_remove(&mut self.voices[n], 0);
                            }
                            voice_list_push(&mut self.voices[n], v);
                            assert(self.spec_voices() =~= before.update(n as int, voices_of(self.voices@[n as int])));
                            assert(voices_of(self.voices@[n as int]) == push_stealing(before[n as int], v));
                            assert(region_wf(self.regions@[k as int], self.samples@.len() as int));
                        }
                        k = k + 1;
                    }
                    assert(self.spec_voices() =~= apply_event(start, self.regions@, ev));
                }
            },
            MidiEvent::Other => {},
        }
    }

    /// Mixes one output frame: every voice of every key, in key order,
    /// contributes one step, and the contributions are summed.
    fn next_sample(&mut self) -> (r: (i64, i64))
        requires
            old(self).wf(),
        ensures
            final(self).wf(),
            final(self).spec_samples() == old(self).spec_samples(),
            final(self).spec_regions() == old(self).spec_regions(),
            ({
                let m = mix_lists(old(self).spec_voices(), old(self).spec_samples(), KEY_COUNT as int);
                &&& final(self).spec_voices() == m.0
                &&& r.0 as int == m.1
                &&& r.1 as int == m.2
            }),
    {
        let ghost start = self.spec_voices();
        let mut l: i64 = 0;
        let mut r: i64 = 0;
        let mut n: usize = 0;
        while n < KEY_COUNT
            invariant
                self.samples == old(self).samples,
                self.regions == old(self).regions,
                start == old(self).spec_voices(),
                old(self).wf(),
                self.wf(),
                n <= KEY_COUNT,
                self.voices@.len() == KEY_COUNT,
                self.spec_voices() == mix_lists(start, self.samples@, n as int).0,
                l as int == mix_lists(start, self.samples@, n as int).1,
                r as int == mix_lists(start, self.samples@, n as int).2,
                -(n * 8) * CONTRIBUTION_MAX <= l <= (n * 8) * CONTRIBUTION_MAX,
                -(n * 8) * CONTRIBUTION_MAX <= r <= (n * 8) * CONTRIBUTION_MAX,
            decreases KEY_COUNT - n,
        {
            let ghost entry = self.spec_voices();
            let ghost l0 = l as int;
            let ghost r0 = r as int;
            let len = voice_list_len(&self.voices[n]);
            let mut j: usize = 0;
            while j < len
                invariant
                    self.samples == old(self).samples,
                    self.regions == old(self).regions,
                    self.wf(),
                    n < KEY_COUNT,
                    self.voices@.len() == KEY_COUNT,
                    len == entry[n as int].len(),
                    len <= VOICES_PER_NOTE,
                    j <= len,
                    entry.len() == KEY_COUNT,
                    self.spec_voices() == entry.update(n as int, mix_list(entry[n as int], self.samples@, j as int).0),
                    l as int == l0 + mix_list(entry[n as int], self.samples@, j as int).1,
                    r as int == r0 + mix_list(entry[n as int], self.samples@, j as int).2,
                    -(n * 8) * CONTRIBUTION_MAX <= l0 <= (n * 8) * CONTRIBUTION_MAX,
                    -(n * 8) * CONTRIBUTION_MAX <= r0 <= (n * 8) * CONTRIBUTION_MAX,
                    l0 - j * CONTRIBUTION_MAX <= l <= l0 + j * CONTRIBUTION_MAX,
                    r0 - j * CONTRIBUTION_MAX <= r <= r0 + j * CONTRIBUTION_MAX,
                decreases len - j,
            {
                let ghost before = self.spec_voices();
                proof {
                    lemma_mix_list_len(entry[n as int], self.samples@, j as int);
                    assert(before[n as int] == voices_of(self.voices@[n as int]));
                    assert(before[n as int][j as int].wf() && before[n as int][j as int].sample < self.samples@.len());
                }
                let mut v = voice_list_get(&self.voices[n], j);
                assert(v == before[n as int][j as int]);
                let (a, b) = v.render_one(&self.samples[v.sample]);
                voice_list_set(&mut self.voices[n], j, v);
                assert(self.spec_voices() =~= before.update(n as int, voices_of(self.voices@[n as int])));
                l = l + a;
                r = r + b;
                j = j + 1;
                assert(self.spec_voices() =~= entry.update(n as int, mix_list(entry[n as int], self.samples@, j as int).0));
            }
            assert(self.spec_voices() =~= mix_lists(start, self.samples@, n + 1).0);
            n = n + 1;
        }
        (l, r)
    }

    /// Drops the finished voices of every key, keeping the order of the rest.
    fn remove_done_voices(&mut self)
        requires
            old(self).wf(),
        ensures
            final(self).wf(),
            final(self).spec_samples() == old(self).spec_samples(),
            final(self).spec_regions() == old(self).spec_regions(),
            final(self).spec_voices() == collect_done(old(self).spec_voices()),
    {
        let ghost start = self.spec_voices();
        let mut n: usize = 0;
        while n < KEY_COUNT
            invariant
                self.samples == old(self).samples,
                self.regions == old(self).regions,
                start == old(self).spec_voices(),
                self.wf(),
                n <= KEY_COUNT,
                self.voices@.len() == KEY_COUNT,
                start.len() == KEY_COUNT,
                forall|k: int| 0 <= k < n ==> #[trigger] self.spec_voices()[k] == retain_active(start[k]),
                forall|k: int| n <= k < KEY_COUNT ==> #[trigger] self.spec_voices()[k] == start[k],
            decreases KEY_COUNT - n,
        {
            let ghost before = self.spec_voices();
            let ghost list = before[n as int];
            let len = voice_list_len(&self.voices[n]);
            let mut kept = voice_list_new();
            let mut j: usize = 0;
            while j < len
                invariant
                    self.wf(),
                    self.spec_voices() == before,
                    n < KEY_COUNT,
                    self.voices@.len() == KEY_COUNT,
                    list == voices_of(self.voices@[n as int]),
                    len == list.len(),
                    len <= VOICES_PER_NOTE,
                    j <= len,
                    voices_of(kept) == retain_active(list.subrange(0, j as int)),
                    voices_of(kept).len() <= j,
                    forall|t: int| 0 <= t < voices_of(kept).len() ==> (#[trigger] voices_of(kept)[t]).wf()
                        && voices_of(kept)[t].sample < self.samples@.len(),
                decreases len - j,
            {
                let v = voice_list_get(&self.voices[n], j);
                assert(v == list[j as int]);
                assert(self.spec_voices()[n as int][j as int].wf());
                if v.state.is_active() {
                    voice_list_push(&mut kept, v);
                }
                j = j + 1;
                assert(list.subrange(0, j as int).drop_last() =~= list.subrange(0, j - 1));
            }
            assert(list.subrange(0, len as int) =~= list);
            self.voices.set(n, kept);
            assert(self.spec_voices() =~= before.update(n as int, retain_active(list)));
            n = n + 1;
        }
        assert(self.spec_voices() =~= collect_done(start));
    }

    /// Renders one block into the first `min(len(out_l), len(out_r))`
    /// frames of the outputs. Before each frame `i`, every pending event
    /// whose offset is at most `i` is applied, in order; malformed events
    /// are skipped. After the block, finished voices are dropped.
    pub fn play(&mut self, midi: &Vec<TimedMidi>, out_l: &mut Vec<i64>, out_r: &mut Vec<i64>)
        requires
            old(self).wf(),
        ensures
            final(self).wf(),
            final(self).spec_samples() == old(self).spec_samples(),
            final(self).spec_regions() == old(self).spec_regions(),
            ({
                let n = if old(out_l)@.len() <= old(out_r)@.len() {
                    old(out_l)@.len() as int
                } else {
                    old(out_r)@.len() as int
                };
                let b = render_block(
                    old(self).spec_voices(),
                    old(self).spec_regions(),
                    old(self).spec_samples(),
                    midi@,
                    0,
                    0,
                    n,
                );
                &&& final(out_l)@ == b.0 + old(out_l)@.subrange(n, old(out_l)@.len() as int)
                &&& final(out_r)@ == b.1 + old(out_r)@.subrange(n, old(out_r)@.len() as int)
                &&& final(self).spec_voices() == collect_done(b.2)
            }),
            voices_bounded(final(self).spec_voices()),
    {
        let count: usize = if out_l.len() <= out_r.len() { out_l.len() } else { out_r.len() };
        let ghost total = render_block(self.spec_voices(), self.regions@, self.samples@, midi@, 0, 0, count as int);
        let mut i: usize = 0;
        let mut j: usize = 0;
        while i < count
            invariant
                self.samples@ == old(self).samples@,
                self.regions@ == old(self).regions@,
                self.wf(),
                total == render_block(old(self).spec_voices(), self.regions@, self.samples@, midi@, 0, 0, count as int),
                count <= out_l@.len(),
                count <= out_r@.len(),
                out_l@.len() == old(out_l)@.len(),
                out_r@.len() == old(out_r)@.len(),
                out_l@.subrange(count as int, out_l@.len() as int) == old(out_l)@.subrange(count as int, out_l@.len() as int),
                out_r@.subrange(count as int, out_r@.len() as int) == old(out_r)@.subrange(count as int, out_r@.len() as int),
                i <= count,
                ({
                    let b = render_block(self.spec_voices(), self.regions@, self.samples@, midi@, j as int, i as int, count as int);
                    &&& out_l@.subrange(0, i as int) + b.0 == total.0
                    &&& out_r@.subrange(0, i as int) + b.1 == total.1
                    &&& b.2 == total.2
                }),
            decreases count - i,
        {
            let ghost lists_i = self.spec_voices();
            let ghost j_i = j as int;
            while j < midi.len() && midi[j].offset <= i
                invariant
                    self.samples@ == old(self).samples@,
                    self.regions@ == old(self).regions@,
                    self.wf(),
                    j_i <= j,
                    dispatch(self.spec_voices(), self.regions@, midi@, j as int, i as int)
                        == dispatch(lists_i, self.regions@, midi@, j_i, i as int),
                decreases midi.len() - j,
            {
                match parse_midi(&midi[j].bytes) {
                    Some(ev) => {
                        self.handle_midi(ev);
                    },
                    None => {},
                }
                j = j + 1;
            }
            let ghost before_mix = self.spec_voices();
            let (a, b) = self.next_sample();
            let ghost rest = render_block(self.spec_voices(), self.regions@, self.samples@, midi@, j as int, i + 1, count as int);
            let ghost out_l_before = out_l@;
            let ghost out_r_before = out_r@;
            out_l.set(i, a);
            out_r.set(i, b);
            proof {
                assert(out_l@.subrange(0, i + 1) =~= out_l_before.subrange(0, i as int).push(a));
                assert(out_r@.subrange(0, i + 1) =~= out_r_before.subrange(0, i as int).push(b));
                assert(out_l_before.subrange(0, i as int) + (seq![a] + rest.0) =~= out_l_before.subrange(0, i as int).push(a) + rest.0);
                assert(out_r_before.subrange(0, i as int) + (seq![b] + rest.1) =~= out_r_before.subrange(0, i as int).push(b) + rest.1);
                assert(out_l@.subrange(count as int, out_l@.len() as int) =~= out_l_before.subrange(count as int, out_l@.len() as int));
                assert(out_r@.subrange(count as int, out_r@.len() as int) =~= out_r_before.subrange(count as int, out_r@.len() as int));
            }
            i = i + 1;
        }
        proof {
            assert(out_l@ =~= out_l@.subrange(0, count as int) + out_l@.subrange(count as int, out_l@.len() as int));
            assert(out_r@ =~= out_r@.subrange(0, count as int) + out_r@.subrange(count as int, out_r@.len() as int));
            assert(out_l@.subrange(0, count as int) + Seq::<i64>::empty() =~= out_l@.subrange(0, count as int));
            assert(out_r@.subrange(0, count as int) + Seq::<i64>::empty() =~= out_r@.subrange(0, count as int));
        }
        self.remove_done_voices();
    }
}


/// A press at the region's key center plays the sample at its recorded
/// pitch (a ratio of exactly one), and a press one octave higher plays it
/// twice as fast.
pub proof fn lemma_press_pitch(region: Region)
    requires
        region.pitch_keycenter <= MAX_KEY,
    ensures
        region.spec_press(region.pitch_keycenter).position_delta == POSITION_ONE,
        region.pitch_keycenter + 12 <= MAX_KEY ==> region.spec_press(
            (region.pitch_keycenter + 12) as u8,
        ).position_delta == 2 * POSITION_ONE,
{
    vstd::arithmetic::power2::lemma2_to64();
    assert(132int % 12 == 0 && 132int / 12 == 11);
    assert(144int % 12 == 0 && 144int / 12 == 12);
    assert(vstd::arithmetic::power2::pow2(11) == 2048);
    assert(vstd::arithmetic::power2::pow2(12) == 4096);
    assert(semitone_ratio(0) == 65536);
    assert(65536int * 2048 / 2048 == 65536);
    assert(65536int * 4096 / 2048 == 131072);
    assert(pitch_ratio(0) == 65536);
    assert(pitch_ratio(12) == 131072);
}

/// The voice after `n` output samples.
pub open spec fn run(v: Voice, s: Sample, n: nat) -> Voice
    decreases n,
{
    if n == 0 {
        v
    } else {
        run(v, s, (n - 1) as nat).step(s).0
    }
}

proof fn lemma_release_step_bounds(n: int)
    requires
        n >= 1,
    ensures
        1 <= release_step_for(n) <= PRESS_VOLUME,
        n * release_step_for(n) >= PRESS_VOLUME,
{
    let x = PRESS_VOLUME + n - 1;
    let q = x / n;
    vstd::arithmetic::div_mod::lemma_fundamental_div_mod(x, n);
    vstd::arithmetic::div_mod::lemma_mod_pos_bound(x, n);
    assert(x < (PRESS_VOLUME + 1) * n) by (nonlinear_arith)
        requires x == PRESS_VOLUME + n - 1, n >= 1;
    assert(q <= PRESS_VOLUME) by (nonlinear_arith)
        requires n * q <= x, x < (PRESS_VOLUME + 1) * n, n >= 1;
    assert(q >= 1) by (nonlinear_arith)
        requires n * q + x % n == x, x % n < n, x >= n, n >= 1;
}

proof fn lemma_release_run(v: Voice, s: Sample, k: nat)
    requires
        v.state == KeyState::Release,
        0 < v.volume <= PRESS_VOLUME,
        1 <= v.release_step <= PRESS_VOLUME,
    ensures
        run(v, s, k).state == KeyState::Done || (run(v, s, k).state == KeyState::Release
            && run(v, s, k).volume == v.volume - k * v.release_step && run(v, s, k).volume > 0),
        run(v, s, k).release_step == v.release_step,
    decreases k,
{
    if k > 0 {
        lemma_release_run(v, s, (k - 1) as nat);
        let step = v.release_step as int;
        let p = run(v, s, (k - 1) as nat);
        assert((k - 1) * step + step == k * step) by (nonlinear_arith);
        if p.state == KeyState::Release {
            assert(p.volume - step == v.volume - k * step);
            assert(0 < p.volume <= PRESS_VOLUME) by (nonlinear_arith)
                requires p.volume == v.volume - (k - 1) * step, p.volume > 0, v.volume <= PRESS_VOLUME, k >= 1, step >= 1;
        }
    }
}

/// A releasing voice loses `release_step` (at least one unit) of volume at
/// every output sample, and is done after at most the region's release
/// time in frames, rounded up.
pub proof fn lemma_release_fades_out(v: Voice, s: Sample, release_micros: u32)
    requires
        v.state == KeyState::Release,
        0 < v.volume <= PRESS_VOLUME,
        v.release_step == release_step_for(release_samples(release_micros as int)),
    ensures
        v.release_step >= 1,
        forall|k: nat| #[trigger] run(v, s, k).state == KeyState::Release ==> run(v, s, k).volume
            == v.volume - k * v.release_step,
        run(v, s, release_samples(release_micros as int) as nat).state == KeyState::Done,
{
    let n = release_samples(release_micros as int);
    lemma_release_step_bounds(n);
    assert forall|k: nat| #[trigger] run(v, s, k).state == KeyState::Release implies run(v, s, k).volume
        == v.volume - k * v.release_step by {
        lemma_release_run(v, s, k);
    }
    lemma_release_run(v, s, n as nat);
}

/// Key lists that hold no voice.
pub open spec fn all_silent(lists: Seq<Seq<Voice>>) -> bool {
    &&& lists.len() == KEY_COUNT
    &&& forall|k: int| 0 <= k < lists.len() ==> (#[trigger] lists[k]).len() == 0
}

proof fn lemma_mix_silent(lists: Seq<Seq<Voice>>, samples: Seq<Sample>, n: int)
    requires
        all_silent(lists),
        n <= KEY_COUNT,
    ensures
        mix_lists(lists, samples, n) == (lists, 0int, 0int),
    decreases n,
{
    if n > 0 {
        lemma_mix_silent(lists, samples, n - 1);
        assert(lists[n - 1] =~= Seq::<Voice>::empty());
        assert(lists.update(n - 1, lists[n - 1]) =~= lists);
    }
}

proof fn lemma_silent_from(lists: Seq<Seq<Voice>>, regions: Seq<Region>, samples: Seq<Sample>, events: Seq<TimedMidi>, i: int, n: int)
    requires
        all_silent(lists),
        events.len() == 0,
        0 <= i <= n,
    ensures
        render_block(lists, regions, samples, events, 0, i, n) == (
            Seq::new((n - i) as nat, |t: int| 0i64),
            Seq::new((n - i) as nat, |t: int| 0i64),
            lists,
        ),
    decreases n - i,
{
    if i < n {
        lemma_silent_from(lists, regions, samples, events, i + 1, n);
        lemma_mix_silent(lists, samples, KEY_COUNT as int);
        let rest = render_block(lists, regions, samples, events, 0, i + 1, n);
        assert(seq![0i64] + rest.0 =~= Seq::new((n - i) as nat, |t: int| 0i64));
        assert(seq![0i64] + rest.1 =~= Seq::new((n - i) as nat, |t: int| 0i64));
    }
}

/// A block with no events and no live voice is silence of the block's
/// length, and leaves no voice behind.
pub proof fn lemma_silent_block(lists: Seq<Seq<Voice>>, regions: Seq<Region>, samples: Seq<Sample>, events: Seq<TimedMidi>, n: nat)
    requires
        all_silent(lists),
        events.len() == 0,
    ensures
        render_block(lists, regions, samples, events, 0, 0, n as int).0 == Seq::new(n, |t: int| 0i64),
        render_block(lists, regions, samples, events, 0, 0, n as int).1 == Seq::new(n, |t: int| 0i64),
        render_block(lists, regions, samples, events, 0, 0, n as int).2 == lists,
{
    lemma_silent_from(lists, regions, samples, events, 0, n as int);
}

/// A note-off for a key none of whose voices is still playing (in
/// particular a key without voices) changes nothing.
pub proof fn lemma_note_off_without_voices(lists: Seq<Seq<Voice>>, regions: Seq<Region>, note: u8, velocity: u8)
    requires
        note < lists.len(),
        forall|j: int| 0 <= j < lists[note as int].len() ==> (#[trigger] lists[note as int][j]).state != KeyState::Play,
    ensures
        apply_event(lists, regions, MidiEvent::NoteOff { note, velocity }) == lists,
{
    assert(release_all(lists[note as int]) =~= lists[note as int]);
    assert(lists.update(note as int, lists[note as int]) =~= lists);
}

} // verus!
