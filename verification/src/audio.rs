//! Capture sources with an explicit connection lifecycle.
//!
//! A capture source walks a four-state lifecycle `BORN → CONNECTED → HOT →
//! DEAD`; every transition out of the wrong state is an error that leaves the
//! state untouched, and `DEAD` is terminal.  `heat` hands back the reading
//! half of a fresh ring channel, an immutable metadata snapshot and a
//! producer value; a driver thread owned by the caller pushes bytes through
//! the producer while the analysis side drains the reader.
//!
//! Two backends exist: [`SyntheticSource`] generates a deterministic square
//! wave entirely in-process, and [`MonitorSource`] stands for a capture
//! stream of the platform audio server, selected as the first device whose
//! name or description contains a case-insensitive "monitor" substring.  The
//! server I/O itself lives with the caller; every decision — device
//! selection, sample generation, bounded-retry forwarding — is verified here.

use vstd::prelude::*;

use crate::errors::ENguyenError;
use crate::ring::{RingBytes, RingReader, RingWriter};

verus! {

/// Lifecycle of a capture source.  `BORN` is the only legal initial state;
/// `DEAD` is terminal.
#[derive(PartialEq, Eq, Structural, Copy, Clone, Debug)]
pub enum RingState {
    BORN,
    CONNECTED,
    HOT,
    DEAD,
}

/// Coded sample format of a stream; only 16-bit little-endian interleaved
/// PCM is defined.
#[derive(PartialEq, Eq, Structural, Copy, Clone, Debug)]
pub enum SampleFormat {
    S16le,
}

impl SampleFormat {
    /// Bytes per single-channel sample.
    pub open spec fn spec_size(&self) -> int {
        match self {
            SampleFormat::S16le => 2,
        }
    }

    /// Bytes per single-channel sample.
    pub fn size(&self) -> (r: u32)
        ensures
            r == self.spec_size(),
    {
        match self {
            SampleFormat::S16le => 2,
        }
    }
}

/// Minimal immutable snapshot describing a captured source, free of any
/// data backed by audio client or server memory.
#[derive(Clone, Debug)]
pub struct SimpleSource {
    pub name: String,
    pub index: u32,
    pub rate: u32,
    pub channels: u8,
    pub sample_format: SampleFormat,
}

/// Field-wise agreement of two snapshots; names agree as character
/// sequences.
pub open spec fn meta_eq(a: &SimpleSource, b: &SimpleSource) -> bool {
    &&& a.name@ == b.name@
    &&& a.index == b.index
    &&& a.rate == b.rate
    &&& a.channels == b.channels
    &&& a.sample_format == b.sample_format
}

impl SimpleSource {
    /// Bytes per second of the stream.
    pub open spec fn spec_byte_rate(&self) -> int {
        self.channels * self.rate * self.sample_format.spec_size()
    }

    /// Bytes per second.  Used to size buffers for a desired time window.
    pub fn byte_rate(&self) -> (r: u64)
        ensures
            r == self.spec_byte_rate(),
    {
        let c: u64 = self.channels as u64;
        let rt: u64 = self.rate as u64;
        let s: u64 = self.sample_format.size() as u64;
        proof {
            assert(c * rt * s <= 255 * 0xffff_ffffu64 * 2) by (nonlinear_arith)
                requires
                    c <= 255,
                    rt <= 0xffff_ffffu64,
                    s <= 2,
            ;
        }
        c * rt * s
    }

    /// Bytes per interleaved sample frame.  Used to convert byte counts to
    /// sample counts.
    pub fn sample_bytes(&self) -> (r: u32)
        ensures
            r == self.channels * self.sample_format.spec_size(),
    {
        self.channels as u32 * self.sample_format.size()
    }

    /// Builds a snapshot from the fields an enumerated source reports; a
    /// source that reports no name is called "Unnamed audio source".
    pub fn from_parts(
        name: Option<String>,
        index: u32,
        rate: u32,
        channels: u8,
        sample_format: SampleFormat,
    ) -> (r: SimpleSource)
        ensures
            name matches Some(n) ==> r.name@ == n@,
            name is None ==> r.name@ == "Unnamed audio source"@,
            r.index == index,
            r.rate == rate,
            r.channels == channels,
            r.sample_format == sample_format,
    {
        let display = match name {
            Some(n) => n,
            None => "Unnamed audio source".to_owned(),
        };
        SimpleSource { name: display, index, rate, channels, sample_format }
    }

    /// An explicit copy; the compiler-derived `Clone` says nothing to the
    /// verifier, this one keeps every field.
    pub fn duplicate(&self) -> (r: SimpleSource)
        ensures
            meta_eq(&r, self),
    {
        SimpleSource {
            name: self.name.clone(),
            index: self.index,
            rate: self.rate,
            channels: self.channels,
            sample_format: self.sample_format,
        }
    }
}

impl Default for SimpleSource {
    /// The default test snapshot: stereo 16-bit little-endian PCM at
    /// 44100 Hz.
    fn default() -> (r: Self)
        ensures
            r.name@ == "Test simple source info"@,
            r.index == 0,
            r.rate == 44100,
            r.channels == 2,
            r.sample_format == SampleFormat::S16le,
    {
        SimpleSource {
            name: "Test simple source info".to_owned(),
            index: 0,
            rate: 44100,
            channels: 2,
            sample_format: SampleFormat::S16le,
        }
    }
}

/// The capture capability: the four-state lifecycle shared by all backends.
/// `connect` succeeds exactly from `BORN`, `heat` exactly from `CONNECTED`
/// (when the backend configuration is usable), `chill` exactly from `HOT`;
/// a refused transition changes nothing.
pub trait AudioStream: Sized {
    /// Backend-specific value that the caller's driver thread pumps while
    /// the source is hot.
    type Producer;

    /// Current lifecycle state.
    spec fn lifecycle(&self) -> RingState;

    /// Metadata snapshot the backend will report from `heat`.
    spec fn spec_source_info(&self) -> SimpleSource;

    /// Backend-specific condition, beyond the lifecycle, for `heat` to
    /// succeed.
    spec fn ready_to_heat(&self) -> bool;

    /// What `heat` promises of the producer it hands out.
    spec fn producer_wf(&self, p: &Self::Producer) -> bool;

    /// `BORN → CONNECTED`; from any other state an error and no change.
    fn connect(&mut self) -> (r: Result<RingState, ENguyenError>)
        ensures
            r is Ok <==> old(self).lifecycle() == RingState::BORN,
            r is Ok ==> r->Ok_0 == RingState::CONNECTED && final(self).lifecycle()
                == RingState::CONNECTED,
            r is Err ==> *final(self) == *old(self) && r->Err_0.message@
                == "Ring already connected.  Get your own"@,
            final(self).spec_source_info() == old(self).spec_source_info(),
            final(self).ready_to_heat() == old(self).ready_to_heat(),
    ;

    /// `CONNECTED → HOT`; returns the reader half of a fresh ring channel,
    /// the metadata snapshot and the producer for the driver thread.
    fn heat(&mut self) -> (r: Result<(RingReader, SimpleSource, Self::Producer), ENguyenError>)
        ensures
            r is Ok <==> old(self).lifecycle() == RingState::CONNECTED && old(
                self,
            ).ready_to_heat(),
            r is Ok ==> final(self).lifecycle() == RingState::HOT,
            r is Ok ==> meta_eq(&r->Ok_0.1, &old(self).spec_source_info()),
            r is Ok ==> old(self).producer_wf(&r->Ok_0.2),
            r is Err ==> final(self).lifecycle() == old(self).lifecycle(),
            r is Err && old(self).lifecycle() != RingState::CONNECTED ==> r->Err_0.message@
                == "Can't heat a ring that isn't connected"@,
            final(self).spec_source_info() == old(self).spec_source_info(),
            final(self).ready_to_heat() == old(self).ready_to_heat(),
    ;

    /// `HOT → DEAD`; the caller must still stop and join its driver thread.
    fn chill(&mut self) -> (r: Result<RingState, ENguyenError>)
        ensures
            r is Ok <==> old(self).lifecycle() == RingState::HOT,
            r is Ok ==> r->Ok_0 == RingState::DEAD && final(self).lifecycle() == RingState::DEAD,
            r is Err ==> *final(self) == *old(self) && r->Err_0.message@
                == "Can't chill a ring that isn't hot"@,
            final(self).spec_source_info() == old(self).spec_source_info(),
            final(self).ready_to_heat() == old(self).ready_to_heat(),
    ;

    /// The current lifecycle state, observed.
    fn state(&self) -> (r: RingState)
        ensures
            r == self.lifecycle(),
    ;
}

/// State of the square-wave sample generator: amplitudes for the two wave
/// polarities, samples per half cycle, samples per pacing step, and the
/// position inside the current half cycle.
#[derive(PartialEq, Eq, Structural, Copy, Clone, Debug)]
pub struct SquareWaveGen {
    /// Sample rate in Hz the wave is generated for.
    pub rate: u32,
    /// Square wave frequency in Hz.
    pub frequency: u32,
    /// Pacing: steps per second the driver thread emits.
    pub fraction: u32,
    /// Samples per half cycle of the wave: `rate / (2 × frequency)`.
    pub samples_per_cycle: usize,
    /// Samples emitted per pacing step: `rate / fraction`.
    pub step_samples: usize,
    /// Amplitude of the high half cycle.
    pub high_amplitude: i16,
    /// Amplitude of the low half cycle.
    pub low_amplitude: i16,
    /// Polarity of the current half cycle.
    pub is_high: bool,
    /// Samples already generated in the current half cycle.
    pub cycle_count: usize,
}

impl SquareWaveGen {
    /// The counters a step needs are in range; field relations beyond this
    /// are stated by the source that builds the generator.
    pub open spec fn gen_ok(&self) -> bool {
        &&& self.samples_per_cycle >= 1
        &&& self.step_samples >= 1
        &&& self.cycle_count < self.samples_per_cycle
    }
}

/// Amplitude of the next sample the generator will emit.
pub open spec fn current_amp(g: SquareWaveGen) -> i16 {
    if g.is_high {
        g.high_amplitude
    } else {
        g.low_amplitude
    }
}

/// Generator state after emitting one sample: the polarity flips exactly
/// when the half cycle completes.
pub open spec fn step_one(g: SquareWaveGen) -> SquareWaveGen {
    if g.cycle_count + 1 == g.samples_per_cycle {
        SquareWaveGen { is_high: !g.is_high, cycle_count: 0, ..g }
    } else {
        SquareWaveGen { cycle_count: (g.cycle_count + 1) as usize, ..g }
    }
}

/// The next `count` samples of the wave from state `g`.
pub open spec fn wave_samples(g: SquareWaveGen, count: nat) -> Seq<i16>
    decreases count,
{
    if count == 0 {
        Seq::empty()
    } else {
        seq![current_amp(g)] + wave_samples(step_one(g), (count - 1) as nat)
    }
}

/// Generator state after emitting `count` samples from state `g`.
pub open spec fn wave_state(g: SquareWaveGen, count: nat) -> SquareWaveGen
    decreases count,
{
    if count == 0 {
        g
    } else {
        wave_state(step_one(g), (count - 1) as nat)
    }
}

/// Generator state after a run of `k` samples inside one half cycle: the
/// position advances by `k`, and the polarity flips exactly when the half
/// cycle completes.
pub open spec fn advanced(g: SquareWaveGen, k: nat) -> SquareWaveGen {
    if g.cycle_count + k == g.samples_per_cycle {
        SquareWaveGen { is_high: !g.is_high, cycle_count: 0, ..g }
    } else {
        SquareWaveGen { cycle_count: (g.cycle_count + k) as usize, ..g }
    }
}

/// The wave has exactly one sample per count.
pub proof fn lemma_wave_len(g: SquareWaveGen, count: nat)
    ensures
        wave_samples(g, count).len() == count,
    decreases count,
{
    if count > 0 {
        lemma_wave_len(step_one(g), (count - 1) as nat);
    }
}

/// Emitting `a + b` samples is emitting `a`, then `b` more from the state
/// reached.
proof fn lemma_wave_split(g: SquareWaveGen, a: nat, b: nat)
    ensures
        wave_samples(g, a + b) == wave_samples(g, a) + wave_samples(wave_state(g, a), b),
        wave_state(g, a + b) == wave_state(wave_state(g, a), b),
    decreases a,
{
    if a == 0 {
        assert(wave_samples(g, b) =~= wave_samples(g, 0) + wave_samples(g, b));
    } else {
        lemma_wave_split(step_one(g), (a - 1) as nat, b);
        assert(wave_samples(g, a + b) =~= wave_samples(g, a) + wave_samples(
            wave_state(g, a),
            b,
        ));
    }
}

/// Within one half cycle every sample carries the current amplitude, and
/// the state advances as `advanced` says.
proof fn lemma_wave_run(g: SquareWaveGen, k: nat)
    requires
        g.gen_ok(),
        1 <= k <= g.samples_per_cycle - g.cycle_count,
    ensures
        wave_samples(g, k) == Seq::new(k, |i: int| current_amp(g)),
        wave_state(g, k) == advanced(g, k),
        advanced(g, k).gen_ok(),
        advanced(g, k).step_samples == g.step_samples,
    decreases k,
{
    if k == 1 {
        assert(wave_samples(step_one(g), 0) =~= Seq::<i16>::empty());
        assert(wave_samples(g, 1) =~= Seq::new(1, |i: int| current_amp(g)));
        assert(wave_state(g, 1) == wave_state(step_one(g), 0));
        assert(wave_state(step_one(g), 0) == step_one(g));
        assert(step_one(g) == advanced(g, 1));
    } else {
        let g1 = step_one(g);
        assert(g1.cycle_count == g.cycle_count + 1 && g1.is_high == g.is_high);
        assert(current_amp(g1) == current_amp(g));
        lemma_wave_run(g1, (k - 1) as nat);
        assert(wave_samples(g, k) == seq![current_amp(g)] + wave_samples(g1, (k - 1) as nat));
        assert(wave_samples(g, k) =~= Seq::new(k, |i: int| current_amp(g)));
        assert(wave_state(g, k) == wave_state(g1, (k - 1) as nat));
        assert(advanced(g1, (k - 1) as nat) == advanced(g, k));
    }
}

impl SquareWaveGen {
    /// Emits the samples of one pacing step, flipping polarity at each half
    /// cycle boundary; a flip mid-step takes priority over the step
    /// boundary.  With counters out of range nothing is emitted and nothing
    /// changes.
    pub fn next_step(&mut self) -> (r: Vec<i16>)
        ensures
            old(self).gen_ok() ==> {
                &&& r@ == wave_samples(*old(self), old(self).step_samples as nat)
                &&& *final(self) == wave_state(*old(self), old(self).step_samples as nat)
                &&& final(self).gen_ok()
                &&& final(self).step_samples == old(self).step_samples
            },
            !old(self).gen_ok() ==> r@ == Seq::<i16>::empty() && *final(self) == *old(self),
            r@.len() == (if old(self).gen_ok() {
                old(self).step_samples as int
            } else {
                0
            }),
    {
        if !(self.samples_per_cycle >= 1 && self.step_samples >= 1 && self.cycle_count
            < self.samples_per_cycle) {
            let empty: Vec<i16> = Vec::new();
            return empty;
        }
        let total = self.step_samples;
        let mut produced: usize = 0;
        let mut out: Vec<i16> = Vec::with_capacity(total);
        proof {
            lemma_wave_len(*old(self), old(self).step_samples as nat);
        }
        while produced < total
            invariant
                produced <= total,
                old(self).gen_ok(),
                total == old(self).step_samples,
                self.gen_ok(),
                self.step_samples == total,
                out@ == wave_samples(*old(self), produced as nat),
                *self == wave_state(*old(self), produced as nat),
            decreases total - produced,
        {
            let cycle_remaining = self.samples_per_cycle - self.cycle_count;
            let step_remaining = total - produced;
            let run = if cycle_remaining > step_remaining {
                step_remaining
            } else {
                cycle_remaining
            };
            let amp = if self.is_high {
                self.high_amplitude
            } else {
                self.low_amplitude
            };
            let ghost mid = *self;
            let ghost out_before = out@;
            let mut j: usize = 0;
            while j < run
                invariant
                    j <= run,
                    amp == current_amp(mid),
                    out@ == out_before + Seq::new(j as nat, |i: int| current_amp(mid)),
                decreases run - j,
            {
                out.push(amp);
                proof {
                    assert(out_before + Seq::new(j as nat, |i: int| current_amp(mid)).push(
                        current_amp(mid),
                    ) =~= out_before + Seq::new((j + 1) as nat, |i: int| current_amp(mid)));
                }
                j += 1;
            }
            proof {
                lemma_wave_run(mid, run as nat);
                lemma_wave_split(*old(self), produced as nat, run as nat);
                assert(out@ =~= wave_samples(*old(self), (produced + run) as nat));
            }
            if run == cycle_remaining {
                self.is_high = !self.is_high;
                self.cycle_count = 0;
            } else {
                self.cycle_count = self.cycle_count + run;
            }
            proof {
                assert(*self == advanced(mid, run as nat));
            }
            produced = produced + run;
        }
        out
    }
}

/// The signed 16-bit value encoded little-endian by the byte pair
/// `(b0, b1)`.
pub open spec fn spec_i16_le(b0: u8, b1: u8) -> int {
    if b1 < 128 {
        b0 + 256 * b1
    } else {
        b0 + 256 * b1 - 65536
    }
}

/// The little-endian byte pair of a signed 16-bit sample.
pub fn sample_le_bytes(a: i16) -> (r: (u8, u8))
    ensures
        spec_i16_le(r.0, r.1) == a as int,
{
    let u: u32 = if a >= 0 {
        a as u32
    } else {
        (a as i32 + 65536) as u32
    };
    let b0 = (u % 256) as u8;
    let b1 = (u / 256) as u8;
    proof {
        vstd::arithmetic::div_mod::lemma_fundamental_div_mod(u as int, 256);
        if a < 0 {
            vstd::arithmetic::div_mod::lemma_div_is_ordered(32768, u as int, 256);
        } else {
            vstd::arithmetic::div_mod::lemma_div_is_ordered(u as int, 32767, 256);
        }
    }
    (b0, b1)
}

/// The signed 16-bit sample encoded by a little-endian byte pair.
pub fn i16_from_le(b0: u8, b1: u8) -> (r: i16)
    ensures
        r as int == spec_i16_le(b0, b1),
{
    let v: u32 = b0 as u32 + 256 * b1 as u32;
    if v < 32768 {
        v as i16
    } else {
        (v as i32 - 65536) as i16
    }
}

/// Byte `4j .. 4j+4` of a frame sequence carries sample `j` on both stereo
/// channels, little-endian.
pub open spec fn frame_ok(bytes: Seq<u8>, samples: Seq<i16>, j: int) -> bool {
    &&& spec_i16_le(bytes[4 * j], bytes[4 * j + 1]) == samples[j] as int
    &&& bytes[4 * j + 2] == bytes[4 * j]
    &&& bytes[4 * j + 3] == bytes[4 * j + 1]
}

/// Packs mono samples into interleaved stereo 16-bit little-endian PCM
/// frames: each sample appears on both channels.
pub fn stereo_frames(samples: &Vec<i16>) -> (r: Vec<u8>)
    requires
        samples@.len() * 4 <= usize::MAX,
    ensures
        r@.len() == 4 * samples@.len(),
        forall|j: int| 0 <= j < samples@.len() ==> #[trigger] frame_ok(r@, samples@, j),
{
    let n = samples.len();
    let mut out: Vec<u8> = Vec::with_capacity(4 * n);
    let mut i: usize = 0;
    while i < n
        invariant
            i <= n,
            n == samples@.len(),
            out@.len() == 4 * i,
            forall|j: int| 0 <= j < i ==> #[trigger] frame_ok(out@, samples@, j),
        decreases n - i,
    {
        let (b0, b1) = sample_le_bytes(samples[i]);
        let ghost prev = out@;
        out.push(b0);
        out.push(b1);
        out.push(b0);
        out.push(b1);
        proof {
            assert forall|j: int| 0 <= j < i implies #[trigger] frame_ok(out@, samples@, j) by {
                assert(out@[4 * j] == prev[4 * j]);
                assert(out@[4 * j + 1] == prev[4 * j + 1]);
                assert(out@[4 * j + 2] == prev[4 * j + 2]);
                assert(out@[4 * j + 3] == prev[4 * j + 3]);
                assert(frame_ok(prev, samples@, j));
            }
            assert(frame_ok(out@, samples@, i as int));
        }
        i += 1;
    }
    out
}

/// Producer half of a hot synthetic source: the generator plus the writing
/// half of the ring channel.  The caller's driver thread calls `pump` once
/// per pacing step, sleeping `1 / fraction` seconds in between.
pub struct SquareWaveProducer {
    gen: SquareWaveGen,
    writer: RingWriter,
}

impl SquareWaveProducer {
    /// The generator state carried by this producer.
    pub closed spec fn spec_gen(&self) -> SquareWaveGen {
        self.gen
    }

    /// The generator state, observed.
    pub fn generator(&self) -> (r: SquareWaveGen)
        ensures
            r == self.spec_gen(),
    {
        self.gen
    }

    /// The generator counters are in range and a step's bytes fit the
    /// machine; `heat` establishes this and `pump` keeps it.
    pub open spec fn pump_ok(&self) -> bool {
        &&& self.spec_gen().gen_ok()
        &&& self.spec_gen().step_samples * 4 <= usize::MAX
    }

    /// Generates one pacing step of samples, packs them as stereo frames
    /// and offers them to the ring channel; returns the byte count of the
    /// generated frames, `4 × step_samples` whenever the generator counters
    /// are in range.  The channel's grant covers the frames whenever the
    /// grown buffer fits the machine, so an offered step is dropped only
    /// past that point.
    pub fn pump(&mut self) -> (r: usize)
        ensures
            old(self).pump_ok() ==> {
                &&& r == 4 * old(self).spec_gen().step_samples
                &&& final(self).spec_gen() == wave_state(
                    old(self).spec_gen(),
                    old(self).spec_gen().step_samples as nat,
                )
                &&& final(self).spec_gen().gen_ok()
                &&& final(self).pump_ok()
            },
            !old(self).pump_ok() ==> r == 0 && final(self).spec_gen() == old(self).spec_gen(),
    {
        if !(self.gen.samples_per_cycle >= 1 && self.gen.step_samples >= 1 && self.gen.cycle_count
            < self.gen.samples_per_cycle && self.gen.step_samples <= usize::MAX / 4) {
            proof {
                vstd::arithmetic::div_mod::lemma_fundamental_div_mod(usize::MAX as int, 4);
            }
            return 0;
        }
        proof {
            vstd::arithmetic::div_mod::lemma_fundamental_div_mod(usize::MAX as int, 4);
        }
        let samples = self.gen.next_step();
        let data = stereo_frames(&samples);
        let granted = self.writer.reserve(data.len());
        if data.len() <= granted {
            self.writer.write(data.as_slice());
        }
        data.len()
    }
}

/// The amplitude of the half cycle the generator is not in.
pub open spec fn other_amp(g: SquareWaveGen) -> i16 {
    if g.is_high {
        g.low_amplitude
    } else {
        g.high_amplitude
    }
}

/// The generated wave really is a square wave: from a half-cycle boundary,
/// one full period is `samples_per_cycle` samples at the current amplitude
/// followed by `samples_per_cycle` samples at the other, with the state
/// back at a boundary of the original polarity.
pub proof fn lemma_square_wave_period(g: SquareWaveGen)
    requires
        g.gen_ok(),
        g.cycle_count == 0,
    ensures
        wave_samples(g, (2 * g.samples_per_cycle) as nat) == Seq::new(
            g.samples_per_cycle as nat,
            |i: int| current_amp(g),
        ) + Seq::new(g.samples_per_cycle as nat, |i: int| other_amp(g)),
        wave_state(g, (2 * g.samples_per_cycle) as nat) == g,
{
    let spc = g.samples_per_cycle as nat;
    lemma_wave_run(g, spc);
    let flipped = advanced(g, spc);
    assert(flipped.cycle_count == 0 && flipped.is_high == !g.is_high);
    lemma_wave_run(flipped, spc);
    lemma_wave_split(g, spc, spc);
    assert(current_amp(flipped) == other_amp(g));
    assert(advanced(flipped, spc) == g);
}

/// The synthetic backend's derived byte rate: when the pacing fraction
/// divides the sample rate, the `fraction` pacing steps of one second yield
/// exactly `byte_rate` bytes — channels × rate × bytes-per-sample — since
/// every step submits `4 × step_samples` bytes.
pub proof fn lemma_synthetic_byte_rate(g: SquareWaveGen, meta: SimpleSource)
    requires
        g.step_samples == g.rate as int / g.fraction as int,
        1 <= g.fraction,
        g.rate as int % g.fraction as int == 0,
        meta.rate == g.rate,
        meta.channels == 2,
        meta.sample_format == SampleFormat::S16le,
    ensures
        g.fraction * (4 * g.step_samples) == meta.spec_byte_rate(),
{
    vstd::arithmetic::div_mod::lemma_fundamental_div_mod(g.rate as int, g.fraction as int);
    assert(g.rate as int == g.fraction as int * g.step_samples as int);
    assert(g.fraction as int * (4 * g.step_samples as int) == 4 * (g.fraction as int
        * g.step_samples as int)) by (nonlinear_arith);
}

/// The deterministic in-process backend: a square wave at a configurable
/// frequency and volume, paced in fractions of a second.
pub struct SyntheticSource {
    volume_percent: u8,
    frequency: u32,
    inverse_second_fraction: u32,
    state: RingState,
    source_info: SimpleSource,
}

impl SyntheticSource {
    /// Square wave frequency in Hz.
    pub closed spec fn spec_frequency(&self) -> u32 {
        self.frequency
    }

    /// Volume as a percentage of full scale.
    pub closed spec fn spec_volume_percent(&self) -> u8 {
        self.volume_percent
    }

    /// Pacing steps per second of the driver thread.
    pub closed spec fn spec_fraction(&self) -> u32 {
        self.inverse_second_fraction
    }

    /// The configuration values a source must satisfy for `heat` to build a
    /// generator: a positive frequency at most half the sample rate, between
    /// one pacing step per second and one per sample, a volume within full
    /// scale, and a byte count per second that fits the machine.
    pub open spec fn config_ok(
        frequency: u32,
        volume_percent: u8,
        fraction: u32,
        rate: u32,
    ) -> bool {
        &&& 1 <= frequency
        &&& 2 * frequency <= rate
        &&& 1 <= fraction <= rate
        &&& volume_percent <= 100
        &&& 4 * rate <= usize::MAX
    }

    /// A source in state `BORN` with the given wave tuning over the default
    /// stream (stereo 16-bit little-endian PCM at 44100 Hz).  Rejected
    /// exactly when the tuning violates `config_ok`.
    pub fn new(frequency: u32, volume_percent: u8, inverse_second_fraction: u32) -> (r: Result<
        SyntheticSource,
        ENguyenError,
    >)
        ensures
            r is Ok <==> SyntheticSource::config_ok(
                frequency,
                volume_percent,
                inverse_second_fraction,
                44100,
            ),
            r matches Ok(s) ==> {
                &&& s.lifecycle() == RingState::BORN
                &&& s.ready_to_heat()
                &&& s.spec_frequency() == frequency
                &&& s.spec_volume_percent() == volume_percent
                &&& s.spec_fraction() == inverse_second_fraction
                &&& s.spec_source_info().rate == 44100
                &&& s.spec_source_info().channels == 2
                &&& s.spec_source_info().sample_format == SampleFormat::S16le
            },
            r matches Err(e) ==> e.message@ == "Synthetic source configuration rejected"@,
    {
        let info = SimpleSource::default();
        if 1 <= frequency && 2 * frequency as u64 <= info.rate as u64 && 1
            <= inverse_second_fraction && inverse_second_fraction <= info.rate && volume_percent
            <= 100 && info.rate as u64 * 4 <= usize::MAX as u64 {
            Ok(
                SyntheticSource {
                    volume_percent,
                    frequency,
                    inverse_second_fraction,
                    state: RingState::BORN,
                    source_info: info,
                },
            )
        } else {
            Err(ENguyenError::from("Synthetic source configuration rejected"))
        }
    }
}

impl Default for SyntheticSource {
    /// A 200 Hz square wave at half volume, emitting hundredths of a second.
    fn default() -> (r: Self)
        ensures
            r.lifecycle() == RingState::BORN,
            r.ready_to_heat(),
            r.spec_frequency() == 200,
            r.spec_volume_percent() == 50,
            r.spec_fraction() == 100,
            r.spec_source_info().rate == 44100,
            r.spec_source_info().channels == 2,
            r.spec_source_info().sample_format == SampleFormat::S16le,
    {
        SyntheticSource {
            volume_percent: 50,
            frequency: 200,
            inverse_second_fraction: 100,
            state: RingState::BORN,
            source_info: SimpleSource::default(),
        }
    }
}

impl AudioStream for SyntheticSource {
    type Producer = SquareWaveProducer;

    closed spec fn lifecycle(&self) -> RingState {
        self.state
    }

    closed spec fn spec_source_info(&self) -> SimpleSource {
        self.source_info
    }

    open spec fn ready_to_heat(&self) -> bool {
        SyntheticSource::config_ok(
            self.spec_frequency(),
            self.spec_volume_percent(),
            self.spec_fraction(),
            self.spec_source_info().rate,
        )
    }

    /// The producer of a hot synthetic source carries a fresh generator
    /// derived from the wave tuning: high half cycle first, counters at
    /// zero, amplitudes scaled by the volume.
    open spec fn producer_wf(&self, p: &SquareWaveProducer) -> bool {
        let g = p.spec_gen();
        &&& g.rate == self.spec_source_info().rate
        &&& g.frequency == self.spec_frequency()
        &&& g.fraction == self.spec_fraction()
        &&& g.samples_per_cycle == g.rate as int / (2 * g.frequency as int)
        &&& g.step_samples == g.rate as int / g.fraction as int
        &&& g.high_amplitude == 32767 * self.spec_volume_percent() as int / 100
        &&& g.low_amplitude == -(g.high_amplitude as int) - 1
        &&& g.is_high == true
        &&& g.cycle_count == 0
        &&& g.gen_ok()
        &&& g.step_samples * 4 <= usize::MAX
    }

    fn connect(&mut self) -> (r: Result<RingState, ENguyenError>)
        ensures
            final(self).spec_frequency() == old(self).spec_frequency(),
            final(self).spec_volume_percent() == old(self).spec_volume_percent(),
            final(self).spec_fraction() == old(self).spec_fraction(),
    {
        if self.state == RingState::BORN {
            self.state = RingState::CONNECTED;
            Ok(RingState::CONNECTED)
        } else {
            Err(ENguyenError::from("Ring already connected.  Get your own"))
        }
    }

    fn heat(&mut self) -> (r: Result<
        (RingReader, SimpleSource, SquareWaveProducer),
        ENguyenError,
    >)
        ensures
            final(self).spec_frequency() == old(self).spec_frequency(),
            final(self).spec_volume_percent() == old(self).spec_volume_percent(),
            final(self).spec_fraction() == old(self).spec_fraction(),
    {
        if self.state != RingState::CONNECTED {
            return Err(ENguyenError::from("Can't heat a ring that isn't connected"));
        }
        let rate = self.source_info.rate;
        if !(1 <= self.frequency && 2 * self.frequency as u64 <= rate as u64 && 1
            <= self.inverse_second_fraction && self.inverse_second_fraction <= rate
            && self.volume_percent <= 100 && rate as u64 * 4 <= usize::MAX as u64) {
            return Err(ENguyenError::from("Synthetic source configuration rejected"));
        }
        proof {
            vstd::arithmetic::div_mod::lemma_div_non_zero(
                rate as int,
                2 * self.frequency as int,
            );
            vstd::arithmetic::div_mod::lemma_div_non_zero(
                rate as int,
                self.inverse_second_fraction as int,
            );
            vstd::arithmetic::div_mod::lemma_div_nonincreasing(
                rate as int,
                self.inverse_second_fraction as int,
            );
        }
        let samples_per_cycle = rate / (2 * self.frequency);
        let step_samples = rate / self.inverse_second_fraction;
        let base: u32 = 32767 * self.volume_percent as u32 / 100;
        let high_amplitude: i16 = base as i16;
        let low_amplitude: i16 = -high_amplitude - 1;
        let gen = SquareWaveGen {
            rate,
            frequency: self.frequency,
            fraction: self.inverse_second_fraction,
            samples_per_cycle: samples_per_cycle as usize,
            step_samples: step_samples as usize,
            high_amplitude,
            low_amplitude,
            is_high: true,
            cycle_count: 0,
        };
        let (tx, rx) = RingBytes::new(16384);
        let producer = SquareWaveProducer { gen, writer: tx };
        self.state = RingState::HOT;
        Ok((rx, self.source_info.duplicate(), producer))
    }

    fn chill(&mut self) -> (r: Result<RingState, ENguyenError>)
        ensures
            final(self).spec_frequency() == old(self).spec_frequency(),
            final(self).spec_volume_percent() == old(self).spec_volume_percent(),
            final(self).spec_fraction() == old(self).spec_fraction(),
    {
        if self.state == RingState::HOT {
            self.state = RingState::DEAD;
            Ok(RingState::DEAD)
        } else {
            Err(ENguyenError::from("Can't chill a ring that isn't hot"))
        }
    }

    fn state(&self) -> (r: RingState) {
        self.state
    }
}

/// Identity of one capture-capable stream of the audio server: its name and
/// description as UTF-8 bytes, and the server-side index.
#[derive(Clone, Debug)]
pub struct ServerStream {
    pub name: Vec<u8>,
    pub index: u32,
    pub desc: Vec<u8>,
}

impl ServerStream {
    /// Builds a stream identity from what enumeration reports: a nameless
    /// device is skipped, a missing description becomes empty.
    pub fn from_parts(name: Option<Vec<u8>>, index: u32, desc: Option<Vec<u8>>) -> (r: Option<
        ServerStream,
    >)
        ensures
            r is Some <==> name is Some,
            r matches Some(s) ==> ({
                &&& name matches Some(n) && s.name@ == n@
                &&& s.index == index
                &&& (desc matches Some(d) ==> s.desc@ == d@)
                &&& (desc is None ==> s.desc@ == Seq::<u8>::empty())
            }),
    {
        match name {
            Some(n) => {
                let d = match desc {
                    Some(d) => d,
                    None => Vec::new(),
                };
                Some(ServerStream { name: n, index, desc: d })
            },
            None => None,
        }
    }
}

/// Byte `b` is the letter `lower` in either case; `lower` is a lower-case
/// ASCII letter, whose upper-case code is 32 below it.
pub open spec fn byte_ci(b: u8, lower: u8) -> bool {
    b == lower || b as int == lower as int - 32
}

/// The seven bytes at `i` spell "monitor", each letter in either case.
pub open spec fn monitor_at(bytes: Seq<u8>, i: int) -> bool {
    &&& byte_ci(bytes[i], 109)
    &&& byte_ci(bytes[i + 1], 111)
    &&& byte_ci(bytes[i + 2], 110)
    &&& byte_ci(bytes[i + 3], 105)
    &&& byte_ci(bytes[i + 4], 116)
    &&& byte_ci(bytes[i + 5], 111)
    &&& byte_ci(bytes[i + 6], 114)
}

/// The bytes contain a case-insensitive "monitor" substring.
pub open spec fn contains_ci_monitor(bytes: Seq<u8>) -> bool {
    exists|i: int| 0 <= i && i + 7 <= bytes.len() && #[trigger] monitor_at(bytes, i)
}

/// A device is a monitor when its name or its description says so.
pub open spec fn is_monitor_device(s: &ServerStream) -> bool {
    contains_ci_monitor(s.name@) || contains_ci_monitor(s.desc@)
}

/// Whether `b` is `lower` in either letter case.
fn byte_ci_eq(b: u8, lower: u8) -> (r: bool)
    requires
        lower >= 32,
    ensures
        r == byte_ci(b, lower),
{
    b == lower || b == lower - 32
}

/// Searches the bytes for a case-insensitive "monitor" substring.
pub fn contains_monitor(hay: &Vec<u8>) -> (r: bool)
    ensures
        r == contains_ci_monitor(hay@),
{
    let n = hay.len();
    if n < 7 {
        return false;
    }
    let limit = n - 7;
    let mut i: usize = 0;
    while i <= limit
        invariant
            limit == n - 7,
            n == hay@.len(),
            n >= 7,
            i <= limit + 1,
            forall|k: int| 0 <= k < i ==> !monitor_at(hay@, k),
        decreases limit + 1 - i,
    {
        let hit = byte_ci_eq(hay[i], 109) && byte_ci_eq(hay[i + 1], 111) && byte_ci_eq(
            hay[i + 2],
            110,
        ) && byte_ci_eq(hay[i + 3], 105) && byte_ci_eq(hay[i + 4], 116) && byte_ci_eq(
            hay[i + 5],
            111,
        ) && byte_ci_eq(hay[i + 6], 114);
        if hit {
            proof {
                assert(monitor_at(hay@, i as int));
            }
            return true;
        }
        i += 1;
    }
    false
}

/// Entry `i` is a monitor device and no earlier entry is.
pub open spec fn first_monitor_at(devices: Seq<(ServerStream, SimpleSource)>, i: int) -> bool {
    &&& 0 <= i < devices.len()
    &&& is_monitor_device(&devices[i].0)
    &&& forall|k: int| 0 <= k < i ==> !is_monitor_device(&#[trigger] devices[k].0)
}

/// Position of the first device whose name or description contains a
/// case-insensitive "monitor" substring, if any does.
pub fn first_monitor(devices: &Vec<(ServerStream, SimpleSource)>) -> (r: Option<usize>)
    ensures
        r matches Some(i) ==> first_monitor_at(devices@, i as int),
        r is None ==> forall|k: int|
            0 <= k < devices@.len() ==> !is_monitor_device(&#[trigger] devices@[k].0),
{
    let n = devices.len();
    let mut i: usize = 0;
    while i < n
        invariant
            i <= n,
            n == devices@.len(),
            forall|k: int| 0 <= k < i ==> !is_monitor_device(&#[trigger] devices@[k].0),
        decreases n - i,
    {
        let entry = &devices[i];
        if contains_monitor(&entry.0.name) || contains_monitor(&entry.0.desc) {
            return Some(i);
        }
        i += 1;
    }
    None
}

/// Producer half of a hot monitor source: the writing half of the ring
/// channel, fed by the caller's capture thread with the byte chunks the
/// server hands out.
pub struct MonitorFeed {
    writer: RingWriter,
}

impl MonitorFeed {
    /// Forwards one chunk into the ring channel, retrying a bounded number
    /// of times to obtain capacity for the chunk; after the retry bound the
    /// chunk is discarded rather than stalling capture.  Returns the count
    /// of bytes submitted: all of them or none.
    pub fn forward(&self, data: &[u8]) -> (written: usize)
        ensures
            written == data@.len() || written == 0,
    {
        let amount = data.len();
        let mut written: usize = 0;
        let mut sentinel: u32 = 100;
        while sentinel > 0 && written < amount
            invariant
                written == 0 || written == amount,
            decreases sentinel,
        {
            let wavail = self.writer.reserve(amount);
            if wavail >= amount {
                self.writer.write(data);
                written = amount;
            }
            sentinel = sentinel - 1;
        }
        written
    }
}

/// What one poll of the record stream yielded, reduced to the classes the
/// capture loop distinguishes.
#[derive(PartialEq, Eq, Structural, Copy, Clone, Debug)]
pub enum ChunkKind {
    /// Decoded audio bytes are available.
    Data,
    /// A silence hole: a length without bytes.
    Hole,
    /// Nothing new yet.
    NothingYet,
}

/// What the capture loop does with one polled chunk.
#[derive(PartialEq, Eq, Structural, Copy, Clone, Debug)]
pub enum ChunkAction {
    /// Forward the bytes into the ring, then discard them from the stream.
    ForwardThenDiscard,
    /// Discard without forwarding.
    Discard,
    /// Sleep briefly and poll again.
    Sleep,
}

/// The decision of the capture poll loop: available data is forwarded into
/// the ring and discarded from the stream, a silence hole is discarded
/// without forwarding, and an empty poll is slept on.
pub fn monitor_chunk_step(kind: ChunkKind) -> (r: ChunkAction)
    ensures
        kind == ChunkKind::Data <==> r == ChunkAction::ForwardThenDiscard,
        kind == ChunkKind::Hole <==> r == ChunkAction::Discard,
        kind == ChunkKind::NothingYet <==> r == ChunkAction::Sleep,
{
    match kind {
        ChunkKind::Data => ChunkAction::ForwardThenDiscard,
        ChunkKind::Hole => ChunkAction::Discard,
        ChunkKind::NothingYet => ChunkAction::Sleep,
    }
}

/// What the audio server reports while a context or stream is brought up,
/// reduced to the classes the wait loop distinguishes.
#[derive(PartialEq, Eq, Structural, Copy, Clone, Debug)]
pub enum ServerReadiness {
    Ready,
    Failed,
    Terminated,
    Pending,
}

/// What the wait loop does next.
#[derive(PartialEq, Eq, Structural, Copy, Clone, Debug)]
pub enum ReadyAction {
    Proceed,
    Wait,
}

/// The decision of the ready-wait poll loop: proceed once the server
/// reports ready, keep waiting on a transitional state, and fail on a
/// failed or terminated report.  The caller's loop performs the waiting
/// itself and stops its mainloop on the error.
pub fn ready_wait_step(state: ServerReadiness) -> (r: Result<ReadyAction, ENguyenError>)
    ensures
        state == ServerReadiness::Ready <==> (r matches Ok(a) && a == ReadyAction::Proceed),
        state == ServerReadiness::Pending <==> (r matches Ok(a) && a == ReadyAction::Wait),
        r is Err <==> (state == ServerReadiness::Failed || state == ServerReadiness::Terminated),
        r matches Err(e) ==> e.message@
            == "PulseAudio returned Failed|Terminated.  Check sound server."@,
{
    match state {
        ServerReadiness::Ready => Ok(ReadyAction::Proceed),
        ServerReadiness::Pending => Ok(ReadyAction::Wait),
        ServerReadiness::Failed | ServerReadiness::Terminated => Err(
            ENguyenError::from("PulseAudio returned Failed|Terminated.  Check sound server."),
        ),
    }
}

/// The live backend: stands for a record stream against the first monitor
/// device of the platform audio server.  The caller enumerates the server's
/// devices, converts them to plain values and runs the polling thread; this
/// type owns the selection rule and the lifecycle.
pub struct MonitorSource {
    state: RingState,
    source_info: SimpleSource,
    stream: ServerStream,
}

impl MonitorSource {
    /// The identity of the selected server stream.
    pub closed spec fn spec_stream(&self) -> ServerStream {
        self.stream
    }

    /// The selected server stream, observed.
    pub fn stream(&self) -> (r: &ServerStream)
        ensures
            r == self.spec_stream(),
    {
        &self.stream
    }

    /// Selects the first monitor device from the enumerated server streams;
    /// fails exactly when no device is a monitor.
    pub fn new(devices: Vec<(ServerStream, SimpleSource)>) -> (r: Result<
        MonitorSource,
        ENguyenError,
    >)
        ensures
            r is Ok <==> exists|i: int|
                0 <= i < devices@.len() && is_monitor_device(&#[trigger] devices@[i].0),
            r matches Ok(m) ==> {
                &&& m.lifecycle() == RingState::BORN
                &&& exists|i: int|
                    {
                        &&& #[trigger] first_monitor_at(devices@, i)
                        &&& m.spec_stream() == devices@[i].0
                        &&& m.spec_source_info() == devices@[i].1
                    }
            },
            r matches Err(e) ==> e.message@ == "No monitor device found"@,
    {
        let mut devices = devices;
        match first_monitor(&devices) {
            Some(i) => {
                let (stream, info) = devices.remove(i);
                Ok(MonitorSource { state: RingState::BORN, source_info: info, stream })
            },
            None => Err(ENguyenError::from("No monitor device found")),
        }
    }
}

impl AudioStream for MonitorSource {
    type Producer = MonitorFeed;

    closed spec fn lifecycle(&self) -> RingState {
        self.state
    }

    closed spec fn spec_source_info(&self) -> SimpleSource {
        self.source_info
    }

    open spec fn ready_to_heat(&self) -> bool {
        true
    }

    /// Nothing further is promised of the feed: what it forwards depends on
    /// what the server hands the capture thread.
    open spec fn producer_wf(&self, p: &MonitorFeed) -> bool {
        true
    }

    fn connect(&mut self) -> (r: Result<RingState, ENguyenError>)
        ensures
            final(self).spec_stream() == old(self).spec_stream(),
    {
        if self.state == RingState::BORN {
            self.state = RingState::CONNECTED;
            Ok(RingState::CONNECTED)
        } else {
            Err(ENguyenError::from("Ring already connected.  Get your own"))
        }
    }

    fn heat(&mut self) -> (r: Result<(RingReader, SimpleSource, MonitorFeed), ENguyenError>)
        ensures
            final(self).spec_stream() == old(self).spec_stream(),
    {
        if self.state != RingState::CONNECTED {
            return Err(ENguyenError::from("Can't heat a ring that isn't connected"));
        }
        let (tx, rx) = RingBytes::new(32768);
        let feed = MonitorFeed { writer: tx };
        self.state = RingState::HOT;
        Ok((rx, self.source_info.duplicate(), feed))
    }

    fn chill(&mut self) -> (r: Result<RingState, ENguyenError>)
        ensures
            final(self).spec_stream() == old(self).spec_stream(),
    {
        if self.state == RingState::HOT {
            self.state = RingState::DEAD;
            Ok(RingState::DEAD)
        } else {
            Err(ENguyenError::from("Can't chill a ring that isn't hot"))
        }
    }

    fn state(&self) -> (r: RingState) {
        self.state
    }
}

} // verus!
