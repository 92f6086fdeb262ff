//! Sample bookkeeping of the audio capture: how a chunk delivered by the
//! input device is reduced to mono at 16 kHz and appended to the recording
//! without growing it past the maximum duration, and the stub capture used
//! where no device is wired in. `T` is the type of a sample.
//!
//! A device of another rate is resampled by following a 16 kHz clock: each
//! 16 kHz sample takes the frame it falls in, so a faster device loses frames
//! and a slower one repeats them. Time is counted so that a frame lasts 16000
//! units and a 16 kHz sample period lasts `rate` units; the clock position
//! (`phase`) is how far the next sample point lies from the start of the
//! next frame. For a rate that is a whole multiple `d` of 16 kHz the clock
//! restarts with every chunk, so that each chunk keeps its frames
//! `0, d, 2d, ...` (what `step_by(d)` yields); for any other rate the clock
//! is carried from chunk to chunk, so that `n` frames from the start of a
//! recording give `ceil(n * 16000 / rate)` samples however the device splits
//! them into chunks.
use vstd::prelude::*;

verus! {

/// The sample rate the transcription server expects.
pub const TARGET_SAMPLE_RATE: u32 = 16000;

/// The longest recording, in samples: sixty seconds at the target rate.
pub const MAX_SAMPLES: usize = 16000 * 60;

/// The shortest recording that is transcribed, in samples: a tenth of a
/// second at the target rate. A shorter one is discarded.
pub const MIN_SAMPLES: usize = 16000 / 10;

/// Every `n`-th element of `s`, starting with the first (what `step_by(n)`
/// yields).
pub open spec fn every_nth<T>(s: Seq<T>, n: nat) -> Seq<T>
    decreases s.len(),
{
    if s.len() == 0 || n == 0 {
        Seq::empty()
    } else if n >= s.len() {
        seq![s[0]]
    } else {
        seq![s[0]] + every_nth(s.skip(n as int), n)
    }
}

/// How many 16 kHz sample points fall within the frame met at clock
/// position `phase`: the number of copies of that frame the recording gets
/// (zero or one for a faster device, at least one for a slower one). A
/// device reporting no rate keeps every frame once.
pub open spec fn ticks(phase: nat, rate: nat) -> nat {
    if rate == 0 {
        1
    } else if phase < TARGET_SAMPLE_RATE {
        ((TARGET_SAMPLE_RATE - phase + rate - 1) / (rate as int)) as nat
    } else {
        0
    }
}

/// The clock position after one frame.
pub open spec fn next_phase(phase: nat, rate: nat) -> nat {
    if rate == 0 {
        phase
    } else {
        (phase + ticks(phase, rate) * rate - TARGET_SAMPLE_RATE) as nat
    }
}

/// Whether `rate` is a whole multiple of 16 kHz.
pub open spec fn whole_multiple(rate: nat) -> bool {
    rate > 0 && (rate as int) % (TARGET_SAMPLE_RATE as int) == 0
}

/// The clock position a chunk starts at: restarted for a whole multiple of
/// 16 kHz, carried otherwise.
pub open spec fn chunk_start(phase: nat, rate: nat) -> nat {
    if whole_multiple(rate) {
        0
    } else {
        phase
    }
}

/// The recording of `frames` at 16 kHz, starting at clock position `phase`:
/// each frame repeated once per clock tick within it.
pub open spec fn resampled<T>(frames: Seq<T>, phase: nat, rate: nat) -> Seq<T>
    decreases frames.len(),
{
    if frames.len() == 0 {
        Seq::empty()
    } else {
        Seq::new(ticks(phase, rate), |i: int| frames[0]) + resampled(
            frames.drop_first(),
            next_phase(phase, rate),
            rate,
        )
    }
}

/// The clock position after `n` frames.
pub open spec fn phase_after(n: nat, phase: nat, rate: nat) -> nat
    decreases n,
{
    if n == 0 {
        phase
    } else {
        phase_after((n - 1) as nat, next_phase(phase, rate), rate)
    }
}

/// The frames of a chunk: the chunk itself for a 16 kHz mono device,
/// otherwise the first channel of each frame.
pub open spec fn chunk_frames<T>(data: Seq<T>, native: bool, channels: nat) -> Seq<T> {
    if native {
        data
    } else {
        every_nth(data, channels)
    }
}

/// The samples a chunk contributes before the cap, and the clock position
/// after it.
pub open spec fn reduced_chunk<T>(data: Seq<T>, phase: nat, native: bool, channels: nat, rate: nat) -> (
    Seq<T>,
    nat,
) {
    if native {
        (data, phase)
    } else {
        let frames = chunk_frames(data, native, channels);
        let start = chunk_start(phase, rate);
        (resampled(frames, start, rate), phase_after(frames.len(), start, rate))
    }
}

/// The smaller of two numbers.
pub open spec fn min_nat(a: nat, b: nat) -> nat {
    if a <= b {
        a
    } else {
        b
    }
}

/// The recording and the clock position after a chunk: nothing is added
/// once the recording holds `MAX_SAMPLES`; otherwise the reduced chunk, cut
/// to the room that is left.
pub open spec fn after_chunk<T>(rec: Seq<T>, phase: nat, data: Seq<T>, native: bool, channels: nat, rate: nat) -> (
    Seq<T>,
    nat,
) {
    let (reduced, next) = reduced_chunk(data, phase, native, channels, rate);
    if rec.len() >= MAX_SAMPLES {
        (rec, next)
    } else {
        (rec + reduced.take(min_nat(reduced.len(), (MAX_SAMPLES - rec.len()) as nat) as int), next)
    }
}

/// The recording and the clock position after a run of chunks.
pub open spec fn after_run<T>(
    rec: Seq<T>,
    phase: nat,
    chunks: Seq<Seq<T>>,
    native: bool,
    channels: nat,
    rate: nat,
) -> (Seq<T>, nat)
    decreases chunks.len(),
{
    if chunks.len() == 0 {
        (rec, phase)
    } else {
        let (r, p) = after_run(rec, phase, chunks.drop_last(), native, channels, rate);
        after_chunk(r, p, chunks.last(), native, channels, rate)
    }
}

/// All chunks of a run, one after the other.
pub open spec fn concat_all<T>(chunks: Seq<Seq<T>>) -> Seq<T>
    decreases chunks.len(),
{
    if chunks.len() == 0 {
        Seq::empty()
    } else {
        concat_all(chunks.drop_last()) + chunks.last()
    }
}

/// The number of frames in a run of chunks.
pub open spec fn frame_count<T>(chunks: Seq<Seq<T>>, native: bool, channels: nat) -> nat
    decreases chunks.len(),
{
    if chunks.len() == 0 {
        0
    } else {
        frame_count(chunks.drop_last(), native, channels) + chunk_frames(
            chunks.last(),
            native,
            channels,
        ).len()
    }
}

/// Whether a device already delivers 16 kHz mono.
pub fn is_native(sample_rate: u32, channels: usize) -> (r: bool)
    ensures
        r == (sample_rate == TARGET_SAMPLE_RATE && channels == 1),
{
    sample_rate == TARGET_SAMPLE_RATE && channels == 1
}

proof fn lemma_every_nth_step<T>(s: Seq<T>, n: nat, i: nat)
    requires
        n > 0,
        i < s.len(),
    ensures
        every_nth(s.skip(i as int), n) == seq![s[i as int]] + (if i + n < s.len() {
            every_nth(s.skip((i + n) as int), n)
        } else {
            Seq::<T>::empty()
        }),
{
    let t = s.skip(i as int);
    assert(t[0] == s[i as int]);
    if n < t.len() {
        assert(t.skip(n as int) =~= s.skip((i + n) as int));
    }
}

fn pick_every_nth<T: Copy>(data: &[T], n: usize) -> (r: Vec<T>)
    requires
        n > 0,
    ensures
        r@ == every_nth(data@, n as nat),
{
    let mut out: Vec<T> = Vec::new();
    let len = data.len();
    if len == 0 {
        return out;
    }
    let mut i: usize = 0;
    assert(data@.skip(0) =~= data@);
    loop
        invariant
            n > 0,
            len == data@.len(),
            i < len,
            every_nth(data@, n as nat) == out@ + every_nth(data@.skip(i as int), n as nat),
        decreases len - i,
    {
        proof {
            lemma_every_nth_step(data@, n as nat, i as nat);
        }
        out.push(data[i]);
        if n >= len - i {
            assert(every_nth(data@, n as nat) =~= out@);
            return out;
        }
        i = i + n;
        assert(every_nth(data@, n as nat) =~= out@ + every_nth(data@.skip(i as int), n as nat));
    }
}

/// One frame of the clock: the sample points it holds reach past its end
/// and the next one lies within the sample period after it.
proof fn lemma_tick(phase: nat, rate: nat)
    requires
        rate > 0,
        phase < TARGET_SAMPLE_RATE,
    ensures
        ticks(phase, rate) * rate >= TARGET_SAMPLE_RATE - phase,
        ticks(phase, rate) * rate <= TARGET_SAMPLE_RATE - phase + rate - 1,
        next_phase(phase, rate) < rate,
        next_phase(phase, rate) == phase + ticks(phase, rate) * rate - TARGET_SAMPLE_RATE,
{
    let x = (TARGET_SAMPLE_RATE - phase + rate - 1) as int;
    vstd::arithmetic::div_mod::lemma_fundamental_div_mod(x, rate as int);
    let c = ticks(phase, rate);
    assert(c == x / (rate as int));
    assert(c * rate == rate * c) by (nonlinear_arith);
}

/// Resamples `frames` from clock position `*phase` and advances `*phase`
/// over all of them.
fn resample<T: Copy>(frames: &[T], phase: &mut u32, rate: u32) -> (r: Vec<T>)
    ensures
        r@ == resampled(frames@, *old(phase) as nat, rate as nat),
        *final(phase) as nat == phase_after(frames@.len(), *old(phase) as nat, rate as nat),
{
    let mut out: Vec<T> = Vec::new();
    let mut i: usize = 0;
    assert(frames@.skip(0) =~= frames@);
    while i < frames.len()
        invariant
            i <= frames@.len(),
            resampled(frames@, *old(phase) as nat, rate as nat) == out@ + resampled(
                frames@.skip(i as int),
                *phase as nat,
                rate as nat,
            ),
            phase_after(frames@.len(), *old(phase) as nat, rate as nat) == phase_after(
                (frames@.len() - i) as nat,
                *phase as nat,
                rate as nat,
            ),
        decreases frames@.len() - i,
    {
        let ghost before = *phase;
        let (count, next): (u64, u32) = if rate == 0 {
            (1, *phase)
        } else if *phase < TARGET_SAMPLE_RATE {
            let x: u64 = (TARGET_SAMPLE_RATE as u64) - (*phase as u64) + (rate as u64) - 1;
            let c: u64 = x / (rate as u64);
            proof {
                lemma_tick(*phase as nat, rate as nat);
            }
            assert(c as nat == ticks(*phase as nat, rate as nat));
            let n: u64 = (*phase as u64) + c * (rate as u64) - (TARGET_SAMPLE_RATE as u64);
            assert(n as nat == next_phase(*phase as nat, rate as nat));
            (c, n as u32)
        } else {
            (0, *phase - TARGET_SAMPLE_RATE)
        };
        let ghost base = out@;
        let mut c: u64 = 0;
        while c < count
            invariant
                i < frames@.len(),
                c <= count,
                out@ == base + Seq::new(c as nat, |j: int| frames@[i as int]),
            decreases count - c,
        {
            out.push(frames[i]);
            c = c + 1;
            assert(out@ =~= base + Seq::new(c as nat, |j: int| frames@[i as int]));
        }
        *phase = next;
        proof {
            let rest = frames@.skip(i as int);
            assert(rest[0] == frames@[i as int]);
            assert(rest.drop_first() =~= frames@.skip(i + 1));
            assert(*phase as nat == next_phase(before as nat, rate as nat));
            assert(count as nat == ticks(before as nat, rate as nat));
        }
        i = i + 1;
        assert(resampled(frames@, *old(phase) as nat, rate as nat) =~= out@ + resampled(
            frames@.skip(i as int),
            *phase as nat,
            rate as nat,
        ));
    }
    assert(frames@.skip(i as int) =~= Seq::<T>::empty());
    out
}

fn append_prefix<T: Copy>(rec: &mut Vec<T>, src: &Vec<T>, k: usize)
    requires
        k <= src@.len(),
    ensures
        final(rec)@ == old(rec)@ + src@.take(k as int),
{
    let mut i: usize = 0;
    while i < k
        invariant
            k <= src@.len(),
            i <= k,
            rec@ == old(rec)@ + src@.take(i as int),
        decreases k - i,
    {
        rec.push(src[i]);
        i = i + 1;
        assert(rec@ =~= old(rec)@ + src@.take(i as int));
    }
}

fn copy_slice<T: Copy>(src: &[T]) -> (r: Vec<T>)
    ensures
        r@ == src@,
{
    let mut out: Vec<T> = Vec::new();
    let mut i: usize = 0;
    while i < src.len()
        invariant
            i <= src@.len(),
            out@ == src@.take(i as int),
        decreases src@.len() - i,
    {
        out.push(src[i]);
        i = i + 1;
        assert(out@ =~= src@.take(i as int));
    }
    assert(src@.take(src@.len() as int) =~= src@);
    out
}

/// Appends a chunk delivered by the input device to the recording: the chunk
/// as it is when the device is `native`, otherwise the first channel of each
/// frame (every `channels`-th sample) resampled from `sample_rate` to 16 kHz
/// from clock position `*phase` (restarted at 0 for a whole multiple of
/// 16 kHz); in either case cut so that the recording stays within
/// `MAX_SAMPLES`. `*phase` is left where the clock stands after the chunk.
pub fn append_chunk<T: Copy>(
    rec: &mut Vec<T>,
    phase: &mut u32,
    data: &[T],
    native: bool,
    channels: usize,
    sample_rate: u32,
)
    requires
        native || channels >= 1,
    ensures
        (final(rec)@, *final(phase) as nat) == after_chunk(
            old(rec)@,
            *old(phase) as nat,
            data@,
            native,
            channels as nat,
            sample_rate as nat,
        ),
{
    let reduced: Vec<T> = if native {
        copy_slice(data)
    } else {
        let frames = pick_every_nth(data, channels);
        if sample_rate > 0 && sample_rate % TARGET_SAMPLE_RATE == 0 {
            *phase = 0;
        }
        resample(frames.as_slice(), phase, sample_rate)
    };
    if rec.len() >= MAX_SAMPLES {
        return;
    }
    let room = MAX_SAMPLES - rec.len();
    let k = if reduced.len() <= room {
        reduced.len()
    } else {
        room
    };
    append_prefix(rec, &reduced, k);
}

/// A recording that starts within the cap stays within it and keeps what
/// it held, whatever the device delivers.
pub proof fn lemma_recording_stays_capped<T>(
    rec: Seq<T>,
    phase: nat,
    data: Seq<T>,
    native: bool,
    channels: nat,
    rate: nat,
)
    requires
        rec.len() <= MAX_SAMPLES,
    ensures
        after_chunk(rec, phase, data, native, channels, rate).0.len() <= MAX_SAMPLES,
        after_chunk(rec, phase, data, native, channels, rate).0.take(rec.len() as int) == rec,
{
    let r = after_chunk(rec, phase, data, native, channels, rate).0;
    assert(r.take(rec.len() as int) =~= rec);
}

/// Over a whole recording, from the cleared buffer, at most `MAX_SAMPLES`
/// samples (sixty seconds at 16 kHz) are kept, however many chunks the
/// device delivers and whatever its rate and channel count.
pub proof fn lemma_run_stays_capped<T>(
    phase: nat,
    chunks: Seq<Seq<T>>,
    native: bool,
    channels: nat,
    rate: nat,
)
    ensures
        after_run(Seq::<T>::empty(), phase, chunks, native, channels, rate).0.len() <= MAX_SAMPLES,
    decreases chunks.len(),
{
    if chunks.len() > 0 {
        lemma_run_stays_capped(phase, chunks.drop_last(), native, channels, rate);
        let (r, p) = after_run(Seq::<T>::empty(), phase, chunks.drop_last(), native, channels, rate);
        lemma_recording_stays_capped(r, p, chunks.last(), native, channels, rate);
    }
}

/// From a 16 kHz mono device the recording is everything the device
/// delivered, in order, up to the first `MAX_SAMPLES` samples.
pub proof fn lemma_run_native<T>(phase: nat, chunks: Seq<Seq<T>>, channels: nat, rate: nat)
    ensures
        after_run(Seq::<T>::empty(), phase, chunks, true, channels, rate).0 == concat_all(chunks).take(
            min_nat(concat_all(chunks).len(), MAX_SAMPLES as nat) as int,
        ),
    decreases chunks.len(),
{
    if chunks.len() > 0 {
        lemma_run_native(phase, chunks.drop_last(), channels, rate);
        let all = concat_all(chunks.drop_last());
        let d = chunks.last();
        let (r, p) = after_run(Seq::<T>::empty(), phase, chunks.drop_last(), true, channels, rate);
        let out = after_chunk(r, p, d, true, channels, rate).0;
        let whole = all + d;
        assert(concat_all(chunks) == whole);
        assert(out =~= whole.take(min_nat(whole.len(), MAX_SAMPLES as nat) as int));
    } else {
        assert(concat_all(chunks).take(0) =~= Seq::<T>::empty());
    }
}

/// One frame of the clock in equation form: the samples the frame gets,
/// times the sample period, plus the position it starts at, is one frame
/// plus the position after it; a position within a sample period stays so.
proof fn lemma_frame_step(phase: nat, rate: nat)
    requires
        rate > 0,
        phase < rate,
    ensures
        ticks(phase, rate) * rate + phase == TARGET_SAMPLE_RATE + next_phase(phase, rate),
        next_phase(phase, rate) < rate,
{
    if phase < TARGET_SAMPLE_RATE {
        lemma_tick(phase, rate);
    }
}

/// The resampling count: at any rate and a clock position within a sample
/// period, `n` frames give `k` samples and leave the clock at `p` where
/// `k * rate + phase == n * 16000 + p` and `p < rate`.
pub proof fn lemma_resampled_count<T>(frames: Seq<T>, phase: nat, rate: nat)
    requires
        rate > 0,
        phase < rate,
    ensures
        resampled(frames, phase, rate).len() * rate + phase == frames.len() * TARGET_SAMPLE_RATE
            + phase_after(frames.len(), phase, rate),
        phase_after(frames.len(), phase, rate) < rate,
    decreases frames.len(),
{
    let t = TARGET_SAMPLE_RATE as nat;
    let n = frames.len();
    if n > 0 {
        let next = next_phase(phase, rate);
        lemma_frame_step(phase, rate);
        lemma_resampled_count(frames.drop_first(), next, rate);
        let k = resampled(frames.drop_first(), next, rate).len();
        let c = ticks(phase, rate);
        let pa = phase_after((n - 1) as nat, next, rate);
        assert(phase_after(n, phase, rate) == pa);
        assert(resampled(frames, phase, rate).len() == c + k);
        assert((n - 1) * t + t == n * t) by (nonlinear_arith)
            requires
                n >= 1,
        ;
        assert((c + k) * rate == c * rate + k * rate) by (nonlinear_arith);
    }
}

/// From the start of a sample period (`phase` 0), `n` frames give
/// `ceil(n * 16000 / rate)` samples.
pub proof fn lemma_resampled_from_start<T>(frames: Seq<T>, rate: nat)
    requires
        rate > 0,
    ensures
        resampled(frames, 0, rate).len() == (frames.len() * TARGET_SAMPLE_RATE + rate - 1) / (
        rate as int),
{
    lemma_resampled_count(frames, 0, rate);
    let k = resampled(frames, 0, rate).len();
    let p = phase_after(frames.len(), 0, rate);
    vstd::arithmetic::div_mod::lemma_fundamental_div_mod_converse(
        (frames.len() * TARGET_SAMPLE_RATE + rate - 1) as int,
        rate as int,
        k as int,
        (rate - 1 - p) as int,
    );
}

proof fn lemma_div_next_frame(x: int)
    requires
        x >= 0,
    ensures
        (x + TARGET_SAMPLE_RATE) / (TARGET_SAMPLE_RATE as int) == x / (TARGET_SAMPLE_RATE as int) + 1,
{
    let t = TARGET_SAMPLE_RATE as int;
    vstd::arithmetic::div_mod::lemma_fundamental_div_mod(x, t);
    vstd::arithmetic::div_mod::lemma_fundamental_div_mod_converse(x + t, t, x / t + 1, x % t);
}

/// Where each 16 kHz sample comes from: from clock position `phase`, the
/// `k`-th sample point lies at time `phase + k * rate` (a frame lasting
/// 16000 units), and sample `k` is the frame that point falls in, frame
/// `(phase + k * rate) / 16000`. The samples are exactly the points that
/// fall within the frames: the last kept point lies before the end of the
/// last frame, and the first point not kept lies at or past it. So the kept
/// frames are spread over the whole of `frames`, never a leading run of it.
pub proof fn lemma_resampled_frames<T>(frames: Seq<T>, phase: nat, rate: nat)
    requires
        rate > 0,
    ensures
        forall|k: int|
            0 <= k < resampled(frames, phase, rate).len() ==> #[trigger] resampled(
                frames,
                phase,
                rate,
            )[k] == frames[(phase + k * rate) / (TARGET_SAMPLE_RATE as int)],
        resampled(frames, phase, rate).len() > 0 ==> phase + (resampled(frames, phase, rate).len()
            - 1) * rate < frames.len() * TARGET_SAMPLE_RATE,
        phase + resampled(frames, phase, rate).len() * rate >= frames.len() * TARGET_SAMPLE_RATE,
    decreases frames.len(),
{
    let t = TARGET_SAMPLE_RATE as int;
    let n = frames.len() as int;
    if n > 0 {
        let rest = frames.drop_first();
        let next = next_phase(phase, rate);
        let c = ticks(phase, rate) as int;
        let r = rate as int;
        let p = phase as int;
        lemma_resampled_frames(rest, next, rate);
        let rr = resampled(rest, next, rate);
        let res = resampled(frames, phase, rate);
        let len = res.len() as int;
        let lr = rr.len() as int;
        assert(res == Seq::new(c as nat, |i: int| frames[0]) + rr);
        if p < t {
            lemma_tick(phase, rate);
        }
        assert(p + c * r == t + next);
        assert(n * t >= t) by (nonlinear_arith)
            requires
                n >= 1,
                t > 0,
        ;
        assert((n - 1) * t + t == n * t) by (nonlinear_arith);
        assert(len == c + lr);
        assert forall|k: int| 0 <= k < res.len() implies #[trigger] res[k] == frames[(p + k * r) / t] by {
            if k < c {
                assert(p < t);
                assert(0 <= p + k * r < t) by (nonlinear_arith)
                    requires
                        k <= c - 1,
                        c * r <= t - p + r - 1,
                        k >= 0,
                        r > 0,
                        p >= 0,
                ;
                vstd::arithmetic::div_mod::lemma_fundamental_div_mod_converse(p + k * r, t, 0, p + k * r);
            } else {
                let j = k - c;
                assert(0 <= j < rr.len());
                assert(res[k] == rr[j]);
                assert(next + j * r <= next + (lr - 1) * r) by (nonlinear_arith)
                    requires
                        j <= lr - 1,
                        r > 0,
                ;
                let x = next + j * r;
                assert(x >= 0) by (nonlinear_arith)
                    requires
                        j >= 0,
                        r > 0,
                        next >= 0,
                        x == next + j * r,
                ;
                vstd::arithmetic::div_mod::lemma_fundamental_div_mod(x, t);
                assert(x / t < n - 1) by (nonlinear_arith)
                    requires
                        x < (n - 1) * t,
                        x == t * (x / t) + x % t,
                        x % t >= 0,
                        t > 0,
                ;
                assert(x / t >= 0);
                assert(rr[j] == rest[x / t]);
                assert(rest[x / t] == frames[x / t + 1]);
                assert(k * r == c * r + j * r) by (nonlinear_arith)
                    requires
                        j == k - c,
                ;
                assert(next + j * r >= 0) by (nonlinear_arith)
                    requires
                        j >= 0,
                        r > 0,
                        next >= 0,
                ;
                lemma_div_next_frame(next + j * r);
            }
        }

        assert(len * r == c * r + lr * r) by (nonlinear_arith)
            requires
                len == c + lr,
        ;
        if len > 0 {
            assert((len - 1) * r == c * r + (lr - 1) * r) by (nonlinear_arith)
                requires
                    len == c + lr,
            ;
            if lr == 0 {
                assert(p < t);
                assert(p + (c - 1) * r < t) by (nonlinear_arith)
                    requires
                        c * r <= t - p + r - 1,
                ;
            }
        }
    }
}

/// Element `j` of `every_nth(s, n)` is `s[j * n]`: the picked elements are
/// those whose position is a multiple of `n`, all of them.
pub proof fn lemma_every_nth_index<T>(s: Seq<T>, n: nat)
    requires
        n >= 1,
    ensures
        forall|j: int|
            0 <= j < every_nth(s, n).len() ==> #[trigger] every_nth(s, n)[j] == s[j * n],
        every_nth(s, n).len() > 0 ==> (every_nth(s, n).len() - 1) * n < s.len(),
        every_nth(s, n).len() * n >= s.len(),
    decreases s.len(),
{
    let e = every_nth(s, n);
    if s.len() == 0 {
    } else if n >= s.len() {
        assert(e == seq![s[0]]);
        assert(0 * n == 0) by (nonlinear_arith);
    } else {
        let rest = s.skip(n as int);
        lemma_every_nth_index(rest, n);
        let er = every_nth(rest, n);
        assert(e == seq![s[0]] + er);
        assert forall|j: int| 0 <= j < e.len() implies #[trigger] e[j] == s[j * n] by {
            if j == 0 {
                assert(0 * n == 0) by (nonlinear_arith);
            } else {
                assert(e[j] == er[j - 1]);
                assert((j - 1) * n <= (er.len() - 1) * n) by (nonlinear_arith)
                    requires
                        j - 1 <= er.len() - 1,
                ;
                assert((j - 1) * n >= 0) by (nonlinear_arith)
                    requires
                        j >= 1,
                ;
                assert((j - 1) * n + n == j * n) by (nonlinear_arith);
                assert(rest[(j - 1) * n] == s[(j - 1) * n + n]);
            }
        }
        assert(e.len() * n == er.len() * n + n) by (nonlinear_arith)
            requires
                e.len() == er.len() + 1,
        ;
        if er.len() > 0 {
            assert((e.len() - 1) * n == (er.len() - 1) * n + n) by (nonlinear_arith)
                requires
                    e.len() == er.len() + 1,
            ;
        } else {
            assert((e.len() - 1) * n == 0) by (nonlinear_arith)
                requires
                    e.len() == 1,
            ;
        }
    }
}

proof fn lemma_point_in_frames(p0: int, k: int, r: int, len: int, n: int)
    requires
        p0 >= 0,
        r > 0,
        0 <= k < len,
        p0 + (len - 1) * r < n * TARGET_SAMPLE_RATE,
    ensures
        0 <= (p0 + k * r) / (TARGET_SAMPLE_RATE as int) < n,
{
    let t = TARGET_SAMPLE_RATE as int;
    let x = p0 + k * r;
    assert(0 <= x <= p0 + (len - 1) * r) by (nonlinear_arith)
        requires
            k <= len - 1,
            k >= 0,
            r > 0,
            p0 >= 0,
            x == p0 + k * r,
    ;
    vstd::arithmetic::div_mod::lemma_fundamental_div_mod(x, t);
    assert(0 <= x / t < n) by (nonlinear_arith)
        requires
            x < n * t,
            x >= 0,
            x == t * (x / t) + x % t,
            0 <= x % t < t,
            t > 0,
    ;
}

/// What a chunk from a device that is not 16 kHz mono adds to the
/// recording, stated over the chunk itself. With the clock starting at
/// `p0` (0 for a whole multiple of 16 kHz, where it restarts, else the
/// carried `phase`), the `k`-th added sample is the first channel of the
/// frame the `k`-th 16 kHz sample point falls in: `data[channels * f]` with
/// `f = (p0 + k * rate) / 16000`. Samples are added in that way until the
/// sample points run past the chunk's last frame or the recording is full:
/// the last added sample comes from a frame of the chunk, and where the
/// recording is not full the next sample point lies past the chunk. What the
/// recording held stays in front, and nothing is added to a full recording.
pub proof fn lemma_chunk_samples<T>(rec: Seq<T>, phase: nat, data: Seq<T>, channels: nat, rate: nat)
    requires
        channels >= 1,
        rate > 0,
    ensures
        ({
            let p0: int = if rate % (TARGET_SAMPLE_RATE as nat) == 0 {
                0
            } else {
                phase as int
            };
            let out = after_chunk(rec, phase, data, false, channels, rate).0;
            let added = out.len() - rec.len();
            &&& out.len() >= rec.len()
            &&& out.take(rec.len() as int) == rec
            &&& rec.len() >= MAX_SAMPLES ==> out == rec
            &&& rec.len() < MAX_SAMPLES ==> out.len() <= MAX_SAMPLES
            &&& forall|i: int|
                rec.len() <= i < out.len() ==> #[trigger] out[i] == data[channels * ((p0 + (i
                    - rec.len()) * rate) / (TARGET_SAMPLE_RATE as int))]
            &&& added > 0 ==> channels * ((p0 + (added - 1) * rate) / (TARGET_SAMPLE_RATE as int))
                < data.len()
            &&& out.len() < MAX_SAMPLES ==> channels * ((p0 + added * rate) / (
            TARGET_SAMPLE_RATE as int)) >= data.len()
        }),
{
    let t = TARGET_SAMPLE_RATE as int;
    let p0: int = if rate % (TARGET_SAMPLE_RATE as nat) == 0 {
        0
    } else {
        phase as int
    };
    let c = channels as int;
    let r = rate as int;
    let frames = every_nth(data, channels);
    let n = frames.len() as int;
    assert(chunk_start(phase, rate) == p0);
    let reduced = resampled(frames, p0 as nat, rate);
    assert(reduced_chunk(data, phase, false, channels, rate).0 == reduced);
    lemma_resampled_frames(frames, p0 as nat, rate);
    lemma_every_nth_index(data, channels);
    let out = after_chunk(rec, phase, data, false, channels, rate).0;
    let added = out.len() - rec.len();
    let len = reduced.len() as int;
    if rec.len() < MAX_SAMPLES {
        let m = min_nat(reduced.len(), (MAX_SAMPLES - rec.len()) as nat) as int;
        assert(out == rec + reduced.take(m));
        assert(out.take(rec.len() as int) =~= rec);
        assert(added == m);
        assert forall|i: int| rec.len() <= i < out.len() implies #[trigger] out[i] == data[c * ((p0 + (
        i - rec.len()) * r) / t)] by {
            let k = i - rec.len();
            assert(out[i] == reduced[k]);
            let f = (p0 + k * r) / t;
            lemma_point_in_frames(p0, k, r, len, n);
            assert(f * c < data.len()) by (nonlinear_arith)
                requires
                    f <= n - 1,
                    (n - 1) * c < data.len(),
                    c >= 1,
            ;
            assert(frames[f] == data[f * c]);
            assert(f * c == c * f) by (nonlinear_arith);
        }
        if added > 0 {
            let f = (p0 + (added - 1) * r) / t;
            lemma_point_in_frames(p0, added - 1, r, len, n);
            assert(f * c < data.len()) by (nonlinear_arith)
                requires
                    f <= n - 1,
                    (n - 1) * c < data.len(),
                    c >= 1,
            ;
            assert(f * c == c * f) by (nonlinear_arith);
        }
        if out.len() < MAX_SAMPLES {
            assert(m == len);
            let x = p0 + len * r;
            vstd::arithmetic::div_mod::lemma_fundamental_div_mod(x, t);
            assert(x / t >= n) by (nonlinear_arith)
                requires
                    x >= n * t,
                    x == t * (x / t) + x % t,
                    x % t < t,
                    t > 0,
            ;
            assert(c * (x / t) >= n * c) by (nonlinear_arith)
                requires
                    x / t >= n,
                    c >= 1,
            ;
        }
    } else {
        assert(out == rec);
        assert(out.take(rec.len() as int) =~= rec);
    }
}

proof fn lemma_skip_frames<T>(s: Seq<T>, k: nat, d: nat)
    requires
        1 <= k < d,
    ensures
        resampled(s, k * (TARGET_SAMPLE_RATE as nat), d * (TARGET_SAMPLE_RATE as nat)) == (if k <= s.len() {
            resampled(s.skip(k as int), 0, d * (TARGET_SAMPLE_RATE as nat))
        } else {
            Seq::<T>::empty()
        }),
    decreases k,
{
    let t = TARGET_SAMPLE_RATE as nat;
    let rate = d * t;
    assert(rate > 0) by (nonlinear_arith)
        requires
            rate == d * t,
            d >= 1,
            t > 0,
    ;
    assert(k * t >= t) by (nonlinear_arith)
        requires
            k >= 1,
    ;
    assert(ticks(k * t, rate) == 0);
    assert((k - 1) * t == k * t - t) by (nonlinear_arith)
        requires
            k >= 1,
    ;
    assert(next_phase(k * t, rate) == ((k - 1) as nat) * t);
    if s.len() == 0 {
    } else if k == 1 {
        assert(s.drop_first() =~= s.skip(1));
        assert(resampled(s, k * t, rate) =~= resampled(s.drop_first(), 0, rate));
    } else {
        lemma_skip_frames(s.drop_first(), (k - 1) as nat, d);
        assert(resampled(s, k * t, rate) =~= resampled(s.drop_first(), ((k - 1) as nat) * t, rate));
        if k <= s.len() {
            assert(s.drop_first().skip(k - 1) =~= s.skip(k as int));
        }
    }
}

/// For a rate that is a whole multiple `d` of 16 kHz, a chunk resampled from
/// the start of a sample period keeps its frames `0, d, 2d, ...`: what
/// `step_by(d)` yields.
pub proof fn lemma_whole_multiple<T>(frames: Seq<T>, d: nat)
    requires
        d >= 1,
    ensures
        resampled(frames, 0, d * (TARGET_SAMPLE_RATE as nat)) == every_nth(frames, d),
    decreases frames.len(),
{
    let t = TARGET_SAMPLE_RATE as nat;
    let rate = d * t;
    if frames.len() > 0 {
        assert(rate >= t) by (nonlinear_arith)
            requires
                rate == d * t,
                d >= 1,
        ;
        vstd::arithmetic::div_mod::lemma_fundamental_div_mod_converse(
            (t + rate - 1) as int,
            rate as int,
            1,
            (t - 1) as int,
        );
        assert(ticks(0, rate) == 1);
        assert(next_phase(0, rate) == rate - t);
        let rest = frames.drop_first();
        let head = Seq::new(1, |i: int| frames[0]);
        assert(head =~= seq![frames[0]]);
        if d == 1 {
            assert(next_phase(0, rate) == 0);
            lemma_whole_multiple(rest, d);
            if d < frames.len() {
                assert(rest =~= frames.skip(1));
            } else {
                assert(rest =~= Seq::<T>::empty());
            }
            assert(resampled(frames, 0, rate) =~= seq![frames[0]] + resampled(rest, 0, rate));
        } else {
            assert((d - 1) * t == rate - t) by (nonlinear_arith)
                requires
                    rate == d * t,
                    d >= 1,
            ;
            lemma_skip_frames(rest, (d - 1) as nat, d);
            assert(resampled(frames, 0, rate) =~= seq![frames[0]] + resampled(
                rest,
                ((d - 1) as nat) * t,
                rate,
            ));
            if d < frames.len() {
                assert(rest.skip(d - 1) =~= frames.skip(d as int));
                lemma_whole_multiple(frames.skip(d as int), d);
            }
        }
    }
}

/// The samples a run keeps before the cap, the clock carried from chunk to
/// chunk.
pub open spec fn run_kept<T>(phase: nat, chunks: Seq<Seq<T>>, channels: nat, rate: nat) -> nat
    decreases chunks.len(),
{
    if chunks.len() == 0 {
        0
    } else {
        let p = after_run(Seq::<T>::empty(), phase, chunks.drop_last(), false, channels, rate).1;
        run_kept(phase, chunks.drop_last(), channels, rate) + resampled(
            chunk_frames(chunks.last(), false, channels),
            p,
            rate,
        ).len()
    }
}

proof fn lemma_run_count<T>(phase: nat, chunks: Seq<Seq<T>>, channels: nat, rate: nat)
    requires
        rate > 0,
        !whole_multiple(rate),
        phase < rate,
    ensures
        ({
            let (r, p) = after_run(Seq::<T>::empty(), phase, chunks, false, channels, rate);
            let k = run_kept(phase, chunks, channels, rate);
            &&& k * rate + phase == frame_count(chunks, false, channels) * TARGET_SAMPLE_RATE + p
            &&& p < rate
            &&& r.len() == min_nat(MAX_SAMPLES as nat, k)
        }),
    decreases chunks.len(),
{
    let t = TARGET_SAMPLE_RATE as nat;
    if chunks.len() > 0 {
        lemma_run_count(phase, chunks.drop_last(), channels, rate);
        let (r0, p0) = after_run(
            Seq::<T>::empty(),
            phase,
            chunks.drop_last(),
            false,
            channels,
            rate,
        );
        let k0 = run_kept(phase, chunks.drop_last(), channels, rate);
        let f0 = frame_count(chunks.drop_last(), false, channels);
        let frames = chunk_frames(chunks.last(), false, channels);
        let m = frames.len();
        lemma_resampled_count(frames, p0, rate);
        let c = resampled(frames, p0, rate).len();
        assert(chunk_start(p0, rate) == p0);
        assert(frame_count(chunks, false, channels) == f0 + m);
        assert((f0 + m) * t == f0 * t + m * t) by (nonlinear_arith);
        assert((k0 + c) * rate == k0 * rate + c * rate) by (nonlinear_arith);
        let (r1, p1) = after_run(Seq::<T>::empty(), phase, chunks, false, channels, rate);
        assert((r1, p1) == after_chunk(r0, p0, chunks.last(), false, channels, rate));
        assert(p1 == phase_after(m, p0, rate));
        assert(run_kept(phase, chunks, channels, rate) == k0 + c);
        assert(r1.len() == min_nat(MAX_SAMPLES as nat, k0 + c));
    } else {
        assert(0 * rate == 0) by (nonlinear_arith);
    }
}

/// The length of a whole recording from a device whose rate is not a whole
/// multiple of 16 kHz: `F` frames from the start of the recording give
/// `min(MAX_SAMPLES, ceil(F * 16000 / rate))` samples, however the frames
/// are split into chunks.
pub proof fn lemma_run_resampled_length<T>(chunks: Seq<Seq<T>>, channels: nat, rate: nat)
    requires
        rate > 0,
        !whole_multiple(rate),
    ensures
        after_run(Seq::<T>::empty(), 0, chunks, false, channels, rate).0.len() == min_nat(
            MAX_SAMPLES as nat,
            ((frame_count(chunks, false, channels) * TARGET_SAMPLE_RATE + rate - 1) / (
            rate as int)) as nat,
        ),
{
    lemma_run_count(0, chunks, channels, rate);
    let (r, p) = after_run(Seq::<T>::empty(), 0, chunks, false, channels, rate);
    let k = run_kept(0, chunks, channels, rate);
    vstd::arithmetic::div_mod::lemma_fundamental_div_mod_converse(
        (frame_count(chunks, false, channels) * TARGET_SAMPLE_RATE + rate - 1) as int,
        rate as int,
        k as int,
        (rate - 1 - p) as int,
    );
}

/// From the start of a recording, one second of frames at a rate that is
/// not a whole multiple of 16 kHz gives exactly one second at 16 kHz: 16000
/// samples.
pub proof fn lemma_one_second<T>(chunks: Seq<Seq<T>>, channels: nat, rate: nat)
    requires
        rate > 0,
        !whole_multiple(rate),
        frame_count(chunks, false, channels) == rate,
    ensures
        after_run(Seq::<T>::empty(), 0, chunks, false, channels, rate).0.len() == TARGET_SAMPLE_RATE,
{
    lemma_run_resampled_length(chunks, channels, rate);
    assert(rate * TARGET_SAMPLE_RATE == TARGET_SAMPLE_RATE * rate) by (nonlinear_arith);
    vstd::arithmetic::div_mod::lemma_fundamental_div_mod_converse(
        (rate * TARGET_SAMPLE_RATE + rate - 1) as int,
        rate as int,
        TARGET_SAMPLE_RATE as int,
        (rate - 1) as int,
    );
}

/// From a whole multiple `d` of 16 kHz, each chunk keeps every `d`-th frame
/// from its start, as `step_by(d)`, whatever the clock stood at before.
pub proof fn lemma_chunk_at_whole_multiple<T>(
    rec: Seq<T>,
    phase: nat,
    data: Seq<T>,
    channels: nat,
    d: nat,
)
    requires
        d >= 1,
    ensures
        reduced_chunk(data, phase, false, channels, d * (TARGET_SAMPLE_RATE as nat)).0 == every_nth(
            every_nth(data, channels),
            d,
        ),
{
    let rate = d * (TARGET_SAMPLE_RATE as nat);
    assert(rate > 0 && (rate as int) % (TARGET_SAMPLE_RATE as int) == 0) by (nonlinear_arith)
        requires
            rate == d * (TARGET_SAMPLE_RATE as nat),
            d >= 1,
    {
        vstd::arithmetic::div_mod::lemma_mod_multiples_basic(d as int, TARGET_SAMPLE_RATE as int);
    }
    lemma_whole_multiple(every_nth(data, channels), d);
}

/// The number of samples the stub capture hands back: one second at the
/// target rate.
pub const STUB_SAMPLES: usize = 16000;

/// A capture device that records nothing and hands back one second of
/// silence.
pub struct StubAudioCapture {
    recording: bool,
}

impl StubAudioCapture {
    /// Whether the stub is recording.
    pub closed spec fn recording(&self) -> bool {
        self.recording
    }

    pub fn new() -> (r: Self)
        ensures
            !r.recording(),
    {
        StubAudioCapture { recording: false }
    }

    pub fn start_recording(&mut self) -> (r: Result<(), String>)
        ensures
            r is Ok,
            final(self).recording(),
    {
        self.recording = true;
        Ok(())
    }

    /// Stops and hands back `STUB_SAMPLES` copies of `silence`.
    pub fn stop_recording<T: Copy>(&mut self, silence: T) -> (r: Result<Vec<T>, String>)
        ensures
            !final(self).recording(),
            r matches Ok(v) && v@ == Seq::new(STUB_SAMPLES as nat, |i: int| silence),
    {
        self.recording = false;
        let mut v: Vec<T> = Vec::new();
        let mut i: usize = 0;
        while i < STUB_SAMPLES
            invariant
                i <= STUB_SAMPLES,
                v@ == Seq::new(i as nat, |j: int| silence),
            decreases STUB_SAMPLES - i,
        {
            v.push(silence);
            i = i + 1;
            assert(v@ =~= Seq::new(i as nat, |j: int| silence));
        }
        Ok(v)
    }

    pub fn is_recording(&self) -> (r: bool)
        ensures
            r == self.recording(),
    {
        self.recording
    }
}

} // verus!
