//! The note scheduler and the frequency-domain rendering model. Pitches
//! are equal-tempered around A4 at 440 Hz; the audible range is cut into
//! `FREQ_SIZE` logarithmically spaced bins; a scheduled note is resolved
//! into its timbre once and shared by every time bucket it overlaps.
use crate::instrument::{
    sat64, spec_damp, spec_generate, spec_power, Damp, Instrument, Sound,
};
use crate::output::FREQ_SIZE;
use vstd::arithmetic::div_mod::{
    lemma_div_is_ordered, lemma_div_multiples_vanish, lemma_fundamental_div_mod,
    lemma_small_mod,
};
use vstd::prelude::*;

verus! {

/// Quarter notes in a measure.
pub const MEASURE_LENGTH: u32 = 4;

/// Time buckets held by the scheduler: two measures at quarter-note
/// granularity.
pub const BD_SIZE: u32 = 8;

/// The lowest frequency bin, in millihertz.
pub const MIN_FREQ_MILLIHZ: u64 = 10000;

/// The cap of the bin table, in millihertz (the thousandfold of the
/// lowest bin, reached just past the last bin).
pub const MAX_FREQ_MILLIHZ: u64 = 20000000;

pub open spec fn pow2(e: nat) -> int
    decreases e,
{
    if e == 0 {
        1
    } else {
        2 * pow2((e - 1) as nat)
    }
}

pub proof fn lemma_pow2_pos(e: nat)
    ensures
        pow2(e) >= 1,
    decreases e,
{
    if e > 0 {
        lemma_pow2_pos((e - 1) as nat);
    }
}

pub proof fn lemma_pow2_le(a: nat, b: nat)
    requires
        a <= b,
    ensures
        pow2(a) <= pow2(b),
    decreases b,
{
    lemma_pow2_pos(b);
    if a < b {
        lemma_pow2_le(a, (b - 1) as nat);
        lemma_pow2_pos((b - 1) as nat);
    }
}

/// The twelve equal-tempered semitone steps of an octave, in millihertz
/// at the octave whose A lies at 6875 millihertz (A4 six octaves down,
/// so that every doubling is exact on the integer grid).
pub open spec fn semitone_base(r: int) -> int {
    if r == 0 {
        6875
    } else if r == 1 {
        7284
    } else if r == 2 {
        7717
    } else if r == 3 {
        8176
    } else if r == 4 {
        8662
    } else if r == 5 {
        9177
    } else if r == 6 {
        9723
    } else if r == 7 {
        10301
    } else if r == 8 {
        10913
    } else if r == 9 {
        11562
    } else if r == 10 {
        12250
    } else {
        12978
    }
}

/// The fundamental frequency, in millihertz, of pitch number `note`:
/// equal temperament anchored at `spec_frequency(69) == 440000`
/// (A4 = 440 Hz), one semitone per step, doubling every twelve.
pub open spec fn spec_frequency(note: int) -> int {
    semitone_base((note + 3) % 12) * pow2(((note + 3) / 12) as nat)
}

/// The pitch grid is anchored at A4 = 440 Hz exactly, and moving up
/// twelve semitones doubles the frequency exactly, across the whole
/// pitch range.
pub proof fn lemma_frequency_law()
    ensures
        spec_frequency(69) == 440000,
        forall|p: int| 0 <= p <= 115 ==> #[trigger] spec_frequency(p + 12) == 2 * spec_frequency(p),
{
    assert(pow2(6) == 64) by {
        reveal_with_fuel(pow2, 7);
    }
    assert((69 + 3) % 12 == 0 && (69 + 3) / 12 == 6);
    assert forall|p: int| 0 <= p <= 115 implies #[trigger] spec_frequency(p + 12) == 2
        * spec_frequency(p) by {
        let d = p + 3;
        assert((d + 12) % 12 == d % 12) by {
            vstd::arithmetic::div_mod::lemma_mod_add_multiples_vanish(d, 12);
        }
        assert((d + 12) / 12 == d / 12 + 1) by {
            vstd::arithmetic::div_mod::lemma_div_plus_one(d, 12);
        }
        let e = (d / 12) as nat;
        assert(pow2(e + 1) == 2 * pow2(e));
        let sb = semitone_base(d % 12);
        let pw = pow2(e);
        assert(sb * (2 * pw) == 2 * (sb * pw)) by (nonlinear_arith);
    }
}

/// The fundamental frequency of pitch `note`, in millihertz.
pub fn frequency_millihz(note: u32) -> (r: u64)
    requires
        note <= 127,
    ensures
        r as int == spec_frequency(note as int),
        r <= 20000000,
{
    let d: u32 = note + 3;
    let rem: u32 = d % 12;
    let oct: u32 = d / 12;
    let base: u64 = if rem == 0 {
        6875
    } else if rem == 1 {
        7284
    } else if rem == 2 {
        7717
    } else if rem == 3 {
        8176
    } else if rem == 4 {
        8662
    } else if rem == 5 {
        9177
    } else if rem == 6 {
        9723
    } else if rem == 7 {
        10301
    } else if rem == 8 {
        10913
    } else if rem == 9 {
        11562
    } else if rem == 10 {
        12250
    } else {
        12978
    };
    let mut f: u64 = base;
    let mut k: u32 = 0;
    proof {
        assert(oct <= 10);
    }
    while k < oct
        invariant
            0 <= k <= oct <= 10,
            base as int == semitone_base(rem as int),
            6875 <= base <= 12978,
            f as int == base * pow2(k as nat),
            f <= 13300000,
        decreases oct - k,
    {
        proof {
            lemma_pow2_le(k as nat + 1, 10);
            assert(pow2(10) == 1024) by {
                reveal_with_fuel(pow2, 11);
            }
            lemma_pow2_pos(k as nat);
            assert(base * pow2(k as nat + 1) <= 12978 * 1024) by (nonlinear_arith)
                requires
                    base <= 12978 && 1 <= pow2(k as nat + 1) <= 1024,
            ;
            assert(pow2(k as nat + 1) == 2 * pow2(k as nat));
        }
        f = f * 2;
        k = k + 1;
    }
    f
}

/// The number of scheduler buckets a note of `note_length` units spans:
/// the bucket count of a full cycle divided by the length unit (a `4`
/// denotes a quarter note spanning two of the eight buckets).
pub fn get_duration_from_length(note_length: u32) -> (r: u32)
    requires
        note_length >= 1,
    ensures
        r == 8u32 / note_length,
{
    BD_SIZE / note_length
}

/// The center frequency of bin `i`, in millihertz: bins climb from
/// `MIN_FREQ_MILLIHZ` by the fixed ratio `1.006769` per bin (a
/// thousandfold over the `FREQ_SIZE` bins of the table), capped at
/// `MAX_FREQ_MILLIHZ` (the cap is beyond the last bin of the table).
pub open spec fn bin_freq(i: int) -> int
    decreases i,
{
    if i <= 0 {
        10000
    } else {
        let g = bin_freq(i - 1) * 1006769 / 1000000;
        if g > 20000000 {
            20000000
        } else {
            g
        }
    }
}

pub proof fn lemma_bin_freq_bounds(i: int)
    ensures
        10000 <= bin_freq(i) <= 20000000,
        bin_freq(i) <= bin_freq(i + 1),
    decreases (if i >= 0 {
        i + 1
    } else {
        0
    }),
{
    if i > 0 {
        lemma_bin_freq_bounds(i - 1);
        let x = bin_freq(i - 1);
        assert(x * 1000000 <= x * 1006769) by (nonlinear_arith)
            requires
                x >= 0,
        ;
        lemma_div_is_ordered(x * 1000000, x * 1006769, 1000000);
        lemma_div_multiples_vanish(x, 1000000);
        assert(x * 1000000 == 1000000 * x);
    } else {
        let x = bin_freq(i);
        assert(x == 10000);
        assert(bin_freq(i + 1) >= 10000) by {
            if i + 1 > 0 {
                assert(bin_freq(i) == 10000);
                assert(10000int * 1006769 / 1000000 == 10067);
            }
        }
    }
    let y = bin_freq(i);
    assert(y * 1000000 <= y * 1006769) by (nonlinear_arith)
        requires
            y >= 0,
    ;
    lemma_div_is_ordered(y * 1000000, y * 1006769, 1000000);
    lemma_div_multiples_vanish(y, 1000000);
    assert(y * 1000000 == 1000000 * y);
}

/// The center frequency of bin `index`, in millihertz.
pub fn index_to_frequency(index: usize) -> (r: u64)
    ensures
        r as int == bin_freq(index as int),
{
    let mut f: u64 = MIN_FREQ_MILLIHZ;
    let mut k: usize = 0;
    while k < index
        invariant
            0 <= k <= index,
            f as int == bin_freq(k as int),
            10000 <= f <= 20000000,
        decreases index - k,
    {
        proof {
            lemma_bin_freq_bounds(k as int + 1);
        }
        let g: u64 = f * 1006769 / 1000000;
        if g > MAX_FREQ_MILLIHZ {
            f = MAX_FREQ_MILLIHZ;
        } else {
            f = g;
        }
        k = k + 1;
    }
    f
}

/// The highest bin whose center does not exceed `freq`, or bin zero when
/// `freq` lies below the whole table. Bins beyond the table's size are
/// never returned.
pub fn frequency_to_index(freq: u64) -> (r: usize)
    ensures
        r <= 1024,
        r > 0 ==> bin_freq(r as int) <= freq,
        forall|j: int| r < j <= 1024 ==> bin_freq(j) > freq,
{
    let mut best: usize = 0;
    let mut f: u64 = MIN_FREQ_MILLIHZ;
    let mut i: usize = 0;
    while i < 1024
        invariant
            0 <= i <= 1024,
            best <= i,
            f as int == bin_freq(i as int),
            10000 <= f <= 20000000,
            best > 0 ==> bin_freq(best as int) <= freq,
            forall|j: int| best < j <= i ==> bin_freq(j) > freq,
        decreases 1024 - i,
    {
        proof {
            lemma_bin_freq_bounds(i as int + 1);
        }
        let g: u64 = f * 1006769 / 1000000;
        let next: u64 = if g > MAX_FREQ_MILLIHZ {
            MAX_FREQ_MILLIHZ
        } else {
            g
        };
        if next <= freq {
            best = i + 1;
        }
        f = next;
        i = i + 1;
    }
    best
}

/// A note resolved into its concrete timbre: still sounding
/// (`SteadyState`), or released and fading (`End`) with its decay
/// duration in samples. The scheduler produces only steady notes; the
/// rendering path damps `End` notes by the decay function.
#[derive(Debug)]
pub enum Note {
    SteadyState(Vec<Sound>),
    End(Vec<Sound>, u64),
}

pub open spec fn note_sounds(n: Note) -> Seq<Sound> {
    match n {
        Note::SteadyState(v) => v@,
        Note::End(v, _) => v@,
    }
}

pub open spec fn note_end(n: Note) -> Option<u64> {
    match n {
        Note::SteadyState(_) => None,
        Note::End(_, d) => Some(d),
    }
}

/// The ghost record of a resolved note.
#[verifier::ext_equal]
pub struct NoteM {
    pub sounds: Seq<Sound>,
    pub end: Option<u64>,
}

pub open spec fn note_m(n: Note) -> NoteM {
    NoteM { sounds: note_sounds(n), end: note_end(n) }
}

/// Saturating addition on the `u64` range.
pub open spec fn sat_add(a: int, b: int) -> int {
    sat64(a + b)
}

fn sat_add_u64(a: u64, b: u64) -> (r: u64)
    ensures
        r as int == sat_add(a as int, b as int),
{
    if a > u64::MAX - b {
        u64::MAX
    } else {
        a + b
    }
}

/// The summed power of a set of sounds at query frequency `f`,
/// saturating on the `u64` range.
pub open spec fn sounds_power(s: Seq<Sound>, f: u64) -> int
    decreases s.len(),
{
    if s.len() == 0 {
        0
    } else {
        sat_add(sounds_power(s.drop_last(), f), sat64(spec_power(s.last().freq, s.last().vol, f)))
    }
}

/// As `sounds_power`, with every contribution weighted by the damping
/// factor `damp` (milli-units).
pub open spec fn sounds_power_damped(s: Seq<Sound>, f: u64, damp: int) -> int
    decreases s.len(),
{
    if s.len() == 0 {
        0
    } else {
        sat_add(
            sounds_power_damped(s.drop_last(), f, damp),
            sat64(spec_power(s.last().freq, s.last().vol, f)) * damp / 1000,
        )
    }
}

/// The power a resolved note contributes at time step `t` and query
/// frequency `f`: its sounds' summed power, damped by the decay function
/// when the note is in its release phase.
pub open spec fn note_power(n: NoteM, t: u64, f: u64) -> int {
    match n.end {
        None => sounds_power(n.sounds, f),
        Some(dur) => sounds_power_damped(n.sounds, f, spec_damp(t, dur)),
    }
}

/// The summed power of a set of notes, saturating on the `u64` range.
pub open spec fn notes_power(ns: Seq<NoteM>, t: u64, f: u64) -> int
    decreases ns.len(),
{
    if ns.len() == 0 {
        0
    } else {
        sat_add(notes_power(ns.drop_last(), t, f), note_power(ns.last(), t, f))
    }
}

/// A chunk whose bucket held no note renders silence: every bin of
/// every one of its frames is zero.
pub proof fn lemma_empty_chunk_silent(c: ChunkM, t: u64, f: u64)
    requires
        c.notes.len() == 0,
    ensures
        notes_power(c.notes, t, f) == 0,
{
}

fn copy_sounds(v: &Vec<Sound>) -> (r: Vec<Sound>)
    ensures
        r@ == v@,
{
    let mut r: Vec<Sound> = Vec::new();
    let n = v.len();
    let mut i: usize = 0;
    while i < n
        invariant
            0 <= i <= n,
            n == v@.len(),
            r@ == v@.subrange(0, i as int),
        decreases n - i,
    {
        r.push(v[i]);
        proof {
            assert(r@ =~= v@.subrange(0, i as int + 1));
        }
        i = i + 1;
    }
    proof {
        assert(v@.subrange(0, n as int) =~= v@);
    }
    r
}

fn clone_note(n: &Note) -> (r: Note)
    ensures
        note_m(r) == note_m(*n),
{
    match n {
        Note::SteadyState(v) => Note::SteadyState(copy_sounds(v)),
        Note::End(v, d) => Note::End(copy_sounds(v), *d),
    }
}

/// The ghost record of an emitted chunk: its time steps and the notes
/// that sound through it.
#[verifier::ext_equal]
pub struct ChunkM {
    pub steps: int,
    pub notes: Seq<NoteM>,
}

/// One emitted time chunk: the fixed number of sample-time steps it
/// spans and the resolved notes that sound through it. Its
/// frequency-domain frames are computed one at a time by `frame_at`.
#[derive(Debug)]
pub struct Chunk {
    pub n_steps: u64,
    pub notes: Vec<Note>,
}

pub open spec fn chunk_m(c: Chunk) -> ChunkM {
    ChunkM { steps: c.n_steps as int, notes: c.notes@.map_values(|n: Note| note_m(n)) }
}

fn note_power_at(n: &Note, t: u64, f: u64, damp: &mut Damp) -> (r: u64)
    requires
        old(damp).wf(),
    ensures
        final(damp).wf(),
        r as int == note_power(note_m(*n), t, f),
{
    match n {
        Note::SteadyState(v) => {
            let mut acc: u64 = 0;
            let m = v.len();
            let mut i: usize = 0;
            while i < m
                invariant
                    0 <= i <= m,
                    m == v@.len(),
                    acc as int == sounds_power(v@.subrange(0, i as int), f),
                decreases m - i,
            {
                let p = v[i].get_power(f);
                proof {
                    let sub = v@.subrange(0, i as int + 1);
                    assert(sub.drop_last() =~= v@.subrange(0, i as int));
                    assert(sub.last() == v@[i as int]);
                }
                acc = sat_add_u64(acc, p);
                i = i + 1;
            }
            proof {
                assert(v@.subrange(0, m as int) =~= v@);
            }
            acc
        },
        Note::End(v, dur) => {
            let d = damp.end_damp(t, *dur);
            let mut acc: u64 = 0;
            let m = v.len();
            let mut i: usize = 0;
            while i < m
                invariant
                    0 <= i <= m,
                    m == v@.len(),
                    damp.wf(),
                    d <= 1000,
                    d as int == spec_damp(t, dur as u64),
                    acc as int == sounds_power_damped(v@.subrange(0, i as int), f, d as int),
                decreases m - i,
            {
                let p = v[i].get_power(f);
                proof {
                    let sub = v@.subrange(0, i as int + 1);
                    assert(sub.drop_last() =~= v@.subrange(0, i as int));
                    assert(sub.last() == v@[i as int]);
                    assert(p * d <= p * 1000) by (nonlinear_arith)
                        requires
                            0 <= p && 0 <= d <= 1000,
                    ;
                    lemma_div_is_ordered((p * d) as int, p * 1000, 1000);
                    lemma_div_multiples_vanish(p as int, 1000);
                    assert(p * 1000 == 1000 * (p as int));
                    assert((p * d) as int / 1000 <= p);
                }
                let weighted: u64 = (((p as u128) * (d as u128)) / 1000) as u64;
                acc = sat_add_u64(acc, weighted);
                i = i + 1;
            }
            proof {
                assert(v@.subrange(0, m as int) =~= v@);
            }
            acc
        },
    }
}

impl Chunk {
    /// The frequency-domain frame of this chunk at time step `t`: for
    /// every bin, the power that all the chunk's notes together
    /// contribute at that bin's center frequency, with fading notes
    /// damped by the decay function. A chunk with no notes yields the
    /// all-zero frame (silence).
    pub fn frame_at(&self, t: u64, damp: &mut Damp) -> (r: Vec<u64>)
        requires
            old(damp).wf(),
        ensures
            final(damp).wf(),
            r@.len() == FREQ_SIZE,
            forall|w: int|
                0 <= w < FREQ_SIZE ==> #[trigger] r@[w] as int == notes_power(
                    chunk_m(*self).notes,
                    t,
                    (bin_freq(w)) as u64,
                ),
    {
        let mut frame: Vec<u64> = Vec::new();
        let mut f: u64 = MIN_FREQ_MILLIHZ;
        let mut w: usize = 0;
        while w < FREQ_SIZE
            invariant
                0 <= w <= FREQ_SIZE,
                damp.wf(),
                f as int == bin_freq(w as int),
                10000 <= f <= 20000000,
                frame@.len() == w,
                forall|u: int|
                    0 <= u < w ==> #[trigger] frame@[u] as int == notes_power(
                        chunk_m(*self).notes,
                        t,
                        (bin_freq(u)) as u64,
                    ),
            decreases FREQ_SIZE - w,
        {
            let mut acc: u64 = 0;
            let m = self.notes.len();
            let mut i: usize = 0;
            while i < m
                invariant
                    0 <= i <= m,
                    m == self.notes@.len(),
                    damp.wf(),
                    acc as int == notes_power(
                        chunk_m(*self).notes.subrange(0, i as int),
                        t,
                        f,
                    ),
                decreases m - i,
            {
                let p = note_power_at(&self.notes[i], t, f, damp);
                proof {
                    let ns = chunk_m(*self).notes;
                    let sub = ns.subrange(0, i as int + 1);
                    assert(sub.drop_last() =~= ns.subrange(0, i as int));
                    assert(sub.last() == ns[i as int]);
                    assert(ns[i as int] == note_m(self.notes@[i as int]));
                }
                acc = sat_add_u64(acc, p);
                i = i + 1;
            }
            proof {
                assert(chunk_m(*self).notes.subrange(0, m as int) =~= chunk_m(*self).notes);
                lemma_bin_freq_bounds(w as int + 1);
            }
            frame.push(acc);
            let g: u64 = f * 1006769 / 1000000;
            if g > MAX_FREQ_MILLIHZ {
                f = MAX_FREQ_MILLIHZ;
            } else {
                f = g;
            }
            w = w + 1;
        }
        frame
    }
}

/// The ghost state of the scheduler: the oldest live bucket's time
/// index, the position of that bucket in the circular array, the tempo,
/// the eight buckets of handles into the arena of resolved notes, and
/// the chunks emitted so far.
#[verifier::ext_equal]
pub struct BdModel {
    pub low_time: int,
    pub active: int,
    pub tempo: int,
    pub buckets: Seq<Seq<int>>,
    pub arena: Seq<NoteM>,
    pub out: Seq<ChunkM>,
}

pub open spec fn bd_wf(m: BdModel) -> bool {
    &&& m.buckets.len() == 8
    &&& 0 <= m.active < 8
    &&& 0 <= m.low_time <= u32::MAX
    &&& 0 <= m.tempo <= u32::MAX
    &&& forall|b: int, j: int|
        0 <= b < 8 && 0 <= j < m.buckets[b].len() ==> 0 <= #[trigger] m.buckets[b][j]
            < m.arena.len()
}

/// Sample-time steps in one emitted chunk: a bucket is one quarter
/// note, which at `tempo` beats per minute lasts `60 / tempo` seconds,
/// so a chunk spans `44100 * 60 / tempo` samples — fewer as the tempo
/// rises. A tempo of zero (an unchecked scheduler; the parser refuses
/// it) yields empty chunks.
pub open spec fn spec_chunk_steps(tempo: int) -> int {
    if tempo <= 0 {
        0
    } else {
        2646000int / tempo
    }
}

/// Whether inserting a note over time offsets `[lo, hi)` touches
/// circular bucket `b`.
pub open spec fn bucket_hit(active: int, lo: int, hi: int, b: int) -> bool {
    exists|i: int| lo <= i < hi && #[trigger] ((active + i) % 8) == b
}

/// The scheduler after a new note record `nm` has been appended to the
/// arena and its handle added to every bucket its offsets `[lo, hi)`
/// reach, with modular wrap into the circular array.
pub open spec fn spec_insert_upto(m: BdModel, nm: NoteM, lo: int, hi: int) -> BdModel {
    let h = m.arena.len() as int;
    BdModel {
        arena: m.arena.push(nm),
        buckets: Seq::new(
            8,
            |b: int|
                if bucket_hit(m.active, lo, hi, b) {
                    m.buckets[b].push(h)
                } else {
                    m.buckets[b]
                },
        ),
        ..m
    }
}

pub open spec fn spec_insert(m: BdModel, nm: NoteM, begin: int, dur: int) -> BdModel {
    spec_insert_upto(m, nm, begin, begin + dur)
}

/// One scheduler step: the departing bucket's notes become an emitted
/// chunk, the bucket is cleared, and the window advances by one.
pub open spec fn spec_push1(m: BdModel) -> BdModel {
    let chunk = ChunkM {
        steps: spec_chunk_steps(m.tempo),
        notes: m.buckets[m.active].map_values(|h: int| m.arena[h]),
    };
    BdModel {
        low_time: m.low_time + 1,
        active: (m.active + 1) % 8,
        buckets: m.buckets.update(m.active, Seq::empty()),
        out: m.out.push(chunk),
        ..m
    }
}

pub open spec fn spec_push_n(m: BdModel, k: nat) -> BdModel
    decreases k,
{
    if k == 0 {
        m
    } else {
        spec_push_n(spec_push1(m), (k - 1) as nat)
    }
}

/// What scheduling a note does: its resolved timbre joins every bucket
/// from offset `begin` for `dur` buckets, and the scheduler then
/// advances `begin` steps, flushing the buckets that are now final.
pub open spec fn spec_add_note(m: BdModel, sounds: Seq<Sound>, begin: int, dur: int) -> BdModel {
    spec_push_n(spec_insert(m, NoteM { sounds, end: None }, begin, dur), begin as nat)
}

pub proof fn lemma_push_n_unfold(m: BdModel, k: nat)
    ensures
        spec_push_n(m, k + 1) == spec_push1(spec_push_n(m, k)),
    decreases k,
{
    if k == 0 {
        assert(spec_push_n(m, 1) == spec_push_n(spec_push1(m), 0));
        assert(spec_push_n(spec_push1(m), 0) == spec_push1(m));
        assert(spec_push_n(m, 0) == m);
    } else {
        lemma_push_n_unfold(spec_push1(m), (k - 1) as nat);
        assert(spec_push_n(m, k + 1) == spec_push_n(spec_push1(m), k));
        assert(spec_push_n(m, k) == spec_push_n(spec_push1(m), (k - 1) as nat));
    }
}

pub proof fn lemma_push1_wf(m: BdModel)
    requires
        bd_wf(m),
        m.low_time < u32::MAX,
    ensures
        bd_wf(spec_push1(m)),
{
    let m1 = spec_push1(m);
    assert forall|b: int, j: int| 0 <= b < 8 && 0 <= j < m1.buckets[b].len() implies 0
        <= #[trigger] m1.buckets[b][j] < m1.arena.len() by {
        if b != m.active {
            assert(m1.buckets[b] == m.buckets[b]);
        }
    }
}

pub proof fn lemma_insert_wf(m: BdModel, nm: NoteM, lo: int, hi: int)
    requires
        bd_wf(m),
    ensures
        bd_wf(spec_insert_upto(m, nm, lo, hi)),
{
    let m1 = spec_insert_upto(m, nm, lo, hi);
    assert forall|b: int, j: int| 0 <= b < 8 && 0 <= j < m1.buckets[b].len() implies 0
        <= #[trigger] m1.buckets[b][j] < m1.arena.len() by {
        if bucket_hit(m.active, lo, hi, b) {
            assert(m1.buckets[b] == m.buckets[b].push(m.arena.len() as int));
            if j < m.buckets[b].len() {
                assert(m1.buckets[b][j] == m.buckets[b][j]);
            }
        } else {
            assert(m1.buckets[b] == m.buckets[b]);
        }
    }
}

/// Two distinct time offsets less than a window apart land in distinct
/// circular buckets.
pub proof fn lemma_mod8_distinct(a: int, x: int, y: int)
    requires
        0 <= a,
        0 <= x < y,
        y - x < 8,
    ensures
        (a + x) % 8 != (a + y) % 8,
{
    if (a + x) % 8 == (a + y) % 8 {
        lemma_fundamental_div_mod(a + x, 8);
        lemma_fundamental_div_mod(a + y, 8);
        let q = (a + y) / 8 - (a + x) / 8;
        assert(y - x == 8 * q);
    }
}

/// Advancing the scheduler `k` steps raises the window by `k`, turns
/// the circle accordingly, leaves the arena alone, never refills a
/// cleared bucket, and clears the `k` departing buckets.
pub proof fn lemma_push_n_props(m: BdModel, k: nat)
    requires
        bd_wf(m),
        m.low_time + k <= u32::MAX,
        k <= 8,
    ensures
        bd_wf(spec_push_n(m, k)),
        spec_push_n(m, k).low_time == m.low_time + k,
        spec_push_n(m, k).active == (m.active + k) % 8,
        spec_push_n(m, k).arena == m.arena,
        spec_push_n(m, k).tempo == m.tempo,
        spec_push_n(m, k).out.len() == m.out.len() + k,
        forall|b: int|
            0 <= b < 8 && m.buckets[b].len() == 0 ==> spec_push_n(m, k).buckets[b].len() == 0,
        forall|j: int|
            0 <= j < k ==> spec_push_n(m, k).buckets[#[trigger] ((m.active + j) % 8)].len() == 0,
    decreases k,
{
    if k == 0 {
        lemma_small_mod(m.active as nat, 8);
    } else {
        lemma_push1_wf(m);
        let m1 = spec_push1(m);
        lemma_push_n_props(m1, (k - 1) as nat);
        let mk = spec_push_n(m, k);
        assert(mk == spec_push_n(m1, (k - 1) as nat));
        assert(m1.active == (m.active + 1) % 8);
        assert(mk.active == ((m.active + 1) % 8 + (k - 1)) % 8);
        assert(((m.active + 1) % 8 + (k - 1)) % 8 == (m.active + k) % 8) by {
            vstd::arithmetic::div_mod::lemma_add_mod_noop(m.active + 1, k - 1, 8);
            vstd::arithmetic::div_mod::lemma_mod_twice(m.active + 1, 8);
            vstd::arithmetic::div_mod::lemma_mod_twice(k - 1, 8);
            lemma_small_mod((k - 1) as nat, 8);
        }
        assert forall|b: int| 0 <= b < 8 && m.buckets[b].len() == 0 implies mk.buckets[b].len()
            == 0 by {
            assert(m1.buckets[b].len() == 0);
        }
        assert forall|j: int| 0 <= j < k implies mk.buckets[
            #[trigger] ((m.active + j) % 8)
        ].len() == 0 by {
            if j == 0 {
                lemma_small_mod(m.active as nat, 8);
                assert(m1.buckets[m.active].len() == 0);
                assert(mk.buckets[m.active].len() == 0);
            } else {
                assert((m.active + j) % 8 == (m1.active + (j - 1)) % 8) by {
                    vstd::arithmetic::div_mod::lemma_add_mod_noop(m.active + 1, j - 1, 8);
                    vstd::arithmetic::div_mod::lemma_mod_twice(m.active + 1, 8);
                    vstd::arithmetic::div_mod::lemma_mod_twice(j - 1, 8);
                    lemma_small_mod((j - 1) as nat, 8);
                }
            }
        }
    }
}

/// After a full drain every bucket of the scheduler is empty and the
/// window has moved past all of them.
pub proof fn lemma_drain_empties(m: BdModel)
    requires
        bd_wf(m),
        m.low_time + 8 <= u32::MAX,
    ensures
        spec_push_n(m, 8).low_time == m.low_time + 8,
        forall|b: int| 0 <= b < 8 ==> spec_push_n(m, 8).buckets[b].len() == 0,
{
    lemma_push_n_props(m, 8);
    assert forall|b: int| 0 <= b < 8 implies spec_push_n(m, 8).buckets[b].len() == 0 by {
        let j = if b >= m.active {
            b - m.active
        } else {
            b + 8 - m.active
        };
        assert(0 <= j < 8);
        if b >= m.active {
            lemma_small_mod(b as nat, 8);
            assert((m.active + j) % 8 == b);
        } else {
            assert(m.active + j == b + 8);
            lemma_small_mod(b as nat, 8);
            vstd::arithmetic::div_mod::lemma_mod_add_multiples_vanish(b, 8);
            assert((m.active + j) % 8 == b);
        }
    }
}

/// A scheduling request the scheduler refuses: a note of zero length
/// units, a note starting before the oldest live bucket, or a pitch
/// beyond the pitch grid.
#[derive(Clone, Copy, PartialEq, Eq, Structural, Debug)]
pub enum NoteError {
    ZeroLength,
    OutOfOrder,
    PitchOutOfRange,
}

fn copy_handles(v: &Vec<usize>) -> (r: Vec<usize>)
    ensures
        r@ == v@,
{
    let mut r: Vec<usize> = Vec::new();
    let n = v.len();
    let mut i: usize = 0;
    while i < n
        invariant
            0 <= i <= n,
            n == v@.len(),
            r@ == v@.subrange(0, i as int),
        decreases n - i,
    {
        r.push(v[i]);
        proof {
            assert(r@ =~= v@.subrange(0, i as int + 1));
        }
        i = i + 1;
    }
    proof {
        assert(v@.subrange(0, n as int) =~= v@);
    }
    r
}

/// The time-windowed note scheduler: a circular array of eight time
/// buckets, each holding handles to the resolved notes that overlap it.
/// Notes must arrive in non-decreasing start time; each arrival flushes
/// the buckets that can no longer change into emitted chunks.
pub struct Breakdown {
    low_time: u32,
    notes: Vec<Vec<usize>>,
    active: usize,
    tempo: u32,
    arena: Vec<Note>,
    out: Vec<Chunk>,
}

impl View for Breakdown {
    type V = BdModel;

    closed spec fn view(&self) -> BdModel {
        BdModel {
            low_time: self.low_time as int,
            active: self.active as int,
            tempo: self.tempo as int,
            buckets: self.notes@.map_values(|b: Vec<usize>| b@.map_values(|h: usize| h as int)),
            arena: self.arena@.map_values(|n: Note| note_m(n)),
            out: self.out@.map_values(|c: Chunk| chunk_m(c)),
        }
    }
}

impl Breakdown {
    pub open spec fn wf(self) -> bool {
        bd_wf(self@)
    }

    /// A fresh scheduler at time zero with all buckets empty.
    pub fn new(tempo: u32) -> (r: Breakdown)
        ensures
            r.wf(),
            r@.low_time == 0,
            r@.active == 0,
            r@.tempo == tempo,
            forall|b: int| 0 <= b < 8 ==> r@.buckets[b].len() == 0,
            r@.arena.len() == 0,
            r@.out.len() == 0,
    {
        let mut notes: Vec<Vec<usize>> = Vec::new();
        let mut i: usize = 0;
        while i < 8
            invariant
                0 <= i <= 8,
                notes@.len() == i,
                forall|b: int| 0 <= b < i ==> #[trigger] notes@[b]@.len() == 0,
            decreases 8 - i,
        {
            notes.push(Vec::new());
            i = i + 1;
        }
        let r = Breakdown {
            low_time: 0,
            notes,
            active: 0,
            tempo,
            arena: Vec::new(),
            out: Vec::new(),
        };
        r
    }

    /// One scheduler step, flushing the departing bucket into a chunk.
    fn push(&mut self)
        requires
            old(self).wf(),
            old(self)@.low_time < u32::MAX,
        ensures
            final(self).wf(),
            final(self)@ == spec_push1(old(self)@),
    {
        let ghost m0 = self@;
        let mut cnotes: Vec<Note> = Vec::new();
        let blen = self.notes[self.active].len();
        let mut j: usize = 0;
        while j < blen
            invariant
                *self == *old(self),
                self@ == m0,
                bd_wf(m0),
                0 <= j <= blen,
                self.active < 8,
                blen == self.notes@[self.active as int]@.len(),
                cnotes@.len() == j,
                forall|q: int|
                    0 <= q < j ==> note_m(#[trigger] cnotes@[q]) == m0.arena[m0.buckets[m0.active][q]],
            decreases blen - j,
        {
            let h = self.notes[self.active][j];
            proof {
                assert(m0.buckets[m0.active][j as int] == self.notes@[self.active as int]@[j as int] as int);
                assert(0 <= m0.buckets[m0.active][j as int] < m0.arena.len());
            }
            let cn = clone_note(&self.arena[h]);
            cnotes.push(cn);
            j = j + 1;
        }
        let steps: u64 = if self.tempo == 0 {
            0
        } else {
            2646000u64 / (self.tempo as u64)
        };
        self.out.push(Chunk { n_steps: steps, notes: cnotes });
        let mut empty_bucket: Vec<usize> = Vec::new();
        let a = self.active;
        self.notes[a] = empty_bucket;
        self.active = if a + 1 == 8 {
            0
        } else {
            a + 1
        };
        self.low_time = self.low_time + 1;
        proof {
            assert(self@ =~~= spec_push1(m0));
        }
    }

    /// Schedule a note: `note` is the pitch number, `time` the start in
    /// bucket units, `note_length` the length unit (a `4` is a quarter
    /// note), `vol` the note volume in milli-units. A zero length unit,
    /// a start before the oldest live bucket, and a pitch beyond the
    /// grid are refused, in that order of checks; otherwise the note's
    /// resolved timbre joins its buckets and the scheduler advances to
    /// the note's start, emitting the flushed chunks.
    pub fn add_note(
        &mut self,
        inst: &Instrument,
        note: u32,
        time: u32,
        note_length: u32,
        vol: u64,
    ) -> (r: Result<(), NoteError>)
        requires
            old(self).wf(),
            inst.wf(),
            vol <= 1000,
        ensures
            final(self).wf(),
            note_length == 0 ==> r == Err::<(), NoteError>(NoteError::ZeroLength) && final(self)@
                == old(self)@,
            note_length >= 1 && time < old(self)@.low_time ==> r == Err::<(), NoteError>(
                NoteError::OutOfOrder,
            ) && final(self)@ == old(self)@,
            note_length >= 1 && time >= old(self)@.low_time && note > 127 ==> r == Err::<
                (),
                NoteError,
            >(NoteError::PitchOutOfRange) && final(self)@ == old(self)@,
            note_length >= 1 && time >= old(self)@.low_time && note <= 127 ==> r == Ok::<
                (),
                NoteError,
            >(()) && final(self)@ == spec_add_note(
                old(self)@,
                spec_generate(*inst, spec_frequency(note as int) as u64, vol),
                time - old(self)@.low_time,
                8int / (note_length as int),
            ),
    {
        if note_length == 0 {
            return Err(NoteError::ZeroLength);
        }
        if time < self.low_time {
            return Err(NoteError::OutOfOrder);
        }
        if note > 127 {
            return Err(NoteError::PitchOutOfRange);
        }
        let ghost m0 = self@;
        let duration: u32 = get_duration_from_length(note_length);
        let freq: u64 = frequency_millihz(note);
        let sounds: Vec<Sound> = inst.generate_steady_state(freq, vol);
        let ghost nm = NoteM { sounds: spec_generate(*inst, freq, vol), end: None };
        let handle: usize = self.arena.len();
        self.arena.push(Note::SteadyState(sounds));
        let begin: u32 = time - self.low_time;
        let b64: u64 = begin as u64;
        let d64: u64 = duration as u64;
        let mut i: u64 = b64;
        proof {
            assert(self@ =~~= spec_insert_upto(m0, nm, b64 as int, b64 as int));
        }
        while i < b64 + d64
            invariant
                b64 <= i <= b64 + d64,
                d64 <= 8,
                b64 <= 0xffffffffu64,
                bd_wf(m0),
                self.active < 8,
                self.notes@.len() == 8,
                m0.active == self.active as int,
                m0.arena.len() == self.arena@.len() - 1,
                handle as int == m0.arena.len(),
                self@ == spec_insert_upto(m0, nm, b64 as int, i as int),
            decreases b64 + d64 - i,
        {
            let idx: usize = ((i + self.active as u64) % 8) as usize;
            let ghost mprev = self@;
            let ghost mprev_inner = self.notes@[idx as int]@;
            proof {
                assert((m0.active + i as int) % 8 == idx as int) by {
                    vstd::arithmetic::div_mod::lemma_add_mod_noop(
                        i as int,
                        m0.active as int,
                        8,
                    );
                }
                assert(!bucket_hit(m0.active, b64 as int, i as int, idx as int)) by {
                    if bucket_hit(m0.active, b64 as int, i as int, idx as int) {
                        let w = choose|w: int|
                            b64 <= w < i && #[trigger] ((m0.active + w) % 8) == idx as int;
                        lemma_mod8_distinct(m0.active, w, i as int);
                    }
                }
                assert(mprev.buckets[idx as int] == m0.buckets[idx as int]);
            }
            self.notes[idx].push(handle);
            proof {
                assert forall|b: int| 0 <= b < 8 implies self@.buckets[b]
                    == spec_insert_upto(m0, nm, b64 as int, i as int + 1).buckets[b] by {
                    if b == idx as int {
                        assert(bucket_hit(m0.active, b64 as int, i as int + 1, b));
                        assert(self.notes@[b]@ == mprev_inner.push(handle));
                        assert(self@.buckets[b] =~= m0.buckets[b].push(
                            m0.arena.len() as int,
                        ));
                    } else {
                        assert(bucket_hit(m0.active, b64 as int, i as int + 1, b)
                            == bucket_hit(m0.active, b64 as int, i as int, b)) by {
                            if bucket_hit(m0.active, b64 as int, i as int + 1, b) {
                                let w = choose|w: int|
                                    b64 <= w < i + 1 && #[trigger] ((m0.active + w) % 8) == b;
                                assert(w < i);
                            }
                        }
                        assert(self@.buckets[b] == mprev.buckets[b]);
                    }
                }
                assert(self@ =~~= spec_insert_upto(m0, nm, b64 as int, i as int + 1));
            }
            i = i + 1;
        }
        let ghost mi = spec_insert(m0, nm, b64 as int, d64 as int);
        proof {
            assert(self@ == mi);
            lemma_insert_wf(m0, nm, b64 as int, (b64 + d64) as int);
        }
        let mut k: u32 = 0;
        while k < begin
            invariant
                0 <= k <= begin,
                self.wf(),
                bd_wf(mi),
                self@ == spec_push_n(mi, k as nat),
                self@.low_time == mi.low_time + k,
                mi.low_time + begin <= u32::MAX,
            decreases begin - k,
        {
            proof {
                lemma_push_n_unfold(mi, k as nat);
            }
            self.push();
            k = k + 1;
        }
        Ok(())
    }

    /// Drain the scheduler: flush every bucket in turn, emitting the
    /// tail of the piece. Afterwards every bucket is empty and the
    /// window has advanced past the whole circle.
    pub fn push_all(&mut self)
        requires
            old(self).wf(),
            old(self)@.low_time + 8 <= u32::MAX,
        ensures
            final(self).wf(),
            final(self)@ == spec_push_n(old(self)@, 8),
            final(self)@.low_time == old(self)@.low_time + 8,
            forall|b: int| 0 <= b < 8 ==> final(self)@.buckets[b].len() == 0,
    {
        let ghost m0 = self@;
        let mut k: u32 = 0;
        while k < 8
            invariant
                0 <= k <= 8,
                self.wf(),
                bd_wf(m0),
                m0.low_time + 8 <= u32::MAX,
                self@ == spec_push_n(m0, k as nat),
                self@.low_time == m0.low_time + k,
            decreases 8 - k,
        {
            proof {
                lemma_push_n_unfold(m0, k as nat);
            }
            self.push();
            k = k + 1;
        }
        proof {
            lemma_drain_empties(m0);
        }
    }

    /// The time index of the oldest live bucket.
    pub fn low_time(&self) -> (r: u32)
        ensures
            r == self@.low_time,
    {
        self.low_time
    }

    /// How many notes bucket `b` of the circular array holds.
    pub fn bucket_len(&self, b: usize) -> (r: usize)
        requires
            b < 8,
            self.wf(),
        ensures
            r == self@.buckets[b as int].len(),
    {
        self.notes[b].len()
    }

    /// The chunks emitted so far, oldest first.
    pub fn chunks(&self) -> (r: &Vec<Chunk>)
        ensures
            r@.map_values(|c: Chunk| chunk_m(c)) == self@.out,
    {
        &self.out
    }
}

} // verus!
