//! The instrument sound model: a frequency component with a spectral
//! smear and a volume, an instrument as an ordered set of such components
//! with a reverb time and an overall volume, and the memoized decay
//! function. Frequencies are in millihertz, volumes and damping factors
//! in thousandths (milli-units), spectral power in millionths
//! (micro-units).
//!
//! The Gaussian smear uses the standard bell: its power falls off away
//! from the center. The bell is computed on the milli-unit grid with the
//! rational approximation `1 / (1 + x + x^2/2)` of `exp(-x)`, cut off
//! eight standard deviations from the center, and normalized by
//! `sigma * sqrt(2*pi)`.
use crate::errors::{err_is, ErrKind, ParseError};
use std::collections::HashMap;
use vstd::arithmetic::div_mod::{
    lemma_div_is_ordered, lemma_div_multiples_vanish, lemma_div_nonincreasing,
    lemma_div_pos_is_pos, lemma_fundamental_div_mod_converse,
};
use vstd::prelude::*;

verus! {

/// How a component's energy is spread around its center frequency:
/// `Delta(center)` is a narrow band at `center` alone;
/// `Gaussian(center, sigma)` is a bell of spread `sigma` around `center`.
/// Both carry millihertz.
#[derive(Clone, Copy, PartialEq, Eq, Structural, Debug)]
pub enum Smear {
    Delta(u64),
    Gaussian(u64, u64),
}

/// `sm` with its center (and, for a bell, its spread) multiplied by
/// `num / den`, on the millihertz grid.
pub open spec fn spec_scale(sm: Smear, num: u64, den: u64) -> Smear {
    match sm {
        Smear::Delta(c) => Smear::Delta((c * num / (den as int)) as u64),
        Smear::Gaussian(c, s) => Smear::Gaussian(
            (c * num / (den as int)) as u64,
            (s * num / (den as int)) as u64,
        ),
    }
}

impl Smear {
    /// Multiplies the smear by the ratio `num / den`, preserving its
    /// shape: this pitch-shifts a harmonic component in proportion to the
    /// played note's fundamental.
    pub fn scale(self, num: u64, den: u64) -> (r: Smear)
        requires
            den >= 1,
            match self {
                Smear::Delta(c) => c * num <= u64::MAX,
                Smear::Gaussian(c, s) => c * num <= u64::MAX && s * num <= u64::MAX,
            },
        ensures
            r == spec_scale(self, num, den),
    {
        match self {
            Smear::Delta(c) => Smear::Delta(c * num / den),
            Smear::Gaussian(c, s) => {
                proof {
                    lemma_div_is_ordered(s * num, u64::MAX as int, den as int);
                    assert(u64::MAX as int / (den as int) <= u64::MAX) by {
                        lemma_div_nonincreasing(u64::MAX as int, den as int);
                    }
                }
                Smear::Gaussian(c * num / den, s * num / den)
            },
        }
    }
}

/// Scaling by a whole factor and then by its inverse returns the
/// original smear exactly. (On the millihertz grid the round trip is
/// exact only when the first scaling is by a whole number: scaling
/// `Delta(1000)` by one third truncates and cannot be undone.)
pub proof fn lemma_scale_round_trip(sm: Smear, m: u64)
    requires
        m >= 1,
        match sm {
            Smear::Delta(c) => c * m <= u64::MAX,
            Smear::Gaussian(c, s) => c * m <= u64::MAX && s * m <= u64::MAX,
        },
    ensures
        spec_scale(spec_scale(sm, m, 1), 1, m) == sm,
{
    match sm {
        Smear::Delta(c) => {
            assert(c * m / 1 == c * m);
            lemma_div_multiples_vanish(c as int, m as int);
            assert((c * m) * 1 == m * c);
        },
        Smear::Gaussian(c, s) => {
            assert(c * m / 1 == c * m);
            assert(s * m / 1 == s * m);
            lemma_div_multiples_vanish(c as int, m as int);
            lemma_div_multiples_vanish(s as int, m as int);
            assert((c * m) * 1 == m * c);
            assert((s * m) * 1 == m * s);
        },
    }
}

/// `x` capped at the largest `u64`.
pub open spec fn sat64(x: int) -> int {
    if x > u64::MAX {
        u64::MAX as int
    } else {
        x
    }
}

/// The power, in micro-units, that a component of smear `sm` and volume
/// `vol` (milli-units) contributes at query frequency `freq` (millihertz).
///
/// A narrow band contributes its full volume within one part in a
/// thousand of its center, and nothing elsewhere. A bell contributes
/// `vol * bell(d/sigma) / (sigma * sqrt(2*pi))`, where `bell` is the
/// rational approximation `1/(1 + x + x^2/2)` of `exp(-x)` at
/// `x = d^2/(2*sigma^2)`, cut off at `d >= 8*sigma`.
pub open spec fn spec_power(sm: Smear, vol: u64, freq: u64) -> int {
    match sm {
        Smear::Delta(c) => {
            let diff = abs_diff(freq as int, c as int);
            if c > 0 && diff * 1000 < c {
                vol * 1000
            } else {
                0
            }
        },
        Smear::Gaussian(c, s) => {
            if s == 0 {
                0
            } else {
                let diff = abs_diff(freq as int, c as int);
                let t = diff * 1000 / (s as int);
                if t >= 8000 {
                    0
                } else {
                    let x = t * t / 2;
                    let denom = 1000000 + x + x * x / 2000000;
                    let bell = 1000000000000int / denom;
                    let sig2pi = s * 2506628 / 1000;
                    if sig2pi <= 0 {
                        0
                    } else {
                        vol * (bell * 1000000 / sig2pi) / 1000
                    }
                }
            }
        },
    }
}

pub open spec fn abs_diff(a: int, b: int) -> int {
    if a >= b {
        a - b
    } else {
        b - a
    }
}

/// Complete information about one frequency component of a playing note.
#[derive(Clone, Copy, PartialEq, Eq, Structural, Debug)]
pub struct Sound {
    pub freq: Smear,
    pub vol: u64,
}

impl Sound {
    /// Make a new sound.
    pub fn new(freq: Smear, vol: u64) -> (r: Sound)
        ensures
            r == (Sound { freq, vol }),
    {
        Sound { freq, vol }
    }

    /// The power of this sound at query frequency `freq` (millihertz),
    /// in micro-units, capped at the largest `u64`.
    pub fn get_power(&self, freq: u64) -> (r: u64)
        ensures
            r as int == sat64(spec_power(self.freq, self.vol, freq)),
    {
        match self.freq {
            Smear::Delta(c) => {
                if c == 0 {
                    return 0;
                }
                let diff: u64 = if freq >= c {
                    freq - c
                } else {
                    c - freq
                };
                if (diff as u128) * 1000 < c as u128 {
                    sat_u64((self.vol as u128) * 1000)
                } else {
                    0
                }
            },
            Smear::Gaussian(c, s) => {
                if s == 0 {
                    return 0;
                }
                let diff: u64 = if freq >= c {
                    freq - c
                } else {
                    c - freq
                };
                let t: u128 = (diff as u128) * 1000 / (s as u128);
                if t >= 8000 {
                    return 0;
                }
                proof {
                    assert(t * t <= 8000 * 8000) by (nonlinear_arith)
                        requires
                            0 <= t < 8000,
                    ;
                }
                let x: u128 = t * t / 2;
                proof {
                    assert(x * x <= 32000000 * 32000000) by (nonlinear_arith)
                        requires
                            0 <= x <= 32000000,
                    ;
                }
                let denom: u128 = 1000000 + x + x * x / 2000000;
                let bell: u128 = 1000000000000 / denom;
                let sig2pi: u128 = (s as u128) * 2506628 / 1000;
                if sig2pi == 0 {
                    return 0;
                }
                proof {
                    lemma_div_nonincreasing(1000000000000, denom as int);
                    lemma_div_nonincreasing((bell * 1000000) as int, sig2pi as int);
                }
                let factor: u128 = bell * 1000000 / sig2pi;
                proof {
                    assert((self.vol as u128) * factor <= 340282366920938463463374607431768211455)
                        by (nonlinear_arith)
                        requires
                            self.vol <= 0xffffffffffffffffu64 && 0 <= factor
                                <= 1000000000000000000,
                    ;
                }
                let p: u128 = (self.vol as u128) * factor / 1000;
                sat_u64(p)
            },
        }
    }
}

fn sat_u64(x: u128) -> (r: u64)
    ensures
        r as int == sat64(x as int),
{
    if x > u64::MAX as u128 {
        u64::MAX
    } else {
        x as u64
    }
}

/// True of the sounds an instrument definition can produce: values fit
/// the parse grid (below a thousand whole units) and centers and spreads
/// are positive.
pub open spec fn sound_wf(s: Sound) -> bool {
    s.vol < 1000000000 && match s.freq {
        Smear::Delta(c) => 1 <= c < 1000000000,
        Smear::Gaussian(c, sg) => 1 <= c < 1000000000 && 1 <= sg < 1000000000,
    }
}

/// An instrument: an ordered timbre recipe, a reverb (ring-down) time in
/// milliseconds, and an overall volume in milli-units.
#[derive(Clone, Debug)]
pub struct Instrument {
    pub steady_mult: Vec<Sound>,
    pub reverb: u64,
    pub vol: u64,
}

impl Instrument {
    /// The construction-time invariant: at least one component, a
    /// positive reverb time, an in-range volume, and every component on
    /// the parse grid.
    pub open spec fn wf(self) -> bool {
        &&& self.steady_mult@.len() >= 1
        &&& 1 <= self.reverb < 1000000000
        &&& self.vol <= 1000
        &&& forall|i: int|
            0 <= i < self.steady_mult@.len() ==> sound_wf(#[trigger] self.steady_mult@[i])
    }

    /// Generate the steady-state sounds of the instrument for a playing
    /// note of fundamental `freq` (millihertz) and volume `vol`
    /// (milli-units): every component's smear is scaled by the
    /// fundamental and its volume by the note's and the instrument's,
    /// preserving order.
    pub fn generate_steady_state(&self, freq: u64, vol: u64) -> (r: Vec<Sound>)
        requires
            self.wf(),
            vol <= 1000,
            freq <= 20000000,
        ensures
            r@.len() == self.steady_mult@.len(),
            forall|i: int|
                0 <= i < r@.len() ==> #[trigger] r@[i] == (Sound {
                    freq: spec_scale(self.steady_mult@[i].freq, freq, 1000),
                    vol: (self.steady_mult@[i].vol * vol * self.vol / 1000000) as u64,
                }),
            r@ == spec_generate(*self, freq, vol),
    {
        let mut ret: Vec<Sound> = Vec::new();
        let n = self.steady_mult.len();
        let mut i: usize = 0;
        let ghost goal = spec_generate(*self, freq, vol);
        while i < n
            invariant
                0 <= i <= n,
                n == self.steady_mult@.len(),
                self.wf(),
                vol <= 1000,
                freq <= 20000000,
                ret@.len() == i,
                forall|j: int|
                    0 <= j < i ==> #[trigger] ret@[j] == (Sound {
                        freq: spec_scale(self.steady_mult@[j].freq, freq, 1000),
                        vol: (self.steady_mult@[j].vol * vol * self.vol / 1000000) as u64,
                    }),
            decreases n - i,
        {
            let s = self.steady_mult[i];
            proof {
                assert(sound_wf(self.steady_mult@[i as int]));
                assert(s.vol * vol * self.vol <= 1000000000000000) by (nonlinear_arith)
                    requires
                        s.vol < 1000000000 && vol <= 1000 && self.vol <= 1000,
                ;
                match s.freq {
                    Smear::Delta(c) => {
                        assert(c * freq <= u64::MAX) by (nonlinear_arith)
                            requires
                                c < 1000000000 && freq <= 20000000,
                        ;
                    },
                    Smear::Gaussian(c, sg) => {
                        assert(c * freq <= u64::MAX && sg * freq <= u64::MAX)
                            by (nonlinear_arith)
                            requires
                                c < 1000000000 && sg < 1000000000 && freq <= 20000000,
                        ;
                    },
                }
            }
            proof {
                assert(s.vol * vol <= 1000000000000) by (nonlinear_arith)
                    requires
                        s.vol < 1000000000 && vol <= 1000,
                ;
            }
            let v128: u128 = (s.vol as u128) * (vol as u128) * (self.vol as u128) / 1000000;
            proof {
                lemma_div_is_ordered(
                    (s.vol * vol * self.vol) as int,
                    1000000000000000,
                    1000000,
                );
            }
            let new_vol: u64 = v128 as u64;
            ret.push(Sound { freq: s.freq.scale(freq, 1000), vol: new_vol });
            i = i + 1;
        }
        proof {
            assert(ret@ =~= spec_generate(*self, freq, vol));
        }
        ret
    }
}

/// The resolved timbre of a playing note: every component of a palette
/// entry with components `comps` and instrument volume `ivol`, scaled
/// to the note's fundamental `freq` and volume `vol`.
pub open spec fn spec_generate_comps(comps: Seq<Sound>, ivol: u64, freq: u64, vol: u64) -> Seq<
    Sound,
> {
    Seq::new(
        comps.len(),
        |i: int|
            Sound {
                freq: spec_scale(comps[i].freq, freq, 1000),
                vol: (comps[i].vol * vol * ivol / 1000000) as u64,
            },
    )
}

/// The resolved timbre of a playing note on instrument `inst`.
pub open spec fn spec_generate(inst: Instrument, freq: u64, vol: u64) -> Seq<Sound> {
    spec_generate_comps(inst.steady_mult@, inst.vol, freq, vol)
}

/// The damping factor, in milli-units, `max(dur - t, 0) * 1000 / dur`:
/// full volume at `t == 0`, fading to zero at and after `t == dur`.
pub open spec fn spec_damp(t: u64, dur: u64) -> int {
    if t >= dur {
        0
    } else {
        (dur - t) * 1000 / (dur as int)
    }
}

/// The damping factor is never more than full volume.
pub proof fn lemma_damp_range(t: u64, dur: u64)
    ensures
        0 <= spec_damp(t, dur) <= 1000,
{
    if t < dur {
        lemma_div_pos_is_pos((dur - t) * 1000, dur as int);
        lemma_div_is_ordered((dur - t) * 1000, dur * 1000, dur as int);
        lemma_div_multiples_vanish(1000, dur as int);
        assert(dur * 1000 == (dur as int) * 1000);
    }
}

/// A note starts undamped and is fully damped once its decay duration
/// has elapsed; between the two the damping factor never increases.
pub proof fn lemma_damp_decay(t1: u64, t2: u64, dur: u64)
    requires
        dur > 0,
        t1 <= t2,
    ensures
        spec_damp(0, dur) == 1000,
        spec_damp(dur, dur) == 0,
        spec_damp(t1, dur) >= spec_damp(t2, dur),
{
    lemma_div_multiples_vanish(1000, dur as int);
    assert((dur as int) * 1000 == (dur - 0) * 1000);
    lemma_damp_range(t2, dur);
    if t2 < dur {
        lemma_div_is_ordered((dur - t2) * 1000, (dur - t1) * 1000, dur as int);
    } else {
        lemma_damp_range(t1, dur);
    }
}

/// Memoizes the damping factors of one rendering run. A factor never
/// changes for the same pair, so a hit and a recomputation agree.
pub struct Damp {
    memo: HashMap<u128, u64>,
}

/// The memo key of a query pair.
pub open spec fn damp_key(t: u64, dur: u64) -> u128 {
    ((t as u128) * 0x10000000000000000 + (dur as u128)) as u128
}

impl Damp {
    /// Every memoized value is the damping factor of its key.
    pub closed spec fn wf(self) -> bool {
        forall|k: u128|
            self.memo@.contains_key(k) ==> #[trigger] self.memo@[k] as int == spec_damp(
                (k / 0x10000000000000000) as u64,
                (k % 0x10000000000000000) as u64,
            )
    }

    pub fn new() -> (r: Damp)
        ensures
            r.wf(),
    {
        let m: HashMap<u128, u64> = HashMap::new();
        Damp { memo: m }
    }

    /// The damping factor for elapsed time `t` of a total decay duration
    /// `dur` (both in samples), memoized.
    pub fn end_damp(&mut self, t: u64, dur: u64) -> (r: u64)
        requires
            old(self).wf(),
        ensures
            final(self).wf(),
            r as int == spec_damp(t, dur),
            r <= 1000,
    {
        let key: u128 = (t as u128) * 0x10000000000000000 + (dur as u128);
        proof {
            lemma_fundamental_div_mod_converse(
                key as int,
                0x10000000000000000,
                t as int,
                dur as int,
            );
            lemma_damp_range(t, dur);
        }
        match self.memo.get(&key) {
            Some(d) => *d,
            None => {
                let d: u64 = if t >= dur {
                    0u64
                } else {
                    proof {
                        lemma_div_is_ordered((dur - t) as int * 1000, dur * 1000, dur as int);
                        lemma_div_multiples_vanish(1000, dur as int);
                        assert(dur * 1000 == (dur as int) * 1000);
                    }
                    (((dur - t) as u128) * 1000 / (dur as u128)) as u64
                };
                self.memo.insert(key, d);
                d
            },
        }
    }
}

/// The parsing mode of an instrument definition file: the steady-state
/// spectral section, or the end (decay) parameter section.
#[derive(Clone, Copy, PartialEq, Eq, Structural, Debug)]
pub enum Mode {
    Steady,
    End,
}

/// Reads one steady-state line's tokens as a spectral component:
/// `volume smear_kind center [sigma]`, with `sigma` required by and only
/// by `Gaussian`, positive center and spread, and the component volume
/// and the frequencies on the milli-unit grid.
pub open spec fn spec_steady_sound(toks: Seq<Seq<char>>) -> Option<Sound> {
    if toks.len() < 3 {
        None
    } else {
        match (crate::text::spec_parse_milli(toks[0]), crate::text::spec_parse_milli(toks[2])) {
            (Some(v), Some(f)) => {
                if f < 1 {
                    None
                } else if toks[1] == "Delta"@ {
                    Some(Sound { freq: Smear::Delta(f as u64), vol: v as u64 })
                } else if toks[1] == "Gaussian"@ {
                    if toks.len() < 4 {
                        None
                    } else {
                        match crate::text::spec_parse_milli(toks[3]) {
                            Some(sg) => {
                                if sg < 1 {
                                    None
                                } else {
                                    Some(
                                        Sound {
                                            freq: Smear::Gaussian(f as u64, sg as u64),
                                            vol: v as u64,
                                        },
                                    )
                                }
                            },
                            None => None,
                        }
                    }
                } else {
                    None
                }
            },
            _ => None,
        }
    }
}

/// One pass over the definition's lines, from line `i` on, carrying the
/// active mode, the components read so far, and the reverb time read so
/// far: the heart of instrument construction. Empty lines are skipped; a
/// `#` line switches the mode or fails; a data line is read under the
/// active mode or fails.
pub open spec fn inst_run(
    lines: Seq<Seq<char>>,
    i: int,
    mode: Option<Mode>,
    comps: Seq<Sound>,
    reverb: u64,
) -> Result<(Seq<Sound>, u64), (ErrKind, int)>
    decreases lines.len() - i,
{
    if i < 0 || i >= lines.len() {
        Ok((comps, reverb))
    } else {
        let line = lines[i];
        if line.len() == 0 {
            inst_run(lines, i + 1, mode, comps, reverb)
        } else if line[0] == '#' {
            let rest = line.subrange(1, line.len() as int);
            if rest == "steady"@ {
                inst_run(lines, i + 1, Some(Mode::Steady), comps, reverb)
            } else if rest == "end"@ {
                inst_run(lines, i + 1, Some(Mode::End), comps, reverb)
            } else {
                Err((ErrKind::InvalidMode, i))
            }
        } else {
            match mode {
                None => Err((ErrKind::NoModeDeclared, i)),
                Some(Mode::Steady) => {
                    match spec_steady_sound(crate::text::spec_tokens(line)) {
                        Some(snd) => inst_run(lines, i + 1, mode, comps.push(snd), reverb),
                        None => Err((ErrKind::InvalidSound, i)),
                    }
                },
                Some(Mode::End) => {
                    let toks = crate::text::spec_tokens(line);
                    if toks.len() == 0 {
                        inst_run(lines, i + 1, mode, comps, reverb)
                    } else if toks[0] == "reverb-time"@ {
                        if toks.len() < 2 {
                            Err((ErrKind::InvalidValue, i))
                        } else {
                            match crate::text::spec_parse_milli(toks[1]) {
                                Some(v) => inst_run(lines, i + 1, mode, comps, v as u64),
                                None => Err((ErrKind::InvalidValue, i)),
                            }
                        }
                    } else {
                        Err((ErrKind::InvalidKey, i))
                    }
                },
            }
        }
    }
}

/// What building an instrument from `text` with volume `vol` yields:
/// the parse of every line, then the completeness check — at least one
/// component, a positive reverb time, an in-range volume.
pub open spec fn spec_instrument(text: Seq<char>, vol: u64) -> Result<
    (Seq<Sound>, u64),
    (ErrKind, int),
> {
    match inst_run(crate::text::spec_lines(text), 0, None, Seq::empty(), 0) {
        Ok(cr) => {
            if cr.0.len() >= 1 && cr.1 >= 1 && vol <= 1000 {
                Ok(cr)
            } else {
                Err((ErrKind::ModeNotHit, 0))
            }
        },
        Err(e) => Err(e),
    }
}

/// Relates an instrument construction result to its parse model: on
/// success the instrument holds exactly the parsed components, reverb
/// time and requested volume, well-formed; on failure the error is the
/// parse model's, bound to `name`.
pub open spec fn instrument_result_ok(
    r: Result<Instrument, ParseError>,
    sr: Result<(Seq<Sound>, u64), (ErrKind, int)>,
    name: Seq<char>,
    vol: u64,
) -> bool {
    match (r, sr) {
        (Ok(inst), Ok(cr)) => inst.steady_mult@ == cr.0 && inst.reverb == cr.1 && inst.vol == vol
            && inst.wf(),
        (Err(e), Err(se)) => err_is(e, se.0, name, se.1),
        _ => false,
    }
}

fn steady_sound(toks: &Vec<Vec<char>>) -> (r: Option<Sound>)
    ensures
        match r {
            Some(snd) => spec_steady_sound(crate::text::views_of(toks@)) == Some(snd) && sound_wf(
                snd,
            ),
            None => spec_steady_sound(crate::text::views_of(toks@)) is None,
        },
{
    let ghost tv = crate::text::views_of(toks@);
    if toks.len() < 3 {
        return None;
    }
    let vol: u64 = match crate::text::parse_milli(&toks[0]) {
        Some(v) => v,
        None => {
            return None;
        },
    };
    let freq: u64 = match crate::text::parse_milli(&toks[2]) {
        Some(f) => f,
        None => {
            return None;
        },
    };
    if freq == 0 {
        return None;
    }
    if crate::text::chars_eq_str(&toks[1], "Delta") {
        Some(Sound { freq: Smear::Delta(freq), vol })
    } else if crate::text::chars_eq_str(&toks[1], "Gaussian") {
        if toks.len() < 4 {
            return None;
        }
        match crate::text::parse_milli(&toks[3]) {
            Some(sg) => {
                if sg == 0 {
                    None
                } else {
                    Some(Sound { freq: Smear::Gaussian(freq, sg), vol })
                }
            },
            None => None,
        }
    } else {
        None
    }
}

/// Make an instrument from the text of a definition file. `name` is the
/// instrument's name, carried into every error; `vol` its volume in
/// milli-units. Fails exactly as the parse model `spec_instrument` says:
/// an unrecognized `#` mode, a data line before any mode, a malformed
/// spectral line (including a missing, malformed or nonpositive number),
/// an unrecognized decay key, a missing or malformed decay value, or an
/// incomplete definition.
pub fn create_instrument(text: &str, name: &str, vol: u64) -> (r: Result<Instrument, ParseError>)
    ensures
        instrument_result_ok(r, spec_instrument(text@, vol), name@, vol),
{
    let lines = crate::text::split_lines(text);
    let ghost ls = crate::text::spec_lines(text@);
    let mut mode: Option<Mode> = None;
    let mut comps: Vec<Sound> = Vec::new();
    let mut reverb: u64 = 0;
    let mut num: usize = 0;
    let n = lines.len();
    while num < n
        invariant
            0 <= num <= n,
            n == lines@.len(),
            crate::text::views_of(lines@) == ls,
            ls == crate::text::spec_lines(text@),
            vol == vol,
            inst_run(ls, num as int, mode, comps@, reverb) == inst_run(
                ls,
                0,
                None,
                Seq::empty(),
                0,
            ),
            forall|j: int| 0 <= j < comps@.len() ==> sound_wf(#[trigger] comps@[j]),
            reverb < 1000000000,
        decreases n - num,
    {
        let line = &lines[num];
        proof {
            assert(ls[num as int] == line@);
        }
        if line.len() == 0 {
            num = num + 1;
        } else if line[0] == '#' {
            if crate::text::chars_suffix_eq_str(line, 1, "steady") {
                mode = Some(Mode::Steady);
                num = num + 1;
            } else if crate::text::chars_suffix_eq_str(line, 1, "end") {
                mode = Some(Mode::End);
                num = num + 1;
            } else {
                return Err(ParseError::InvalidMode(name.to_string(), num));
            }
        } else {
            match mode {
                None => {
                    return Err(ParseError::NoModeDeclared(name.to_string(), num));
                },
                Some(Mode::Steady) => {
                    let toks = crate::text::tokenize(line);
                    match steady_sound(&toks) {
                        Some(snd) => {
                            comps.push(snd);
                            num = num + 1;
                        },
                        None => {
                            return Err(ParseError::InvalidSound(name.to_string(), num));
                        },
                    }
                },
                Some(Mode::End) => {
                    let toks = crate::text::tokenize(line);
                    if toks.len() == 0 {
                        num = num + 1;
                    } else if crate::text::chars_eq_str(&toks[0], "reverb-time") {
                        if toks.len() < 2 {
                            return Err(ParseError::InvalidValue(name.to_string(), num));
                        }
                        match crate::text::parse_milli(&toks[1]) {
                            Some(v) => {
                                reverb = v;
                                num = num + 1;
                            },
                            None => {
                                return Err(ParseError::InvalidValue(name.to_string(), num));
                            },
                        }
                    } else {
                        return Err(ParseError::InvalidKey(name.to_string(), num));
                    }
                },
            }
        }
    }
    if comps.len() == 0 || reverb == 0 || vol > 1000 {
        return Err(ParseError::ModeNotHit(name.to_string()));
    }
    Ok(Instrument { steady_mult: comps, reverb, vol })
}

impl Instrument {
    /// Make an instrument named `name` with volume `vol` (milli-units).
    /// A built-in preset is used when the name matches one; otherwise the
    /// definition text must be supplied by the caller (read from the
    /// file the name designates), and a missing text fails.
    pub fn new(name: &str, vol: u64, file_text: Option<&str>) -> (r: Result<
        Instrument,
        ParseError,
    >)
        ensures
            name@ == "sine"@ ==> instrument_result_ok(
                r,
                spec_instrument(spec_sine_text(), vol),
                name@,
                vol,
            ),
            name@ != "sine"@ ==> match file_text {
                Some(t) => instrument_result_ok(r, spec_instrument(t@, vol), name@, vol),
                None => match r {
                    Err(e) => err_is(e, ErrKind::Unknown, name@, 0),
                    Ok(_) => false,
                },
            },
    {
        match get_prefab_text(name) {
            Some(t) => create_instrument(t, name, vol),
            None => match file_text {
                Some(t) => create_instrument(t, name, vol),
                None => Err(ParseError::Unknown(name.to_string(), 0)),
            },
        }
    }
}

/// The built-in instrument definitions: a pure sine timbre.
pub open spec fn spec_sine_text() -> Seq<char> {
    "#steady\n1 Delta 1\n#end\nreverb-time 1\n"@
}

/// The definition text of a built-in (prefab) instrument, or `None` when
/// the name is not built in and the definition must come from a file.
pub fn get_prefab_text(name: &str) -> (r: Option<&'static str>)
    ensures
        match r {
            Some(t) => name@ == "sine"@ && t@ == spec_sine_text(),
            None => name@ != "sine"@,
        },
{
    if crate::text::str_eq(name, "sine") {
        Some("#steady\n1 Delta 1\n#end\nreverb-time 1\n")
    } else {
        None
    }
}

} // verus!
