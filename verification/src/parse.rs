//! The piece description parser: the header (instrument palette, tempo,
//! music bounds) and the music section that schedules every note into a
//! Breakdown. The description is line-oriented: `#`-lines open sections,
//! data lines belong to the open section.
use crate::errors::{err_is, ErrKind, ParseError};
use crate::generator::{spec_add_note, spec_frequency, BdModel, Breakdown, NoteError};
use crate::instrument::{
    create_instrument, get_prefab_text, spec_generate_comps, spec_instrument, spec_sine_text,
    Instrument, Sound,
};
use crate::text::{
    chars_eq_str, chars_suffix_eq_str, chars_to_string, parse_int, parse_milli, spec_lines,
    spec_parse_int, spec_parse_milli, spec_tokens, split_lines, tokenize, views_of,
};
use vstd::prelude::*;

verus! {

/// Which part of a piece description a line belongs to: the instrument
/// palette, the signature (tempo and the like), or the music itself.
#[derive(Clone, Copy, PartialEq, Eq, Structural, Debug)]
pub enum Mode {
    Instruments,
    Signature,
    Music,
}

/// The ghost record of one instrument of the palette.
#[verifier::ext_equal]
pub struct InstM {
    pub comps: Seq<Sound>,
    pub reverb: u64,
    pub vol: u64,
}

/// The ghost record of a parsed piece header.
#[verifier::ext_equal]
pub struct HeaderM {
    pub instruments: Seq<InstM>,
    pub tempo: int,
    pub begin_music: int,
    pub end_music: int,
}

/// Stores all the information needed to know about a piece of music:
/// the instrument palette, the tempo, and the line bounds of the music
/// section.
#[derive(Debug)]
pub struct Header {
    pub instruments: Vec<Instrument>,
    pub tempo: u32,
    pub begin_music: usize,
    pub end_music: usize,
}

/// Every instrument of the palette satisfies its construction
/// invariant.
pub open spec fn header_wf(h: Header) -> bool {
    forall|i: int|
        0 <= i < h.instruments@.len() ==> (#[trigger] h.instruments@[i]).wf()
}

pub open spec fn header_m(h: Header) -> HeaderM {
    HeaderM {
        instruments: h.instruments@.map_values(
            |inst: Instrument| InstM { comps: inst.steady_mult@, reverb: inst.reverb, vol: inst.vol },
        ),
        tempo: h.tempo as int,
        begin_music: h.begin_music as int,
        end_music: h.end_music as int,
    }
}

/// The definition text of the named instrument in the supplied
/// name-to-text table: the first entry with a matching name.
pub open spec fn spec_lookup(iname: Seq<char>, texts: Seq<(Seq<char>, Seq<char>)>) -> Option<
    Seq<char>,
>
    decreases texts.len(),
{
    if texts.len() == 0 {
        None
    } else if texts[0].0 == iname {
        Some(texts[0].1)
    } else {
        spec_lookup(iname, texts.drop_first())
    }
}

/// The definition text of the named instrument: a built-in preset
/// first, else the supplied table.
pub open spec fn spec_resolve(iname: Seq<char>, texts: Seq<(Seq<char>, Seq<char>)>) -> Option<
    Seq<char>,
> {
    if iname == "sine"@ {
        Some(spec_sine_text())
    } else {
        spec_lookup(iname, texts)
    }
}

pub open spec fn texts_view(texts: Seq<(String, String)>) -> Seq<(Seq<char>, Seq<char>)> {
    texts.map_values(|p: (String, String)| (p.0@, p.1@))
}

/// A parse failure of the header: the variant, the line, and the name
/// it is bound to (the piece's, or a faulty instrument's).
pub type HeaderErr = (ErrKind, int, Seq<char>);

/// One pass over the description's lines from line `i` on, building
/// the header: `#`-lines open sections (an unknown section is ignored
/// but closes the current one; the music section records its bounds),
/// instrument lines build the palette, signature lines set the tempo.
pub open spec fn header_run(
    lines: Seq<Seq<char>>,
    i: int,
    mode: Option<Mode>,
    st: HeaderM,
    texts: Seq<(Seq<char>, Seq<char>)>,
    pname: Seq<char>,
) -> Result<HeaderM, HeaderErr>
    decreases lines.len() - i,
{
    if i < 0 || i >= lines.len() {
        Ok(st)
    } else {
        let line = lines[i];
        if line.len() == 0 {
            header_run(lines, i + 1, mode, st, texts, pname)
        } else if line[0] == '#' {
            let st1 = if mode == Some(Mode::Music) {
                HeaderM { end_music: i, ..st }
            } else {
                st
            };
            let rest = line.subrange(1, line.len() as int);
            if rest == "instruments"@ {
                header_run(lines, i + 1, Some(Mode::Instruments), st1, texts, pname)
            } else if rest == "signature"@ {
                header_run(lines, i + 1, Some(Mode::Signature), st1, texts, pname)
            } else if rest == "music"@ {
                header_run(
                    lines,
                    i + 1,
                    Some(Mode::Music),
                    HeaderM { begin_music: i + 1, ..st1 },
                    texts,
                    pname,
                )
            } else {
                header_run(lines, i + 1, None, st1, texts, pname)
            }
        } else {
            match mode {
                None => header_run(lines, i + 1, mode, st, texts, pname),
                Some(Mode::Instruments) => {
                    let toks = spec_tokens(line);
                    if toks.len() < 2 {
                        Err((ErrKind::Unknown, i, pname))
                    } else {
                        match spec_parse_milli(toks[1]) {
                            None => Err((ErrKind::InvalidValue, i, pname)),
                            Some(v) => match spec_resolve(toks[0], texts) {
                                None => Err((ErrKind::Unknown, i, toks[0])),
                                Some(t) => match spec_instrument(t, v as u64) {
                                    Ok(cr) => header_run(
                                        lines,
                                        i + 1,
                                        mode,
                                        HeaderM {
                                            instruments: st.instruments.push(
                                                InstM { comps: cr.0, reverb: cr.1, vol: v as u64 },
                                            ),
                                            ..st
                                        },
                                        texts,
                                        pname,
                                    ),
                                    Err(ie) => Err((ie.0, ie.1, toks[0])),
                                },
                            },
                        }
                    }
                },
                Some(Mode::Signature) => {
                    let toks = spec_tokens(line);
                    if toks.len() == 0 {
                        header_run(lines, i + 1, mode, st, texts, pname)
                    } else if toks[0] == "tempo"@ {
                        if toks.len() < 2 {
                            Err((ErrKind::KeyWithoutValue, i, pname))
                        } else {
                            match spec_parse_int(toks[1]) {
                                Some(v) => header_run(
                                    lines,
                                    i + 1,
                                    mode,
                                    HeaderM { tempo: v, ..st },
                                    texts,
                                    pname,
                                ),
                                None => Err((ErrKind::InvalidValue, i, pname)),
                            }
                        }
                    } else {
                        Err((ErrKind::InvalidKey, i, pname))
                    }
                },
                Some(Mode::Music) => header_run(lines, i + 1, mode, st, texts, pname),
            }
        }
    }
}

/// What parsing the header of `text` yields: the line pass, a music
/// section left open running to the end of the text, and the
/// completeness check — at least one instrument, a tempo, and music
/// bounds.
pub open spec fn spec_header(
    text: Seq<char>,
    pname: Seq<char>,
    texts: Seq<(Seq<char>, Seq<char>)>,
) -> Result<HeaderM, HeaderErr> {
    let empty = HeaderM { instruments: Seq::empty(), tempo: 0, begin_music: 0, end_music: 0 };
    match header_run(spec_lines(text), 0, None, empty, texts, pname) {
        Ok(st) => {
            let st1 = if st.end_music == 0 {
                HeaderM { end_music: spec_lines(text).len() as int, ..st }
            } else {
                st
            };
            if st1.instruments.len() >= 1 && st1.tempo != 0 && st1.begin_music != 0
                && st1.end_music != 0 {
                Ok(st1)
            } else {
                Err((ErrKind::IncompleteHeader, 0, pname))
            }
        },
        Err(e) => Err(e),
    }
}

fn lookup_text<'a>(iname: &Vec<char>, texts: &'a Vec<(String, String)>) -> (r: Option<
    &'a String,
>)
    ensures
        match r {
            Some(t) => spec_lookup(iname@, texts_view(texts@)) == Some(t@),
            None => spec_lookup(iname@, texts_view(texts@)) is None,
        },
{
    let ghost tv = texts_view(texts@);
    let n = texts.len();
    proof {
        assert(tv.subrange(0, n as int) =~= tv);
    }
    let mut j: usize = 0;
    while j < n
        invariant
            0 <= j <= n,
            n == texts@.len(),
            tv == texts_view(texts@),
            tv.len() == n,
            spec_lookup(iname@, tv.subrange(j as int, n as int)) == spec_lookup(iname@, tv),
        decreases n - j,
    {
        let ghost sub = tv.subrange(j as int, n as int);
        proof {
            assert(sub[0] == tv[j as int]);
            assert(sub.drop_first() =~= tv.subrange(j as int + 1, n as int));
        }
        if chars_eq_str(iname, texts[j].0.as_str()) {
            return Some(&texts[j].1);
        }
        j = j + 1;
    }
    proof {
        assert(tv.subrange(n as int, n as int).len() == 0);
    }
    None
}

/// Makes and returns a header object for the text of a piece
/// description. `name` is the piece's name, bound into header-level
/// errors; `texts` supplies the definition text of every file-backed
/// instrument the description names (built-in presets need no entry).
/// Fails exactly as the parse model `spec_header` says.
pub fn get_header(content: &str, name: &str, texts: &Vec<(String, String)>) -> (r: Result<
    Header,
    ParseError,
>)
    ensures
        match r {
            Ok(h) => {
                &&& spec_header(content@, name@, texts_view(texts@)) == Ok::<HeaderM, HeaderErr>(
                    header_m(h),
                )
                &&& header_wf(h)
            },
            Err(e) => {
                &&& spec_header(content@, name@, texts_view(texts@)) is Err
                &&& {
                    let he = spec_header(content@, name@, texts_view(texts@))->Err_0;
                    err_is(e, he.0, he.2, he.1)
                }
            },
        },
{
    let lines = split_lines(content);
    let ghost ls = spec_lines(content@);
    let ghost tv = texts_view(texts@);
    let ghost empty_m = HeaderM {
        instruments: Seq::empty(),
        tempo: 0,
        begin_music: 0,
        end_music: 0,
    };
    let mut mode: Option<Mode> = None;
    let mut instruments: Vec<Instrument> = Vec::new();
    let mut tempo: u32 = 0;
    let mut begin_music: usize = 0;
    let mut end_music: usize = 0;
    let mut num: usize = 0;
    let n = lines.len();
    proof {
        assert(instruments@.map_values(
            |inst: Instrument| InstM { comps: inst.steady_mult@, reverb: inst.reverb, vol: inst.vol },
        ) =~= Seq::<InstM>::empty());
    }
    while num < n
        invariant
            0 <= num <= n,
            n == lines@.len(),
            views_of(lines@) == ls,
            ls == spec_lines(content@),
            tv == texts_view(texts@),
            empty_m == (HeaderM {
                instruments: Seq::<InstM>::empty(),
                tempo: 0,
                begin_music: 0,
                end_music: 0,
            }),
            header_run(
                ls,
                num as int,
                mode,
                HeaderM {
                    instruments: instruments@.map_values(
                        |inst: Instrument| InstM {
                            comps: inst.steady_mult@,
                            reverb: inst.reverb,
                            vol: inst.vol,
                        },
                    ),
                    tempo: tempo as int,
                    begin_music: begin_music as int,
                    end_music: end_music as int,
                },
                tv,
                name@,
            ) == header_run(ls, 0, None, empty_m, tv, name@),
            forall|i: int|
                0 <= i < instruments@.len() ==> (#[trigger] instruments@[i]).wf(),
        decreases n - num,
    {
        let ghost st_pre = HeaderM {
            instruments: instruments@.map_values(
                |inst: Instrument| InstM {
                    comps: inst.steady_mult@,
                    reverb: inst.reverb,
                    vol: inst.vol,
                },
            ),
            tempo: tempo as int,
            begin_music: begin_music as int,
            end_music: end_music as int,
        };
        let line = &lines[num];
        proof {
            assert(ls[num as int] == line@);
        }
        if line.len() == 0 {
            num = num + 1;
        } else if line[0] == '#' {
            if let Some(Mode::Music) = mode {
                end_music = num;
            }
            if chars_suffix_eq_str(line, 1, "instruments") {
                mode = Some(Mode::Instruments);
            } else if chars_suffix_eq_str(line, 1, "signature") {
                mode = Some(Mode::Signature);
            } else if chars_suffix_eq_str(line, 1, "music") {
                begin_music = num + 1;
                mode = Some(Mode::Music);
            } else {
                mode = None;
            }
            num = num + 1;
        } else {
            match mode {
                None => {
                    num = num + 1;
                },
                Some(Mode::Instruments) => {
                    let toks = tokenize(line);
                    if toks.len() < 2 {
                        return Err(ParseError::Unknown(name.to_string(), num));
                    }
                    let vol: u64 = match parse_milli(&toks[1]) {
                        Some(v) => v,
                        None => {
                            return Err(ParseError::InvalidValue(name.to_string(), num));
                        },
                    };
                    let iname_string = chars_to_string(&toks[0]);
                    let text_str: &str = match get_prefab_text(iname_string.as_str()) {
                        Some(t) => t,
                        None => match lookup_text(&toks[0], texts) {
                            Some(t) => t.as_str(),
                            None => {
                                return Err(ParseError::Unknown(iname_string, num));
                            },
                        },
                    };
                    proof {
                        assert(spec_resolve(views_of(toks@)[0], tv) == Some(text_str@));
                    }
                    match create_instrument(text_str, iname_string.as_str(), vol) {
                        Ok(inst) => {
                            instruments.push(inst);
                            proof {
                                let f = |inst: Instrument| InstM {
                                    comps: inst.steady_mult@,
                                    reverb: inst.reverb,
                                    vol: inst.vol,
                                };
                                assert(instruments@.map_values(f) =~= st_pre.instruments.push(
                                    f(inst),
                                ));
                            }
                            num = num + 1;
                        },
                        Err(e) => {
                            return Err(e);
                        },
                    }
                },
                Some(Mode::Signature) => {
                    let toks = tokenize(line);
                    if toks.len() == 0 {
                        num = num + 1;
                    } else if chars_eq_str(&toks[0], "tempo") {
                        if toks.len() < 2 {
                            return Err(ParseError::KeyWithoutValue(name.to_string(), num));
                        }
                        match parse_int(&toks[1]) {
                            Some(v) => {
                                tempo = v as u32;
                                num = num + 1;
                            },
                            None => {
                                return Err(ParseError::InvalidValue(name.to_string(), num));
                            },
                        }
                    } else {
                        return Err(ParseError::InvalidKey(name.to_string(), num));
                    }
                },
                Some(Mode::Music) => {
                    num = num + 1;
                },
            }
        }
    }
    if end_music == 0 {
        end_music = n;
    }
    if instruments.len() == 0 || tempo == 0 || begin_music == 0 || end_music == 0 {
        return Err(ParseError::IncompleteHeader(name.to_string()));
    }
    Ok(Header { instruments, tempo, begin_music, end_music })
}

/// One pass over the music lines from line `i` on: each data line is
/// `instrument pitch start length volume`, with starts non-decreasing,
/// the volume within full scale, and the instrument an index into the
/// palette; each note is scheduled into the Breakdown, which advances
/// and emits chunks as it goes.
pub open spec fn bd_run(
    lines: Seq<Seq<char>>,
    i: int,
    bd: BdModel,
    h: HeaderM,
    last_time: int,
) -> Result<BdModel, (ErrKind, int)>
    decreases lines.len() - i, 1int,
{
    if i < 0 || i >= lines.len() {
        Ok(bd)
    } else {
        let toks = spec_tokens(lines[i]);
        if toks.len() == 0 {
            bd_run(lines, i + 1, bd, h, last_time)
        } else {
            match spec_parse_int(toks[0]) {
                None => Err((ErrKind::InvalidValue, i)),
                Some(inst_num) => {
                    if toks.len() < 2 {
                        Err((ErrKind::InvalidValue, i))
                    } else {
                        match spec_parse_int(toks[1]) {
                            None => Err((ErrKind::InvalidValue, i)),
                            Some(note) => {
                                if toks.len() < 3 {
                                    Err((ErrKind::InvalidValue, i))
                                } else {
                                    match spec_parse_int(toks[2]) {
                                        None => Err((ErrKind::InvalidValue, i)),
                                        Some(time) => {
                                            if time < last_time {
                                                Err((ErrKind::InvalidNoteOrder, i))
                                            } else if toks.len() < 4 {
                                                Err((ErrKind::InvalidValue, i))
                                            } else {
                                                match spec_parse_int(toks[3]) {
                                                    None => Err((ErrKind::InvalidValue, i)),
                                                    Some(note_length) => {
                                                        if toks.len() < 5 {
                                                            Err((ErrKind::InvalidValue, i))
                                                        } else {
                                                            match spec_parse_milli(toks[4]) {
                                                                None => Err(
                                                                    (ErrKind::InvalidValue, i),
                                                                ),
                                                                Some(vol) => bd_note(
                                                                    lines,
                                                                    i,
                                                                    bd,
                                                                    h,
                                                                    inst_num,
                                                                    note,
                                                                    time,
                                                                    note_length,
                                                                    vol,
                                                                ),
                                                            }
                                                        }
                                                    },
                                                }
                                            }
                                        },
                                    }
                                }
                            },
                        }
                    }
                },
            }
        }
    }
}

/// The scheduling of one parsed music line: the volume and instrument
/// checks, the scheduler's own refusals, and the note's insertion.
pub open spec fn bd_note(
    lines: Seq<Seq<char>>,
    i: int,
    bd: BdModel,
    h: HeaderM,
    inst_num: int,
    note: int,
    time: int,
    note_length: int,
    vol: int,
) -> Result<BdModel, (ErrKind, int)>
    decreases lines.len() - i, 0int,
{
    if i < 0 || i >= lines.len() {
        Ok(bd)
    } else if vol > 1000 {
        Err((ErrKind::InvalidValue, i))
    } else if inst_num >= h.instruments.len() {
        Err((ErrKind::InvalidValue, i))
    } else if note_length == 0 {
        Err((ErrKind::InvalidValue, i))
    } else if time < bd.low_time {
        Err((ErrKind::InvalidNoteOrder, i))
    } else if note > 127 {
        Err((ErrKind::InvalidValue, i))
    } else {
        let im = h.instruments[inst_num];
        let sounds = spec_generate_comps(
            im.comps,
            im.vol,
            spec_frequency(note) as u64,
            vol as u64,
        );
        bd_run(
            lines,
            i + 1,
            spec_add_note(bd, sounds, time - bd.low_time, 8int / note_length),
            h,
            time,
        )
    }
}

/// The scheduler a fresh render starts from.
pub open spec fn spec_bd_init(tempo: int) -> BdModel {
    BdModel {
        low_time: 0,
        active: 0,
        tempo: tempo,
        buckets: Seq::new(8, |b: int| Seq::empty()),
        arena: Seq::empty(),
        out: Seq::empty(),
    }
}

/// Schedules every note of the piece's music section into a fresh
/// Breakdown, in order, flushing finished time buckets into chunks as
/// it goes. Fails exactly as the parse model `bd_run` says, each error
/// bound to the piece's `name`.
pub fn breakdown(header: &Header, content: &str, name: &str) -> (r: Result<
    Breakdown,
    ParseError,
>)
    requires
        header_wf(*header),
    ensures
        match r {
            Ok(bd) => {
                &&& bd.wf()
                &&& bd_run(
                    spec_lines(content@),
                    header.begin_music as int,
                    spec_bd_init(header.tempo as int),
                    header_m(*header),
                    0,
                ) == Ok::<BdModel, (ErrKind, int)>(bd@)
            },
            Err(e) => {
                &&& bd_run(
                    spec_lines(content@),
                    header.begin_music as int,
                    spec_bd_init(header.tempo as int),
                    header_m(*header),
                    0,
                ) is Err
                &&& {
                    let be = bd_run(
                        spec_lines(content@),
                        header.begin_music as int,
                        spec_bd_init(header.tempo as int),
                        header_m(*header),
                        0,
                    )->Err_0;
                    err_is(e, be.0, name@, be.1)
                }
            },
        },
{
    let lines = split_lines(content);
    let ghost ls = spec_lines(content@);
    let ghost hm = header_m(*header);
    let mut bd = Breakdown::new(header.tempo);
    proof {
        assert(bd@ =~~= spec_bd_init(header.tempo as int));
    }
    let mut last_time: u32 = 0;
    let mut num: usize = header.begin_music;
    let n = lines.len();
    while num < n
        invariant
            num <= n || num == header.begin_music,
            n == lines@.len(),
            views_of(lines@) == ls,
            ls == spec_lines(content@),
            hm == header_m(*header),
            header_wf(*header),
            bd.wf(),
            bd_run(ls, num as int, bd@, hm, last_time as int) == bd_run(
                ls,
                header.begin_music as int,
                spec_bd_init(header.tempo as int),
                hm,
                0,
            ),
        decreases n - num,
    {
        let line = &lines[num];
        proof {
            assert(ls[num as int] == line@);
        }
        let toks = tokenize(line);
        if toks.len() == 0 {
            num = num + 1;
        } else {
            let inst_num: u64 = match parse_int(&toks[0]) {
                Some(v) => v,
                None => {
                    return Err(ParseError::InvalidValue(name.to_string(), num));
                },
            };
            if toks.len() < 2 {
                return Err(ParseError::InvalidValue(name.to_string(), num));
            }
            let note: u64 = match parse_int(&toks[1]) {
                Some(v) => v,
                None => {
                    return Err(ParseError::InvalidValue(name.to_string(), num));
                },
            };
            if toks.len() < 3 {
                return Err(ParseError::InvalidValue(name.to_string(), num));
            }
            let time: u64 = match parse_int(&toks[2]) {
                Some(v) => v,
                None => {
                    return Err(ParseError::InvalidValue(name.to_string(), num));
                },
            };
            if time < last_time as u64 {
                return Err(ParseError::InvalidNoteOrder(name.to_string(), num));
            }
            if toks.len() < 4 {
                return Err(ParseError::InvalidValue(name.to_string(), num));
            }
            let note_length: u64 = match parse_int(&toks[3]) {
                Some(v) => v,
                None => {
                    return Err(ParseError::InvalidValue(name.to_string(), num));
                },
            };
            if toks.len() < 5 {
                return Err(ParseError::InvalidValue(name.to_string(), num));
            }
            let vol: u64 = match parse_milli(&toks[4]) {
                Some(v) => v,
                None => {
                    return Err(ParseError::InvalidValue(name.to_string(), num));
                },
            };
            proof {
                assert(spec_tokens(ls[num as int]).len() >= 5);
                assert(spec_parse_milli(spec_tokens(ls[num as int])[4]) == Some(vol as int));
                assert(bd_run(ls, num as int, bd@, hm, last_time as int) == bd_note(
                    ls,
                    num as int,
                    bd@,
                    hm,
                    inst_num as int,
                    note as int,
                    time as int,
                    note_length as int,
                    vol as int,
                ));
            }
            if vol > 1000 {
                return Err(ParseError::InvalidValue(name.to_string(), num));
            }
            if inst_num >= header.instruments.len() as u64 {
                return Err(ParseError::InvalidValue(name.to_string(), num));
            }
            let inst = &header.instruments[inst_num as usize];
            proof {
                assert(hm.instruments[inst_num as int] == InstM {
                    comps: inst.steady_mult@,
                    reverb: inst.reverb,
                    vol: inst.vol,
                });
                assert(inst.wf());
            }
            match bd.add_note(inst, note as u32, time as u32, note_length as u32, vol) {
                Ok(()) => {
                    last_time = time as u32;
                    num = num + 1;
                },
                Err(NoteError::ZeroLength) => {
                    return Err(ParseError::InvalidValue(name.to_string(), num));
                },
                Err(NoteError::OutOfOrder) => {
                    return Err(ParseError::InvalidNoteOrder(name.to_string(), num));
                },
                Err(NoteError::PitchOutOfRange) => {
                    return Err(ParseError::InvalidValue(name.to_string(), num));
                },
            }
        }
    }
    Ok(bd)
}

} // verus!
