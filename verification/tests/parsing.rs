use throrgan::errors::ParseError;
use throrgan::instrument::{create_instrument, get_prefab_text, Instrument, Smear};
use throrgan::parse::{breakdown, get_header};

const SINE: &str = "#steady\n1 Delta 1\n#end\nreverb-time 1\n";

#[test]
fn prefab_sine_exists() {
    assert_eq!(get_prefab_text("sine"), Some(SINE));
    assert_eq!(get_prefab_text("organ"), None);
}

#[test]
fn sine_instrument_builds() {
    let inst = create_instrument(SINE, "sine", 1000).unwrap();
    assert_eq!(inst.steady_mult.len(), 1);
    assert_eq!(inst.steady_mult[0].freq, Smear::Delta(1000));
    assert_eq!(inst.steady_mult[0].vol, 1000);
    assert_eq!(inst.reverb, 1000);
    assert_eq!(inst.vol, 1000);
}

#[test]
fn gaussian_component_builds() {
    let text = "#steady\n0.5 Gaussian 2 0.1\n#end\nreverb-time 2.5\n";
    let inst = create_instrument(text, "pad", 800).unwrap();
    assert_eq!(inst.steady_mult.len(), 1);
    assert_eq!(inst.steady_mult[0].freq, Smear::Gaussian(2000, 100));
    assert_eq!(inst.steady_mult[0].vol, 500);
    assert_eq!(inst.reverb, 2500);
}

#[test]
fn bogus_mode_fails_with_line() {
    let r = create_instrument("#bogus\n1 Delta 1\n", "foo", 1000);
    match r {
        Err(ParseError::InvalidMode(name, num)) => {
            assert_eq!(name, "foo");
            assert_eq!(num, 0);
        }
        other => panic!("expected an invalid mode error, got {:?}", other),
    }
}

#[test]
fn data_before_mode_fails() {
    let r = create_instrument("1 Delta 1\n", "foo", 1000);
    assert!(matches!(r, Err(ParseError::NoModeDeclared(_, 0))));
}

#[test]
fn malformed_sound_lines_fail() {
    let r = create_instrument("#steady\n1 Delta\n", "foo", 1000);
    assert!(matches!(r, Err(ParseError::InvalidSound(_, 1))));
    let r = create_instrument("#steady\n1 Square 1\n", "foo", 1000);
    assert!(matches!(r, Err(ParseError::InvalidSound(_, 1))));
    let r = create_instrument("#steady\nloud Delta 1\n", "foo", 1000);
    assert!(matches!(r, Err(ParseError::InvalidSound(_, 1))));
    let r = create_instrument("#steady\n1 Gaussian 1\n", "foo", 1000);
    assert!(matches!(r, Err(ParseError::InvalidSound(_, 1))));
    // zero center and zero spread violate the spectral invariant
    let r = create_instrument("#steady\n1 Delta 0\n", "foo", 1000);
    assert!(matches!(r, Err(ParseError::InvalidSound(_, 1))));
    let r = create_instrument("#steady\n1 Gaussian 1 0\n", "foo", 1000);
    assert!(matches!(r, Err(ParseError::InvalidSound(_, 1))));
}

#[test]
fn decay_section_errors() {
    let r = create_instrument("#steady\n1 Delta 1\n#end\nreverb-time\n", "foo", 1000);
    assert!(matches!(r, Err(ParseError::InvalidValue(_, 3))));
    let r = create_instrument("#steady\n1 Delta 1\n#end\nreverb-time soon\n", "foo", 1000);
    assert!(matches!(r, Err(ParseError::InvalidValue(_, 3))));
    let r = create_instrument("#steady\n1 Delta 1\n#end\nechoes 1\n", "foo", 1000);
    assert!(matches!(r, Err(ParseError::InvalidKey(_, 3))));
}

#[test]
fn incomplete_instrument_fails() {
    // no reverb time
    let r = create_instrument("#steady\n1 Delta 1\n", "foo", 1000);
    assert!(matches!(r, Err(ParseError::ModeNotHit(_))));
    // no components
    let r = create_instrument("#end\nreverb-time 1\n", "foo", 1000);
    assert!(matches!(r, Err(ParseError::ModeNotHit(_))));
    // volume beyond full scale
    let r = create_instrument(SINE, "foo", 1500);
    assert!(matches!(r, Err(ParseError::ModeNotHit(_))));
}

#[test]
fn instrument_resolution_order() {
    let inst = Instrument::new("sine", 1000, None).unwrap();
    assert_eq!(inst.steady_mult.len(), 1);
    let r = Instrument::new("organ", 1000, None);
    assert!(matches!(r, Err(ParseError::Unknown(_, 0))));
    let text = "#steady\n1 Delta 1\n#end\nreverb-time 2\n";
    let inst = Instrument::new("organ", 900, Some(text)).unwrap();
    assert_eq!(inst.reverb, 2000);
    assert_eq!(inst.vol, 900);
}

#[test]
fn errors_describe_themselves() {
    let e = ParseError::InvalidMode(String::from("foo"), 0);
    assert_eq!(e.message(), "Instrument foo line 0: Invalid mode.");
    let e = ParseError::InvalidNoteOrder(String::from("piece"), 42);
    assert_eq!(e.message(), "Instrument piece line 42: Invalid note order.");
    let e = ParseError::ModeNotHit(String::from("foo"));
    assert_eq!(e.message(), "File foo: Not all modes were described.");
    let e = ParseError::Unknown(String::from("x"), 123);
    assert_eq!(e.message(), "Instrument x line 123: Unknown error.");
}

const PIECE: &str = "#instruments\nsine 1.0\n#signature\ntempo 120\n#music\n0 69 0 4 1.0\n";

#[test]
fn header_reads_a_full_piece() {
    let h = get_header(PIECE, "piece", &Vec::new()).unwrap();
    assert_eq!(h.instruments.len(), 1);
    assert_eq!(h.tempo, 120);
    assert_eq!(h.begin_music, 5);
    assert_eq!(h.end_music, 6);
}

#[test]
fn header_uses_supplied_instrument_texts() {
    let texts = vec![(
        String::from("organ"),
        String::from("#steady\n1 Delta 1\n0.5 Delta 2\n#end\nreverb-time 3\n"),
    )];
    let content = "#instruments\norgan 0.8\n#signature\ntempo 90\n#music\n0 60 0 4 1\n";
    let h = get_header(content, "piece", &texts).unwrap();
    assert_eq!(h.instruments.len(), 1);
    assert_eq!(h.instruments[0].steady_mult.len(), 2);
    assert_eq!(h.instruments[0].reverb, 3000);
    assert_eq!(h.instruments[0].vol, 800);
}

#[test]
fn header_unknown_instrument_fails() {
    let content = "#instruments\nnope 1.0\n#signature\ntempo 120\n#music\n";
    let r = get_header(content, "piece", &Vec::new());
    match r {
        Err(ParseError::Unknown(name, num)) => {
            assert_eq!(name, "nope");
            assert_eq!(num, 1);
        }
        other => panic!("expected an unknown-instrument error, got {:?}", other),
    }
}

#[test]
fn header_signature_errors() {
    let content = "#signature\nswing 1\n";
    let r = get_header(content, "piece", &Vec::new());
    assert!(matches!(r, Err(ParseError::InvalidKey(_, 1))));
    let content = "#signature\ntempo\n";
    let r = get_header(content, "piece", &Vec::new());
    assert!(matches!(r, Err(ParseError::KeyWithoutValue(_, 1))));
    let content = "#signature\ntempo allegro\n";
    let r = get_header(content, "piece", &Vec::new());
    assert!(matches!(r, Err(ParseError::InvalidValue(_, 1))));
}

#[test]
fn header_incomplete_fails() {
    let r = get_header("", "piece", &Vec::new());
    assert!(matches!(r, Err(ParseError::IncompleteHeader(_))));
    let r = get_header("#instruments\nsine 1.0\n#music\n", "piece", &Vec::new());
    assert!(matches!(r, Err(ParseError::IncompleteHeader(_))));
    let r = get_header("#signature\ntempo 120\n#music\n", "piece", &Vec::new());
    assert!(matches!(r, Err(ParseError::IncompleteHeader(_))));
}

#[test]
fn header_faulty_instrument_error_carries_its_name() {
    let texts = vec![(String::from("bad"), String::from("#bogus\n"))];
    let content = "#instruments\nbad 1.0\n#signature\ntempo 120\n#music\n";
    let r = get_header(content, "piece", &texts);
    match r {
        Err(ParseError::InvalidMode(name, num)) => {
            assert_eq!(name, "bad");
            assert_eq!(num, 0);
        }
        other => panic!("expected an invalid mode error, got {:?}", other),
    }
}

#[test]
fn music_notes_must_be_ordered() {
    let content =
        "#instruments\nsine 1.0\n#signature\ntempo 120\n#music\n0 69 3 4 1.0\n0 69 1 4 1.0\n";
    let h = get_header(content, "piece", &Vec::new()).unwrap();
    let r = breakdown(&h, content, "piece");
    assert!(matches!(r, Err(ParseError::InvalidNoteOrder(_, 6))));
}

#[test]
fn music_line_errors() {
    let base = "#instruments\nsine 1.0\n#signature\ntempo 120\n#music\n";
    // a volume above full scale
    let content = format!("{}0 69 0 4 1.5\n", base);
    let h = get_header(&content, "piece", &Vec::new()).unwrap();
    let r = breakdown(&h, &content, "piece");
    assert!(matches!(r, Err(ParseError::InvalidValue(_, 5))));
    // an instrument index outside the palette
    let content = format!("{}3 69 0 4 1.0\n", base);
    let h = get_header(&content, "piece", &Vec::new()).unwrap();
    let r = breakdown(&h, &content, "piece");
    assert!(matches!(r, Err(ParseError::InvalidValue(_, 5))));
    // a zero length unit
    let content = format!("{}0 69 0 0 1.0\n", base);
    let h = get_header(&content, "piece", &Vec::new()).unwrap();
    let r = breakdown(&h, &content, "piece");
    assert!(matches!(r, Err(ParseError::InvalidValue(_, 5))));
    // a missing field
    let content = format!("{}0 69 0\n", base);
    let h = get_header(&content, "piece", &Vec::new()).unwrap();
    let r = breakdown(&h, &content, "piece");
    assert!(matches!(r, Err(ParseError::InvalidValue(_, 5))));
}

#[test]
fn breakdown_schedules_the_piece() {
    let h = get_header(PIECE, "piece", &Vec::new()).unwrap();
    let bd = breakdown(&h, PIECE, "piece").unwrap();
    // the single note starts at time zero: nothing has been flushed yet
    assert_eq!(bd.low_time(), 0);
    assert_eq!(bd.chunks().len(), 0);
}
