use throrgan::generator::{
    frequency_millihz, frequency_to_index, get_duration_from_length, index_to_frequency,
};
use throrgan::instrument::{Damp, Instrument, Smear, Sound};
use throrgan::output::{quantize, quantize_block};
use throrgan::valid_output_name;

fn chars(s: &str) -> Vec<char> {
    s.chars().collect()
}

#[test]
fn frequency_of_a4_is_440() {
    assert_eq!(frequency_millihz(69), 440_000);
}

#[test]
fn frequency_octaves_double() {
    assert_eq!(frequency_millihz(81), 880_000);
    assert_eq!(frequency_millihz(57), 220_000);
    assert_eq!(frequency_millihz(45), 110_000);
    for p in 0..=115u32 {
        assert_eq!(frequency_millihz(p + 12), 2 * frequency_millihz(p));
    }
}

#[test]
fn frequency_is_increasing() {
    for p in 0..127u32 {
        assert!(frequency_millihz(p) < frequency_millihz(p + 1));
    }
}

#[test]
fn duration_from_length() {
    assert_eq!(get_duration_from_length(1), 8);
    assert_eq!(get_duration_from_length(2), 4);
    assert_eq!(get_duration_from_length(4), 2);
    assert_eq!(get_duration_from_length(8), 1);
    assert_eq!(get_duration_from_length(16), 0);
}

#[test]
fn delta_power_band() {
    let s = Sound::new(Smear::Delta(440_000), 1000);
    assert_eq!(s.get_power(440_000), 1_000_000);
    assert_eq!(s.get_power(440_439), 1_000_000);
    assert_eq!(s.get_power(440_440), 0);
    assert_eq!(s.get_power(439_561), 1_000_000);
    assert_eq!(s.get_power(100_000), 0);
}

#[test]
fn gaussian_power_bell() {
    let s = Sound::new(Smear::Gaussian(440_000, 1000), 1000);
    assert_eq!(s.get_power(440_000), 398_942);
    assert_eq!(s.get_power(441_000), 245_502);
    assert_eq!(s.get_power(439_000), 245_502);
    assert_eq!(s.get_power(443_000), 25_532);
    assert_eq!(s.get_power(448_000), 0);
}

#[test]
fn gaussian_power_decreases_away_from_center() {
    let s = Sound::new(Smear::Gaussian(440_000, 2000), 800);
    let mut last = s.get_power(440_000);
    for step in 1..10u64 {
        let p = s.get_power(440_000 + step * 1500);
        assert!(p <= last);
        last = p;
    }
}

#[test]
fn smear_scale_round_trip() {
    let s = Smear::Gaussian(1234, 55);
    assert_eq!(s.scale(7, 1).scale(1, 7), s);
    let d = Smear::Delta(440_000);
    assert_eq!(d.scale(3, 1).scale(1, 3), d);
}

#[test]
fn smear_scale_values() {
    assert_eq!(Smear::Delta(1000).scale(440_000, 1000), Smear::Delta(440_000));
    assert_eq!(
        Smear::Gaussian(2000, 100).scale(440_000, 1000),
        Smear::Gaussian(880_000, 44_000)
    );
}

#[test]
fn generate_steady_state_scales_components() {
    let inst = Instrument {
        steady_mult: vec![
            Sound::new(Smear::Delta(1000), 500),
            Sound::new(Smear::Gaussian(2000, 100), 250),
        ],
        reverb: 1000,
        vol: 800,
    };
    let sounds = inst.generate_steady_state(440_000, 500);
    assert_eq!(sounds.len(), 2);
    assert_eq!(sounds[0].freq, Smear::Delta(440_000));
    assert_eq!(sounds[0].vol, 500 * 500 * 800 / 1_000_000);
    assert_eq!(sounds[1].freq, Smear::Gaussian(880_000, 44_000));
    assert_eq!(sounds[1].vol, 250 * 500 * 800 / 1_000_000);
}

#[test]
fn damp_endpoints_and_middle() {
    let mut damp = Damp::new();
    assert_eq!(damp.end_damp(0, 100), 1000);
    assert_eq!(damp.end_damp(100, 100), 0);
    assert_eq!(damp.end_damp(150, 100), 0);
    assert_eq!(damp.end_damp(25, 100), 750);
    assert_eq!(damp.end_damp(30, 90), 666);
}

#[test]
fn damp_memo_is_consistent() {
    let mut damp = Damp::new();
    let first = damp.end_damp(33, 97);
    for _ in 0..5 {
        assert_eq!(damp.end_damp(33, 97), first);
    }
}

#[test]
fn damp_is_non_increasing() {
    let mut damp = Damp::new();
    let mut last = damp.end_damp(0, 1000);
    for t in 1..=1000u64 {
        let d = damp.end_damp(t, 1000);
        assert!(d <= last);
        last = d;
    }
    assert_eq!(last, 0);
}

#[test]
fn bin_frequencies_are_log_spaced() {
    assert_eq!(index_to_frequency(0), 10_000);
    assert_eq!(index_to_frequency(1), 10_067);
    let mut last = 10_000;
    for i in 1..=1024usize {
        let f = index_to_frequency(i);
        assert!(f >= last);
        last = f;
    }
    // a thousandfold sweep ends near ten kilohertz
    assert!(index_to_frequency(1024) > 9_000_000);
    assert!(index_to_frequency(1024) < 11_000_000);
}

#[test]
fn frequency_index_inverts_bins() {
    for i in [0usize, 1, 10, 100, 562, 1000, 1024] {
        let f = index_to_frequency(i);
        assert_eq!(frequency_to_index(f), i);
    }
    assert_eq!(frequency_to_index(5_000), 0);
    assert_eq!(frequency_to_index(20_000_000), 1024);
}

#[test]
fn quantize_scales_and_saturates() {
    assert_eq!(quantize(0), 0);
    assert_eq!(quantize(1_500_000), 1);
    assert_eq!(quantize(-1_500_000), -1);
    assert_eq!(quantize(32_767_000_000), 32_767);
    assert_eq!(quantize(1_000_000_000_000), 32_767);
    assert_eq!(quantize(-32_768_000_000), -32_768);
    assert_eq!(quantize(-1_000_000_000_000), -32_768);
}

#[test]
fn quantize_block_is_pointwise() {
    let block = vec![0i64, 2_000_000, -3_000_000, 99_000_000_000];
    let q = quantize_block(&block);
    assert_eq!(q, vec![0i16, 2, -3, 32_767]);
}

#[test]
fn output_name_must_end_in_wav() {
    assert!(valid_output_name("song.wav"));
    assert!(valid_output_name(".wav"));
    assert!(!valid_output_name("song.wa"));
    assert!(!valid_output_name("wav"));
    assert!(!valid_output_name("song.mp3"));
    assert!(!valid_output_name("song.WAV"));
}

#[test]
fn parse_milli_reads_thousandths() {
    assert_eq!(throrgan::text::parse_milli(&chars("1.5")), Some(1500));
    assert_eq!(throrgan::text::parse_milli(&chars("0.25")), Some(250));
    assert_eq!(throrgan::text::parse_milli(&chars("440")), Some(440_000));
    assert_eq!(throrgan::text::parse_milli(&chars(".5")), Some(500));
    assert_eq!(throrgan::text::parse_milli(&chars("1.")), Some(1000));
    assert_eq!(throrgan::text::parse_milli(&chars("0.0005")), Some(0));
    assert_eq!(throrgan::text::parse_milli(&chars("+2.5")), Some(2500));
    assert_eq!(throrgan::text::parse_milli(&chars("")), None);
    assert_eq!(throrgan::text::parse_milli(&chars(".")), None);
    assert_eq!(throrgan::text::parse_milli(&chars("+")), None);
    assert_eq!(throrgan::text::parse_milli(&chars("-1")), None);
    // values at or beyond a million whole units do not fit the grid
    assert_eq!(throrgan::text::parse_milli(&chars("1234567")), None);
}

#[test]
fn parse_milli_reads_exponents() {
    assert_eq!(throrgan::text::parse_milli(&chars("1e3")), Some(1_000_000));
    assert_eq!(throrgan::text::parse_milli(&chars("1.5E-2")), Some(15));
    assert_eq!(throrgan::text::parse_milli(&chars("2e-5")), Some(0));
    assert_eq!(throrgan::text::parse_milli(&chars("1e+2")), Some(100_000));
    assert_eq!(throrgan::text::parse_milli(&chars("4.4e2")), Some(440_000));
    assert_eq!(throrgan::text::parse_milli(&chars("0e99")), Some(0));
    assert_eq!(throrgan::text::parse_milli(&chars("1e-300")), Some(0));
    // beyond the grid
    assert_eq!(throrgan::text::parse_milli(&chars("7e9")), None);
    assert_eq!(throrgan::text::parse_milli(&chars("1e6")), None);
    // malformed exponents
    assert_eq!(throrgan::text::parse_milli(&chars("1e")), None);
    assert_eq!(throrgan::text::parse_milli(&chars("e3")), None);
    assert_eq!(throrgan::text::parse_milli(&chars("1e2.5")), None);
    assert_eq!(throrgan::text::parse_milli(&chars("1e1000")), None);
}

#[test]
fn parse_int_reads_plain_integers() {
    assert_eq!(throrgan::text::parse_int(&chars("120")), Some(120));
    assert_eq!(throrgan::text::parse_int(&chars("0")), Some(0));
    assert_eq!(throrgan::text::parse_int(&chars("+7")), Some(7));
    assert_eq!(throrgan::text::parse_int(&chars("1000000")), Some(1_000_000));
    assert_eq!(throrgan::text::parse_int(&chars("4294967295")), Some(4_294_967_295));
    assert_eq!(throrgan::text::parse_int(&chars("4294967296")), None);
    assert_eq!(throrgan::text::parse_int(&chars("12345678901")), None);
    assert_eq!(throrgan::text::parse_int(&chars("-1")), None);
    assert_eq!(throrgan::text::parse_int(&chars("1.0")), None);
    assert_eq!(throrgan::text::parse_int(&chars("")), None);
}

#[test]
fn chars_to_string_spells_the_chars() {
    assert_eq!(throrgan::text::chars_to_string(&chars("sine")), "sine");
    assert_eq!(throrgan::text::chars_to_string(&chars("")), "");
}
