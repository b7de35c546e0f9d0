use hematite::utils::config::{
    config_entries, is_whitespace, parse_energy_units, parse_field_units, parse_freq_units,
    parse_iter_units, parse_length_units, parse_time_units, split_num_suffix, DecimalFactor,
};

fn d(mantissa: u64, exponent: i32) -> DecimalFactor {
    DecimalFactor { mantissa, exponent }
}

fn s(x: &str) -> String {
    x.to_string()
}

#[test]
fn split_num_suffix_splits_after_last_digit() {
    assert_eq!(split_num_suffix(s("5.0e-16fs")), (s("5.0e-16"), s("fs")));
    assert_eq!(split_num_suffix(s("1.5K")), (s("1.5"), s("K")));
    assert_eq!(split_num_suffix(s("10")), (s("10"), s("")));
    assert_eq!(split_num_suffix(s("nm")), (s(""), s("nm")));
    assert_eq!(split_num_suffix(s("")), (s(""), s("")));
    assert_eq!(split_num_suffix(s("3.")), (s("3."), s("")));
    assert_eq!(split_num_suffix(s("2µT")), (s("2"), s("µT")));
}

#[test]
fn iteration_units() {
    assert_eq!(parse_iter_units(s("K")), d(1, 3));
    assert_eq!(parse_iter_units(s("m")), d(1, 6));
    assert_eq!(parse_iter_units(s("b")), d(1, 9));
    assert_eq!(parse_iter_units(s("")), d(1, 0));
    assert_eq!(parse_iter_units(s("x")), d(1, 0));
}

#[test]
fn length_units() {
    assert_eq!(parse_length_units(s("A")), d(1, 0));
    assert_eq!(parse_length_units(s("NM")), d(1, 1));
    assert_eq!(parse_length_units(s("um")), d(1, 4));
    assert_eq!(parse_length_units(s("mm")), d(1, 0));
}

#[test]
fn time_units() {
    let table = [
        ("s", 0), ("ms", -3), ("us", -6), ("ns", -9), ("ps", -12), ("fs", -15), ("as", -18), ("zs", -21),
    ];
    for (unit, exponent) in table {
        assert_eq!(parse_time_units(s(unit)), d(1, exponent));
        assert_eq!(parse_time_units(unit.to_uppercase()), d(1, exponent));
    }
    assert_eq!(parse_time_units(s("h")), d(1, 0));
}

#[test]
fn energy_units() {
    let table = [
        ("j", d(1, 0)), ("mJ", d(1, -3)), ("uj", d(1, -6)), ("nj", d(1, -9)), ("pj", d(1, -12)),
        ("fj", d(1, -15)), ("aJ", d(1, -18)), ("eV", d(1602177, -25)), ("meV", d(1602177, -28)),
        ("ueV", d(1602177, -31)), ("neV", d(1602177, -34)), ("kj", d(1, 0)),
    ];
    for (unit, factor) in table {
        assert_eq!(parse_energy_units(s(unit)), factor);
    }
}

#[test]
fn field_units() {
    assert_eq!(parse_field_units(s("kT")), d(1, 3));
    assert_eq!(parse_field_units(s("T")), d(1, 0));
    assert_eq!(parse_field_units(s("mT")), d(1, -3));
    assert_eq!(parse_field_units(s("uT")), d(1, -6));
    assert_eq!(parse_field_units(s("G")), d(1, -4));
    assert_eq!(parse_field_units(s("Oe")), d(1, 0));
}

#[test]
fn frequency_units() {
    assert_eq!(parse_freq_units(s("Hz")), d(1, 0));
    assert_eq!(parse_freq_units(s("kHz")), d(1, 3));
    assert_eq!(parse_freq_units(s("MHZ")), d(1, 6));
    assert_eq!(parse_freq_units(s("GHz")), d(1, 9));
    assert_eq!(parse_freq_units(s("THz")), d(1, 12));
    assert_eq!(parse_freq_units(s("PHz")), d(1, 15));
    // KELVIN SIGN lowercases to an ASCII 'k'
    assert_eq!(parse_freq_units(s("\u{212A}Hz")), d(1, 3));
}

#[test]
fn whitespace_matches_std() {
    for c in (0u32..0x11_0000).filter_map(char::from_u32) {
        assert_eq!(is_whitespace(c), c.is_whitespace(), "{:?}", c);
    }
}

#[test]
fn config_entries_strip_whitespace_and_comments() {
    let text = "iterations = 10 K\n# timestep = 1fs\n\n  dimensions=1nm, 2 nm,3nm\r\nno equals sign\nkey=a=b\n=empty key\ncuda=true";
    let entries = config_entries(text);
    let expected = vec![
        (s("iterations"), s("10K")),
        (s("dimensions"), s("1nm,2nm,3nm")),
        (s("key"), s("a=b")),
        (s(""), s("emptykey")),
        (s("cuda"), s("true")),
    ];
    assert_eq!(entries, expected);
}

#[test]
fn config_entries_of_empty_text() {
    assert!(config_entries("").is_empty());
    assert!(config_entries("\n\n# only comments\n").is_empty());
}

#[test]
fn config_entries_comment_after_whitespace() {
    assert!(config_entries("   #alpha=1").is_empty());
    assert_eq!(config_entries("alpha=1#x"), vec![(s("alpha"), s("1#x"))]);
}
