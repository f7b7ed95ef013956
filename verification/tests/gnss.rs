use geoveil_mp::freq::{fcn_for, frequency_hz, partner_bands, separated};
use geoveil_mp::gnss::{GnssSystem, ObservationType, Satellite, SignalCode};
use geoveil_mp::plan::{count_codes, parse_snr_code, signal_pair, snr_code_texts};
use geoveil_mp::selection::{cp_tests, gf_tests, reference_phase, select_phases, snr_code_for};
use geoveil_mp::timefmt::epochs_iso;

fn code(s: &str) -> SignalCode {
    SignalCode::parse(s).unwrap()
}

#[test]
fn signal_code_parse_and_text() {
    let c = code("L2W");
    assert_eq!((c.obs_type, c.band, c.attribute), (ObservationType::Phase, 2, 'W'));
    assert!(c.is_phase() && !c.is_code() && !c.is_snr());
    assert_eq!(c.to_string(), "L2W");
    assert!(SignalCode::parse("L0C").is_none());
    assert!(SignalCode::parse("X1C").is_none());
    assert!(SignalCode::parse("L1c").is_none());
    assert!(SignalCode::parse("L1CC").is_none());
    assert_eq!(SignalCode::new(ObservationType::Code, 12, 'X').to_string(), "C12X");
}

#[test]
fn satellite_parse_and_id() {
    let s = Satellite::parse("G01").unwrap();
    assert_eq!((s.system, s.prn), (GnssSystem::Gps, 1));
    assert_eq!(s.to_string(), "G01");
    assert_eq!(Satellite::parse("R7").unwrap().to_string(), "R07");
    assert_eq!(Satellite::parse("C123").unwrap().prn, 123);
    assert!(Satellite::parse("G00").is_none());
    assert!(Satellite::parse("X01").is_none());
    assert!(Satellite::parse("G1a").is_none());
    assert!(Satellite::parse("G").is_none());
}

#[test]
fn system_letters_and_abbreviations() {
    let all = [
        (GnssSystem::Gps, 'G', "GPS"),
        (GnssSystem::Glonass, 'R', "GLO"),
        (GnssSystem::Galileo, 'E', "GAL"),
        (GnssSystem::Beidou, 'C', "BDS"),
        (GnssSystem::Qzss, 'J', "QZS"),
        (GnssSystem::Navic, 'I', "IRN"),
        (GnssSystem::Sbas, 'S', "SBS"),
    ];
    for (s, c, a) in all {
        assert_eq!(s.to_char(), c);
        assert_eq!(GnssSystem::from_char(c), Some(s));
        assert_eq!(s.abbrev(), a);
    }
    assert_eq!(GnssSystem::from_char('X'), None);
}

#[test]
fn carrier_frequencies() {
    assert_eq!(frequency_hz(GnssSystem::Gps, 1, None), Some(1_575_420_000));
    assert_eq!(frequency_hz(GnssSystem::Gps, 2, None), Some(1_227_600_000));
    assert_eq!(frequency_hz(GnssSystem::Gps, 3, None), None);
    assert_eq!(frequency_hz(GnssSystem::Glonass, 1, Some(-7)), Some(1_598_062_500));
    assert_eq!(frequency_hz(GnssSystem::Glonass, 2, Some(6)), Some(1_248_625_000));
    assert_eq!(frequency_hz(GnssSystem::Glonass, 1, Some(7)), None);
    assert_eq!(frequency_hz(GnssSystem::Glonass, 1, None), Some(1_602_000_000));
    assert_eq!(frequency_hz(GnssSystem::Beidou, 2, None), Some(1_561_098_000));
    assert_eq!(partner_bands(GnssSystem::Gps), vec![1, 2, 5]);
    // B1C and B1I are too close for a combination; L1 and L2 are not
    assert!(!separated(1_575_420_000, 1_561_098_000));
    assert!(separated(1_575_420_000, 1_227_600_000));
}

#[test]
fn separation_of_large_frequencies() {
    assert!(separated(u64::MAX, 1));
    assert!(separated(1, u64::MAX));
    assert!(!separated(u64::MAX, u64::MAX));
    assert!(separated(u64::MAX, u64::MAX / 2));
    assert!(!separated(u64::MAX, u64::MAX - 1));
}

#[test]
fn glonass_channel_lookup() {
    let map = vec![(3u32, -4i8), (5, 1), (3, 2)];
    assert_eq!(fcn_for(&Satellite::parse("R03").unwrap(), &map), Some(-4));
    assert_eq!(fcn_for(&Satellite::parse("R09").unwrap(), &map), Some(0));
    assert_eq!(fcn_for(&Satellite::parse("G03").unwrap(), &map), None);
}

#[test]
fn phase_selection_prefers_attribute_then_count() {
    let inv = vec![
        (code("C1C"), 100),
        (code("L1W"), 120),
        (code("L1C"), 90),
        (code("L2X"), 80),
        (code("L2W"), 100),
        (code("L5Q"), 100),
    ];
    // own band: same attribute first even when observed less
    let (p1, p2) = select_phases(GnssSystem::Gps, None, &code("C1C"), &inv).unwrap();
    assert_eq!((p1, p2), (code("L1C"), code("L2W")));
    // no own-band phase → no pair
    assert_eq!(select_phases(GnssSystem::Gps, None, &code("C6A"), &inv), None);
    // BeiDou C2I: B1C is too close, so the partner is band 7
    let bds = vec![(code("C2I"), 10), (code("L2I"), 10), (code("L1P"), 10), (code("L7I"), 10)];
    assert_eq!(select_phases(GnssSystem::Beidou, None, &code("C2I"), &bds), Some((code("L2I"), code("L7I"))));
}

#[test]
fn reference_phase_and_test_plans() {
    let codes = vec![code("C1C"), code("L1C"), code("L2X"), code("L2W"), code("S1C"), code("C2W")];
    assert_eq!(reference_phase(GnssSystem::Gps, None, &code("L1C"), &codes), Some(code("L2W")));
    assert_eq!(reference_phase(GnssSystem::Gps, None, &code("L2X"), &codes), Some(code("L1C")));
    let gf = gf_tests(GnssSystem::Gps, None, &codes);
    assert_eq!(gf, vec![(code("L1C"), code("L2W")), (code("L2X"), code("L1C")), (code("L2W"), code("L1C"))]);
    let cp = cp_tests(GnssSystem::Gps, None, &codes);
    assert_eq!(cp, vec![(code("C1C"), code("L1C")), (code("C2W"), code("L2W"))]);
}

#[test]
fn snr_selection() {
    let inv = vec![(code("C1C"), 5), (code("S1X"), 9), (code("S1B"), 1)];
    assert_eq!(snr_code_for(&code("C1C"), &inv), Some(code("S1B")));
    let inv2 = vec![(code("S1C"), 1), (code("S1B"), 9)];
    assert_eq!(snr_code_for(&code("C1C"), &inv2), Some(code("S1C")));
    assert_eq!(snr_code_for(&code("C2W"), &inv2), None);
}

#[test]
fn code_counts_and_snr_listing() {
    let lists = vec![
        vec![code("L1C"), code("S2W"), code("S1C")],
        vec![code("L1C"), code("S1C")],
        vec![],
    ];
    let mut counts = count_codes(&lists);
    counts.sort_by_key(|e| e.0.to_string());
    assert_eq!(counts, vec![(code("L1C"), 2), (code("S1C"), 2), (code("S2W"), 1)]);
    assert_eq!(snr_code_texts(&lists), vec!["S1C".to_string(), "S2W".to_string()]);
    assert_eq!(parse_snr_code("s1c"), Some(code("S1C")));
    assert_eq!(parse_snr_code("L1C"), None);
    assert_eq!(signal_pair("C1C", "C2W"), Some((code("C1C"), code("C2W"))));
    assert_eq!(signal_pair("C1C", "bad"), None);
}

#[test]
fn iso_epochs() {
    let r = epochs_iso(&vec![(1_775_606_400, 0), (0, 250_000_000), (0, 2_000_000_000)]);
    assert_eq!(r, vec!["2026-04-08T00:00:00.000Z".to_string(), "1970-01-01T00:00:00.250Z".to_string(), String::new()]);
}

#[test]
fn phase_choice_does_not_depend_on_inventory_order() {
    let inv = vec![(code("L2X"), 70), (code("C1C"), 100), (code("L1C"), 100), (code("L2W"), 100), (code("L1W"), 100)];
    let mut rev = inv.clone();
    rev.reverse();
    let a = select_phases(GnssSystem::Gps, None, &code("C1C"), &inv);
    let b = select_phases(GnssSystem::Gps, None, &code("C1C"), &rev);
    assert_eq!(a, b);
    assert_eq!(a, Some((code("L1C"), code("L2W"))));
}

#[test]
fn phase_choice_with_repeated_entries() {
    let inv = vec![(code("L2X"), 100), (code("L1C"), 100), (code("L2W"), 100), (code("L2X"), 100)];
    let other = vec![(code("L2W"), 100), (code("L2X"), 100), (code("L1C"), 100), (code("L2W"), 100), (code("L1C"), 100)];
    let a = select_phases(GnssSystem::Gps, None, &code("C1C"), &inv);
    let b = select_phases(GnssSystem::Gps, None, &code("C1C"), &other);
    assert_eq!(a, b);
    assert_eq!(a, Some((code("L1C"), code("L2W"))));
}
