use geoveil_mp::detect::{detect_slips, epoch_slips, observed_codes, SatEpoch, TestOutcomes};
use geoveil_mp::freq::{frequency_hz, SPEED_OF_LIGHT_M_S};
use geoveil_mp::selection::{cp_tests, gf_tests};
use geoveil_mp::gnss::{GnssSystem, Satellite, SignalCode};
use geoveil_mp::slips::{lli_slips, report_order, CycleSlipMethod, SlipEvent, SlipSummary};
use geoveil_mp::thresholds::{ION_DELTA_BASE_UM, ION_DELTA_RATE_UM_PER_S, ION_RATE_THRESHOLD_UM_PER_S};

fn code(s: &str) -> SignalCode {
    SignalCode::parse(s).unwrap()
}

fn sat(s: &str) -> Satellite {
    Satellite::parse(s).unwrap()
}

fn event(s: &str, epoch_ms: i64, method: CycleSlipMethod, sigs: &[&str]) -> SlipEvent {
    SlipEvent { satellite: sat(s), epoch_ms, method, signals: sigs.iter().map(|c| code(c)).collect() }
}

fn gps_hz(band: u8) -> f64 {
    frequency_hz(GnssSystem::Gps, band, None).unwrap() as f64
}

#[test]
fn test_legacy_rate_logic_would_miss_30s_slip() {
    // Documents the 0.1.x defect: rate = 0.294 m / 30 s ≈ 0.0098 m/s
    // was far below the 0.0667 m/s rate threshold.
    let c = SPEED_OF_LIGHT_M_S as f64;
    let l1 = gps_hz(1);
    let l2 = gps_hz(2);
    let alpha_l1_l2 = (l1 / l2) * (l1 / l2);
    let gf_signature = (c / l1) / (alpha_l1_l2 - 1.0);
    let rate_at_30s = gf_signature / 30.0;
    let ion_rate_threshold = ION_RATE_THRESHOLD_UM_PER_S as f64 / 1e6;
    assert!(rate_at_30s < ion_rate_threshold);
    // New delta-domain threshold at 30 s catches it
    let base = ION_DELTA_BASE_UM as f64 / 1e6;
    let rate = ION_DELTA_RATE_UM_PER_S as f64 / 1e6;
    let delta_threshold = base + rate * 30.0;
    assert!(gf_signature > delta_threshold);
}

#[test]
fn test_lli_only_on_phase() {
    let g01 = sat("G01");
    // LLI bit set on an SNR observable must NOT fire
    let obs = vec![(code("S1C"), Some(1u8))];
    assert!(lli_slips(g01, 0, &obs).is_empty());
}

#[test]
fn lli_on_phase_fires_once_per_phase() {
    let g01 = sat("G01");
    let obs = vec![
        (code("C1C"), Some(1u8)),
        (code("L1C"), Some(1u8)),
        (code("L2W"), Some(4u8)),
        (code("L5Q"), Some(2u8)),
        (code("L2X"), None),
    ];
    let r = lli_slips(g01, 1000, &obs);
    assert_eq!(r.len(), 2);
    assert_eq!(r[0].signals, vec![code("L1C")]);
    assert_eq!(r[1].signals, vec![code("L5Q")]);
    assert!(r.iter().all(|e| e.method == CycleSlipMethod::LLI && e.epoch_ms == 1000 && e.satellite == g01));
}

#[test]
fn method_identifiers() {
    assert_eq!(CycleSlipMethod::IonosphericRate.as_str(), "gf");
    assert_eq!(CycleSlipMethod::CodePhase.as_str(), "code_phase");
    assert_eq!(CycleSlipMethod::LLI.as_str(), "lli");
    assert_eq!(CycleSlipMethod::Doppler.as_str(), "doppler");
}

#[test]
fn summary_indexes_phase_signals_and_counts_first_phase() {
    let slips = vec![
        event("G01", 300_000, CycleSlipMethod::IonosphericRate, &["L1C", "L2W"]),
        event("G01", 330_000, CycleSlipMethod::CodePhase, &["L1C", "C1C"]),
        event("G02", 300_000, CycleSlipMethod::LLI, &["L2W"]),
        event("R05", 300_000, CycleSlipMethod::LLI, &["L1C"]),
        event("G03", 0, CycleSlipMethod::Doppler, &["C1C"]),
    ];
    let s = SlipSummary::summarize(slips);
    let g01 = sat("G01");
    // both phases of the geometry-free slip are indexed
    assert!(s.has_slip(&g01, &code("L1C"), 300_000));
    assert!(s.has_slip(&g01, &code("L2W"), 300_000));
    assert!(!s.has_slip(&g01, &code("L2W"), 330_000));
    // pseudoranges are never indexed
    assert!(!s.has_slip(&g01, &code("C1C"), 330_000));
    assert!(!s.has_slip(&sat("G03"), &code("C1C"), 0));
    // each slip counts once, for its first phase signal
    assert_eq!(s.slip_count(GnssSystem::Gps, &code("L1C")), 2);
    assert_eq!(s.slip_count(GnssSystem::Gps, &code("L2W")), 1);
    assert_eq!(s.slip_count(GnssSystem::Glonass, &code("L1C")), 1);
    assert_eq!(s.slip_count(GnssSystem::Gps, &code("C1C")), 0);
    let total: usize = s.signal_counts().iter().map(|e| e.2).sum();
    assert_eq!(total, 4);
    assert_eq!(s.slips().len(), 5);
}

#[test]
fn empty_summary_has_no_slips() {
    let s = SlipSummary::empty();
    assert!(!s.has_slip(&sat("G01"), &code("L1C"), 0));
    assert_eq!(s.slip_count(GnssSystem::Gps, &code("L1C")), 0);
    assert!(s.signal_counts().is_empty());
}

#[test]
fn report_order_sorts_by_epoch_satellite_signal_stably() {
    let slips = vec![
        event("G10", 60_000, CycleSlipMethod::IonosphericRate, &["L2W", "L1C"]),
        event("G02", 60_000, CycleSlipMethod::CodePhase, &["L1C", "C1C"]),
        event("G02", 30_000, CycleSlipMethod::LLI, &["L5Q"]),
        event("G02", 60_000, CycleSlipMethod::LLI, &["L1C"]),
        event("G02", 60_000, CycleSlipMethod::IonosphericRate, &["L1C", "L2W"]),
        event("E11", 60_000, CycleSlipMethod::Doppler, &[]),
    ];
    let order = report_order(&slips);
    assert_eq!(order, vec![2, 5, 1, 3, 4, 0]);
}

fn rec(s: &str, epoch_ms: i64, obs: &[(&str, Option<u8>)]) -> SatEpoch {
    SatEpoch { satellite: sat(s), epoch_ms, observed: obs.iter().map(|(c, l)| (code(c), *l)).collect() }
}

#[test]
fn test_epoch_slips_names_tested_phase_first() {
    let r = rec("G05", 30_000, &[("C1C", None), ("L1C", Some(1)), ("L2W", None), ("C2W", None)]);
    let codes = observed_codes(&r.observed);
    let gf = gf_tests(GnssSystem::Gps, None, &codes);
    let cp = cp_tests(GnssSystem::Gps, None, &codes);
    assert_eq!(gf, vec![(code("L1C"), code("L2W")), (code("L2W"), code("L1C"))]);
    assert_eq!(cp, vec![(code("C1C"), code("L1C")), (code("C2W"), code("L2W"))]);
    let out = TestOutcomes { gf_fired: vec![false, true], cp_fired: vec![true] };
    let ev = epoch_slips(&r, &out, true, &Vec::new());
    assert_eq!(ev.len(), 3);
    assert_eq!(ev[0].method, CycleSlipMethod::LLI);
    assert_eq!(ev[0].signals, vec![code("L1C")]);
    assert_eq!(ev[1].method, CycleSlipMethod::IonosphericRate);
    assert_eq!(ev[1].signals, vec![code("L2W"), code("L1C")]);
    assert_eq!(ev[2].method, CycleSlipMethod::CodePhase);
    assert_eq!(ev[2].signals, vec![code("L1C"), code("C1C")]);
    for e in &ev {
        assert_eq!(e.satellite, sat("G05"));
        assert_eq!(e.epoch_ms, 30_000);
    }
    // indicators switched off
    assert_eq!(epoch_slips(&r, &out, false, &Vec::new()).len(), 2);
}

#[test]
fn test_detect_slips_report_order() {
    let recs = vec![
        rec("G12", 60_000, &[("L1C", Some(1))]),
        rec("G03", 60_000, &[("L1C", Some(2)), ("C1C", Some(1))]),
        rec("G07", 30_000, &[("L2W", Some(1)), ("L1C", Some(1))]),
    ];
    let outs: Vec<TestOutcomes> =
        (0..3).map(|_| TestOutcomes { gf_fired: Vec::new(), cp_fired: Vec::new() }).collect();
    let (ev, order) = detect_slips(&recs, &outs, true, &Vec::new());
    let got: Vec<(i64, String, String)> =
        ev.iter().map(|e| (e.epoch_ms, e.satellite.to_string(), e.signals[0].to_string())).collect();
    assert_eq!(
        got,
        vec![
            (30_000, "G07".to_string(), "L1C".to_string()),
            (30_000, "G07".to_string(), "L2W".to_string()),
            (60_000, "G03".to_string(), "L1C".to_string()),
            (60_000, "G12".to_string(), "L1C".to_string()),
        ]
    );
    // planned order: G12 L1C, G03 L1C, G07 L2W, G07 L1C
    assert_eq!(order, vec![3, 2, 1, 0]);
}
