use geoveil_mp::arcs::{arc_long_enough, count_breaks, decimate, moving_windows, slip_flags, split_arcs};
use geoveil_mp::filters::{code_allowed, effective_includes, systems_from_names, validate_code_filters, FilterErrorKind};
use geoveil_mp::freq::{frequency_hz, SPEED_OF_LIGHT_M_S};
use geoveil_mp::gnss::{GnssSystem, Satellite, SignalCode};
use geoveil_mp::names::{signal_name, slip_counter_name};
use geoveil_mp::plan::{plan_combos, ComboPlan};
use geoveil_mp::slips::{CycleSlipMethod, SlipEvent, SlipSummary};

fn code(s: &str) -> SignalCode {
    SignalCode::parse(s).unwrap()
}

fn alpha_factor(f1: f64, f2: f64) -> f64 {
    (f1 / f2) * (f1 / f2)
}

fn gps_hz(band: u8) -> f64 {
    frequency_hz(GnssSystem::Gps, band, None).unwrap() as f64
}

/// Inventory of the synthetic single-satellite GPS L1/L2 files of the multipath tests.
fn inventory(n: usize) -> Vec<(SignalCode, usize)> {
    ["C1C", "C2W", "L1C", "L2W", "S1C"].iter().map(|c| (code(c), n)).collect()
}

fn strings(v: &[&str]) -> Vec<String> {
    v.iter().map(|s| s.to_string()).collect()
}

fn names_of(plans: &[ComboPlan]) -> Vec<String> {
    plans.iter().map(|p| signal_name(GnssSystem::Gps, &p.code)).collect()
}

/// Debiased values of one arc with a centered moving average of `window_s` seconds.
fn debias(t_ms: &[i64], mp: &[f64], window_s: f64) -> Vec<f64> {
    let n = mp.len();
    let duration = (t_ms[n - 1] - t_ms[0]) as f64 / 1000.0;
    if duration <= window_s {
        let mean = mp.iter().sum::<f64>() / n as f64;
        return mp.iter().map(|v| v - mean).collect();
    }
    let w = moving_windows(&t_ms.to_vec(), (window_s * 500.0) as i64);
    (0..n)
        .map(|i| {
            let (lo, hi) = w[i];
            let m = mp[lo..hi].iter().sum::<f64>() / (hi - lo) as f64;
            mp[i] - m
        })
        .collect()
}

#[test]
fn test_mp_formula_identity() {
    // The generalized MP with code band k=2, partner j=1 must equal the
    // textbook MP2 = P2 − (2α/(α−1))Φ1 + (2α/(α−1) − 1)Φ2, α=(f1/f2)².
    let f1 = gps_hz(1);
    let f2 = gps_hz(2);
    let (p2, phi1, phi2) = (22.0e6_f64, 22.0e6 - 3.0, 22.0e6 - 4.7);

    // Engine form with "own band" = 2: a = (f2/f1)²
    let a = alpha_factor(f2, f1);
    let engine = p2 - (1.0 + 2.0 / (a - 1.0)) * phi2 + (2.0 / (a - 1.0)) * phi1;

    // Textbook form with α = (f1/f2)²
    let alpha = alpha_factor(f1, f2);
    let textbook = p2 - (2.0 * alpha / (alpha - 1.0)) * phi1 + (2.0 * alpha / (alpha - 1.0) - 1.0) * phi2;

    assert!((engine - textbook).abs() < 1e-9, "engine={engine}, textbook={textbook}");
}

#[test]
fn test_signal_names() {
    assert_eq!(signal_name(GnssSystem::Gps, &code("C1C")), "GPSM1C");
    assert_eq!(signal_name(GnssSystem::Glonass, &code("C3X")), "GLOM3X");
    assert_eq!(signal_name(GnssSystem::Beidou, &code("C2I")), "BDSM2I");
}

#[test]
fn test_per_code_coverage_includes_m2w() {
    // 0.1.1 produced nothing for C2W on an L1/L2-only file
    let g07 = Satellite::parse("G07").unwrap();
    let plans = plan_combos(&g07, None, &inventory(60), &vec![GnssSystem::Gps], &vec![], &vec![], true);
    let names = names_of(&plans);
    assert!(names.contains(&"GPSM1C".to_string()));
    assert!(names.contains(&"GPSM2W".to_string()), "per-code engine must produce GPSM2W; got {:?}", names);
    let m2w = plans.iter().find(|p| p.code == code("C2W")).unwrap();
    assert_eq!(g07.system.to_char().to_string(), "G");
    assert_eq!(m2w.code.to_string(), "C2W");
}

#[test]
fn phase_pairs_and_snr_of_the_l1_l2_file() {
    let g07 = Satellite::parse("G07").unwrap();
    let plans = plan_combos(&g07, None, &inventory(60), &vec![GnssSystem::Gps], &vec![], &vec![], true);
    assert_eq!(plans.len(), 2);
    let m1c = plans.iter().find(|p| p.code == code("C1C")).unwrap();
    assert_eq!((m1c.phase1, m1c.phase2, m1c.snr), (code("L1C"), code("L2W"), Some(code("S1C"))));
    let m2w = plans.iter().find(|p| p.code == code("C2W")).unwrap();
    assert_eq!((m2w.phase1, m2w.phase2, m2w.snr), (code("L2W"), code("L1C"), None));
    // an unanalysed constellation gets no combination
    let none = plan_combos(&g07, None, &inventory(60), &vec![GnssSystem::Galileo], &vec![], &vec![], true);
    assert!(none.is_empty());
}

#[test]
fn test_include_exclude_filters() {
    let g07 = Satellite::parse("G07").unwrap();
    let inc = strings(&["C1C"]);
    let plans = plan_combos(&g07, None, &inventory(60), &vec![GnssSystem::Gps], &inc, &vec![], true);
    let names = names_of(&plans);
    assert!(names.contains(&"GPSM1C".to_string()));
    assert!(!names.contains(&"GPSM2W".to_string()));

    let exc = strings(&["GC1C"]);
    let plans2 = plan_combos(&g07, None, &inventory(60), &vec![GnssSystem::Gps], &vec![], &exc, true);
    let names2 = names_of(&plans2);
    assert!(!names2.contains(&"GPSM1C".to_string()));
    assert!(names2.contains(&"GPSM2W".to_string()));
}

#[test]
fn code_filters_are_case_insensitive_and_exclude_wins() {
    let c1c = code("C1C");
    assert!(code_allowed(GnssSystem::Gps, &c1c, &strings(&["gc1c"]), &vec![]));
    assert!(!code_allowed(GnssSystem::Glonass, &c1c, &strings(&["gc1c"]), &vec![]));
    assert!(!code_allowed(GnssSystem::Gps, &c1c, &strings(&["C1C"]), &strings(&["c1c"])));
    assert!(code_allowed(GnssSystem::Gps, &c1c, &vec![], &vec![]));
    let pairs = vec![(code("C2W"), code("C1C"))];
    let inc = effective_includes(&strings(&["C5Q"]), &pairs);
    assert_eq!(inc, strings(&["C5Q", "C2W"]));
}

#[test]
fn code_filter_validation() {
    let ok = validate_code_filters(&strings(&[" c1c ", "gc2w"])).unwrap();
    assert_eq!(ok, strings(&["C1C", "GC2W"]));
    let e = validate_code_filters(&strings(&["C1C", "C1"])).unwrap_err();
    assert_eq!((e.index, e.kind), (1, FilterErrorKind::BadLength));
    let e = validate_code_filters(&strings(&["X1C"])).unwrap_err();
    assert_eq!((e.index, e.kind), (0, FilterErrorKind::NotACode));
    let e = validate_code_filters(&strings(&["ZC1C"])).unwrap_err();
    assert_eq!((e.index, e.kind), (0, FilterErrorKind::UnknownSystem));
    // a non-ASCII entry of three UTF-8 bytes is not a code
    let e = validate_code_filters(&strings(&["é1"])).unwrap_err();
    assert_eq!((e.index, e.kind), (0, FilterErrorKind::NotACode));
}

#[test]
fn systems_from_letters() {
    let s = systems_from_names(&strings(&["G", "Rx", "", "Z", "E"]));
    assert_eq!(s, vec![GnssSystem::Gps, GnssSystem::Glonass, GnssSystem::Galileo]);
}

#[test]
fn test_max_epochs_decimation() {
    let kept = decimate(1000, Some(100));
    let n = kept.len();
    assert!(n <= 100, "decimated to {n}");
    assert!(n >= 50);
    assert_eq!(&kept[..3], &[0, 10, 20]);
    assert_eq!(decimate(7, Some(3)), vec![0, 3, 6]);
    assert_eq!(decimate(5, None), vec![0, 1, 2, 3, 4]);
    assert_eq!(decimate(5, Some(0)), vec![0, 1, 2, 3, 4]);
}

#[test]
fn test_arc_split_on_gap() {
    // 40 epochs, a 10-interval hole in the middle → two arcs, both kept
    let mut t_ms: Vec<i64> = (0..40).map(|i| i * 30_000).collect();
    t_ms.drain(18..28);
    let interval: f64 = 30.0;
    let gap_break = (5.0 * interval).max(interval + 0.001);
    let breaks: Vec<bool> = (0..t_ms.len())
        .map(|i| i > 0 && ((t_ms[i] - t_ms[i - 1]) as f64 / 1000.0) > gap_break)
        .collect();
    let arcs = split_arcs(&breaks);
    assert_eq!(arcs, vec![(0, 18), (18, 30)]);
    let kept: usize = arcs.iter().filter(|(a, b)| arc_long_enough(*a, *b)).map(|(a, b)| b - a).sum();
    assert_eq!(kept, 30);
    // each side debiases independently → both means ≈ 0
    let mp: Vec<f64> = t_ms.iter().map(|t| 3.0 + (*t as f64) * 1e-6).collect();
    for (a0, a1) in arcs {
        let d = debias(&t_ms[a0..a1], &mp[a0..a1], 1500.0);
        assert!(d.iter().sum::<f64>().abs() / ((a1 - a0) as f64) < 1e-6);
    }
}

#[test]
fn test_min_arc_seconds_drops_short_arcs() {
    // 8 epochs of 30 s: 210 s < 300 s, and fewer than 10 epochs
    let arcs = split_arcs(&vec![false; 8]);
    assert_eq!(arcs, vec![(0, 8)]);
    assert!(!arc_long_enough(0, 8));
    assert!(arc_long_enough(0, 10));
}

#[test]
fn test_moving_average_removes_drift() {
    // A strong linear drift: the moving average (window 600 s) tracks it out
    let t_ms: Vec<i64> = (0..240).map(|i| i * 30_000).collect();
    let mp: Vec<f64> = t_ms.iter().map(|t| 12.5 + 0.002 * (*t as f64 / 1000.0)).collect();
    let d = debias(&t_ms, &mp, 600.0);
    let rms = (d.iter().map(|v| v * v).sum::<f64>() / d.len() as f64).sqrt();
    assert!(rms < 0.15, "moving average should absorb the drift, rms={}", rms);
}

#[test]
fn test_debias_recovers_injected_mp() {
    let amp = 0.4;
    let t_ms: Vec<i64> = (0..120).map(|i| i * 30_000).collect();
    let bias = 1234.5 * (SPEED_OF_LIGHT_M_S as f64 / gps_hz(1));
    let mp: Vec<f64> = t_ms
        .iter()
        .map(|t| bias + amp * (2.0 * std::f64::consts::PI * (*t as f64 / 1000.0) / 300.0).sin())
        .collect();
    let d = debias(&t_ms, &mp, 1500.0);
    let mean: f64 = d.iter().sum::<f64>() / d.len() as f64;
    assert!(mean.abs() < 0.05, "residual bias too large: {mean}");
    let max = d.iter().map(|v| v.abs()).fold(0.0, f64::max);
    assert!((max - amp).abs() < 0.1, "amplitude {max} vs injected {amp}");
}

#[test]
fn moving_windows_cover_half_width() {
    let t: Vec<i64> = vec![0, 10, 20, 30, 60, 61];
    let w = moving_windows(&t, 10);
    assert_eq!(w, vec![(0, 2), (0, 3), (1, 4), (2, 4), (4, 6), (4, 6)]);
}

#[test]
fn moving_windows_on_unordered_times() {
    // the pointers only move forward, also when a time steps back
    let t: Vec<i64> = vec![0, 100, 50, 10];
    let w = moving_windows(&t, 20);
    assert_eq!(w, vec![(0, 1), (1, 4), (1, 4), (1, 4)]);
}

#[test]
fn test_slip_resets_arc() {
    // A slip on L1C at epoch 60 splits the 120-epoch arc and is counted once
    let g07 = Satellite::parse("G07").unwrap();
    let t_ms: Vec<i64> = (0..120).map(|i| i * 30_000).collect();
    let slips = vec![SlipEvent {
        satellite: g07,
        epoch_ms: t_ms[60],
        method: CycleSlipMethod::IonosphericRate,
        signals: vec![code("L1C"), code("L2W")],
    }];
    let summary = SlipSummary::summarize(slips);
    let flags = slip_flags(&t_ms, &summary, &g07, &code("L1C"), &code("L2W"));
    assert_eq!(flags.iter().filter(|f| **f).count(), 1);
    let arcs = split_arcs(&flags);
    assert_eq!(arcs, vec![(0, 60), (60, 120)]);
    assert_eq!(count_breaks(&flags), 1);
    let key = slip_counter_name(GnssSystem::Gps, &code("L1C"));
    assert!(key.starts_with("GPSL1"));
    assert_eq!(summary.slip_count(GnssSystem::Gps, &code("L1C")), 1);
}

#[test]
fn registry_order_and_partner_code_names() {
    let sats: Vec<Satellite> = ["R02", "G10", "G02", "E01", "G01"].iter().map(|s| Satellite::parse(s).unwrap()).collect();
    let order = geoveil_mp::plan::satellite_order(&sats);
    let ids: Vec<String> = order.iter().map(|i| sats[*i].to_string()).collect();
    assert_eq!(ids, vec!["E01", "G01", "G02", "G10", "R02"]);
    assert_eq!(geoveil_mp::names::partner_code_name(&code("L2W")), "C2W");
}
