//! A cycle-slip detection run: which slips are raised at each satellite and epoch, given
//! the loss-of-lock indicators and which of the planned differential tests exceeded
//! their thresholds, and the run's slips in report order.
use vstd::prelude::*;
use crate::freq::{channel_of, fcn_for};
use crate::gnss::{code_text, sat_text, ObservationType, Satellite, SignalCode};
use crate::order::{is_stable_order, key_before};
use crate::selection::{cp_plan, cp_tests, gf_plan, gf_tests};
use crate::slips::{law_lli_only_on_phase, lli_hits, lli_slips, report_order, slip_key, CycleSlipMethod, SlipEvent};

verus! {

/// The observables of one satellite at one epoch, each with its loss-of-lock indicator.
pub struct SatEpoch {
    pub satellite: Satellite,
    pub epoch_ms: i64,
    pub observed: Vec<(SignalCode, Option<u8>)>,
}

/// Which planned differential tests of one satellite-epoch exceeded their thresholds:
/// `gf_fired[k]` for the `k`-th test of `gf_tests`, `cp_fired[k]` for the `k`-th test of
/// `cp_tests`, both on the epoch's observables in the order given. A missing entry means
/// that the test did not fire.
pub struct TestOutcomes {
    pub gf_fired: Vec<bool>,
    pub cp_fired: Vec<bool>,
}

/// A slip as a value: satellite, epoch, method and signals.
pub open spec fn event_view(e: SlipEvent) -> (Satellite, i64, CycleSlipMethod, Seq<SignalCode>) {
    (e.satellite, e.epoch_ms, e.method, e.signals@)
}

/// The observables of a satellite-epoch, in the order given.
pub open spec fn codes_of(obs: Seq<(SignalCode, Option<u8>)>) -> Seq<SignalCode> {
    obs.map_values(|o: (SignalCode, Option<u8>)| o.0)
}

/// Whether the `k`-th test fired.
pub open spec fn fired(f: Seq<bool>, k: int) -> bool {
    0 <= k < f.len() && f[k]
}

/// Loss-of-lock slips: one per reported phase, naming that phase.
pub open spec fn lli_events(sat: Satellite, t: i64, hits: Seq<SignalCode>) -> Seq<
    (Satellite, i64, CycleSlipMethod, Seq<SignalCode>),
> {
    hits.map_values(|c: SignalCode| (sat, t, CycleSlipMethod::LLI, seq![c]))
}

/// Geometry-free slips: one per fired test, naming the tested phase, then its reference.
pub open spec fn gf_events(sat: Satellite, t: i64, tests: Seq<(SignalCode, SignalCode)>, f: Seq<bool>) -> Seq<
    (Satellite, i64, CycleSlipMethod, Seq<SignalCode>),
>
    decreases tests.len(),
{
    if tests.len() == 0 {
        Seq::empty()
    } else {
        let rest = gf_events(sat, t, tests.drop_last(), f);
        let k = tests.len() - 1;
        if fired(f, k) {
            rest.push((sat, t, CycleSlipMethod::IonosphericRate, seq![tests[k].0, tests[k].1]))
        } else {
            rest
        }
    }
}

/// Code-phase slips: one per fired test, naming the phase, then the pseudorange.
pub open spec fn cp_events(sat: Satellite, t: i64, tests: Seq<(SignalCode, SignalCode)>, f: Seq<bool>) -> Seq<
    (Satellite, i64, CycleSlipMethod, Seq<SignalCode>),
>
    decreases tests.len(),
{
    if tests.len() == 0 {
        Seq::empty()
    } else {
        let rest = cp_events(sat, t, tests.drop_last(), f);
        let k = tests.len() - 1;
        if fired(f, k) {
            rest.push((sat, t, CycleSlipMethod::CodePhase, seq![tests[k].1, tests[k].0]))
        } else {
            rest
        }
    }
}

/// The slips of one satellite-epoch: loss-of-lock slips (when indicators are honoured),
/// then geometry-free slips, then code-phase slips.
pub open spec fn epoch_events(rec: SatEpoch, out: TestOutcomes, use_lli: bool, fcn_map: Seq<(u32, i8)>) -> Seq<
    (Satellite, i64, CycleSlipMethod, Seq<SignalCode>),
> {
    let sat = rec.satellite;
    let t = rec.epoch_ms;
    let codes = codes_of(rec.observed@);
    let fcn = channel_of(sat, fcn_map);
    let lli = if use_lli {
        lli_events(sat, t, lli_hits(rec.observed@))
    } else {
        Seq::empty()
    };
    lli + gf_events(sat, t, gf_plan(sat.system, fcn, codes, codes), out.gf_fired@) + cp_events(
        sat,
        t,
        cp_plan(sat.system, fcn, codes, codes),
        out.cp_fired@,
    )
}

/// The slips of a run, satellite-epoch by satellite-epoch.
pub open spec fn run_events(
    recs: Seq<SatEpoch>,
    outs: Seq<TestOutcomes>,
    use_lli: bool,
    fcn_map: Seq<(u32, i8)>,
) -> Seq<(Satellite, i64, CycleSlipMethod, Seq<SignalCode>)>
    decreases recs.len(),
{
    if recs.len() == 0 {
        Seq::empty()
    } else {
        run_events(recs.drop_last(), outs, use_lli, fcn_map) + epoch_events(
            recs.last(),
            outs[recs.len() - 1],
            use_lli,
            fcn_map,
        )
    }
}

/// The observables of a satellite-epoch.
pub fn observed_codes(obs: &Vec<(SignalCode, Option<u8>)>) -> (r: Vec<SignalCode>)
    ensures
        r@ == codes_of(obs@),
{
    let mut r: Vec<SignalCode> = Vec::new();
    let mut i: usize = 0;
    while i < obs.len()
        invariant
            i <= obs.len(),
            r@ == codes_of(obs@.subrange(0, i as int)),
        decreases obs.len() - i,
    {
        r.push(obs[i].0);
        proof {
            assert(codes_of(obs@.subrange(0, i + 1)) =~= codes_of(obs@.subrange(0, i as int)).push(obs@[i as int].0));
        }
        i = i + 1;
    }
    assert(obs@.subrange(0, obs.len() as int) =~= obs@);
    r
}

fn two_codes(a: SignalCode, b: SignalCode) -> (r: Vec<SignalCode>)
    ensures
        r@ == seq![a, b],
{
    let mut r: Vec<SignalCode> = Vec::new();
    r.push(a);
    r.push(b);
    assert(r@ =~= seq![a, b]);
    r
}

/// The slips raised at one satellite-epoch (see `epoch_events`).
pub fn epoch_slips(rec: &SatEpoch, out: &TestOutcomes, use_lli: bool, fcn_map: &Vec<(u32, i8)>) -> (r: Vec<SlipEvent>)
    ensures
        r.len() == epoch_events(*rec, *out, use_lli, fcn_map@).len(),
        forall|k: int| 0 <= k < r.len() ==> event_view(#[trigger] r@[k]) == epoch_events(*rec, *out, use_lli, fcn_map@)[k],
{
    let sat = rec.satellite;
    let t = rec.epoch_ms;
    let codes = observed_codes(&rec.observed);
    let fcn = fcn_for(&sat, fcn_map);
    let ghost lli_part = if use_lli {
        lli_events(sat, t, lli_hits(rec.observed@))
    } else {
        Seq::empty()
    };
    let mut r: Vec<SlipEvent> = if use_lli {
        lli_slips(sat, t, &rec.observed)
    } else {
        Vec::new()
    };
    assert(forall|k: int| 0 <= k < r.len() ==> event_view(#[trigger] r@[k]) == lli_part[k]);
    let gf = gf_tests(sat.system, fcn, &codes);
    let mut k: usize = 0;
    assert(gf@.subrange(0, 0) =~= Seq::<(SignalCode, SignalCode)>::empty());
    while k < gf.len()
        invariant
            k <= gf.len(),
            r.len() == lli_part.len() + gf_events(sat, t, gf@.subrange(0, k as int), out.gf_fired@).len(),
            forall|m: int|
                0 <= m < r.len() ==> event_view(#[trigger] r@[m]) == (lli_part + gf_events(
                    sat,
                    t,
                    gf@.subrange(0, k as int),
                    out.gf_fired@,
                ))[m],
        decreases gf.len() - k,
    {
        proof {
            assert(gf@.subrange(0, k + 1).drop_last() =~= gf@.subrange(0, k as int));
        }
        if k < out.gf_fired.len() && out.gf_fired[k] {
            let (a, b) = gf[k];
            r.push(SlipEvent { satellite: sat, epoch_ms: t, method: CycleSlipMethod::IonosphericRate, signals: two_codes(a, b) });
        }
        k = k + 1;
    }
    assert(gf@.subrange(0, gf.len() as int) =~= gf@);
    let ghost gf_part = lli_part + gf_events(sat, t, gf@, out.gf_fired@);
    let cp = cp_tests(sat.system, fcn, &codes);
    let mut k: usize = 0;
    assert(cp@.subrange(0, 0) =~= Seq::<(SignalCode, SignalCode)>::empty());
    assert(gf_part + cp_events(sat, t, cp@.subrange(0, 0), out.cp_fired@) =~= gf_part);
    while k < cp.len()
        invariant
            k <= cp.len(),
            r.len() == gf_part.len() + cp_events(sat, t, cp@.subrange(0, k as int), out.cp_fired@).len(),
            forall|m: int|
                0 <= m < r.len() ==> event_view(#[trigger] r@[m]) == (gf_part + cp_events(
                    sat,
                    t,
                    cp@.subrange(0, k as int),
                    out.cp_fired@,
                ))[m],
        decreases cp.len() - k,
    {
        proof {
            assert(cp@.subrange(0, k + 1).drop_last() =~= cp@.subrange(0, k as int));
        }
        if k < out.cp_fired.len() && out.cp_fired[k] {
            let (c, p) = cp[k];
            r.push(SlipEvent { satellite: sat, epoch_ms: t, method: CycleSlipMethod::CodePhase, signals: two_codes(p, c) });
        }
        k = k + 1;
    }
    assert(cp@.subrange(0, cp.len() as int) =~= cp@);
    r
}

/// The sort key of a slip value: epoch, satellite id, text of its first signal.
pub open spec fn view_key(e: (Satellite, i64, CycleSlipMethod, Seq<SignalCode>)) -> (int, Seq<char>, Seq<char>) {
    (
        e.1 as int,
        sat_text(e.0),
        if e.3.len() == 0 {
            Seq::empty()
        } else {
            code_text(e.3[0])
        },
    )
}

/// A slip value belongs to the observation record `rec`: same satellite and epoch, and its
/// first signal is a carrier phase observed there.
pub open spec fn names_observed_phase(e: (Satellite, i64, CycleSlipMethod, Seq<SignalCode>), rec: SatEpoch) -> bool {
    &&& e.0 == rec.satellite
    &&& e.1 == rec.epoch_ms
    &&& e.3.len() > 0
    &&& e.3[0].obs_type == ObservationType::Phase
    &&& codes_of(rec.observed@).contains(e.3[0])
}

proof fn lemma_gf_plan_tested(
    sys: crate::gnss::GnssSystem,
    fcn: Option<i8>,
    codes: Seq<SignalCode>,
    all: Seq<SignalCode>,
)
    ensures
        forall|k: int|
            0 <= k < gf_plan(sys, fcn, codes, all).len() ==> (#[trigger] gf_plan(sys, fcn, codes, all)[k]).0.obs_type
                == ObservationType::Phase && codes.contains(gf_plan(sys, fcn, codes, all)[k].0),
    decreases codes.len(),
{
    if codes.len() > 0 {
        let p = codes.drop_last();
        lemma_gf_plan_tested(sys, fcn, p, all);
        assert forall|k: int| 0 <= k < gf_plan(sys, fcn, codes, all).len() implies (#[trigger] gf_plan(
            sys,
            fcn,
            codes,
            all,
        )[k]).0.obs_type == ObservationType::Phase && codes.contains(gf_plan(sys, fcn, codes, all)[k].0) by {
            if k < gf_plan(sys, fcn, p, all).len() {
                let c = gf_plan(sys, fcn, p, all)[k].0;
                let j = choose|j: int| 0 <= j < p.len() && p[j] == c;
                assert(codes[j] == c);
            } else {
                assert(codes[codes.len() - 1] == codes.last());
            }
        }
    }
}

proof fn lemma_cp_plan_phase(
    sys: crate::gnss::GnssSystem,
    fcn: Option<i8>,
    codes: Seq<SignalCode>,
    all: Seq<SignalCode>,
)
    ensures
        forall|k: int|
            0 <= k < cp_plan(sys, fcn, codes, all).len() ==> (#[trigger] cp_plan(sys, fcn, codes, all)[k]).1.obs_type
                == ObservationType::Phase && all.contains(cp_plan(sys, fcn, codes, all)[k].1),
    decreases codes.len(),
{
    if codes.len() > 0 {
        lemma_cp_plan_phase(sys, fcn, codes.drop_last(), all);
    }
}

proof fn lemma_gf_events_from(sat: Satellite, t: i64, tests: Seq<(SignalCode, SignalCode)>, f: Seq<bool>)
    ensures
        forall|j: int|
            0 <= j < gf_events(sat, t, tests, f).len() ==> exists|k: int|
                0 <= k < tests.len() && #[trigger] gf_events(sat, t, tests, f)[j] == (
                    sat,
                    t,
                    CycleSlipMethod::IonosphericRate,
                    seq![tests[k].0, tests[k].1],
                ),
    decreases tests.len(),
{
    if tests.len() > 0 {
        let p = tests.drop_last();
        lemma_gf_events_from(sat, t, p, f);
        assert forall|j: int| 0 <= j < gf_events(sat, t, tests, f).len() implies exists|k: int|
            0 <= k < tests.len() && #[trigger] gf_events(sat, t, tests, f)[j] == (
                sat,
                t,
                CycleSlipMethod::IonosphericRate,
                seq![tests[k].0, tests[k].1],
            ) by {
            if j < gf_events(sat, t, p, f).len() {
                let k = choose|k: int|
                    0 <= k < p.len() && #[trigger] gf_events(sat, t, p, f)[j] == (
                        sat,
                        t,
                        CycleSlipMethod::IonosphericRate,
                        seq![p[k].0, p[k].1],
                    );
                assert(tests[k] == p[k]);
            } else {
                let k = tests.len() - 1;
                assert(gf_events(sat, t, tests, f)[j] == (
                    sat,
                    t,
                    CycleSlipMethod::IonosphericRate,
                    seq![tests[k].0, tests[k].1],
                ));
            }
        }
    }
}

proof fn lemma_cp_events_from(sat: Satellite, t: i64, tests: Seq<(SignalCode, SignalCode)>, f: Seq<bool>)
    ensures
        forall|j: int|
            0 <= j < cp_events(sat, t, tests, f).len() ==> exists|k: int|
                0 <= k < tests.len() && #[trigger] cp_events(sat, t, tests, f)[j] == (
                    sat,
                    t,
                    CycleSlipMethod::CodePhase,
                    seq![tests[k].1, tests[k].0],
                ),
    decreases tests.len(),
{
    if tests.len() > 0 {
        let p = tests.drop_last();
        lemma_cp_events_from(sat, t, p, f);
        assert forall|j: int| 0 <= j < cp_events(sat, t, tests, f).len() implies exists|k: int|
            0 <= k < tests.len() && #[trigger] cp_events(sat, t, tests, f)[j] == (
                sat,
                t,
                CycleSlipMethod::CodePhase,
                seq![tests[k].1, tests[k].0],
            ) by {
            if j < cp_events(sat, t, p, f).len() {
                let k = choose|k: int|
                    0 <= k < p.len() && #[trigger] cp_events(sat, t, p, f)[j] == (
                        sat,
                        t,
                        CycleSlipMethod::CodePhase,
                        seq![p[k].1, p[k].0],
                    );
                assert(tests[k] == p[k]);
            } else {
                let k = tests.len() - 1;
                assert(cp_events(sat, t, tests, f)[j] == (
                    sat,
                    t,
                    CycleSlipMethod::CodePhase,
                    seq![tests[k].1, tests[k].0],
                ));
            }
        }
    }
}

/// Every slip raised at a satellite-epoch belongs to it and names an observed phase first.
proof fn lemma_epoch_events_observed(rec: SatEpoch, out: TestOutcomes, use_lli: bool, fcn_map: Seq<(u32, i8)>)
    ensures
        forall|j: int|
            0 <= j < epoch_events(rec, out, use_lli, fcn_map).len() ==> names_observed_phase(
                #[trigger] epoch_events(rec, out, use_lli, fcn_map)[j],
                rec,
            ),
{
    let sat = rec.satellite;
    let t = rec.epoch_ms;
    let obs = rec.observed@;
    let codes = codes_of(obs);
    let fcn = channel_of(sat, fcn_map);
    let lli = if use_lli {
        lli_events(sat, t, lli_hits(obs))
    } else {
        Seq::empty()
    };
    let gp = gf_plan(sat.system, fcn, codes, codes);
    let cpp = cp_plan(sat.system, fcn, codes, codes);
    let g = gf_events(sat, t, gp, out.gf_fired@);
    let c = cp_events(sat, t, cpp, out.cp_fired@);
    law_lli_only_on_phase(obs);
    lemma_gf_plan_tested(sat.system, fcn, codes, codes);
    lemma_cp_plan_phase(sat.system, fcn, codes, codes);
    lemma_gf_events_from(sat, t, gp, out.gf_fired@);
    lemma_cp_events_from(sat, t, cpp, out.cp_fired@);
    let all = epoch_events(rec, out, use_lli, fcn_map);
    assert(all == lli + g + c);
    assert forall|j: int| 0 <= j < all.len() implies names_observed_phase(#[trigger] all[j], rec) by {
        if j < lli.len() {
            let h = lli_hits(obs)[j];
            assert(all[j] == lli[j]);
            assert(lli[j] == (sat, t, CycleSlipMethod::LLI, seq![h]));
            let i = choose|i: int| 0 <= i < obs.len() && obs[i].0 == #[trigger] lli_hits(obs)[j] && crate::slips::lli_reports_slip(obs[i].1);
            assert(codes[i] == h);
        } else if j < lli.len() + g.len() {
            assert(all[j] == g[j - lli.len()]);
            let k = choose|k: int|
                0 <= k < gp.len() && #[trigger] g[j - lli.len()] == (
                    sat,
                    t,
                    CycleSlipMethod::IonosphericRate,
                    seq![gp[k].0, gp[k].1],
                );
            assert(gp[k].0.obs_type == ObservationType::Phase);
        } else {
            assert(all[j] == c[j - lli.len() - g.len()]);
            let k = choose|k: int|
                0 <= k < cpp.len() && #[trigger] c[j - lli.len() - g.len()] == (
                    sat,
                    t,
                    CycleSlipMethod::CodePhase,
                    seq![cpp[k].1, cpp[k].0],
                );
            assert(cpp[k].1.obs_type == ObservationType::Phase);
        }
    }
}

/// Every slip of a run belongs to one of the run's satellite-epochs and names a carrier
/// phase observed there first.
pub proof fn law_run_slips_observed(
    recs: Seq<SatEpoch>,
    outs: Seq<TestOutcomes>,
    use_lli: bool,
    fcn_map: Seq<(u32, i8)>,
)
    ensures
        forall|j: int|
            0 <= j < run_events(recs, outs, use_lli, fcn_map).len() ==> exists|i: int|
                0 <= i < recs.len() && names_observed_phase(
                    #[trigger] run_events(recs, outs, use_lli, fcn_map)[j],
                    recs[i],
                ),
    decreases recs.len(),
{
    if recs.len() > 0 {
        let p = recs.drop_last();
        let n = recs.len() - 1;
        law_run_slips_observed(p, outs, use_lli, fcn_map);
        lemma_epoch_events_observed(recs.last(), outs[n], use_lli, fcn_map);
        let a = run_events(p, outs, use_lli, fcn_map);
        let b = epoch_events(recs.last(), outs[n], use_lli, fcn_map);
        let all = run_events(recs, outs, use_lli, fcn_map);
        assert(all == a + b);
        assert forall|j: int| 0 <= j < all.len() implies exists|i: int|
            0 <= i < recs.len() && names_observed_phase(#[trigger] all[j], recs[i]) by {
            if j < a.len() {
                assert(all[j] == a[j]);
                let i = choose|i: int| 0 <= i < p.len() && names_observed_phase(#[trigger] a[j], p[i]);
                assert(recs[i] == p[i]);
            } else {
                assert(all[j] == b[j - a.len()]);
                assert(names_observed_phase(b[j - a.len()], recs[n]));
            }
        }
    }
}


fn copy_event(e: &SlipEvent) -> (r: SlipEvent)
    ensures
        event_view(r) == event_view(*e),
{
    let mut sigs: Vec<SignalCode> = Vec::new();
    let mut i: usize = 0;
    while i < e.signals.len()
        invariant
            i <= e.signals.len(),
            sigs@ == e.signals@.subrange(0, i as int),
        decreases e.signals.len() - i,
    {
        sigs.push(e.signals[i]);
        proof {
            assert(e.signals@.subrange(0, i + 1) =~= e.signals@.subrange(0, i as int).push(e.signals@[i as int]));
        }
        i = i + 1;
    }
    assert(e.signals@.subrange(0, e.signals.len() as int) =~= e.signals@);
    SlipEvent { satellite: e.satellite, epoch_ms: e.epoch_ms, method: e.method, signals: sigs }
}

/// The slips of a detection run in report order. `recs` lists the satellite-epochs in the
/// order in which they are examined and `outs[i]` says which differential tests of
/// `recs[i]` fired. Returns the slips sorted by epoch, satellite id and first signal
/// (a stable sort of `run_events`), and for each the index of the slip in `run_events`.
/// Every slip belongs to one of the satellite-epochs and names a carrier phase observed
/// there first.
pub fn detect_slips(
    recs: &Vec<SatEpoch>,
    outs: &Vec<TestOutcomes>,
    use_lli: bool,
    fcn_map: &Vec<(u32, i8)>,
) -> (r: (Vec<SlipEvent>, Vec<usize>))
    requires
        outs.len() == recs.len(),
    ensures
        r.0.len() == run_events(recs@, outs@, use_lli, fcn_map@).len(),
        is_stable_order(
            run_events(recs@, outs@, use_lli, fcn_map@).map_values(
                |e: (Satellite, i64, CycleSlipMethod, Seq<SignalCode>)| view_key(e),
            ),
            r.1@,
        ),
        forall|k: int|
            0 <= k < r.0.len() ==> event_view(#[trigger] r.0@[k]) == run_events(recs@, outs@, use_lli, fcn_map@)[r.1@[k] as int],
        forall|a: int, b: int|
            0 <= a < b < r.0.len() ==> !key_before(slip_key(#[trigger] r.0@[b]), slip_key(#[trigger] r.0@[a])),
        forall|k: int|
            0 <= k < r.0.len() ==> exists|i: int|
                0 <= i < recs.len() && names_observed_phase(event_view(#[trigger] r.0@[k]), recs@[i]),
{
    let ghost run = run_events(recs@, outs@, use_lli, fcn_map@);
    let mut planned: Vec<SlipEvent> = Vec::new();
    let mut i: usize = 0;
    while i < recs.len()
        invariant
            i <= recs.len(),
            outs.len() == recs.len(),
            planned.len() == run_events(recs@.subrange(0, i as int), outs@, use_lli, fcn_map@).len(),
            forall|k: int|
                0 <= k < planned.len() ==> event_view(#[trigger] planned@[k]) == run_events(
                    recs@.subrange(0, i as int),
                    outs@,
                    use_lli,
                    fcn_map@,
                )[k],
        decreases recs.len() - i,
    {
        let ghost before = planned@;
        let mut es = epoch_slips(&recs[i], &outs[i], use_lli, fcn_map);
        let ghost es0 = es@;
        planned.append(&mut es);
        proof {
            let sub = recs@.subrange(0, i + 1);
            assert(sub.drop_last() =~= recs@.subrange(0, i as int));
            assert(sub.last() == recs@[i as int]);
            assert(sub.len() - 1 == i);
            assert(planned@ == before + es0);
        }
        i = i + 1;
    }
    assert(recs@.subrange(0, recs.len() as int) =~= recs@);
    proof {
        law_run_slips_observed(recs@, outs@, use_lli, fcn_map@);
        assert forall|k: int| 0 <= k < planned.len() implies #[trigger] slip_key(planned@[k]) == view_key(run[k]) by {
            assert(event_view(planned@[k]) == run[k]);
        }
        assert(planned@.map_values(|e: SlipEvent| slip_key(e)) =~= run.map_values(
            |e: (Satellite, i64, CycleSlipMethod, Seq<SignalCode>)| view_key(e),
        ));
    }
    let p = report_order(&planned);
    let ghost keys = run.map_values(|e: (Satellite, i64, CycleSlipMethod, Seq<SignalCode>)| view_key(e));
    let mut out: Vec<SlipEvent> = Vec::new();
    let mut k: usize = 0;
    while k < p.len()
        invariant
            k <= p.len(),
            p.len() == planned.len(),
            planned.len() == run.len(),
            is_stable_order(keys, p@),
            forall|m: int| 0 <= m < planned.len() ==> event_view(#[trigger] planned@[m]) == run[m],
            out.len() == k,
            forall|m: int| 0 <= m < k ==> event_view(#[trigger] out@[m]) == run[p@[m] as int],
        decreases p.len() - k,
    {
        let j = p[k];
        let e = copy_event(&planned[j]);
        out.push(e);
        k = k + 1;
    }
    proof {
        assert forall|a: int, b: int| 0 <= a < b < out.len() implies !key_before(
            slip_key(#[trigger] out@[b]),
            slip_key(#[trigger] out@[a]),
        ) by {
            assert(event_view(out@[a]) == run[p@[a] as int]);
            assert(event_view(out@[b]) == run[p@[b] as int]);
            assert(slip_key(out@[a]) == keys[p@[a] as int]);
            assert(slip_key(out@[b]) == keys[p@[b] as int]);
        }
        assert forall|m: int| 0 <= m < out.len() implies exists|i: int|
            0 <= i < recs.len() && names_observed_phase(event_view(#[trigger] out@[m]), recs@[i]) by {
            assert(event_view(out@[m]) == run[p@[m] as int]);
        }
    }
    (out, p)
}

} // verus!
