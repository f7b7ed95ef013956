//! Cycle-slip events: loss-of-lock detection, the per-signal summary used to split
//! multipath arcs, and the report order of slips.
use vstd::prelude::*;
use crate::gnss::{code_text, sat_text, GnssSystem, ObservationType, Satellite, SignalCode};
use crate::order::{is_stable_order, key_view, stable_order};
use crate::text::str_chars;

verus! {

/// Cycle slip detection method
#[derive(Clone, Copy, Debug, PartialEq, Eq, Structural)]
pub enum CycleSlipMethod {
    /// Geometry-free (ionospheric residual) combination
    IonosphericRate,
    /// Code-phase combination
    CodePhase,
    /// Loss of lock indicator (LLI)
    LLI,
    /// Doppler consistency
    Doppler,
}

/// Short identifier of a detection method.
pub open spec fn method_name(m: CycleSlipMethod) -> Seq<char> {
    match m {
        CycleSlipMethod::IonosphericRate => seq!['g', 'f'],
        CycleSlipMethod::CodePhase => seq!['c', 'o', 'd', 'e', '_', 'p', 'h', 'a', 's', 'e'],
        CycleSlipMethod::LLI => seq!['l', 'l', 'i'],
        CycleSlipMethod::Doppler => seq!['d', 'o', 'p', 'p', 'l', 'e', 'r'],
    }
}

impl CycleSlipMethod {
    /// Short string identifier for reports/APIs
    pub fn as_str(&self) -> (r: &'static str)
        ensures
            r@ == method_name(*self),
    {
        match self {
            CycleSlipMethod::IonosphericRate => {
                proof {
                    reveal_strlit("gf");
                    assert("gf"@ =~= method_name(*self));
                }
                "gf"
            },
            CycleSlipMethod::CodePhase => {
                proof {
                    reveal_strlit("code_phase");
                    assert("code_phase"@ =~= method_name(*self));
                }
                "code_phase"
            },
            CycleSlipMethod::LLI => {
                proof {
                    reveal_strlit("lli");
                    assert("lli"@ =~= method_name(*self));
                }
                "lli"
            },
            CycleSlipMethod::Doppler => {
                proof {
                    reveal_strlit("doppler");
                    assert("doppler"@ =~= method_name(*self));
                }
                "doppler"
            },
        }
    }
}

/// A detected cycle slip: satellite, epoch (unix milliseconds), detection method and the
/// signals involved, the tested or affected phase first.
#[derive(Debug)]
pub struct SlipEvent {
    pub satellite: Satellite,
    pub epoch_ms: i64,
    pub method: CycleSlipMethod,
    pub signals: Vec<SignalCode>,
}

/// A loss-of-lock indicator reports a slip when its loss-of-lock bit (0) or its
/// half-cycle bit (1) is set.
pub open spec fn lli_reports_slip(lli: Option<u8>) -> bool {
    match lli {
        Some(f) => f % 4 != 0,
        None => false,
    }
}

/// A loss-of-lock indicator reports a slip exactly when its bit 0 (loss of lock) or its
/// bit 1 (half-cycle ambiguity) is set, whatever its higher bits hold; no indicator
/// reports nothing.
pub proof fn law_lli_low_bits(f: u8)
    ensures
        lli_reports_slip(Some(f)) <==> (f % 2 == 1 || (f / 2) % 2 == 1),
        lli_reports_slip(Some(f)) == lli_reports_slip(Some(f % 4)),
        !lli_reports_slip(None),
{
}

/// The phase observables whose loss-of-lock indicator reports a slip, in order.
pub open spec fn lli_hits(obs: Seq<(SignalCode, Option<u8>)>) -> Seq<SignalCode>
    decreases obs.len(),
{
    if obs.len() == 0 {
        Seq::empty()
    } else {
        let rest = lli_hits(obs.drop_last());
        let o = obs.last();
        if o.0.obs_type == ObservationType::Phase && lli_reports_slip(o.1) {
            rest.push(o.0)
        } else {
            rest
        }
    }
}

/// Loss-of-lock slips of one satellite at one epoch. Indicators are honoured on carrier
/// phases only: one event per phase observable (in the given order) whose indicator
/// reports a slip; indicators on other observables never produce an event.
pub fn lli_slips(sat: Satellite, epoch_ms: i64, obs: &Vec<(SignalCode, Option<u8>)>) -> (r: Vec<SlipEvent>)
    ensures
        r.len() == lli_hits(obs@).len(),
        forall|k: int|
            0 <= k < r.len() ==> {
                &&& (#[trigger] r@[k]).satellite == sat
                &&& r@[k].epoch_ms == epoch_ms
                &&& r@[k].method == CycleSlipMethod::LLI
                &&& r@[k].signals@ == seq![lli_hits(obs@)[k]]
            },
{
    let mut r: Vec<SlipEvent> = Vec::new();
    let mut i: usize = 0;
    while i < obs.len()
        invariant
            i <= obs.len(),
            r.len() == lli_hits(obs@.subrange(0, i as int)).len(),
            forall|k: int|
                0 <= k < r.len() ==> {
                    &&& (#[trigger] r@[k]).satellite == sat
                    &&& r@[k].epoch_ms == epoch_ms
                    &&& r@[k].method == CycleSlipMethod::LLI
                    &&& r@[k].signals@ == seq![lli_hits(obs@.subrange(0, i as int))[k]]
                },
        decreases obs.len() - i,
    {
        let (code, lli) = obs[i];
        proof {
            assert(obs@.subrange(0, i + 1).drop_last() =~= obs@.subrange(0, i as int));
            assert(obs@.subrange(0, i + 1).last() == obs@[i as int]);
        }
        let fires = match lli {
            Some(f) => f % 4 != 0,
            None => false,
        };
        if code.is_phase() && fires {
            let mut sigs: Vec<SignalCode> = Vec::new();
            sigs.push(code);
            r.push(SlipEvent { satellite: sat, epoch_ms, method: CycleSlipMethod::LLI, signals: sigs });
            assert(r@[r.len() - 1].signals@ =~= seq![code]);
        }
        i = i + 1;
    }
    assert(obs@.subrange(0, obs.len() as int) =~= obs@);
    r
}

/// Loss-of-lock indicators never raise a slip on a pseudorange, Doppler or signal-strength
/// observable: every reported signal is a carrier phase whose indicator is set.
pub proof fn law_lli_only_on_phase(obs: Seq<(SignalCode, Option<u8>)>)
    ensures
        forall|k: int|
            0 <= k < lli_hits(obs).len() ==> (#[trigger] lli_hits(obs)[k]).obs_type == ObservationType::Phase,
        forall|k: int|
            0 <= k < lli_hits(obs).len() ==> exists|i: int|
                0 <= i < obs.len() && obs[i].0 == #[trigger] lli_hits(obs)[k] && lli_reports_slip(obs[i].1),
    decreases obs.len(),
{
    if obs.len() > 0 {
        let p = obs.drop_last();
        law_lli_only_on_phase(p);
        assert forall|k: int| 0 <= k < lli_hits(obs).len() implies exists|i: int|
            0 <= i < obs.len() && obs[i].0 == #[trigger] lli_hits(obs)[k] && lli_reports_slip(obs[i].1) by {
            if k < lli_hits(p).len() {
                assert(lli_hits(obs)[k] == lli_hits(p)[k]);
                let i = choose|i: int| 0 <= i < p.len() && p[i].0 == #[trigger] lli_hits(p)[k] && lli_reports_slip(p[i].1);
                assert(obs[i] == p[i]);
            } else {
                assert(obs[obs.len() - 1].0 == lli_hits(obs)[k]);
            }
        }
    }
}

/// The first carrier phase of a signal list.
pub open spec fn first_phase(sigs: Seq<SignalCode>) -> Option<SignalCode>
    decreases sigs.len(),
{
    if sigs.len() == 0 {
        None
    } else if sigs[0].obs_type == ObservationType::Phase {
        Some(sigs[0])
    } else {
        first_phase(sigs.drop_first())
    }
}

/// Number of slips attributed to (`sys`, `code`): a slip is attributed once, to its first
/// phase signal, under its satellite's constellation.
pub open spec fn attributed(slips: Seq<SlipEvent>, sys: GnssSystem, code: SignalCode) -> nat
    decreases slips.len(),
{
    if slips.len() == 0 {
        0
    } else {
        let e = slips.last();
        attributed(slips.drop_last(), sys, code) + if e.satellite.system == sys && first_phase(
            e.signals@,
        ) == Some(code) {
            1nat
        } else {
            0nat
        }
    }
}

/// Number of slips that name at least one carrier phase.
pub open spec fn with_phase(slips: Seq<SlipEvent>) -> nat
    decreases slips.len(),
{
    if slips.len() == 0 {
        0
    } else {
        with_phase(slips.drop_last()) + if first_phase(slips.last().signals@) is Some {
            1nat
        } else {
            0nat
        }
    }
}

/// Whether some slip of `sat` at `epoch_ms` lists carrier phase `code`.
pub open spec fn marked(slips: Seq<SlipEvent>, sat: Satellite, code: SignalCode, epoch_ms: i64) -> bool {
    &&& code.obs_type == ObservationType::Phase
    &&& exists|i: int, j: int|
        0 <= i < slips.len() && 0 <= j < slips[i].signals@.len() && (#[trigger] slips[i]).satellite
            == sat && slips[i].epoch_ms == epoch_ms && #[trigger] slips[i].signals@[j] == code
}

/// A slip marks only its own satellite, at its own epoch, on the carrier phases it lists:
/// `marked` holds exactly when some slip of that very satellite (same constellation and
/// same PRN) at that epoch lists the phase.
pub proof fn law_slip_marks_own_satellite(slips: Seq<SlipEvent>, sat: Satellite, code: SignalCode, epoch_ms: i64)
    ensures
        marked(slips, sat, code, epoch_ms) <==> code.obs_type == ObservationType::Phase && exists|i: int|
            0 <= i < slips.len() && (#[trigger] slips[i]).satellite == sat && slips[i].epoch_ms == epoch_ms
                && slips[i].signals@.contains(code),
{
    if marked(slips, sat, code, epoch_ms) {
        let (i, j) = choose|i: int, j: int|
            0 <= i < slips.len() && 0 <= j < slips[i].signals@.len() && (#[trigger] slips[i]).satellite
                == sat && slips[i].epoch_ms == epoch_ms && #[trigger] slips[i].signals@[j] == code;
        assert(slips[i].signals@.contains(code));
    }
    if code.obs_type == ObservationType::Phase && exists|i: int|
        0 <= i < slips.len() && (#[trigger] slips[i]).satellite == sat && slips[i].epoch_ms == epoch_ms
            && slips[i].signals@.contains(code) {
        let i = choose|i: int|
            0 <= i < slips.len() && (#[trigger] slips[i]).satellite == sat && slips[i].epoch_ms == epoch_ms
                && slips[i].signals@.contains(code);
        let j = choose|j: int| 0 <= j < slips[i].signals@.len() && slips[i].signals@[j] == code;
        assert(slips[i].signals@[j] == code);
    }
}

/// Sum of the counts of a count table.
pub open spec fn count_total(counts: Seq<(GnssSystem, SignalCode, usize)>) -> nat
    decreases counts.len(),
{
    if counts.len() == 0 {
        0
    } else {
        count_total(counts.drop_last()) + counts.last().2 as nat
    }
}

/// The count of a key in a count table (0 when absent).
pub open spec fn count_of(counts: Seq<(GnssSystem, SignalCode, usize)>, sys: GnssSystem, code: SignalCode) -> nat
    decreases counts.len(),
{
    if counts.len() == 0 {
        0
    } else {
        count_of(counts.drop_last(), sys, code) + if counts.last().0 == sys && counts.last().1
            == code {
            counts.last().2 as nat
        } else {
            0nat
        }
    }
}

/// Slips of a detection run with the per-signal slip counts.
pub struct SlipSummary {
    slips: Vec<SlipEvent>,
    counts: Vec<(GnssSystem, SignalCode, usize)>,
}

/// The first phase of a signal list, computed.
fn first_phase_of(sigs: &Vec<SignalCode>) -> (r: Option<SignalCode>)
    ensures
        r == first_phase(sigs@),
{
    let mut i: usize = 0;
    assert(sigs@.skip(0) =~= sigs@);
    while i < sigs.len()
        invariant
            i <= sigs.len(),
            first_phase(sigs@) == first_phase(sigs@.skip(i as int)),
        decreases sigs.len() - i,
    {
        assert(sigs@.skip(i as int)[0] == sigs@[i as int]);
        if sigs[i].is_phase() {
            return Some(sigs[i]);
        }
        assert(sigs@.skip(i as int).drop_first() =~= sigs@.skip(i + 1));
        i = i + 1;
    }
    None
}

proof fn lemma_count_of_push(
    counts: Seq<(GnssSystem, SignalCode, usize)>,
    e: (GnssSystem, SignalCode, usize),
    sys: GnssSystem,
    code: SignalCode,
)
    ensures
        count_of(counts.push(e), sys, code) == count_of(counts, sys, code) + if e.0 == sys && e.1
            == code {
            e.2 as nat
        } else {
            0nat
        },
        count_total(counts.push(e)) == count_total(counts) + e.2,
{
    assert(counts.push(e).drop_last() =~= counts);
}

/// Updating the count at one index changes the total and that key's count by one.
proof fn lemma_count_bump(counts: Seq<(GnssSystem, SignalCode, usize)>, k: int, sys: GnssSystem, code: SignalCode)
    requires
        0 <= k < counts.len(),
        counts[k].2 < usize::MAX,
    ensures
        ({
            let e = counts[k];
            let c2 = counts.update(k, (e.0, e.1, (e.2 + 1) as usize));
            &&& count_total(c2) == count_total(counts) + 1
            &&& count_of(c2, sys, code) == count_of(counts, sys, code) + if e.0 == sys && e.1
                == code {
                1nat
            } else {
                0nat
            }
        }),
    decreases counts.len(),
{
    let e = counts[k];
    let c2 = counts.update(k, (e.0, e.1, (e.2 + 1) as usize));
    if k == counts.len() - 1 {
        assert(c2.drop_last() =~= counts.drop_last());
    } else {
        lemma_count_bump(counts.drop_last(), k, sys, code);
        assert(c2.drop_last() =~= counts.drop_last().update(k, (e.0, e.1, (e.2 + 1) as usize)));
    }
}

/// In a table with distinct keys, the entry at `k` holds the whole count of its key.
proof fn lemma_count_of_distinct(counts: Seq<(GnssSystem, SignalCode, usize)>, k: int)
    requires
        0 <= k < counts.len(),
        forall|a: int, b: int|
            0 <= a < b < counts.len() ==> !((#[trigger] counts[a]).0 == (#[trigger] counts[b]).0
                && counts[a].1 == counts[b].1),
    ensures
        count_of(counts, counts[k].0, counts[k].1) == counts[k].2,
    decreases counts.len(),
{
    let n = counts.len();
    if k == n - 1 {
        lemma_count_of_absent(counts.drop_last(), counts[k].0, counts[k].1);
    } else {
        lemma_count_of_distinct(counts.drop_last(), k);
        assert(!(counts[k].0 == counts[n - 1].0 && counts[k].1 == counts[n - 1].1));
    }
}

/// A key that no entry has counts 0.
proof fn lemma_count_of_absent(counts: Seq<(GnssSystem, SignalCode, usize)>, sys: GnssSystem, code: SignalCode)
    requires
        forall|a: int| 0 <= a < counts.len() ==> !((#[trigger] counts[a]).0 == sys && counts[a].1 == code),
    ensures
        count_of(counts, sys, code) == 0,
    decreases counts.len(),
{
    if counts.len() > 0 {
        lemma_count_of_absent(counts.drop_last(), sys, code);
    }
}

impl SlipSummary {
    /// The slips, in the order given to `summarize`.
    pub closed spec fn events(&self) -> Seq<SlipEvent> {
        self.slips@
    }

    /// The per-signal count table.
    pub closed spec fn count_table(&self) -> Seq<(GnssSystem, SignalCode, usize)> {
        self.counts@
    }

    /// Internal consistency: the count table has distinct keys, positive counts, and holds
    /// exactly the attribution of the slips.
    pub closed spec fn wf(&self) -> bool {
        &&& forall|a: int, b: int|
            0 <= a < b < self.counts@.len() ==> !((#[trigger] self.counts@[a]).0 == (
            #[trigger] self.counts@[b]).0 && self.counts@[a].1 == self.counts@[b].1)
        &&& forall|a: int| 0 <= a < self.counts@.len() ==> (#[trigger] self.counts@[a]).2 > 0
        &&& forall|sys: GnssSystem, code: SignalCode|
            #![trigger count_of(self.counts@, sys, code)]
            count_of(self.counts@, sys, code) == attributed(self.slips@, sys, code)
        &&& count_total(self.counts@) == with_phase(self.slips@)
    }

    /// A summary of no slips (used when detection is switched off).
    pub fn empty() -> (s: SlipSummary)
        ensures
            s.wf(),
            s.events() == Seq::<SlipEvent>::empty(),
    {
        SlipSummary { slips: Vec::new(), counts: Vec::new() }
    }

    /// Builds the summary of a detection run: each slip is counted once, under its
    /// satellite's constellation and its first phase signal; slips without a phase signal
    /// are kept but not counted.
    pub fn summarize(slips: Vec<SlipEvent>) -> (s: SlipSummary)
        ensures
            s.wf(),
            s.events() == slips@,
    {
        let mut counts: Vec<(GnssSystem, SignalCode, usize)> = Vec::new();
        let mut i: usize = 0;
        while i < slips.len()
            invariant
                i <= slips.len(),
                forall|a: int, b: int|
                    0 <= a < b < counts@.len() ==> !((#[trigger] counts@[a]).0 == (
                    #[trigger] counts@[b]).0 && counts@[a].1 == counts@[b].1),
                forall|a: int| 0 <= a < counts@.len() ==> (#[trigger] counts@[a]).2 > 0,
                forall|a: int| 0 <= a < counts@.len() ==> (#[trigger] counts@[a]).2 <= i,
                forall|sys: GnssSystem, code: SignalCode|
                    #![trigger count_of(counts@, sys, code)]
                    count_of(counts@, sys, code) == attributed(
                        slips@.subrange(0, i as int),
                        sys,
                        code,
                    ),
                count_total(counts@) == with_phase(slips@.subrange(0, i as int)),
            decreases slips.len() - i,
        {
            let ghost pre = counts@;
            let ghost sub = slips@.subrange(0, i + 1);
            proof {
                assert(sub.drop_last() =~= slips@.subrange(0, i as int));
                assert(sub.last() == slips@[i as int]);
            }
            let sys = slips[i].satellite.system;
            match first_phase_of(&slips[i].signals) {
                None => {},
                Some(code) => {
                    let mut k: usize = 0;
                    while k < counts.len() && !(counts[k].0 == sys && counts[k].1 == code)
                        invariant
                            k <= counts.len(),
                            counts@ == pre,
                            forall|a: int| 0 <= a < k ==> !((#[trigger] pre[a]).0 == sys && pre[a].1 == code),
                        decreases counts.len() - k,
                    {
                        k = k + 1;
                    }
                    if k < counts.len() {
                        assert(k < counts.len() && pre[k as int].0 == sys && pre[k as int].1 == code);
                        let c = counts[k].2;
                        assert(c <= i);
                        counts.set(k, (sys, code, c + 1));
                        proof {
                            assert forall|s2: GnssSystem, c2: SignalCode| #[trigger] count_of(counts@, s2, c2) == attributed(sub, s2, c2) by {
                                lemma_count_bump(pre, k as int, s2, c2);
                                assert(counts@ =~= pre.update(k as int, (pre[k as int].0, pre[k as int].1, (pre[k as int].2 + 1) as usize)));
                            }
                            lemma_count_bump(pre, k as int, sys, code);
                            assert(counts@ =~= pre.update(k as int, (pre[k as int].0, pre[k as int].1, (pre[k as int].2 + 1) as usize)));
                        }
                    } else {
                        counts.push((sys, code, 1));
                        proof {
                            assert forall|s2: GnssSystem, c2: SignalCode| #[trigger] count_of(counts@, s2, c2) == attributed(sub, s2, c2) by {
                                lemma_count_of_push(pre, (sys, code, 1usize), s2, c2);
                            }
                            lemma_count_of_push(pre, (sys, code, 1usize), sys, code);
                        }
                    }
                },
            }
            i = i + 1;
        }
        assert(slips@.subrange(0, slips.len() as int) =~= slips@);
        SlipSummary { slips, counts }
    }

    /// True if (sat, phase code) has a slip at the given epoch
    pub fn has_slip(&self, sat: &Satellite, code: &SignalCode, epoch_ms: i64) -> (r: bool)
        ensures
            r == marked(self.events(), *sat, *code, epoch_ms),
            r <==> code.obs_type == ObservationType::Phase && exists|i: int|
                0 <= i < self.events().len() && (#[trigger] self.events()[i]).satellite == *sat
                    && self.events()[i].epoch_ms == epoch_ms && self.events()[i].signals@.contains(*code),
    {
        proof {
            law_slip_marks_own_satellite(self.events(), *sat, *code, epoch_ms);
        }
        if !code.is_phase() {
            return false;
        }
        let mut i: usize = 0;
        while i < self.slips.len()
            invariant
                i <= self.slips.len(),
                code.obs_type == ObservationType::Phase,
                forall|a: int, j: int|
                    0 <= a < i && 0 <= j < self.slips@[a].signals@.len() ==> !((
                    #[trigger] self.slips@[a]).satellite == *sat && self.slips@[a].epoch_ms
                        == epoch_ms && #[trigger] self.slips@[a].signals@[j] == *code),
            decreases self.slips.len() - i,
        {
            let e = &self.slips[i];
            if e.satellite == *sat && e.epoch_ms == epoch_ms {
                assert(self.slips@[i as int].satellite == *sat);
                assert(self.slips@[i as int].epoch_ms == epoch_ms);
                let mut j: usize = 0;
                while j < e.signals.len()
                    invariant
                        j <= e.signals.len(),
                        i < self.slips.len(),
                        code.obs_type == ObservationType::Phase,
                        self.slips@[i as int].satellite == *sat,
                        self.slips@[i as int].epoch_ms == epoch_ms,
                        e.signals@ == self.slips@[i as int].signals@,
                        forall|b: int| 0 <= b < j ==> e.signals@[b] != *code,
                    decreases e.signals.len() - j,
                {
                    if e.signals[j] == *code {
                        assert(self.slips@[i as int].signals@[j as int] == *code);
                        assert(self.slips@[i as int].satellite == *sat);
                        assert(self.slips@[i as int].epoch_ms == epoch_ms);
                        assert(exists|a: int, b: int|
                            0 <= a < self.slips@.len() && 0 <= b < self.slips@[a].signals@.len() && (#[trigger] self.slips@[a]).satellite
                                == *sat && self.slips@[a].epoch_ms == epoch_ms && #[trigger] self.slips@[a].signals@[b] == *code);
                        return true;
                    }
                    j = j + 1;
                }
            }
            i = i + 1;
        }
        false
    }

    /// Number of slips attributed to (`sys`, phase `code`).
    pub fn slip_count(&self, sys: GnssSystem, code: &SignalCode) -> (r: usize)
        requires
            self.wf(),
        ensures
            r == attributed(self.events(), sys, *code),
    {
        let mut k: usize = 0;
        while k < self.counts.len()
            invariant
                k <= self.counts.len(),
                self.wf(),
                forall|a: int| 0 <= a < k ==> !((#[trigger] self.counts@[a]).0 == sys && self.counts@[a].1 == *code),
            decreases self.counts.len() - k,
        {
            if self.counts[k].0 == sys && self.counts[k].1 == *code {
                proof {
                    lemma_count_of_distinct(self.counts@, k as int);
                    assert(count_of(self.counts@, sys, *code) == attributed(self.slips@, sys, *code));
                }
                return self.counts[k].2;
            }
            k = k + 1;
        }
        proof {
            lemma_count_of_absent(self.counts@, sys, *code);
            assert(count_of(self.counts@, sys, *code) == attributed(self.slips@, sys, *code));
        }
        0
    }

    /// The count table: one entry per (constellation, phase signal) with at least one
    /// attributed slip, holding its number of slips.
    pub fn signal_counts(&self) -> (r: &Vec<(GnssSystem, SignalCode, usize)>)
        requires
            self.wf(),
        ensures
            r@ == self.count_table(),
            forall|a: int|
                0 <= a < r@.len() ==> (#[trigger] r@[a]).2 == attributed(self.events(), r@[a].0, r@[a].1)
                    && r@[a].2 > 0,
            forall|a: int, b: int|
                0 <= a < b < r@.len() ==> !((#[trigger] r@[a]).0 == (#[trigger] r@[b]).0 && r@[a].1
                    == r@[b].1),
            forall|sys: GnssSystem, code: SignalCode|
                attributed(self.events(), sys, code) > 0 ==> exists|a: int|
                    0 <= a < r@.len() && (#[trigger] r@[a]).0 == sys && r@[a].1 == code,
    {
        proof {
            assert forall|a: int| 0 <= a < self.counts@.len() implies (#[trigger] self.counts@[a]).2
                == attributed(self.slips@, self.counts@[a].0, self.counts@[a].1) by {
                lemma_count_of_distinct(self.counts@, a);
                assert(count_of(self.counts@, self.counts@[a].0, self.counts@[a].1) == attributed(self.slips@, self.counts@[a].0, self.counts@[a].1));
            }
            assert forall|sys: GnssSystem, code: SignalCode|
                attributed(self.slips@, sys, code) > 0 implies exists|a: int|
                    0 <= a < self.counts@.len() && (#[trigger] self.counts@[a]).0 == sys && self.counts@[a].1 == code by {
                assert(count_of(self.counts@, sys, code) == attributed(self.slips@, sys, code));
                if !exists|a: int|
                    0 <= a < self.counts@.len() && (#[trigger] self.counts@[a]).0 == sys && self.counts@[a].1 == code {
                    lemma_count_of_absent(self.counts@, sys, code);
                }
            }
        }
        &self.counts
    }

    /// The slips of the run.
    pub fn slips(&self) -> (r: &Vec<SlipEvent>)
        ensures
            r@ == self.events(),
    {
        &self.slips
    }
}

proof fn lemma_first_phase_listed(sigs: Seq<SignalCode>)
    ensures
        first_phase(sigs) matches Some(c) ==> c.obs_type == ObservationType::Phase && exists|j: int|
            0 <= j < sigs.len() && sigs[j] == c,
    decreases sigs.len(),
{
    if sigs.len() > 0 && sigs[0].obs_type != ObservationType::Phase {
        lemma_first_phase_listed(sigs.drop_first());
        if first_phase(sigs.drop_first()) is Some {
            let c = first_phase(sigs.drop_first()).unwrap();
            let j = choose|j: int| 0 <= j < sigs.drop_first().len() && sigs.drop_first()[j] == c;
            assert(sigs[j + 1] == c);
        }
    } else if sigs.len() > 0 {
        assert(sigs[0] == sigs[0]);
    }
}

/// A signal with counted slips is also flagged in the slip index: some satellite of that
/// constellation has a slip on that phase at some epoch.
pub proof fn law_counted_slips_are_indexed(slips: Seq<SlipEvent>, sys: GnssSystem, code: SignalCode)
    requires
        attributed(slips, sys, code) > 0,
    ensures
        exists|sat: Satellite, t: i64| sat.system == sys && #[trigger] marked(slips, sat, code, t),
    decreases slips.len(),
{
    let n = slips.len() - 1;
    let e = slips[n as int];
    if e.satellite.system == sys && first_phase(e.signals@) == Some(code) {
        lemma_first_phase_listed(e.signals@);
        let j = choose|j: int| 0 <= j < e.signals@.len() && e.signals@[j] == code;
        assert(slips[n as int].signals@[j] == code);
        assert(marked(slips, e.satellite, code, e.epoch_ms));
    } else {
        let p = slips.drop_last();
        law_counted_slips_are_indexed(p, sys, code);
        let (sat, t) = choose|sat: Satellite, t: i64| sat.system == sys && #[trigger] marked(p, sat, code, t);
        let (a, b) = choose|a: int, b: int|
            0 <= a < p.len() && 0 <= b < p[a].signals@.len() && (#[trigger] p[a]).satellite == sat
                && p[a].epoch_ms == t && #[trigger] p[a].signals@[b] == code;
        assert(slips[a] == p[a]);
        assert(slips[a].signals@[b] == code);
        assert(marked(slips, sat, code, t));
    }
}

/// Every slip that names a carrier phase is counted exactly once: the counts of the
/// per-signal table add up to the number of such slips.
pub proof fn law_each_slip_counted_once(s: &SlipSummary)
    requires
        s.wf(),
    ensures
        count_total(s.count_table()) == with_phase(s.events()),
{
}

/// Text of the first signal of a slip (empty when it lists none).
pub open spec fn first_text(e: SlipEvent) -> Seq<char> {
    if e.signals@.len() == 0 {
        Seq::empty()
    } else {
        code_text(e.signals@[0])
    }
}

/// The sort key of a slip: epoch, satellite id, text of its first signal.
pub open spec fn slip_key(e: SlipEvent) -> (int, Seq<char>, Seq<char>) {
    (e.epoch_ms as int, sat_text(e.satellite), first_text(e))
}

/// `p` lists the indices of `s` each once, in report order, and slips with equal keys
/// keep the relative order they had.
pub open spec fn is_report_order(s: Seq<SlipEvent>, p: Seq<usize>) -> bool {
    is_stable_order(s.map_values(|e: SlipEvent| slip_key(e)), p)
}

/// Exec sort key of one slip.
fn key_of(e: &SlipEvent) -> (r: (i64, Vec<char>, Vec<char>))
    ensures
        key_view(r) == slip_key(*e),
{
    let sat = e.satellite.to_string();
    let sc = str_chars(sat.as_str());
    let fc = if e.signals.len() == 0 {
        Vec::new()
    } else {
        let t = e.signals[0].to_string();
        str_chars(t.as_str())
    };
    (e.epoch_ms, sc, fc)
}

/// The order in which slips are reported: a stable sort by epoch, satellite id and first
/// signal. Returns the permutation of indices; `slips[r[0]]` comes first.
pub fn report_order(slips: &Vec<SlipEvent>) -> (r: Vec<usize>)
    ensures
        is_report_order(slips@, r@),
{
    let n = slips.len();
    let mut keys: Vec<(i64, Vec<char>, Vec<char>)> = Vec::new();
    let mut i: usize = 0;
    while i < n
        invariant
            n == slips.len(),
            i <= n,
            keys.len() == i,
            forall|k: int| 0 <= k < i ==> key_view(#[trigger] keys@[k]) == slip_key(slips@[k]),
        decreases n - i,
    {
        let k = key_of(&slips[i]);
        keys.push(k);
        i = i + 1;
    }
    let r = stable_order(&keys);
    assert(keys@.map_values(|k: (i64, Vec<char>, Vec<char>)| key_view(k)) =~= slips@.map_values(|e: SlipEvent| slip_key(e)));
    r
}

} // verus!
