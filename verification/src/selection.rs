//! Choice of the carrier phases that enter a combination.
//!
//! An inventory lists the observables seen for one satellite with how often each was
//! observed. Among the observables of one kind on one band the preferred one is the
//! first with the smallest key (attribute match first when a preferred attribute is
//! given, then the larger count, then the alphabetically first attribute).
use vstd::prelude::*;
use crate::gnss::{GnssSystem, ObservationType, SignalCode};
use crate::freq::{freq_of, frequency_hz, partner_bands, partner_list, separated, well_separated};

verus! {

/// Lexicographic strict order on key triples.
pub open spec fn key_lt(a: (int, int, int), b: (int, int, int)) -> bool {
    a.0 < b.0 || (a.0 == b.0 && (a.1 < b.1 || (a.1 == b.1 && a.2 < b.2)))
}

/// Key of an inventory entry: attribute mismatch (when an attribute is preferred),
/// negated count, attribute code point.
pub open spec fn entry_key(e: (SignalCode, usize), pref: Option<char>) -> (int, int, int) {
    (
        match pref {
            Some(a) => if e.0.attribute == a { 0 } else { 1 },
            None => 0,
        },
        -(e.1 as int),
        (e.0.attribute as u32) as int,
    )
}

/// Whether an inventory entry is an observable of `kind` on `band`.
pub open spec fn is_kind_on_band(e: (SignalCode, usize), kind: ObservationType, band: u8) -> bool {
    e.0.obs_type == kind && e.0.band == band
}

/// Whether the inventory holds an observable of `kind` on `band`.
pub open spec fn has_kind_on_band(inv: Seq<(SignalCode, usize)>, kind: ObservationType, band: u8) -> bool {
    exists|i: int| 0 <= i < inv.len() && is_kind_on_band(#[trigger] inv[i], kind, band)
}

/// `i` is the preferred entry of `kind` on `band` among the first `n` entries: a
/// candidate with no candidate of smaller key, and no earlier candidate of equal key.
pub open spec fn is_preferred(
    inv: Seq<(SignalCode, usize)>,
    n: int,
    kind: ObservationType,
    band: u8,
    pref: Option<char>,
    i: int,
) -> bool {
    &&& 0 <= i < n
    &&& is_kind_on_band(inv[i], kind, band)
    &&& forall|j: int|
        0 <= j < n && is_kind_on_band(#[trigger] inv[j], kind, band) ==> !key_lt(
            entry_key(inv[j], pref),
            entry_key(inv[i], pref),
        ) && (entry_key(inv[j], pref) == entry_key(inv[i], pref) ==> i <= j)
}

/// The preferred entry of `kind` on `band`, if the inventory has one.
pub open spec fn preferred(
    inv: Seq<(SignalCode, usize)>,
    kind: ObservationType,
    band: u8,
    pref: Option<char>,
) -> Option<int> {
    if exists|i: int| #[trigger] is_preferred(inv, inv.len() as int, kind, band, pref, i) {
        Some(choose|i: int| #[trigger] is_preferred(inv, inv.len() as int, kind, band, pref, i))
    } else {
        None
    }
}

/// At most one entry is preferred.
pub proof fn lemma_preferred_unique(
    inv: Seq<(SignalCode, usize)>,
    n: int,
    kind: ObservationType,
    band: u8,
    pref: Option<char>,
    i: int,
    j: int,
)
    requires
        is_preferred(inv, n, kind, band, pref, i),
        is_preferred(inv, n, kind, band, pref, j),
    ensures
        i == j,
{
    assert(is_kind_on_band(inv[j], kind, band));
    assert(is_kind_on_band(inv[i], kind, band));
}

/// An inventory that holds a candidate has a preferred one.
proof fn lemma_preferred_exists(
    inv: Seq<(SignalCode, usize)>,
    n: int,
    kind: ObservationType,
    band: u8,
    pref: Option<char>,
)
    requires
        0 <= n <= inv.len(),
        exists|i: int| 0 <= i < n && is_kind_on_band(#[trigger] inv[i], kind, band),
    ensures
        exists|i: int| #[trigger] is_preferred(inv, n, kind, band, pref, i),
    decreases n,
{
    let k = choose|i: int| 0 <= i < n && is_kind_on_band(#[trigger] inv[i], kind, band);
    if exists|i: int| 0 <= i < n - 1 && is_kind_on_band(#[trigger] inv[i], kind, band) {
        lemma_preferred_exists(inv, n - 1, kind, band, pref);
        let b = choose|i: int| #[trigger] is_preferred(inv, n - 1, kind, band, pref, i);
        if is_kind_on_band(inv[n - 1], kind, band) && key_lt(
            entry_key(inv[n - 1], pref),
            entry_key(inv[b], pref),
        ) {
            assert(is_preferred(inv, n, kind, band, pref, n - 1));
        } else {
            assert(is_preferred(inv, n, kind, band, pref, b));
        }
    } else {
        assert(k == n - 1);
        assert(is_preferred(inv, n, kind, band, pref, n - 1));
    }
}

/// Whether `e` has a strictly smaller key than `f`.
fn key_before(e: &(SignalCode, usize), f: &(SignalCode, usize), pref: Option<char>) -> (r: bool)
    ensures
        r == key_lt(entry_key(*e, pref), entry_key(*f, pref)),
{
    let (me, mf): (u8, u8) = match pref {
        Some(a) => (
            if e.0.attribute == a {
                0
            } else {
                1
            },
            if f.0.attribute == a {
                0
            } else {
                1
            },
        ),
        None => (0, 0),
    };
    let ae = e.0.attribute as u32;
    let af = f.0.attribute as u32;
    me < mf || (me == mf && (e.1 > f.1 || (e.1 == f.1 && ae < af)))
}

/// Index of the preferred observable of `kind` on `band` (see `is_preferred`).
pub fn preferred_index(
    inv: &Vec<(SignalCode, usize)>,
    kind: ObservationType,
    band: u8,
    pref: Option<char>,
) -> (r: Option<usize>)
    ensures
        r matches Some(i) ==> is_preferred(inv@, inv@.len() as int, kind, band, pref, i as int),
        r matches Some(i) ==> preferred(inv@, kind, band, pref) == Some(i as int),
        r is None ==> !has_kind_on_band(inv@, kind, band),
        r is None ==> preferred(inv@, kind, band, pref) is None,
{
    let mut best: Option<usize> = None;
    let mut j: usize = 0;
    while j < inv.len()
        invariant
            j <= inv.len(),
            best matches Some(b) ==> is_preferred(inv@, j as int, kind, band, pref, b as int),
            best is None ==> forall|k: int|
                0 <= k < j ==> !is_kind_on_band(#[trigger] inv@[k], kind, band),
        decreases inv.len() - j,
    {
        let e = &inv[j];
        if e.0.obs_type == kind && e.0.band == band {
            match best {
                None => {
                    best = Some(j);
                },
                Some(b) => {
                    if key_before(e, &inv[b], pref) {
                        best = Some(j);
                    }
                },
            }
        }
        j = j + 1;
    }
    match best {
        Some(b) => {
            proof {
                let n = inv@.len() as int;
                assert(exists|i: int| #[trigger] is_preferred(inv@, n, kind, band, pref, i));
                let c = choose|i: int| #[trigger] is_preferred(inv@, n, kind, band, pref, i);
                lemma_preferred_unique(inv@, n, kind, band, pref, b as int, c);
            }
        },
        None => {
            proof {
                if exists|i: int| #[trigger] is_preferred(inv@, inv@.len() as int, kind, band, pref, i) {
                    let c = choose|i: int| #[trigger] is_preferred(inv@, inv@.len() as int, kind, band, pref, i);
                    assert(is_kind_on_band(inv@[c], kind, band));
                }
            }
        },
    }
    best
}

/// A band can partner `own_band` (at frequency `f1`): another band of the constellation
/// with a known frequency far enough from `f1`, on which the inventory holds a phase.
pub open spec fn partner_ok(
    sys: GnssSystem,
    fcn: Option<i8>,
    own_band: u8,
    f1: int,
    inv: Seq<(SignalCode, usize)>,
    b: u8,
) -> bool {
    &&& b != own_band
    &&& freq_of(sys, b, fcn) is Some
    &&& well_separated(f1, freq_of(sys, b, fcn).unwrap())
    &&& has_kind_on_band(inv, ObservationType::Phase, b)
}

/// The first band of `bands` that can partner `own_band`.
pub open spec fn first_partner(
    sys: GnssSystem,
    fcn: Option<i8>,
    own_band: u8,
    f1: int,
    inv: Seq<(SignalCode, usize)>,
    bands: Seq<u8>,
) -> Option<u8>
    decreases bands.len(),
{
    if bands.len() == 0 {
        None
    } else if partner_ok(sys, fcn, own_band, f1, inv, bands[0]) {
        Some(bands[0])
    } else {
        first_partner(sys, fcn, own_band, f1, inv, bands.drop_first())
    }
}

/// The partner band for `own_band`, tried in the constellation's priority order.
fn find_partner(
    sys: GnssSystem,
    fcn: Option<i8>,
    own_band: u8,
    f1: u64,
    inv: &Vec<(SignalCode, usize)>,
) -> (r: Option<u8>)
    ensures
        r == first_partner(sys, fcn, own_band, f1 as int, inv@, partner_list(sys)),
{
    let bands = partner_bands(sys);
    let mut i: usize = 0;
    assert(bands@.skip(0) =~= bands@);
    while i < bands.len()
        invariant
            i <= bands.len(),
            bands@ == partner_list(sys),
            first_partner(sys, fcn, own_band, f1 as int, inv@, partner_list(sys))
                == first_partner(sys, fcn, own_band, f1 as int, inv@, bands@.skip(i as int)),
        decreases bands.len() - i,
    {
        let b = bands[i];
        assert(bands@.skip(i as int)[0] == b);
        assert(bands@.skip(i as int).drop_first() =~= bands@.skip(i + 1));
        if b != own_band {
            match frequency_hz(sys, b, fcn) {
                Some(f2) => {
                    if separated(f1, f2) {
                        if preferred_index(inv, ObservationType::Phase, b, None).is_some() {
                            return Some(b);
                        }
                    }
                },
                None => {},
            }
        }
        i = i + 1;
    }
    None
}

/// The phase pair of a code-multipath combination for `code`: the preferred phase on the
/// code's own band (same attribute first, then most observed, then alphabetical) and the
/// preferred phase (most observed, then alphabetical) on the first partner band.
pub open spec fn phase_pair(
    sys: GnssSystem,
    fcn: Option<i8>,
    code: SignalCode,
    inv: Seq<(SignalCode, usize)>,
) -> Option<(SignalCode, SignalCode)> {
    match freq_of(sys, code.band, fcn) {
        None => None,
        Some(f1) => match preferred(inv, ObservationType::Phase, code.band, Some(code.attribute)) {
            None => None,
            Some(i) => match first_partner(sys, fcn, code.band, f1, inv, partner_list(sys)) {
                None => None,
                Some(b) => match preferred(inv, ObservationType::Phase, b, None) {
                    None => None,
                    Some(j) => Some((inv[i].0, inv[j].0)),
                },
            },
        },
    }
}

/// Chooses the two carrier phases for the multipath combination of `code` (see `phase_pair`).
pub fn select_phases(
    sys: GnssSystem,
    fcn: Option<i8>,
    code: &SignalCode,
    inv: &Vec<(SignalCode, usize)>,
) -> (r: Option<(SignalCode, SignalCode)>)
    ensures
        r == phase_pair(sys, fcn, *code, inv@),
{
    let f1 = match frequency_hz(sys, code.band, fcn) {
        Some(f) => f,
        None => return None,
    };
    let i = match preferred_index(inv, ObservationType::Phase, code.band, Some(code.attribute)) {
        Some(i) => i,
        None => return None,
    };
    let b = match find_partner(sys, fcn, code.band, f1, inv) {
        Some(b) => b,
        None => return None,
    };
    proof {
        lemma_first_partner_ok(sys, fcn, code.band, f1 as int, inv@, partner_list(sys));
    }
    let j = match preferred_index(inv, ObservationType::Phase, b, None) {
        Some(j) => j,
        None => return None,
    };
    Some((inv[i].0, inv[j].0))
}

/// A band returned by `first_partner` satisfies `partner_ok`.
pub proof fn lemma_first_partner_ok(
    sys: GnssSystem,
    fcn: Option<i8>,
    own_band: u8,
    f1: int,
    inv: Seq<(SignalCode, usize)>,
    bands: Seq<u8>,
)
    ensures
        first_partner(sys, fcn, own_band, f1, inv, bands) matches Some(b) ==> partner_ok(
            sys,
            fcn,
            own_band,
            f1,
            inv,
            b,
        ) && bands.contains(b),
    decreases bands.len(),
{
    if bands.len() > 0 && !partner_ok(sys, fcn, own_band, f1, inv, bands[0]) {
        lemma_first_partner_ok(sys, fcn, own_band, f1, inv, bands.drop_first());
        if first_partner(sys, fcn, own_band, f1, inv, bands.drop_first()) is Some {
            let b = first_partner(sys, fcn, own_band, f1, inv, bands.drop_first()).unwrap();
            let k = choose|k: int| 0 <= k < bands.drop_first().len() && bands.drop_first()[k] == b;
            assert(bands[k + 1] == b);
        }
    } else if bands.len() > 0 {
        assert(bands[0] == bands[0]);
    }
}

/// An inventory in which every observable counts the same: the preference among
/// observables of one band then goes by attribute alone.
pub open spec fn uncounted(codes: Seq<SignalCode>) -> Seq<(SignalCode, usize)> {
    codes.map_values(|c: SignalCode| (c, 0usize))
}

fn uncounted_vec(codes: &Vec<SignalCode>) -> (r: Vec<(SignalCode, usize)>)
    ensures
        r@ == uncounted(codes@),
{
    let mut r: Vec<(SignalCode, usize)> = Vec::new();
    let mut i: usize = 0;
    while i < codes.len()
        invariant
            i <= codes.len(),
            r@ == uncounted(codes@.subrange(0, i as int)),
        decreases codes.len() - i,
    {
        r.push((codes[i], 0usize));
        i = i + 1;
        assert(r@ =~= uncounted(codes@.subrange(0, i as int)));
    }
    assert(codes@.subrange(0, codes.len() as int) =~= codes@);
    r
}

/// The reference phase for a geometry-free test of phase `tested` among the observables
/// present at one epoch: the alphabetically first phase on the first partner band.
pub open spec fn reference_of(
    sys: GnssSystem,
    fcn: Option<i8>,
    tested: SignalCode,
    codes: Seq<SignalCode>,
) -> Option<SignalCode> {
    let inv = uncounted(codes);
    match freq_of(sys, tested.band, fcn) {
        None => None,
        Some(f) => match first_partner(sys, fcn, tested.band, f, inv, partner_list(sys)) {
            None => None,
            Some(b) => match preferred(inv, ObservationType::Phase, b, None) {
                None => None,
                Some(j) => Some(inv[j].0),
            },
        },
    }
}

/// Reference phase for the geometry-free test of `tested` (see `reference_of`).
pub fn reference_phase(
    sys: GnssSystem,
    fcn: Option<i8>,
    tested: &SignalCode,
    codes: &Vec<SignalCode>,
) -> (r: Option<SignalCode>)
    ensures
        r == reference_of(sys, fcn, *tested, codes@),
{
    let f = match frequency_hz(sys, tested.band, fcn) {
        Some(f) => f,
        None => return None,
    };
    let inv = uncounted_vec(codes);
    let b = match find_partner(sys, fcn, tested.band, f, &inv) {
        Some(b) => b,
        None => return None,
    };
    match preferred_index(&inv, ObservationType::Phase, b, None) {
        Some(j) => Some(inv[j].0),
        None => None,
    }
}

/// The signal-strength observable paired with `code`: the S code of the same band and
/// attribute when observed, otherwise the alphabetically first S code of the band.
pub open spec fn snr_choice(code: SignalCode, inv: Seq<(SignalCode, usize)>) -> Option<SignalCode> {
    let exact = SignalCode { obs_type: ObservationType::Snr, band: code.band, attribute: code.attribute };
    if exists|i: int| 0 <= i < inv.len() && (#[trigger] inv[i]).0 == exact {
        Some(exact)
    } else {
        let z = uncounted(inv.map_values(|e: (SignalCode, usize)| e.0));
        match preferred(z, ObservationType::Snr, code.band, None) {
            None => None,
            Some(j) => Some(z[j].0),
        }
    }
}

/// Chooses the signal-strength observable reported with `code` (see `snr_choice`).
pub fn snr_code_for(code: &SignalCode, inv: &Vec<(SignalCode, usize)>) -> (r: Option<SignalCode>)
    ensures
        r == snr_choice(*code, inv@),
{
    let exact = SignalCode::new(ObservationType::Snr, code.band, code.attribute);
    let mut codes: Vec<SignalCode> = Vec::new();
    let mut i: usize = 0;
    while i < inv.len()
        invariant
            i <= inv.len(),
            exact == (SignalCode { obs_type: ObservationType::Snr, band: code.band, attribute: code.attribute }),
            codes@ == inv@.subrange(0, i as int).map_values(|e: (SignalCode, usize)| e.0),
            forall|k: int| 0 <= k < i ==> (#[trigger] inv@[k]).0 != exact,
        decreases inv.len() - i,
    {
        if inv[i].0 == exact {
            assert((inv@[i as int]).0 == exact);
            return Some(exact);
        }
        codes.push(inv[i].0);
        i = i + 1;
        assert(codes@ =~= inv@.subrange(0, i as int).map_values(|e: (SignalCode, usize)| e.0));
    }
    assert(inv@.subrange(0, inv.len() as int) =~= inv@);
    let z = uncounted_vec(&codes);
    match preferred_index(&z, ObservationType::Snr, code.band, None) {
        Some(j) => Some(z[j].0),
        None => None,
    }
}

/// Geometry-free tests to run at one epoch: each phase observable (in the given order)
/// paired with its reference phase, when it has one.
pub open spec fn gf_plan(
    sys: GnssSystem,
    fcn: Option<i8>,
    codes: Seq<SignalCode>,
    all: Seq<SignalCode>,
) -> Seq<(SignalCode, SignalCode)>
    decreases codes.len(),
{
    if codes.len() == 0 {
        Seq::empty()
    } else {
        let rest = gf_plan(sys, fcn, codes.drop_last(), all);
        let c = codes.last();
        if c.obs_type == ObservationType::Phase && reference_of(sys, fcn, c, all) is Some {
            rest.push((c, reference_of(sys, fcn, c, all).unwrap()))
        } else {
            rest
        }
    }
}

/// The geometry-free tests for the observables present at one epoch (see `gf_plan`).
pub fn gf_tests(sys: GnssSystem, fcn: Option<i8>, codes: &Vec<SignalCode>) -> (r: Vec<(SignalCode, SignalCode)>)
    ensures
        r@ == gf_plan(sys, fcn, codes@, codes@),
{
    let mut r: Vec<(SignalCode, SignalCode)> = Vec::new();
    let mut i: usize = 0;
    while i < codes.len()
        invariant
            i <= codes.len(),
            r@ == gf_plan(sys, fcn, codes@.subrange(0, i as int), codes@),
        decreases codes.len() - i,
    {
        let c = codes[i];
        proof {
            assert(codes@.subrange(0, i + 1).drop_last() =~= codes@.subrange(0, i as int));
            assert(codes@.subrange(0, i + 1).last() == c);
        }
        if c.is_phase() {
            match reference_phase(sys, fcn, &c, codes) {
                Some(rf) => {
                    r.push((c, rf));
                },
                None => {},
            }
        }
        i = i + 1;
    }
    assert(codes@.subrange(0, codes.len() as int) =~= codes@);
    r
}

/// Code-minus-phase tests to run at one epoch: each pseudorange (in the given order) whose
/// band has a known frequency, paired with the phase of the same band and attribute when
/// that phase is present.
pub open spec fn cp_plan(
    sys: GnssSystem,
    fcn: Option<i8>,
    codes: Seq<SignalCode>,
    all: Seq<SignalCode>,
) -> Seq<(SignalCode, SignalCode)>
    decreases codes.len(),
{
    if codes.len() == 0 {
        Seq::empty()
    } else {
        let rest = cp_plan(sys, fcn, codes.drop_last(), all);
        let c = codes.last();
        let p = SignalCode { obs_type: ObservationType::Phase, band: c.band, attribute: c.attribute };
        if c.obs_type == ObservationType::Code && all.contains(p) && freq_of(sys, c.band, fcn) is Some {
            rest.push((c, p))
        } else {
            rest
        }
    }
}

fn contains_code(codes: &Vec<SignalCode>, x: &SignalCode) -> (r: bool)
    ensures
        r == codes@.contains(*x),
{
    let mut i: usize = 0;
    while i < codes.len()
        invariant
            i <= codes.len(),
            forall|k: int| 0 <= k < i ==> codes@[k] != *x,
        decreases codes.len() - i,
    {
        if codes[i] == *x {
            return true;
        }
        i = i + 1;
    }
    false
}

/// The code-minus-phase tests for the observables present at one epoch (see `cp_plan`).
pub fn cp_tests(sys: GnssSystem, fcn: Option<i8>, codes: &Vec<SignalCode>) -> (r: Vec<(SignalCode, SignalCode)>)
    ensures
        r@ == cp_plan(sys, fcn, codes@, codes@),
{
    let mut r: Vec<(SignalCode, SignalCode)> = Vec::new();
    let mut i: usize = 0;
    while i < codes.len()
        invariant
            i <= codes.len(),
            r@ == cp_plan(sys, fcn, codes@.subrange(0, i as int), codes@),
        decreases codes.len() - i,
    {
        let c = codes[i];
        proof {
            assert(codes@.subrange(0, i + 1).drop_last() =~= codes@.subrange(0, i as int));
            assert(codes@.subrange(0, i + 1).last() == c);
        }
        if c.is_code() {
            let p = SignalCode::new(ObservationType::Phase, c.band, c.attribute);
            if contains_code(codes, &p) && frequency_hz(sys, c.band, fcn).is_some() {
                r.push((c, p));
            }
        }
        i = i + 1;
    }
    assert(codes@.subrange(0, codes.len() as int) =~= codes@);
    r
}

/// A chosen phase pair lies on two different bands whose frequencies are far enough apart,
/// and its first phase is on the pseudorange's own band.
pub proof fn law_pair_separated(sys: GnssSystem, fcn: Option<i8>, code: SignalCode, inv: Seq<(SignalCode, usize)>)
    requires
        phase_pair(sys, fcn, code, inv) is Some,
    ensures
        ({
            let (p1, p2) = phase_pair(sys, fcn, code, inv).unwrap();
            &&& p1.obs_type == ObservationType::Phase
            &&& p2.obs_type == ObservationType::Phase
            &&& p1.band == code.band
            &&& p2.band != code.band
            &&& freq_of(sys, p1.band, fcn) is Some
            &&& freq_of(sys, p2.band, fcn) is Some
            &&& well_separated(freq_of(sys, p1.band, fcn).unwrap(), freq_of(sys, p2.band, fcn).unwrap())
        }),
{
    let f1 = freq_of(sys, code.band, fcn).unwrap();
    let i = preferred(inv, ObservationType::Phase, code.band, Some(code.attribute)).unwrap();
    let b = first_partner(sys, fcn, code.band, f1, inv, partner_list(sys)).unwrap();
    let j = preferred(inv, ObservationType::Phase, b, None).unwrap();
    lemma_first_partner_ok(sys, fcn, code.band, f1, inv, partner_list(sys));
    let n = inv.len() as int;
    assert(exists|x: int| #[trigger] is_preferred(inv, n, ObservationType::Phase, code.band, Some(code.attribute), x));
    assert(is_preferred(inv, n, ObservationType::Phase, code.band, Some(code.attribute), i));
    assert(exists|x: int| #[trigger] is_preferred(inv, n, ObservationType::Phase, b, None, x));
    assert(is_preferred(inv, n, ObservationType::Phase, b, None, j));
}

/// `inv[j]` is a most observed phase of its band: no phase of that band was seen more
/// often, and none seen as often has an alphabetically earlier attribute.
pub open spec fn most_observed_phase(inv: Seq<(SignalCode, usize)>, j: int) -> bool {
    forall|k: int|
        0 <= k < inv.len() && (#[trigger] inv[k]).0.obs_type == ObservationType::Phase && inv[k].0.band
            == inv[j].0.band ==> inv[k].1 <= inv[j].1 && (inv[k].1 == inv[j].1 ==> (inv[j].0.attribute as u32)
            <= (inv[k].0.attribute as u32))
}

/// `inv[i]` is the phase of its band chosen for a pseudorange with attribute `attr`: a
/// phase with that attribute when the band has one; among phases that agree with it on
/// matching `attr`, the most observed, then the alphabetically first.
pub open spec fn own_band_choice(inv: Seq<(SignalCode, usize)>, i: int, attr: char) -> bool {
    forall|k: int|
        0 <= k < inv.len() && (#[trigger] inv[k]).0.obs_type == ObservationType::Phase && inv[k].0.band
            == inv[i].0.band ==> (inv[k].0.attribute == attr ==> inv[i].0.attribute == attr) && ((
        inv[k].0.attribute == attr) == (inv[i].0.attribute == attr) ==> inv[k].1 <= inv[i].1 && (inv[k].1
            == inv[i].1 ==> (inv[i].0.attribute as u32) <= (inv[k].0.attribute as u32)))
}

/// How the two phases of a pair are chosen: on the pseudorange's own band the phase with
/// the pseudorange's attribute is preferred, then the most observed; on the partner band
/// the attribute plays no part and the most observed phase is taken (ties go to the
/// alphabetically first attribute). Both are observables of the inventory.
pub proof fn law_pair_choice(sys: GnssSystem, fcn: Option<i8>, code: SignalCode, inv: Seq<(SignalCode, usize)>)
    requires
        phase_pair(sys, fcn, code, inv) is Some,
    ensures
        ({
            let (p1, p2) = phase_pair(sys, fcn, code, inv).unwrap();
            &&& exists|i: int| 0 <= i < inv.len() && (#[trigger] inv[i]).0 == p1 && own_band_choice(inv, i, code.attribute)
            &&& exists|j: int| 0 <= j < inv.len() && (#[trigger] inv[j]).0 == p2 && most_observed_phase(inv, j)
        }),
{
    let f1 = freq_of(sys, code.band, fcn).unwrap();
    let own = Some(code.attribute);
    let i = preferred(inv, ObservationType::Phase, code.band, own).unwrap();
    let b = first_partner(sys, fcn, code.band, f1, inv, partner_list(sys)).unwrap();
    let j = preferred(inv, ObservationType::Phase, b, None).unwrap();
    let n = inv.len() as int;
    assert(exists|x: int| #[trigger] is_preferred(inv, n, ObservationType::Phase, code.band, own, x));
    assert(is_preferred(inv, n, ObservationType::Phase, code.band, own, i));
    assert(exists|x: int| #[trigger] is_preferred(inv, n, ObservationType::Phase, b, None, x));
    assert(is_preferred(inv, n, ObservationType::Phase, b, None, j));
    assert forall|k: int|
        0 <= k < inv.len() && (#[trigger] inv[k]).0.obs_type == ObservationType::Phase && inv[k].0.band
            == inv[i].0.band implies (inv[k].0.attribute == code.attribute ==> inv[i].0.attribute == code.attribute)
        && ((inv[k].0.attribute == code.attribute) == (inv[i].0.attribute == code.attribute) ==> inv[k].1
        <= inv[i].1 && (inv[k].1 == inv[i].1 ==> (inv[i].0.attribute as u32) <= (inv[k].0.attribute as u32))) by {
        assert(is_kind_on_band(inv[k], ObservationType::Phase, code.band));
        assert(!key_lt(entry_key(inv[k], own), entry_key(inv[i], own)));
    }
    assert(own_band_choice(inv, i, code.attribute));
    assert forall|k: int|
        0 <= k < inv.len() && (#[trigger] inv[k]).0.obs_type == ObservationType::Phase && inv[k].0.band
            == inv[j].0.band implies inv[k].1 <= inv[j].1 && (inv[k].1 == inv[j].1 ==> (inv[j].0.attribute as u32)
        <= (inv[k].0.attribute as u32)) by {
        assert(is_kind_on_band(inv[k], ObservationType::Phase, b));
        assert(!key_lt(entry_key(inv[k], None), entry_key(inv[j], None)));
    }
    assert(most_observed_phase(inv, j));
}

/// The reference phase of a geometry-free test is a phase observable present at the epoch,
/// on another band whose frequency is far enough from the tested band's.
pub proof fn law_reference_separated(sys: GnssSystem, fcn: Option<i8>, tested: SignalCode, codes: Seq<SignalCode>)
    requires
        reference_of(sys, fcn, tested, codes) is Some,
    ensures
        ({
            let r = reference_of(sys, fcn, tested, codes).unwrap();
            &&& r.obs_type == ObservationType::Phase
            &&& codes.contains(r)
            &&& r.band != tested.band
            &&& freq_of(sys, tested.band, fcn) is Some
            &&& freq_of(sys, r.band, fcn) is Some
            &&& well_separated(freq_of(sys, tested.band, fcn).unwrap(), freq_of(sys, r.band, fcn).unwrap())
        }),
{
    let inv = uncounted(codes);
    let f = freq_of(sys, tested.band, fcn).unwrap();
    let b = first_partner(sys, fcn, tested.band, f, inv, partner_list(sys)).unwrap();
    let j = preferred(inv, ObservationType::Phase, b, None).unwrap();
    lemma_first_partner_ok(sys, fcn, tested.band, f, inv, partner_list(sys));
    let n = inv.len() as int;
    assert(exists|x: int| #[trigger] is_preferred(inv, n, ObservationType::Phase, b, None, x));
    assert(is_preferred(inv, n, ObservationType::Phase, b, None, j));
    assert(inv[j].0 == codes[j]);
}

/// Every observable of an inventory is listed once.
pub open spec fn distinct_keys(inv: Seq<(SignalCode, usize)>) -> bool {
    forall|a: int, b: int| 0 <= a < b < inv.len() ==> (#[trigger] inv[a]).0 != (#[trigger] inv[b]).0
}

/// Two inventories with the same entries.
pub open spec fn same_entries(inv1: Seq<(SignalCode, usize)>, inv2: Seq<(SignalCode, usize)>) -> bool {
    forall|e: (SignalCode, usize)| inv1.contains(e) <==> inv2.contains(e)
}

proof fn lemma_has_same(inv1: Seq<(SignalCode, usize)>, inv2: Seq<(SignalCode, usize)>, kind: ObservationType, band: u8)
    requires
        same_entries(inv1, inv2),
    ensures
        has_kind_on_band(inv1, kind, band) == has_kind_on_band(inv2, kind, band),
{
    if has_kind_on_band(inv1, kind, band) {
        let i = choose|i: int| 0 <= i < inv1.len() && is_kind_on_band(#[trigger] inv1[i], kind, band);
        assert(inv1.contains(inv1[i]));
        let j = choose|j: int| 0 <= j < inv2.len() && inv2[j] == inv1[i];
        assert(is_kind_on_band(inv2[j], kind, band));
    }
    if has_kind_on_band(inv2, kind, band) {
        let i = choose|i: int| 0 <= i < inv2.len() && is_kind_on_band(#[trigger] inv2[i], kind, band);
        assert(inv2.contains(inv2[i]));
        let j = choose|j: int| 0 <= j < inv1.len() && inv1[j] == inv2[i];
        assert(is_kind_on_band(inv1[j], kind, band));
    }
}

proof fn lemma_first_partner_same(
    sys: GnssSystem,
    fcn: Option<i8>,
    own_band: u8,
    f1: int,
    inv1: Seq<(SignalCode, usize)>,
    inv2: Seq<(SignalCode, usize)>,
    bands: Seq<u8>,
)
    requires
        same_entries(inv1, inv2),
    ensures
        first_partner(sys, fcn, own_band, f1, inv1, bands) == first_partner(sys, fcn, own_band, f1, inv2, bands),
    decreases bands.len(),
{
    if bands.len() > 0 {
        lemma_has_same(inv1, inv2, ObservationType::Phase, bands[0]);
        lemma_first_partner_same(sys, fcn, own_band, f1, inv1, inv2, bands.drop_first());
    }
}

/// Candidates of one kind and band with equal keys are the same entry.
proof fn lemma_equal_keys_same_entry(e: (SignalCode, usize), f: (SignalCode, usize), kind: ObservationType, band: u8, pref: Option<char>)
    requires
        is_kind_on_band(e, kind, band),
        is_kind_on_band(f, kind, band),
        entry_key(e, pref) == entry_key(f, pref),
    ensures
        e == f,
{
    crate::text::lemma_char_code_injective(e.0.attribute, f.0.attribute);
    assert(e.0 == f.0);
}

/// The preferred entry of a band is the same in two inventories with the same entries.
proof fn lemma_preferred_same(
    inv1: Seq<(SignalCode, usize)>,
    inv2: Seq<(SignalCode, usize)>,
    kind: ObservationType,
    band: u8,
    pref: Option<char>,
)
    requires
        same_entries(inv1, inv2),
        preferred(inv1, kind, band, pref) is Some,
    ensures
        preferred(inv2, kind, band, pref) is Some,
        inv1[preferred(inv1, kind, band, pref).unwrap()] == inv2[preferred(inv2, kind, band, pref).unwrap()],
{
    let n1 = inv1.len() as int;
    let n2 = inv2.len() as int;
    let i1 = preferred(inv1, kind, band, pref).unwrap();
    assert(exists|x: int| #[trigger] is_preferred(inv1, n1, kind, band, pref, x));
    assert(is_preferred(inv1, n1, kind, band, pref, i1));
    let e = inv1[i1];
    assert(inv1.contains(e));
    inv2.index_of_first_ensures(e);
    let j = inv2.index_of_first(e).unwrap();
    assert forall|x: int| 0 <= x < n2 && is_kind_on_band(#[trigger] inv2[x], kind, band) implies !key_lt(
        entry_key(inv2[x], pref),
        entry_key(inv2[j], pref),
    ) && (entry_key(inv2[x], pref) == entry_key(inv2[j], pref) ==> j <= x) by {
        assert(inv2.contains(inv2[x]));
        let y = choose|y: int| 0 <= y < n1 && inv1[y] == inv2[x];
        assert(is_kind_on_band(inv1[y], kind, band));
        if entry_key(inv2[x], pref) == entry_key(inv2[j], pref) {
            lemma_equal_keys_same_entry(inv2[x], inv2[j], kind, band, pref);
        }
    }
    assert(is_preferred(inv2, n2, kind, band, pref, j));
    assert(exists|x: int| #[trigger] is_preferred(inv2, n2, kind, band, pref, x));
    let i2 = preferred(inv2, kind, band, pref).unwrap();
    lemma_preferred_unique(inv2, n2, kind, band, pref, i2, j);
}

/// The phase pair of a pseudorange depends only on which observables were seen how often,
/// not on the order in which the inventory lists them nor on how often an entry repeats:
/// any reordering of an inventory, repeated entries included, gives the same pair.
pub proof fn law_phase_pair_order_independent(
    sys: GnssSystem,
    fcn: Option<i8>,
    code: SignalCode,
    inv1: Seq<(SignalCode, usize)>,
    inv2: Seq<(SignalCode, usize)>,
)
    requires
        same_entries(inv1, inv2),
    ensures
        phase_pair(sys, fcn, code, inv1) == phase_pair(sys, fcn, code, inv2),
{
    assert(same_entries(inv2, inv1));
    if freq_of(sys, code.band, fcn) is Some {
        let f1 = freq_of(sys, code.band, fcn).unwrap();
        let own = Some(code.attribute);
        if preferred(inv1, ObservationType::Phase, code.band, own) is Some {
            lemma_preferred_same(inv1, inv2, ObservationType::Phase, code.band, own);
        } else if preferred(inv2, ObservationType::Phase, code.band, own) is Some {
            lemma_preferred_same(inv2, inv1, ObservationType::Phase, code.band, own);
        }
        lemma_first_partner_same(sys, fcn, code.band, f1, inv1, inv2, partner_list(sys));
        let b = first_partner(sys, fcn, code.band, f1, inv1, partner_list(sys));
        if b is Some {
            let b = b.unwrap();
            if preferred(inv1, ObservationType::Phase, b, None) is Some {
                lemma_preferred_same(inv1, inv2, ObservationType::Phase, b, None);
            } else if preferred(inv2, ObservationType::Phase, b, None) is Some {
                lemma_preferred_same(inv2, inv1, ObservationType::Phase, b, None);
            }
        }
    }
}

} // verus!
