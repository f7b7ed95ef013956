//! The combination registry of a multipath analysis: which pseudoranges of a satellite
//! get a multipath series, with which phases and which signal-strength observable.
use vstd::prelude::*;
use crate::filters::{code_allowed, code_passes};
use crate::gnss::{parse_code, GnssSystem, ObservationType, Satellite, SignalCode};
use crate::selection::{distinct_keys, phase_pair, select_phases, snr_choice, snr_code_for};
use crate::text::{
    ascii_upper_seq, chars_lt, lemma_seq_lt_irreflexive, lemma_seq_lt_total, lemma_seq_lt_transitive,
    seq_lt, str_chars, string_of, upper_char,
};
use crate::gnss::{code_text, system_letter};
use crate::order::{is_stable_order, key_before, key_view, stable_order};

verus! {

/// Default of the cycle-slip switch of an analysis: detection is on.
pub fn default_true() -> (r: bool)
    ensures
        r,
{
    true
}

/// One multipath combination: the pseudorange, the phase on its own band, the phase on the
/// partner band, and the signal-strength observable reported with it.
#[derive(Clone, Copy, Debug, PartialEq, Eq, Structural)]
pub struct ComboPlan {
    pub code: SignalCode,
    pub phase1: SignalCode,
    pub phase2: SignalCode,
    pub snr: Option<SignalCode>,
}

/// The combination of one inventory entry, if it gets one: a pseudorange that passes the
/// filters and has a phase pair.
pub open spec fn combo_of(
    sys: GnssSystem,
    fcn: Option<i8>,
    code: SignalCode,
    inv: Seq<(SignalCode, usize)>,
    includes: Seq<String>,
    excludes: Seq<String>,
    with_snr: bool,
) -> Option<ComboPlan> {
    if code.obs_type == ObservationType::Code && code_passes(sys, code, includes, excludes) && phase_pair(
        sys,
        fcn,
        code,
        inv,
    ) is Some {
        let p = phase_pair(sys, fcn, code, inv).unwrap();
        Some(
            ComboPlan {
                code,
                phase1: p.0,
                phase2: p.1,
                snr: if with_snr {
                    snr_choice(code, inv)
                } else {
                    None
                },
            },
        )
    } else {
        None
    }
}

/// The combinations of the first entries of an inventory, in inventory order.
pub open spec fn combos_of(
    sys: GnssSystem,
    fcn: Option<i8>,
    entries: Seq<(SignalCode, usize)>,
    inv: Seq<(SignalCode, usize)>,
    includes: Seq<String>,
    excludes: Seq<String>,
    with_snr: bool,
) -> Seq<ComboPlan>
    decreases entries.len(),
{
    if entries.len() == 0 {
        Seq::empty()
    } else {
        let rest = combos_of(sys, fcn, entries.drop_last(), inv, includes, excludes, with_snr);
        match combo_of(sys, fcn, entries.last().0, inv, includes, excludes, with_snr) {
            Some(c) => rest.push(c),
            None => rest,
        }
    }
}

/// The multipath combinations of one satellite, given its inventory (observables with
/// observation counts): none when its constellation is not analysed, otherwise one per
/// pseudorange that passes the code filters and has a phase pair (see `phase_pair`).
pub fn plan_combos(
    sat: &Satellite,
    fcn: Option<i8>,
    inv: &Vec<(SignalCode, usize)>,
    systems: &Vec<GnssSystem>,
    includes: &Vec<String>,
    excludes: &Vec<String>,
    with_snr: bool,
) -> (r: Vec<ComboPlan>)
    ensures
        !systems@.contains(sat.system) ==> r@ == Seq::<ComboPlan>::empty(),
        systems@.contains(sat.system) ==> r@ == combos_of(
            sat.system,
            fcn,
            inv@,
            inv@,
            includes@,
            excludes@,
            with_snr,
        ),
{
    let mut found = false;
    let mut k: usize = 0;
    while k < systems.len()
        invariant
            k <= systems.len(),
            found <==> exists|j: int| 0 <= j < k && systems@[j] == sat.system,
        decreases systems.len() - k,
    {
        if systems[k] == sat.system {
            found = true;
        }
        k = k + 1;
    }
    if !found {
        return Vec::new();
    }
    let sys = sat.system;
    let mut r: Vec<ComboPlan> = Vec::new();
    let mut i: usize = 0;
    while i < inv.len()
        invariant
            i <= inv.len(),
            sys == sat.system,
            r@ == combos_of(sys, fcn, inv@.subrange(0, i as int), inv@, includes@, excludes@, with_snr),
        decreases inv.len() - i,
    {
        proof {
            assert(inv@.subrange(0, i + 1).drop_last() =~= inv@.subrange(0, i as int));
            assert(inv@.subrange(0, i + 1).last() == inv@[i as int]);
        }
        let code = inv[i].0;
        if code.is_code() && code_allowed(sys, &code, includes, excludes) {
            match select_phases(sys, fcn, &code, inv) {
                Some((p1, p2)) => {
                    let snr = if with_snr {
                        snr_code_for(&code, inv)
                    } else {
                        None
                    };
                    r.push(ComboPlan { code, phase1: p1, phase2: p2, snr });
                },
                None => {},
            }
        }
        i = i + 1;
    }
    assert(inv@.subrange(0, inv.len() as int) =~= inv@);
    r
}

/// Number of occurrences of `c` in the lists.
pub open spec fn occurrences(lists: Seq<Seq<SignalCode>>, c: SignalCode) -> nat
    decreases lists.len(),
{
    if lists.len() == 0 {
        0
    } else {
        occurrences(lists.drop_last(), c) + lists.last().to_multiset().count(c)
    }
}

/// The contents of per-epoch observable lists.
pub open spec fn list_views(lists: Seq<Vec<SignalCode>>) -> Seq<Seq<SignalCode>> {
    lists.map_values(|l: Vec<SignalCode>| l@)
}

/// The observables of one satellite over all epochs, each with its number of occurrences:
/// every observable that occurs is listed once, with its count.
pub fn count_codes(lists: &Vec<Vec<SignalCode>>) -> (r: Vec<(SignalCode, usize)>)
    requires
        forall|c: SignalCode| #[trigger] occurrences(list_views(lists@), c) <= usize::MAX,
    ensures
        distinct_keys(r@),
        forall|a: int|
            0 <= a < r.len() ==> (#[trigger] r@[a]).1 == occurrences(
                list_views(lists@),
                r@[a].0,
            ) && r@[a].1 > 0,
        forall|c: SignalCode|
            occurrences(list_views(lists@), c) > 0 ==> exists|a: int|
                0 <= a < r.len() && (#[trigger] r@[a]).0 == c,
{
    let ghost all = list_views(lists@);
    let mut r: Vec<(SignalCode, usize)> = Vec::new();
    let mut e: usize = 0;
    while e < lists.len()
        invariant
            e <= lists.len(),
            all == list_views(lists@),
            forall|c: SignalCode| #[trigger] occurrences(all, c) <= usize::MAX,
            distinct_keys(r@),
            forall|a: int|
                0 <= a < r.len() ==> (#[trigger] r@[a]).1 == occurrences(all.subrange(0, e as int), r@[a].0)
                    && r@[a].1 > 0,
            forall|c: SignalCode|
                occurrences(all.subrange(0, e as int), c) > 0 ==> exists|a: int|
                    0 <= a < r.len() && (#[trigger] r@[a]).0 == c,
        decreases lists.len() - e,
    {
        let l = &lists[e];
        let ghost pre_lists = all.subrange(0, e as int);
        proof {
            l@.subrange(0, 0).to_multiset_ensures();
            assert forall|c: SignalCode| l@.subrange(0, 0).to_multiset().count(c) == 0 by {
                assert(!l@.subrange(0, 0).contains(c));
            }
        }
        let mut j: usize = 0;
        while j < l.len()
            invariant
                j <= l.len(),
                e < lists.len(),
                all == list_views(lists@),
                l@ == all[e as int],
                pre_lists == all.subrange(0, e as int),
                forall|c: SignalCode| #[trigger] occurrences(all, c) <= usize::MAX,
                distinct_keys(r@),
                forall|a: int|
                    0 <= a < r.len() ==> (#[trigger] r@[a]).1 == occurrences(pre_lists, r@[a].0)
                        + l@.subrange(0, j as int).to_multiset().count(r@[a].0) && r@[a].1 > 0,
                forall|c: SignalCode|
                    occurrences(pre_lists, c) + l@.subrange(0, j as int).to_multiset().count(c) > 0
                        ==> exists|a: int| 0 <= a < r.len() && (#[trigger] r@[a]).0 == c,
            decreases l.len() - j,
        {
            let c = l[j];
            proof {
                assert(l@.subrange(0, j + 1) =~= l@.subrange(0, j as int).push(c));
                l@.subrange(0, j as int).to_multiset_ensures();
                l@.subrange(0, j + 1).to_multiset_ensures();
                lemma_occurrences_bound(all, e as int + 1, c);
                assert(all.subrange(0, e + 1).drop_last() =~= pre_lists);
                assert(all.subrange(0, e + 1).last() == l@);
                lemma_count_prefix(l@, j as int + 1, c);
            }
            let mut a: usize = 0;
            while a < r.len() && r[a].0 != c
                invariant
                    a <= r.len(),
                    forall|b: int| 0 <= b < a ==> (#[trigger] r@[b]).0 != c,
                decreases r.len() - a,
            {
                a = a + 1;
            }
            let ghost pre_r = r@;
            if a < r.len() {
                let n = r[a].1;
                r.set(a, (c, n + 1));
                proof {
                    assert forall|b: int| 0 <= b < r.len() implies (#[trigger] r@[b]).1 == occurrences(pre_lists, r@[b].0)
                        + l@.subrange(0, j + 1).to_multiset().count(r@[b].0) && r@[b].1 > 0 by {
                        if b != a {
                            assert(r@[b] == pre_r[b]);
                            assert(pre_r[b].0 != c);
                        }
                    }
                    assert forall|c2: SignalCode|
                        occurrences(pre_lists, c2) + l@.subrange(0, j + 1).to_multiset().count(c2) > 0
                            implies exists|b: int| 0 <= b < r.len() && (#[trigger] r@[b]).0 == c2 by {
                        if c2 == c {
                            assert(r@[a as int].0 == c);
                        } else {
                            let b = choose|b: int| 0 <= b < pre_r.len() && (#[trigger] pre_r[b]).0 == c2;
                            assert(r@[b].0 == c2);
                        }
                    }
                    assert(distinct_keys(r@)) by {
                        assert forall|x: int, y: int| 0 <= x < y < r@.len() implies (#[trigger] r@[x]).0 != (#[trigger] r@[y]).0 by {
                            assert(r@[x].0 == pre_r[x].0 && r@[y].0 == pre_r[y].0);
                        }
                    }
                }
            } else {
                r.push((c, 1));
                proof {
                    assert forall|b: int| 0 <= b < r.len() implies (#[trigger] r@[b]).1 == occurrences(pre_lists, r@[b].0)
                        + l@.subrange(0, j + 1).to_multiset().count(r@[b].0) && r@[b].1 > 0 by {
                        if b < pre_r.len() {
                            assert(r@[b] == pre_r[b]);
                            assert(pre_r[b].0 != c);
                        } else {
                            assert(r@[b] == (c, 1usize));
                            if occurrences(pre_lists, c) + l@.subrange(0, j as int).to_multiset().count(c) > 0 {
                                let w = choose|w: int| 0 <= w < pre_r.len() && (#[trigger] pre_r[w]).0 == c;
                                assert(false);
                            }
                        }
                    }
                    assert forall|c2: SignalCode|
                        occurrences(pre_lists, c2) + l@.subrange(0, j + 1).to_multiset().count(c2) > 0
                            implies exists|b: int| 0 <= b < r.len() && (#[trigger] r@[b]).0 == c2 by {
                        if c2 == c {
                            assert(r@[pre_r.len() as int].0 == c);
                        } else {
                            let b = choose|b: int| 0 <= b < pre_r.len() && (#[trigger] pre_r[b]).0 == c2;
                            assert(r@[b].0 == c2);
                        }
                    }
                    assert(distinct_keys(r@)) by {
                        assert forall|x: int, y: int| 0 <= x < y < r@.len() implies (#[trigger] r@[x]).0 != (#[trigger] r@[y]).0 by {
                            if y == pre_r.len() {
                                assert(r@[x] == pre_r[x]);
                            } else {
                                assert(r@[x] == pre_r[x] && r@[y] == pre_r[y]);
                            }
                        }
                    }
                }
            }
            j = j + 1;
        }
        proof {
            assert(l@.subrange(0, l.len() as int) =~= l@);
            assert(all.subrange(0, e + 1).drop_last() =~= pre_lists);
            assert(all.subrange(0, e + 1).last() == l@);
            assert forall|c: SignalCode| #[trigger] occurrences(all.subrange(0, e + 1), c) > 0 implies exists|a: int|
                0 <= a < r.len() && (#[trigger] r@[a]).0 == c by {
                assert(occurrences(all.subrange(0, e + 1), c) == occurrences(pre_lists, c) + l@.subrange(0, l.len() as int).to_multiset().count(c));
            }
        }
        e = e + 1;
    }
    assert(all.subrange(0, lists.len() as int) =~= all);
    r
}

/// Occurrences in a prefix of the lists are at most the occurrences in all of them.
proof fn lemma_occurrences_bound(all: Seq<Seq<SignalCode>>, k: int, c: SignalCode)
    requires
        0 <= k <= all.len(),
    ensures
        occurrences(all.subrange(0, k), c) <= occurrences(all, c),
    decreases all.len() - k,
{
    if k < all.len() {
        lemma_occurrences_bound(all, k + 1, c);
        assert(all.subrange(0, k + 1).drop_last() =~= all.subrange(0, k));
    } else {
        assert(all.subrange(0, k) =~= all);
    }
}

/// Occurrences in a prefix of a list are at most those in the whole list.
proof fn lemma_count_prefix(l: Seq<SignalCode>, j: int, c: SignalCode)
    requires
        0 <= j <= l.len(),
    ensures
        l.subrange(0, j).to_multiset().count(c) <= l.to_multiset().count(c),
    decreases l.len() - j,
{
    if j < l.len() {
        lemma_count_prefix(l, j + 1, c);
        assert(l.subrange(0, j + 1) =~= l.subrange(0, j).push(l[j]));
        l.subrange(0, j).to_multiset_ensures();
    } else {
        assert(l.subrange(0, j) =~= l);
    }
}

/// The signal-strength code named by a text, compared case-insensitively: a signal code
/// of kind `S`, or `None`.
pub open spec fn snr_code_named(text: Seq<char>) -> Option<SignalCode> {
    match parse_code(ascii_upper_seq(text)) {
        Some(c) => if c.obs_type == ObservationType::Snr {
            Some(c)
        } else {
            None
        },
        None => None,
    }
}

/// Parses a requested signal-strength code (see `snr_code_named`).
pub fn parse_snr_code(text: &str) -> (r: Option<SignalCode>)
    ensures
        r == snr_code_named(text@),
{
    let cs = str_chars(text);
    let mut u: Vec<char> = Vec::new();
    let mut i: usize = 0;
    while i < cs.len()
        invariant
            i <= cs.len(),
            u@ == ascii_upper_seq(cs@.subrange(0, i as int)),
        decreases cs.len() - i,
    {
        u.push(upper_char(cs[i]));
        i = i + 1;
        assert(u@ =~= ascii_upper_seq(cs@.subrange(0, i as int)));
    }
    assert(cs@.subrange(0, cs.len() as int) =~= cs@);
    let us = string_of(&u);
    match SignalCode::parse(us.as_str()) {
        Some(c) => if c.is_snr() {
            Some(c)
        } else {
            None
        },
        None => None,
    }
}

/// A signal pair from two code texts, when both parse.
pub fn signal_pair(primary: &str, secondary: &str) -> (r: Option<(SignalCode, SignalCode)>)
    ensures
        r == (match (parse_code(primary@), parse_code(secondary@)) {
            (Some(p), Some(s)) => Some((p, s)),
            _ => None,
        }),
{
    match (SignalCode::parse(primary), SignalCode::parse(secondary)) {
        (Some(p), Some(s)) => Some((p, s)),
        _ => None,
    }
}

/// Whether some list holds a signal-strength code with text `t`.
pub open spec fn snr_text_occurs(lists: Seq<Seq<SignalCode>>, t: Seq<char>) -> bool {
    exists|e: int, j: int|
        0 <= e < lists.len() && 0 <= j < lists[e].len() && (#[trigger] lists[e][j]).obs_type
            == ObservationType::Snr && code_text(lists[e][j]) == t
}

/// The texts of the signal-strength codes that occur in the lists, sorted and without
/// repetition.
pub fn snr_code_texts(lists: &Vec<Vec<SignalCode>>) -> (r: Vec<String>)
    ensures
        forall|a: int, b: int| 0 <= a < b < r.len() ==> seq_lt((#[trigger] r@[a])@, (#[trigger] r@[b])@),
        forall|a: int| 0 <= a < r.len() ==> snr_text_occurs(list_views(lists@), (#[trigger] r@[a])@),
        forall|e: int, j: int|
            0 <= e < lists.len() && 0 <= j < lists@[e]@.len() && (#[trigger] lists@[e]@[j]).obs_type
                == ObservationType::Snr ==> exists|a: int| 0 <= a < r.len() && (#[trigger] r@[a])@ == code_text(lists@[e]@[j]),
{
    let ghost all = list_views(lists@);
    let mut acc: Vec<Vec<char>> = Vec::new();
    let mut e: usize = 0;
    while e < lists.len()
        invariant
            e <= lists.len(),
            all == list_views(lists@),
            forall|a: int, b: int| 0 <= a < b < acc.len() ==> seq_lt((#[trigger] acc@[a])@, (#[trigger] acc@[b])@),
            forall|a: int| 0 <= a < acc.len() ==> snr_text_occurs(all, (#[trigger] acc@[a])@),
            forall|e2: int, j: int|
                0 <= e2 < e && 0 <= j < all[e2].len() && (#[trigger] all[e2][j]).obs_type
                    == ObservationType::Snr ==> exists|a: int| 0 <= a < acc.len() && (#[trigger] acc@[a])@ == code_text(all[e2][j]),
        decreases lists.len() - e,
    {
        let l = &lists[e];
        let mut j: usize = 0;
        while j < l.len()
            invariant
                j <= l.len(),
                e < lists.len(),
                all == list_views(lists@),
                l@ == all[e as int],
                forall|a: int, b: int| 0 <= a < b < acc.len() ==> seq_lt((#[trigger] acc@[a])@, (#[trigger] acc@[b])@),
                forall|a: int| 0 <= a < acc.len() ==> snr_text_occurs(all, (#[trigger] acc@[a])@),
                forall|e2: int, j2: int|
                    ((0 <= e2 < e && 0 <= j2 < all[e2].len()) || (e2 == e && 0 <= j2 < j)) && (#[trigger] all[e2][j2]).obs_type
                        == ObservationType::Snr ==> exists|a: int| 0 <= a < acc.len() && (#[trigger] acc@[a])@ == code_text(all[e2][j2]),
            decreases l.len() - j,
        {
            let c = l[j];
            if c.is_snr() {
                let ts = c.to_string();
                let t = str_chars(ts.as_str());
                proof {
                    assert(all[e as int][j as int] == c);
                    assert(snr_text_occurs(all, t@));
                }
                let mut q: usize = 0;
                while q < acc.len() && chars_lt(&acc[q], &t)
                    invariant
                        q <= acc.len(),
                        forall|a: int| 0 <= a < q ==> seq_lt((#[trigger] acc@[a])@, t@),
                    decreases acc.len() - q,
                {
                    q = q + 1;
                }
                let ghost old_acc = acc@;
                let present = q < acc.len() && !chars_lt(&t, &acc[q]);
                if present {
                    proof {
                        lemma_seq_lt_total(acc@[q as int]@, t@);
                    }
                } else {
                    proof {
                        if q < acc.len() {
                            assert forall|b: int| q <= b < old_acc.len() implies seq_lt(t@, (#[trigger] old_acc[b])@) by {
                                if b > q {
                                    lemma_seq_lt_transitive(t@, old_acc[q as int]@, old_acc[b]@);
                                }
                            }
                        }
                    }
                    acc.insert(q, t);
                    proof {
                        let na = acc@;
                        assert(na =~= old_acc.insert(q as int, t));
                        assert forall|a: int, b: int| 0 <= a < b < na.len() implies seq_lt((#[trigger] na[a])@, (#[trigger] na[b])@) by {
                            if a < q && b < q {
                                assert(na[a] == old_acc[a] && na[b] == old_acc[b]);
                            } else if a < q && b == q {
                                assert(na[a] == old_acc[a]);
                            } else if a < q && b > q {
                                assert(na[a] == old_acc[a] && na[b] == old_acc[b - 1]);
                                lemma_seq_lt_transitive(old_acc[a]@, t@, old_acc[b - 1]@);
                            } else if a == q {
                                assert(na[b] == old_acc[b - 1]);
                            } else {
                                assert(na[a] == old_acc[a - 1] && na[b] == old_acc[b - 1]);
                            }
                        }
                        assert forall|a: int| 0 <= a < na.len() implies snr_text_occurs(all, (#[trigger] na[a])@) by {
                            if a < q {
                                assert(na[a] == old_acc[a]);
                            } else if a > q {
                                assert(na[a] == old_acc[a - 1]);
                            }
                        }
                        assert forall|e2: int, j2: int|
                            ((0 <= e2 < e && 0 <= j2 < all[e2].len()) || (e2 == e && 0 <= j2 < j)) && (#[trigger] all[e2][j2]).obs_type
                                == ObservationType::Snr implies exists|a: int| 0 <= a < na.len() && (#[trigger] na[a])@ == code_text(all[e2][j2]) by {
                            let a0 = choose|a: int| 0 <= a < old_acc.len() && (#[trigger] old_acc[a])@ == code_text(all[e2][j2]);
                            if a0 < q {
                                assert(na[a0] == old_acc[a0]);
                            } else {
                                assert(na[a0 + 1] == old_acc[a0]);
                            }
                        }
                    }
                }
                proof {
                    assert(exists|a: int| 0 <= a < acc.len() && (#[trigger] acc@[a])@ == code_text(all[e as int][j as int])) by {
                        assert(acc@[q as int]@ == t@);
                    }
                }
            }
            j = j + 1;
        }
        e = e + 1;
    }
    let mut r: Vec<String> = Vec::new();
    let mut k: usize = 0;
    while k < acc.len()
        invariant
            k <= acc.len(),
            r.len() == k,
            forall|a: int| 0 <= a < k ==> (#[trigger] r@[a])@ == acc@[a]@,
        decreases acc.len() - k,
    {
        r.push(string_of(&acc[k]));
        k = k + 1;
    }
    proof {
        assert forall|e2: int, j2: int|
            0 <= e2 < lists.len() && 0 <= j2 < lists@[e2]@.len() && (#[trigger] lists@[e2]@[j2]).obs_type
                == ObservationType::Snr implies exists|a: int| 0 <= a < r.len() && (#[trigger] r@[a])@ == code_text(lists@[e2]@[j2]) by {
            assert(all[e2] == lists@[e2]@);
            assert(all[e2][j2] == lists@[e2]@[j2]);
            let a0 = choose|a: int| 0 <= a < acc.len() && (#[trigger] acc@[a])@ == code_text(all[e2][j2]);
            assert(r@[a0]@ == acc@[a0]@);
        }
    }
    r
}

/// Sort key of a satellite in the combination registry: system letter, then PRN.
pub open spec fn sat_sort_key(s: Satellite) -> (int, Seq<char>, Seq<char>) {
    (((system_letter(s.system) as u32) as int) * 4294967296 + s.prn as int, Seq::empty(), Seq::empty())
}

/// The registry order of satellites is by system letter, then PRN.
pub proof fn law_satellite_key_order(a: Satellite, b: Satellite)
    ensures
        key_before(sat_sort_key(a), sat_sort_key(b)) <==> ((system_letter(a.system) as u32) < (system_letter(b.system) as u32)
            || (system_letter(a.system) == system_letter(b.system) && a.prn < b.prn)),
{
    let la = (system_letter(a.system) as u32) as int;
    let lb = (system_letter(b.system) as u32) as int;
    assert(la * 4294967296 + a.prn < lb * 4294967296 + b.prn <==> (la < lb || (la == lb && a.prn < b.prn))) by (nonlinear_arith)
        requires
            0 <= a.prn < 4294967296,
            0 <= b.prn < 4294967296,
    ;
    lemma_seq_lt_irreflexive(Seq::<char>::empty());
    if la == lb {
        crate::text::lemma_char_code_injective(system_letter(a.system), system_letter(b.system));
    }
}

/// The order in which satellites enter the combination registry: a stable sort by system
/// letter, then PRN. Returns the permutation of indices.
pub fn satellite_order(sats: &Vec<Satellite>) -> (r: Vec<usize>)
    ensures
        is_stable_order(sats@.map_values(|s: Satellite| sat_sort_key(s)), r@),
{
    let mut keys: Vec<(i64, Vec<char>, Vec<char>)> = Vec::new();
    let mut i: usize = 0;
    while i < sats.len()
        invariant
            i <= sats.len(),
            keys.len() == i,
            forall|k: int| 0 <= k < i ==> key_view(#[trigger] keys@[k]) == sat_sort_key(sats@[k]),
        decreases sats.len() - i,
    {
        let s = sats[i];
        let letter = s.system.to_char() as u32 as i64;
        assert(letter <= 90);
        let k = letter * 4294967296 + s.prn as i64;
        keys.push((k, Vec::new(), Vec::new()));
        proof {
            assert(key_view(keys@[i as int]).1 =~= Seq::<char>::empty());
            assert(key_view(keys@[i as int]).2 =~= Seq::<char>::empty());
        }
        i = i + 1;
    }
    let r = stable_order(&keys);
    assert(keys@.map_values(|k: (i64, Vec<char>, Vec<char>)| key_view(k)) =~= sats@.map_values(|s: Satellite| sat_sort_key(s)));
    r
}

} // verus!
