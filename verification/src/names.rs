//! Report names of multipath signals and slip counters.
use vstd::prelude::*;
use crate::gnss::{code_text, system_abbrev, GnssSystem, ObservationType, SignalCode};
use crate::text::{decimal, push_char, push_decimal};

verus! {

/// Name of the multipath series of a pseudorange, in the style `GPSM1C`, `GLOM3X`,
/// `BDSM2I`: constellation abbreviation, `M`, band number, attribute.
pub open spec fn signal_name_text(sys: GnssSystem, code: SignalCode) -> Seq<char> {
    system_abbrev(sys) + seq!['M'] + decimal(code.band as nat) + seq![code.attribute]
}

/// Name of a per-signal slip counter, in the style `GPSL2W`: constellation abbreviation
/// followed by the phase code.
pub open spec fn slip_counter_text(sys: GnssSystem, code: SignalCode) -> Seq<char> {
    system_abbrev(sys) + code_text(code)
}

/// Name of the pseudorange on the partner band of a combination: the code observable with
/// the band and attribute of the partner phase (`L2W` → `C2W`).
pub open spec fn partner_code_text(phase2: SignalCode) -> Seq<char> {
    code_text(SignalCode { obs_type: ObservationType::Code, band: phase2.band, attribute: phase2.attribute })
}

/// The pseudorange name for the partner phase of a combination, e.g. C2W
pub fn partner_code_name(phase2: &SignalCode) -> (r: String)
    ensures
        r@ == partner_code_text(*phase2),
{
    SignalCode::new(ObservationType::Code, phase2.band, phase2.attribute).to_string()
}

/// Signal display name, e.g. GPSM1C
pub fn signal_name(system: GnssSystem, code: &SignalCode) -> (r: String)
    ensures
        r@ == signal_name_text(system, *code),
{
    let mut s = String::new();
    system.push_abbrev(&mut s);
    push_char(&mut s, 'M');
    push_decimal(&mut s, code.band as u32);
    push_char(&mut s, code.attribute);
    assert(s@ =~= signal_name_text(system, *code));
    s
}

/// Name of the slip counter of a phase signal, e.g. GPSL2W
pub fn slip_counter_name(system: GnssSystem, code: &SignalCode) -> (r: String)
    ensures
        r@ == slip_counter_text(system, *code),
{
    let mut s = String::new();
    system.push_abbrev(&mut s);
    code.push_text(&mut s);
    assert(s@ =~= slip_counter_text(system, *code));
    s
}

/// Different (constellation, pseudorange) pairs get different series names.
pub proof fn law_signal_names_distinct(s1: GnssSystem, c1: SignalCode, s2: GnssSystem, c2: SignalCode)
    requires
        c1.band <= 9,
        c2.band <= 9,
        signal_name_text(s1, c1) == signal_name_text(s2, c2),
    ensures
        s1 == s2,
        c1.band == c2.band,
        c1.attribute == c2.attribute,
{
    let t1 = signal_name_text(s1, c1);
    let t2 = signal_name_text(s2, c2);
    assert(decimal(c1.band as nat) == seq![crate::text::digit_of(c1.band as nat)]);
    assert(decimal(c2.band as nat) == seq![crate::text::digit_of(c2.band as nat)]);
    assert(t1.len() == 6);
    assert(t1[0] == t2[0] && t1[1] == t2[1] && t1[2] == t2[2]);
    assert(t1[4] == t2[4]);
    assert(t1[5] == t2[5]);
    assert(c1.attribute == t1[5]);
    assert(c2.attribute == t2[5]);
    lemma_u8_char_injective((48 + c1.band) as u8, (48 + c2.band) as u8);
    assert(system_abbrev(s1) =~= t1.subrange(0, 3));
    assert(system_abbrev(s2) =~= t2.subrange(0, 3));
    assert(t1.subrange(0, 3) =~= t2.subrange(0, 3));
    lemma_abbrev_injective(s1, s2);
}

/// Different (constellation, phase) pairs get different slip counter names: the counter
/// name keeps the constellation, the observable kind, the band and the attribute.
pub proof fn law_slip_counter_names_distinct(s1: GnssSystem, c1: SignalCode, s2: GnssSystem, c2: SignalCode)
    requires
        c1.band <= 9,
        c2.band <= 9,
        slip_counter_text(s1, c1) == slip_counter_text(s2, c2),
    ensures
        s1 == s2,
        c1 == c2,
{
    let t1 = slip_counter_text(s1, c1);
    let t2 = slip_counter_text(s2, c2);
    assert(decimal(c1.band as nat) == seq![crate::text::digit_of(c1.band as nat)]);
    assert(decimal(c2.band as nat) == seq![crate::text::digit_of(c2.band as nat)]);
    assert(t1.len() == 6);
    assert(t1[0] == t2[0] && t1[1] == t2[1] && t1[2] == t2[2]);
    assert(t1[3] == t2[3]);
    assert(t1[4] == t2[4]);
    assert(t1[5] == t2[5]);
    assert(c1.attribute == t1[5]);
    assert(c2.attribute == t2[5]);
    assert(crate::gnss::obs_letter(c1.obs_type) == t1[3]);
    assert(crate::gnss::obs_letter(c2.obs_type) == t2[3]);
    assert(c1.obs_type == c2.obs_type);
    lemma_u8_char_injective((48 + c1.band) as u8, (48 + c2.band) as u8);
    assert(system_abbrev(s1) =~= t1.subrange(0, 3));
    assert(system_abbrev(s2) =~= t2.subrange(0, 3));
    assert(t1.subrange(0, 3) =~= t2.subrange(0, 3));
    lemma_abbrev_injective(s1, s2);
}

proof fn lemma_u8_char_injective(x: u8, y: u8)
    requires
        (x as char) == (y as char),
    ensures
        x == y,
{
}

proof fn lemma_abbrev_injective(s1: GnssSystem, s2: GnssSystem)
    requires
        system_abbrev(s1) == system_abbrev(s2),
    ensures
        s1 == s2,
{
    let a = system_abbrev(s1);
    let b = system_abbrev(s2);
    assert(a[0] == b[0] && a[1] == b[1] && a[2] == b[2]);
}

} // verus!
