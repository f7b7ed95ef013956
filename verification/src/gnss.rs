//! GNSS constellations, satellites and RINEX signal codes.
use vstd::prelude::*;
use crate::text::{
    decimal, digit_char, digit_of, digit_value, digits_value, is_digit, push_char, push_decimal,
    str_chars,
};

verus! {

/// A GNSS constellation.
#[derive(Clone, Copy, Debug, PartialEq, Eq, Hash, Structural)]
pub enum GnssSystem {
    Gps,
    Glonass,
    Galileo,
    Beidou,
    Qzss,
    Navic,
    Sbas,
}

/// The RINEX system letter of a constellation.
pub open spec fn system_letter(s: GnssSystem) -> char {
    match s {
        GnssSystem::Gps => 'G',
        GnssSystem::Glonass => 'R',
        GnssSystem::Galileo => 'E',
        GnssSystem::Beidou => 'C',
        GnssSystem::Qzss => 'J',
        GnssSystem::Navic => 'I',
        GnssSystem::Sbas => 'S',
    }
}

/// The constellation of a RINEX system letter, if it names one.
pub open spec fn system_of_letter(c: char) -> Option<GnssSystem> {
    if c == 'G' {
        Some(GnssSystem::Gps)
    } else if c == 'R' {
        Some(GnssSystem::Glonass)
    } else if c == 'E' {
        Some(GnssSystem::Galileo)
    } else if c == 'C' {
        Some(GnssSystem::Beidou)
    } else if c == 'J' {
        Some(GnssSystem::Qzss)
    } else if c == 'I' {
        Some(GnssSystem::Navic)
    } else if c == 'S' {
        Some(GnssSystem::Sbas)
    } else {
        None
    }
}

/// The three-letter constellation abbreviation used in signal names (`GPS`, `GLO`, ...).
pub open spec fn system_abbrev(s: GnssSystem) -> Seq<char> {
    match s {
        GnssSystem::Gps => seq!['G', 'P', 'S'],
        GnssSystem::Glonass => seq!['G', 'L', 'O'],
        GnssSystem::Galileo => seq!['G', 'A', 'L'],
        GnssSystem::Beidou => seq!['B', 'D', 'S'],
        GnssSystem::Qzss => seq!['Q', 'Z', 'S'],
        GnssSystem::Navic => seq!['I', 'R', 'N'],
        GnssSystem::Sbas => seq!['S', 'B', 'S'],
    }
}

/// A letter that parses to a system maps back to that letter, and no other letter does.
pub proof fn lemma_system_letter_roundtrip(c: char, s: GnssSystem)
    ensures
        system_of_letter(system_letter(s)) == Some(s),
        system_of_letter(c) == Some(s) <==> c == system_letter(s),
{
}

impl GnssSystem {
    /// The RINEX system letter (`G`, `R`, `E`, `C`, `J`, `I`, `S`).
    pub fn to_char(&self) -> (c: char)
        ensures
            c == system_letter(*self),
    {
        match self {
            GnssSystem::Gps => 'G',
            GnssSystem::Glonass => 'R',
            GnssSystem::Galileo => 'E',
            GnssSystem::Beidou => 'C',
            GnssSystem::Qzss => 'J',
            GnssSystem::Navic => 'I',
            GnssSystem::Sbas => 'S',
        }
    }

    /// The constellation named by a RINEX system letter.
    pub fn from_char(c: char) -> (r: Option<GnssSystem>)
        ensures
            r == system_of_letter(c),
    {
        if c == 'G' {
            Some(GnssSystem::Gps)
        } else if c == 'R' {
            Some(GnssSystem::Glonass)
        } else if c == 'E' {
            Some(GnssSystem::Galileo)
        } else if c == 'C' {
            Some(GnssSystem::Beidou)
        } else if c == 'J' {
            Some(GnssSystem::Qzss)
        } else if c == 'I' {
            Some(GnssSystem::Navic)
        } else if c == 'S' {
            Some(GnssSystem::Sbas)
        } else {
            None
        }
    }

    /// Appends the three-letter abbreviation of the constellation.
    pub fn push_abbrev(&self, s: &mut String)
        ensures
            final(s)@ == old(s)@ + system_abbrev(*self),
    {
        let (a, b, c) = match self {
            GnssSystem::Gps => ('G', 'P', 'S'),
            GnssSystem::Glonass => ('G', 'L', 'O'),
            GnssSystem::Galileo => ('G', 'A', 'L'),
            GnssSystem::Beidou => ('B', 'D', 'S'),
            GnssSystem::Qzss => ('Q', 'Z', 'S'),
            GnssSystem::Navic => ('I', 'R', 'N'),
            GnssSystem::Sbas => ('S', 'B', 'S'),
        };
        push_char(s, a);
        push_char(s, b);
        push_char(s, c);
        assert(final(s)@ =~= old(s)@ + system_abbrev(*self));
    }

    /// The three-letter abbreviation of the constellation (`GPS`, `GLO`, `GAL`, `BDS`, ...).
    pub fn abbrev(&self) -> (r: String)
        ensures
            r@ == system_abbrev(*self),
    {
        let mut s = String::new();
        self.push_abbrev(&mut s);
        assert(s@ =~= system_abbrev(*self));
        s
    }
}

/// Kind of a RINEX observable.
#[derive(Clone, Copy, Debug, PartialEq, Eq, Hash, Structural)]
pub enum ObservationType {
    /// Pseudorange
    Code,
    /// Carrier phase
    Phase,
    /// Doppler
    Doppler,
    /// Signal strength
    Snr,
}

/// The RINEX letter of an observable kind.
pub open spec fn obs_letter(t: ObservationType) -> char {
    match t {
        ObservationType::Code => 'C',
        ObservationType::Phase => 'L',
        ObservationType::Doppler => 'D',
        ObservationType::Snr => 'S',
    }
}

/// The observable kind of a RINEX letter.
pub open spec fn obs_of_letter(c: char) -> Option<ObservationType> {
    if c == 'C' {
        Some(ObservationType::Code)
    } else if c == 'L' {
        Some(ObservationType::Phase)
    } else if c == 'D' {
        Some(ObservationType::Doppler)
    } else if c == 'S' {
        Some(ObservationType::Snr)
    } else {
        None
    }
}

impl ObservationType {
    /// The RINEX letter of the observable kind.
    pub fn to_char(&self) -> (c: char)
        ensures
            c == obs_letter(*self),
    {
        match self {
            ObservationType::Code => 'C',
            ObservationType::Phase => 'L',
            ObservationType::Doppler => 'D',
            ObservationType::Snr => 'S',
        }
    }

    /// The observable kind of a RINEX letter.
    pub fn from_char(c: char) -> (r: Option<ObservationType>)
        ensures
            r == obs_of_letter(c),
    {
        if c == 'C' {
            Some(ObservationType::Code)
        } else if c == 'L' {
            Some(ObservationType::Phase)
        } else if c == 'D' {
            Some(ObservationType::Doppler)
        } else if c == 'S' {
            Some(ObservationType::Snr)
        } else {
            None
        }
    }
}

/// A RINEX 3 observation code: kind, frequency band and tracking attribute (e.g. `L1C`).
#[derive(Clone, Copy, Debug, PartialEq, Eq, Hash, Structural)]
pub struct SignalCode {
    pub obs_type: ObservationType,
    pub band: u8,
    pub attribute: char,
}

/// The text of a signal code: kind letter, band number, attribute (`C1C`, `L2W`).
pub open spec fn code_text(c: SignalCode) -> Seq<char> {
    seq![obs_letter(c.obs_type)] + decimal(c.band as nat) + seq![c.attribute]
}

/// Whether a character is accepted as a tracking attribute.
pub open spec fn is_attribute(c: char) -> bool {
    'A' <= c && c <= 'Z'
}

/// The signal code that a three-character text names, if any.
pub open spec fn parse_code(s: Seq<char>) -> Option<SignalCode> {
    if s.len() == 3 && obs_of_letter(s[0]).is_some() && '1' <= s[1] && s[1] <= '9' && is_attribute(
        s[2],
    ) {
        Some(
            SignalCode {
                obs_type: obs_of_letter(s[0]).unwrap(),
                band: digit_value(s[1]) as u8,
                attribute: s[2],
            },
        )
    } else {
        None
    }
}

/// Strict order of signal codes by (band, attribute).
pub open spec fn band_attr_lt(a: SignalCode, b: SignalCode) -> bool {
    a.band < b.band || (a.band == b.band && (a.attribute as u32) < (b.attribute as u32))
}

impl SignalCode {
    pub fn new(obs_type: ObservationType, band: u8, attribute: char) -> (r: SignalCode)
        ensures
            r == (SignalCode { obs_type, band, attribute }),
    {
        SignalCode { obs_type, band, attribute }
    }

    pub fn is_phase(&self) -> (b: bool)
        ensures
            b == (self.obs_type == ObservationType::Phase),
    {
        self.obs_type == ObservationType::Phase
    }

    pub fn is_code(&self) -> (b: bool)
        ensures
            b == (self.obs_type == ObservationType::Code),
    {
        self.obs_type == ObservationType::Code
    }

    pub fn is_snr(&self) -> (b: bool)
        ensures
            b == (self.obs_type == ObservationType::Snr),
    {
        self.obs_type == ObservationType::Snr
    }

    /// Parses a three-character code such as `L1C`: a kind letter (`C`, `L`, `D`, `S`),
    /// a band digit `1`-`9` and an upper-case attribute letter.
    pub fn parse(s: &str) -> (r: Option<SignalCode>)
        ensures
            r == parse_code(s@),
    {
        let cs = str_chars(s);
        if cs.len() != 3 {
            return None;
        }
        let t = ObservationType::from_char(cs[0]);
        let b = cs[1];
        let a = cs[2];
        match t {
            Some(obs_type) => {
                if '1' <= b && b <= '9' && 'A' <= a && a <= 'Z' {
                    let band = ((b as u32) - 48) as u8;
                    Some(SignalCode { obs_type, band, attribute: a })
                } else {
                    None
                }
            },
            None => None,
        }
    }

    /// Appends the text of the code.
    pub fn push_text(&self, s: &mut String)
        ensures
            final(s)@ == old(s)@ + code_text(*self),
    {
        push_char(s, self.obs_type.to_char());
        push_decimal(s, self.band as u32);
        push_char(s, self.attribute);
        assert(final(s)@ =~= old(s)@ + code_text(*self));
    }

    /// The text of the code, e.g. `C1C`.
    pub fn to_string(&self) -> (r: String)
        ensures
            r@ == code_text(*self),
    {
        let mut s = String::new();
        self.push_text(&mut s);
        assert(s@ =~= code_text(*self));
        s
    }

    /// Whether `self` sorts strictly before `other` by (band, attribute).
    pub fn band_attr_before(&self, other: &SignalCode) -> (r: bool)
        ensures
            r == band_attr_lt(*self, *other),
    {
        self.band < other.band || (self.band == other.band && (self.attribute as u32)
            < (other.attribute as u32))
    }
}

/// A satellite: constellation and PRN/slot number.
#[derive(Clone, Copy, Debug, PartialEq, Eq, Hash, Structural)]
pub struct Satellite {
    pub system: GnssSystem,
    pub prn: u32,
}

/// A PRN as written in a satellite id: two digits at least (`01`, `12`, `123`).
pub open spec fn prn_text(prn: nat) -> Seq<char> {
    if prn < 10 {
        seq!['0', digit_of(prn)]
    } else {
        decimal(prn)
    }
}

/// The id of a satellite, e.g. `G01`.
pub open spec fn sat_text(s: Satellite) -> Seq<char> {
    seq![system_letter(s.system)] + prn_text(s.prn as nat)
}

/// Whether every character of a sequence is an ASCII digit.
pub open spec fn all_digits(s: Seq<char>) -> bool {
    forall|i: int| 0 <= i < s.len() ==> is_digit(#[trigger] s[i])
}

/// The satellite that a text names: a system letter followed by one to three digits
/// giving a PRN of at least 1.
pub open spec fn parse_sat(s: Seq<char>) -> Option<Satellite> {
    if 2 <= s.len() && s.len() <= 4 && system_of_letter(s[0]).is_some() && all_digits(
        s.drop_first(),
    ) && digits_value(s.drop_first()) >= 1 {
        Some(
            Satellite {
                system: system_of_letter(s[0]).unwrap(),
                prn: digits_value(s.drop_first()) as u32,
            },
        )
    } else {
        None
    }
}

/// Ten to the power `n`.
pub open spec fn pow10(n: nat) -> nat
    decreases n,
{
    if n == 0 {
        1
    } else {
        10 * pow10((n - 1) as nat)
    }
}

impl Satellite {
    pub fn new(system: GnssSystem, prn: u32) -> (r: Satellite)
        ensures
            r == (Satellite { system, prn }),
    {
        Satellite { system, prn }
    }

    /// Parses a satellite id such as `G01` or `R7`.
    pub fn parse(s: &str) -> (r: Option<Satellite>)
        ensures
            r == parse_sat(s@),
    {
        let cs = str_chars(s);
        let n = cs.len();
        if n < 2 || n > 4 {
            return None;
        }
        let system = match GnssSystem::from_char(cs[0]) {
            Some(x) => x,
            None => return None,
        };
        let ghost rest = cs@.drop_first();
        let mut v: u32 = 0;
        let mut i: usize = 1;
        while i < n
            invariant
                n == cs@.len(),
                cs@ == s@,
                2 <= n <= 4,
                1 <= i <= n,
                rest == cs@.drop_first(),
                all_digits(rest.take(i - 1)),
                v == digits_value(rest.take(i - 1)),
                v < pow10((i - 1) as nat),
            decreases n - i,
        {
            let c = cs[i];
            if !('0' <= c && c <= '9') {
                assert(!all_digits(rest)) by {
                    assert(rest[i - 1] == c);
                    assert(!is_digit(rest[i - 1]));
                }
                assert(s@.drop_first() == rest);
                return None;
            }
            proof {
                assert(rest.take(i as int).drop_last() =~= rest.take(i - 1));
                assert(rest.take(i as int).last() == c);
                assert(all_digits(rest.take(i as int))) by {
                    assert forall|k: int| 0 <= k < rest.take(i as int).len() implies is_digit(
                        #[trigger] rest.take(i as int)[k],
                    ) by {
                        if k < i - 1 {
                            assert(rest.take(i as int)[k] == rest.take(i - 1)[k]);
                        }
                    }
                }
                assert(pow10(i as nat) == 10 * pow10((i - 1) as nat));
                reveal_with_fuel(pow10, 4);
            }
            v = v * 10 + ((c as u32) - 48);
            i = i + 1;
        }
        assert(rest.take(n - 1) =~= rest);
        if v == 0 {
            return None;
        }
        Some(Satellite { system, prn: v })
    }

    /// Appends the id of the satellite.
    pub fn push_id(&self, s: &mut String)
        ensures
            final(s)@ == old(s)@ + sat_text(*self),
    {
        push_char(s, self.system.to_char());
        if self.prn < 10 {
            push_char(s, '0');
            push_char(s, digit_char(self.prn as u8));
        } else {
            push_decimal(s, self.prn);
        }
        assert(final(s)@ =~= old(s)@ + sat_text(*self));
    }

    /// The id of the satellite, e.g. `G01`.
    pub fn to_string(&self) -> (r: String)
        ensures
            r@ == sat_text(*self),
    {
        let mut s = String::new();
        self.push_id(&mut s);
        assert(s@ =~= sat_text(*self));
        s
    }
}

proof fn lemma_digit_of(d: nat)
    requires
        d < 10,
    ensures
        is_digit(digit_of(d)),
        digit_value(digit_of(d)) == d,
        (digit_of(d) as u32) == 48 + d,
{
}

proof fn lemma_decimal_digits(n: nat)
    ensures
        all_digits(decimal(n)),
        digits_value(decimal(n)) == n,
        n < 10 ==> decimal(n).len() == 1,
        10 <= n < 100 ==> decimal(n).len() == 2,
        100 <= n < 1000 ==> decimal(n).len() == 3,
    decreases n,
{
    if n < 10 {
        lemma_digit_of(n);
        assert(decimal(n).drop_last() =~= Seq::<char>::empty());
        assert(digits_value(Seq::<char>::empty()) == 0);
        assert(digits_value(decimal(n)) == digits_value(decimal(n).drop_last()) * 10 + digit_value(decimal(n).last()));
    } else {
        lemma_decimal_digits(n / 10);
        lemma_digit_of(n % 10);
        let d = decimal(n);
        assert(d.drop_last() =~= decimal(n / 10));
        assert(d.last() == digit_of(n % 10));
        assert((n / 10) * 10 + n % 10 == n) by (nonlinear_arith);
        assert forall|i: int| 0 <= i < d.len() implies is_digit(#[trigger] d[i]) by {
            if i < d.len() - 1 {
                assert(d[i] == decimal(n / 10)[i]);
            }
        }
    }
}

/// Reading back the text of a signal code with a band digit 1-9 and an upper-case
/// attribute gives the same code.
pub proof fn law_code_text_roundtrip(c: SignalCode)
    requires
        1 <= c.band <= 9,
        is_attribute(c.attribute),
    ensures
        parse_code(code_text(c)) == Some(c),
{
    lemma_digit_of(c.band as nat);
    let t = code_text(c);
    assert(decimal(c.band as nat) =~= seq![digit_of(c.band as nat)]);
    assert(t =~= seq![obs_letter(c.obs_type), digit_of(c.band as nat), c.attribute]);
    assert(obs_of_letter(obs_letter(c.obs_type)) == Some(c.obs_type));
}

/// Reading back the id of a satellite with a PRN between 1 and 999 gives the same
/// satellite.
pub proof fn law_sat_text_roundtrip(s: Satellite)
    requires
        1 <= s.prn <= 999,
    ensures
        parse_sat(sat_text(s)) == Some(s),
{
    let t = sat_text(s);
    let p = prn_text(s.prn as nat);
    lemma_system_letter_roundtrip(system_letter(s.system), s.system);
    assert(t.drop_first() =~= p);
    if s.prn < 10 {
        lemma_digit_of(s.prn as nat);
        assert(p.drop_last() =~= seq!['0']);
        assert(seq!['0'].drop_last() =~= Seq::<char>::empty());
        assert(('0' as u32) == 48);
        assert(digits_value(Seq::<char>::empty()) == 0);
        assert(digits_value(seq!['0']) == digits_value(seq!['0'].drop_last()) * 10 + digit_value(seq!['0'].last()));
        assert(digits_value(seq!['0']) == 0);
        assert(all_digits(p)) by {
            assert forall|i: int| 0 <= i < p.len() implies is_digit(#[trigger] p[i]) by {}
        }
    } else {
        lemma_decimal_digits(s.prn as nat);
    }
}

} // verus!
