//! Carrier frequencies, partner-band priorities and frequency separation.
//!
//! Frequencies are exact integers in hertz; GLONASS FDMA bands depend on the
//! frequency channel number (FCN).
use vstd::prelude::*;
use crate::gnss::{GnssSystem, Satellite};

verus! {

/// Speed of light in vacuum (m/s).
pub const SPEED_OF_LIGHT_M_S: u64 = 299792458;

/// Smallest accepted |α − 1|, α = (f₁/f₂)², for a dual-frequency pair, as the fraction
/// 1/`MIN_SEPARATION_DENOM` (that is, 0.05).
pub const MIN_SEPARATION_DENOM: u64 = 20;

/// Whether a GLONASS frequency channel number is in the broadcast range −7..=6.
pub open spec fn fcn_ok(k: int) -> bool {
    -7 <= k && k <= 6
}

/// Carrier frequency (Hz) of a band of a constellation; GLONASS FDMA bands use the channel
/// number `k` (channel 0 when none is given).
pub open spec fn freq_of(sys: GnssSystem, band: u8, fcn: Option<i8>) -> Option<int> {
    let k: int = match fcn {
        Some(x) => x as int,
        None => 0,
    };
    match sys {
        GnssSystem::Gps | GnssSystem::Qzss => if band == 1 {
            Some(1575420000)
        } else if band == 2 {
            Some(1227600000)
        } else if band == 5 {
            Some(1176450000)
        } else if band == 6 && sys == GnssSystem::Qzss {
            Some(1278750000)
        } else {
            None
        },
        GnssSystem::Glonass => if band == 1 {
            if fcn_ok(k) {
                Some(1602000000 + k * 562500)
            } else {
                None
            }
        } else if band == 2 {
            if fcn_ok(k) {
                Some(1246000000 + k * 437500)
            } else {
                None
            }
        } else if band == 3 {
            Some(1202025000)
        } else if band == 4 {
            Some(1600995000)
        } else if band == 6 {
            Some(1248060000)
        } else {
            None
        },
        GnssSystem::Galileo => if band == 1 {
            Some(1575420000)
        } else if band == 5 {
            Some(1176450000)
        } else if band == 7 {
            Some(1207140000)
        } else if band == 8 {
            Some(1191795000)
        } else if band == 6 {
            Some(1278750000)
        } else {
            None
        },
        GnssSystem::Beidou => if band == 1 {
            Some(1575420000)
        } else if band == 2 {
            Some(1561098000)
        } else if band == 5 {
            Some(1176450000)
        } else if band == 7 {
            Some(1207140000)
        } else if band == 8 {
            Some(1191795000)
        } else if band == 6 {
            Some(1268520000)
        } else {
            None
        },
        GnssSystem::Navic => if band == 5 {
            Some(1176450000)
        } else if band == 9 {
            Some(2492028000)
        } else if band == 1 {
            Some(1575420000)
        } else {
            None
        },
        GnssSystem::Sbas => if band == 1 {
            Some(1575420000)
        } else if band == 5 {
            Some(1176450000)
        } else {
            None
        },
    }
}

/// Carrier frequency in hertz, or `None` for a band that the constellation does not
/// transmit (or a GLONASS channel number outside −7..=6).
pub fn frequency_hz(sys: GnssSystem, band: u8, fcn: Option<i8>) -> (r: Option<u64>)
    ensures
        r matches Some(f) ==> freq_of(sys, band, fcn) == Some(f as int),
        r is None ==> freq_of(sys, band, fcn) is None,
{
    let k: i64 = match fcn {
        Some(x) => x as i64,
        None => 0,
    };
    match sys {
        GnssSystem::Gps | GnssSystem::Qzss => {
            if band == 1 {
                Some(1575420000)
            } else if band == 2 {
                Some(1227600000)
            } else if band == 5 {
                Some(1176450000)
            } else if band == 6 && sys == GnssSystem::Qzss {
                Some(1278750000)
            } else {
                None
            }
        },
        GnssSystem::Glonass => {
            if band == 1 {
                if -7 <= k && k <= 6 {
                    Some((1602000000i64 + k * 562500) as u64)
                } else {
                    None
                }
            } else if band == 2 {
                if -7 <= k && k <= 6 {
                    Some((1246000000i64 + k * 437500) as u64)
                } else {
                    None
                }
            } else if band == 3 {
                Some(1202025000)
            } else if band == 4 {
                Some(1600995000)
            } else if band == 6 {
                Some(1248060000)
            } else {
                None
            }
        },
        GnssSystem::Galileo => {
            if band == 1 {
                Some(1575420000)
            } else if band == 5 {
                Some(1176450000)
            } else if band == 7 {
                Some(1207140000)
            } else if band == 8 {
                Some(1191795000)
            } else if band == 6 {
                Some(1278750000)
            } else {
                None
            }
        },
        GnssSystem::Beidou => {
            if band == 1 {
                Some(1575420000)
            } else if band == 2 {
                Some(1561098000)
            } else if band == 5 {
                Some(1176450000)
            } else if band == 7 {
                Some(1207140000)
            } else if band == 8 {
                Some(1191795000)
            } else if band == 6 {
                Some(1268520000)
            } else {
                None
            }
        },
        GnssSystem::Navic => {
            if band == 5 {
                Some(1176450000)
            } else if band == 9 {
                Some(2492028000)
            } else if band == 1 {
                Some(1575420000)
            } else {
                None
            }
        },
        GnssSystem::Sbas => {
            if band == 1 {
                Some(1575420000)
            } else if band == 5 {
                Some(1176450000)
            } else {
                None
            }
        },
    }
}

/// A tenth of the GNSS fundamental frequency of 10.23 MHz, in hertz.
pub open spec fn f0_tenth() -> int {
    1023000
}

/// The published carriers, as multiples of 1.023 MHz (CDMA signals, whatever channel is
/// given) and as 1602 MHz + k·9/16 MHz and 1246 MHz + k·7/16 MHz for the GLONASS FDMA
/// channels k = −7..=6 (channel 0 when none is given).
pub proof fn law_published_carriers(fcn: Option<i8>)
    ensures
        freq_of(GnssSystem::Gps, 1, fcn) == Some(1540 * f0_tenth()),
        freq_of(GnssSystem::Gps, 2, fcn) == Some(1200 * f0_tenth()),
        freq_of(GnssSystem::Gps, 5, fcn) == Some(1150 * f0_tenth()),
        freq_of(GnssSystem::Qzss, 1, fcn) == Some(1540 * f0_tenth()),
        freq_of(GnssSystem::Qzss, 2, fcn) == Some(1200 * f0_tenth()),
        freq_of(GnssSystem::Qzss, 5, fcn) == Some(1150 * f0_tenth()),
        freq_of(GnssSystem::Qzss, 6, fcn) == Some(1250 * f0_tenth()),
        freq_of(GnssSystem::Glonass, 3, fcn) == Some(1175 * f0_tenth()),
        freq_of(GnssSystem::Glonass, 4, fcn) == Some(1565 * f0_tenth()),
        freq_of(GnssSystem::Glonass, 6, fcn) == Some(1220 * f0_tenth()),
        freq_of(GnssSystem::Galileo, 1, fcn) == Some(1540 * f0_tenth()),
        freq_of(GnssSystem::Galileo, 5, fcn) == Some(1150 * f0_tenth()),
        freq_of(GnssSystem::Galileo, 6, fcn) == Some(1250 * f0_tenth()),
        freq_of(GnssSystem::Galileo, 7, fcn) == Some(1180 * f0_tenth()),
        freq_of(GnssSystem::Galileo, 8, fcn) == Some(1165 * f0_tenth()),
        freq_of(GnssSystem::Beidou, 1, fcn) == Some(1540 * f0_tenth()),
        freq_of(GnssSystem::Beidou, 2, fcn) == Some(1526 * f0_tenth()),
        freq_of(GnssSystem::Beidou, 5, fcn) == Some(1150 * f0_tenth()),
        freq_of(GnssSystem::Beidou, 6, fcn) == Some(1240 * f0_tenth()),
        freq_of(GnssSystem::Beidou, 7, fcn) == Some(1180 * f0_tenth()),
        freq_of(GnssSystem::Beidou, 8, fcn) == Some(1165 * f0_tenth()),
        freq_of(GnssSystem::Navic, 1, fcn) == Some(1540 * f0_tenth()),
        freq_of(GnssSystem::Navic, 5, fcn) == Some(1150 * f0_tenth()),
        freq_of(GnssSystem::Navic, 9, fcn) == Some(2436 * f0_tenth()),
        freq_of(GnssSystem::Sbas, 1, fcn) == Some(1540 * f0_tenth()),
        freq_of(GnssSystem::Sbas, 5, fcn) == Some(1150 * f0_tenth()),
        forall|k: i8|
            -7 <= k <= 6 ==> #[trigger] freq_of(GnssSystem::Glonass, 1, Some(k)) == Some(1602000000 + 9 * 62500 * (k as int)),
        forall|k: i8|
            -7 <= k <= 6 ==> #[trigger] freq_of(GnssSystem::Glonass, 2, Some(k)) == Some(1246000000 + 7 * 62500 * (k as int)),
        freq_of(GnssSystem::Glonass, 1, None) == Some(1602000000int),
        freq_of(GnssSystem::Glonass, 2, None) == Some(1246000000int),
{
    assert forall|k: i8| -7 <= k <= 6 implies #[trigger] freq_of(GnssSystem::Glonass, 1, Some(k)) == Some(
        1602000000 + 9 * 62500 * (k as int),
    ) by {
        let kk = k as int;
        assert(fcn_ok(kk));
        assert(freq_of(GnssSystem::Glonass, 1, Some(k)) == Some(1602000000 + kk * 562500));
        assert(kk * 562500 == 9 * 62500 * kk) by (nonlinear_arith);
    }
    assert forall|k: i8| -7 <= k <= 6 implies #[trigger] freq_of(GnssSystem::Glonass, 2, Some(k)) == Some(
        1246000000 + 7 * 62500 * (k as int),
    ) by {
        let kk = k as int;
        assert(fcn_ok(kk));
        assert(freq_of(GnssSystem::Glonass, 2, Some(k)) == Some(1246000000 + kk * 437500));
        assert(kk * 437500 == 7 * 62500 * kk) by (nonlinear_arith);
    }
}

/// Every partner band of a constellation has a carrier frequency, for every GLONASS channel
/// in −7..=6 (and when no channel is given).
pub proof fn law_partner_bands_have_frequencies(sys: GnssSystem, fcn: Option<i8>, i: int)
    requires
        0 <= i < partner_list(sys).len(),
        fcn matches Some(k) ==> -7 <= k <= 6,
    ensures
        freq_of(sys, partner_list(sys)[i], fcn) is Some,
{
}

/// Every carrier frequency of the table lies between 1 GHz and 3 GHz.
pub proof fn lemma_freq_range(sys: GnssSystem, band: u8, fcn: Option<i8>)
    ensures
        freq_of(sys, band, fcn) matches Some(f) ==> 1000000000 <= f <= 3000000000,
{
}

/// Partner bands of a constellation, in the order in which they are tried as the second
/// frequency of a dual-frequency combination.
pub open spec fn partner_list(sys: GnssSystem) -> Seq<u8> {
    match sys {
        GnssSystem::Gps => seq![1u8, 2u8, 5u8],
        GnssSystem::Glonass => seq![1u8, 2u8, 3u8],
        GnssSystem::Galileo => seq![1u8, 5u8, 7u8, 8u8, 6u8],
        GnssSystem::Beidou => seq![2u8, 1u8, 7u8, 5u8, 6u8],
        GnssSystem::Qzss => seq![1u8, 2u8, 5u8],
        GnssSystem::Navic => seq![5u8, 9u8],
        GnssSystem::Sbas => seq![1u8, 5u8],
    }
}

/// The partner bands of a constellation in priority order.
pub fn partner_bands(sys: GnssSystem) -> (r: Vec<u8>)
    ensures
        r@ == partner_list(sys),
{
    let r = match sys {
        GnssSystem::Gps => vec![1u8, 2u8, 5u8],
        GnssSystem::Glonass => vec![1u8, 2u8, 3u8],
        GnssSystem::Galileo => vec![1u8, 5u8, 7u8, 8u8, 6u8],
        GnssSystem::Beidou => vec![2u8, 1u8, 7u8, 5u8, 6u8],
        GnssSystem::Qzss => vec![1u8, 2u8, 5u8],
        GnssSystem::Navic => vec![5u8, 9u8],
        GnssSystem::Sbas => vec![1u8, 5u8],
    };
    assert(r@ =~= partner_list(sys));
    r
}

/// Two frequencies are far enough apart for a combination: |α − 1| ≥ 1/20 with
/// α = (f₁/f₂)², written without division.
pub open spec fn well_separated(f1: int, f2: int) -> bool {
    let d = f1 * f1 - f2 * f2;
    let ad = if d < 0 { -d } else { d };
    MIN_SEPARATION_DENOM * ad >= f2 * f2
}

/// Whether two carrier frequencies are far enough apart for a dual-frequency combination.
pub fn separated(f1: u64, f2: u64) -> (r: bool)
    ensures
        r == well_separated(f1 as int, f2 as int),
{
    assert((f1 as int) * (f1 as int) <= 0xffff_ffff_ffff_ffffint * 0xffff_ffff_ffff_ffffint) by (nonlinear_arith)
        requires
            f1 <= 0xffff_ffff_ffff_ffffu64,
    ;
    assert((f2 as int) * (f2 as int) <= 0xffff_ffff_ffff_ffffint * 0xffff_ffff_ffff_ffffint) by (nonlinear_arith)
        requires
            f2 <= 0xffff_ffff_ffff_ffffu64,
    ;
    let a = (f1 as u128) * (f1 as u128);
    let b = (f2 as u128) * (f2 as u128);
    let ad = if a >= b {
        a - b
    } else {
        b - a
    };
    if ad > u128::MAX / 20 {
        // 20·ad exceeds every value of u128, b among them
        true
    } else {
        20u128 * ad >= b
    }
}

/// The channel number listed for a slot: the first entry of the list for that slot.
pub open spec fn listed_fcn(m: Seq<(u32, i8)>, prn: u32) -> Option<i8>
    decreases m.len(),
{
    if m.len() == 0 {
        None
    } else if m[0].0 == prn {
        Some(m[0].1)
    } else {
        listed_fcn(m.drop_first(), prn)
    }
}

/// The frequency channel used for a satellite: for GLONASS the channel number listed for
/// its slot, channel 0 when the slot is not listed; no channel for other constellations.
pub open spec fn channel_of(sat: Satellite, fcn_map: Seq<(u32, i8)>) -> Option<i8> {
    if sat.system == GnssSystem::Glonass {
        match listed_fcn(fcn_map, sat.prn) {
            Some(k) => Some(k),
            None => Some(0i8),
        }
    } else {
        None
    }
}

/// Frequency channel number for a satellite (see `channel_of`).
pub fn fcn_for(sat: &Satellite, fcn_map: &Vec<(u32, i8)>) -> (r: Option<i8>)
    ensures
        r == channel_of(*sat, fcn_map@),
{
    if sat.system != GnssSystem::Glonass {
        return None;
    }
    let mut i: usize = 0;
    assert(fcn_map@.skip(0) =~= fcn_map@);
    while i < fcn_map.len()
        invariant
            i <= fcn_map.len(),
            sat.system == GnssSystem::Glonass,
            listed_fcn(fcn_map@, sat.prn) == listed_fcn(fcn_map@.skip(i as int), sat.prn),
        decreases fcn_map.len() - i,
    {
        assert(fcn_map@.skip(i as int)[0] == fcn_map@[i as int]);
        if fcn_map[i].0 == sat.prn {
            return Some(fcn_map[i].1);
        }
        assert(fcn_map@.skip(i as int).drop_first() =~= fcn_map@.skip(i + 1));
        i = i + 1;
    }
    Some(0i8)
}

} // verus!
