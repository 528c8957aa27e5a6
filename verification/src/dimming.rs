//! The day/night brightness schedule. Times are UTC epoch seconds. The
//! lights are off strictly between sunrise and sunset, ramp up over the two
//! hours before sunrise, ramp down over the three hours after sunset, and
//! run at full brightness through the rest of the night.

use vstd::prelude::*;
use vstd::arithmetic::div_mod::lemma_div_is_ordered;

verus! {

/// Length of the ramp ending at sunrise, in seconds.
pub const RAMP_BEFORE_SUNRISE: i64 = 7200;

/// Length of the ramp starting at sunset, in seconds.
pub const RAMP_AFTER_SUNSET: i64 = 10800;

/// The dimming factor for a moment `now` against the day's solar window.
pub open spec fn spec_dimming(now: int, sunrise: int, sunset: int) -> int {
    if sunrise < now && now < sunset {
        0
    } else if now < sunrise {
        if sunrise - now <= 7200 {
            255 - ((sunrise - now) * 255) / 7200
        } else {
            255
        }
    } else if now > sunset {
        if now - sunset <= 10800 {
            255 - ((now - sunset) * 255) / 10800
        } else {
            255
        }
    } else {
        255
    }
}

pub fn compute_dimming(now: i64, sunrise: i64, sunset: i64) -> (d: i64)
    requires
        -0x2000_0000_0000_0000 <= now <= 0x2000_0000_0000_0000,
        -0x2000_0000_0000_0000 <= sunrise <= 0x2000_0000_0000_0000,
        -0x2000_0000_0000_0000 <= sunset <= 0x2000_0000_0000_0000,
    ensures
        d == spec_dimming(now as int, sunrise as int, sunset as int),
        0 <= d <= 255,
        sunrise < now && now < sunset ==> d == 0,
        now < sunrise - 7200 ==> d == 255,
        sunrise <= sunset && now > sunset + 10800 ==> d == 255,
{
    if sunrise < now && now < sunset {
        0
    } else if now < sunrise {
        let delta = sunrise - now;
        if delta <= 7200 {
            proof {
                lemma_div_is_ordered(delta as int * 255, 1836000, 7200);
            }
            let q: i64 = ((delta as u64 * 255) / 7200) as i64;
            255 - q
        } else {
            255
        }
    } else if now > sunset {
        let delta = now - sunset;
        if delta <= 10800 {
            proof {
                lemma_div_is_ordered(delta as int * 255, 2754000, 10800);
            }
            let q: i64 = ((delta as u64 * 255) / 10800) as i64;
            255 - q
        } else {
            255
        }
    } else {
        255
    }
}

/// Clamp a dimming factor into the byte range before it is applied.
pub fn clamp_dimming(d: i64) -> (r: u8)
    ensures
        r == spec_clamp_dimming(d as int),
{
    if d < 0 {
        0
    } else if d > 255 {
        255
    } else {
        d as u8
    }
}

pub open spec fn spec_clamp_dimming(d: int) -> int {
    if d < 0 {
        0
    } else if d > 255 {
        255
    } else {
        d
    }
}

} // verus!
