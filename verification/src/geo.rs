//! Geographic locations and great-circle distance.
//!
//! A location's coordinates are kept in micro-degrees (millionths of a
//! degree, about 11 cm of latitude), so the whole scoring pipeline is exact
//! integer arithmetic and every run of it, on every machine, produces the
//! same ranking. Distance comes from the haversine formula with Earth radius
//! 6371 km, evaluated in fixed point: angles in nano-radians, ratios in
//! nano-units (billionths), truncated polynomial series for sine and arcsine,
//! and an exact integer square root. The result is in milli-kilometres
//! (metres), within a few kilometres of the real-valued formula even at
//! antipodal range.

use vstd::prelude::*;
use vstd::arithmetic::div_mod::{lemma_div_is_ordered, lemma_div_pos_is_pos};

verus! {

/// An approximate geographic location. Coordinates are micro-degrees;
/// display fields are carried along untouched.
#[derive(Debug)]
pub struct GeoLocation {
    pub country: String,
    pub region: String,
    pub city: String,
    pub latitude_micro_deg: i64,
    pub longitude_micro_deg: i64,
    pub timezone: String,
}

impl GeoLocation {
    /// Build a location from whatever a geolocation lookup yielded: each
    /// missing display field falls back to "Unknown" (the time zone to
    /// "UTC"), a missing coordinate to zero, and present coordinates are
    /// clamped into the valid micro-degree ranges. Resolution therefore
    /// never fails the caller: every lookup outcome maps to a location.
    pub fn from_resolved(
        country: Option<String>,
        region: Option<String>,
        city: Option<String>,
        latitude_micro_deg: Option<i64>,
        longitude_micro_deg: Option<i64>,
        timezone: Option<String>,
    ) -> (location: GeoLocation)
        ensures
            (country matches Some(name) ==> location.country == name),
            country is None ==> location.country@ == "Unknown"@,
            (region matches Some(name) ==> location.region == name),
            region is None ==> location.region@ == "Unknown"@,
            (city matches Some(name) ==> location.city == name),
            city is None ==> location.city@ == "Unknown"@,
            (latitude_micro_deg matches Some(lat) ==> location.latitude_micro_deg as int
                == clamp_spec(lat as int, -90_000_000, 90_000_000)),
            latitude_micro_deg is None ==> location.latitude_micro_deg == 0,
            (longitude_micro_deg matches Some(lon) ==> location.longitude_micro_deg as int
                == clamp_spec(lon as int, -180_000_000, 180_000_000)),
            longitude_micro_deg is None ==> location.longitude_micro_deg == 0,
            (timezone matches Some(name) ==> location.timezone == name),
            timezone is None ==> location.timezone@ == "UTC"@,
    {
        GeoLocation {
            country: match country {
                Some(name) => name,
                None => String::from_str("Unknown"),
            },
            region: match region {
                Some(name) => name,
                None => String::from_str("Unknown"),
            },
            city: match city {
                Some(name) => name,
                None => String::from_str("Unknown"),
            },
            latitude_micro_deg: match latitude_micro_deg {
                Some(lat) => clamp_i64(lat, -90_000_000, 90_000_000),
                None => 0,
            },
            longitude_micro_deg: match longitude_micro_deg {
                Some(lon) => clamp_i64(lon, -180_000_000, 180_000_000),
                None => 0,
            },
            timezone: match timezone {
                Some(name) => name,
                None => String::from_str("UTC"),
            },
        }
    }

    /// An exact copy of this location.
    pub fn duplicate(&self) -> (copy: GeoLocation)
        ensures
            copy == *self,
    {
        GeoLocation {
            country: self.country.clone(),
            region: self.region.clone(),
            city: self.city.clone(),
            latitude_micro_deg: self.latitude_micro_deg,
            longitude_micro_deg: self.longitude_micro_deg,
            timezone: self.timezone.clone(),
        }
    }
}

impl Default for GeoLocation {
    /// The sentinel location used whenever resolution fails or no
    /// geolocation data source is configured: "Unknown" at (0, 0), UTC.
    fn default() -> (location: Self)
        ensures
            location.country@ == "Unknown"@,
            location.region@ == "Unknown"@,
            location.city@ == "Unknown"@,
            location.latitude_micro_deg == 0,
            location.longitude_micro_deg == 0,
            location.timezone@ == "UTC"@,
    {
        GeoLocation {
            country: String::from_str("Unknown"),
            region: String::from_str("Unknown"),
            city: String::from_str("Unknown"),
            latitude_micro_deg: 0,
            longitude_micro_deg: 0,
            timezone: String::from_str("UTC"),
        }
    }
}

/// Clamp a value into an inclusive range.
pub open spec fn clamp_spec(x: int, lo: int, hi: int) -> int {
    if x < lo {
        lo
    } else if x > hi {
        hi
    } else {
        x
    }
}

/// Absolute value.
pub open spec fn abs_spec(x: int) -> int {
    if x < 0 {
        -x
    } else {
        x
    }
}

/// Micro-degrees to nano-radians.
pub open spec fn spec_to_nano_rad(micro_deg: int) -> int {
    micro_deg * 174_532_925 / 10_000_000
}

/// Sine on [0, pi/2], nano-radians in, nano-units out: the Taylor series
/// truncated after the eleventh power, then clamped into [0, 1].
pub open spec fn spec_sin_quarter(r: int) -> int {
    let r2 = r * r / 1_000_000_000;
    let t1 = r;
    let t2 = t1 * r2 / 1_000_000_000 / 6;
    let t3 = t2 * r2 / 1_000_000_000 / 20;
    let t4 = t3 * r2 / 1_000_000_000 / 42;
    let t5 = t4 * r2 / 1_000_000_000 / 72;
    let t6 = t5 * r2 / 1_000_000_000 / 110;
    let pos = t1 + t3 + t5;
    let neg = t2 + t4 + t6;
    if pos >= neg {
        if pos - neg > 1_000_000_000 {
            1_000_000_000
        } else {
            pos - neg
        }
    } else {
        0
    }
}

/// Sine on [0, pi], folded onto [0, pi/2] by sin(x) = sin(pi - x).
pub open spec fn spec_sin_half(r: int) -> int {
    if r <= 1_570_796_327 {
        spec_sin_quarter(r)
    } else {
        spec_sin_quarter(3_141_592_654 - r)
    }
}

/// Cosine of a latitude in micro-degrees, as cos(x) = sin(90 deg - |x|).
pub open spec fn spec_cos_lat(lat_micro: int) -> int {
    spec_sin_quarter(spec_to_nano_rad(90_000_000 - abs_spec(lat_micro)))
}

/// Squared sine of half an angle given in micro-degrees (0 to 360 degrees),
/// in nano-units.
pub open spec fn spec_half_angle_sin_sq(d_micro: int) -> int {
    let s = spec_sin_half(spec_to_nano_rad(d_micro / 2));
    s * s / 1_000_000_000
}

/// The haversine intermediate a = sin^2(dlat/2) + cos(lat1) cos(lat2)
/// sin^2(dlon/2), in nano-units, clamped into [0, 1].
pub open spec fn spec_haversine_a(lat1: int, lon1: int, lat2: int, lon2: int) -> int {
    let dlat = abs_spec(lat2 - lat1);
    let dlon = abs_spec(lon2 - lon1);
    let s1 = spec_half_angle_sin_sq(dlat);
    let s2 = spec_half_angle_sin_sq(dlon);
    let cc = spec_cos_lat(lat1) * spec_cos_lat(lat2) / 1_000_000_000;
    clamp_spec(s1 + cc * s2 / 1_000_000_000, 0, 1_000_000_000)
}

/// The integer square root: the unique r with r^2 <= n < (r+1)^2.
pub open spec fn sqrt_floor(n: int) -> int {
    choose|r: int| 0 <= r && #[trigger] (r * r) <= n && n < (r + 1) * (r + 1)
}

/// Any r with r^2 <= n < (r+1)^2 is the integer square root of n.
pub proof fn lemma_sqrt_floor_unique(n: int, r: int)
    requires
        0 <= r,
        r * r <= n,
        n < (r + 1) * (r + 1),
    ensures
        sqrt_floor(n) == r,
{
    assert(0 <= r && r * r <= n && n < (r + 1) * (r + 1));
    let c = sqrt_floor(n);
    assert(0 <= c && c * c <= n && n < (c + 1) * (c + 1)) by {
        assert(exists|x: int| 0 <= x && #[trigger] (x * x) <= n && n < (x + 1) * (x + 1));
    }
    assert(c == r) by (nonlinear_arith)
        requires
            0 <= r,
            r * r <= n,
            n < (r + 1) * (r + 1),
            0 <= c,
            c * c <= n,
            n < (c + 1) * (c + 1),
    ;
}

/// Arcsine on [0, sqrt(1/2)] and a little beyond, nano-units in,
/// nano-radians out: the Maclaurin series truncated after the fifteenth
/// power.
pub open spec fn spec_asin_small(x: int) -> int {
    let x2 = x * x / 1_000_000_000;
    let t0 = x;
    let t1 = t0 * x2 / 1_000_000_000 / 6;
    let t2 = t1 * x2 / 1_000_000_000 * 9 / 20;
    let t3 = t2 * x2 / 1_000_000_000 * 25 / 42;
    let t4 = t3 * x2 / 1_000_000_000 * 49 / 72;
    let t5 = t4 * x2 / 1_000_000_000 * 81 / 110;
    let t6 = t5 * x2 / 1_000_000_000 * 121 / 156;
    let t7 = t6 * x2 / 1_000_000_000 * 169 / 210;
    t0 + t1 + t2 + t3 + t4 + t5 + t6 + t7
}

/// The central angle c = 2 asin(sqrt(a)) in nano-radians, taking the
/// complementary branch when a > 1/2 so the arcsine argument stays small.
pub open spec fn spec_central_angle(a: int) -> int {
    if a <= 500_000_000 {
        2 * spec_asin_small(sqrt_floor(a * 1_000_000_000))
    } else {
        3_141_592_654 - 2 * spec_asin_small(sqrt_floor((1_000_000_000 - a) * 1_000_000_000))
    }
}

/// Great-circle distance in milli-kilometres between two points given in
/// micro-degrees. Coordinates are first clamped into the valid ranges, so
/// the function is total.
pub open spec fn spec_distance_milli_km(lat1: int, lon1: int, lat2: int, lon2: int) -> int {
    let la1 = clamp_spec(lat1, -90_000_000, 90_000_000);
    let lo1 = clamp_spec(lon1, -180_000_000, 180_000_000);
    let la2 = clamp_spec(lat2, -90_000_000, 90_000_000);
    let lo2 = clamp_spec(lon2, -180_000_000, 180_000_000);
    let a = spec_haversine_a(la1, lo1, la2, lo2);
    6_371_000 * spec_central_angle(a) / 1_000_000_000
}

/// The distance between two locations, reading their coordinates.
pub open spec fn spec_location_distance(a: GeoLocation, b: GeoLocation) -> int {
    spec_distance_milli_km(
        a.latitude_micro_deg as int,
        a.longitude_micro_deg as int,
        b.latitude_micro_deg as int,
        b.longitude_micro_deg as int,
    )
}

/// Multiply two bounded non-negative values and divide by a positive
/// scale, exactly as the specification's a * b / d.
fn mul_div(a: u128, b: u128, d: u128, Ghost(ca): Ghost<int>, Ghost(cb): Ghost<int>) -> (r: u128)
    requires
        a <= ca,
        b <= cb,
        0 < d,
        ca * cb <= u128::MAX,
    ensures
        r as int == (a as int) * (b as int) / (d as int),
        r <= ca * cb / (d as int),
{
    proof {
        assert((a as int) * (b as int) <= ca * cb) by (nonlinear_arith)
            requires
                0 <= a as int <= ca,
                0 <= b as int <= cb,
        ;
        lemma_div_is_ordered((a as int) * (b as int), ca * cb, d as int);
    }
    (a * b) / d
}

/// The integer square root by bisection.
fn isqrt(n: u128) -> (r: u128)
    requires
        n <= 1_000_000_000_000_000_000,
    ensures
        r * r <= n < (r + 1) * (r + 1),
        r as int == sqrt_floor(n as int),
        r <= 1_000_000_000,
{
    let mut lo: u128 = 0;
    let mut hi: u128 = 1_000_000_001;
    proof {
        assert((1_000_000_001 as int) * (1_000_000_001 as int) > n as int);
    }
    while hi - lo > 1
        invariant
            n <= 1_000_000_000_000_000_000,
            lo < hi <= 1_000_000_001,
            lo * lo <= n,
            n < hi * hi,
        decreases hi - lo,
    {
        let delta: u128 = hi - lo;
        let step: u128 = delta / 2;
        proof {
            assert(delta == 2 * (delta as int / 2) + (delta as int % 2));
            assert(1 <= step as int && (step as int) < (delta as int));
        }
        let mid: u128 = lo + step;
        proof {
            assert((mid as int) * (mid as int) <= 1_000_000_001 * 1_000_000_001)
                by (nonlinear_arith)
                requires
                    0 <= mid as int <= 1_000_000_001,
            ;
        }
        if mid * mid <= n {
            lo = mid;
        } else {
            hi = mid;
        }
    }
    proof {
        lemma_sqrt_floor_unique(n as int, lo as int);
        assert(lo <= 1_000_000_000) by (nonlinear_arith)
            requires
                0 <= lo as int,
                (lo as int) * (lo as int) <= 1_000_000_000_000_000_000,
        ;
    }
    lo
}

/// Micro-degrees to nano-radians.
fn to_nano_rad(micro_deg: u128) -> (r: u128)
    requires
        micro_deg <= 180_000_000,
    ensures
        r as int == spec_to_nano_rad(micro_deg as int),
        r <= 3_141_592_650,
    {
    proof {
        lemma_div_is_ordered(
            (micro_deg as int) * 174_532_925,
            (180_000_000 * 174_532_925) as int,
            10_000_000,
        );
    }
    micro_deg * 174_532_925 / 10_000_000
}

/// Sine on [0, pi/2] by truncated series.
fn sin_quarter(r: u128) -> (s: u128)
    requires
        r <= 1_570_796_327,
    ensures
        s as int == spec_sin_quarter(r as int),
        s <= 1_000_000_000,
{
    let r2: u128 = mul_div(r, r, 1_000_000_000, Ghost(1_571_000_000), Ghost(1_571_000_000));
    let t1: u128 = r;
    let u2: u128 = mul_div(t1, r2, 1_000_000_000, Ghost(1_571_000_000), Ghost(2_500_000_000));
    let t2: u128 = u2 / 6;
    proof {
        lemma_div_is_ordered(u2 as int, 4_000_000_000, 6);
    }
    let u3: u128 = mul_div(t2, r2, 1_000_000_000, Ghost(700_000_000), Ghost(2_500_000_000));
    let t3: u128 = u3 / 20;
    proof {
        lemma_div_is_ordered(u3 as int, 1_800_000_000, 20);
    }
    let u4: u128 = mul_div(t3, r2, 1_000_000_000, Ghost(100_000_000), Ghost(2_500_000_000));
    let t4: u128 = u4 / 42;
    proof {
        lemma_div_is_ordered(u4 as int, 300_000_000, 42);
    }
    let u5: u128 = mul_div(t4, r2, 1_000_000_000, Ghost(8_000_000), Ghost(2_500_000_000));
    let t5: u128 = u5 / 72;
    proof {
        lemma_div_is_ordered(u5 as int, 20_000_000, 72);
    }
    let u6: u128 = mul_div(t5, r2, 1_000_000_000, Ghost(300_000), Ghost(2_500_000_000));
    let t6: u128 = u6 / 110;
    let pos: u128 = t1 + t3 + t5;
    let neg: u128 = t2 + t4 + t6;
    if pos >= neg {
        let s: u128 = pos - neg;
        if s > 1_000_000_000 {
            1_000_000_000
        } else {
            s
        }
    } else {
        0
    }
}

/// Sine on [0, pi], folded onto [0, pi/2].
fn sin_half(r: u128) -> (s: u128)
    requires
        r <= 3_141_592_650,
    ensures
        s as int == spec_sin_half(r as int),
        s <= 1_000_000_000,
{
    if r <= 1_570_796_327 {
        sin_quarter(r)
    } else {
        sin_quarter(3_141_592_654 - r)
    }
}

/// Cosine of a latitude given in micro-degrees.
fn cos_lat(lat_micro: i64) -> (c: u128)
    requires
        -90_000_000 <= lat_micro <= 90_000_000,
    ensures
        c as int == spec_cos_lat(lat_micro as int),
        c <= 1_000_000_000,
{
    let a: i64 = if lat_micro < 0 {
        -lat_micro
    } else {
        lat_micro
    };
    let complement: u128 = (90_000_000 - a) as u128;
    let r = to_nano_rad(complement);
    proof {
        lemma_div_is_ordered(
            (complement as int) * 174_532_925,
            (90_000_000 * 174_532_925) as int,
            10_000_000,
        );
    }
    sin_quarter(r)
}

/// Squared sine of half an angle given in micro-degrees.
fn half_angle_sin_sq(d_micro: u128) -> (q: u128)
    requires
        d_micro <= 360_000_000,
    ensures
        q as int == spec_half_angle_sin_sq(d_micro as int),
        q <= 1_000_000_000,
{
    let half: u128 = d_micro / 2;
    proof {
        lemma_div_is_ordered(d_micro as int, 360_000_000, 2);
    }
    let r = to_nano_rad(half);
    let s = sin_half(r);
    mul_div(s, s, 1_000_000_000, Ghost(1_000_000_000), Ghost(1_000_000_000))
}

/// Arcsine by truncated series, valid for arguments up to about 0.708.
fn asin_small(x: u128) -> (r: u128)
    requires
        x <= 707_200_000,
    ensures
        r as int == spec_asin_small(x as int),
        r <= 800_000_000,
{
    let x2: u128 = mul_div(x, x, 1_000_000_000, Ghost(710_000_000), Ghost(710_000_000));
    let t0: u128 = x;
    let u1: u128 = mul_div(t0, x2, 1_000_000_000, Ghost(710_000_000), Ghost(510_000_000));
    let t1: u128 = u1 / 6;
    proof {
        lemma_div_is_ordered(u1 as int, 370_000_000, 6);
    }
    let u2: u128 = mul_div(t1, x2, 1_000_000_000, Ghost(62_000_000), Ghost(510_000_000));
    let t2: u128 = u2 * 9 / 20;
    proof {
        lemma_div_is_ordered(((u2 as int) * 9) as int, (32_000_000 * 9) as int, 20);
    }
    let u3: u128 = mul_div(t2, x2, 1_000_000_000, Ghost(15_000_000), Ghost(510_000_000));
    let t3: u128 = u3 * 25 / 42;
    proof {
        lemma_div_is_ordered(((u3 as int) * 25) as int, (8_000_000 * 25) as int, 42);
    }
    let u4: u128 = mul_div(t3, x2, 1_000_000_000, Ghost(5_000_000), Ghost(510_000_000));
    let t4: u128 = u4 * 49 / 72;
    proof {
        lemma_div_is_ordered(((u4 as int) * 49) as int, (3_000_000 * 49) as int, 72);
    }
    let u5: u128 = mul_div(t4, x2, 1_000_000_000, Ghost(2_100_000), Ghost(510_000_000));
    let t5: u128 = u5 * 81 / 110;
    proof {
        lemma_div_is_ordered(((u5 as int) * 81) as int, (1_100_000 * 81) as int, 110);
    }
    let u6: u128 = mul_div(t5, x2, 1_000_000_000, Ghost(900_000), Ghost(510_000_000));
    let t6: u128 = u6 * 121 / 156;
    proof {
        lemma_div_is_ordered(((u6 as int) * 121) as int, (500_000 * 121) as int, 156);
    }
    let u7: u128 = mul_div(t6, x2, 1_000_000_000, Ghost(400_000), Ghost(510_000_000));
    let t7: u128 = u7 * 169 / 210;
    proof {
        lemma_div_is_ordered(((u7 as int) * 169) as int, (210_000 * 169) as int, 210);
    }
    t0 + t1 + t2 + t3 + t4 + t5 + t6 + t7
}

/// The central angle from the haversine intermediate.
fn central_angle(a: u128) -> (c: u128)
    requires
        a <= 1_000_000_000,
    ensures
        c as int == spec_central_angle(a as int),
        c <= 3_141_592_654,
{
    if a <= 500_000_000 {
        let s = isqrt(a * 1_000_000_000);
        proof {
            assert(s <= 707_106_781) by (nonlinear_arith)
                requires
                    0 <= s as int,
                    (s as int) * (s as int) <= 500_000_000_000_000_000,
            ;
        }
        2 * asin_small(s)
    } else {
        let t = isqrt((1_000_000_000 - a) * 1_000_000_000);
        proof {
            assert(t <= 707_106_781) by (nonlinear_arith)
                requires
                    0 <= t as int,
                    (t as int) * (t as int) <= 500_000_000_000_000_000,
            ;
        }
        3_141_592_654 - 2 * asin_small(t)
    }
}

/// The integer square root exists for every non-negative argument, so its
/// defining properties hold of sqrt_floor(n) itself.
pub proof fn lemma_sqrt_floor_props(n: int)
    requires
        0 <= n,
    ensures
        0 <= sqrt_floor(n),
        sqrt_floor(n) * sqrt_floor(n) <= n,
        n < (sqrt_floor(n) + 1) * (sqrt_floor(n) + 1),
    decreases n,
{
    if n == 0 {
        lemma_sqrt_floor_unique(0, 0);
    } else {
        lemma_sqrt_floor_props(n - 1);
        let r = sqrt_floor(n - 1);
        if n == (r + 1) * (r + 1) {
            assert(n < (r + 2) * (r + 2)) by (nonlinear_arith)
                requires
                    0 <= r,
                    n == (r + 1) * (r + 1),
            ;
            lemma_sqrt_floor_unique(n, r + 1);
        } else {
            lemma_sqrt_floor_unique(n, r);
        }
    }
}

/// The truncated arcsine series is at least its argument: every term after
/// the first is non-negative.
pub proof fn lemma_asin_small_at_least_argument(x: int)
    requires
        0 <= x,
    ensures
        spec_asin_small(x) >= x,
{
    let b = 1_000_000_000;
    assert(0 <= x * x) by (nonlinear_arith);
    lemma_div_pos_is_pos(x * x, b);
    let x2 = x * x / b;
    let t0 = x;
    assert(0 <= t0 * x2) by (nonlinear_arith)
        requires
            0 <= t0,
            0 <= x2,
    ;
    lemma_div_pos_is_pos(t0 * x2, b);
    lemma_div_pos_is_pos(t0 * x2 / b, 6);
    let t1 = t0 * x2 / b / 6;
    assert(0 <= t1 * x2) by (nonlinear_arith)
        requires
            0 <= t1,
            0 <= x2,
    ;
    lemma_div_pos_is_pos(t1 * x2, b);
    lemma_div_pos_is_pos(t1 * x2 / b * 9, 20);
    let t2 = t1 * x2 / b * 9 / 20;
    assert(0 <= t2 * x2) by (nonlinear_arith)
        requires
            0 <= t2,
            0 <= x2,
    ;
    lemma_div_pos_is_pos(t2 * x2, b);
    lemma_div_pos_is_pos(t2 * x2 / b * 25, 42);
    let t3 = t2 * x2 / b * 25 / 42;
    assert(0 <= t3 * x2) by (nonlinear_arith)
        requires
            0 <= t3,
            0 <= x2,
    ;
    lemma_div_pos_is_pos(t3 * x2, b);
    lemma_div_pos_is_pos(t3 * x2 / b * 49, 72);
    let t4 = t3 * x2 / b * 49 / 72;
    assert(0 <= t4 * x2) by (nonlinear_arith)
        requires
            0 <= t4,
            0 <= x2,
    ;
    lemma_div_pos_is_pos(t4 * x2, b);
    lemma_div_pos_is_pos(t4 * x2 / b * 81, 110);
    let t5 = t4 * x2 / b * 81 / 110;
    assert(0 <= t5 * x2) by (nonlinear_arith)
        requires
            0 <= t5,
            0 <= x2,
    ;
    lemma_div_pos_is_pos(t5 * x2, b);
    lemma_div_pos_is_pos(t5 * x2 / b * 121, 156);
    let t6 = t5 * x2 / b * 121 / 156;
    assert(0 <= t6 * x2) by (nonlinear_arith)
        requires
            0 <= t6,
            0 <= x2,
    ;
    lemma_div_pos_is_pos(t6 * x2, b);
    lemma_div_pos_is_pos(t6 * x2 / b * 169, 210);
}

/// A haversine intermediate of at least 0.36 (in nano-units) yields a
/// central angle of at least 1.2 radians: the square root of a is at least
/// 0.6 and the arcsine is at least its argument.
pub proof fn lemma_central_angle_lower(a: int)
    requires
        360_000_000 <= a <= 500_000_000,
    ensures
        spec_central_angle(a) >= 1_200_000_000,
{
    let n = a * 1_000_000_000;
    lemma_sqrt_floor_props(n);
    let s = sqrt_floor(n);
    assert(s >= 600_000_000) by (nonlinear_arith)
        requires
            0 <= s,
            (s + 1) * (s + 1) > 360_000_000_000_000_000,
    ;
    lemma_asin_small_at_least_argument(s);
}

/// Clamp a coordinate into an inclusive range.
fn clamp_i64(x: i64, lo: i64, hi: i64) -> (r: i64)
    requires
        lo <= hi,
    ensures
        r as int == clamp_spec(x as int, lo as int, hi as int),
        lo <= r <= hi,
{
    if x < lo {
        lo
    } else if x > hi {
        hi
    } else {
        x
    }
}

/// Great-circle distance between two locations in milli-kilometres
/// (metres), by the haversine formula with Earth radius 6371 km, evaluated
/// in exact integer fixed point. Out-of-range coordinates are clamped first,
/// so every pair of locations has a distance.
pub fn calculate_distance(loc1: &GeoLocation, loc2: &GeoLocation) -> (d: u64)
    ensures
        d as int == spec_location_distance(*loc1, *loc2),
        d <= 21_000_000,
{
    let la1: i64 = clamp_i64(loc1.latitude_micro_deg, -90_000_000, 90_000_000);
    let lo1: i64 = clamp_i64(loc1.longitude_micro_deg, -180_000_000, 180_000_000);
    let la2: i64 = clamp_i64(loc2.latitude_micro_deg, -90_000_000, 90_000_000);
    let lo2: i64 = clamp_i64(loc2.longitude_micro_deg, -180_000_000, 180_000_000);

    let dlat_signed: i64 = la2 - la1;
    let dlat: u128 = (if dlat_signed < 0 {
        -dlat_signed
    } else {
        dlat_signed
    }) as u128;
    let dlon_signed: i64 = lo2 - lo1;
    let dlon: u128 = (if dlon_signed < 0 {
        -dlon_signed
    } else {
        dlon_signed
    }) as u128;

    let s1 = half_angle_sin_sq(dlat);
    let s2 = half_angle_sin_sq(dlon);
    let c1 = cos_lat(la1);
    let c2 = cos_lat(la2);
    let cc = mul_div(c1, c2, 1_000_000_000, Ghost(1_000_000_000), Ghost(1_000_000_000));
    let t = mul_div(cc, s2, 1_000_000_000, Ghost(1_000_000_000), Ghost(1_000_000_000));
    let sum: u128 = s1 + t;
    let a: u128 = if sum > 1_000_000_000 {
        1_000_000_000
    } else {
        sum
    };
    let c = central_angle(a);
    proof {
        lemma_div_is_ordered(
            6_371_000 * (c as int),
            (6_371_000 * 3_141_592_654) as int,
            1_000_000_000,
        );
    }
    let d: u128 = 6_371_000 * c / 1_000_000_000;
    d as u64
}

/// Distance symmetry: the distance from a to b equals the distance from b
/// to a, for every pair of locations.
pub proof fn lemma_distance_symmetry(a: GeoLocation, b: GeoLocation)
    ensures
        spec_location_distance(a, b) == spec_location_distance(b, a),
{
}

/// Distance identity: the distance from any location to itself is zero.
pub proof fn lemma_distance_identity(a: GeoLocation)
    ensures
        spec_location_distance(a, a) == 0,
{
    let la = clamp_spec(a.latitude_micro_deg as int, -90_000_000, 90_000_000);
    let lo = clamp_spec(a.longitude_micro_deg as int, -180_000_000, 180_000_000);
    assert(spec_to_nano_rad(0) == 0);
    assert(spec_sin_quarter(0) == 0);
    assert(spec_half_angle_sin_sq(0) == 0);
    let cc = spec_cos_lat(la) * spec_cos_lat(la) / 1_000_000_000;
    assert(cc * 0 == 0);
    vstd::arithmetic::div_mod::lemma_div_of0(1_000_000_000);
    assert(spec_haversine_a(la, lo, la, lo) == 0);
    lemma_sqrt_floor_unique(0, 0);
    assert(spec_asin_small(0) == 0);
    assert(spec_central_angle(0) == 0);
}

} // verus!
