use geo_sidecar::geo::{calculate_distance, GeoLocation};

fn place(name: &str, lat_micro: i64, lon_micro: i64) -> GeoLocation {
    GeoLocation {
        country: String::from("X"),
        region: String::from("X"),
        city: String::from(name),
        latitude_micro_deg: lat_micro,
        longitude_micro_deg: lon_micro,
        timezone: String::from("UTC"),
    }
}

fn tokyo() -> GeoLocation {
    place("Tokyo", 35_676_200, 139_650_300)
}

fn paris() -> GeoLocation {
    place("Paris", 48_856_600, 2_352_200)
}

#[test]
fn distance_identity_is_zero() {
    assert_eq!(calculate_distance(&tokyo(), &tokyo()), 0);
    assert_eq!(calculate_distance(&paris(), &paris()), 0);
    let odd = place("odd", -89_999_999, 179_999_999);
    assert_eq!(calculate_distance(&odd, &odd), 0);
}

#[test]
fn distance_is_symmetric() {
    let ab = calculate_distance(&tokyo(), &paris());
    let ba = calculate_distance(&paris(), &tokyo());
    assert_eq!(ab, ba);
    let a = place("a", 10_000_000, -20_000_000);
    let b = place("b", -45_500_000, 170_250_000);
    assert_eq!(calculate_distance(&a, &b), calculate_distance(&b, &a));
}

#[test]
fn paris_tokyo_distance_is_about_9713_km() {
    let d = calculate_distance(&paris(), &tokyo());
    // The reference great-circle distance is about 9713 km; the fixed-point
    // pipeline should land within a few kilometres of it.
    assert!(d > 9_690_000, "distance too small: {} m", d);
    assert!(d < 9_740_000, "distance too large: {} m", d);
}

#[test]
fn equator_degree_is_about_111_km() {
    let a = place("a", 0, 0);
    let b = place("b", 0, 1_000_000);
    let d = calculate_distance(&a, &b);
    assert!(d > 110_000 && d < 112_500, "got {} m", d);
}

#[test]
fn out_of_range_coordinates_are_clamped() {
    let wild = place("wild", 95_000_000, 200_000_000);
    let clamped = place("pole", 90_000_000, 180_000_000);
    assert_eq!(
        calculate_distance(&wild, &paris()),
        calculate_distance(&clamped, &paris())
    );
}

#[test]
fn default_location_is_unknown_at_origin() {
    let d = GeoLocation::default();
    assert_eq!(d.country, "Unknown");
    assert_eq!(d.region, "Unknown");
    assert_eq!(d.city, "Unknown");
    assert_eq!(d.latitude_micro_deg, 0);
    assert_eq!(d.longitude_micro_deg, 0);
    assert_eq!(d.timezone, "UTC");
}
