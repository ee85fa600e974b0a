use aphelion::time::FIRST_JULIAN_DAY;
use aphelion::{format_iso8601, gregorian_to_julian_day, julian_day_to_gregorian, J2000_JULIAN_DAY_NUMBER};

#[test]
fn j2000_is_the_reference_julian_date() {
    assert_eq!(gregorian_to_julian_day(2000, 1, 1), J2000_JULIAN_DAY_NUMBER);
    assert_eq!(julian_day_to_gregorian(J2000_JULIAN_DAY_NUMBER), (2000, 1, 1));
    assert_eq!(format_iso8601(2000, 1, 1, 12, 0, 0), "2000-01-01T12:00:00");
}

#[test]
fn calendar_conversion_round_trips() {
    for &(y, mo, d, h, mi) in &[
        (2000, 1, 1, 12, 0),
        (1969, 7, 20, 20, 17),
        (2026, 8, 13, 6, 30),
        (2149, 12, 31, 23, 59),
    ] {
        let jdn = gregorian_to_julian_day(y, mo, d);
        let (ry, rmo, rd) = julian_day_to_gregorian(jdn);
        assert_eq!((y, mo, d), (ry, rmo, rd), "round trip failed for day {jdn}");
        assert_eq!(
            format_iso8601(ry, rmo, rd, h, mi, 0),
            format!("{y:04}-{mo:02}-{d:02}T{h:02}:{mi:02}:00")
        );
    }
}

#[test]
fn known_day_numbers() {
    // The Modified Julian Date epoch and the Apollo 11 landing.
    assert_eq!(gregorian_to_julian_day(1858, 11, 17), 2_400_001);
    assert_eq!(gregorian_to_julian_day(1969, 7, 20), 2_440_423);
    // Day zero of the Julian period, in the proleptic Gregorian calendar.
    assert_eq!(julian_day_to_gregorian(0), (-4713, 11, 24));
    assert_eq!(gregorian_to_julian_day(-4713, 11, 24), 0);
}

#[test]
fn leap_days_are_counted_by_the_gregorian_rule() {
    // 2000 is a leap year (divisible by 400)...
    assert_eq!(gregorian_to_julian_day(2000, 2, 29) + 1, gregorian_to_julian_day(2000, 3, 1));
    assert_eq!(julian_day_to_gregorian(gregorian_to_julian_day(2000, 3, 1) - 1), (2000, 2, 29));
    // ... 1900 is not (divisible by 100 only) ...
    assert_eq!(gregorian_to_julian_day(1900, 2, 28) + 1, gregorian_to_julian_day(1900, 3, 1));
    assert_eq!(julian_day_to_gregorian(gregorian_to_julian_day(1900, 3, 1) - 1), (1900, 2, 28));
    // ... and 2024 is (divisible by 4).
    assert_eq!(julian_day_to_gregorian(gregorian_to_julian_day(2024, 3, 1) - 1), (2024, 2, 29));
}

#[test]
fn the_supported_range_starts_on_1_march_of_minus_4800() {
    assert_eq!(gregorian_to_julian_day(-4800, 3, 1), FIRST_JULIAN_DAY);
    assert_eq!(julian_day_to_gregorian(FIRST_JULIAN_DAY), (-4800, 3, 1));
}

#[test]
fn every_day_number_reads_back_to_itself() {
    let mut jdn = FIRST_JULIAN_DAY;
    while jdn < 3_000_000 {
        let (y, m, d) = julian_day_to_gregorian(jdn);
        assert!((1..=12).contains(&m) && (1..=31).contains(&d), "day {jdn} read as {y}-{m}-{d}");
        assert_eq!(gregorian_to_julian_day(y, m, d), jdn);
        jdn += 37;
    }
}

#[test]
fn consecutive_dates_have_consecutive_day_numbers() {
    let mut previous = gregorian_to_julian_day(1999, 12, 31);
    for jdn in previous + 1..previous + 3000 {
        let (y, m, d) = julian_day_to_gregorian(jdn);
        let back = gregorian_to_julian_day(y, m, d);
        assert_eq!(back, previous + 1);
        previous = back;
    }
}

#[test]
fn far_years_round_trip() {
    for &(y, m, d) in &[(i32::MAX, 12, 31), (1_000_000, 2, 29), (-4000, 2, 29), (-1, 1, 1), (0, 2, 29)] {
        assert_eq!(julian_day_to_gregorian(gregorian_to_julian_day(y, m, d)), (y, m, d));
    }
}

#[test]
fn the_iso_text_is_zero_padded() {
    assert_eq!(format_iso8601(-44, 3, 15, 0, 0, 0), "-044-03-15T00:00:00");
    assert_eq!(format_iso8601(12345, 10, 5, 9, 8, 7), "12345-10-05T09:08:07");
    assert_eq!(format_iso8601(7, 1, 2, 3, 4, 5), "0007-01-02T03:04:05");
    assert_eq!(format_iso8601(0, 1, 1, 0, 0, 59), "0000-01-01T00:00:59");
}
